//! From a document to its events: the nodes of the document, the directives
//! in its comment blocks, and the pages that its breaks and its content open.

use markdown::mdast::Node;
use markdown::ParseOptions;
use vstd::prelude::*;
use crate::decimal::{parse_count, parse_fixed, read_count, read_fixed};
use crate::environment::Environment;
use crate::event::{Event, EventView, FULL_VOLUME};
use crate::path::{join, joined};
use crate::text::{
    begins_with, chars_of, contains_text, ends_with, finishes_with, holds_text, is_text,
    has_at, lemma_chars_deep_view, slice_of, split, split_at_first, split_chars, split_once,
    starts_with, string_of, trim, trimmed,
};

verus! {

/// A sound effect as the document asks for it.
#[derive(Debug, Clone)]
pub struct RawFgSoundEvent {
    pub path: String,
    /// In thousandths of a percent.
    pub volume: u64,
}

/// A sound effect as contracts see it.
pub struct RawFgSoundView {
    pub path: Seq<char>,
    pub volume: u64,
}

impl DeepView for RawFgSoundEvent {
    type V = RawFgSoundView;

    open spec fn deep_view(&self) -> RawFgSoundView {
        RawFgSoundView { path: self.path@, volume: self.volume }
    }
}

/// A narration as the document asks for it.
#[derive(Debug, Clone)]
pub struct RawVoiceEvent {
    pub text: String,
    pub profile: String,
}

/// A narration as contracts see it.
pub struct RawVoiceView {
    pub text: Seq<char>,
    pub profile: Seq<char>,
}

impl DeepView for RawVoiceEvent {
    type V = RawVoiceView;

    open spec fn deep_view(&self) -> RawVoiceView {
        RawVoiceView { text: self.text@, profile: self.profile@ }
    }
}

/// An event as the document asks for it.
pub type RawEvent = Event<RawVoiceEvent, RawFgSoundEvent>;

/// An event of the document as contracts see it.
pub type RawEventView = EventView<RawVoiceView, RawFgSoundView>;

/// What one part of a document comes to.
#[derive(Debug, Clone)]
pub enum RawDocElement {
    /// A break: a page starts here.
    MarpPageMarker,
    /// Something that a page shows.
    MarpContentMarker,
    /// An event that a directive asks for.
    MVEvent(RawEvent),
}

/// An element as contracts see it.
pub enum RawDocElementView {
    MarpPageMarker,
    MarpContentMarker,
    MVEvent(RawEventView),
}

impl DeepView for RawDocElement {
    type V = RawDocElementView;

    open spec fn deep_view(&self) -> RawDocElementView {
        match self {
            RawDocElement::MarpPageMarker => RawDocElementView::MarpPageMarker,
            RawDocElement::MarpContentMarker => RawDocElementView::MarpContentMarker,
            RawDocElement::MVEvent(e) => RawDocElementView::MVEvent(e.deep_view()),
        }
    }
}

/// A node at the top of a document's tree, with what the rules below read of
/// it.
#[derive(Debug, Clone)]
pub enum DocNode {
    ThematicBreak,
    Heading { depth: u8 },
    Html { value: String },
    Yaml { value: String },
    Toml,
    Root,
    TableRow,
    TableCell,
    ListItem,
    /// Any other node: something that a page shows.
    Content,
}

/// A node as contracts see it.
pub enum DocNodeView {
    ThematicBreak,
    Heading { depth: u8 },
    Html { value: Seq<char> },
    Yaml { value: Seq<char> },
    Toml,
    Root,
    TableRow,
    TableCell,
    ListItem,
    Content,
}

impl DeepView for DocNode {
    type V = DocNodeView;

    open spec fn deep_view(&self) -> DocNodeView {
        match self {
            DocNode::ThematicBreak => DocNodeView::ThematicBreak,
            DocNode::Heading { depth } => DocNodeView::Heading { depth: *depth },
            DocNode::Html { value } => DocNodeView::Html { value: value@ },
            DocNode::Yaml { value } => DocNodeView::Yaml { value: value@ },
            DocNode::Toml => DocNodeView::Toml,
            DocNode::Root => DocNodeView::Root,
            DocNode::TableRow => DocNodeView::TableRow,
            DocNode::TableCell => DocNodeView::TableCell,
            DocNode::ListItem => DocNodeView::ListItem,
            DocNode::Content => DocNodeView::Content,
        }
    }
}

/// The metadata block of a document.
#[derive(Debug, Clone, Copy)]
pub struct Frontmatter {
    pub marp_video: Option<bool>,
    pub marp: Option<bool>,
    /// Headings of this depth or less start a page; zero for none.
    pub heading_divider: u8,
}

/// The events of a document, in its order.
#[derive(Debug, Clone)]
pub struct DocEvents {
    pub events: Vec<RawEvent>,
}

/// `markdown::message::Message`: what the markdown parser says of a text that
/// it refuses. Nothing is read of it here.
#[verifier::external_type_specification]
#[verifier::external_body]
pub struct ExMessage(markdown::message::Message);

/// Why a document yields no events.
#[derive(Debug)]
pub enum ParseError {
    /// The text is no markdown that the parser takes.
    Markdown(markdown::message::Message),
    /// The document does not open with a metadata block.
    FrontmatterIsNotExist,
    /// The metadata does not declare a presentation.
    NonMarpDocument,
    /// The metadata does not declare a presentation for narrated video.
    NonMarpVideoDocument,
    /// The document does not open on a page.
    FirstElementIsNotPage,
    /// A comment sets the heading divider; only the metadata block may.
    HeadingDividerComment,
    /// The tree of the document holds a second root.
    NestedRoot,
    /// A metadata block stands after the start of the document.
    MisplacedFrontmatter,
    /// A table row, a table cell or a list item stands outside its container.
    MisplacedItem,
}

/// The two texts around the first `sep` of `s`, each without the white space
/// around it.
pub open spec fn key_value(s: Seq<char>, sep: char) -> Option<(Seq<char>, Seq<char>)> {
    match split_once(s, sep) {
        Some((key, value)) => Some((trim(key), trim(value))),
        None => None,
    }
}

/// What the properties of a sound say.
pub struct SoundProps {
    pub path: Option<Seq<char>>,
    pub volume: u64,
}

/// The number of decimals that a volume keeps.
pub const VOLUME_DECIMALS: u32 = 3;

/// The properties after one more `key=value`: `path` and `volume` set theirs,
/// any other key and any volume that is no number are faults.
pub open spec fn with_property(props: SoundProps, property: Seq<char>) -> Option<SoundProps> {
    match key_value(property, '=') {
        Some((key, value)) => {
            if key == "path"@ {
                Some(SoundProps { path: Some(value), volume: props.volume })
            } else if key == "volume"@ {
                match parse_fixed(value, VOLUME_DECIMALS as nat) {
                    Some(volume) => Some(SoundProps { path: props.path, volume }),
                    None => None,
                }
            } else {
                None
            }
        },
        None => None,
    }
}

/// What a list of properties says, read from the left: a later value of a
/// key replaces an earlier one, and one fault spoils the list. Without a
/// `volume` the volume is full.
pub open spec fn sound_props(properties: Seq<Seq<char>>) -> Option<SoundProps>
    decreases properties.len(),
{
    if properties.len() == 0 {
        Some(SoundProps { path: None, volume: FULL_VOLUME })
    } else {
        match sound_props(properties.drop_last()) {
            Some(props) => with_property(props, properties.last()),
            None => None,
        }
    }
}

/// The path that the value of an image page names: what follows the key
/// `path=`, whole. A value without the key is itself the path.
pub open spec fn image_path(value: Seq<char>) -> Seq<char> {
    if starts_with(value, "path="@) {
        value.skip("path="@.len() as int)
    } else {
        value
    }
}

/// The event that one line of a directive block asks for, in a document whose
/// directory is `md_dir`; `None` for a line that asks for nothing.
pub open spec fn directive(md_dir: Seq<char>, line: Seq<char>) -> Option<RawEventView> {
    match key_value(line, ':') {
        None => None,
        Some((key, value)) => {
            if key == "speak"@ {
                Some(EventView::Voice(RawVoiceView { text: value, profile: "default"@ }))
            } else if key == "speak_in"@ {
                match key_value(value, ':') {
                    Some((profile, text)) => Some(EventView::Voice(RawVoiceView { text, profile })),
                    None => None,
                }
            } else if key == "blank"@ {
                match parse_count(value) {
                    Some(millis) => Some(EventView::BlankMs(millis)),
                    None => None,
                }
            } else if key == "bgcolor"@ {
                Some(EventView::CPageMarker { color: value })
            } else if key == "bgimage"@ {
                Some(EventView::IPageMarker { path: join(md_dir, image_path(value)) })
            } else if key == "sound_effect"@ {
                match sound_props(split(value, ',')) {
                    Some(SoundProps { path: Some(path), volume }) => Some(
                        EventView::SoundEffect(
                            RawFgSoundView { path: join(md_dir, path), volume },
                        ),
                    ),
                    _ => None,
                }
            } else if key == "bgm"@ {
                match sound_props(split(value, ',')) {
                    Some(SoundProps { path: Some(path), volume }) => Some(
                        EventView::MVBGMMarker {
                            path: if path == "none"@ {
                                None
                            } else {
                                Some(join(md_dir, path))
                            },
                            volume,
                        },
                    ),
                    _ => None,
                }
            } else {
                None
            }
        },
    }
}

fn key_value_of(v: &Vec<char>, sep: char) -> (r: Option<(Vec<char>, Vec<char>)>)
    ensures
        match r {
            Some((key, value)) => key_value(v@, sep) == Some((key@, value@)),
            None => key_value(v@, sep) is None,
        },
{
    match split_at_first(v, sep) {
        Some((key, value)) => Some((trimmed(&key), trimmed(&value))),
        None => None,
    }
}

/// The path and the volume that a list of properties gives.
fn read_sound_props(value: &Vec<char>) -> (r: Option<(Option<Vec<char>>, u64)>)
    ensures
        match r {
            Some((Some(path), volume)) => sound_props(split(value@, ',')) == Some(
                SoundProps { path: Some(path@), volume },
            ),
            Some((None, volume)) => sound_props(split(value@, ',')) == Some(
                SoundProps { path: None, volume },
            ),
            None => sound_props(split(value@, ',')) is None,
        },
{
    let parts = split_chars(value, ',');
    let mut path: Option<Vec<char>> = None;
    let mut volume: u64 = FULL_VOLUME;
    let mut i: usize = 0;
    let ghost all = parts.deep_view();
    while i < parts.len()
        invariant
            i <= parts.len(),
            all == parts.deep_view(),
            all == split(value@, ','),
            match path {
                Some(p) => sound_props(all.take(i as int)) == Some(
                    SoundProps { path: Some(p@), volume },
                ),
                None => sound_props(all.take(i as int)) == Some(SoundProps { path: None, volume }),
            },
        decreases parts.len() - i,
    {
        proof {
            lemma_chars_deep_view(parts@[i as int]);
            assert(all.take(i + 1).drop_last() == all.take(i as int));
        }
        match key_value_of(&parts[i], '=') {
            Some((key, val)) => {
                if is_text(&key, "path") {
                    path = Some(val);
                } else if is_text(&key, "volume") {
                    match read_fixed(&val, VOLUME_DECIMALS) {
                        Some(n) => {
                            volume = n;
                        },
                        None => {
                            proof {
                                lemma_sound_props_fault(all, i + 1);
                            }
                            return None;
                        },
                    }
                } else {
                    proof {
                        lemma_sound_props_fault(all, i + 1);
                    }
                    return None;
                }
            },
            None => {
                proof {
                    lemma_sound_props_fault(all, i + 1);
                }
                return None;
            },
        }
        i += 1;
    }
    assert(all.take(parts.len() as int) == all);
    Some((path, volume))
}

/// A list of properties is spoilt where a beginning of it is.
pub proof fn lemma_sound_props_fault(properties: Seq<Seq<char>>, k: int)
    requires
        0 <= k <= properties.len(),
        sound_props(properties.take(k)) is None,
    ensures
        sound_props(properties) is None,
    decreases properties.len(),
{
    if k == properties.len() {
        assert(properties.take(k) == properties);
    } else {
        assert(properties.drop_last().take(k) == properties.take(k));
        lemma_sound_props_fault(properties.drop_last(), k);
    }
}

/// The event that `line` asks for, with its paths taken from `md_dir`.
fn directive_of(md_dir: &Vec<char>, line: &Vec<char>) -> (r: Option<RawEvent>)
    ensures
        r.deep_view() == directive(md_dir@, line@),
{
    let (key, value) = match key_value_of(line, ':') {
        Some(pair) => pair,
        None => {
            return None;
        },
    };
    if is_text(&key, "speak") {
        Some(
            Event::Voice(
                RawVoiceEvent { text: string_of(&value), profile: String::from_str("default") },
            ),
        )
    } else if is_text(&key, "speak_in") {
        match key_value_of(&value, ':') {
            Some((profile, text)) => Some(
                Event::Voice(
                    RawVoiceEvent { text: string_of(&text), profile: string_of(&profile) },
                ),
            ),
            None => None,
        }
    } else if is_text(&key, "blank") {
        match read_count(&value) {
            Some(millis) => Some(Event::BlankMs(millis)),
            None => None,
        }
    } else if is_text(&key, "bgcolor") {
        Some(Event::CPageMarker { color: string_of(&value) })
    } else if is_text(&key, "bgimage") {
        let key = chars_of("path=");
        let image = if has_at(&value, &key, 0) {
            slice_of(&value, key.len(), value.len())
        } else {
            value
        };
        Some(Event::IPageMarker { path: string_of(&joined(md_dir, &image)) })
    } else if is_text(&key, "sound_effect") {
        match read_sound_props(&value) {
            Some((Some(path), volume)) => Some(
                Event::SoundEffect(
                    RawFgSoundEvent { path: string_of(&joined(md_dir, &path)), volume },
                ),
            ),
            _ => None,
        }
    } else if is_text(&key, "bgm") {
        match read_sound_props(&value) {
            Some((Some(path), volume)) => {
                let file = if is_text(&path, "none") {
                    None
                } else {
                    Some(string_of(&joined(md_dir, &path)))
                };
                Some(Event::MVBGMMarker { path: file, volume })
            },
            _ => None,
        }
    } else {
        None
    }
}

impl Event<RawVoiceEvent, RawFgSoundEvent> {
    /// The event that one line of a directive block asks for; `None` for a
    /// line that asks for nothing.
    pub fn try_from_str(env: &Environment, s: &str) -> (r: Option<Self>)
        ensures
            r.deep_view() == directive(env.md_dir_text(), s@),
    {
        let md_dir = chars_of(env.md_dir().as_str());
        let line = chars_of(s);
        directive_of(&md_dir, &line)
    }
}

/// Whether a comment is a directive block.
pub open spec fn is_directive_block(value: Seq<char>) -> bool {
    starts_with(value, "<!--mv"@) && ends_with(value, "-->"@)
}

/// What stands in a directive block between its two marks.
pub open spec fn directive_text(value: Seq<char>) -> Seq<char> {
    value.subrange("<!--mv"@.len() as int, value.len() - "-->"@.len())
}

/// Whether a piece of markup is a comment or a style sheet: it shows nothing.
pub open spec fn is_silent_markup(value: Seq<char>) -> bool {
    starts_with(value, "<!--"@) || starts_with(value, "<style>"@)
}

/// What gives each line of a directive block the event that it asks for.
pub open spec fn directive_in(
    md_dir: Seq<char>,
) -> spec_fn(Seq<char>) -> Option<RawDocElementView> {
    |line: Seq<char>|
        match directive(md_dir, line) {
            Some(event) => Some(RawDocElementView::MVEvent(event)),
            None => None,
        }
}

/// The events that the lines of a directive block ask for, in their order;
/// a line that asks for nothing leaves nothing.
pub open spec fn directive_elements(
    md_dir: Seq<char>,
    lines: Seq<Seq<char>>,
) -> Seq<RawDocElementView> {
    lines.filter_map(directive_in(md_dir))
}

/// What one node below the metadata block comes to.
pub open spec fn node_elements(
    md_dir: Seq<char>,
    node: DocNodeView,
    heading_divider: u8,
) -> Result<Seq<RawDocElementView>, ParseError> {
    match node {
        DocNodeView::ThematicBreak => Ok(seq![RawDocElementView::MarpPageMarker]),
        DocNodeView::Heading { depth } => if depth <= heading_divider {
            Ok(seq![RawDocElementView::MarpPageMarker])
        } else {
            Ok(seq![RawDocElementView::MarpContentMarker])
        },
        DocNodeView::Html { value } => if is_directive_block(value) {
            Ok(directive_elements(md_dir, split(directive_text(value), '\n')))
        } else if is_silent_markup(value) {
            if contains_text(value, "headingDivider"@) {
                Err(ParseError::HeadingDividerComment)
            } else {
                Ok(Seq::empty())
            }
        } else {
            Ok(seq![RawDocElementView::MarpContentMarker])
        },
        DocNodeView::Content => Ok(seq![RawDocElementView::MarpContentMarker]),
        DocNodeView::Root => Err(ParseError::NestedRoot),
        DocNodeView::Toml | DocNodeView::Yaml { .. } => Err(ParseError::MisplacedFrontmatter),
        DocNodeView::TableRow | DocNodeView::TableCell | DocNodeView::ListItem => Err(
            ParseError::MisplacedItem,
        ),
    }
}

/// What a run of nodes comes to: what each comes to, one after the other, or
/// the fault of the first node that has one.
pub open spec fn raw_elements(
    md_dir: Seq<char>,
    nodes: Seq<DocNodeView>,
    heading_divider: u8,
) -> Result<Seq<RawDocElementView>, ParseError>
    decreases nodes.len(),
{
    if nodes.len() == 0 {
        Ok(Seq::empty())
    } else {
        match raw_elements(md_dir, nodes.drop_last(), heading_divider) {
            Err(fault) => Err(fault),
            Ok(head) => match node_elements(md_dir, nodes.last(), heading_divider) {
                Err(fault) => Err(fault),
                Ok(more) => Ok(head + more),
            },
        }
    }
}

/// The fault of a beginning of a run of nodes is the fault of the run.
pub proof fn lemma_raw_elements_fault(
    md_dir: Seq<char>,
    nodes: Seq<DocNodeView>,
    heading_divider: u8,
    k: int,
)
    requires
        0 <= k <= nodes.len(),
        raw_elements(md_dir, nodes.take(k), heading_divider) is Err,
    ensures
        raw_elements(md_dir, nodes, heading_divider) == raw_elements(
            md_dir,
            nodes.take(k),
            heading_divider,
        ),
    decreases nodes.len(),
{
    if k == nodes.len() {
        assert(nodes.take(k) == nodes);
    } else {
        assert(nodes.drop_last().take(k) == nodes.take(k));
        lemma_raw_elements_fault(md_dir, nodes.drop_last(), heading_divider, k);
    }
}

/// A directive block is long enough to hold both of its marks.
pub proof fn lemma_directive_block_len(value: Seq<char>)
    requires
        is_directive_block(value),
    ensures
        "<!--mv"@.len() == 6,
        "-->"@.len() == 3,
        value.len() >= 9,
{
    reveal_strlit("<!--mv");
    reveal_strlit("-->");
    let open = "<!--mv"@;
    let close = "-->"@;
    assert(open[5] == 'v');
    assert(close[0] == '-' && close[1] == '-' && close[2] == '>');
}

/// A copy of an event.
pub fn copy_event(event: &RawEvent) -> (r: RawEvent)
    ensures
        r.deep_view() == event.deep_view(),
{
    match event {
        Event::Voice(voice) => Event::Voice(
            RawVoiceEvent { text: voice.text.clone(), profile: voice.profile.clone() },
        ),
        Event::SoundEffect(sound) => Event::SoundEffect(
            RawFgSoundEvent { path: sound.path.clone(), volume: sound.volume },
        ),
        Event::BlankMs(millis) => Event::BlankMs(*millis),
        Event::MVBGMMarker { path, volume } => Event::MVBGMMarker {
            path: match path {
                Some(file) => Some(file.clone()),
                None => None,
            },
            volume: *volume,
        },
        Event::IPageMarker { path } => Event::IPageMarker { path: path.clone() },
        Event::CPageMarker { color } => Event::CPageMarker { color: color.clone() },
        Event::MPageMarker { marp_page_nth } => Event::MPageMarker {
            marp_page_nth: *marp_page_nth,
        },
    }
}

/// Appends the events that the lines of a directive block ask for.
fn push_directives(out: &mut Vec<RawDocElement>, md_dir: &Vec<char>, block: &Vec<char>)
    requires
        is_directive_block(block@),
    ensures
        final(out).deep_view() == old(out).deep_view() + directive_elements(
            md_dir@,
            split(directive_text(block@), '\n'),
        ),
{
    proof {
        lemma_directive_block_len(block@);
    }
    let inner = slice_of(block, 6, block.len() - 3);
    let lines = split_chars(&inner, '\n');
    let ghost all = lines.deep_view();
    let mut i: usize = 0;
    while i < lines.len()
        invariant
            i <= lines.len(),
            all == lines.deep_view(),
            out.deep_view() == old(out).deep_view() + directive_elements(
                md_dir@,
                all.take(i as int),
            ),
        decreases lines.len() - i,
    {
        proof {
            lemma_chars_deep_view(lines@[i as int]);
            all.lemma_filter_map_take_succ(directive_in(md_dir@), i as int);
        }
        let ghost before = out.deep_view();
        let ghost head = directive_elements(md_dir@, all.take(i as int));
        match directive_of(md_dir, &lines[i]) {
            Some(event) => {
                let ghost view = RawDocElementView::MVEvent(event.deep_view());
                out.push(RawDocElement::MVEvent(event));
                assert(before.push(view) == old(out).deep_view() + (head + seq![view]));
            },
            None => {
            },
        }
        i += 1;
    }
    assert(all.take(lines.len() as int) == all);
}

/// The nodes after the first.
pub open spec fn below_first(nodes: Seq<DocNodeView>) -> Seq<DocNodeView> {
    if nodes.len() == 0 {
        nodes
    } else {
        nodes.skip(1)
    }
}

/// What the nodes of a document below its metadata block come to: a page
/// marker for each break and for each heading of depth `heading_divider` or
/// less, the events of each directive block, a content marker for anything
/// else that shows; or the fault of the first node that has one. The first
/// node, the metadata block, is passed over.
pub fn md_nodes_to_raw_doc_elements(
    env: &Environment,
    nodes: &Vec<DocNode>,
    heading_divider: u8,
) -> (r: Result<Vec<RawDocElement>, ParseError>)
    ensures
        match r {
            Ok(elements) => raw_elements(
                env.md_dir_text(),
                below_first(nodes.deep_view()),
                heading_divider,
            ) == Ok::<_, ParseError>(elements.deep_view()),
            Err(fault) => raw_elements(
                env.md_dir_text(),
                below_first(nodes.deep_view()),
                heading_divider,
            ) == Err::<Seq<RawDocElementView>, _>(fault),
        },
{
    let md_dir = chars_of(env.md_dir().as_str());
    let mut out: Vec<RawDocElement> = Vec::new();
    let ghost rest = below_first(nodes.deep_view());
    if nodes.len() == 0 {
        assert(out.deep_view() =~= Seq::<RawDocElementView>::empty());
        return Ok(out);
    }
    let mut i: usize = 1;
    assert(out.deep_view() =~= Seq::<RawDocElementView>::empty());
    while i < nodes.len()
        invariant
            1 <= i <= nodes.len(),
            md_dir@ == env.md_dir_text(),
            rest == below_first(nodes.deep_view()),
            raw_elements(md_dir@, rest.take(i - 1), heading_divider) == Ok::<_, ParseError>(
                out.deep_view(),
            ),
        decreases nodes.len() - i,
    {
        let ghost before = out.deep_view();
        proof {
            assert(rest.take(i as int).drop_last() == rest.take(i - 1));
        }
        let mut fault: Option<ParseError> = None;
        match &nodes[i] {
            DocNode::ThematicBreak => {
                out.push(RawDocElement::MarpPageMarker);
                assert(out.deep_view() =~= before + seq![RawDocElementView::MarpPageMarker]);
            },
            DocNode::Heading { depth } => {
                if *depth <= heading_divider {
                    out.push(RawDocElement::MarpPageMarker);
                    assert(out.deep_view() =~= before + seq![RawDocElementView::MarpPageMarker]);
                } else {
                    out.push(RawDocElement::MarpContentMarker);
                    assert(out.deep_view() =~= before + seq![RawDocElementView::MarpContentMarker]);
                }
            },
            DocNode::Html { value } => {
                let text = chars_of(value.as_str());
                if begins_with(&text, "<!--mv") && finishes_with(&text, "-->") {
                    push_directives(&mut out, &md_dir, &text);
                } else if begins_with(&text, "<!--") || begins_with(&text, "<style>") {
                    if holds_text(&text, "headingDivider") {
                        fault = Some(ParseError::HeadingDividerComment);
                    }
                } else {
                    out.push(RawDocElement::MarpContentMarker);
                    assert(out.deep_view() =~= before + seq![RawDocElementView::MarpContentMarker]);
                }
            },
            DocNode::Content => {
                out.push(RawDocElement::MarpContentMarker);
                assert(out.deep_view() =~= before + seq![RawDocElementView::MarpContentMarker]);
            },
            DocNode::Root => {
                fault = Some(ParseError::NestedRoot);
            },
            DocNode::Toml | DocNode::Yaml { .. } => {
                fault = Some(ParseError::MisplacedFrontmatter);
            },
            DocNode::TableRow | DocNode::TableCell | DocNode::ListItem => {
                fault = Some(ParseError::MisplacedItem);
            },
        }
        match fault {
            Some(found) => {
                proof {
                    lemma_raw_elements_fault(md_dir@, rest, heading_divider, i as int);
                }
                return Err(found);
            },
            None => {},
        }
        i += 1;
    }
    assert(rest.take(nodes.len() - 1) == rest);
    Ok(out)
}

/// Whether a run of elements holds a marker, and whether the first one
/// stands for content.
pub open spec fn first_marker(elements: Seq<RawDocElementView>) -> Option<bool>
    decreases elements.len(),
{
    if elements.len() == 0 {
        None
    } else {
        match first_marker(elements.drop_last()) {
            Some(content) => Some(content),
            None => match elements.last() {
                RawDocElementView::MVEvent(_) => None,
                RawDocElementView::MarpContentMarker => Some(true),
                RawDocElementView::MarpPageMarker => Some(false),
            },
        }
    }
}

/// The number of breaks in a run of elements.
pub open spec fn break_count(elements: Seq<RawDocElementView>) -> nat
    decreases elements.len(),
{
    if elements.len() == 0 {
        0
    } else if elements.last() is MarpPageMarker {
        break_count(elements.drop_last()) + 1
    } else {
        break_count(elements.drop_last())
    }
}

/// The number of pages of a run of elements: one for each break, and one
/// more where content stands before the first break.
pub open spec fn page_count(elements: Seq<RawDocElementView>) -> nat {
    if first_marker(elements) == Some(true) {
        break_count(elements) + 1
    } else {
        break_count(elements)
    }
}

/// The events of a run of elements: each directive's event as it is, and a
/// slide page, numbered from one, for each break and for content that stands
/// before any other marker. Other content leaves nothing.
pub open spec fn page_structure(elements: Seq<RawDocElementView>) -> Seq<RawEventView>
    decreases elements.len(),
{
    if elements.len() == 0 {
        Seq::empty()
    } else {
        let head = page_structure(elements.drop_last());
        match elements.last() {
            RawDocElementView::MVEvent(event) => head.push(event),
            RawDocElementView::MarpPageMarker => head.push(
                EventView::MPageMarker { marp_page_nth: page_count(elements) as usize },
            ),
            RawDocElementView::MarpContentMarker => if first_marker(elements.drop_last()) is None {
                head.push(EventView::MPageMarker { marp_page_nth: page_count(elements) as usize })
            } else {
                head
            },
        }
    }
}

/// A run of elements has no more breaks, and no more pages, than elements.
pub proof fn lemma_break_count_bound(elements: Seq<RawDocElementView>)
    ensures
        break_count(elements) <= elements.len(),
        first_marker(elements) is Some ==> page_count(elements) <= elements.len(),
        first_marker(elements) == Some(true) ==> break_count(elements) < elements.len(),
    decreases elements.len(),
{
    if elements.len() > 0 {
        lemma_break_count_bound(elements.drop_last());
    }
}

/// Folds the elements of a document into its events.
pub fn parse_page_structure(elements: &Vec<RawDocElement>) -> (r: Vec<RawEvent>)
    ensures
        r.deep_view() == page_structure(elements.deep_view()),
{
    let mut events: Vec<RawEvent> = Vec::new();
    let mut seen_some_marp_page = false;
    let mut marp_page_nth: usize = 0;
    let ghost all = elements.deep_view();
    let mut i: usize = 0;
    while i < elements.len()
        invariant
            i <= elements.len(),
            all == elements.deep_view(),
            seen_some_marp_page == (first_marker(all.take(i as int)) is Some),
            marp_page_nth == page_count(all.take(i as int)),
            events.deep_view() == page_structure(all.take(i as int)),
        decreases elements.len() - i,
    {
        proof {
            assert(all.take(i + 1).drop_last() == all.take(i as int));
            lemma_break_count_bound(all.take(i + 1));
        }
        match &elements[i] {
            RawDocElement::MarpContentMarker => {
                if !seen_some_marp_page {
                    seen_some_marp_page = true;
                    marp_page_nth += 1;
                    events.push(Event::MPageMarker { marp_page_nth });
                }
            },
            RawDocElement::MarpPageMarker => {
                seen_some_marp_page = true;
                marp_page_nth += 1;
                events.push(Event::MPageMarker { marp_page_nth });
            },
            RawDocElement::MVEvent(event) => {
                let copy = copy_event(event);
                events.push(copy);
            },
        }
        i += 1;
    }
    assert(all.take(elements.len() as int) == all);
    events
}

/// The nodes at the top of the tree that the markdown parser makes of a
/// text, with front matter and the GitHub extensions switched on: `None`
/// where the parser refuses the text, `Some(None)` where the tree has no list
/// of nodes at its top.
pub uninterp spec fn markdown_outline(text: Seq<char>) -> Option<Option<Seq<DocNodeView>>>;

/// Calls `markdown::to_mdast` with front matter and the GitHub constructs
/// switched on, and hands out the children of the tree's root, each as the
/// kind of node it is, with the depth of a heading and the text of a piece of
/// markup or of a YAML block. Every kind of node that is not named here comes
/// out as content. The parser reads nothing but the text, so the
/// result is the one that `markdown_outline` names.
#[verifier::external_body]
fn to_mdast(s: &str) -> (r: Result<Option<Vec<DocNode>>, markdown::message::Message>)
    ensures
        match r {
            Ok(nodes) => markdown_outline(s@) == Some(nodes.deep_view()),
            Err(_) => markdown_outline(s@) is None,
        },
{
    let mut options = ParseOptions::gfm();
    options.constructs.frontmatter = true;
    let tree = markdown::to_mdast(s, &options)?;
    Ok(tree.children().map(|nodes| nodes.iter().map(|node| match node {
        Node::ThematicBreak(_) => DocNode::ThematicBreak,
        Node::Heading(heading) => DocNode::Heading { depth: heading.depth },
        Node::Html(html) => DocNode::Html { value: html.value.clone() },
        Node::Yaml(yaml) => DocNode::Yaml { value: yaml.value.clone() },
        Node::Toml(_) => DocNode::Toml,
        Node::Root(_) => DocNode::Root,
        Node::TableRow(_) => DocNode::TableRow,
        Node::TableCell(_) => DocNode::TableCell,
        Node::ListItem(_) => DocNode::ListItem,
        _ => DocNode::Content
    }).collect()))
}

/// The events of a document with the nodes `nodes` and the metadata
/// `frontmatter`, or why it has none. The document must open with a metadata
/// block that declares both a presentation and one for narrated video, none
/// of its nodes may have a fault, and its first event must be a page.
pub open spec fn document_events(
    md_dir: Seq<char>,
    nodes: Seq<DocNodeView>,
    frontmatter: Frontmatter,
) -> Result<Seq<RawEventView>, ParseError> {
    if nodes.len() == 0 || !(nodes[0] is Yaml) {
        Err(ParseError::FrontmatterIsNotExist)
    } else if frontmatter.marp != Some(true) {
        Err(ParseError::NonMarpDocument)
    } else if frontmatter.marp_video != Some(true) {
        Err(ParseError::NonMarpVideoDocument)
    } else {
        match raw_elements(md_dir, below_first(nodes), frontmatter.heading_divider) {
            Err(fault) => Err(fault),
            Ok(elements) => {
                let events = page_structure(elements);
                if events.len() > 0 && events[0].is_page() {
                    Ok(events)
                } else {
                    Err(ParseError::FirstElementIsNotPage)
                }
            },
        }
    }
}

/// Whether `r` holds the events, or the fault, that `expected` gives.
pub open spec fn is_outcome(
    r: Result<DocEvents, ParseError>,
    expected: Result<Seq<RawEventView>, ParseError>,
) -> bool {
    match r {
        Ok(doc) => expected == Ok::<_, ParseError>(doc.events.deep_view()),
        Err(fault) => expected == Err::<Seq<RawEventView>, _>(fault),
    }
}

impl DocEvents {
    /// The nodes at the top of the document `s`.
    pub fn outline(s: &str) -> (r: Result<Vec<DocNode>, ParseError>)
        ensures
            match markdown_outline(s@) {
                None => r matches Err(ParseError::Markdown(_)),
                Some(None) => r matches Err(ParseError::FrontmatterIsNotExist),
                Some(Some(nodes)) => r matches Ok(found) && found.deep_view() == nodes,
            },
    {
        match to_mdast(s) {
            Err(message) => Err(ParseError::Markdown(message)),
            Ok(None) => Err(ParseError::FrontmatterIsNotExist),
            Ok(Some(nodes)) => Ok(nodes),
        }
    }

    /// The text of the metadata block that a document opens with.
    pub fn frontmatter_source(nodes: &Vec<DocNode>) -> (r: Result<String, ParseError>)
        ensures
            match r {
                Ok(text) => nodes.len() > 0 && nodes@[0].deep_view() == (DocNodeView::Yaml {
                    value: text@,
                }),
                Err(fault) => fault is FrontmatterIsNotExist && (nodes.len() == 0
                    || !(nodes@[0].deep_view() is Yaml)),
            },
    {
        if nodes.len() == 0 {
            return Err(ParseError::FrontmatterIsNotExist);
        }
        match &nodes[0] {
            DocNode::Yaml { value } => Ok(value.clone()),
            _ => Err(ParseError::FrontmatterIsNotExist),
        }
    }

    /// The events of the document with the nodes `nodes`, whose metadata
    /// block says `frontmatter`.
    pub fn from_nodes(
        env: &Environment,
        nodes: &Vec<DocNode>,
        frontmatter: &Frontmatter,
    ) -> (r: Result<Self, ParseError>)
        ensures
            is_outcome(r, document_events(env.md_dir_text(), nodes.deep_view(), *frontmatter)),
    {
        if nodes.len() == 0 {
            return Err(ParseError::FrontmatterIsNotExist);
        }
        match &nodes[0] {
            DocNode::Yaml { .. } => {},
            _ => {
                return Err(ParseError::FrontmatterIsNotExist);
            },
        }
        match frontmatter.marp {
            Some(true) => {},
            _ => {
                return Err(ParseError::NonMarpDocument);
            },
        }
        match frontmatter.marp_video {
            Some(true) => {},
            _ => {
                return Err(ParseError::NonMarpVideoDocument);
            },
        }
        let raw_document = match md_nodes_to_raw_doc_elements(
            env,
            nodes,
            frontmatter.heading_divider,
        ) {
            Ok(elements) => elements,
            Err(fault) => {
                return Err(fault);
            },
        };
        let structured_doc = parse_page_structure(&raw_document);
        if structured_doc.len() == 0 || !structured_doc[0].is_page() {
            return Err(ParseError::FirstElementIsNotPage);
        }
        Ok(DocEvents { events: structured_doc })
    }

    /// The events of the document `s`, whose metadata block says
    /// `frontmatter`.
    pub fn parse(
        env: &Environment,
        s: &str,
        frontmatter: &Frontmatter,
    ) -> (r: Result<Self, ParseError>)
        ensures
            match markdown_outline(s@) {
                None => r matches Err(ParseError::Markdown(_)),
                Some(None) => r matches Err(ParseError::FrontmatterIsNotExist),
                Some(Some(nodes)) => is_outcome(
                    r,
                    document_events(env.md_dir_text(), nodes, *frontmatter),
                ),
            },
    {
        match DocEvents::outline(s) {
            Ok(nodes) => DocEvents::from_nodes(env, &nodes, frontmatter),
            Err(fault) => Err(fault),
        }
    }
}

/// The breaks of a run of elements are those of its first part and those of
/// the rest, and its first marker is that of its first part, or else that of
/// the rest.
pub proof fn lemma_markers_additive(a: Seq<RawDocElementView>, b: Seq<RawDocElementView>)
    ensures
        break_count(a + b) == break_count(a) + break_count(b),
        first_marker(a + b) == match first_marker(a) {
            Some(content) => Some(content),
            None => first_marker(b),
        },
    decreases b.len(),
{
    if b.len() > 0 {
        assert((a + b).drop_last() == a + b.drop_last());
        lemma_markers_additive(a, b.drop_last());
    }
}

/// Directives do not count: without any one of its directives, a run of
/// elements has the pages that it had.
pub proof fn lemma_directives_leave_pages(elements: Seq<RawDocElementView>, at: int)
    requires
        0 <= at < elements.len(),
        elements[at] is MVEvent,
    ensures
        page_count(elements.remove(at)) == page_count(elements),
        break_count(elements.remove(at)) == break_count(elements),
        first_marker(elements.remove(at)) == first_marker(elements),
{
    let head = elements.take(at);
    let tail = elements.skip(at + 1);
    let with = head.push(elements[at]);
    assert(elements == with + tail);
    assert(with.drop_last() == head);
    lemma_markers_additive(head, tail);
    lemma_markers_additive(with, tail);
}

/// The numbers of the slide pages among `events`, in their order.
pub open spec fn slide_numbers(events: Seq<RawEventView>) -> Seq<usize>
    decreases events.len(),
{
    if events.len() == 0 {
        Seq::empty()
    } else {
        match events.last() {
            EventView::MPageMarker { marp_page_nth } => slide_numbers(events.drop_last()).push(
                marp_page_nth,
            ),
            _ => slide_numbers(events.drop_last()),
        }
    }
}

/// The numbers from one to `count`.
pub open spec fn count_up(count: nat) -> Seq<usize> {
    Seq::new(count, |k: int| (k + 1) as usize)
}

/// Whether no directive among `elements` asks for a slide page.
pub open spec fn no_slide_directive(elements: Seq<RawDocElementView>) -> bool {
    forall|i: int|
        0 <= i < elements.len() ==> !((#[trigger] elements[i]) matches RawDocElementView::MVEvent(
            event,
        ) && event is MPageMarker)
}

/// No line of a directive block asks for a slide page.
pub proof fn lemma_directive_elements_no_slide(md_dir: Seq<char>, lines: Seq<Seq<char>>)
    ensures
        no_slide_directive(directive_elements(md_dir, lines)),
    decreases lines.len(),
{
    if lines.len() > 0 {
        lemma_directive_elements_no_slide(md_dir, lines.drop_last());
    }
}

/// No node of a document comes to a directive for a slide page.
pub proof fn lemma_raw_elements_no_slide(
    md_dir: Seq<char>,
    nodes: Seq<DocNodeView>,
    heading_divider: u8,
)
    ensures
        raw_elements(md_dir, nodes, heading_divider) matches Ok(elements) ==> no_slide_directive(
            elements,
        ),
    decreases nodes.len(),
{
    if nodes.len() > 0 {
        lemma_raw_elements_no_slide(md_dir, nodes.drop_last(), heading_divider);
        if let DocNodeView::Html { value } = nodes.last() {
            lemma_directive_elements_no_slide(md_dir, split(directive_text(value), '\n'));
        }
    }
}

/// A run of elements without a marker has no break.
pub proof fn lemma_no_marker_no_break(elements: Seq<RawDocElementView>)
    requires
        first_marker(elements) is None,
    ensures
        break_count(elements) == 0,
    decreases elements.len(),
{
    if elements.len() > 0 {
        lemma_no_marker_no_break(elements.drop_last());
    }
}

/// The slide pages of a document are numbered one, two, three and so on, and
/// there are as many of them as the document has breaks, and one more where
/// content stands before its first break.
pub proof fn lemma_slide_pages_contiguous(elements: Seq<RawDocElementView>)
    requires
        elements.len() <= usize::MAX,
        no_slide_directive(elements),
    ensures
        slide_numbers(page_structure(elements)) == count_up(page_count(elements)),
        page_count(elements) == break_count(elements) + (if first_marker(elements) == Some(true) {
            1nat
        } else {
            0nat
        }),
    decreases elements.len(),
{
    if elements.len() > 0 {
        let head = elements.drop_last();
        lemma_slide_pages_contiguous(head);
        lemma_break_count_bound(elements);
        let before = page_structure(head);
        match elements.last() {
            RawDocElementView::MVEvent(event) => {
                assert(before.push(event).drop_last() == before);
            },
            RawDocElementView::MarpPageMarker => {
                let nth = page_count(elements) as usize;
                assert(before.push(EventView::MPageMarker { marp_page_nth: nth }).drop_last()
                    == before);
            },
            RawDocElementView::MarpContentMarker => {
                if first_marker(head) is None {
                    lemma_no_marker_no_break(head);
                    let nth = page_count(elements) as usize;
                    assert(before.push(EventView::MPageMarker { marp_page_nth: nth }).drop_last()
                        == before);
                }
            },
        }
    }
}

/// In the events of any document the slide pages are numbered one, two,
/// three and so on without a gap. The elements of the document are taken to
/// be as many as a vector holds.
pub proof fn lemma_document_slide_pages(
    md_dir: Seq<char>,
    nodes: Seq<DocNodeView>,
    frontmatter: Frontmatter,
)
    requires
        raw_elements(md_dir, below_first(nodes), frontmatter.heading_divider) matches Ok(elements)
            ==> elements.len() <= usize::MAX,
    ensures
        document_events(md_dir, nodes, frontmatter) matches Ok(events) ==> {
            &&& raw_elements(md_dir, below_first(nodes), frontmatter.heading_divider) matches Ok(
                elements,
            )
            &&& slide_numbers(events) == count_up(page_count(elements))
        },
{
    if let Ok(events) = document_events(md_dir, nodes, frontmatter) {
        let elements = raw_elements(md_dir, below_first(nodes), frontmatter.heading_divider)->Ok_0;
        lemma_raw_elements_no_slide(md_dir, below_first(nodes), frontmatter.heading_divider);
        lemma_slide_pages_contiguous(elements);
    }
}

/// The events of any document open on a page.
pub proof fn lemma_document_opens_on_page(
    md_dir: Seq<char>,
    nodes: Seq<DocNodeView>,
    frontmatter: Frontmatter,
)
    ensures
        document_events(md_dir, nodes, frontmatter) matches Ok(events) ==> events.len() > 0
            && events[0].is_page(),
{
}

} // verus!
