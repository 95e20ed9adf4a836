//! From the events of a document to its three channels: the pages to show,
//! the sounds to play one after the other, and the music behind them.

use vstd::prelude::*;
use crate::asset_preparator::{SoundView, TimedEvent, TimedEventView};
use crate::decimal::{digits, fixed_text, padded, push_fixed, push_nat, push_padded};
use crate::environment::config::frame_period;
use crate::environment::Environment;
use crate::event::{Event, EventView};
use crate::path::{join, joined};
use crate::text::{chars_of, push_all, push_str, string_of};

verus! {

/// The sources of a document, one text for each, channel by channel.
#[derive(Debug, Clone)]
pub struct DocumentChannels {
    pub videos: Vec<String>,
    pub fg_sounds: Vec<String>,
    pub bg_sounds: Vec<String>,
}

impl DocumentChannels {
    /// Whether every channel has a source: only then can the channels be
    /// joined into one output.
    pub open spec fn is_complete(&self) -> bool {
        self.videos.len() > 0 && self.fg_sounds.len() > 0 && self.bg_sounds.len() > 0
    }

    /// Whether every channel has a source.
    #[verifier::when_used_as_spec(is_complete)]
    pub fn has_every_channel(&self) -> (r: bool)
        ensures
            r == self.is_complete(),
    {
        self.videos.len() > 0 && self.fg_sounds.len() > 0 && self.bg_sounds.len() > 0
    }
}

/// Why a document has no channels.
#[derive(Debug, Clone, Copy, PartialEq, Eq, Structural)]
pub enum PlanError {
    /// The sounds of the document last longer than a `u64` of microseconds.
    DurationOverflow,
    /// No page of the document lasts one frame.
    NoVideo,
}

/// What divides a channel into segments.
#[derive(Debug, Clone, Copy, PartialEq, Eq, Structural)]
pub enum Boundary {
    /// The start of a page.
    Page,
    /// A change of the background.
    Bgm,
}

/// The number of decimals of a length in seconds that is kept in microseconds.
pub const SECOND_DECIMALS: u32 = 6;

/// The number of decimals of a length in seconds that is kept in milliseconds.
pub const MILLI_DECIMALS: u32 = 3;

/// The number of decimals of a gain whose volume is kept in thousandths of a
/// percent.
pub const GAIN_DECIMALS: u32 = 5;

/// What is written for the characters that the filter graph reads as its
/// own: a backslash becomes four, a colon gets two before it, a quote three,
/// and `=`, `;`, `,`, `[` and `]` get one. Any other character stays.
pub open spec fn escape_char(c: char) -> Seq<char> {
    if c == '\\' {
        seq!['\\', '\\', '\\', '\\']
    } else if c == ':' {
        seq!['\\', '\\', ':']
    } else if c == '\'' {
        seq!['\\', '\\', '\\', '\'']
    } else if c == '=' || c == ';' || c == ',' || c == '[' || c == ']' {
        seq!['\\', c]
    } else {
        seq![c]
    }
}

/// A text as it is written into the filter graph: each character as
/// `escape_char` writes it.
pub open spec fn escape(s: Seq<char>) -> Seq<char>
    decreases s.len(),
{
    if s.len() == 0 {
        Seq::empty()
    } else {
        escape(s.drop_last()) + escape_char(s.last())
    }
}

/// Appends `s` as it is written into the filter graph.
pub fn push_escaped(out: &mut Vec<char>, s: &Vec<char>)
    ensures
        final(out)@ == old(out)@ + escape(s@),
{
    let mut i: usize = 0;
    while i < s.len()
        invariant
            i <= s.len(),
            out@ == old(out)@ + escape(s@.take(i as int)),
        decreases s.len() - i,
    {
        let c = s[i];
        proof {
            assert(s@.take(i + 1).drop_last() == s@.take(i as int));
        }
        if c == '\\' {
            out.push('\\');
            out.push('\\');
            out.push('\\');
            out.push('\\');
        } else if c == ':' {
            out.push('\\');
            out.push('\\');
            out.push(':');
        } else if c == '\'' {
            out.push('\\');
            out.push('\\');
            out.push('\\');
            out.push('\'');
        } else if c == '=' || c == ';' || c == ',' || c == '[' || c == ']' {
            out.push('\\');
            out.push(c);
        } else {
            out.push(c);
        }
        i += 1;
    }
    assert(s@.take(s.len() as int) == s@);
}

/// A path or a colour as it is written into the filter graph.
pub fn ffmpeg_escape(path: &str) -> (r: String)
    ensures
        r@ == escape(path@),
{
    let mut out: Vec<char> = Vec::new();
    push_escaped(&mut out, &chars_of(path));
    string_of(&out)
}

/// How long an event sounds, in microseconds: a sound for its length, a
/// silence for its own, anything else not at all.
pub open spec fn event_duration(event: TimedEventView) -> nat {
    match event {
        EventView::Voice(sound) => sound.duration as nat,
        EventView::SoundEffect(sound) => sound.duration as nat,
        EventView::BlankMs(millis) => millis as nat * 1000,
        _ => 0,
    }
}

/// How long a run of events sounds, in microseconds.
pub open spec fn total_duration(events: Seq<TimedEventView>) -> nat
    decreases events.len(),
{
    if events.len() == 0 {
        0
    } else {
        total_duration(events.drop_last()) + event_duration(events.last())
    }
}

/// Whether a segment of the channel that `kind` divides starts at `event`.
pub open spec fn is_boundary(event: TimedEventView, kind: Boundary) -> bool {
    match kind {
        Boundary::Page => event.is_page(),
        Boundary::Bgm => event.is_bgm(),
    }
}

/// The index of the first boundary of `kind` at or after `from`, or the
/// number of events where none follows.
pub open spec fn next_boundary(events: Seq<TimedEventView>, from: int, kind: Boundary) -> int
    decreases events.len() - from,
{
    if from < 0 || from >= events.len() {
        events.len() as int
    } else if is_boundary(events[from], kind) {
        from
    } else {
        next_boundary(events, from + 1, kind)
    }
}

/// How long the events from `from` up to the next boundary of `kind` sound.
pub open spec fn run_duration(events: Seq<TimedEventView>, from: int, kind: Boundary) -> nat {
    total_duration(events.subrange(from, next_boundary(events, from, kind)))
}

/// How long the segment that starts with the boundary at `at` lasts: as long
/// as the events after it sound, up to the next boundary of its kind.
pub open spec fn segment_duration(events: Seq<TimedEventView>, at: int, kind: Boundary) -> nat {
    run_duration(events, at + 1, kind)
}

/// Summing is additive: a run sounds as long as its two parts together,
/// wherever it is cut.
pub proof fn lemma_total_duration_additive(a: Seq<TimedEventView>, b: Seq<TimedEventView>)
    ensures
        total_duration(a + b) == total_duration(a) + total_duration(b),
    decreases b.len(),
{
    if b.len() > 0 {
        assert((a + b).drop_last() == a + b.drop_last());
        lemma_total_duration_additive(a, b.drop_last());
    }
}

/// Cutting a run of events at any point and summing the two pieces gives the
/// sum of the whole run.
pub proof fn lemma_total_duration_split(events: Seq<TimedEventView>, at: int)
    requires
        0 <= at <= events.len(),
    ensures
        total_duration(events) == total_duration(events.take(at)) + total_duration(
            events.skip(at),
        ),
{
    assert(events.take(at) + events.skip(at) == events);
    lemma_total_duration_additive(events.take(at), events.skip(at));
}

/// Pages and background markers take no time: without any one event that
/// does not sound, a run of events sounds as long as it did.
pub proof fn lemma_silent_event_takes_no_time(events: Seq<TimedEventView>, at: int)
    requires
        0 <= at < events.len(),
        event_duration(events[at]) == 0,
    ensures
        total_duration(events.remove(at)) == total_duration(events),
{
    let head = events.take(at);
    let tail = events.skip(at + 1);
    assert(events == head.push(events[at]) + tail);
    assert(head.push(events[at]).drop_last() == head);
    lemma_total_duration_additive(head, tail);
    lemma_total_duration_additive(head.push(events[at]), tail);
}

/// No part of a run of events sounds longer than the run.
pub proof fn lemma_part_duration(events: Seq<TimedEventView>, from: int, to: int)
    requires
        0 <= from <= to <= events.len(),
    ensures
        total_duration(events.subrange(from, to)) <= total_duration(events),
{
    lemma_total_duration_split(events, to);
    lemma_total_duration_split(events.take(to), from);
    assert(events.take(to).skip(from) == events.subrange(from, to));
}

/// `next_boundary` gives an index from `from` on, within the number of
/// events; no event between `from` and it is a boundary of `kind`, and the
/// event at it is.
pub proof fn lemma_next_boundary(events: Seq<TimedEventView>, from: int, kind: Boundary)
    requires
        0 <= from <= events.len(),
    ensures
        from <= next_boundary(events, from, kind) <= events.len(),
        forall|k: int|
            from <= k < next_boundary(events, from, kind) ==> !is_boundary(
                #[trigger] events[k],
                kind,
            ),
        next_boundary(events, from, kind) < events.len() ==> is_boundary(
            events[next_boundary(events, from, kind)],
            kind,
        ),
    decreases events.len() - from,
{
    if from < events.len() && !is_boundary(events[from], kind) {
        lemma_next_boundary(events, from + 1, kind);
    }
}

/// How long one event sounds.
fn duration_of(event: &TimedEvent) -> (r: u64)
    requires
        event_duration(event.deep_view()) <= u64::MAX,
    ensures
        r == event_duration(event.deep_view()),
{
    match event {
        Event::Voice(sound) => sound.duration,
        Event::SoundEffect(sound) => sound.duration,
        Event::BlankMs(millis) => (*millis as u64) * 1000,
        _ => 0,
    }
}

/// How long one event sounds, where a `u64` holds that.
fn checked_duration_of(event: &TimedEvent) -> (r: Option<u64>)
    ensures
        match r {
            Some(micros) => micros == event_duration(event.deep_view()),
            None => event_duration(event.deep_view()) > u64::MAX,
        },
{
    match event {
        Event::Voice(sound) => Some(sound.duration),
        Event::SoundEffect(sound) => Some(sound.duration),
        Event::BlankMs(millis) => (*millis as u64).checked_mul(1000),
        _ => Some(0),
    }
}

/// How long the events sound, where a `u64` holds that.
pub fn checked_total(events: &Vec<TimedEvent>) -> (r: Option<u64>)
    ensures
        match r {
            Some(micros) => micros == total_duration(events.deep_view()),
            None => total_duration(events.deep_view()) > u64::MAX,
        },
{
    let ghost all = events.deep_view();
    let mut sum: u64 = 0;
    let mut i: usize = 0;
    while i < events.len()
        invariant
            i <= events.len(),
            all == events.deep_view(),
            sum == total_duration(all.take(i as int)),
        decreases events.len() - i,
    {
        proof {
            assert(all.take(i + 1).drop_last() == all.take(i as int));
            lemma_part_duration(all, 0, i + 1);
        }
        let next = match checked_duration_of(&events[i]) {
            Some(micros) => sum.checked_add(micros),
            None => None,
        };
        match next {
            Some(more) => {
                sum = more;
            },
            None => {
                return None;
            },
        }
        i += 1;
    }
    assert(all.take(events.len() as int) == all);
    Some(sum)
}

fn at_boundary(event: &TimedEvent, kind: Boundary) -> (r: bool)
    ensures
        r == is_boundary(event.deep_view(), kind),
{
    match kind {
        Boundary::Page => event.is_page(),
        Boundary::Bgm => event.is_bgm_event(),
    }
}

/// How long the events from `from` up to the next boundary of `kind` sound.
fn run_micros(events: &Vec<TimedEvent>, from: usize, kind: Boundary) -> (r: u64)
    requires
        from <= events.len(),
        total_duration(events.deep_view()) <= u64::MAX,
    ensures
        r == run_duration(events.deep_view(), from as int, kind),
{
    let ghost all = events.deep_view();
    let mut sum: u64 = 0;
    let mut j: usize = from;
    while j < events.len() && !at_boundary(&events[j], kind)
        invariant
            from <= j <= events.len(),
            all == events.deep_view(),
            total_duration(all) <= u64::MAX,
            sum == total_duration(all.subrange(from as int, j as int)),
            next_boundary(all, from as int, kind) == next_boundary(all, j as int, kind),
        decreases events.len() - j,
    {
        proof {
            assert(all.subrange(from as int, j + 1).drop_last() == all.subrange(
                from as int,
                j as int,
            ));
            lemma_part_duration(all, from as int, j + 1);
        }
        sum = sum + duration_of(&events[j]);
        j += 1;
    }
    sum
}

/// A gain as the filter graph reads it: the volume in hundredths, so that
/// full volume is `1`.
pub open spec fn gain_text(volume: u64) -> Seq<char> {
    fixed_text(volume as nat, GAIN_DECIMALS as nat)
}

/// A length in seconds as the filter graph reads it.
pub open spec fn seconds_text(micros: nat) -> Seq<char> {
    fixed_text(micros, SECOND_DECIMALS as nat)
}

/// The source that plays a sound file once.
pub open spec fn sound_source(md_dir: Seq<char>, sound: SoundView) -> Seq<char> {
    "amovie="@ + escape(join(md_dir, sound.path)) + ",volume="@ + gain_text(sound.volume)
}

/// The source of the foreground for one event: its sound, or a silence of
/// its length.
pub open spec fn fg_source(md_dir: Seq<char>, event: TimedEventView) -> Seq<char> {
    match event {
        EventView::Voice(sound) => sound_source(md_dir, sound),
        EventView::SoundEffect(sound) => sound_source(md_dir, sound),
        EventView::BlankMs(millis) => "anullsrc,atrim=duration="@ + fixed_text(
            millis as nat,
            MILLI_DECIMALS as nat,
        ),
        _ => Seq::empty(),
    }
}

/// What tells the events that the foreground plays from the others.
pub open spec fn plays_in_foreground() -> spec_fn(TimedEventView) -> bool {
    |event: TimedEventView| event.is_foreground()
}

/// What gives each event its source of the foreground.
pub open spec fn fg_source_of(md_dir: Seq<char>) -> spec_fn(TimedEventView) -> Seq<char> {
    |event: TimedEventView| fg_source(md_dir, event)
}

/// The foreground: one source for each narration, sound effect and silence,
/// in the order of the events, whatever pages and music stand between them.
pub open spec fn fg_sources(md_dir: Seq<char>, events: Seq<TimedEventView>) -> Seq<Seq<char>> {
    events.filter(plays_in_foreground()).map_values(fg_source_of(md_dir))
}

/// The foreground of a run of events that one more event follows.
pub proof fn lemma_fg_sources_push(
    md_dir: Seq<char>,
    events: Seq<TimedEventView>,
    event: TimedEventView,
)
    ensures
        fg_sources(md_dir, events.push(event)) == if event.is_foreground() {
            fg_sources(md_dir, events).push(fg_source(md_dir, event))
        } else {
            fg_sources(md_dir, events)
        },
{
    events.lemma_filter_push(event, plays_in_foreground());
    if event.is_foreground() {
        events.filter(plays_in_foreground()).lemma_push_map_commute(fg_source_of(md_dir), event);
    }
}

/// Appends the source that plays a sound file once.
fn push_sound_source(out: &mut Vec<char>, md_dir: &Vec<char>, path: &str, volume: u64)
    ensures
        final(out)@ == old(out)@ + ("amovie="@ + escape(join(md_dir@, path@)) + ",volume="@
            + gain_text(volume)),
{
    let mut text: Vec<char> = Vec::new();
    push_str(&mut text, "amovie=");
    push_escaped(&mut text, &joined(md_dir, &chars_of(path)));
    push_str(&mut text, ",volume=");
    push_fixed(&mut text, volume, GAIN_DECIMALS);
    push_all(out, &text);
}

/// The foreground of a document: one source for each narration, sound effect
/// and silence.
pub fn plan_fg_audio_stream(env: &Environment, events: &Vec<TimedEvent>) -> (r: Vec<String>)
    ensures
        r.deep_view() == fg_sources(env.md_dir_text(), events.deep_view()),
        r.len() == foreground_count(events.deep_view()),
{
    let md_dir = chars_of(env.md_dir().as_str());
    let mut foreground_sound_stream: Vec<String> = Vec::new();
    let ghost all = events.deep_view();
    let mut i: usize = 0;
    proof {
        reveal(Seq::filter);
    }
    while i < events.len()
        invariant
            i <= events.len(),
            all == events.deep_view(),
            md_dir@ == env.md_dir_text(),
            foreground_sound_stream.deep_view() == fg_sources(md_dir@, all.take(i as int)),
        decreases events.len() - i,
    {
        proof {
            all.lemma_take_succ_push(i as int);
            lemma_fg_sources_push(md_dir@, all.take(i as int), all[i as int]);
        }
        let mut text: Vec<char> = Vec::new();
        match &events[i] {
            Event::Voice(sound) => {
                push_sound_source(&mut text, &md_dir, sound.path.as_str(), sound.volume);
            },
            Event::SoundEffect(sound) => {
                push_sound_source(&mut text, &md_dir, sound.path.as_str(), sound.volume);
            },
            Event::BlankMs(millis) => {
                push_str(&mut text, "anullsrc,atrim=duration=");
                push_fixed(&mut text, *millis as u64, MILLI_DECIMALS);
            },
            _ => {},
        }
        if !events[i].is_page() && !events[i].is_bgm_event() {
            foreground_sound_stream.push(string_of(&text));
        }
        i += 1;
    }
    assert(all.take(events.len() as int) == all);
    foreground_sound_stream
}

/// The source of a silence of a given length.
pub open spec fn silence_source(micros: nat) -> Seq<char> {
    "anullsrc,atrim=duration="@ + seconds_text(micros)
}

/// The source of the background from one marker on: its file, played again
/// and again and cut to the length of the segment, or silence of that length
/// where the marker names no file; each at the marker's volume.
pub open spec fn bgm_source(md_dir: Seq<char>, marker: TimedEventView, micros: nat) -> Seq<char> {
    match marker {
        EventView::MVBGMMarker { path: Some(path), volume } => "amovie="@ + escape(
            join(md_dir, path),
        ) + ",volume="@ + gain_text(volume) + ",aloop=-1:2147483647,atrim=duration="@
            + seconds_text(micros),
        EventView::MVBGMMarker { path: None, volume } => "anullsrc,volume="@ + gain_text(volume)
            + ",atrim=duration="@ + seconds_text(micros),
        _ => Seq::empty(),
    }
}

/// The places `0`, `1`, and so on up to, not including, `upto`.
pub open spec fn places(upto: int) -> Seq<int> {
    Seq::new(upto as nat, |at: int| at)
}

/// What tells the places of the boundaries of `kind` from the others.
pub open spec fn boundary_at(events: Seq<TimedEventView>, kind: Boundary) -> spec_fn(int) -> bool {
    |at: int| 0 <= at < events.len() && is_boundary(events[at], kind)
}

/// The places of the boundaries of `kind` among the first `upto` events, in
/// their order.
pub open spec fn boundaries_before(
    events: Seq<TimedEventView>,
    kind: Boundary,
    upto: int,
) -> Seq<int> {
    places(upto).filter(boundary_at(events, kind))
}

/// The places of the boundaries of `kind` among `events`, in their order.
pub open spec fn boundaries(events: Seq<TimedEventView>, kind: Boundary) -> Seq<int> {
    boundaries_before(events, kind, events.len() as int)
}

/// The boundaries before a place, and the place itself where it is one, are
/// the boundaries before the next place.
pub proof fn lemma_boundaries_step(events: Seq<TimedEventView>, kind: Boundary, at: int)
    requires
        0 <= at < events.len(),
    ensures
        boundaries_before(events, kind, at + 1) == if is_boundary(events[at], kind) {
            boundaries_before(events, kind, at).push(at)
        } else {
            boundaries_before(events, kind, at)
        },
{
    assert(places(at + 1) == places(at).push(at));
    places(at).lemma_filter_push(at, boundary_at(events, kind));
}

/// What gives the place of each background marker its source: the marker's
/// source, with the length of the segment that starts there.
pub open spec fn bgm_source_at(
    md_dir: Seq<char>,
    events: Seq<TimedEventView>,
) -> spec_fn(int) -> Seq<char> {
    |at: int| bgm_source(md_dir, events[at], segment_duration(events, at, Boundary::Bgm))
}

/// The background: a silence as long as the events before the first marker
/// sound, then one source for each marker.
pub open spec fn bg_sources(md_dir: Seq<char>, events: Seq<TimedEventView>) -> Seq<Seq<char>> {
    seq![silence_source(run_duration(events, 0, Boundary::Bgm))] + boundaries(
        events,
        Boundary::Bgm,
    ).map_values(bgm_source_at(md_dir, events))
}

/// The background of a document: one segment more than the document has
/// background markers, the first of them a silence as long as the events
/// before the first marker sound. There is none where the sounds last longer
/// than a `u64` of microseconds holds.
pub fn plan_bg_audio_stream(
    env: &Environment,
    events: &Vec<TimedEvent>,
) -> (r: Result<Vec<String>, PlanError>)
    ensures
        match r {
            Ok(sources) => {
                &&& total_duration(events.deep_view()) <= u64::MAX
                &&& sources.deep_view() == bg_sources(env.md_dir_text(), events.deep_view())
                &&& sources.len() == 1 + bgm_count(events.deep_view())
                &&& sources@[0]@ == silence_source(
                    total_duration(
                        events.deep_view().take(
                            next_boundary(events.deep_view(), 0, Boundary::Bgm),
                        ),
                    ),
                )
            },
            Err(fault) => fault == PlanError::DurationOverflow && total_duration(
                events.deep_view(),
            ) > u64::MAX,
        },
{
    if checked_total(events).is_none() {
        return Err(PlanError::DurationOverflow);
    }
    let sources = render_background(env, events);
    proof {
        lemma_background_segments(env.md_dir_text(), events.deep_view());
    }
    Ok(sources)
}

/// The background of a document whose sounds fit a `u64` of microseconds.
fn render_background(env: &Environment, events: &Vec<TimedEvent>) -> (r: Vec<String>)
    requires
        total_duration(events.deep_view()) <= u64::MAX,
    ensures
        r.deep_view() == bg_sources(env.md_dir_text(), events.deep_view()),
{
    let md_dir = chars_of(env.md_dir().as_str());
    let mut background_sound_stream: Vec<String> = Vec::new();
    let ghost all = events.deep_view();
    let silent_len = run_micros(events, 0, Boundary::Bgm);
    let mut lead: Vec<char> = Vec::new();
    push_str(&mut lead, "anullsrc,atrim=duration=");
    push_fixed(&mut lead, silent_len, SECOND_DECIMALS);
    background_sound_stream.push(string_of(&lead));
    let ghost first = seq![silence_source(run_duration(all, 0, Boundary::Bgm))];
    let ghost source = bgm_source_at(md_dir@, all);
    let mut i: usize = 0;
    proof {
        reveal(Seq::filter);
    }
    while i < events.len()
        invariant
            i <= events.len(),
            all == events.deep_view(),
            md_dir@ == env.md_dir_text(),
            total_duration(all) <= u64::MAX,
            first == seq![silence_source(run_duration(all, 0, Boundary::Bgm))],
            source == bgm_source_at(md_dir@, all),
            background_sound_stream.deep_view() == first + boundaries_before(
                all,
                Boundary::Bgm,
                i as int,
            ).map_values(source),
        decreases events.len() - i,
    {
        let ghost before = boundaries_before(all, Boundary::Bgm, i as int);
        proof {
            lemma_boundaries_step(all, Boundary::Bgm, i as int);
        }
        match &events[i] {
            Event::MVBGMMarker { path, volume } => {
                let bdur = run_micros(events, i + 1, Boundary::Bgm);
                let mut text: Vec<char> = Vec::new();
                match path {
                    Some(path) => {
                        push_sound_source(&mut text, &md_dir, path.as_str(), *volume);
                        push_str(&mut text, ",aloop=-1:2147483647,atrim=duration=");
                    },
                    None => {
                        push_str(&mut text, "anullsrc,volume=");
                        push_fixed(&mut text, *volume, GAIN_DECIMALS);
                        push_str(&mut text, ",atrim=duration=");
                    },
                }
                push_fixed(&mut text, bdur, SECOND_DECIMALS);
                background_sound_stream.push(string_of(&text));
                proof {
                    before.lemma_push_map_commute(source, i as int);
                    assert(first + before.map_values(source).push(text@) == (first
                        + before.map_values(source)).push(text@));
                }
            },
            _ => {},
        }
        i += 1;
    }
    background_sound_stream
}

/// What every page is followed by: the size of the picture, and the length
/// for which the page is shown again and again.
pub open spec fn page_tail(width: usize, height: usize, micros: nat) -> Seq<char> {
    ",scale="@ + digits(width as nat) + ":"@ + digits(height as nat)
        + ",setsar=1:1,loop=-1:1,trim=duration="@ + seconds_text(micros)
}

/// The source of a page: the picture of a slide, by its number written with
/// three digits or more, an image, or a colour; scaled to `width` by `height`
/// and shown for the length of the page.
pub open spec fn page_source(
    md_dir: Seq<char>,
    width: usize,
    height: usize,
    page: TimedEventView,
    micros: nat,
) -> Seq<char> {
    match page {
        EventView::MPageMarker { marp_page_nth } => "movie=./marp_doc."@ + padded(
            marp_page_nth as nat,
            3,
        ) + page_tail(width, height, micros),
        EventView::IPageMarker { path } => "movie="@ + escape(join(md_dir, path)) + page_tail(
            width,
            height,
            micros,
        ),
        EventView::CPageMarker { color } => "color=c="@ + escape(color) + page_tail(
            width,
            height,
            micros,
        ),
        _ => Seq::empty(),
    }
}

/// What tells the places of the pages that are shown from the others: the
/// pages that last one frame or longer, where a frame lasts `period`
/// microseconds.
pub open spec fn long_enough(events: Seq<TimedEventView>, period: u64) -> spec_fn(int) -> bool {
    |at: int| segment_duration(events, at, Boundary::Page) >= period
}

/// The places of the pages among the first `upto` events that are shown.
pub open spec fn shown_pages_before(
    events: Seq<TimedEventView>,
    period: u64,
    upto: int,
) -> Seq<int> {
    boundaries_before(events, Boundary::Page, upto).filter(long_enough(events, period))
}

/// The places of the pages that are shown: the pages that last one frame or
/// longer, where a frame lasts `period` microseconds.
pub open spec fn shown_pages(events: Seq<TimedEventView>, period: u64) -> Seq<int> {
    shown_pages_before(events, period, events.len() as int)
}

/// What gives the place of each page its source: the source of the page,
/// with the length of the segment that starts there.
pub open spec fn page_source_at(
    md_dir: Seq<char>,
    width: usize,
    height: usize,
    events: Seq<TimedEventView>,
) -> spec_fn(int) -> Seq<char> {
    |at: int|
        page_source(
            md_dir,
            width,
            height,
            events[at],
            segment_duration(events, at, Boundary::Page),
        )
}

/// The video: one source for each page that is shown, in the order of the
/// pages. A page that lasts less than one frame, `period` microseconds, is
/// left out.
pub open spec fn video_sources(
    md_dir: Seq<char>,
    width: usize,
    height: usize,
    period: u64,
    events: Seq<TimedEventView>,
) -> Seq<Seq<char>> {
    shown_pages(events, period).map_values(page_source_at(md_dir, width, height, events))
}

/// The video of a document in a run: its pages at the size of the run's video
/// profile, cut at the frame period of that profile.
pub open spec fn video_of(env: Environment, events: Seq<TimedEventView>) -> Seq<Seq<char>> {
    video_sources(
        env.md_dir_text(),
        env.active_profile().width,
        env.active_profile().height,
        frame_period(env.active_profile().frame_rate),
        events,
    )
}

/// The pages that are shown before a place, and the place itself where a
/// page that is shown starts there, are the pages that are shown before the
/// next place.
pub proof fn lemma_shown_pages_step(events: Seq<TimedEventView>, period: u64, at: int)
    requires
        0 <= at < events.len(),
    ensures
        shown_pages_before(events, period, at + 1) == if events[at].is_page() && segment_duration(
            events,
            at,
            Boundary::Page,
        ) >= period {
            shown_pages_before(events, period, at).push(at)
        } else {
            shown_pages_before(events, period, at)
        },
{
    lemma_boundaries_step(events, Boundary::Page, at);
    if events[at].is_page() {
        boundaries_before(events, Boundary::Page, at).lemma_filter_push(
            at,
            long_enough(events, period),
        );
    }
}

/// The video of a document: one source for each page that lasts one frame
/// of the run's video profile or longer, and none for a shorter one. There is
/// none where the sounds last longer than a `u64` of microseconds holds.
pub fn plan_video_stream(
    env: &Environment,
    events: &Vec<TimedEvent>,
) -> (r: Result<Vec<String>, PlanError>)
    ensures
        match r {
            Ok(sources) => {
                &&& total_duration(events.deep_view()) <= u64::MAX
                &&& sources.deep_view() == video_of(*env, events.deep_view())
                &&& sources.len() == shown_pages(
                    events.deep_view(),
                    frame_period(env.active_profile().frame_rate),
                ).len()
                &&& frame_period(env.active_profile().frame_rate) >= 1
            },
            Err(fault) => fault == PlanError::DurationOverflow && total_duration(
                events.deep_view(),
            ) > u64::MAX,
        },
{
    if checked_total(events).is_none() {
        return Err(PlanError::DurationOverflow);
    }
    Ok(render_video(env, events))
}

/// The video of a document whose sounds fit a `u64` of microseconds.
fn render_video(env: &Environment, events: &Vec<TimedEvent>) -> (r: Vec<String>)
    requires
        total_duration(events.deep_view()) <= u64::MAX,
    ensures
        r.deep_view() == video_of(*env, events.deep_view()),
        r.len() == shown_pages(
            events.deep_view(),
            frame_period(env.active_profile().frame_rate),
        ).len(),
        frame_period(env.active_profile().frame_rate) >= 1,
{
    let md_dir = chars_of(env.md_dir().as_str());
    let width = env.video_width();
    let height = env.video_height();
    let period = env.frame_period();
    let mut video_stream: Vec<String> = Vec::new();
    let ghost all = events.deep_view();
    let ghost source = page_source_at(md_dir@, width, height, all);
    let mut i: usize = 0;
    proof {
        reveal(Seq::filter);
    }
    while i < events.len()
        invariant
            i <= events.len(),
            all == events.deep_view(),
            md_dir@ == env.md_dir_text(),
            width == env.active_profile().width,
            height == env.active_profile().height,
            total_duration(all) <= u64::MAX,
            period == frame_period(env.active_profile().frame_rate),
            source == page_source_at(md_dir@, width, height, all),
            video_stream.deep_view() == shown_pages_before(all, period, i as int).map_values(
                source,
            ),
        decreases events.len() - i,
    {
        proof {
            lemma_shown_pages_step(all, period, i as int);
        }
        if events[i].is_page() {
            let pdur = run_micros(events, i + 1, Boundary::Page);
            // A page that lasts less than one frame is left out.
            if pdur >= period {
                let mut text: Vec<char> = Vec::new();
                match &events[i] {
                    Event::MPageMarker { marp_page_nth } => {
                        push_str(&mut text, "movie=./marp_doc.");
                        push_padded(&mut text, *marp_page_nth as u64, 3);
                    },
                    Event::IPageMarker { path } => {
                        push_str(&mut text, "movie=");
                        push_escaped(&mut text, &joined(&md_dir, &chars_of(path.as_str())));
                    },
                    Event::CPageMarker { color } => {
                        push_str(&mut text, "color=c=");
                        push_escaped(&mut text, &chars_of(color.as_str()));
                    },
                    _ => {},
                }
                let mut tail: Vec<char> = Vec::new();
                push_str(&mut tail, ",scale=");
                push_nat(&mut tail, width as u64);
                push_str(&mut tail, ":");
                push_nat(&mut tail, height as u64);
                push_str(&mut tail, ",setsar=1:1,loop=-1:1,trim=duration=");
                push_fixed(&mut tail, pdur, SECOND_DECIMALS);
                push_all(&mut text, &tail);
                video_stream.push(string_of(&text));
                proof {
                    shown_pages_before(all, period, i as int).lemma_push_map_commute(
                        source,
                        i as int,
                    );
                }
            }
        }
        i += 1;
    }
    video_stream
}

/// The number of slide pages among `events`: the number of pictures that the
/// slide renderer has to have made before the video can be.
pub open spec fn slide_count(events: Seq<TimedEventView>) -> nat
    decreases events.len(),
{
    if events.len() == 0 {
        0
    } else if events.last() is MPageMarker {
        slide_count(events.drop_last()) + 1
    } else {
        slide_count(events.drop_last())
    }
}

/// The number of pictures of slides that a document needs.
pub fn count_slides(events: &Vec<TimedEvent>) -> (r: usize)
    ensures
        r == slide_count(events.deep_view()),
{
    let ghost all = events.deep_view();
    let mut count: usize = 0;
    let mut i: usize = 0;
    while i < events.len()
        invariant
            i <= events.len(),
            all == events.deep_view(),
            count == slide_count(all.take(i as int)),
            count <= i,
        decreases events.len() - i,
    {
        proof {
            assert(all.take(i + 1).drop_last() == all.take(i as int));
        }
        match &events[i] {
            Event::MPageMarker { .. } => {
                count += 1;
            },
            _ => {},
        }
        i += 1;
    }
    assert(all.take(events.len() as int) == all);
    count
}

/// The channels of a document: its video, its foreground and its background.
/// There are none where the sounds last longer than a `u64` of microseconds
/// holds, and none where no page is shown.
pub fn plan(env: &Environment, events: &Vec<TimedEvent>) -> (r: Result<DocumentChannels, PlanError>)
    ensures
        match r {
            Ok(channels) => {
                &&& total_duration(events.deep_view()) <= u64::MAX
                &&& channels.videos.deep_view() == video_of(*env, events.deep_view())
                &&& channels.fg_sounds.deep_view() == fg_sources(
                    env.md_dir_text(),
                    events.deep_view(),
                )
                &&& channels.bg_sounds.deep_view() == bg_sources(
                    env.md_dir_text(),
                    events.deep_view(),
                )
                &&& channels.is_complete()
                &&& channels.videos.len() == shown_pages(
                    events.deep_view(),
                    frame_period(env.active_profile().frame_rate),
                ).len()
                &&& channels.fg_sounds.len() == foreground_count(events.deep_view())
                &&& channels.bg_sounds.len() == 1 + bgm_count(events.deep_view())
            },
            Err(PlanError::DurationOverflow) => total_duration(events.deep_view()) > u64::MAX,
            Err(PlanError::NoVideo) => {
                &&& total_duration(events.deep_view()) <= u64::MAX
                &&& video_of(*env, events.deep_view()).len() == 0
            },
        },
{
    if checked_total(events).is_none() {
        return Err(PlanError::DurationOverflow);
    }
    let videos = render_video(env, events);
    if videos.len() == 0 {
        return Err(PlanError::NoVideo);
    }
    let bg_sounds = render_background(env, events);
    let fg_sounds = plan_fg_audio_stream(env, events);
    proof {
        lemma_background_segments(env.md_dir_text(), events.deep_view());
        lemma_shown_page_has_sound(
            events.deep_view(),
            frame_period(env.active_profile().frame_rate),
        );
    }
    Ok(DocumentChannels { videos, fg_sounds, bg_sounds })
}

/// The number of narrations, sound effects and silences among `events`.
pub open spec fn foreground_count(events: Seq<TimedEventView>) -> nat {
    events.filter(plays_in_foreground()).len()
}

/// The foreground has one source for each narration, sound effect and
/// silence of the document, whatever pages and music stand between them.
pub proof fn lemma_foreground_count(md_dir: Seq<char>, events: Seq<TimedEventView>)
    ensures
        fg_sources(md_dir, events).len() == foreground_count(events),
{
}

/// Events that sound at all hold a narration, a sound effect or a silence.
pub proof fn lemma_sound_needs_foreground(events: Seq<TimedEventView>)
    requires
        total_duration(events) > 0,
    ensures
        foreground_count(events) > 0,
    decreases events.len(),
{
    reveal(Seq::filter);
    if events.len() > 0 && total_duration(events.drop_last()) > 0 {
        lemma_sound_needs_foreground(events.drop_last());
    }
}

/// The boundaries before a place are places before it, each of a boundary.
pub proof fn lemma_boundaries_are_places(events: Seq<TimedEventView>, kind: Boundary, upto: int)
    requires
        0 <= upto <= events.len(),
    ensures
        forall|k: int|
            0 <= k < boundaries_before(events, kind, upto).len() ==> {
                let at = #[trigger] boundaries_before(events, kind, upto)[k];
                0 <= at < upto && is_boundary(events[at], kind)
            },
    decreases upto,
{
    if upto == 0 {
        reveal(Seq::filter);
    } else {
        lemma_boundaries_are_places(events, kind, upto - 1);
        lemma_boundaries_step(events, kind, upto - 1);
    }
}

/// The boundaries stand in the order of their places.
pub proof fn lemma_boundaries_increase(events: Seq<TimedEventView>, kind: Boundary, upto: int)
    requires
        0 <= upto <= events.len(),
    ensures
        forall|j: int, k: int|
            0 <= j < k < boundaries_before(events, kind, upto).len() ==> boundaries_before(
                events,
                kind,
                upto,
            )[j] < boundaries_before(events, kind, upto)[k],
    decreases upto,
{
    if upto == 0 {
        reveal(Seq::filter);
    } else {
        lemma_boundaries_increase(events, kind, upto - 1);
        lemma_boundaries_are_places(events, kind, upto - 1);
        lemma_boundaries_step(events, kind, upto - 1);
    }
}

/// Every place of a boundary is among the boundaries.
pub proof fn lemma_boundaries_hold_every_place(
    events: Seq<TimedEventView>,
    kind: Boundary,
    upto: int,
    at: int,
)
    requires
        0 <= at < upto <= events.len(),
        is_boundary(events[at], kind),
    ensures
        boundaries_before(events, kind, upto).contains(at),
    decreases upto,
{
    lemma_boundaries_step(events, kind, upto - 1);
    let before = boundaries_before(events, kind, upto - 1);
    if at == upto - 1 {
        assert(before.push(at)[before.len() as int] == at);
    } else {
        lemma_boundaries_hold_every_place(events, kind, upto - 1, at);
        let k = choose|k: int| 0 <= k < before.len() && before[k] == at;
        assert(boundaries_before(events, kind, upto)[k] == at);
    }
}

/// The pages that are shown are pages, and each lasts one frame or longer.
pub proof fn lemma_shown_pages_are_long(events: Seq<TimedEventView>, period: u64, upto: int)
    requires
        0 <= upto <= events.len(),
    ensures
        forall|k: int|
            0 <= k < shown_pages_before(events, period, upto).len() ==> {
                let at = #[trigger] shown_pages_before(events, period, upto)[k];
                &&& 0 <= at < upto
                &&& events[at].is_page()
                &&& segment_duration(events, at, Boundary::Page) >= period
            },
    decreases upto,
{
    if upto == 0 {
        reveal(Seq::filter);
    } else {
        lemma_shown_pages_are_long(events, period, upto - 1);
        lemma_shown_pages_step(events, period, upto - 1);
    }
}

/// Where a page is shown, the foreground plays something: a page that is
/// shown lasts a frame, and a frame takes time.
pub proof fn lemma_shown_page_has_sound(events: Seq<TimedEventView>, period: u64)
    requires
        period >= 1,
        shown_pages(events, period).len() > 0,
    ensures
        foreground_count(events) > 0,
{
    lemma_shown_pages_are_long(events, period, events.len() as int);
    let at = shown_pages(events, period)[0];
    lemma_next_boundary(events, at + 1, Boundary::Page);
    lemma_part_duration(events, at + 1, next_boundary(events, at + 1, Boundary::Page));
    lemma_sound_needs_foreground(events);
}

/// What gives the place of each boundary the length of the segment that
/// starts there.
pub open spec fn segment_length_at(
    events: Seq<TimedEventView>,
    kind: Boundary,
) -> spec_fn(int) -> nat {
    |at: int| segment_duration(events, at, kind)
}

/// The lengths of the segments that start at the boundaries of `kind` among
/// the first `upto` events, in their order.
pub open spec fn segment_lengths_before(
    events: Seq<TimedEventView>,
    kind: Boundary,
    upto: int,
) -> Seq<nat> {
    boundaries_before(events, kind, upto).map_values(segment_length_at(events, kind))
}

/// The lengths of the segments of the channel that `kind` divides: how long
/// the events before the first boundary sound, then the length of the segment
/// of each boundary.
pub open spec fn segment_lengths(events: Seq<TimedEventView>, kind: Boundary) -> Seq<nat> {
    seq![run_duration(events, 0, kind)] + segment_lengths_before(
        events,
        kind,
        events.len() as int,
    )
}

/// The sum of some lengths.
pub open spec fn sum(lengths: Seq<nat>) -> nat
    decreases lengths.len(),
{
    if lengths.len() == 0 {
        0
    } else {
        sum(lengths.drop_last()) + lengths.last()
    }
}

/// The sum of a first length and more lengths.
pub proof fn lemma_sum_first(first: nat, more: Seq<nat>)
    ensures
        sum(seq![first] + more) == first + sum(more),
    decreases more.len(),
{
    let all = seq![first] + more;
    if more.len() == 0 {
        assert(sum(all.drop_last()) == 0);
    } else {
        assert(all.drop_last() == seq![first] + more.drop_last());
        lemma_sum_first(first, more.drop_last());
    }
}

/// The segments that start before a place cover the events up to the next
/// boundary: their lengths, and how long the events before the first boundary
/// sound, come to how long all those events sound.
pub proof fn lemma_segments_cover_before(events: Seq<TimedEventView>, kind: Boundary, upto: int)
    requires
        0 <= upto <= events.len(),
    ensures
        run_duration(events, 0, kind) + sum(segment_lengths_before(events, kind, upto))
            == total_duration(events.take(next_boundary(events, upto, kind))),
    decreases upto,
{
    if upto == 0 {
        reveal(Seq::filter);
        lemma_next_boundary(events, 0, kind);
    } else {
        let at = upto - 1;
        lemma_segments_cover_before(events, kind, at);
        lemma_boundaries_step(events, kind, at);
        if is_boundary(events[at], kind) {
            let before = boundaries_before(events, kind, at);
            let length = segment_length_at(events, kind);
            before.lemma_push_map_commute(length, at);
            let lengths = segment_lengths_before(events, kind, upto);
            assert(lengths.drop_last() == segment_lengths_before(events, kind, at));
            let next = next_boundary(events, upto, kind);
            lemma_next_boundary(events, upto, kind);
            let head = events.take(at);
            let one = seq![events[at]];
            let tail = events.subrange(upto, next);
            assert(events.take(next) == head + one + tail);
            assert(total_duration(one.drop_last()) == 0);
            lemma_total_duration_additive(head, one);
            lemma_total_duration_additive(head + one, tail);
        }
    }
}

/// The segments of a channel cover the document: their lengths come to how
/// long the whole document sounds, each sound counted in one segment, none
/// twice and none lost.
pub proof fn lemma_segments_cover(events: Seq<TimedEventView>, kind: Boundary)
    ensures
        sum(segment_lengths(events, kind)) == total_duration(events),
        segment_lengths(events, kind).len() == 1 + boundaries(events, kind).len(),
{
    lemma_segments_cover_before(events, kind, events.len() as int);
    lemma_sum_first(
        run_duration(events, 0, kind),
        segment_lengths_before(events, kind, events.len() as int),
    );
    assert(events.take(events.len() as int) == events);
}

/// Each segment of the background lasts as long as its segment of the
/// document: the first is a silence of the first length, and the segment of
/// each marker is the marker's source at the length that follows.
pub proof fn lemma_background_lengths(md_dir: Seq<char>, events: Seq<TimedEventView>)
    ensures
        bg_sources(md_dir, events).len() == segment_lengths(events, Boundary::Bgm).len(),
        bg_sources(md_dir, events)[0] == silence_source(
            segment_lengths(events, Boundary::Bgm)[0],
        ),
        forall|k: int|
            0 <= k < boundaries(events, Boundary::Bgm).len() ==> #[trigger] bg_sources(
                md_dir,
                events,
            )[k + 1] == bgm_source(
                md_dir,
                events[boundaries(events, Boundary::Bgm)[k]],
                segment_lengths(events, Boundary::Bgm)[k + 1],
            ),
{
}

/// Two ways of telling places apart that agree on the first `upto` places
/// pick the same places among them.
pub proof fn lemma_places_agree(upto: int, p: spec_fn(int) -> bool, q: spec_fn(int) -> bool)
    requires
        0 <= upto,
        forall|at: int| 0 <= at < upto ==> #[trigger] p(at) == q(at),
    ensures
        places(upto).filter(p) == places(upto).filter(q),
    decreases upto,
{
    reveal(Seq::filter);
    if upto > 0 {
        lemma_places_agree(upto - 1, p, q);
        assert(places(upto).drop_last() == places(upto - 1));
    }
}

/// The boundaries of a run of events that one more event follows: those of
/// the run, and the place of the event where it is a boundary.
pub proof fn lemma_boundaries_push(
    events: Seq<TimedEventView>,
    event: TimedEventView,
    kind: Boundary,
)
    ensures
        boundaries(events.push(event), kind) == if is_boundary(event, kind) {
            boundaries(events, kind).push(events.len() as int)
        } else {
            boundaries(events, kind)
        },
{
    let more = events.push(event);
    let n = events.len() as int;
    lemma_boundaries_step(more, kind, n);
    assert forall|at: int| 0 <= at < n implies #[trigger] boundary_at(more, kind)(at)
        == boundary_at(events, kind)(at) by {
        assert(more[at] == events[at]);
    }
    lemma_places_agree(n, boundary_at(more, kind), boundary_at(events, kind));
}

/// The next boundary in a run of events that one more event follows: the
/// one in the run where there is one, else the event where it is a boundary,
/// else none.
pub proof fn lemma_next_boundary_push(
    events: Seq<TimedEventView>,
    event: TimedEventView,
    kind: Boundary,
    from: int,
)
    requires
        0 <= from <= events.len(),
    ensures
        next_boundary(events.push(event), from, kind) == if next_boundary(events, from, kind)
            < events.len() {
            next_boundary(events, from, kind)
        } else if is_boundary(event, kind) {
            events.len() as int
        } else {
            events.len() as int + 1
        },
    decreases events.len() - from,
{
    let more = events.push(event);
    if from < events.len() {
        if !is_boundary(events[from], kind) {
            lemma_next_boundary_push(events, event, kind, from + 1);
        }
    } else {
        assert(next_boundary(more, from + 1, kind) == from + 1);
    }
}

/// How long a run sounds up to the next boundary, where one more event
/// follows the events: as long as before, and as long as the event more
/// where the run reaches it.
pub proof fn lemma_run_duration_push(
    events: Seq<TimedEventView>,
    event: TimedEventView,
    kind: Boundary,
    from: int,
)
    requires
        0 <= from <= events.len(),
    ensures
        run_duration(events.push(event), from, kind) == run_duration(events, from, kind) + (
        if next_boundary(events, from, kind) == events.len() && !is_boundary(event, kind) {
            event_duration(event)
        } else {
            0nat
        }),
{
    let more = events.push(event);
    let n = events.len() as int;
    lemma_next_boundary_push(events, event, kind, from);
    lemma_next_boundary(events, from, kind);
    let next = next_boundary(events, from, kind);
    if next == n && !is_boundary(event, kind) {
        assert(more.subrange(from, n + 1) == events.subrange(from, n).push(event));
        assert(events.subrange(from, n).push(event).drop_last() == events.subrange(from, n));
    } else {
        assert(more.subrange(from, next) == events.subrange(from, next));
    }
}

/// Only the last segment of a channel is open at its end: after every other
/// boundary a boundary follows, and after the last one none does. Before the
/// first boundary the same holds of the events from the start.
pub proof fn lemma_last_segment_is_open(events: Seq<TimedEventView>, kind: Boundary)
    ensures
        (boundaries(events, kind).len() == 0) == (next_boundary(events, 0, kind) == events.len()),
        forall|k: int|
            0 <= k < boundaries(events, kind).len() ==> (k == boundaries(events, kind).len() - 1)
                == (next_boundary(events, #[trigger] boundaries(events, kind)[k] + 1, kind)
                == events.len()),
{
    let n = events.len() as int;
    let b = boundaries(events, kind);
    lemma_boundaries_are_places(events, kind, n);
    lemma_boundaries_increase(events, kind, n);
    lemma_next_boundary(events, 0, kind);
    let first = next_boundary(events, 0, kind);
    if b.len() > 0 {
        assert(is_boundary(events[b[0]], kind));
    }
    if first < n {
        lemma_boundaries_hold_every_place(events, kind, n, first);
    }
    assert forall|k: int| 0 <= k < b.len() implies (k == b.len() - 1) == (next_boundary(
        events,
        #[trigger] b[k] + 1,
        kind,
    ) == n) by {
        let at = b[k];
        lemma_next_boundary(events, at + 1, kind);
        let next = next_boundary(events, at + 1, kind);
        if k < b.len() - 1 {
            assert(b[k] < b[k + 1]);
        } else if next < n {
            lemma_boundaries_hold_every_place(events, kind, n, next);
            let j = choose|j: int| 0 <= j < b.len() && b[j] == next;
            assert(j <= k ==> b[j] <= b[k]);
        }
    }
}

/// The lengths of the segments where one more event follows the events: a
/// boundary opens a segment of no length, and any other event makes the last
/// segment as much longer as it sounds.
pub proof fn lemma_segment_lengths_push(
    events: Seq<TimedEventView>,
    event: TimedEventView,
    kind: Boundary,
)
    ensures
        segment_lengths(events.push(event), kind) == if is_boundary(event, kind) {
            segment_lengths(events, kind).push(0)
        } else {
            segment_lengths(events, kind).update(
                segment_lengths(events, kind).len() - 1,
                segment_lengths(events, kind).last() + event_duration(event),
            )
        },
{
    let more = events.push(event);
    let n = events.len() as int;
    let b = boundaries(events, kind);
    let old_lengths = segment_lengths(events, kind);
    let new_lengths = segment_lengths(more, kind);
    let expected = if is_boundary(event, kind) {
        old_lengths.push(0)
    } else {
        old_lengths.update(old_lengths.len() - 1, old_lengths.last() + event_duration(event))
    };
    lemma_boundaries_push(events, event, kind);
    lemma_boundaries_are_places(events, kind, n);
    lemma_last_segment_is_open(events, kind);
    lemma_run_duration_push(events, event, kind, 0);
    assert forall|i: int| 0 <= i < new_lengths.len() implies new_lengths[i] == expected[i] by {
        if 0 < i <= b.len() {
            lemma_run_duration_push(events, event, kind, b[i - 1] + 1);
        }
    }
}

/// One boundary more divides one segment into two and leaves the others as
/// they are: where a boundary is put between `head` and `tail`, the segment
/// that held that place becomes two that together last as long as it did, the
/// segments before it keep their lengths, and the segments after it keep
/// theirs, one place further on.
pub proof fn lemma_boundary_divides_segment(
    head: Seq<TimedEventView>,
    boundary: TimedEventView,
    tail: Seq<TimedEventView>,
    kind: Boundary,
)
    requires
        is_boundary(boundary, kind),
    ensures
        ({
            let before = segment_lengths(head + tail, kind);
            let after = segment_lengths(head.push(boundary) + tail, kind);
            let place = boundaries(head, kind).len() as int;
            &&& after.len() == before.len() + 1
            &&& place < before.len()
            &&& forall|i: int| 0 <= i < place ==> after[i] == before[i]
            &&& after[place] + after[place + 1] == before[place]
            &&& forall|i: int| place < i < before.len() ==> after[i + 1] == before[i]
        }),
    decreases tail.len(),
{
    if tail.len() == 0 {
        lemma_segment_lengths_push(head, boundary, kind);
    } else {
        let event = tail.last();
        let less = tail.drop_last();
        assert(head + tail == (head + less).push(event));
        assert(head.push(boundary) + tail == (head.push(boundary) + less).push(event));
        lemma_boundary_divides_segment(head, boundary, less, kind);
        lemma_segment_lengths_push(head + less, event, kind);
        lemma_segment_lengths_push(head.push(boundary) + less, event, kind);
    }
}

/// The lengths of the segments go by the boundaries: the length after the
/// first is that of the segment of the first boundary, and so on.
pub proof fn lemma_segment_lengths_at(events: Seq<TimedEventView>, kind: Boundary)
    ensures
        segment_lengths(events, kind).len() == 1 + boundaries(events, kind).len(),
        segment_lengths(events, kind)[0] == run_duration(events, 0, kind),
        forall|k: int|
            0 <= k < boundaries(events, kind).len() ==> #[trigger] segment_lengths(
                events,
                kind,
            )[k + 1] == segment_duration(events, boundaries(events, kind)[k], kind),
{
}

/// Each source of the video shows its page for as long as the segment of the
/// page lasts, and the pages that are shown are the pages whose segments
/// last one frame or longer.
pub proof fn lemma_video_lengths(
    md_dir: Seq<char>,
    width: usize,
    height: usize,
    period: u64,
    events: Seq<TimedEventView>,
)
    ensures
        shown_pages(events, period) == boundaries(events, Boundary::Page).filter(
            long_enough(events, period),
        ),
        forall|k: int|
            0 <= k < shown_pages(events, period).len() ==> #[trigger] video_sources(
                md_dir,
                width,
                height,
                period,
                events,
            )[k] == page_source(
                md_dir,
                width,
                height,
                events[shown_pages(events, period)[k]],
                segment_duration(events, shown_pages(events, period)[k], Boundary::Page),
            ),
{
}

/// The number of background markers among `events`.
pub open spec fn bgm_count(events: Seq<TimedEventView>) -> nat {
    boundaries(events, Boundary::Bgm).len()
}

/// The background has one segment more than the document has background
/// markers. Its first segment is a silence that lasts as long as the events
/// before the first marker sound: no time at all where the document opens
/// with a marker.
pub proof fn lemma_background_segments(md_dir: Seq<char>, events: Seq<TimedEventView>)
    ensures
        bg_sources(md_dir, events).len() == 1 + bgm_count(events),
        ({
            let first = next_boundary(events, 0, Boundary::Bgm);
            &&& 0 <= first <= events.len()
            &&& forall|k: int| 0 <= k < first ==> !(#[trigger] events[k]).is_bgm()
            &&& first < events.len() ==> events[first].is_bgm()
            &&& bg_sources(md_dir, events)[0] == silence_source(total_duration(events.take(first)))
            &&& first == 0 ==> bg_sources(md_dir, events)[0] == silence_source(0)
        }),
{
    lemma_next_boundary(events, 0, Boundary::Bgm);
    let first = next_boundary(events, 0, Boundary::Bgm);
    assert forall|k: int| 0 <= k < first implies !(#[trigger] events[k]).is_bgm() by {
        assert(!is_boundary(events[k], Boundary::Bgm));
    }
}

/// The video has one source for each page that lasts one frame or longer,
/// and none for any other: a page that lasts less adds nothing.
pub proof fn lemma_video_segments(
    md_dir: Seq<char>,
    width: usize,
    height: usize,
    period: u64,
    events: Seq<TimedEventView>,
)
    ensures
        video_sources(md_dir, width, height, period, events).len() == shown_pages(
            events,
            period,
        ).len(),
        forall|k: int|
            0 <= k < shown_pages(events, period).len() ==> {
                let at = #[trigger] shown_pages(events, period)[k];
                &&& 0 <= at < events.len()
                &&& events[at].is_page()
                &&& segment_duration(events, at, Boundary::Page) >= period
            },
{
    lemma_shown_pages_are_long(events, period, events.len() as int);
}

/// A page that lasts less than one frame adds nothing to the video.
pub proof fn lemma_short_page_dropped(events: Seq<TimedEventView>, period: u64, at: int)
    requires
        0 <= at < events.len(),
        segment_duration(events, at, Boundary::Page) < period,
    ensures
        shown_pages_before(events, period, at + 1) == shown_pages_before(events, period, at),
        !shown_pages(events, period).contains(at),
{
    lemma_shown_pages_step(events, period, at);
    lemma_shown_pages_are_long(events, period, events.len() as int);
}

/// The characters that the filter graph reads as its own.
pub open spec fn is_reserved(c: char) -> bool {
    c == ':' || c == '\\' || c == '\'' || c == '=' || c == ';' || c == ',' || c == '[' || c == ']'
}

/// Whether each reserved character of `t` that is no backslash has a
/// backslash before it.
pub open spec fn guarded(t: Seq<char>) -> bool {
    forall|i: int|
        0 <= i < t.len() && is_reserved(#[trigger] t[i]) && t[i] != '\\' ==> i > 0 && t[i - 1]
            == '\\'
}

/// Whatever a text holds, each reserved character of what is written for it
/// that is no backslash has a backslash before it.
pub proof fn lemma_escape_guarded(s: Seq<char>)
    ensures
        guarded(escape(s)),
    decreases s.len(),
{
    if s.len() > 0 {
        lemma_escape_guarded(s.drop_last());
    }
}

/// What is read from `t` when each backslash is taken away and the character
/// after it is kept.
pub open spec fn unescape(t: Seq<char>) -> Seq<char>
    decreases t.len(),
{
    if t.len() == 0 {
        Seq::empty()
    } else if t[0] == '\\' && t.len() >= 2 {
        seq![t[1]] + unescape(t.skip(2))
    } else {
        seq![t[0]] + unescape(t.skip(1))
    }
}

/// What is written for a character, read once.
pub open spec fn escape_char_once(c: char) -> Seq<char> {
    if c == '\\' || c == ':' || c == '\'' {
        seq!['\\', c]
    } else {
        seq![c]
    }
}

/// What is written for a text, read once.
pub open spec fn escape_once(s: Seq<char>) -> Seq<char>
    decreases s.len(),
{
    if s.len() == 0 {
        Seq::empty()
    } else {
        escape_char_once(s[0]) + escape_once(s.skip(1))
    }
}

/// What is written for a text is what is written for its first character,
/// then what is written for the rest.
pub proof fn lemma_escape_first(c: char, s: Seq<char>)
    ensures
        escape(seq![c] + s) == escape_char(c) + escape(s),
    decreases s.len(),
{
    let whole = seq![c] + s;
    if s.len() == 0 {
        assert(escape(whole.drop_last()) == Seq::<char>::empty());
    } else {
        assert(whole.drop_last() == seq![c] + s.drop_last());
        lemma_escape_first(c, s.drop_last());
    }
}

proof fn lemma_unescape_pair(a: char, rest: Seq<char>)
    ensures
        unescape(seq!['\\', a] + rest) == seq![a] + unescape(rest),
{
    let t = seq!['\\', a] + rest;
    assert(t.skip(2) == rest);
}

proof fn lemma_unescape_plain(a: char, rest: Seq<char>)
    requires
        a != '\\',
    ensures
        unescape(seq![a] + rest) == seq![a] + unescape(rest),
{
    let t = seq![a] + rest;
    assert(t.skip(1) == rest);
}

proof fn lemma_unescape_char(c: char, rest: Seq<char>)
    ensures
        unescape(escape_char(c) + rest) == escape_char_once(c) + unescape(rest),
{
    if c == '\\' {
        assert(escape_char(c) + rest == seq!['\\', '\\'] + (seq!['\\', '\\'] + rest));
        lemma_unescape_pair('\\', seq!['\\', '\\'] + rest);
        lemma_unescape_pair('\\', rest);
    } else if c == ':' || c == '\'' {
        if c == ':' {
            assert(escape_char(c) + rest == seq!['\\', '\\'] + (seq![c] + rest));
        } else {
            assert(escape_char(c) + rest == seq!['\\', '\\'] + (seq!['\\', c] + rest));
            lemma_unescape_pair(c, rest);
        }
        lemma_unescape_pair('\\', seq![c] + rest);
        lemma_unescape_pair('\\', seq!['\\', c] + rest);
        lemma_unescape_plain(c, rest);
    } else if c == '=' || c == ';' || c == ',' || c == '[' || c == ']' {
        lemma_unescape_pair(c, rest);
    } else {
        lemma_unescape_plain(c, rest);
    }
}

proof fn lemma_unescape_char_once(c: char, rest: Seq<char>)
    ensures
        unescape(escape_char_once(c) + rest) == seq![c] + unescape(rest),
{
    if c == '\\' || c == ':' || c == '\'' {
        lemma_unescape_pair(c, rest);
    } else {
        lemma_unescape_plain(c, rest);
    }
}

/// Reading what is written for a text once gives the text with one backslash
/// before each backslash, colon and quote.
pub proof fn lemma_unescape_escape(s: Seq<char>)
    ensures
        unescape(escape(s)) == escape_once(s),
    decreases s.len(),
{
    if s.len() > 0 {
        assert(seq![s[0]] + s.skip(1) == s);
        lemma_escape_first(s[0], s.skip(1));
        lemma_unescape_char(s[0], escape(s.skip(1)));
        lemma_unescape_escape(s.skip(1));
    }
}

proof fn lemma_unescape_once(s: Seq<char>)
    ensures
        unescape(escape_once(s)) == s,
    decreases s.len(),
{
    if s.len() > 0 {
        lemma_unescape_char_once(s[0], escape_once(s.skip(1)));
        lemma_unescape_once(s.skip(1));
    }
}

/// Nothing is lost in writing: what is written for any text, read twice, each
/// time taking every backslash away and keeping the character after it, is
/// the text again.
pub proof fn lemma_escape_round_trip(s: Seq<char>)
    ensures
        unescape(unescape(escape(s))) == s,
{
    lemma_unescape_escape(s);
    lemma_unescape_once(s);
}

/// The foreground of a run of events is the foreground of its first part,
/// then that of the rest.
pub proof fn lemma_fg_sources_additive(
    md_dir: Seq<char>,
    a: Seq<TimedEventView>,
    b: Seq<TimedEventView>,
)
    ensures
        fg_sources(md_dir, a + b) == fg_sources(md_dir, a) + fg_sources(md_dir, b),
    decreases b.len(),
{
    if b.len() == 0 {
        reveal(Seq::filter);
    } else {
        lemma_fg_sources_additive(md_dir, a, b.drop_last());
        lemma_fg_sources_push(md_dir, a + b.drop_last(), b.last());
        lemma_fg_sources_push(md_dir, b.drop_last(), b.last());
    }
}

/// The foreground does not depend on pages and music: without any one event
/// that is a page or a background marker, it is what it was.
pub proof fn lemma_foreground_ignores_boundaries(
    md_dir: Seq<char>,
    events: Seq<TimedEventView>,
    at: int,
)
    requires
        0 <= at < events.len(),
        !events[at].is_foreground(),
    ensures
        fg_sources(md_dir, events.remove(at)) == fg_sources(md_dir, events),
{
    let head = events.take(at);
    let tail = events.skip(at + 1);
    assert(events == head.push(events[at]) + tail);
    lemma_fg_sources_push(md_dir, head, events[at]);
    lemma_fg_sources_additive(md_dir, head, tail);
    lemma_fg_sources_additive(md_dir, head.push(events[at]), tail);
}

} // verus!
