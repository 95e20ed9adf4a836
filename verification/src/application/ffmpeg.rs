//! The encoder: the filter graph of a document, and the call that renders it.

use vstd::prelude::*;
use crate::decimal::{digits, push_nat};
use crate::environment::Environment;
use crate::planner::DocumentChannels;
use crate::text::{push_all, push_str, push_strings, push_text, string_of};

verus! {

/// The first `upto` sources of a channel, each ending in its label: the tag
/// of the channel and the index of the source.
pub open spec fn labelled_sources(sources: Seq<Seq<char>>, tag: Seq<char>, upto: int) -> Seq<char>
    decreases upto,
{
    if upto <= 0 {
        Seq::empty()
    } else {
        labelled_sources(sources, tag, upto - 1) + sources[upto - 1] + "["@ + tag + digits(
            (upto - 1) as nat,
        ) + "];\n"@
    }
}

/// The labels of the first `upto` sources of a channel.
pub open spec fn labels(tag: Seq<char>, upto: int) -> Seq<char>
    decreases upto,
{
    if upto <= 0 {
        Seq::empty()
    } else {
        labels(tag, upto - 1) + "["@ + tag + digits((upto - 1) as nat) + "]"@
    }
}

/// The node that joins the sources of a channel into one stream under the
/// tag of the channel: it names every source, says how many they are, and
/// says whether they are pictures or sound.
pub open spec fn concat_node(tag: Seq<char>, count: nat, video: bool) -> Seq<char> {
    labels(tag, count as int) + "concat=n="@ + digits(count) + (if video {
        ":v=1:a=0["@
    } else {
        ":v=0:a=1["@
    }) + tag + "];\n"@
}

/// A channel in the filter graph: its sources, then the node that joins them.
pub open spec fn channel_graph(sources: Seq<Seq<char>>, tag: Seq<char>, video: bool) -> Seq<char> {
    labelled_sources(sources, tag, sources.len() as int) + concat_node(tag, sources.len(), video)
}

/// The filter graph of a document: the foreground under `fga`, the video
/// under `v`, the background under `bga`; the background mixed under the
/// foreground into `a`; and `v` and `a` joined into the output.
pub open spec fn filter_complex(
    fg_sounds: Seq<Seq<char>>,
    videos: Seq<Seq<char>>,
    bg_sounds: Seq<Seq<char>>,
) -> Seq<char> {
    channel_graph(fg_sounds, "fga"@, false) + channel_graph(videos, "v"@, true) + channel_graph(
        bg_sounds,
        "bga"@,
        false,
    ) + "[bga][fga]amix[a];\n"@ + "\n[v][a]concat=n=1:v=1:a=1"@
}

/// Appends a channel of the filter graph.
fn push_channel(out: &mut Vec<char>, sources: &Vec<String>, tag: &str, video: bool)
    ensures
        final(out)@ == old(out)@ + channel_graph(sources.deep_view(), tag@, video),
{
    let ghost all = sources.deep_view();
    let mut body: Vec<char> = Vec::new();
    let mut names: Vec<char> = Vec::new();
    let mut n: usize = 0;
    while n < sources.len()
        invariant
            n <= sources.len(),
            all == sources.deep_view(),
            body@ == labelled_sources(all, tag@, n as int),
            names@ == labels(tag@, n as int),
        decreases sources.len() - n,
    {
        push_str(&mut body, sources[n].as_str());
        push_str(&mut body, "[");
        push_str(&mut body, tag);
        push_nat(&mut body, n as u64);
        push_str(&mut body, "];\n");
        push_str(&mut names, "[");
        push_str(&mut names, tag);
        push_nat(&mut names, n as u64);
        push_str(&mut names, "]");
        n += 1;
    }
    let mut node: Vec<char> = Vec::new();
    push_all(&mut node, &names);
    push_str(&mut node, "concat=n=");
    push_nat(&mut node, sources.len() as u64);
    if video {
        push_str(&mut node, ":v=1:a=0[");
    } else {
        push_str(&mut node, ":v=0:a=1[");
    }
    push_str(&mut node, tag);
    push_str(&mut node, "];\n");
    push_all(&mut body, &node);
    push_all(out, &body);
}

/// Writes the filter graph of a document. Every channel must have a source:
/// a node that joins nothing is no graph.
pub fn to_filter_complex(doc: &DocumentChannels) -> (r: String)
    requires
        doc.is_complete(),
    ensures
        r@ == filter_complex(
            doc.fg_sounds.deep_view(),
            doc.videos.deep_view(),
            doc.bg_sounds.deep_view(),
        ),
{
    let mut out: Vec<char> = Vec::new();
    push_channel(&mut out, &doc.fg_sounds, "fga", false);
    push_channel(&mut out, &doc.videos, "v", true);
    push_channel(&mut out, &doc.bg_sounds, "bga", false);
    push_str(&mut out, "[bga][fga]amix[a];\n");
    push_str(&mut out, "\n[v][a]concat=n=1:v=1:a=1");
    string_of(&out)
}

/// The name of the file that the encoder writes.
pub open spec fn output_name(container: Seq<char>) -> Seq<char> {
    "output."@ + container
}

/// What the encoder is called with: no input from the terminal, no banner,
/// leave to overwrite, the filter graph, the arguments that the settings add,
/// and the file to write.
pub open spec fn encoder_args(
    filter: Seq<char>,
    additional: Seq<Seq<char>>,
    container: Seq<char>,
) -> Seq<Seq<char>> {
    seq!["-nostdin"@, "-hide_banner"@, "-y"@, "-filter_complex"@, filter] + additional + seq![
        output_name(container),
    ]
}

/// The name of the file that the encoder writes for this run.
pub fn output_file(env: &Environment) -> (r: String)
    ensures
        r@ == output_name(env.active_profile().video_container@),
{
    let mut name: Vec<char> = Vec::new();
    push_str(&mut name, "output.");
    push_str(&mut name, env.video_container());
    string_of(&name)
}

/// What the encoder is called with to render a document, every channel of
/// which must have a source.
pub fn encode_args(env: &Environment, doc: &DocumentChannels) -> (r: Vec<String>)
    requires
        doc.is_complete(),
    ensures
        r.deep_view() == encoder_args(
            filter_complex(
                doc.fg_sounds.deep_view(),
                doc.videos.deep_view(),
                doc.bg_sounds.deep_view(),
            ),
            env.config().dep.ffmpeg.global_args.deep_view()
                + env.active_profile().ffmpeg_args.deep_view(),
            env.active_profile().video_container@,
        ),
{
    let filter_complex = to_filter_complex(doc);
    let mut a: Vec<String> = Vec::new();
    push_text(&mut a, "-nostdin");
    push_text(&mut a, "-hide_banner");
    push_text(&mut a, "-y");
    push_text(&mut a, "-filter_complex");
    push_text(&mut a, filter_complex.as_str());
    let additional_args = env.ffmpeg_additional_args();
    push_strings(&mut a, &additional_args);
    let filename = output_file(env);
    push_text(&mut a, filename.as_str());
    a
}

} // verus!
