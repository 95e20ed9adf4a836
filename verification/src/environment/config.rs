//! The settings of a run: the programs to call and the video profiles.

use vstd::prelude::*;
use crate::text::same_text;

verus! {

/// The measuring program, where the settings name none.
pub fn default_ffprobe_bin() -> (r: String)
    ensures
        r@ == "ffprobe"@,
{
    String::from_str("ffprobe")
}

/// The encoder, where the settings name none.
pub fn default_ffmpeg_bin() -> (r: String)
    ensures
        r@ == "ffmpeg"@,
{
    String::from_str("ffmpeg")
}

/// The slide renderer, where the settings name none.
pub fn default_marp_bin() -> (r: String)
    ensures
        r@ == "marp"@,
{
    String::from_str("marp")
}

/// The speech synthesiser of a voice profile that names none.
pub fn default_tts_bin() -> (r: String)
    ensures
        r@ == "marp-video-tts"@,
{
    String::from_str("marp-video-tts")
}

/// The container of a video profile that names none.
pub fn default_video_container() -> (r: String)
    ensures
        r@ == "mp4"@,
{
    String::from_str("mp4")
}

/// The width of a video profile that states none.
pub fn default_width() -> (r: usize)
    ensures
        r == 1280,
{
    1280
}

/// The height of a video profile that states none.
pub fn default_height() -> (r: usize)
    ensures
        r == 720,
{
    720
}

/// The frame rate of a video profile that states none, in frames a second.
pub fn default_frame_rate() -> (r: u32)
    ensures
        r == 30,
{
    30
}

/// The number of microseconds in a second.
pub const MICROS_PER_SECOND: u32 = 1_000_000;

/// Whether a frame rate can be worked with: at least one frame a second, and
/// no frame shorter than a microsecond.
pub open spec fn is_frame_rate(frame_rate: u32) -> bool {
    1 <= frame_rate <= MICROS_PER_SECOND
}

/// How long one frame is shown at `frame_rate` frames a second, in whole
/// microseconds.
pub open spec fn frame_period(frame_rate: u32) -> u64 {
    (MICROS_PER_SECOND as int / frame_rate as int) as u64
}

/// The encoder.
#[derive(Debug, Clone)]
pub struct Ffmpeg {
    pub bin: String,
    pub global_args: Vec<String>,
}

/// The slide renderer.
#[derive(Debug, Clone)]
pub struct Marp {
    pub bin: String,
    pub global_args: Vec<String>,
    /// Environment variables for the renderer, by name.
    pub envs: Vec<(String, String)>,
}

/// The program that measures a sound file.
#[derive(Debug, Clone)]
pub struct Ffprobe {
    pub bin: String,
}

/// A speech synthesiser.
#[derive(Debug, Clone)]
pub struct Tts {
    pub bin: String,
    pub args: Vec<String>,
    /// Environment variables for the synthesiser, by name.
    pub envs: Vec<(String, String)>,
}

/// The programs that a run calls.
#[derive(Debug, Clone)]
pub struct Dependencies {
    pub ffprobe: Ffprobe,
    pub ffmpeg: Ffmpeg,
    pub marp: Marp,
}

/// A video profile.
#[derive(Debug, Clone)]
pub struct Profile {
    pub ffmpeg_args: Vec<String>,
    pub marp_args: Vec<String>,
    pub video_container: String,
    pub width: usize,
    pub height: usize,
    /// In frames a second.
    pub frame_rate: u32,
}

/// The settings of a run.
#[derive(Debug, Clone)]
pub struct Config {
    /// Where generated files are kept: a path, taken from the document's
    /// directory where it has no root.
    pub cache_dir: String,
    pub dep: Dependencies,
    /// The speech synthesisers, by voice profile.
    pub tts: Vec<(String, Tts)>,
    /// The video profiles, by name.
    pub profile: Vec<(String, Profile)>,
}

/// The index of the first entry of `entries` under `name`, or their number
/// where there is none.
pub open spec fn index_named<T>(entries: Seq<(String, T)>, name: Seq<char>) -> int
    decreases entries.len(),
{
    if entries.len() == 0 || entries[0].0@ == name {
        0
    } else {
        1 + index_named(entries.skip(1), name)
    }
}

/// Whether `entries` holds an entry under `name`.
pub open spec fn has_named<T>(entries: Seq<(String, T)>, name: Seq<char>) -> bool {
    index_named(entries, name) < entries.len()
}

/// Whether no two entries share a name.
pub open spec fn distinct_names<T>(entries: Seq<(String, T)>) -> bool {
    forall|i: int, j: int|
        0 <= i < j < entries.len() ==> (#[trigger] entries[i]).0@ != (#[trigger] entries[j]).0@
}

/// `index_named` gives an index within the number of entries; no entry
/// before it is under `name`, and the entry at it is.
pub proof fn lemma_index_named<T>(entries: Seq<(String, T)>, name: Seq<char>)
    ensures
        0 <= index_named(entries, name) <= entries.len(),
        has_named(entries, name) ==> entries[index_named(entries, name)].0@ == name,
        forall|i: int| 0 <= i < index_named(entries, name) ==> (#[trigger] entries[i]).0@ != name,
    decreases entries.len(),
{
    if entries.len() > 0 && entries[0].0@ != name {
        lemma_index_named(entries.skip(1), name);
        assert forall|i: int| 0 <= i < index_named(entries, name) implies (#[trigger] entries[i]).0@
            != name by {
            if i > 0 {
                assert(entries.skip(1)[i - 1] == entries[i]);
            }
        }
    }
}

/// The index of the first entry under `name`, or the number of entries.
pub fn find_named<T>(entries: &Vec<(String, T)>, name: &str) -> (r: usize)
    ensures
        r == index_named(entries@, name@),
        r <= entries.len(),
        r < entries.len() ==> entries@[r as int].0@ == name@,
        forall|i: int| 0 <= i < r ==> (#[trigger] entries@[i]).0@ != name@,
{
    proof {
        lemma_index_named(entries@, name@);
    }
    let mut i: usize = 0;
    assert(entries@.skip(0) == entries@);
    while i < entries.len() && !same_text(entries[i].0.as_str(), name)
        invariant
            i <= entries.len(),
            index_named(entries@, name@) == i + index_named(entries@.skip(i as int), name@),
        decreases entries.len() - i,
    {
        assert(entries@.skip(i as int).skip(1) == entries@.skip(i + 1));
        i += 1;
    }
    i
}

/// Whether the settings name nothing twice: no two voice profiles, no two
/// video profiles, and no environment variable twice for one program.
pub open spec fn has_distinct_names(config: Config) -> bool {
    &&& distinct_names(config.tts@)
    &&& distinct_names(config.profile@)
    &&& distinct_names(config.dep.marp.envs@)
    &&& forall|i: int|
        0 <= i < config.tts.len() ==> distinct_names((#[trigger] config.tts@[i]).1.envs@)
}

/// Whether the settings name nothing twice.
pub fn names_are_distinct(config: &Config) -> (r: bool)
    ensures
        r == has_distinct_names(*config),
{
    if !names_distinct(&config.tts) || !names_distinct(&config.profile) || !names_distinct(
        &config.dep.marp.envs,
    ) {
        return false;
    }
    let mut i: usize = 0;
    while i < config.tts.len()
        invariant
            i <= config.tts.len(),
            forall|k: int| 0 <= k < i ==> distinct_names((#[trigger] config.tts@[k]).1.envs@),
        decreases config.tts.len() - i,
    {
        if !names_distinct(&config.tts[i].1.envs) {
            return false;
        }
        i += 1;
    }
    true
}

/// Whether no two entries share a name.
pub fn names_distinct<T>(entries: &Vec<(String, T)>) -> (r: bool)
    ensures
        r == distinct_names(entries@),
{
    let mut j: usize = 0;
    while j < entries.len()
        invariant
            j <= entries.len(),
            forall|a: int, b: int|
                0 <= a < b < j ==> (#[trigger] entries@[a]).0@ != (#[trigger] entries@[b]).0@,
        decreases entries.len() - j,
    {
        let mut i: usize = 0;
        while i < j
            invariant
                i <= j < entries.len(),
                forall|a: int| 0 <= a < i ==> (#[trigger] entries@[a]).0@ != entries@[j as int].0@,
            decreases j - i,
        {
            if same_text(entries[i].0.as_str(), entries[j].0.as_str()) {
                return false;
            }
            i += 1;
        }
        j += 1;
    }
    true
}

} // verus!
