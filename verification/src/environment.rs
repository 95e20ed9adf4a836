//! What a run works with: its settings, the document, and the video profile
//! that was chosen.

use vstd::prelude::*;
use crate::path::{join, joined, parent, parent_of};
use crate::text::{chars_of, push_str, push_strings, string_of};
use config::{
    find_named, frame_period, has_distinct_names, has_named, index_named, is_frame_rate,
    names_are_distinct, Config, Profile, Tts, MICROS_PER_SECOND,
};

pub mod config;

verus! {

/// The MD5 digest of the UTF-8 bytes of `text`, as 32 hexadecimal digits in
/// lower case.
pub uninterp spec fn md5_hex(text: Seq<char>) -> Seq<char>;

/// Calls `md5::compute` on the bytes of `text` and writes the digest with
/// `{:x}`. The digest depends on the bytes alone, so the result is the one
/// that `md5_hex` names.
#[verifier::external_body]
fn md5_text(text: &str) -> (r: String)
    ensures
        r@ == md5_hex(text@),
{
    format!("{:x}", md5::compute(text))
}

/// Why a run cannot be set up.
#[derive(Debug, Clone, Copy, PartialEq, Eq, Structural)]
pub enum EnvironmentError {
    /// Two voice profiles, or two video profiles, have the same name.
    DuplicateName,
    /// The settings hold no video profile of the name that was asked for.
    ProfileNotConfigured,
    /// The video profile asks for no frame at all in a second, or for more
    /// than a million.
    FrameRate,
}

/// A run: its settings, the path of its document, and the name of its video
/// profile. The settings hold that profile and name nothing twice, and the
/// profile has a frame rate of at least one and at most a million frames a
/// second.
#[derive(Debug)]
pub struct Environment {
    config: Config,
    abs_md_path: String,
    profile: String,
}

impl Environment {
    #[verifier::type_invariant]
    spec fn valid(&self) -> bool {
        &&& has_distinct_names(self.config)
        &&& has_named(self.config.profile@, self.profile@)
        &&& is_frame_rate(
            self.config.profile@[index_named(self.config.profile@, self.profile@)].1.frame_rate,
        )
    }

    /// The settings of the run.
    pub closed spec fn config(&self) -> Config {
        self.config
    }

    /// The path of the document.
    pub closed spec fn md_path_text(&self) -> Seq<char> {
        self.abs_md_path@
    }

    /// The name of the video profile that was chosen.
    pub closed spec fn profile_name(&self) -> Seq<char> {
        self.profile@
    }

    /// The video profile that was chosen.
    pub open spec fn active_profile(&self) -> Profile {
        self.config().profile@[index_named(self.config().profile@, self.profile_name())].1
    }

    /// The speech synthesiser of a voice profile.
    pub open spec fn voice(&self, voice_profile: Seq<char>) -> Tts {
        self.config().tts@[index_named(self.config().tts@, voice_profile)].1
    }

    /// Whether the settings hold a speech synthesiser for a voice profile.
    pub open spec fn has_voice(&self, voice_profile: Seq<char>) -> bool {
        has_named(self.config().tts@, voice_profile)
    }

    /// The directory of the document.
    pub open spec fn md_dir_text(&self) -> Seq<char> {
        parent(self.md_path_text())
    }

    /// The directory of the generated files.
    pub open spec fn cache_root_text(&self) -> Seq<char> {
        join(self.md_dir_text(), self.config().cache_dir@)
    }

    /// The directory of the narrations of a voice profile.
    pub open spec fn voice_cache_dir_text(&self, voice_profile: Seq<char>) -> Seq<char> {
        join(self.cache_root_text(), "voice_"@ + md5_hex(voice_profile))
    }

    /// The file of the narration of `text` by a voice profile.
    pub open spec fn voice_cache_text(
        &self,
        voice_profile: Seq<char>,
        text: Seq<char>,
    ) -> Seq<char> {
        join(self.voice_cache_dir_text(voice_profile), md5_hex(text) + ".bin"@)
    }

    /// The working directory of the document.
    pub open spec fn project_root_text(&self) -> Seq<char> {
        join(self.cache_root_text(), "work_"@ + md5_hex(self.md_path_text()))
    }

    /// Sets up a run on the document at `md_path`, a path in canonical form,
    /// with the video profile `profile` of `config`. The settings must name
    /// nothing twice and hold the profile, and the profile must have a frame
    /// rate that can be worked with.
    pub fn try_init(
        config: Config,
        md_path: &str,
        profile: &str,
    ) -> (r: Result<Self, EnvironmentError>)
        ensures
            match r {
                Ok(env) => {
                    &&& env.config() == config
                    &&& env.md_path_text() == md_path@
                    &&& env.profile_name() == profile@
                    &&& has_distinct_names(config)
                    &&& has_named(config.profile@, profile@)
                    &&& is_frame_rate(env.active_profile().frame_rate)
                },
                Err(EnvironmentError::DuplicateName) => !has_distinct_names(config),
                Err(EnvironmentError::ProfileNotConfigured) => {
                    &&& has_distinct_names(config)
                    &&& !has_named(config.profile@, profile@)
                },
                Err(EnvironmentError::FrameRate) => {
                    &&& has_distinct_names(config)
                    &&& has_named(config.profile@, profile@)
                    &&& !is_frame_rate(
                        config.profile@[index_named(config.profile@, profile@)].1.frame_rate,
                    )
                },
            },
    {
        if !names_are_distinct(&config) {
            return Err(EnvironmentError::DuplicateName);
        }
        let at = find_named(&config.profile, profile);
        if at >= config.profile.len() {
            return Err(EnvironmentError::ProfileNotConfigured);
        }
        let frame_rate = config.profile[at].1.frame_rate;
        if frame_rate < 1 || frame_rate > MICROS_PER_SECOND {
            return Err(EnvironmentError::FrameRate);
        }
        Ok(
            Environment {
                config,
                abs_md_path: String::from_str(md_path),
                profile: String::from_str(profile),
            },
        )
    }

    fn profile_entry(&self) -> (r: &Profile)
        ensures
            *r == self.active_profile(),
    {
        proof {
            use_type_invariant(self);
        }
        let at = find_named(&self.config.profile, self.profile.as_str());
        &self.config.profile[at].1
    }

    fn voice_entry(&self, voice_profile: &str) -> (r: &Tts)
        requires
            self.has_voice(voice_profile@),
        ensures
            *r == self.voice(voice_profile@),
    {
        let at = find_named(&self.config.tts, voice_profile);
        &self.config.tts[at].1
    }

    /// The width of the video, in pixels.
    pub fn video_width(&self) -> (r: usize)
        ensures
            r == self.active_profile().width,
    {
        self.profile_entry().width
    }

    /// The height of the video, in pixels.
    pub fn video_height(&self) -> (r: usize)
        ensures
            r == self.active_profile().height,
    {
        self.profile_entry().height
    }

    /// The frame rate of the video, in frames a second: at least one, and
    /// no more than a million.
    pub fn video_frame_rate(&self) -> (r: u32)
        ensures
            r == self.active_profile().frame_rate,
            is_frame_rate(r),
    {
        proof {
            use_type_invariant(self);
        }
        self.profile_entry().frame_rate
    }

    /// How long one frame of the video is shown, in whole microseconds: at
    /// least one.
    pub fn frame_period(&self) -> (r: u64)
        ensures
            r == frame_period(self.active_profile().frame_rate),
            r >= 1,
    {
        let frame_rate = self.video_frame_rate();
        assert(1_000_000int / frame_rate as int >= 1) by (nonlinear_arith)
            requires
                1 <= frame_rate <= 1_000_000,
        ;
        (MICROS_PER_SECOND / frame_rate) as u64
    }

    /// The arguments for the slide renderer: those for every profile, then
    /// those of the chosen one.
    pub fn marp_additional_args(&self) -> (r: Vec<String>)
        ensures
            r.deep_view() == self.config().dep.marp.global_args.deep_view()
                + self.active_profile().marp_args.deep_view(),
    {
        let mut args: Vec<String> = Vec::new();
        push_strings(&mut args, &self.config.dep.marp.global_args);
        push_strings(&mut args, &self.profile_entry().marp_args);
        args
    }

    /// The arguments for the encoder: those for every profile, then those of
    /// the chosen one.
    pub fn ffmpeg_additional_args(&self) -> (r: Vec<String>)
        ensures
            r.deep_view() == self.config().dep.ffmpeg.global_args.deep_view()
                + self.active_profile().ffmpeg_args.deep_view(),
    {
        let mut args: Vec<String> = Vec::new();
        push_strings(&mut args, &self.config.dep.ffmpeg.global_args);
        push_strings(&mut args, &self.profile_entry().ffmpeg_args);
        args
    }

    /// The container of the video: the ending of the file that is written.
    pub fn video_container(&self) -> (r: &str)
        ensures
            r@ == self.active_profile().video_container@,
    {
        self.profile_entry().video_container.as_str()
    }

    /// The encoder.
    pub fn ffmpeg_bin(&self) -> (r: &str)
        ensures
            r@ == self.config().dep.ffmpeg.bin@,
    {
        self.config.dep.ffmpeg.bin.as_str()
    }

    /// The arguments that the settings add for the synthesiser of a voice
    /// profile.
    pub fn tts_additional_args(&self, voice_profile: &str) -> (r: &Vec<String>)
        requires
            self.has_voice(voice_profile@),
        ensures
            *r == self.voice(voice_profile@).args,
    {
        &self.voice_entry(voice_profile).args
    }

    /// The environment variables for the synthesiser of a voice profile.
    pub fn tts_envs(&self, voice_profile: &str) -> (r: &Vec<(String, String)>)
        requires
            self.has_voice(voice_profile@),
        ensures
            *r == self.voice(voice_profile@).envs,
    {
        &self.voice_entry(voice_profile).envs
    }

    /// Whether the settings hold a speech synthesiser for a voice profile.
    pub fn tts_is_profile_exists(&self, voice_profile: &str) -> (r: bool)
        ensures
            r == self.has_voice(voice_profile@),
    {
        find_named(&self.config.tts, voice_profile) < self.config.tts.len()
    }

    /// The speech synthesiser of a voice profile.
    pub fn tts_bin(&self, voice_profile: &str) -> (r: &str)
        requires
            self.has_voice(voice_profile@),
        ensures
            r@ == self.voice(voice_profile@).bin@,
    {
        self.voice_entry(voice_profile).bin.as_str()
    }

    /// The environment variables for the slide renderer.
    pub fn marp_envs(&self) -> (r: &Vec<(String, String)>)
        ensures
            *r == self.config().dep.marp.envs,
    {
        &self.config.dep.marp.envs
    }

    /// The slide renderer.
    pub fn marp_bin(&self) -> (r: &str)
        ensures
            r@ == self.config().dep.marp.bin@,
    {
        self.config.dep.marp.bin.as_str()
    }

    /// The measuring program.
    pub fn ffprobe_bin(&self) -> (r: &str)
        ensures
            r@ == self.config().dep.ffprobe.bin@,
    {
        self.config.dep.ffprobe.bin.as_str()
    }

    /// The path of the document.
    pub fn md_path(&self) -> (r: &str)
        ensures
            r@ == self.md_path_text(),
    {
        self.abs_md_path.as_str()
    }

    /// The directory of the document.
    pub fn md_dir(&self) -> (r: String)
        ensures
            r@ == self.md_dir_text(),
    {
        let path = chars_of(self.abs_md_path.as_str());
        string_of(&parent_of(&path))
    }

    /// The directory of the generated files: the one that the settings name,
    /// taken from the document's directory where it has no root.
    pub fn cache_root_dir(&self) -> (r: String)
        ensures
            r@ == self.cache_root_text(),
    {
        let path = chars_of(self.abs_md_path.as_str());
        let dir = chars_of(self.config.cache_dir.as_str());
        string_of(&joined(&parent_of(&path), &dir))
    }

    fn cache_entry(&self, head: &str, hashed: &str, tail: &str) -> (r: Vec<char>)
        ensures
            r@ == head@ + md5_hex(hashed@) + tail@,
    {
        let mut name: Vec<char> = Vec::new();
        push_str(&mut name, head);
        let digest = md5_text(hashed);
        push_str(&mut name, digest.as_str());
        push_str(&mut name, tail);
        name
    }

    /// The directory of the narrations of a voice profile.
    pub fn voice_cache_dir(&self, voice_profile: &str) -> (r: String)
        ensures
            r@ == self.voice_cache_dir_text(voice_profile@),
    {
        let root = chars_of(self.cache_root_dir().as_str());
        let name = self.cache_entry("voice_", voice_profile, "");
        proof {
            reveal_strlit("");
        }
        string_of(&joined(&root, &name))
    }

    /// The file of the narration of `text` by a voice profile.
    pub fn voice_cache(&self, voice_profile: &str, text: &str) -> (r: String)
        ensures
            r@ == self.voice_cache_text(voice_profile@, text@),
    {
        let dir = chars_of(self.voice_cache_dir(voice_profile).as_str());
        let name = self.cache_entry("", text, ".bin");
        proof {
            reveal_strlit("");
        }
        string_of(&joined(&dir, &name))
    }

    /// The working directory of the document.
    pub fn project_root_dir(&self) -> (r: String)
        ensures
            r@ == self.project_root_text(),
    {
        let root = chars_of(self.cache_root_dir().as_str());
        let name = self.cache_entry("work_", self.abs_md_path.as_str(), "");
        proof {
            reveal_strlit("");
        }
        string_of(&joined(&root, &name))
    }
}

} // verus!
