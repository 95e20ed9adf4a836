//! The speech synthesiser: where a narration is kept, and what the
//! synthesiser is called with to speak it.

use vstd::prelude::*;
use crate::environment::Environment;
use crate::text::{push_strings, push_text};

verus! {

/// A call of a speech synthesiser.
#[derive(Debug, Clone)]
pub struct TtsCommand {
    /// The program.
    pub bin: String,
    /// Its arguments.
    pub args: Vec<String>,
    /// The file that it is to write.
    pub out_path: String,
}

/// What a speech synthesiser is called with: the text, the file to write,
/// and the arguments that the settings add.
pub open spec fn synthesiser_args(
    text: Seq<char>,
    out_path: Seq<char>,
    additional: Seq<Seq<char>>,
) -> Seq<Seq<char>> {
    seq![text, out_path] + additional
}

/// The call that speaks `text` with the voice `voice_profile`, or `None`
/// where the settings hold no such voice. The narration is kept in the file
/// `out_path`: where that file exists already, nothing has to be called.
pub fn tts_command(env: &Environment, voice_profile: &str, text: &str) -> (r: Option<TtsCommand>)
    ensures
        match r {
            Some(command) => {
                &&& env.has_voice(voice_profile@)
                &&& command.bin@ == env.voice(voice_profile@).bin@
                &&& command.out_path@ == env.voice_cache_text(voice_profile@, text@)
                &&& command.args.deep_view() == synthesiser_args(
                    text@,
                    env.voice_cache_text(voice_profile@, text@),
                    env.voice(voice_profile@).args.deep_view(),
                )
            },
            None => !env.has_voice(voice_profile@),
        },
{
    if !env.tts_is_profile_exists(voice_profile) {
        return None;
    }
    let out_path = env.voice_cache(voice_profile, text);
    let mut a: Vec<String> = Vec::new();
    push_text(&mut a, text);
    push_text(&mut a, out_path.as_str());
    push_strings(&mut a, env.tts_additional_args(voice_profile));
    Some(TtsCommand { bin: String::from_str(env.tts_bin(voice_profile)), args: a, out_path })
}

} // verus!
