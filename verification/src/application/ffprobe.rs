//! The program that measures a sound file: what it is called with, and what
//! its answer says.

use vstd::prelude::*;
use crate::decimal::{
    lemma_digits_value, lemma_fixed_round_trip, lemma_fraction_value, lemma_pow10_positive,
    parse_fixed, pow10, read_fixed,
};
use crate::planner::{seconds_text, SECOND_DECIMALS};
use crate::text::{chars_of, push_text, trim, trimmed};

verus! {

/// What the measuring program is called with for the file at `file_path`: to
/// print nothing but the length of the first sound stream.
pub open spec fn probe_args(file_path: Seq<char>) -> Seq<Seq<char>> {
    seq![
        "-hide_banner"@,
        "-v"@,
        "error"@,
        "-select_streams"@,
        "a:0"@,
        "-show_entries"@,
        "stream=duration"@,
        "-of"@,
        "default=noprint_wrappers=1:nokey=1"@,
        file_path,
    ]
}

/// What the measuring program is called with for the file at `file_path`.
pub fn measure_args(file_path: &str) -> (r: Vec<String>)
    ensures
        r.deep_view() == probe_args(file_path@),
{
    let mut args: Vec<String> = Vec::new();
    push_text(&mut args, "-hide_banner");
    push_text(&mut args, "-v");
    push_text(&mut args, "error");
    push_text(&mut args, "-select_streams");
    push_text(&mut args, "a:0");
    push_text(&mut args, "-show_entries");
    push_text(&mut args, "stream=duration");
    push_text(&mut args, "-of");
    push_text(&mut args, "default=noprint_wrappers=1:nokey=1");
    push_text(&mut args, file_path);
    args
}

/// The length, in microseconds, that the answer of the measuring program
/// states: the answer without the white space around it is a number of
/// seconds with up to six decimals.
pub open spec fn stated_duration(stdout: Seq<char>) -> Option<u64> {
    parse_fixed(trim(stdout), SECOND_DECIMALS as nat)
}

/// The length, in microseconds, that the answer of the measuring program
/// states, or `None` where it states none.
pub fn parse_duration(stdout: &str) -> (r: Option<u64>)
    ensures
        r == stated_duration(stdout@),
{
    read_fixed(&trimmed(&chars_of(stdout)), SECOND_DECIMALS)
}

/// A length that is written in seconds as the filter graph reads it states
/// that length: what is measured and what is rendered agree to the
/// microsecond.
pub proof fn lemma_duration_round_trip(micros: u64)
    ensures
        stated_duration(seconds_text(micros as nat)) == Some(micros),
{
    let width = SECOND_DECIMALS as nat;
    let unit = pow10(width);
    lemma_pow10_positive(width);
    lemma_digits_value(micros as nat / unit);
    lemma_fraction_value(micros as nat % unit, width);
    lemma_fixed_round_trip(micros as nat, width);
}

} // verus!
