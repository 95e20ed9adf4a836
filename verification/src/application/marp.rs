//! The slide renderer: what it is called with.

use vstd::prelude::*;
use crate::environment::Environment;
use crate::text::{push_strings, push_text};

verus! {

/// What the slide renderer is called with: pictures as PNG under the name
/// `marp_doc`, the arguments that the settings add, and the document.
pub open spec fn renderer_args(additional: Seq<Seq<char>>, md_path: Seq<char>) -> Seq<Seq<char>> {
    seq!["--images"@, "png"@, "--output"@, "marp_doc"@] + additional + seq![md_path]
}

/// What the slide renderer is called with for this run.
pub fn marp_args(env: &Environment) -> (r: Vec<String>)
    ensures
        r.deep_view() == renderer_args(
            env.config().dep.marp.global_args.deep_view()
                + env.active_profile().marp_args.deep_view(),
            env.md_path_text(),
        ),
{
    let mut args: Vec<String> = Vec::new();
    push_text(&mut args, "--images");
    push_text(&mut args, "png");
    push_text(&mut args, "--output");
    push_text(&mut args, "marp_doc");
    let additional_args = env.marp_additional_args();
    push_strings(&mut args, &additional_args);
    push_text(&mut args, env.md_path());
    args
}

} // verus!
