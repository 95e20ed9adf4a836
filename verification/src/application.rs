//! The programs that a run calls: what each is called with, and what its way
//! of ending means.

use vstd::prelude::*;

pub mod ffmpeg;
pub mod ffprobe;
pub mod marp;
pub mod tts;

verus! {

/// How a call of a program went wrong.
#[derive(Debug, Clone, Copy, PartialEq, Eq, Structural)]
pub enum RunError {
    /// The program ended with this exit code, which is not zero.
    ExitCode(i32),
    /// The program was ended by a signal.
    Signal,
    /// The program ended well and left no file where one was due.
    OutputMissing,
}

/// What the end of a program means: `success` says whether it ended well and
/// `code` holds its exit code, if it has one.
pub fn check_exit(success: bool, code: Option<i32>) -> (r: Result<(), RunError>)
    ensures
        r == (if success {
            Ok::<(), RunError>(())
        } else {
            match code {
                Some(code) => Err::<(), RunError>(RunError::ExitCode(code)),
                None => Err::<(), RunError>(RunError::Signal),
            }
        }),
{
    if success {
        Ok(())
    } else {
        match code {
            Some(code) => Err(RunError::ExitCode(code)),
            None => Err(RunError::Signal),
        }
    }
}

/// What the end of a program that writes a file means: as `check_exit` says,
/// and a program that ended well must have left its file.
pub fn check_output(
    success: bool,
    code: Option<i32>,
    output_exists: bool,
) -> (r: Result<(), RunError>)
    ensures
        r == (if !success {
            match code {
                Some(code) => Err::<(), RunError>(RunError::ExitCode(code)),
                None => Err::<(), RunError>(RunError::Signal),
            }
        } else if !output_exists {
            Err::<(), RunError>(RunError::OutputMissing)
        } else {
            Ok::<(), RunError>(())
        }),
{
    match check_exit(success, code) {
        Err(fault) => Err(fault),
        Ok(()) => if output_exists {
            Ok(())
        } else {
            Err(RunError::OutputMissing)
        },
    }
}

} // verus!
