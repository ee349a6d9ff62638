//! Writing a line to a stream whose reader may be gone, and the filter on
//! what a child wrote to its capture pipe.

use vstd::prelude::*;
use crate::text::{contains_seq, str_contains};

verus! {

/// Why a line could not be written.
#[derive(Clone, Copy, PartialEq, Eq, Debug, Structural)]
pub enum WriteError {
    /// The reader of the stream is gone.
    BrokenPipe,
    /// Anything else.
    Other,
}

/// Calls `writeln!` on the stream, which writes the text and a line feed.
/// Nothing is claimed of the outcome, which is the stream's. An error of the
/// kind `ErrorKind::BrokenPipe` comes back as `WriteError::BrokenPipe`, every
/// other error as `WriteError::Other`.
#[verifier::external_body]
fn write_line<W: std::io::Write>(w: &mut W, s: &str) -> (r: Result<(), WriteError>) {
    match writeln!(w, "{}", s) {
        Ok(()) => Ok(()),
        Err(e) => match e.kind() {
            std::io::ErrorKind::BrokenPipe => Err(WriteError::BrokenPipe),
            _ => Err(WriteError::Other),
        },
    }
}

/// The outcome of a write for a writer who does not mind a reader that is
/// gone: a broken pipe counts as success, every other outcome stands.
pub fn ignore_broken_pipe(outcome: Result<(), WriteError>) -> (r: Result<(), WriteError>)
    ensures
        r == (if outcome == Err::<(), WriteError>(WriteError::BrokenPipe) {
            Ok::<(), WriteError>(())
        } else {
            outcome
        }),
{
    match outcome {
        Err(WriteError::BrokenPipe) => Ok(()),
        other => other,
    }
}

/// Writes the text and a line feed to the stream. That the reader is gone is
/// no error; whatever else goes wrong is reported.
pub fn writeln_ignore_broken_pipe<W: std::io::Write>(w: W, s: &str) -> (r: Result<(), WriteError>)
    ensures
        r != Err::<(), WriteError>(WriteError::BrokenPipe),
{
    let mut w = w;
    ignore_broken_pipe(write_line(&mut w, s))
}

/// The message by which a child tells that its reader was gone.
pub open spec fn broken_pipe_mark() -> Seq<char> {
    "write error: Broken pipe"@
}

/// Whether the shell passes a line of a child's messages on: every line but
/// those that tell of a broken pipe.
pub fn should_relay(line: &str) -> (relay: bool)
    ensures
        relay == !contains_seq(line@, broken_pipe_mark()),
{
    !str_contains(line, "write error: Broken pipe")
}

} // verus!
