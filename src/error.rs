//! The ways in which one measured run can fail.

use vstd::prelude::*;

verus! {

/// Which string could not be handed to the operating system, or read back
/// from it.
#[derive(Clone, Copy, Debug, PartialEq, Eq)]
pub enum EncodingSite {
    /// The argument at this position of the command holds a NUL character.
    Argument(usize),
    /// The environment entry at this position holds a NUL character.
    Environment(usize),
    /// The captured output is not UTF-8.
    Output,
}

/// An error that ends a run. Malformed tag lines are not among them: they
/// are reported as warnings and the run goes on.
#[derive(Clone, Debug, PartialEq, Eq)]
pub enum ExecutionError {
    /// The command holds no program to run.
    EmptyCommand,
    /// A string is not representable as the platform's native string.
    InvalidEncoding(EncodingSite),
    /// The output pipe could not be set up; the operating system's code.
    PipeSetupFailed(i32),
    /// The operating system did not create the process; its code.
    SpawnFailed(i32),
    /// The process was created but could not be awaited; the code.
    WaitFailed(i32),
    /// The captured output could not be read; the code.
    ReadFailed(i32),
    /// A CPU time reported by the operating system is negative or too large.
    TimeOutOfRange,
    /// An event arrived that does not answer the pending step of a run.
    UnexpectedEvent,
    /// Two or more tag lines name the same keys; each key once.
    DuplicateTagKey(Vec<String>),
}

} // verus!
