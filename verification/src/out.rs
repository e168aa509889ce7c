//! How much of the diagnostic channel a caller asked for.
//!
//! It moves stderr only; stdout carries the same bytes at either volume, and
//! errors ignore it: a failure stays visible even under `--quiet`.

use vstd::prelude::*;

verus! {

/// How much of the diagnostic channel a caller asked for. Two volumes rather
/// than three, because there are two: a run that was not asked to be loud
/// says nothing on stderr, so there is nothing `--quiet` could take away.
#[derive(Debug, Clone, Copy, PartialEq, Eq, Structural)]
pub enum Verbosity {
    /// Nothing on stderr but errors: the default, and what `--quiet` asks
    /// for.
    Quiet,
    /// `--verbose`: traces of what the command is doing.
    Verbose,
}

impl Verbosity {
    /// The volume `--verbose` asks for. It is the only flag that moves this:
    /// `--quiet` asks for the default.
    pub fn asked_for(verbose: bool) -> (volume: Self)
        ensures
            volume == (if verbose { Verbosity::Verbose } else { Verbosity::Quiet }),
    {
        if verbose {
            Verbosity::Verbose
        } else {
            Verbosity::Quiet
        }
    }
}

} // verus!
