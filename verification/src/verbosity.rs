use vstd::prelude::*;

verus! {

/// Controls the level of output produced by ogre commands.
#[derive(Debug, Clone, Copy, PartialEq, Eq, Structural)]
pub enum Verbosity {
    /// Suppress non-essential output (only errors and requested data).
    Quiet,
    /// Default output level.
    Normal,
    /// Extra detail (instruction counts, timing, per-file info).
    Verbose,
}

impl Verbosity {
    pub fn is_quiet(self) -> (r: bool)
        ensures
            r == (self == Verbosity::Quiet),
    {
        self == Verbosity::Quiet
    }

    pub fn is_verbose(self) -> (r: bool)
        ensures
            r == (self == Verbosity::Verbose),
    {
        self == Verbosity::Verbose
    }
}

} // verus!
