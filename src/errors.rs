use vstd::prelude::*;

verus! {

/// Kinds of failure that the solver reports.
#[derive(Debug, Clone, Copy, PartialEq, Eq, Structural)]
pub enum Runner {
    /// An internal invariant was violated.
    RunnerError,
    /// The user supplied an invalid argument.
    ArgError,
    /// A file, pipe or counter descriptor failed.
    IoError,
    /// A signal, ptrace or wait primitive failed.
    NixError,
    /// The child's memory map or executable path could not be read.
    ProcfsError,
    /// A candidate ran past its wall-clock budget.
    Timeout,
    /// A phase was requested with nothing to work on.
    NoneError,
    /// Every candidate of a round failed.
    NoResults,
    /// Anything else.
    Unknown,
}

/// An error of the solver: its kind and a message for the user.
#[derive(Debug, Clone)]
pub struct SolverError {
    runner: Runner,
    message: String,
}

pub type SolverResult<T> = Result<T, SolverError>;

impl SolverError {
    pub closed spec fn spec_kind(&self) -> Runner {
        self.runner
    }

    pub closed spec fn spec_message(&self) -> Seq<char> {
        self.message@
    }

    pub fn new(runner: Runner, message: &str) -> (r: SolverError)
        ensures
            r.spec_kind() == runner,
            r.spec_message() == message@,
    {
        SolverError { runner, message: message.to_owned() }
    }

    /// The kind of this error.
    pub fn kind(&self) -> (r: Runner)
        ensures
            r == self.spec_kind(),
    {
        self.runner
    }

    /// The message of this error.
    pub fn message(&self) -> (r: &str)
        ensures
            r@ == self.spec_message(),
    {
        self.message.as_str()
    }
}

} // verus!
