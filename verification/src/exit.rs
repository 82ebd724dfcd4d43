//! The exit codes of the console, stable for scripting.

use vstd::prelude::*;

verus! {

/// Why the process ends.
#[derive(Clone, Copy, Debug, PartialEq, Eq, Structural)]
pub enum ExitCode {
    Success,
    GeneralError,
    CommandError,
    ConnectionError,
    UserInputError,
    QueryError,
}

/// The kinds of error that can end a batch.
#[derive(Clone, Copy, Debug, PartialEq, Eq, Structural)]
pub enum ErrorKind {
    /// A structural error of the command tree: bad input of the user.
    Repl,
    /// A file could not be opened or read.
    Io,
    /// The server or the driver reported an error.
    Driver,
    /// A command was not recognised or failed while it ran.
    Command,
    /// Anything else.
    Other,
}

/// The number of an exit code.
pub open spec fn code_of(exit: ExitCode) -> int {
    match exit {
        ExitCode::Success => 0,
        ExitCode::GeneralError => 1,
        ExitCode::CommandError => 2,
        ExitCode::ConnectionError => 3,
        ExitCode::UserInputError => 4,
        ExitCode::QueryError => 5,
    }
}

/// The exit code for an error of the given kind.
pub open spec fn exit_of(kind: ErrorKind) -> ExitCode {
    match kind {
        ErrorKind::Repl => ExitCode::UserInputError,
        ErrorKind::Io => ExitCode::GeneralError,
        ErrorKind::Driver => ExitCode::QueryError,
        ErrorKind::Command => ExitCode::CommandError,
        ErrorKind::Other => ExitCode::GeneralError,
    }
}

/// The label that precedes the message of an error of the given kind.
pub open spec fn label_of(kind: ErrorKind) -> Seq<char> {
    match kind {
        ErrorKind::Repl => "Error: "@,
        ErrorKind::Io => "I/O Error: "@,
        ErrorKind::Driver => "TypeDB Error: "@,
        ErrorKind::Command => "Command Error: "@,
        ErrorKind::Other => "Error: "@,
    }
}

impl ExitCode {
    /// The number with which the process exits.
    pub fn code(self) -> (r: i32)
        ensures
            r == code_of(self),
    {
        match self {
            ExitCode::Success => 0,
            ExitCode::GeneralError => 1,
            ExitCode::CommandError => 2,
            ExitCode::ConnectionError => 3,
            ExitCode::UserInputError => 4,
            ExitCode::QueryError => 5,
        }
    }
}

impl ErrorKind {
    /// The exit code for an error of this kind.
    pub fn exit_code(self) -> (r: ExitCode)
        ensures
            r == exit_of(self),
    {
        match self {
            ErrorKind::Repl => ExitCode::UserInputError,
            ErrorKind::Io => ExitCode::GeneralError,
            ErrorKind::Driver => ExitCode::QueryError,
            ErrorKind::Command => ExitCode::CommandError,
            ErrorKind::Other => ExitCode::GeneralError,
        }
    }

    /// The label that precedes the message of an error of this kind.
    pub fn label(self) -> (r: &'static str)
        ensures
            r@ == label_of(self),
    {
        match self {
            ErrorKind::Repl => "Error: ",
            ErrorKind::Io => "I/O Error: ",
            ErrorKind::Driver => "TypeDB Error: ",
            ErrorKind::Command => "Command Error: ",
            ErrorKind::Other => "Error: ",
        }
    }
}

/// The codes tell the reasons apart: no two reasons share a number.
pub proof fn lemma_exit_codes_are_distinct(a: ExitCode, b: ExitCode)
    ensures
        code_of(a) == code_of(b) ==> a == b,
        0 <= code_of(a) <= 5,
{
}

} // verus!
