//! The error taxonomy shared by every fallible operation of the library.

use vstd::prelude::*;

verus! {

/// Why an operation was refused.
#[derive(Debug, PartialEq, Eq)]
pub enum Error {
    /// A slot that is already occupied was written again.
    AlreadyExists(String),
    /// A value object was given a malformed input.
    InvalidArgument(String),
    /// The operation does not fit the current state.
    FailedPrecondition(String),
    /// The thing asked for does not exist.
    NotFound(String),
    /// An internal invariant was violated.
    Unexpected(String),
}

/// The kind of an [`Error`], without its description.
#[derive(Debug, Clone, Copy, PartialEq, Eq, Structural)]
pub enum ErrorKind {
    AlreadyExists,
    InvalidArgument,
    FailedPrecondition,
    NotFound,
    Unexpected,
}

impl Error {
    /// The description carried by the error.
    pub open spec fn description(self) -> Seq<char> {
        match self {
            Error::AlreadyExists(d) => d@,
            Error::InvalidArgument(d) => d@,
            Error::FailedPrecondition(d) => d@,
            Error::NotFound(d) => d@,
            Error::Unexpected(d) => d@,
        }
    }

    /// The kind of the error.
    pub open spec fn kind_of(self) -> ErrorKind {
        match self {
            Error::AlreadyExists(_) => ErrorKind::AlreadyExists,
            Error::InvalidArgument(_) => ErrorKind::InvalidArgument,
            Error::FailedPrecondition(_) => ErrorKind::FailedPrecondition,
            Error::NotFound(_) => ErrorKind::NotFound,
            Error::Unexpected(_) => ErrorKind::Unexpected,
        }
    }

    /// The words that introduce the description of an error of each kind.
    pub open spec fn heading(kind: ErrorKind) -> Seq<char> {
        match kind {
            ErrorKind::AlreadyExists => "Already exists: "@,
            ErrorKind::InvalidArgument => "Invalid argument: "@,
            ErrorKind::FailedPrecondition => "Failed precondition: "@,
            ErrorKind::NotFound => "Not found: "@,
            ErrorKind::Unexpected => "Unexpected: "@,
        }
    }

    /// Whether the error is of the given kind and carries the given description.
    pub open spec fn says(self, kind: ErrorKind, description: Seq<char>) -> bool {
        self.kind_of() == kind && self.description() == description
    }

    pub fn failed_precondition(description: &str) -> (error: Error)
        ensures
            error.says(ErrorKind::FailedPrecondition, description@),
    {
        Error::FailedPrecondition(description.to_owned())
    }

    pub fn invalid_argument(description: &str) -> (error: Error)
        ensures
            error.says(ErrorKind::InvalidArgument, description@),
    {
        Error::InvalidArgument(description.to_owned())
    }

    pub fn unexpected(description: &str) -> (error: Error)
        ensures
            error.says(ErrorKind::Unexpected, description@),
    {
        Error::Unexpected(description.to_owned())
    }

    /// The kind of the error.
    pub fn kind(&self) -> (kind: ErrorKind)
        ensures
            kind == self.kind_of(),
    {
        match self {
            Error::AlreadyExists(_) => ErrorKind::AlreadyExists,
            Error::InvalidArgument(_) => ErrorKind::InvalidArgument,
            Error::FailedPrecondition(_) => ErrorKind::FailedPrecondition,
            Error::NotFound(_) => ErrorKind::NotFound,
            Error::Unexpected(_) => ErrorKind::Unexpected,
        }
    }

    /// The text of the error: the heading of its kind, then its description.
    pub fn to_string(&self) -> (text: String)
        ensures
            text@ == Error::heading(self.kind_of()) + self.description(),
    {
        match self {
            Error::AlreadyExists(d) => "Already exists: ".to_owned().concat(d.as_str()),
            Error::InvalidArgument(d) => "Invalid argument: ".to_owned().concat(d.as_str()),
            Error::FailedPrecondition(d) => "Failed precondition: ".to_owned().concat(d.as_str()),
            Error::NotFound(d) => "Not found: ".to_owned().concat(d.as_str()),
            Error::Unexpected(d) => "Unexpected: ".to_owned().concat(d.as_str()),
        }
    }
}

} // verus!
