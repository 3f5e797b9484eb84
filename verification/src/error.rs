//! Why a run failed.

use vstd::prelude::*;

verus! {

/// The kind of a failure.
#[derive(Clone, Copy, Debug, PartialEq, Eq, Structural)]
pub enum ErrorKind {
    PreconditionFailed,
    Unexpected,
    DataInvalid,
    NamespaceAlreadyExists,
    TableAlreadyExists,
    NamespaceNotFound,
    TableNotFound,
    FeatureUnsupported,
    CatalogCommitConflicts,
}

/// A failure.
#[derive(Debug, PartialEq, Eq)]
pub struct Error {
    pub kind: ErrorKind,
    pub message: String,
    /// Another attempt may succeed.
    pub retryable: bool,
}

/// What an [`Error`] stands for.
pub struct ErrorView {
    pub kind: ErrorKind,
    pub message: Seq<char>,
    pub retryable: bool,
}

impl View for Error {
    type V = ErrorView;

    open spec fn view(&self) -> ErrorView {
        ErrorView { kind: self.kind, message: self.message@, retryable: self.retryable }
    }
}

impl Error {
    /// A failure that another attempt will not mend.
    pub fn new(kind: ErrorKind, message: String) -> (r: Self)
        ensures
            r@ == (ErrorView { kind, message: message@, retryable: false }),
            r == (Error { kind, message, retryable: false }),
    {
        Error { kind, message, retryable: false }
    }

    /// Says whether another attempt may succeed.
    pub fn with_retryable(self, retryable: bool) -> (r: Self)
        ensures
            r@ == (ErrorView { retryable, ..self@ }),
            r == (Error { retryable, ..self }),
    {
        Error { kind: self.kind, message: self.message, retryable }
    }

    /// Whether another attempt may succeed.
    pub fn retryable(&self) -> (r: bool)
        ensures
            r == self@.retryable,
            r == self.retryable,
    {
        self.retryable
    }
}

} // verus!
