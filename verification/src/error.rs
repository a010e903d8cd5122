//! The failures that the engine reports.

use vstd::prelude::*;
use vstd::string::*;

verus! {

/// A failure, with the identifier, path or detail that it concerns.
#[derive(Debug, PartialEq, Eq)]
pub enum Error {
    /// The underlying store failed.
    Database(String),
    /// An operation on the filesystem failed.
    Io(String),
    /// A stored or exchanged value could not be encoded or decoded.
    Serialization(String),
    ChangeNotFound(String),
    CommitNotFound(String),
    SessionNotFound(String),
    InvalidPath(String),
    RollbackFailed(String),
    DiffFailed(String),
    NoActiveSession,
    /// Carries the root path of the session that is already active.
    SessionAlreadyActive(String),
    InvalidOperation(String),
}

/// What an [`Error`] is in contracts: the same variants over character sequences.
pub enum ErrorView {
    Database(Seq<char>),
    Io(Seq<char>),
    Serialization(Seq<char>),
    ChangeNotFound(Seq<char>),
    CommitNotFound(Seq<char>),
    SessionNotFound(Seq<char>),
    InvalidPath(Seq<char>),
    RollbackFailed(Seq<char>),
    DiffFailed(Seq<char>),
    NoActiveSession,
    SessionAlreadyActive(Seq<char>),
    InvalidOperation(Seq<char>),
}

impl View for Error {
    type V = ErrorView;

    open spec fn view(&self) -> ErrorView {
        match self {
            Error::Database(detail) => ErrorView::Database(detail@),
            Error::Io(detail) => ErrorView::Io(detail@),
            Error::Serialization(detail) => ErrorView::Serialization(detail@),
            Error::ChangeNotFound(id) => ErrorView::ChangeNotFound(id@),
            Error::CommitNotFound(id) => ErrorView::CommitNotFound(id@),
            Error::SessionNotFound(id) => ErrorView::SessionNotFound(id@),
            Error::InvalidPath(path) => ErrorView::InvalidPath(path@),
            Error::RollbackFailed(detail) => ErrorView::RollbackFailed(detail@),
            Error::DiffFailed(detail) => ErrorView::DiffFailed(detail@),
            Error::NoActiveSession => ErrorView::NoActiveSession,
            Error::SessionAlreadyActive(root) => ErrorView::SessionAlreadyActive(root@),
            Error::InvalidOperation(detail) => ErrorView::InvalidOperation(detail@),
        }
    }
}

impl ErrorView {
    /// The message shown to a user: a fixed label, then the detail.
    pub open spec fn message(self) -> Seq<char> {
        match self {
            ErrorView::Database(detail) => "Database error: "@ + detail,
            ErrorView::Io(detail) => "IO error: "@ + detail,
            ErrorView::Serialization(detail) => "Serialization error: "@ + detail,
            ErrorView::ChangeNotFound(id) => "Change not found: "@ + id,
            ErrorView::CommitNotFound(id) => "Commit not found: "@ + id,
            ErrorView::SessionNotFound(id) => "Session not found: "@ + id,
            ErrorView::InvalidPath(path) => "Invalid path: "@ + path,
            ErrorView::RollbackFailed(detail) => "Rollback failed: "@ + detail,
            ErrorView::DiffFailed(detail) => "Diff generation failed: "@ + detail,
            ErrorView::NoActiveSession => "No active session"@,
            ErrorView::SessionAlreadyActive(root) => "Session already active at: "@ + root,
            ErrorView::InvalidOperation(detail) => "Invalid operation: "@ + detail,
        }
    }
}

impl Clone for Error {
    fn clone(&self) -> (copy: Error)
        ensures
            copy@ == self@,
    {
        match self {
            Error::Database(detail) => Error::Database(detail.clone()),
            Error::Io(detail) => Error::Io(detail.clone()),
            Error::Serialization(detail) => Error::Serialization(detail.clone()),
            Error::ChangeNotFound(id) => Error::ChangeNotFound(id.clone()),
            Error::CommitNotFound(id) => Error::CommitNotFound(id.clone()),
            Error::SessionNotFound(id) => Error::SessionNotFound(id.clone()),
            Error::InvalidPath(path) => Error::InvalidPath(path.clone()),
            Error::RollbackFailed(detail) => Error::RollbackFailed(detail.clone()),
            Error::DiffFailed(detail) => Error::DiffFailed(detail.clone()),
            Error::NoActiveSession => Error::NoActiveSession,
            Error::SessionAlreadyActive(root) => Error::SessionAlreadyActive(root.clone()),
            Error::InvalidOperation(detail) => Error::InvalidOperation(detail.clone()),
        }
    }
}

fn labelled(label: &str, detail: &String) -> (text: String)
    ensures
        text@ == label@ + detail@,
{
    String::from_str(label).concat(detail.as_str())
}

impl Error {
    /// The message shown to a user.
    pub fn message(&self) -> (text: String)
        ensures
            text@ == self@.message(),
    {
        match self {
            Error::Database(detail) => labelled("Database error: ", detail),
            Error::Io(detail) => labelled("IO error: ", detail),
            Error::Serialization(detail) => labelled("Serialization error: ", detail),
            Error::ChangeNotFound(id) => labelled("Change not found: ", id),
            Error::CommitNotFound(id) => labelled("Commit not found: ", id),
            Error::SessionNotFound(id) => labelled("Session not found: ", id),
            Error::InvalidPath(path) => labelled("Invalid path: ", path),
            Error::RollbackFailed(detail) => labelled("Rollback failed: ", detail),
            Error::DiffFailed(detail) => labelled("Diff generation failed: ", detail),
            Error::NoActiveSession => String::from_str("No active session"),
            Error::SessionAlreadyActive(root) => labelled("Session already active at: ", root),
            Error::InvalidOperation(detail) => labelled("Invalid operation: ", detail),
        }
    }
}

} // verus!
