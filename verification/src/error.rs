//! How failures are classified.

use vstd::prelude::*;
use vstd::string::StringExecFns;

verus! {

/// The kinds of failure an operation can report.
#[derive(Clone, Copy, Debug, PartialEq, Eq, Structural)]
pub enum ErrorKind {
    /// A parameter is missing or malformed, or a session id is out of range.
    InvalidArgument,
    /// The session id names a slot that holds no live session.
    NotConnected,
    /// The connection to the server was lost or an I/O error occurred.
    Transport,
    /// The server rejected a command.
    Protocol,
    /// A cache operation failed.
    Storage,
    /// The body parser could not recover a part.
    Parse,
    /// A requested message or mailbox is not in the cache.
    NotFound,
}

/// A classified failure with a message for the caller.
#[derive(Clone, Debug, PartialEq, Eq)]
pub struct ApiError {
    pub kind: ErrorKind,
    pub message: String,
}

/// What an error says: its kind and the text of its message.
pub struct ApiErrorView {
    pub kind: ErrorKind,
    pub message: Seq<char>,
}

impl View for ApiError {
    type V = ApiErrorView;

    open spec fn view(&self) -> ApiErrorView {
        ApiErrorView { kind: self.kind, message: self.message@ }
    }
}

impl ApiError {
    /// An error of the given kind with the given message.
    pub fn new(kind: ErrorKind, message: &str) -> (res: ApiError)
        ensures
            res@ == (ApiErrorView { kind, message: message@ }),
    {
        ApiError { kind, message: String::from_str(message) }
    }

    /// The message of the error.
    pub fn to_string(&self) -> (res: String)
        ensures
            res@ == self@.message,
    {
        self.message.clone()
    }
}

} // verus!
