//! How failures of the server connection are classified, and when an
//! operation is driven once more.
//!
//! An operation is tried, and after a transport failure the session is
//! dialled again and the operation is driven once more from its beginning.
//! A second failure of any kind is final.

use crate::error::ErrorKind;
use vstd::prelude::*;

verus! {

/// The ways in which a command to the server can fail.
#[derive(Clone, Copy, Debug, PartialEq, Eq, Structural)]
pub enum ImapFailure {
    /// The connection was closed.
    ConnectionLost,
    /// Reading from or writing to the connection failed.
    Io,
    /// The server answered `NO`.
    No,
    /// The server answered `BAD`.
    Bad,
    /// The answer could not be read.
    Parse,
    /// The command held what no command may hold.
    Validate,
    /// Anything else.
    Other,
}

/// Whether a failure is one of the transport.
pub open spec fn is_transport(failure: ImapFailure) -> bool {
    failure == ImapFailure::ConnectionLost || failure == ImapFailure::Io
}

/// The kind of error that a failure is reported as.
pub open spec fn failure_kind(failure: ImapFailure) -> ErrorKind {
    if is_transport(failure) {
        ErrorKind::Transport
    } else {
        ErrorKind::Protocol
    }
}

/// Classifies a failure: a lost connection and an I/O error are transport
/// errors, everything else is a protocol error.
pub fn classify(failure: ImapFailure) -> (res: ErrorKind)
    ensures
        res == failure_kind(failure),
{
    match failure {
        ImapFailure::ConnectionLost => ErrorKind::Transport,
        ImapFailure::Io => ErrorKind::Transport,
        _ => ErrorKind::Protocol,
    }
}

/// What to do about a failure.
#[derive(Clone, Copy, Debug, PartialEq, Eq, Structural)]
pub enum Recovery {
    /// Dial again and drive the operation once more from its beginning.
    Reconnect,
    /// Report the failure.
    Surface,
}

/// What to do about a failure: reconnect after the first transport failure
/// of an operation, report everything else.
pub open spec fn recovery(failure: ImapFailure, retried: bool) -> Recovery {
    if is_transport(failure) && !retried {
        Recovery::Reconnect
    } else {
        Recovery::Surface
    }
}

/// Decides what to do about a failure of a command, given whether the
/// operation was driven once more already.
pub fn handle_disconnect(failure: ImapFailure, retried: bool) -> (res: Recovery)
    ensures
        res == recovery(failure, retried),
{
    match failure {
        ImapFailure::ConnectionLost | ImapFailure::Io => {
            if retried {
                Recovery::Surface
            } else {
                Recovery::Reconnect
            }
        },
        _ => Recovery::Surface,
    }
}

/// The attempts of one operation.
#[derive(Clone, Copy, Debug, PartialEq, Eq, Structural)]
pub struct Attempt {
    pub retried: bool,
}

impl Attempt {
    /// The first attempt of an operation.
    pub fn first() -> (res: Attempt)
        ensures
            !res.retried,
    {
        Attempt { retried: false }
    }

    /// Takes note of a failure and says what to do about it. Once it has
    /// said `Reconnect` it says `Surface` to every further failure.
    pub fn failed(&mut self, failure: ImapFailure) -> (res: Recovery)
        ensures
            res == recovery(failure, old(self).retried),
            final(self).retried == (old(self).retried || res == Recovery::Reconnect),
            res == Recovery::Reconnect ==> forall|next: ImapFailure|
                recovery(next, final(self).retried) == Recovery::Surface,
    {
        let res = handle_disconnect(failure, self.retried);
        if res == Recovery::Reconnect {
            self.retried = true;
        }
        res
    }
}

} // verus!
