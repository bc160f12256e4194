//! The failures of a connection, as values.

use vstd::prelude::*;

verus! {

/// Why a connection cannot go on. None of these can be cured: the host
/// closes the connection.
#[derive(Debug, Clone, Copy, PartialEq, Eq, Hash, Structural)]
pub enum NetworkError {
    /// The socket failed.
    IoError,
    /// The peer closed the connection: a read gave no bytes.
    ConnectionClosed,
    /// The operating system aborted the connection on this side.
    ConnectionAbortedLocally,
}

/// What the operating system says when it has aborted a connection on this
/// side.
pub open spec fn spec_local_abort_text() -> Seq<char> {
    "An established connection was aborted by the software in your host machine"@
}

/// Whether `pattern` occurs in `text`.
pub open spec fn spec_contains(text: Seq<char>, pattern: Seq<char>) -> bool {
    exists|i: int|
        0 <= i <= text.len() - pattern.len() && #[trigger] text.subrange(i, i + pattern.len())
            == pattern
}

/// `str::contains` of std, for a pattern that is a string: whether the
/// pattern occurs in the text.
#[verifier::external_body]
fn text_contains(text: &str, pattern: &str) -> (found: bool)
    ensures
        found == spec_contains(text@, pattern@),
{
    text.contains(pattern)
}

impl NetworkError {
    /// The failure that the message of a failed read stands for.
    pub open spec fn spec_of_read_error(message: Seq<char>) -> NetworkError {
        if spec_contains(message, spec_local_abort_text()) {
            NetworkError::ConnectionAbortedLocally
        } else {
            NetworkError::IoError
        }
    }

    /// Tells a local abort from other failures of the socket by the message
    /// of the operating system.
    pub fn of_read_error(message: &str) -> (error: NetworkError)
        ensures
            error == Self::spec_of_read_error(message@),
    {
        if text_contains(
            message,
            "An established connection was aborted by the software in your host machine",
        ) {
            NetworkError::ConnectionAbortedLocally
        } else {
            NetworkError::IoError
        }
    }

    /// The text that describes each failure.
    pub open spec fn spec_message(self) -> Seq<char> {
        match self {
            NetworkError::IoError => "The socket failed"@,
            NetworkError::ConnectionClosed => "No data received"@,
            NetworkError::ConnectionAbortedLocally => "The connection was aborted locally"@,
        }
    }

    /// A human-readable description of the failure.
    pub fn message(&self) -> (text: String)
        ensures
            text@ == self.spec_message(),
    {
        match self {
            NetworkError::IoError => "The socket failed".to_owned(),
            NetworkError::ConnectionClosed => "No data received".to_owned(),
            NetworkError::ConnectionAbortedLocally => "The connection was aborted locally".to_owned(),
        }
    }
}

} // verus!
