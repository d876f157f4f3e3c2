//! Failures of a stream, as plain values.

use vstd::prelude::*;

verus! {

/// What kind of failure a stream reported.
#[derive(Debug, Clone, Copy, PartialEq, Eq, Structural)]
pub enum ErrorKind {
    /// The operation took longer than the stream's timeout allows.
    TimedOut,
    /// The operation would have had to wait.
    WouldBlock,
    /// The stream ended before everything was read.
    UnexpectedEof,
    /// Anything else.
    Other,
}

impl ErrorKind {
    /// Whether the failure only says that nothing is there to be read yet.
    ///
    /// Which of the two kinds a stream reports when its timeout runs out depends
    /// on the platform, so both count.
    pub open spec fn spec_is_timeout(self) -> bool {
        self == ErrorKind::TimedOut || self == ErrorKind::WouldBlock
    }

    /// Whether the failure only says that nothing is there to be read yet.
    pub fn is_timeout(self) -> (yes: bool)
        ensures
            yes == self.spec_is_timeout(),
    {
        match self {
            ErrorKind::TimedOut | ErrorKind::WouldBlock => true,
            _ => false,
        }
    }
}

/// A failure that a stream reported.
#[derive(Debug, PartialEq, Eq)]
pub struct IoError {
    /// What kind of failure it is.
    pub kind: ErrorKind,
    /// The failure in words.
    pub message: String,
}

} // verus!
