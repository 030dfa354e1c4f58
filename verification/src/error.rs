//! The errors that operations on the rendezvous channel, the segment and the
//! configuration give.

use vstd::prelude::*;

verus! {

/// What sort of failure an error is.
#[derive(Debug, Clone, Copy, PartialEq, Eq, Structural)]
pub enum ErrorKind {
    /// A parameter was not acceptable.
    InvalidInput,
    /// The peer sent something that is not acceptable.
    InvalidData,
    /// The peer stopped in the middle.
    UnexpectedEof,
    /// Nothing more could be written.
    WriteZero,
    /// The address is taken.
    AddrInUse,
    /// It took too long.
    TimedOut,
}

/// An error: its sort and the text that is shown.
#[derive(Debug)]
pub struct IoError {
    pub kind: ErrorKind,
    pub message: String,
}

impl View for IoError {
    type V = (ErrorKind, Seq<char>);

    open spec fn view(&self) -> (ErrorKind, Seq<char>) {
        (self.kind, self.message@)
    }
}

impl IoError {
    /// An error with a fixed text.
    pub fn new(kind: ErrorKind, message: &str) -> (r: Self)
        ensures
            r@ == (kind, message@),
    {
        IoError { kind, message: message.to_owned() }
    }
}

/// An error shows its sort and its text.
pub proof fn law_errors_are_shown(e: IoError)
    ensures
        e@.0 == e.kind,
        e@.1 == e.message@,
{
}

} // verus!
