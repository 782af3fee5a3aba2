//! Why a multiplexer dies.

use vstd::prelude::*;
use vstd::string::*;

verus! {

/// The kinds of failure, named as in [`std::io::ErrorKind`].
#[derive(Clone, Copy, Debug, PartialEq, Eq, Structural)]
pub enum ErrorKind {
    BrokenPipe,
    InvalidData,
    NotConnected,
    TimedOut,
}

/// A failure that ends a multiplexer.
#[derive(Debug)]
pub struct MuxError {
    pub kind: ErrorKind,
    pub message: String,
}

/// A failure as a mathematical value.
#[verifier::ext_equal]
pub struct Failure {
    pub kind: ErrorKind,
    pub message: Seq<char>,
}

impl View for MuxError {
    type V = Failure;

    open spec fn view(&self) -> Failure {
        Failure { kind: self.kind, message: self.message@ }
    }
}

impl MuxError {
    /// A failure with a fixed message.
    pub fn new(kind: ErrorKind, message: &str) -> (e: MuxError)
        ensures
            e@ == (Failure { kind, message: message@ }),
    {
        MuxError { kind, message: message.to_owned() }
    }

    /// A failure whose message goes on with a detail.
    pub fn with_detail(kind: ErrorKind, message: &str, detail: &str) -> (e: MuxError)
        ensures
            e@ == (Failure { kind, message: message@ + detail@ }),
    {
        let mut text: String = message.to_owned();
        text.append(detail);
        MuxError { kind, message: text }
    }
}

/// A failure shows the kind and the message that it holds.
pub proof fn law_failure_shows_what_it_holds(e: MuxError)
    ensures
        e@.kind == e.kind,
        e@.message == e.message@,
{
}

} // verus!
