//! The outcome of a refused request, as the network layer reports it: a
//! code and a message for the caller.

use vstd::prelude::*;

verus! {

/// The kind of a refusal.
#[derive(PartialEq, Eq, Structural, Clone, Copy, Debug)]
pub enum Code {
    InvalidArgument,
    NotFound,
    AlreadyExists,
    PermissionDenied,
    FailedPrecondition,
    Unavailable,
    Internal,
    Unauthenticated,
}

/// A refusal: its kind and the message for the caller.
#[derive(Debug)]
pub struct Status {
    pub code: Code,
    pub message: String,
}

/// A refusal of the given kind with the given text.
pub open spec fn refusal(s: Status, code: Code, message: Seq<char>) -> bool {
    s.code == code && s.message@ == message
}

impl Status {
    /// A refusal of the given kind with the given message.
    pub fn new(code: Code, message: &str) -> (r: Status)
        ensures
            refusal(r, code, message@),
    {
        Status { code, message: message.to_owned() }
    }

    /// A refusal of the given kind whose message is `prefix` followed by
    /// `detail`.
    pub fn with_detail(code: Code, prefix: &str, detail: &str) -> (r: Status)
        ensures
            refusal(r, code, prefix@ + detail@),
    {
        let mut message = prefix.to_owned();
        message.append(detail);
        Status { code, message }
    }
}

} // verus!
