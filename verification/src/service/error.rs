//! Why a request is refused.

use vstd::prelude::*;

verus! {

/// The class of a refusal.
#[derive(Debug, Clone, Copy, PartialEq, Eq, Structural)]
pub enum Code {
    InvalidArgument,
    FailedPrecondition,
    NotFound,
    ResourceExhausted,
}

/// A refusal: its class and a message.
#[derive(Debug, PartialEq, Eq)]
pub struct ServiceError {
    pub code: Code,
    pub message: String,
}

/// What a [`ServiceError`] holds.
#[verifier::ext_equal]
pub struct Refusal {
    pub code: Code,
    pub message: Seq<char>,
}

impl View for ServiceError {
    type V = Refusal;

    open spec fn view(&self) -> Refusal {
        Refusal { code: self.code, message: self.message@ }
    }
}

impl ServiceError {
    /// A refusal with the given message.
    pub fn new(code: Code, message: &str) -> (r: ServiceError)
        ensures
            r@ == (Refusal { code, message: message@ }),
    {
        ServiceError { code, message: message.to_owned() }
    }

    /// The class of the refusal.
    pub fn code(&self) -> (r: Code)
        ensures
            r == self.code,
    {
        self.code
    }
}

} // verus!
