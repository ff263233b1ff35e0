//! Errors that belong to no single part of the library.

use vstd::prelude::*;

verus! {

/// An error at the outermost level. An I/O error is held as its message.
#[derive(Debug)]
pub enum CvbError {
    Validate(String),
    Parse(String),
    Io(String),
}

/// The text that shows an error.
pub open spec fn error_text(e: CvbError) -> Seq<char> {
    match e {
        CvbError::Validate(m) => "validation failed: "@ + m@,
        CvbError::Parse(m) => "parse error: "@ + m@,
        CvbError::Io(m) => "io error: "@ + m@,
    }
}

impl CvbError {
    /// The error as a message.
    pub fn message(&self) -> (r: String)
        ensures
            r@ == error_text(*self),
    {
        let (head, tail) = match self {
            CvbError::Validate(m) => ("validation failed: ", m),
            CvbError::Parse(m) => ("parse error: ", m),
            CvbError::Io(m) => ("io error: ", m),
        };
        let mut s = head.to_owned();
        s.push_str(tail.as_str());
        s
    }
}

/// A failed check, with its message.
#[derive(Debug)]
pub struct ValidateError {
    pub message: String,
}

impl ValidateError {
    /// An error with the given message.
    pub fn new(message: &str) -> (r: ValidateError)
        ensures
            r.message@ == message@,
    {
        ValidateError { message: message.to_owned() }
    }
}

} // verus!
