//! The text forms of durations, sizes and rate limits.
//!
//! In all three an empty text, or one of white space only, means that the
//! value is not set: the parsers return `Ok(None)` for it and leave to their
//! callers what that stands for.

pub mod duration;
pub mod grammar;
pub mod rate;
pub mod size;

pub use duration::parse_duration;
pub use rate::{parse_rate_limit, RateLimit};
pub use size::parse_size;

use vstd::prelude::*;

use crate::text;

verus! {

/// Why a text is no duration, size or rate limit. Every variant holds the
/// field's name and the text as it was given.
#[derive(Debug, PartialEq, Eq)]
pub enum ParseError {
    MissingNumber { field: &'static str, input: String },
    InvalidNumber { field: &'static str, number: String, input: String },
    InvalidUnit { field: &'static str, unit: String, input: String },
    Overflow { field: &'static str, input: String },
    InvalidShape { field: &'static str, input: String },
}

/// The characters of a [`ParseError`].
pub enum ParseFault {
    MissingNumber { field: Seq<char>, input: Seq<char> },
    InvalidNumber { field: Seq<char>, number: Seq<char>, input: Seq<char> },
    InvalidUnit { field: Seq<char>, unit: Seq<char>, input: Seq<char> },
    Overflow { field: Seq<char>, input: Seq<char> },
    InvalidShape { field: Seq<char>, input: Seq<char> },
}

impl View for ParseError {
    type V = ParseFault;

    open spec fn view(&self) -> ParseFault {
        match *self {
            ParseError::MissingNumber { field, input } => ParseFault::MissingNumber {
                field: field@,
                input: input@,
            },
            ParseError::InvalidNumber { field, number, input } => ParseFault::InvalidNumber {
                field: field@,
                number: number@,
                input: input@,
            },
            ParseError::InvalidUnit { field, unit, input } => ParseFault::InvalidUnit {
                field: field@,
                unit: unit@,
                input: input@,
            },
            ParseError::Overflow { field, input } => ParseFault::Overflow {
                field: field@,
                input: input@,
            },
            ParseError::InvalidShape { field, input } => ParseFault::InvalidShape {
                field: field@,
                input: input@,
            },
        }
    }
}

/// The message that shows a fault to the user.
pub open spec fn fault_text(f: ParseFault) -> Seq<char> {
    match f {
        ParseFault::MissingNumber { field, input } => field + " is missing a numeric prefix in "@
            + text::quoted_text(input),
        ParseFault::InvalidNumber { field, number, input } => field + " number "@
            + text::quoted_text(number) + " is not a non-negative integer in "@
            + text::quoted_text(input),
        ParseFault::InvalidUnit { field, unit, input } => field + " unit "@ + text::quoted_text(
            unit,
        ) + " is not recognised in "@ + text::quoted_text(input),
        ParseFault::Overflow { field, input } => field + " value "@ + text::quoted_text(input)
            + " overflows u64"@,
        ParseFault::InvalidShape { field, input } => field + " value "@ + text::quoted_text(input)
            + " does not match expected grammar"@,
    }
}

/// The same fault, found in a part of `input`.
pub open spec fn fault_in(f: ParseFault, input: Seq<char>) -> ParseFault {
    match f {
        ParseFault::MissingNumber { field, .. } => ParseFault::MissingNumber { field, input },
        ParseFault::InvalidNumber { field, number, .. } => ParseFault::InvalidNumber {
            field,
            number,
            input,
        },
        ParseFault::InvalidUnit { field, unit, .. } => ParseFault::InvalidUnit {
            field,
            unit,
            input,
        },
        ParseFault::Overflow { field, .. } => ParseFault::Overflow { field, input },
        ParseFault::InvalidShape { field, .. } => ParseFault::InvalidShape { field, input },
    }
}

impl ParseError {
    /// The same error, found in a part of `whole`.
    pub(crate) fn found_in(self, whole: &str) -> (r: ParseError)
        ensures
            r@ == fault_in(self@, whole@),
    {
        let input = whole.to_owned();
        match self {
            ParseError::MissingNumber { field, .. } => ParseError::MissingNumber { field, input },
            ParseError::InvalidNumber { field, number, .. } => ParseError::InvalidNumber {
                field,
                number,
                input,
            },
            ParseError::InvalidUnit { field, unit, .. } => ParseError::InvalidUnit {
                field,
                unit,
                input,
            },
            ParseError::Overflow { field, .. } => ParseError::Overflow { field, input },
            ParseError::InvalidShape { field, .. } => ParseError::InvalidShape { field, input },
        }
    }

    /// The error as a message.
    pub fn message(&self) -> (r: String)
        ensures
            r@ == fault_text(self@),
    {
        match self {
            ParseError::MissingNumber { field, input } => {
                let mut s = (*field).to_owned();
                s.push_str(" is missing a numeric prefix in ");
                s.push_str(text::quoted(input).as_str());
                s
            },
            ParseError::InvalidNumber { field, number, input } => {
                let mut s = (*field).to_owned();
                s.push_str(" number ");
                s.push_str(text::quoted(number).as_str());
                s.push_str(" is not a non-negative integer in ");
                s.push_str(text::quoted(input).as_str());
                s
            },
            ParseError::InvalidUnit { field, unit, input } => {
                let mut s = (*field).to_owned();
                s.push_str(" unit ");
                s.push_str(text::quoted(unit).as_str());
                s.push_str(" is not recognised in ");
                s.push_str(text::quoted(input).as_str());
                s
            },
            ParseError::Overflow { field, input } => {
                let mut s = (*field).to_owned();
                s.push_str(" value ");
                s.push_str(text::quoted(input).as_str());
                s.push_str(" overflows u64");
                s
            },
            ParseError::InvalidShape { field, input } => {
                let mut s = (*field).to_owned();
                s.push_str(" value ");
                s.push_str(text::quoted(input).as_str());
                s.push_str(" does not match expected grammar");
                s
            },
        }
    }
}

/// The text that a fault was found in.
pub open spec fn faulty_text(f: ParseFault) -> Seq<char> {
    match f {
        ParseFault::MissingNumber { input, .. } => input,
        ParseFault::InvalidNumber { input, .. } => input,
        ParseFault::InvalidUnit { input, .. } => input,
        ParseFault::Overflow { input, .. } => input,
        ParseFault::InvalidShape { input, .. } => input,
    }
}

proof fn lemma_segments_hold_the_input(rest: Seq<char>, total: nat, input: Seq<char>)
    ensures
        duration::segments(rest, total, input) matches Err(f) ==> faulty_text(f) == input,
    decreases rest.len(),
{
    if rest.len() > 0 {
        let n = text::digit_run(rest) as int;
        let after = rest.skip(n);
        let u = duration::unit_len(after);
        text::lemma_digit_run(rest);
        if n > 0 && u > 0 {
            if let Some(ms) = duration::unit_ms(after.take(u)) {
                let value = text::digits_value(rest.take(n)) * ms;
                lemma_segments_hold_the_input(after.skip(u), total + value, input);
            }
        }
    }
}

/// Every fault holds the text as it was given.
pub proof fn law_faults_hold_the_input(input: Seq<char>, field: Seq<char>)
    ensures
        duration::duration_ms(input) matches Err(f) ==> faulty_text(f) == input,
        size::size_bytes(input, field) matches Err(f) ==> faulty_text(f) == input,
        rate::rate_of(input) matches Err(f) ==> faulty_text(f) == input,
{
    lemma_segments_hold_the_input(text::trimmed(input), 0, input);
}

/// A text without characters but white space says nothing, as a duration, a size
/// or a rate; and no other text says nothing.
pub proof fn law_blank_says_nothing(input: Seq<char>, field: Seq<char>)
    ensures
        text::trimmed(input).len() == 0 <==> duration::duration_ms(input) == Ok::<
            Option<nat>,
            ParseFault,
        >(None),
        text::trimmed(input).len() == 0 <==> size::size_bytes(input, field) == Ok::<
            Option<nat>,
            ParseFault,
        >(None),
        text::trimmed(input).len() == 0 <==> rate::rate_of(input) == Ok::<
            Option<rate::RateLimit>,
            ParseFault,
        >(None),
{
}

} // verus!
