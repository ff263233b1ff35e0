//! Rate limits: a size and `/s`, or a number and `iops`. Which of the two a
//! workload admits is checked elsewhere; the parser accepts both.

use vstd::prelude::*;

use crate::parse::size::parse_size_field;
use crate::parse::{fault_in, ParseError, ParseFault};
use crate::text;

verus! {

/// The name of the field in errors.
pub const FIELD: &'static str = "rate_limit";

/// A rate limit.
#[derive(Debug, Clone, Copy, PartialEq, Eq, Structural)]
pub enum RateLimit {
    /// In bytes per second.
    Throughput { bytes_per_sec: u64 },
    /// In operations per second.
    Iops { ops_per_sec: u64 },
}

/// What the text `input` means as a rate limit.
pub open spec fn rate_of(input: Seq<char>) -> Result<Option<RateLimit>, ParseFault> {
    let t = text::trimmed(input);
    if t.len() == 0 {
        Ok(None)
    } else if text::ends_with(t, "iops"@) {
        let number = text::trimmed_end(t.take(t.len() - "iops"@.len()));
        if number.len() == 0 {
            Err(ParseFault::MissingNumber { field: FIELD@, input })
        } else {
            match text::unsigned_literal(number) {
                Some(v) => Ok(Some(RateLimit::Iops { ops_per_sec: v as u64 })),
                None => Err(ParseFault::InvalidNumber { field: FIELD@, number, input }),
            }
        }
    } else if text::ends_with(t, "/s"@) {
        match crate::parse::size::size_bytes(t.take(t.len() - "/s"@.len()), FIELD@) {
            Ok(Some(v)) => Ok(Some(RateLimit::Throughput { bytes_per_sec: v as u64 })),
            Ok(None) => Err(ParseFault::MissingNumber { field: FIELD@, input }),
            Err(f) => Err(fault_in(f, input)),
        }
    } else {
        Err(ParseFault::InvalidShape { field: FIELD@, input })
    }
}

/// What a returned rate limit stands for.
pub open spec fn rate_view(r: Result<Option<RateLimit>, ParseError>) -> Result<
    Option<RateLimit>,
    ParseFault,
> {
    match r {
        Ok(v) => Ok(v),
        Err(e) => Err(e@),
    }
}

/// Reads a rate limit. An empty text is `Ok(None)`.
pub fn parse_rate_limit(input: &str) -> (r: Result<Option<RateLimit>, ParseError>)
    ensures
        rate_view(r) == rate_of(input@),
{
    let cs = text::chars_of(input);
    let t = text::trim(&cs);
    if t.len() == 0 {
        return Ok(None);
    }
    if let Some(head) = text::strip_suffix(&t, "iops") {
        let number = text::trim_end(&head);
        if number.len() == 0 {
            return Err(ParseError::MissingNumber { field: FIELD, input: input.to_owned() });
        }
        return match text::unsigned_of(&number) {
            Some(ops) => Ok(Some(RateLimit::Iops { ops_per_sec: ops })),
            None => Err(
                ParseError::InvalidNumber {
                    field: FIELD,
                    number: text::string_of(&number),
                    input: input.to_owned(),
                },
            ),
        };
    }
    if let Some(head) = text::strip_suffix(&t, "/s") {
        let size = text::string_of(&head);
        return match parse_size_field(size.as_str(), FIELD) {
            Ok(Some(bytes)) => Ok(Some(RateLimit::Throughput { bytes_per_sec: bytes })),
            Ok(None) => Err(ParseError::MissingNumber { field: FIELD, input: input.to_owned() }),
            Err(e) => Err(e.found_in(input)),
        };
    }
    Err(ParseError::InvalidShape { field: FIELD, input: input.to_owned() })
}

} // verus!
