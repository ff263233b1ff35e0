//! Sizes: a number with an optional unit. `K`, `M`, `G` and `T` are powers of
//! 1000, `Ki`, `Mi`, `Gi` and `Ti` powers of 1024, and a `B` may follow each of
//! them. No unit, and `B` alone, mean bytes. Fractions are not accepted.

use vstd::prelude::*;

use crate::parse::{ParseError, ParseFault};
use crate::text;

verus! {

/// The name of the field in errors.
pub const FIELD: &'static str = "size";

/// How many bytes a unit stands for.
pub open spec fn multiplier(unit: Seq<char>) -> Option<nat> {
    if unit == ""@ || unit == "B"@ {
        Some(1)
    } else if unit == "K"@ || unit == "KB"@ {
        Some(1_000)
    } else if unit == "M"@ || unit == "MB"@ {
        Some(1_000_000)
    } else if unit == "G"@ || unit == "GB"@ {
        Some(1_000_000_000)
    } else if unit == "T"@ || unit == "TB"@ {
        Some(1_000_000_000_000)
    } else if unit == "Ki"@ || unit == "KiB"@ {
        Some(1_024)
    } else if unit == "Mi"@ || unit == "MiB"@ {
        Some(1_048_576)
    } else if unit == "Gi"@ || unit == "GiB"@ {
        Some(1_073_741_824)
    } else if unit == "Ti"@ || unit == "TiB"@ {
        Some(1_099_511_627_776)
    } else {
        None
    }
}

/// How many bytes the text `input` means, for the field `field`.
pub open spec fn size_bytes(input: Seq<char>, field: Seq<char>) -> Result<Option<nat>, ParseFault> {
    let t = text::trimmed(input);
    let n = text::digit_run(t) as int;
    let number = t.take(n);
    let unit = t.skip(n);
    if t.len() == 0 {
        Ok(None)
    } else if n == 0 {
        Err(ParseFault::MissingNumber { field, input })
    } else if text::digits_value(number) > u64::MAX {
        Err(ParseFault::InvalidNumber { field, number, input })
    } else {
        match multiplier(unit) {
            None => Err(ParseFault::InvalidUnit { field, unit, input }),
            Some(m) => if text::digits_value(number) * m > u64::MAX {
                Err(ParseFault::Overflow { field, input })
            } else {
                Ok(Some(text::digits_value(number) * m))
            },
        }
    }
}

/// What a returned size stands for.
pub open spec fn size_view(r: Result<Option<u64>, ParseError>) -> Result<Option<nat>, ParseFault> {
    match r {
        Ok(None) => Ok(None),
        Ok(Some(v)) => Ok(Some(v as nat)),
        Err(e) => Err(e@),
    }
}

/// Reads a size in bytes. An empty text is `Ok(None)`.
pub fn parse_size(input: &str) -> (r: Result<Option<u64>, ParseError>)
    ensures
        size_view(r) == size_bytes(input@, FIELD@),
{
    parse_size_field(input, FIELD)
}

/// Reads a size on behalf of the field `field`, which errors name.
pub fn parse_size_field(input: &str, field: &'static str) -> (r: Result<Option<u64>, ParseError>)
    ensures
        size_view(r) == size_bytes(input@, field@),
{
    let cs = text::chars_of(input);
    let t = text::trim(&cs);
    if t.len() == 0 {
        return Ok(None);
    }
    let n: usize = text::digits_from(&t, 0);
    proof {
        assert(t@.skip(0) =~= t@);
        text::lemma_digit_run(t@);
    }
    if n == 0 {
        return Err(ParseError::MissingNumber { field, input: input.to_owned() });
    }
    let number = text::sub_chars(&t, 0, n);
    assert(number@ =~= t@.take(n as int));
    let value: u64 = match text::number_of(&number) {
        Some(v) => v,
        None => {
            return Err(
                ParseError::InvalidNumber {
                    field,
                    number: text::string_of(&number),
                    input: input.to_owned(),
                },
            );
        },
    };
    let tail = text::sub_chars(&t, n, t.len());
    assert(tail@ =~= t@.skip(n as int));
    let unit = text::string_of(&tail);
    let m: u64 = match unit_multiplier(unit.as_str()) {
        Some(m) => m,
        None => {
            return Err(ParseError::InvalidUnit { field, unit, input: input.to_owned() });
        },
    };
    assert(value * m <= u64::MAX * u64::MAX) by (nonlinear_arith)
        requires
            value <= u64::MAX,
            m <= u64::MAX,
    ;
    let bytes: u128 = value as u128 * m as u128;
    if bytes > u64::MAX as u128 {
        return Err(ParseError::Overflow { field, input: input.to_owned() });
    }
    Ok(Some(bytes as u64))
}

/// How many bytes the unit `u` stands for.
fn unit_multiplier(u: &str) -> (r: Option<u64>)
    ensures
        match r {
            Some(m) => multiplier(u@) == Some(m as nat),
            None => multiplier(u@) is None,
        },
{
    if text::str_eq(u, "") || text::str_eq(u, "B") {
        Some(1)
    } else if text::str_eq(u, "K") || text::str_eq(u, "KB") {
        Some(1_000)
    } else if text::str_eq(u, "M") || text::str_eq(u, "MB") {
        Some(1_000_000)
    } else if text::str_eq(u, "G") || text::str_eq(u, "GB") {
        Some(1_000_000_000)
    } else if text::str_eq(u, "T") || text::str_eq(u, "TB") {
        Some(1_000_000_000_000)
    } else if text::str_eq(u, "Ki") || text::str_eq(u, "KiB") {
        Some(1_024)
    } else if text::str_eq(u, "Mi") || text::str_eq(u, "MiB") {
        Some(1_048_576)
    } else if text::str_eq(u, "Gi") || text::str_eq(u, "GiB") {
        Some(1_073_741_824)
    } else if text::str_eq(u, "Ti") || text::str_eq(u, "TiB") {
        Some(1_099_511_627_776)
    } else {
        None
    }
}

/// A number written in decimal without a unit is that many bytes.
pub proof fn law_plain_number_is_bytes(n: u64)
    ensures
        size_bytes(text::decimal(n as nat), FIELD@) == Ok::<Option<nat>, ParseFault>(
            Some(n as nat),
        ),
{
    let d = text::decimal(n as nat);
    text::lemma_decimal(n as nat);
    assert(text::is_digit(d[0]) && text::is_digit(d.last()));
    text::lemma_trimmed_fixed(d);
    assert(d + Seq::<char>::empty() =~= d);
    text::lemma_run_of_digits(d, Seq::empty());
    assert(d.take(d.len() as int) =~= d);
    reveal_strlit("");
    assert(d.skip(d.len() as int) =~= ""@);
    assert(n as nat * 1 == n as nat);
}

/// A `B` behind a unit of one or two letters changes nothing.
pub proof fn law_trailing_b_is_optional(digits: Seq<char>, unit: Seq<char>)
    requires
        text::all_digits(digits),
        digits.len() > 0,
        unit == "K"@ || unit == "M"@ || unit == "G"@ || unit == "T"@ || unit == "Ki"@ || unit
            == "Mi"@ || unit == "Gi"@ || unit == "Ti"@,
    ensures
        multiplier(unit + "B"@) == multiplier(unit),
        multiplier(unit) is Some,
        match size_bytes(digits + unit, FIELD@) {
            Ok(v) => size_bytes(digits + unit + "B"@, FIELD@) == Ok::<Option<nat>, ParseFault>(v),
            Err(_) => size_bytes(digits + unit + "B"@, FIELD@) is Err,
        },
{
    lemma_unit_letters();
    let long = unit + "B"@;
    assert(long.len() == unit.len() + 1 && long.last() == 'B');
    assert(forall|i: int| 0 <= i < unit.len() ==> long[i] == unit[i]);
    assert(long =~= "KB"@ || long =~= "MB"@ || long =~= "GB"@ || long =~= "TB"@ || long =~= "KiB"@
        || long =~= "MiB"@ || long =~= "GiB"@ || long =~= "TiB"@);
    lemma_size_of_parts(digits, unit);
    lemma_size_of_parts(digits, long);
    assert(digits + unit + "B"@ =~= digits + long);
}

/// What the unit literals hold.
pub(crate) proof fn lemma_unit_letters()
    ensures
        ""@.len() == 0,
        "B"@.len() == 1 && "B"@[0] == 'B',
        "K"@.len() == 1 && "K"@[0] == 'K',
        "M"@.len() == 1 && "M"@[0] == 'M',
        "G"@.len() == 1 && "G"@[0] == 'G',
        "T"@.len() == 1 && "T"@[0] == 'T',
        "Ki"@.len() == 2 && "Ki"@[0] == 'K' && "Ki"@[1] == 'i',
        "Mi"@.len() == 2 && "Mi"@[0] == 'M' && "Mi"@[1] == 'i',
        "Gi"@.len() == 2 && "Gi"@[0] == 'G' && "Gi"@[1] == 'i',
        "Ti"@.len() == 2 && "Ti"@[0] == 'T' && "Ti"@[1] == 'i',
        "KB"@.len() == 2 && "KB"@[0] == 'K' && "KB"@[1] == 'B',
        "MB"@.len() == 2 && "MB"@[0] == 'M' && "MB"@[1] == 'B',
        "GB"@.len() == 2 && "GB"@[0] == 'G' && "GB"@[1] == 'B',
        "TB"@.len() == 2 && "TB"@[0] == 'T' && "TB"@[1] == 'B',
        "KiB"@.len() == 3 && "KiB"@[0] == 'K' && "KiB"@[1] == 'i' && "KiB"@[2] == 'B',
        "MiB"@.len() == 3 && "MiB"@[0] == 'M' && "MiB"@[1] == 'i' && "MiB"@[2] == 'B',
        "GiB"@.len() == 3 && "GiB"@[0] == 'G' && "GiB"@[1] == 'i' && "GiB"@[2] == 'B',
        "TiB"@.len() == 3 && "TiB"@[0] == 'T' && "TiB"@[1] == 'i' && "TiB"@[2] == 'B',
{
    reveal_strlit("");
    reveal_strlit("B");
    reveal_strlit("K");
    reveal_strlit("M");
    reveal_strlit("G");
    reveal_strlit("T");
    reveal_strlit("Ki");
    reveal_strlit("Mi");
    reveal_strlit("Gi");
    reveal_strlit("Ti");
    reveal_strlit("KB");
    reveal_strlit("MB");
    reveal_strlit("GB");
    reveal_strlit("TB");
    reveal_strlit("KiB");
    reveal_strlit("MiB");
    reveal_strlit("GiB");
    reveal_strlit("TiB");
}

/// Digits and a unit are read as such.
pub(crate) proof fn lemma_size_of_parts(digits: Seq<char>, unit: Seq<char>)
    requires
        text::all_digits(digits),
        digits.len() > 0,
        unit.len() > 0,
        !text::is_digit(unit[0]),
        !text::is_white(unit.last()),
    ensures
        ({
            let t = digits + unit;
            &&& text::trimmed(t) == t
            &&& text::digit_run(t) == digits.len()
            &&& t.take(digits.len() as int) == digits
            &&& t.skip(digits.len() as int) == unit
        }),
{
    let t = digits + unit;
    assert(text::is_digit(digits[0]));
    assert(t[0] == digits[0] && t.last() == unit.last());
    text::lemma_trimmed_fixed(t);
    text::lemma_run_of_digits(digits, unit);
    assert(t.take(digits.len() as int) =~= digits);
    assert(t.skip(digits.len() as int) =~= unit);
}

} // verus!
