//! Durations: numbers with a unit (`h`, `m`, `s` or `ms`), one after another,
//! as in `1h30m` or `500ms`.

use vstd::prelude::*;

use crate::parse::{ParseError, ParseFault};
use crate::text;
use crate::time::Duration;

verus! {

/// The name of the field in errors.
pub const FIELD: &'static str = "duration";

/// The ASCII letters.
pub open spec fn is_letter(c: char) -> bool {
    ('a' <= c <= 'z') || ('A' <= c <= 'Z')
}

/// How many characters of `s` make the unit that it starts with: two for
/// `ms`, one for any other letter, none where no letter stands there.
pub open spec fn unit_len(s: Seq<char>) -> int {
    if s.len() >= 2 && s[0] == 'm' && s[1] == 's' {
        2
    } else if s.len() >= 1 && is_letter(s[0]) {
        1
    } else {
        0
    }
}

/// How many milliseconds a unit stands for.
pub open spec fn unit_ms(unit: Seq<char>) -> Option<nat> {
    if unit == seq!['m', 's'] {
        Some(1)
    } else if unit == seq!['s'] {
        Some(1_000)
    } else if unit == seq!['m'] {
        Some(60_000)
    } else if unit == seq!['h'] {
        Some(3_600_000)
    } else {
        None
    }
}

/// What the segments of `rest` add to `total` milliseconds; `input` is the
/// whole text, which errors quote.
pub open spec fn segments(rest: Seq<char>, total: nat, input: Seq<char>) -> Result<nat, ParseFault>
    decreases rest.len(),
{
    if rest.len() == 0 {
        Ok(total)
    } else {
        let n = text::digit_run(rest) as int;
        let number = rest.take(n);
        let after = rest.skip(n);
        let u = unit_len(after);
        let unit = after.take(u);
        proof {
            text::lemma_digit_run(rest);
        }
        if n == 0 {
            Err(ParseFault::MissingNumber { field: FIELD@, input })
        } else if text::digits_value(number) > u64::MAX {
            Err(ParseFault::InvalidNumber { field: FIELD@, number, input })
        } else if u == 0 {
            Err(ParseFault::InvalidShape { field: FIELD@, input })
        } else {
            match unit_ms(unit) {
                None => Err(ParseFault::InvalidUnit { field: FIELD@, unit, input }),
                Some(ms) => {
                    let value = text::digits_value(number) * ms;
                    if total + value > u64::MAX {
                        Err(ParseFault::Overflow { field: FIELD@, input })
                    } else {
                        segments(after.skip(u), total + value, input)
                    }
                },
            }
        }
    }
}

/// What the text `input` means as a duration, in milliseconds.
pub open spec fn duration_ms(input: Seq<char>) -> Result<Option<nat>, ParseFault> {
    let t = text::trimmed(input);
    if t.len() == 0 {
        Ok(None)
    } else {
        match segments(t, 0, input) {
            Ok(ms) => Ok(Some(ms)),
            Err(e) => Err(e),
        }
    }
}

/// Reads a duration. An empty text is `Ok(None)`.
pub fn parse_duration(input: &str) -> (r: Result<Option<Duration>, ParseError>)
    ensures
        match r {
            Ok(None) => duration_ms(input@) == Ok::<Option<nat>, ParseFault>(None),
            Ok(Some(d)) => duration_ms(input@) matches Ok(Some(ms)) && ms <= u64::MAX && d.nanos == ms
                * 1_000_000,
            Err(e) => duration_ms(input@) == Err::<Option<nat>, ParseFault>(e@),
        },
{
    let cs = text::chars_of(input);
    let t = text::trim(&cs);
    if t.len() == 0 {
        return Ok(None);
    }
    let mut total: u64 = 0;
    let mut at: usize = 0;
    assert(t@.skip(0) =~= t@);
    while at < t.len()
        invariant
            at <= t@.len(),
            t@ == text::trimmed(input@),
            t@.len() > 0,
            segments(t@.skip(at as int), total as nat, input@) == segments(t@, 0, input@),
        decreases t@.len() - at,
    {
        let ghost rest = t@.skip(at as int);
        let n: usize = text::digits_from(&t, at);
        proof {
            text::lemma_digit_run(rest);
        }
        if n == 0 {
            return Err(ParseError::MissingNumber { field: FIELD, input: input.to_owned() });
        }
        let number = text::sub_chars(&t, at, at + n);
        assert(number@ =~= rest.take(n as int));
        let value: u64 = match text::number_of(&number) {
            Some(v) => v,
            None => {
                return Err(
                    ParseError::InvalidNumber {
                        field: FIELD,
                        number: text::string_of(&number),
                        input: input.to_owned(),
                    },
                );
            },
        };
        let p: usize = at + n;
        let ghost after = rest.skip(n as int);
        assert(after =~= t@.skip(p as int));
        let u: usize = unit_at(&t, p);
        if u == 0 {
            return Err(ParseError::InvalidShape { field: FIELD, input: input.to_owned() });
        }
        let unit = text::sub_chars(&t, p, p + u);
        assert(unit@ =~= after.take(u as int));
        let ms: u64 = match unit_millis(&unit) {
            Some(ms) => ms,
            None => {
                return Err(
                    ParseError::InvalidUnit {
                        field: FIELD,
                        unit: text::string_of(&unit),
                        input: input.to_owned(),
                    },
                );
            },
        };
        assert(value * ms <= u64::MAX * 3_600_000) by (nonlinear_arith)
            requires
                value <= u64::MAX,
                0 <= ms <= 3_600_000,
        ;
        let sum: u128 = total as u128 + value as u128 * ms as u128;
        if sum > u64::MAX as u128 {
            return Err(ParseError::Overflow { field: FIELD, input: input.to_owned() });
        }
        assert(after.skip(u as int) =~= t@.skip(p as int + u));
        total = sum as u64;
        at = p + u;
    }
    assert(t@.skip(at as int) =~= Seq::<char>::empty());
    Ok(Some(Duration::from_millis(total)))
}

/// How many characters of `t` from `p` on make a unit.
fn unit_at(t: &Vec<char>, p: usize) -> (u: usize)
    requires
        p <= t@.len(),
    ensures
        u == unit_len(t@.skip(p as int)),
        p + u <= t@.len(),
{
    if t.len() - p >= 2 && t[p] == 'm' && t[p + 1] == 's' {
        2
    } else if p < t.len() && (('a' <= t[p] && t[p] <= 'z') || ('A' <= t[p] && t[p] <= 'Z')) {
        1
    } else {
        0
    }
}

/// How many milliseconds the unit `u` stands for.
fn unit_millis(u: &Vec<char>) -> (r: Option<u64>)
    ensures
        match r {
            Some(ms) => unit_ms(u@) == Some(ms as nat) && ms <= 3_600_000,
            None => unit_ms(u@) is None,
        },
{
    if u.len() == 2 && u[0] == 'm' && u[1] == 's' {
        assert(u@ =~= seq!['m', 's']);
        Some(1)
    } else if u.len() == 1 && u[0] == 's' {
        assert(u@ =~= seq!['s']);
        Some(1_000)
    } else if u.len() == 1 && u[0] == 'm' {
        assert(u@ =~= seq!['m']);
        Some(60_000)
    } else if u.len() == 1 && u[0] == 'h' {
        assert(u@ =~= seq!['h']);
        Some(3_600_000)
    } else {
        None
    }
}

/// Durations written one after the other add up.
pub proof fn law_durations_add_up(a: Seq<char>, b: Seq<char>, x: nat, y: nat)
    requires
        text::trimmed(a) == a,
        text::trimmed(b) == b,
        duration_ms(a) == Ok::<Option<nat>, ParseFault>(Some(x)),
        duration_ms(b) == Ok::<Option<nat>, ParseFault>(Some(y)),
        x + y <= u64::MAX,
    ensures
        duration_ms(a + b) == Ok::<Option<nat>, ParseFault>(Some(x + y)),
{
    let whole = a + b;
    text::lemma_digit_run(b);
    assert(text::is_digit(b[0])) by {
        assert(text::digit_run(b) > 0);
    }
    assert(text::is_digit(a[0])) by {
        assert(text::digit_run(a) > 0);
    }
    lemma_ends_with_unit(b, 0, b);
    assert(whole[0] == a[0] && whole.last() == b.last());
    text::lemma_trimmed_fixed(whole);
    lemma_segments_append(a, 0, b, a, whole);
    lemma_segments_shift(b, 0, x, b, whole);
}

/// Segments that are read end with a letter.
proof fn lemma_ends_with_unit(rest: Seq<char>, total: nat, input: Seq<char>)
    requires
        rest.len() > 0,
        segments(rest, total, input) is Ok,
    ensures
        is_letter(rest.last()),
    decreases rest.len(),
{
    let n = text::digit_run(rest) as int;
    text::lemma_digit_run(rest);
    let after = rest.skip(n);
    let u = unit_len(after);
    let value = text::digits_value(rest.take(n)) * unit_ms(after.take(u)).unwrap();
    if after.skip(u).len() > 0 {
        lemma_ends_with_unit(after.skip(u), total + value, input);
        assert(after.skip(u).last() == rest.last());
    } else {
        assert(rest.last() == after[u - 1]);
    }
}

/// What follows a duration is read after it.
proof fn lemma_segments_append(rest: Seq<char>, total: nat, b: Seq<char>, input: Seq<char>, whole: Seq<char>)
    requires
        segments(rest, total, input) is Ok,
        b.len() > 0,
        text::is_digit(b[0]),
    ensures
        segments(rest + b, total, whole) == segments(b, segments(rest, total, input)->Ok_0, whole),
    decreases rest.len(),
{
    if rest.len() == 0 {
        assert(rest + b =~= b);
    } else {
        let n = text::digit_run(rest) as int;
        text::lemma_digit_run(rest);
        let after = rest.skip(n);
        let u = unit_len(after);
        let value = text::digits_value(rest.take(n)) * unit_ms(after.take(u)).unwrap();
        assert(rest + b =~= rest.take(n) + (after + b));
        assert((after + b)[0] == after[0]);
        text::lemma_run_of_digits(rest.take(n), after + b);
        assert((rest + b).take(n) =~= rest.take(n));
        assert((rest + b).skip(n) =~= after + b);
        assert(unit_len(after + b) == u);
        assert((after + b).take(u) =~= after.take(u));
        assert((after + b).skip(u) =~= after.skip(u) + b);
        lemma_segments_append(after.skip(u), total + value, b, input, whole);
    }
}

/// The same segments add the same to another total.
proof fn lemma_segments_shift(rest: Seq<char>, from: nat, to: nat, input: Seq<char>, whole: Seq<char>)
    requires
        segments(rest, from, input) is Ok,
        to + (segments(rest, from, input)->Ok_0 - from) <= u64::MAX,
    ensures
        from <= segments(rest, from, input)->Ok_0,
        segments(rest, to, whole) == Ok::<nat, ParseFault>(
            (to + (segments(rest, from, input)->Ok_0 - from)) as nat,
        ),
    decreases rest.len(),
{
    if rest.len() > 0 {
        let n = text::digit_run(rest) as int;
        text::lemma_digit_run(rest);
        let after = rest.skip(n);
        let u = unit_len(after);
        let value = text::digits_value(rest.take(n)) * unit_ms(after.take(u)).unwrap();
        lemma_segments_shift(after.skip(u), from + value, to + value, input, whole);
    }
}

} // verus!
