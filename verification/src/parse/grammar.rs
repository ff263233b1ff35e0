//! What numbers with units mean.

use vstd::prelude::*;

use crate::parse::ParseFault;
use crate::parse::duration::{duration_ms, is_letter, segments, unit_len, unit_ms};
use crate::parse::rate::{rate_of, FIELD, RateLimit};
use crate::parse::size::{lemma_size_of_parts, lemma_unit_letters, multiplier, size_bytes};
use crate::text;

verus! {

/// `base` to the power of `e`.
pub open spec fn power(base: nat, e: nat) -> nat
    decreases e,
{
    if e == 0 {
        1
    } else {
        base * power(base, (e - 1) as nat)
    }
}

/// The letter for the power `e` of a thousand.
pub open spec fn letter(e: nat) -> char {
    if e == 1 {
        'K'
    } else if e == 2 {
        'M'
    } else if e == 3 {
        'G'
    } else {
        'T'
    }
}

/// A unit of size: a letter, an `i` where it is a power of 1024, and a `B` that
/// may be left out.
pub open spec fn size_unit(e: nat, binary: bool, with_b: bool) -> Seq<char> {
    seq![letter(e)] + (if binary {
        seq!['i']
    } else {
        Seq::empty()
    }) + (if with_b {
        seq!['B']
    } else {
        Seq::empty()
    })
}

proof fn lemma_unit(e: nat, binary: bool, with_b: bool)
    requires
        1 <= e <= 4,
    ensures
        multiplier(size_unit(e, binary, with_b)) == Some(
            power(
                if binary {
                    1024
                } else {
                    1000
                },
                e,
            ),
        ),
{
    lemma_unit_letters();
    reveal_with_fuel(power, 5);
    let u = size_unit(e, binary, with_b);
    assert(u[0] == letter(e));
    if binary {
        if with_b {
            assert(u =~= seq![letter(e), 'i', 'B']);
            assert(u =~= "KiB"@ || u =~= "MiB"@ || u =~= "GiB"@ || u =~= "TiB"@);
        } else {
            assert(u =~= seq![letter(e), 'i']);
            assert(u =~= "Ki"@ || u =~= "Mi"@ || u =~= "Gi"@ || u =~= "Ti"@);
        }
    } else {
        if with_b {
            assert(u =~= seq![letter(e), 'B']);
            assert(u =~= "KB"@ || u =~= "MB"@ || u =~= "GB"@ || u =~= "TB"@);
        } else {
            assert(u =~= seq![letter(e)]);
            assert(u =~= "K"@ || u =~= "M"@ || u =~= "G"@ || u =~= "T"@);
        }
    }
    assert(power(1000, 1) == 1_000 && power(1000, 2) == 1_000_000 && power(1000, 3)
        == 1_000_000_000 && power(1000, 4) == 1_000_000_000_000) by (nonlinear_arith)
        requires
            power(1000, 0) == 1,
            power(1000, 1) == 1000 * power(1000, 0),
            power(1000, 2) == 1000 * power(1000, 1),
            power(1000, 3) == 1000 * power(1000, 2),
            power(1000, 4) == 1000 * power(1000, 3),
    ;
    assert(power(1024, 1) == 1_024 && power(1024, 2) == 1_048_576 && power(1024, 3)
        == 1_073_741_824 && power(1024, 4) == 1_099_511_627_776) by (nonlinear_arith)
        requires
            power(1024, 0) == 1,
            power(1024, 1) == 1024 * power(1024, 0),
            power(1024, 2) == 1024 * power(1024, 1),
            power(1024, 3) == 1024 * power(1024, 2),
            power(1024, 4) == 1024 * power(1024, 3),
    ;
}

/// A number with a unit means as many times a power of a thousand, or of 1024
/// where an `i` says so; what does not fit in 64 bits is refused.
pub proof fn law_size_units_are_powers(
    n: nat,
    e: nat,
    binary: bool,
    with_b: bool,
    field: Seq<char>,
)
    requires
        1 <= e <= 4,
    ensures
        ({
            let written = text::decimal(n) + size_unit(e, binary, with_b);
            let bytes = n * power(
                if binary {
                    1024
                } else {
                    1000
                },
                e,
            );
            &&& n <= u64::MAX && bytes <= u64::MAX ==> size_bytes(written, field) == Ok::<
                Option<nat>,
                ParseFault,
            >(Some(bytes))
            &&& n <= u64::MAX && bytes > u64::MAX ==> size_bytes(written, field) == Err::<
                Option<nat>,
                ParseFault,
            >(ParseFault::Overflow { field, input: written })
            &&& n > u64::MAX ==> size_bytes(written, field) == Err::<Option<nat>, ParseFault>(
                ParseFault::InvalidNumber { field, number: text::decimal(n), input: written },
            )
        }),
{
    let u = size_unit(e, binary, with_b);
    lemma_unit(e, binary, with_b);
    text::lemma_decimal(n);
    assert(u[0] == letter(e));
    assert(u.last() == 'B' || u.last() == 'i' || u.last() == letter(e));
    lemma_size_of_parts(text::decimal(n), u);
}

/// A unit that is none of these, nor a plain `B`, is refused.
pub proof fn law_other_size_units_are_refused(n: u64, unit: Seq<char>, field: Seq<char>)
    requires
        unit.len() > 0,
        !text::is_digit(unit[0]),
        !text::is_white(unit.last()),
        unit != seq!['B'],
        forall|e: nat, binary: bool, with_b: bool|
            1 <= e <= 4 ==> unit != #[trigger] size_unit(e, binary, with_b),
    ensures
        size_bytes(text::decimal(n as nat) + unit, field) == Err::<Option<nat>, ParseFault>(
            ParseFault::InvalidUnit { field, unit, input: text::decimal(n as nat) + unit },
        ),
{
    text::lemma_decimal(n as nat);
    lemma_size_of_parts(text::decimal(n as nat), unit);
    lemma_unit_letters();
    assert(seq!['B'] =~= "B"@);
    assert forall|e: nat, binary: bool, with_b: bool| 1 <= e <= 4 implies unit
        != #[trigger] size_unit(e, binary, with_b) by {}
    lemma_unit_texts(1);
    lemma_unit_texts(2);
    lemma_unit_texts(3);
    lemma_unit_texts(4);
    assert("K"@ =~= seq!['K'] && "M"@ =~= seq!['M'] && "G"@ =~= seq!['G'] && "T"@ =~= seq!['T']);
    assert("KB"@ =~= seq!['K', 'B'] && "MB"@ =~= seq!['M', 'B'] && "GB"@ =~= seq!['G', 'B']
        && "TB"@ =~= seq!['T', 'B']);
    assert("Ki"@ =~= seq!['K', 'i'] && "Mi"@ =~= seq!['M', 'i'] && "Gi"@ =~= seq!['G', 'i']
        && "Ti"@ =~= seq!['T', 'i']);
    assert("KiB"@ =~= seq!['K', 'i', 'B'] && "MiB"@ =~= seq!['M', 'i', 'B'] && "GiB"@ =~= seq![
        'G',
        'i',
        'B',
    ] && "TiB"@ =~= seq!['T', 'i', 'B']);
}

proof fn lemma_unit_texts(e: nat)
    ensures
        size_unit(e, false, false) == seq![letter(e)],
        size_unit(e, false, true) == seq![letter(e), 'B'],
        size_unit(e, true, false) == seq![letter(e), 'i'],
        size_unit(e, true, true) == seq![letter(e), 'i', 'B'],
{
    assert(size_unit(e, false, false) =~= seq![letter(e)]);
    assert(size_unit(e, false, true) =~= seq![letter(e), 'B']);
    assert(size_unit(e, true, false) =~= seq![letter(e), 'i']);
    assert(size_unit(e, true, true) =~= seq![letter(e), 'i', 'B']);
}

/// A unit of time.
pub enum TimeUnit {
    Hours,
    Minutes,
    Seconds,
    Milliseconds,
}

/// How a unit of time is written.
pub open spec fn time_unit(u: TimeUnit) -> Seq<char> {
    match u {
        TimeUnit::Hours => seq!['h'],
        TimeUnit::Minutes => seq!['m'],
        TimeUnit::Seconds => seq!['s'],
        TimeUnit::Milliseconds => seq!['m', 's'],
    }
}

/// How many of the next smaller unit, down to milliseconds, a unit of time holds.
pub open spec fn in_milliseconds(u: TimeUnit) -> nat {
    match u {
        TimeUnit::Hours => 60 * 60 * 1000,
        TimeUnit::Minutes => 60 * 1000,
        TimeUnit::Seconds => 1000,
        TimeUnit::Milliseconds => 1,
    }
}

/// A number with a unit of time means as many of them; what does not fit in 64
/// bits is refused.
pub proof fn law_time_units_are_what_they_are(n: nat, u: TimeUnit)
    ensures
        ({
            let written = text::decimal(n) + time_unit(u);
            let ms = n * in_milliseconds(u);
            &&& n <= u64::MAX && ms <= u64::MAX ==> duration_ms(written) == Ok::<
                Option<nat>,
                ParseFault,
            >(Some(ms))
            &&& n > u64::MAX || ms > u64::MAX ==> duration_ms(written) is Err
        }),
{
    let unit = time_unit(u);
    let d = text::decimal(n);
    let t = d + unit;
    text::lemma_decimal(n);
    assert(text::is_digit(d[0]));
    assert(t[0] == d[0] && t.last() == unit.last());
    text::lemma_trimmed_fixed(t);
    text::lemma_run_of_digits(d, unit);
    let k = d.len() as int;
    assert(t.take(k) =~= d);
    assert(t.skip(k) =~= unit);
    assert(unit_len(unit) == unit.len());
    assert(unit.take(unit.len() as int) =~= unit);
    assert(unit.skip(unit.len() as int) =~= Seq::<char>::empty());
    assert(seq!['m', 's'].len() == 2 && seq!['m'].len() == 1);
    assert(seq!['s'][0] != seq!['m'][0] && seq!['h'][0] != seq!['m'][0] && seq!['h'][0]
        != seq!['s'][0]);
    assert(unit_ms(unit) == Some(in_milliseconds(u)));
    reveal_with_fuel(segments, 3);
    assert(text::digits_value(t.take(k)) == n);
    assert(n > u64::MAX ==> n * in_milliseconds(u) >= n) by (nonlinear_arith)
        requires
            in_milliseconds(u) >= 1,
    ;
}

/// A duration without a unit, or with another, is refused.
pub proof fn law_other_time_units_are_refused(n: u64, c: char)
    requires
        c != 'h' && c != 'm' && c != 's',
        !text::is_digit(c) && !text::is_white(c),
    ensures
        duration_ms(text::decimal(n as nat)) is Err,
        duration_ms(text::decimal(n as nat).push(c)) is Err,
{
    let d = text::decimal(n as nat);
    text::lemma_decimal(n as nat);
    assert(text::is_digit(d[0]) && text::is_digit(d.last()));
    text::lemma_trimmed_fixed(d);
    assert(d + Seq::<char>::empty() =~= d);
    text::lemma_run_of_digits(d, Seq::empty());
    let k = d.len() as int;
    assert(d.take(k) =~= d);
    let t = d.push(c);
    assert(t =~= d + seq![c]);
    assert(t[0] == d[0] && t.last() == c);
    text::lemma_trimmed_fixed(t);
    text::lemma_run_of_digits(d, seq![c]);
    assert(t.take(k) =~= d);
    assert(t.skip(k) =~= seq![c]);
    if is_letter(c) {
        assert(seq![c].take(1) =~= seq![c]);
        assert(seq![c][0] == c);
        assert(seq!['m', 's'].len() == 2);
        assert(seq!['s'][0] == 's' && seq!['m'][0] == 'm' && seq!['h'][0] == 'h');
    }
}

/// A number with `iops` limits operations; a size with `/s` limits bytes; and
/// neither the other.
pub proof fn law_rates_are_what_they_say(n: u64, size: Seq<char>, bytes: nat)
    requires
        text::trimmed(size) == size,
        size.len() > 0,
        bytes <= u64::MAX,
        size_bytes(size, FIELD@) == Ok::<Option<nat>, ParseFault>(Some(bytes)),
    ensures
        rate_of(text::decimal(n as nat) + "iops"@) == Ok::<Option<RateLimit>, ParseFault>(
            Some(RateLimit::Iops { ops_per_sec: n }),
        ),
        rate_of(size + "/s"@) == Ok::<Option<RateLimit>, ParseFault>(
            Some(RateLimit::Throughput { bytes_per_sec: bytes as u64 }),
        ),
{
    reveal_strlit("iops");
    reveal_strlit("/s");
    let d = text::decimal(n as nat);
    text::lemma_decimal(n as nat);
    assert(text::is_digit(d[0]) && text::is_digit(d.last()));
    let t = d + "iops"@;
    assert(t[0] == d[0] && t.last() == 's');
    text::lemma_trimmed_fixed(t);
    assert(t.skip(t.len() - 4) =~= "iops"@);
    assert(t.take(t.len() - 4) =~= d);
    let r = size + "/s"@;
    lemma_no_white_start(size);
    assert(r[0] == size[0] && r.last() == 's');
    text::lemma_trimmed_fixed(r);
    assert(r.skip(r.len() - 2) =~= "/s"@);
    assert(r.take(r.len() - 2) =~= size);
    if text::ends_with(r, "iops"@) {
        assert(r.skip(r.len() - 4)[2] == r[r.len() - 2]);
        assert(r[r.len() - 2] == '/');
        assert("iops"@[2] == 'p');
    }
}

proof fn lemma_shorter(s: Seq<char>)
    ensures
        text::trimmed_end(s).len() <= s.len(),
        text::trimmed_start(s).len() <= s.len(),
    decreases s.len(),
{
    if s.len() > 0 {
        lemma_shorter(s.drop_last());
        lemma_shorter(s.drop_first());
    }
}

proof fn lemma_no_white_start(s: Seq<char>)
    requires
        s.len() > 0,
        text::trimmed(s) == s,
    ensures
        !text::is_white(s[0]),
{
    if text::is_white(s[0]) {
        lemma_shorter(s.drop_first());
        lemma_shorter(text::trimmed_start(s));
    }
}

} // verus!
