//! Text as sequences of characters: trimming, digits, decimal numbers.

use vstd::prelude::*;

verus! {

/// `String::push`: appends one character.
pub assume_specification[ String::push ](s: &mut String, ch: char)
    ensures
        final(s)@ == old(s)@.push(ch),
;

/// `String::push_str`: appends the characters of a string slice.
pub assume_specification[ String::push_str ](s: &mut String, string: &str)
    ensures
        final(s)@ == old(s)@ + string@,
;

/// The characters of `s`, in order.
pub fn chars_of(s: &str) -> (r: Vec<char>)
    ensures
        r@ == s@,
{
    let mut out: Vec<char> = Vec::new();
    for c in it: s.chars()
        invariant
            out@ == it.seq().take(it.index() as int),
            it.seq() == s@,
    {
        assert(it.seq().take(it.index() as int + 1) =~= it.seq().take(it.index() as int).push(c));
        out.push(c);
    }
    assert(s@.take(s@.len() as int) =~= s@);
    out
}

/// The string made of `chars`.
pub fn string_of(chars: &Vec<char>) -> (r: String)
    ensures
        r@ == chars@,
{
    let mut out = String::new();
    let mut i: usize = 0;
    while i < chars.len()
        invariant
            i <= chars@.len(),
            out@ == chars@.take(i as int),
        decreases chars@.len() - i,
    {
        assert(chars@.take(i as int + 1) =~= chars@.take(i as int).push(chars@[i as int]));
        out.push(chars[i]);
        i += 1;
    }
    assert(chars@.take(i as int) =~= chars@);
    out
}

/// The characters of `chars` from `lo` up to and without `hi`.
pub fn sub_chars(chars: &Vec<char>, lo: usize, hi: usize) -> (r: Vec<char>)
    requires
        lo <= hi <= chars@.len(),
    ensures
        r@ == chars@.subrange(lo as int, hi as int),
{
    let mut out: Vec<char> = Vec::new();
    let mut i: usize = lo;
    while i < hi
        invariant
            lo <= i <= hi <= chars@.len(),
            out@ == chars@.subrange(lo as int, i as int),
        decreases hi - i,
    {
        assert(chars@.subrange(lo as int, i as int + 1) =~= chars@.subrange(lo as int, i as int).push(
            chars@[i as int],
        ));
        out.push(chars[i]);
        i += 1;
    }
    out
}

/// Whether two string slices hold the same characters.
pub fn str_eq(a: &str, b: &str) -> (r: bool)
    ensures
        r == (a@ == b@),
{
    a.to_owned() == b.to_owned()
}

/// The characters with the Unicode property White_Space.
pub open spec fn is_white(c: char) -> bool {
    let n = c as u32;
    ||| 0x09 <= n <= 0x0d
    ||| n == 0x20
    ||| n == 0x85
    ||| n == 0xa0
    ||| n == 0x1680
    ||| 0x2000 <= n <= 0x200a
    ||| n == 0x2028
    ||| n == 0x2029
    ||| n == 0x202f
    ||| n == 0x205f
    ||| n == 0x3000
}

/// Whether `c` is white space.
pub fn white(c: char) -> (r: bool)
    ensures
        r == is_white(c),
{
    let n: u32 = c as u32;
    (0x09 <= n && n <= 0x0d) || n == 0x20 || n == 0x85 || n == 0xa0 || n == 0x1680 || (0x2000 <= n
        && n <= 0x200a) || n == 0x2028 || n == 0x2029 || n == 0x202f || n == 0x205f || n == 0x3000
}

/// `s` without the white space at its start.
pub open spec fn trimmed_start(s: Seq<char>) -> Seq<char>
    decreases s.len(),
{
    if s.len() > 0 && is_white(s[0]) {
        trimmed_start(s.drop_first())
    } else {
        s
    }
}

/// `s` without the white space at its end.
pub open spec fn trimmed_end(s: Seq<char>) -> Seq<char>
    decreases s.len(),
{
    if s.len() > 0 && is_white(s.last()) {
        trimmed_end(s.drop_last())
    } else {
        s
    }
}

/// `s` without the white space at either end.
pub open spec fn trimmed(s: Seq<char>) -> Seq<char> {
    trimmed_end(trimmed_start(s))
}

/// Removes the white space at the end of `chars`.
pub fn trim_end(chars: &Vec<char>) -> (r: Vec<char>)
    ensures
        r@ == trimmed_end(chars@),
{
    let mut hi: usize = chars.len();
    assert(chars@.take(hi as int) =~= chars@);
    while hi > 0 && white(chars[hi - 1])
        invariant
            hi <= chars@.len(),
            trimmed_end(chars@.take(hi as int)) == trimmed_end(chars@),
        decreases hi,
    {
        assert(chars@.take(hi as int).drop_last() =~= chars@.take(hi as int - 1));
        hi -= 1;
    }
    assert(chars@.take(hi as int) =~= chars@.subrange(0, hi as int));
    sub_chars(chars, 0, hi)
}

/// Removes the white space at both ends of `chars`.
pub fn trim(chars: &Vec<char>) -> (r: Vec<char>)
    ensures
        r@ == trimmed(chars@),
{
    let mut lo: usize = 0;
    assert(chars@.skip(0) =~= chars@);
    while lo < chars.len() && white(chars[lo])
        invariant
            lo <= chars@.len(),
            trimmed_start(chars@.skip(lo as int)) == trimmed_start(chars@),
        decreases chars@.len() - lo,
    {
        assert(chars@.skip(lo as int).drop_first() =~= chars@.skip(lo as int + 1));
        lo += 1;
    }
    let rest = sub_chars(chars, lo, chars.len());
    assert(rest@ =~= chars@.skip(lo as int));
    trim_end(&rest)
}

/// The decimal digits.
pub open spec fn is_digit(c: char) -> bool {
    '0' <= c <= '9'
}

/// How many digits `s` starts with.
pub open spec fn digit_run(s: Seq<char>) -> nat
    decreases s.len(),
{
    if s.len() > 0 && is_digit(s[0]) {
        1 + digit_run(s.drop_first())
    } else {
        0
    }
}

/// The number that the digits of `s` write, most significant first.
pub open spec fn digits_value(s: Seq<char>) -> nat
    decreases s.len(),
{
    if s.len() == 0 {
        0
    } else {
        10 * digits_value(s.drop_last()) + (s.last() as nat - '0' as nat) as nat
    }
}

/// Whether `s` holds digits only.
pub open spec fn all_digits(s: Seq<char>) -> bool {
    forall|i: int| 0 <= i < s.len() ==> is_digit(#[trigger] s[i])
}

/// A run of digits lies inside the text, holds digits only, and ends before a
/// character that is none.
pub proof fn lemma_digit_run(s: Seq<char>)
    ensures
        digit_run(s) <= s.len(),
        all_digits(s.take(digit_run(s) as int)),
        digit_run(s) < s.len() ==> !is_digit(s[digit_run(s) as int]),
    decreases s.len(),
{
    if s.len() > 0 && is_digit(s[0]) {
        lemma_digit_run(s.drop_first());
        let n = digit_run(s.drop_first());
        assert forall|i: int| 0 <= i < n + 1 implies is_digit(#[trigger] s.take(n as int + 1)[i]) by {
            if i > 0 {
                assert(s.drop_first().take(n as int)[i - 1] == s[i]);
            }
        }
    }
}

/// More digits write no smaller number.
pub proof fn lemma_digits_grow(s: Seq<char>, i: int)
    requires
        0 <= i <= s.len(),
    ensures
        digits_value(s.take(i)) <= digits_value(s),
    decreases s.len() - i,
{
    if i == s.len() {
        assert(s.take(i) =~= s);
    } else {
        lemma_digits_grow(s, i + 1);
        assert(s.take(i + 1).drop_last() =~= s.take(i));
    }
}

/// How many digits stand in `chars` from `from` on.
pub fn digits_from(chars: &Vec<char>, from: usize) -> (n: usize)
    requires
        from <= chars@.len(),
    ensures
        n == digit_run(chars@.skip(from as int)),
        from + n <= chars@.len(),
{
    let mut i: usize = from;
    while i < chars.len() && '0' <= chars[i] && chars[i] <= '9'
        invariant
            from <= i <= chars@.len(),
            digit_run(chars@.skip(from as int)) == (i - from) + digit_run(chars@.skip(i as int)),
        decreases chars@.len() - i,
    {
        assert(chars@.skip(i as int).drop_first() =~= chars@.skip(i as int + 1));
        i += 1;
    }
    i - from
}

/// The number written by the digits of `chars`; `None` where it needs more
/// than 64 bits.
pub fn number_of(chars: &Vec<char>) -> (r: Option<u64>)
    requires
        all_digits(chars@),
    ensures
        r matches Some(v) ==> v == digits_value(chars@),
        r is None <==> digits_value(chars@) > u64::MAX,
{
    let mut v: u64 = 0;
    let mut i: usize = 0;
    while i < chars.len()
        invariant
            i <= chars@.len(),
            all_digits(chars@),
            v == digits_value(chars@.take(i as int)),
        decreases chars@.len() - i,
    {
        assert(is_digit(chars@[i as int]));
        let d: u64 = chars[i] as u64 - '0' as u64;
        proof {
            assert(chars@.take(i as int + 1).drop_last() =~= chars@.take(i as int));
            lemma_digits_grow(chars@, i as int + 1);
        }
        let w: u128 = v as u128 * 10 + d as u128;
        if w > u64::MAX as u128 {
            return None;
        }
        v = w as u64;
        i += 1;
    }
    assert(chars@.take(i as int) =~= chars@);
    Some(v)
}

/// The digit that writes `d`.
pub open spec fn digit_char(d: nat) -> char {
    ('0' as nat + d) as char
}

/// The decimal form of `n`, without leading zeros.
pub open spec fn decimal(n: nat) -> Seq<char>
    decreases n,
{
    if n < 10 {
        seq![digit_char(n)]
    } else {
        decimal(n / 10).push(digit_char(n % 10))
    }
}

/// The decimal form of `i`, with a sign where it is negative.
pub open spec fn signed_decimal(i: int) -> Seq<char> {
    if i < 0 {
        seq!['-'] + decimal((-i) as nat)
    } else {
        decimal(i as nat)
    }
}

/// The digit that writes `d`.
fn digit_of(d: u128) -> (c: char)
    requires
        d < 10,
    ensures
        c == digit_char(d as nat),
{
    match d {
        0 => '0',
        1 => '1',
        2 => '2',
        3 => '3',
        4 => '4',
        5 => '5',
        6 => '6',
        7 => '7',
        8 => '8',
        _ => '9',
    }
}

/// Writes `n` in decimal.
pub fn decimal_of(n: u128) -> (r: String)
    ensures
        r@ == decimal(n as nat),
    decreases n,
{
    if n < 10 {
        let mut s = String::new();
        s.push(digit_of(n));
        assert(s@ =~= decimal(n as nat));
        s
    } else {
        let mut s = decimal_of(n / 10);
        s.push(digit_of(n % 10));
        s
    }
}

/// Writes `i` in decimal, with a sign where it is negative.
pub fn signed_decimal_of(i: i64) -> (r: String)
    ensures
        r@ == signed_decimal(i as int),
{
    if i < 0 {
        let mut s = String::new();
        s.push('-');
        let magnitude: i128 = -(i as i128);
        let digits = decimal_of(magnitude as u128);
        s.push_str(digits.as_str());
        assert(s@ =~= signed_decimal(i as int));
        s
    } else {
        decimal_of(i as u128)
    }
}

/// Writing a number and reading it back gives the number.
pub proof fn lemma_decimal(n: nat)
    ensures
        all_digits(decimal(n)),
        decimal(n).len() > 0,
        digits_value(decimal(n)) == n,
    decreases n,
{
    if n < 10 {
        assert(decimal(n).drop_last() =~= Seq::<char>::empty());
        assert(digits_value(Seq::<char>::empty()) == 0);
    } else {
        lemma_decimal(n / 10);
        assert(decimal(n).drop_last() =~= decimal(n / 10));
        assert forall|i: int| 0 <= i < decimal(n).len() implies is_digit(#[trigger] decimal(n)[i]) by {
            if i < decimal(n / 10).len() {
                assert(decimal(n)[i] == decimal(n / 10)[i]);
            }
        }
    }
}

/// A text of digits is one run, whatever that is no digit follows it.
pub proof fn lemma_run_of_digits(d: Seq<char>, rest: Seq<char>)
    requires
        all_digits(d),
        rest.len() > 0 ==> !is_digit(rest[0]),
    ensures
        digit_run(d + rest) == d.len(),
    decreases d.len(),
{
    if d.len() == 0 {
        assert(d + rest =~= rest);
    } else {
        assert(is_digit(d[0]));
        assert((d + rest)[0] == d[0]);
        assert((d + rest).drop_first() =~= d.drop_first() + rest);
        assert forall|i: int| 0 <= i < d.drop_first().len() implies is_digit(
            #[trigger] d.drop_first()[i],
        ) by {
            assert(d.drop_first()[i] == d[i + 1]);
        }
        lemma_run_of_digits(d.drop_first(), rest);
    }
}

/// A text without white space at its ends is its own trimmed form.
pub proof fn lemma_trimmed_fixed(s: Seq<char>)
    requires
        s.len() > 0 ==> !is_white(s[0]) && !is_white(s.last()),
    ensures
        trimmed(s) == s,
{
}

/// Whether `s` ends with `suffix`.
pub open spec fn ends_with(s: Seq<char>, suffix: Seq<char>) -> bool {
    s.len() >= suffix.len() && s.skip(s.len() - suffix.len()) == suffix
}

/// Whether `s` starts with `prefix`.
pub open spec fn starts_with(s: Seq<char>, prefix: Seq<char>) -> bool {
    s.len() >= prefix.len() && s.take(prefix.len() as int) == prefix
}

/// The part of `chars` before `suffix`, where it ends with it.
pub fn strip_suffix(chars: &Vec<char>, suffix: &str) -> (r: Option<Vec<char>>)
    ensures
        r matches Some(v) ==> ends_with(chars@, suffix@) && v@ == chars@.take(
            chars@.len() - suffix@.len(),
        ),
        r is None ==> !ends_with(chars@, suffix@),
{
    let tail = chars_of(suffix);
    if chars.len() < tail.len() {
        return None;
    }
    let cut: usize = chars.len() - tail.len();
    let mut i: usize = 0;
    while i < tail.len()
        invariant
            cut + tail@.len() == chars.len(),
            i <= tail@.len(),
            tail@ == suffix@,
            forall|j: int| 0 <= j < i ==> chars@[cut + j] == tail@[j],
        decreases tail@.len() - i,
    {
        if chars[cut + i] != tail[i] {
            assert(chars@.skip(cut as int)[i as int] != suffix@[i as int]);
            return None;
        }
        i += 1;
    }
    assert(chars@.skip(cut as int) =~= suffix@);
    assert(chars@.take(cut as int) =~= chars@.subrange(0, cut as int));
    Some(sub_chars(chars, 0, cut))
}

/// The number that `s` writes as an optional `+` and one or more digits, where
/// it fits in 64 bits.
pub open spec fn unsigned_literal(s: Seq<char>) -> Option<nat> {
    let body = if s.len() > 0 && s[0] == '+' { s.drop_first() } else { s };
    if body.len() > 0 && all_digits(body) && digits_value(body) <= u64::MAX {
        Some(digits_value(body))
    } else {
        None
    }
}

/// Reads an optional `+` and digits.
pub fn unsigned_of(chars: &Vec<char>) -> (r: Option<u64>)
    ensures
        r matches Some(v) ==> unsigned_literal(chars@) == Some(v as nat),
        r is None ==> unsigned_literal(chars@) is None,
{
    let from: usize = if chars.len() > 0 && chars[0] == '+' { 1 } else { 0 };
    let body = sub_chars(chars, from, chars.len());
    assert(body@ =~= if chars@.len() > 0 && chars@[0] == '+' { chars@.drop_first() } else { chars@ });
    if body.len() == 0 {
        return None;
    }
    let n: usize = digits_from(&body, 0);
    assert(body@.skip(0) =~= body@);
    proof {
        lemma_digit_run(body@);
    }
    if n < body.len() {
        return None;
    }
    assert(body@.take(n as int) =~= body@);
    number_of(&body)
}

/// The characters of each string.
pub open spec fn views(v: Seq<String>) -> Seq<Seq<char>> {
    v.map_values(|x: String| x@)
}

/// The parts of `s` between the separators `sep`; one more than there are
/// separators.
pub open spec fn split(s: Seq<char>, sep: char) -> Seq<Seq<char>>
    decreases s.len(),
{
    if s.len() == 0 {
        seq![Seq::<char>::empty()]
    } else {
        let parts = split(s.drop_last(), sep);
        if s.last() == sep {
            parts.push(Seq::<char>::empty())
        } else {
            parts.drop_last().push(parts.last().push(s.last()))
        }
    }
}

/// The parts with `sep` between each two of them.
pub open spec fn joined(parts: Seq<Seq<char>>, sep: Seq<char>) -> Seq<char>
    decreases parts.len(),
{
    if parts.len() == 0 {
        Seq::empty()
    } else if parts.len() == 1 {
        parts[0]
    } else {
        joined(parts.drop_last(), sep) + sep + parts.last()
    }
}

/// A text has at least one part, and no part holds the separator.
pub proof fn lemma_split_parts(s: Seq<char>, sep: char)
    ensures
        split(s, sep).len() >= 1,
        forall|i: int| 0 <= i < split(s, sep).len() ==> !(#[trigger] split(s, sep)[i]).contains(sep),
    decreases s.len(),
{
    if s.len() > 0 {
        let parts = split(s.drop_last(), sep);
        lemma_split_parts(s.drop_last(), sep);
        assert forall|i: int| 0 <= i < split(s, sep).len() implies !(#[trigger] split(
            s,
            sep,
        )[i]).contains(sep) by {
            if i < parts.len() - 1 {
                assert(split(s, sep)[i] == parts[i]);
            } else if s.last() == sep {
                if i == parts.len() - 1 {
                    assert(split(s, sep)[i] == parts[i]);
                }
            } else {
                assert(!parts.last().contains(sep));
                let grown = parts.last().push(s.last());
                if grown.contains(sep) {
                    let k = choose|k: int| 0 <= k < grown.len() && grown[k] == sep;
                    assert(parts.last()[k] == sep);
                    assert(parts.last().contains(sep));
                }
            }
        }
    }
}

/// Splitting a text, a separator and a part without separator gives the parts
/// of the text and that part.
pub proof fn lemma_split_append(a: Seq<char>, x: Seq<char>, sep: char)
    requires
        !x.contains(sep),
    ensures
        split(a + seq![sep] + x, sep) == split(a, sep).push(x),
    decreases x.len(),
{
    let whole = a + seq![sep] + x;
    if x.len() == 0 {
        assert(whole.drop_last() =~= a);
        assert(whole.last() == sep);
        assert(x =~= Seq::<char>::empty());
    } else {
        let shorter = x.drop_last();
        assert(!shorter.contains(sep)) by {
            if shorter.contains(sep) {
                let k = choose|k: int| 0 <= k < shorter.len() && shorter[k] == sep;
                assert(x[k] == sep);
            }
        }
        lemma_split_append(a, shorter, sep);
        assert(whole.drop_last() =~= a + seq![sep] + shorter);
        assert(whole.last() == x.last());
        assert(x.contains(x.last()));
        assert(split(a, sep).push(shorter).drop_last() =~= split(a, sep));
        assert(shorter.push(x.last()) =~= x);
    }
}

/// A text without separator is its own single part.
pub proof fn lemma_split_single(x: Seq<char>, sep: char)
    requires
        !x.contains(sep),
    ensures
        split(x, sep) == seq![x],
    decreases x.len(),
{
    if x.len() > 0 {
        let shorter = x.drop_last();
        assert(!shorter.contains(sep)) by {
            if shorter.contains(sep) {
                let k = choose|k: int| 0 <= k < shorter.len() && shorter[k] == sep;
                assert(x[k] == sep);
            }
        }
        lemma_split_single(shorter, sep);
        assert(x.contains(x.last()));
        assert(shorter.push(x.last()) =~= x);
        assert(split(x, sep) =~= seq![x]);
    } else {
        assert(x =~= Seq::<char>::empty());
    }
}

/// Splitting what was joined gives the parts back.
pub proof fn lemma_split_joined(parts: Seq<Seq<char>>, sep: char)
    requires
        parts.len() > 0,
        forall|i: int| 0 <= i < parts.len() ==> !(#[trigger] parts[i]).contains(sep),
    ensures
        split(joined(parts, seq![sep]), sep) == parts,
    decreases parts.len(),
{
    if parts.len() == 1 {
        lemma_split_single(parts[0], sep);
        assert(parts =~= seq![parts[0]]);
    } else {
        let head = parts.drop_last();
        assert forall|i: int| 0 <= i < head.len() implies !(#[trigger] head[i]).contains(sep) by {
            assert(head[i] == parts[i]);
        }
        lemma_split_joined(head, sep);
        lemma_split_append(joined(head, seq![sep]), parts.last(), sep);
        assert(head.push(parts.last()) =~= parts);
    }
}

/// Splits `s` at each `sep`.
pub fn split_at_char(s: &str, sep: char) -> (r: Vec<String>)
    ensures
        views(r@) == split(s@, sep),
{
    let cs = chars_of(s);
    let mut out: Vec<String> = Vec::new();
    let mut part = String::new();
    let mut i: usize = 0;
    assert(cs@.take(0) =~= Seq::<char>::empty());
    assert(views(out@).push(part@) =~= seq![Seq::<char>::empty()]);
    while i < cs.len()
        invariant
            i <= cs@.len(),
            views(out@).push(part@) == split(cs@.take(i as int), sep),
        decreases cs@.len() - i,
    {
        let c: char = cs[i];
        let ghost before = cs@.take(i as int);
        let ghost after = cs@.take(i as int + 1);
        proof {
            assert(after.drop_last() =~= before);
            assert(after.last() == c);
            assert(views(out@).push(part@).drop_last() =~= views(out@));
        }
        if c == sep {
            let ghost old_out = out@;
            let ghost old_part = part@;
            out.push(part);
            assert(views(out@) =~= views(old_out).push(old_part));
            part = String::new();
        } else {
            part.push(c);
        }
        i += 1;
    }
    assert(cs@.take(i as int) =~= cs@);
    let ghost old_out = out@;
    let ghost old_part = part@;
    out.push(part);
    assert(views(out@) =~= views(old_out).push(old_part));
    out
}

/// Joins `parts` with `sep` between each two of them.
pub fn join_with(parts: &Vec<String>, sep: &str) -> (r: String)
    ensures
        r@ == joined(views(parts@), sep@),
{
    let mut out = String::new();
    let mut i: usize = 0;
    while i < parts.len()
        invariant
            i <= parts@.len(),
            out@ == joined(views(parts@).take(i as int), sep@),
        decreases parts@.len() - i,
    {
        let ghost next = views(parts@).take(i as int + 1);
        proof {
            assert(next.drop_last() =~= views(parts@).take(i as int));
            assert(next.last() == parts@[i as int]@);
        }
        if i > 0 {
            out.push_str(sep);
        }
        out.push_str(parts[i].as_str());
        assert(out@ =~= joined(next, sep@));
        i += 1;
    }
    assert(views(parts@).take(i as int) =~= views(parts@));
    out
}

/// The parts that hold a character.
pub open spec fn nonempty(parts: Seq<Seq<char>>) -> Seq<Seq<char>>
    decreases parts.len(),
{
    if parts.len() == 0 {
        Seq::empty()
    } else if parts.last().len() == 0 {
        nonempty(parts.drop_last())
    } else {
        nonempty(parts.drop_last()).push(parts.last())
    }
}

/// What remains is taken from the parts, and none of it is empty.
pub proof fn lemma_nonempty(parts: Seq<Seq<char>>)
    ensures
        forall|i: int|
            0 <= i < nonempty(parts).len() ==> (#[trigger] nonempty(parts)[i]).len() > 0
                && parts.contains(nonempty(parts)[i]),
        forall|i: int|
            0 <= i < parts.len() && (#[trigger] parts[i]).len() > 0 ==> nonempty(parts).contains(
                parts[i],
            ),
    decreases parts.len(),
{
    if parts.len() > 0 {
        let head = parts.drop_last();
        lemma_nonempty(head);
        let out = nonempty(parts);
        assert forall|i: int| 0 <= i < out.len() implies (#[trigger] out[i]).len() > 0
            && parts.contains(out[i]) by {
            if i < nonempty(head).len() {
                assert(out[i] == nonempty(head)[i]);
                assert(head.contains(out[i]));
                let k = choose|k: int| 0 <= k < head.len() && head[k] == out[i];
                assert(parts[k] == out[i]);
            } else {
                assert(parts[parts.len() - 1] == out[i]);
            }
        }
        assert forall|i: int| 0 <= i < parts.len() && (#[trigger] parts[i]).len() > 0 implies out.contains(
            parts[i],
        ) by {
            if i < head.len() {
                assert(head[i] == parts[i]);
                let k = choose|k: int| 0 <= k < nonempty(head).len() && nonempty(head)[k] == parts[i];
                assert(out[k] == parts[i]);
            } else {
                assert(out.last() == parts[i]);
            }
        }
    }
}

/// Parts that are all non-empty are kept as they are.
pub proof fn lemma_nonempty_fixed(parts: Seq<Seq<char>>)
    requires
        forall|i: int| 0 <= i < parts.len() ==> (#[trigger] parts[i]).len() > 0,
    ensures
        nonempty(parts) == parts,
    decreases parts.len(),
{
    if parts.len() > 0 {
        assert forall|i: int| 0 <= i < parts.drop_last().len() implies (#[trigger] parts.drop_last()[i]).len()
            > 0 by {
            assert(parts.drop_last()[i] == parts[i]);
        }
        lemma_nonempty_fixed(parts.drop_last());
        assert(parts.drop_last().push(parts.last()) =~= parts);
    }
}

/// Leaving out the empty parts of two lists, one after the other.
pub proof fn lemma_nonempty_append(a: Seq<Seq<char>>, b: Seq<Seq<char>>)
    ensures
        nonempty(a + b) == nonempty(a) + nonempty(b),
    decreases b.len(),
{
    if b.len() == 0 {
        assert(a + b =~= a);
        assert(nonempty(a) + nonempty(b) =~= nonempty(a));
    } else {
        lemma_nonempty_append(a, b.drop_last());
        assert((a + b).drop_last() =~= a + b.drop_last());
        assert(nonempty(a + b) =~= nonempty(a) + nonempty(b));
    }
}

/// Splitting two texts with a separator between them.
pub proof fn lemma_split_concat(a: Seq<char>, b: Seq<char>, sep: char)
    ensures
        split(a + seq![sep] + b, sep) == split(a, sep) + split(b, sep),
    decreases b.len(),
{
    let whole = a + seq![sep] + b;
    if b.len() == 0 {
        assert(whole.drop_last() =~= a);
        assert(split(whole, sep) =~= split(a, sep) + split(b, sep));
    } else {
        lemma_split_concat(a, b.drop_last(), sep);
        assert(whole.drop_last() =~= a + seq![sep] + b.drop_last());
        lemma_split_parts(b.drop_last(), sep);
        let l = split(a, sep);
        let r = split(b.drop_last(), sep);
        assert((l + r).last() == r.last());
        assert((l + r).drop_last() =~= l + r.drop_last());
        assert(split(whole, sep) =~= l + split(b, sep));
    }
}

/// The debug form of a text, in double quotes with escapes.
pub uninterp spec fn quoted_text(s: Seq<char>) -> Seq<char>;

/// `format!` with `{:?}` on a string slice. The result depends on the
/// characters alone; how it escapes them is left open.
#[verifier::external_body]
pub(crate) fn quoted(s: &str) -> (r: String)
    ensures
        r@ == quoted_text(s@),
{
    format!("{:?}", s)
}

/// The debug form of a character, in single quotes with escapes.
pub uninterp spec fn quoted_char_text(c: char) -> Seq<char>;

/// `format!` with `{:?}` on a character. The result depends on the character
/// alone; how it escapes it is left open.
#[verifier::external_body]
pub(crate) fn quoted_char(c: char) -> (r: String)
    ensures
        r@ == quoted_char_text(c),
{
    format!("{:?}", c)
}

/// Whether `chars` starts with `prefix`.
pub fn has_prefix(chars: &Vec<char>, prefix: &str) -> (r: bool)
    ensures
        r == starts_with(chars@, prefix@),
{
    let p = chars_of(prefix);
    if p.len() > chars.len() {
        return false;
    }
    let mut i: usize = 0;
    while i < p.len()
        invariant
            i <= p@.len() <= chars@.len(),
            p@ == prefix@,
            chars@.take(i as int) == p@.take(i as int),
        decreases p@.len() - i,
    {
        if chars[i] != p[i] {
            assert(chars@.take(p@.len() as int)[i as int] != p@[i as int]);
            return false;
        }
        assert(chars@.take(i as int + 1) =~= p@.take(i as int + 1));
        i += 1;
    }
    assert(p@.take(i as int) =~= p@);
    true
}

/// A letter between `A` and `Z` as a small letter; any other character as it
/// is.
pub open spec fn lower(c: char) -> char {
    if 'A' <= c <= 'Z' {
        (c as u32 + 32) as char
    } else {
        c
    }
}

/// `s` with small letters in place of `A` to `Z`.
pub open spec fn lowered(s: Seq<char>) -> Seq<char> {
    s.map_values(|c: char| lower(c))
}

/// Writes `chars` with small letters in place of `A` to `Z`.
pub fn to_lower(chars: &Vec<char>) -> (r: String)
    ensures
        r@ == lowered(chars@),
{
    let mut out = String::new();
    let mut i: usize = 0;
    assert(out@ =~= lowered(chars@.take(0)));
    while i < chars.len()
        invariant
            i <= chars@.len(),
            out@ == lowered(chars@.take(i as int)),
        decreases chars@.len() - i,
    {
        let c: char = chars[i];
        if 'A' <= c && c <= 'Z' {
            let small: u8 = c as u8 + 32;
            out.push(small as char);
        } else {
            out.push(c);
        }
        assert(out@ =~= lowered(chars@.take(i as int + 1)));
        i += 1;
    }
    assert(chars@.take(i as int) =~= chars@);
    out
}

/// `n` times the character `c`.
pub open spec fn repeated(c: char, n: int) -> Seq<char> {
    Seq::new(
        if n > 0 {
            n as nat
        } else {
            0
        },
        |i: int| c,
    )
}

/// Adds the character `c`, `n` times.
pub fn push_repeated(s: &mut String, c: char, n: usize)
    ensures
        final(s)@ == old(s)@ + repeated(c, n as int),
{
    let ghost before = s@;
    let mut i: usize = 0;
    assert(before =~= before + repeated(c, 0));
    while i < n
        invariant
            i <= n,
            s@ == before + repeated(c, i as int),
        decreases n - i,
    {
        s.push(c);
        i += 1;
        assert(s@ =~= before + repeated(c, i as int));
    }
}

/// `s` with spaces behind it, up to `width` characters.
pub open spec fn pad_right(s: Seq<char>, width: int) -> Seq<char> {
    s + repeated(' ', width - s.len())
}

/// `s` with spaces before it, up to `width` characters.
pub open spec fn pad_left(s: Seq<char>, width: int) -> Seq<char> {
    repeated(' ', width - s.len()) + s
}

/// Adds `part` with spaces behind it, up to `width` characters.
pub fn push_padded(s: &mut String, part: &str, width: usize)
    ensures
        final(s)@ == old(s)@ + pad_right(part@, width as int),
{
    let n: usize = chars_of(part).len();
    let ghost before = s@;
    s.push_str(part);
    if n < width {
        push_repeated(s, ' ', width - n);
    }
    assert(s@ =~= before + pad_right(part@, width as int));
}

/// Adds `part` with spaces before it, up to `width` characters.
pub fn push_aligned(s: &mut String, part: &str, width: usize)
    ensures
        final(s)@ == old(s)@ + pad_left(part@, width as int),
{
    let n: usize = chars_of(part).len();
    let ghost before = s@;
    if n < width {
        push_repeated(s, ' ', width - n);
    }
    s.push_str(part);
    assert(s@ =~= before + pad_left(part@, width as int));
}

} // verus!
