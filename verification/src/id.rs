//! Worker ids: `<hostname>-<pid>-<uuid8>` over the characters
//! `[A-Za-z0-9._-]`, so that an id can stand in a path without escapes.

use vstd::prelude::*;

use crate::text;

verus! {

/// The longest id, in bytes.
pub const MAX_LEN: usize = 128;

/// Why a text is no worker id.
#[derive(Debug, PartialEq, Eq, Clone, Copy, Structural)]
pub enum WorkerIdError {
    Empty,
    TooLong(usize),
    BadChar { ch: char },
}

/// The characters that an id may hold.
pub open spec fn allowed(c: char) -> bool {
    ('a' <= c <= 'z') || ('A' <= c <= 'Z') || ('0' <= c <= '9') || c == '.' || c == '_' || c == '-'
}

/// The first character of `s` that an id may not hold.
pub open spec fn first_forbidden(s: Seq<char>) -> Option<char>
    decreases s.len(),
{
    if s.len() == 0 {
        None
    } else if !allowed(s[0]) {
        Some(s[0])
    } else {
        first_forbidden(s.drop_first())
    }
}

/// How many bytes a text takes.
pub open spec fn byte_len(s: Seq<char>) -> usize {
    vstd::utf8::encode_utf8(s).len() as usize
}

/// The result of checking the text `id`.
pub open spec fn id_check(id: Seq<char>) -> Result<(), WorkerIdError> {
    if id.len() == 0 {
        Err(WorkerIdError::Empty)
    } else if byte_len(id) > MAX_LEN {
        Err(WorkerIdError::TooLong(byte_len(id)))
    } else {
        match first_forbidden(id) {
            Some(ch) => Err(WorkerIdError::BadChar { ch }),
            None => Ok(()),
        }
    }
}

/// The text that shows an error.
pub open spec fn id_error_text(e: WorkerIdError) -> Seq<char> {
    match e {
        WorkerIdError::Empty => "worker_id is empty"@,
        WorkerIdError::TooLong(n) => "worker_id length "@ + text::decimal(n as nat)
            + " exceeds 128"@,
        WorkerIdError::BadChar { ch } => "worker_id contains forbidden character "@
            + text::quoted_char_text(ch),
    }
}

impl WorkerIdError {
    /// The error as a message.
    pub fn message(&self) -> (r: String)
        ensures
            r@ == id_error_text(*self),
    {
        match self {
            WorkerIdError::Empty => "worker_id is empty".to_owned(),
            WorkerIdError::TooLong(n) => {
                let mut s = "worker_id length ".to_owned();
                s.push_str(text::decimal_of(*n as u128).as_str());
                s.push_str(" exceeds 128");
                s
            },
            WorkerIdError::BadChar { ch } => {
                let mut s = "worker_id contains forbidden character ".to_owned();
                s.push_str(text::quoted_char(*ch).as_str());
                s
            },
        }
    }
}

/// Whether an id may hold `c`.
fn is_allowed(c: char) -> (r: bool)
    ensures
        r == allowed(c),
{
    ('a' <= c && c <= 'z') || ('A' <= c && c <= 'Z') || ('0' <= c && c <= '9') || c == '.' || c
        == '_' || c == '-'
}

/// Checks that `id` is not empty, has at most [`MAX_LEN`] bytes and holds only
/// characters that an id may hold.
pub fn validate(id: &str) -> (r: Result<(), WorkerIdError>)
    ensures
        r == id_check(id@),
{
    if id.is_empty() {
        return Err(WorkerIdError::Empty);
    }
    if id.len() > MAX_LEN {
        return Err(WorkerIdError::TooLong(id.len()));
    }
    let cs = text::chars_of(id);
    let mut i: usize = 0;
    assert(cs@.skip(0) =~= cs@);
    while i < cs.len()
        invariant
            i <= cs@.len(),
            first_forbidden(cs@) == first_forbidden(cs@.skip(i as int)),
            cs@ == id@,
            id@.len() > 0,
            id.len() <= MAX_LEN,
        decreases cs@.len() - i,
    {
        let ch: char = cs[i];
        assert(cs@.skip(i as int).drop_first() =~= cs@.skip(i as int + 1));
        if !is_allowed(ch) {
            return Err(WorkerIdError::BadChar { ch });
        }
        i += 1;
    }
    Ok(())
}

/// `raw` with `_` for every character that an id may not hold, and `unknown`
/// for an empty text.
pub open spec fn sanitized(raw: Seq<char>) -> Seq<char> {
    if raw.len() == 0 {
        "unknown"@
    } else {
        raw.map_values(|c: char| if allowed(c) { c } else { '_' })
    }
}

/// Makes a hostname fit for an id.
pub fn sanitize_hostname(raw: &str) -> (r: String)
    ensures
        r@ == sanitized(raw@),
{
    if raw.is_empty() {
        return "unknown".to_owned();
    }
    let cs = text::chars_of(raw);
    let mut out = String::new();
    let mut i: usize = 0;
    let ghost f = |c: char| if allowed(c) { c } else { '_' };
    while i < cs.len()
        invariant
            i <= cs@.len(),
            out@ == cs@.take(i as int).map_values(f),
            f == (|c: char| if allowed(c) { c } else { '_' }),
        decreases cs@.len() - i,
    {
        let c: char = cs[i];
        out.push(if is_allowed(c) { c } else { '_' });
        assert(out@ =~= cs@.take(i as int + 1).map_values(f));
        i += 1;
    }
    assert(cs@.take(i as int) =~= cs@);
    out
}

/// `s` without the line feeds at its end.
pub open spec fn without_line_feeds(s: Seq<char>) -> Seq<char>
    decreases s.len(),
{
    if s.len() > 0 && s.last() == '\n' {
        without_line_feeds(s.drop_last())
    } else {
        s
    }
}

/// The hostname out of what the system gave: without the line feeds at its
/// end, and `unknown` where nothing is left or nothing was given.
pub open spec fn hostname_from(raw: Option<Seq<char>>) -> Seq<char> {
    match raw {
        Some(s) => if without_line_feeds(s).len() > 0 {
            without_line_feeds(s)
        } else {
            "unknown"@
        },
        None => "unknown"@,
    }
}

/// The hostname out of the text that the system gave, or a default.
pub fn hostname_or_default(raw: Option<&str>) -> (r: String)
    ensures
        r@ == hostname_from(match raw {
            Some(s) => Some(s@),
            None => None,
        }),
{
    if let Some(s) = raw {
        let cs = text::chars_of(s);
        let mut hi: usize = cs.len();
        assert(cs@.take(hi as int) =~= cs@);
        while hi > 0 && cs[hi - 1] == '\n'
            invariant
                hi <= cs@.len(),
                without_line_feeds(cs@.take(hi as int)) == without_line_feeds(cs@),
            decreases hi,
        {
            assert(cs@.take(hi as int).drop_last() =~= cs@.take(hi as int - 1));
            hi -= 1;
        }
        if hi > 0 {
            assert(cs@.subrange(0, hi as int) =~= cs@.take(hi as int));
            return text::string_of(&text::sub_chars(&cs, 0, hi));
        }
    }
    "unknown".to_owned()
}

/// The digits of a hexadecimal number in lower case.
pub open spec fn is_hex(c: char) -> bool {
    ('0' <= c <= '9') || ('a' <= c <= 'f')
}

/// Whether `s` is the form of a UUID without hyphens.
pub open spec fn simple_uuid(s: Seq<char>) -> bool {
    s.len() == 32 && forall|i: int| 0 <= i < s.len() ==> is_hex(#[trigger] s[i])
}

/// `Uuid::new_v4` in the form of `Uuid::simple`: 32 hexadecimal digits in lower
/// case. Which digits they are is up to the system's random numbers; without a
/// source of those it panics.
#[verifier::external_body]
fn random_uuid() -> (r: String)
    ensures
        simple_uuid(r@),
{
    uuid::Uuid::new_v4().simple().to_string()
}

/// Whether `s` is the form of a UUID with hyphens.
pub open spec fn hyphenated_uuid(s: Seq<char>) -> bool {
    s.len() == 36 && forall|i: int|
        0 <= i < s.len() ==> if i == 8 || i == 13 || i == 18 || i == 23 {
            #[trigger] s[i] == '-'
        } else {
            is_hex(s[i])
        }
}

/// `Uuid::new_v4` as its `Display` writes it: hexadecimal digits in lower case,
/// in five groups with hyphens between them. Which digits they are is up to
/// the system's random numbers; without a source of those it panics.
#[verifier::external_body]
pub(crate) fn random_job_id() -> (r: String)
    ensures
        hyphenated_uuid(r@),
{
    uuid::Uuid::new_v4().to_string()
}

/// The id that `hostname`, `pid` and the digits of a UUID make.
pub open spec fn id_of(hostname: Seq<char>, pid: nat, uuid: Seq<char>) -> Seq<char> {
    sanitized(hostname) + "-"@ + text::decimal(pid) + "-"@ + uuid.take(8)
}

/// Makes a new worker id for the process `pid` on `hostname`; its last part is
/// random.
#[must_use]
pub fn generate(hostname: &str, pid: u32) -> (r: String)
    ensures
        exists|uuid: Seq<char>| #[trigger] simple_uuid(uuid) && r@ == id_of(hostname@, pid as nat, uuid),
{
    let uuid = random_uuid();
    generate_with(hostname, pid, uuid.as_str())
}

/// Makes the worker id out of a hostname, a process id and the digits of a
/// UUID.
pub fn generate_with(hostname: &str, pid: u32, uuid: &str) -> (r: String)
    requires
        uuid@.len() >= 8,
    ensures
        r@ == id_of(hostname@, pid as nat, uuid@),
{
    let digits = text::chars_of(uuid);
    let head = text::string_of(&text::sub_chars(&digits, 0, 8));
    assert(head@ =~= uuid@.take(8));
    let mut s = sanitize_hostname(hostname);
    s.push_str("-");
    s.push_str(text::decimal_of(pid as u128).as_str());
    s.push_str("-");
    s.push_str(head.as_str());
    s
}

/// A text of allowed characters holds no forbidden one.
proof fn lemma_all_allowed(s: Seq<char>)
    requires
        forall|i: int| 0 <= i < s.len() ==> allowed(#[trigger] s[i]),
    ensures
        first_forbidden(s) is None,
    decreases s.len(),
{
    if s.len() > 0 {
        assert(allowed(s[0]));
        assert forall|i: int| 0 <= i < s.drop_first().len() implies allowed(
            #[trigger] s.drop_first()[i],
        ) by {
            assert(s.drop_first()[i] == s[i + 1]);
        }
        lemma_all_allowed(s.drop_first());
    }
}

/// What a hostname, a process id and a UUID make is accepted as an id, as long
/// as it is not too long.
pub proof fn law_generated_id_is_valid(
    hostname: Seq<char>,
    pid: u32,
    uuid: Seq<char>,
    id: Seq<char>,
)
    requires
        simple_uuid(uuid),
        id == id_of(hostname, pid as nat, uuid),
        id.len() <= MAX_LEN,
    ensures
        id_check(id) == Ok::<(), WorkerIdError>(()),
{
    let host = sanitized(hostname);
    let d = text::decimal(pid as nat);
    text::lemma_decimal(pid as nat);
    reveal_strlit("unknown");
    reveal_strlit("-");
    assert forall|i: int| 0 <= i < id.len() implies allowed(#[trigger] id[i]) && (id[i] as u32)
        < 128 by {
        let n = host.len() as int;
        let m = n + 1 + d.len();
        if i < n {
            assert(id[i] == host[i]);
        } else if i == n {
            assert(id[i] == '-');
        } else if i < m {
            assert(id[i] == d[i - n - 1]);
            assert(text::is_digit(d[i - n - 1]));
        } else if i == m {
            assert(id[i] == '-');
        } else {
            assert(id[i] == uuid[i - m - 1]);
            assert(is_hex(uuid[i - m - 1]));
        }
    }
    lemma_all_allowed(id);
    assert(vstd::utf8::is_ascii_chars(id));
    vstd::utf8::is_ascii_chars_encode_utf8(id);
}

/// Whether a letter, a digit, a dot, a hyphen or an underscore.
pub open spec fn is_plain(c: char) -> bool {
    ||| 'a' <= c && c <= 'z'
    ||| 'A' <= c && c <= 'Z'
    ||| '0' <= c && c <= '9'
    ||| seq!['.', '-', '_'].contains(c)
}

proof fn lemma_plain(c: char)
    ensures
        is_plain(c) == allowed(c),
{
    let marks = seq!['.', '-', '_'];
    assert(marks[0] == '.' && marks[1] == '-' && marks[2] == '_');
}

proof fn lemma_first_forbidden(s: Seq<char>)
    ensures
        match first_forbidden(s) {
            None => forall|i: int| 0 <= i < s.len() ==> is_plain(#[trigger] s[i]),
            Some(ch) => exists|n: int|
                0 <= n < s.len() && #[trigger] s[n] == ch && !is_plain(ch) && (forall|i: int|
                    0 <= i < n ==> is_plain(#[trigger] s[i])),
        },
    decreases s.len(),
{
    if s.len() > 0 {
        lemma_plain(s[0]);
        let rest = s.drop_first();
        lemma_first_forbidden(rest);
        if allowed(s[0]) {
            match first_forbidden(rest) {
                None => {
                    assert forall|i: int| 0 <= i < s.len() implies is_plain(#[trigger] s[i]) by {
                        if i > 0 {
                            assert(rest[i - 1] == s[i]);
                        }
                    }
                },
                Some(ch) => {
                    let n = choose|n: int|
                        0 <= n < rest.len() && #[trigger] rest[n] == ch && !is_plain(ch) && (
                        forall|i: int| 0 <= i < n ==> is_plain(#[trigger] rest[i]));
                    let m = n + 1;
                    assert(s[m] == ch);
                    assert forall|i: int| 0 <= i < m implies is_plain(#[trigger] s[i]) by {
                        if i > 0 {
                            assert(rest[i - 1] == s[i]);
                        }
                    }
                },
            }
        } else {
            assert(s[0] == first_forbidden(s)->Some_0);
        }
    }
}

/// An id is accepted if and only if it is not empty, takes no more than 128 bytes
/// and holds nothing but letters, digits, dots, hyphens and underscores. Else the
/// error tells what is wrong, and names the first character that does not fit.
pub proof fn law_ids_are_checked(id: Seq<char>)
    ensures
        id_check(id) is Ok <==> id.len() > 0 && byte_len(id) <= 128 && forall|i: int|
            0 <= i < id.len() ==> is_plain(#[trigger] id[i]),
        id.len() == 0 <==> id_check(id) == Err::<(), WorkerIdError>(WorkerIdError::Empty),
        id.len() > 0 && byte_len(id) > 128 <==> (id_check(id) matches Err(WorkerIdError::TooLong(n))
            && n == byte_len(id)),
        id_check(id) matches Err(WorkerIdError::BadChar { ch }) ==> exists|n: int|
            0 <= n < id.len() && #[trigger] id[n] == ch && !is_plain(ch) && forall|i: int|
                0 <= i < n ==> is_plain(#[trigger] id[i]),
{
    lemma_first_forbidden(id);
}

/// A hostname is changed only where an id could not hold it, and then fits one.
pub proof fn law_hostnames_are_made_to_fit(raw: Seq<char>)
    ensures
        raw.len() > 0 ==> sanitized(raw).len() == raw.len(),
        forall|i: int|
            0 <= i < raw.len() && is_plain(raw[i]) ==> #[trigger] sanitized(raw)[i] == raw[i],
        forall|i: int|
            0 <= i < raw.len() && !is_plain(raw[i]) ==> #[trigger] sanitized(raw)[i] == '_',
        raw.len() == 0 ==> sanitized(raw) == "unknown"@,
{
    assert forall|i: int| 0 <= i < raw.len() && is_plain(raw[i]) implies #[trigger] sanitized(
        raw,
    )[i] == raw[i] by {
        lemma_plain(raw[i]);
    }
    assert forall|i: int| 0 <= i < raw.len() && !is_plain(raw[i]) implies #[trigger] sanitized(
        raw,
    )[i] == '_' by {
        lemma_plain(raw[i]);
    }
}

proof fn lemma_line_feeds(s: Seq<char>)
    ensures
        without_line_feeds(s).len() <= s.len(),
        without_line_feeds(s) == s.take(without_line_feeds(s).len() as int),
        forall|i: int| without_line_feeds(s).len() <= i < s.len() ==> #[trigger] s[i] == '\n',
        without_line_feeds(s).len() > 0 ==> without_line_feeds(s).last() != '\n',
    decreases s.len(),
{
    if s.len() > 0 && s.last() == '\n' {
        let rest = s.drop_last();
        lemma_line_feeds(rest);
        let n = without_line_feeds(rest).len() as int;
        assert(rest.take(n) =~= s.take(n));
        assert forall|i: int| n <= i < s.len() implies #[trigger] s[i] == '\n' by {
            if i < rest.len() {
                assert(rest[i] == s[i]);
            }
        }
    } else {
        assert(s.take(s.len() as int) =~= s);
    }
}

/// Only line feeds at its end are taken off a hostname; where nothing is left, or
/// nothing was given, it is unknown.
pub proof fn law_hostnames_lose_line_feeds(s: Seq<char>, n: nat)
    requires
        s.len() > 0,
        s.last() != '\n',
    ensures
        hostname_from(Some(s + Seq::new(n, |i: int| '\n'))) == s,
        hostname_from(Some(Seq::new(n, |i: int| '\n'))) == "unknown"@,
        hostname_from(None) == "unknown"@,
{
    let feeds = Seq::new(n, |i: int| '\n');
    let all = s + feeds;
    lemma_line_feeds(all);
    let k = without_line_feeds(all).len() as int;
    assert(all[s.len() - 1] == s.last());
    if k > s.len() {
        assert(without_line_feeds(all).last() == all[k - 1]);
        assert(all[k - 1] == '\n');
    }
    assert(k == s.len());
    assert(all.take(k) =~= s);
    lemma_line_feeds(feeds);
    let j = without_line_feeds(feeds).len() as int;
    if j > 0 {
        assert(without_line_feeds(feeds).last() == feeds[j - 1]);
    }
}

} // verus!
