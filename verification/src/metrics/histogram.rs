//! Latency histograms and their encoded form.

use vstd::prelude::*;

verus! {

/// A histogram of latencies in microseconds: a `hdrhistogram::Histogram` with
/// 64-bit counts, which does not grow on its own. Values are counted in slots
/// of bounded relative width.
#[verifier::external_body]
pub struct LatencyHistogram {
    inner: hdrhistogram::Histogram<u64>,
}

/// How many values each slot of the histogram counts.
pub uninterp spec fn counts(h: LatencyHistogram) -> Seq<u64>;

/// What the histogram was made with: the lowest value that it tells from zero,
/// the highest value that it tracks, and the significant figures that it keeps.
pub uninterp spec fn shape(h: LatencyHistogram) -> Seq<u64>;

/// The highest value in the slot of the highest value that was recorded; zero
/// where none was.
pub uninterp spec fn maximum(h: LatencyHistogram) -> u64;

/// What a [`LatencyHistogram`] holds.
#[verifier::ext_equal]
pub struct HistogramView {
    pub shape: Seq<u64>,
    pub counts: Seq<u64>,
    pub maximum: u64,
}

impl View for LatencyHistogram {
    type V = HistogramView;

    open spec fn view(&self) -> HistogramView {
        HistogramView { shape: shape(*self), counts: counts(*self), maximum: maximum(*self) }
    }
}

/// The slot that counts `value` in a histogram of that shape.
pub uninterp spec fn slot_of(shape: Seq<u64>, value: u64) -> int;

/// The maximum of a histogram of that shape that holds `value` alone.
pub uninterp spec fn top_of(shape: Seq<u64>, value: u64) -> u64;

/// What a histogram holds after another was added to it; what it held before
/// where the other holds a value that it cannot hold.
pub uninterp spec fn sum_of(own: HistogramView, other: HistogramView) -> HistogramView;

/// The compressed encoding of a histogram that has one.
pub uninterp spec fn encoding_of(shape: Seq<u64>, counts: Seq<u64>) -> Seq<u8>;

/// The histogram that bytes encode, or why they encode none.
pub uninterp spec fn decoding_of(bytes: Seq<u8>) -> Result<HistogramView, Seq<char>>;

/// What `data` comes to when it is taken as a zlib stream: the first `n` bytes,
/// fewer where the stream ends before, and none where it breaks off before.
pub uninterp spec fn inflated_of(data: Seq<u8>, n: u64) -> Seq<u8>;

/// Whether a histogram has an encoding: every count fits 63 bits.
pub open spec fn encodable(counts: Seq<u64>) -> bool {
    forall|i: int| 0 <= i < counts.len() ==> #[trigger] counts[i] <= i64::MAX
}

/// Why a histogram has no encoding.
pub open spec fn not_encodable() -> Seq<char> {
    "The underlying serialization failed: A count above i64::MAX cannot be zig-zag encoded"@
}

/// Whether no slot counts a value.
pub open spec fn all_zero(counts: Seq<u64>) -> bool {
    forall|i: int| 0 <= i < counts.len() ==> #[trigger] counts[i] == 0
}

/// `a + b`, or the greatest number where it is greater.
pub open spec fn saturating_sum(a: u64, b: u64) -> u64 {
    if a + b > u64::MAX {
        u64::MAX
    } else {
        (a + b) as u64
    }
}

/// The larger of two numbers.
pub open spec fn larger(a: u64, b: u64) -> u64 {
    if a < b {
        b
    } else {
        a
    }
}

/// Whether the highest value that a shape tracks fits 63 bits. Beyond that the
/// last slot ends where numbers do, and a maximum in it depends on more than
/// the counts.
pub open spec fn is_common(shape: Seq<u64>) -> bool {
    shape[1] < 0x8000_0000_0000_0000
}

/// What a histogram holds after another was added to it: slot by slot where
/// both have the same common shape.
pub open spec fn merged(own: HistogramView, other: HistogramView) -> HistogramView {
    if own.shape == other.shape && is_common(own.shape) {
        HistogramView {
            shape: own.shape,
            counts: Seq::new(
                own.counts.len(),
                |i: int| saturating_sum(own.counts[i], other.counts[i]),
            ),
            maximum: larger(own.maximum, other.maximum),
        }
    } else {
        sum_of(own, other)
    }
}

/// `Histogram::<u64>::new_with_max`: an empty histogram that tells values from
/// one on from zero. The limits on the arguments are those under which it
/// succeeds.
#[verifier::external_body]
pub(crate) fn new_with_max(high: u64, sigfig: u8) -> (h: LatencyHistogram)
    requires
        high >= 2,
        sigfig <= 5,
    ensures
        shape(h) == seq![1u64, high, sigfig as u64],
        all_zero(counts(h)),
        maximum(h) == 0,
{
    let inner = hdrhistogram::Histogram::<u64>::new_with_max(high, sigfig);
    LatencyHistogram { inner: inner.expect("valid dimensions") }
}

/// `Histogram::high`: the highest value that the histogram tracks.
#[verifier::external_body]
pub(crate) fn high(h: &LatencyHistogram) -> (r: u64)
    ensures
        r == shape(*h)[1],
{
    h.inner.high()
}

/// `Histogram::max`: the highest value in the slot of the highest value that
/// was recorded.
#[verifier::external_body]
pub(crate) fn max(h: &LatencyHistogram) -> (r: u64)
    ensures
        r == maximum(*h),
{
    h.inner.max()
}

/// `Histogram::record`: counts one more value in its slot, which exists for
/// every value up to the highest that is tracked, and raises the maximum to
/// that of the value. A slot that is full stays as it is.
#[verifier::external_body]
pub(crate) fn record(h: &mut LatencyHistogram, value: u64)
    requires
        value <= shape(*old(h))[1],
    ensures
        shape(*final(h)) == shape(*old(h)),
        0 <= slot_of(shape(*old(h)), value) < counts(*old(h)).len() && counts(*final(h)) == counts(*old(h)).update(
            slot_of(shape(*old(h)), value),
            saturating_sum(counts(*old(h))[slot_of(shape(*old(h)), value)], 1),
        ),
        maximum(*final(h)) == larger(maximum(*old(h)), top_of(shape(*old(h)), value)),
{
    let _ = h.inner.record(value);
}

/// `Histogram::add`: adds the counts of another histogram. Two of the same shape
/// have as many slots; where the shape is a common one, each slot of the first
/// is raised by that of the other, up to the greatest number, and the larger
/// maximum stays. Between other histograms the result depends on what both hold
/// alone. On an error nothing changes, and the shape never does.
#[verifier::external_body]
pub(crate) fn merge(h: &mut LatencyHistogram, other: &LatencyHistogram)
    ensures
        final(h)@ == (if shape(*old(h)) == shape(*other) && is_common(shape(*other)) {
            merged(old(h)@, other@)
        } else {
            sum_of(old(h)@, other@)
        }),
        shape(*final(h)) == shape(*old(h)),
        shape(*old(h)) == shape(*other) ==> counts(*final(h)).len() == counts(*other).len(),
{
    let _ = h.inner.add(&other.inner);
}

/// `Histogram::clone`: a histogram that holds the same.
#[verifier::external_body]
pub(crate) fn duplicate(h: &LatencyHistogram) -> (r: LatencyHistogram)
    ensures
        r@ == h@,
{
    LatencyHistogram { inner: h.inner.clone() }
}

/// `Histogram::is_empty`: whether no value was recorded.
#[verifier::external_body]
pub(crate) fn is_empty(h: &LatencyHistogram) -> (r: bool)
    ensures
        r == all_zero(counts(*h)),
{
    h.inner.is_empty()
}

/// The first four bytes of a plain encoding.
pub const PLAIN: u32 = 0x1c84_9313;

/// The first four bytes of a compressed encoding.
pub const COMPRESSED: u32 = 0x1c84_9314;

/// How many bytes stand before the numbers of a plain encoding.
pub const HEADER: u64 = 40;

/// The four bytes from `i` on as a number, the highest first.
pub open spec fn word(b: Seq<u8>, i: int) -> int {
    b[i] * 0x100_0000 + b[i + 1] * 0x1_0000 + b[i + 2] * 0x100 + b[i + 3]
}

/// The bytes in which a plain encoding holds its numbers; `None` where they are
/// not all there.
pub open spec fn plain_numbers(b: Seq<u8>) -> Option<Seq<u8>> {
    if b.len() >= HEADER && word(b, 0) == PLAIN && b.len() >= HEADER + word(b, 4) {
        Some(b.subrange(HEADER as int, HEADER + word(b, 4)))
    } else {
        None
    }
}

/// The zlib stream of a compressed encoding; `None` where it is none.
pub open spec fn stream_of(b: Seq<u8>) -> Option<Seq<u8>> {
    if b.len() >= 8 && word(b, 0) == COMPRESSED {
        let end = if b.len() < 8 + word(b, 4) {
            b.len() as int
        } else {
            8 + word(b, 4)
        };
        Some(b.subrange(8, end))
    } else {
        None
    }
}

/// The plain encoding that bytes hold, which may be a compressed one; `None`
/// where that breaks off in its header.
pub open spec fn plain_of(b: Seq<u8>) -> Option<Seq<u8>> {
    match stream_of(b) {
        Some(z) => {
            let head = inflated_of(z, HEADER);
            if head.len() < HEADER {
                None
            } else {
                Some(inflated_of(z, (HEADER + word(head, 4)) as u64))
            }
        },
        None => Some(b),
    }
}

/// How many bytes the number takes that `p` starts with, of which `k` are known
/// to be followed by another: a byte below 128 is the last one, and the ninth is
/// in any case.
pub open spec fn number_len(p: Seq<u8>, k: nat) -> nat
    decreases 8 - k,
{
    if k >= 8 {
        9
    } else if k >= p.len() || p[k as int] < 128 {
        k + 1
    } else {
        number_len(p, k + 1)
    }
}

/// Whether `q` is the least of all numbers.
pub open spec fn is_least(q: Seq<u8>) -> bool {
    q.len() == 9 && forall|k: int| 0 <= k < 9 ==> #[trigger] q[k] == 0xff
}

/// Whether the least of all numbers is among the numbers in `p`.
pub open spec fn holds_least(p: Seq<u8>) -> bool
    decreases p.len(),
{
    if p.len() == 0 {
        false
    } else {
        let n = number_len(p, 0) as int;
        if n < 1 || n > p.len() {
            false
        } else {
            is_least(p.take(n)) || holds_least(p.skip(n))
        }
    }
}

/// Where the first of the least numbers in `p` stands.
pub open spec fn least_at(p: Seq<u8>) -> int
    decreases p.len(),
{
    let n = number_len(p, 0) as int;
    if n < 1 || n > p.len() || is_least(p.take(n)) {
        0
    } else {
        n + least_at(p.skip(n))
    }
}

/// Whether bytes tell of a run of empty slots that is longer than any number:
/// runs are written as negative numbers, and the least has no counterpart.
pub open spec fn is_endless(b: Seq<u8>) -> bool {
    plain_of(b) matches Some(q) && (plain_numbers(q) matches Some(p) && holds_least(p))
}

/// A number as four bytes, the highest first.
pub open spec fn word_bytes(n: int) -> Seq<u8> {
    seq![
        (n / 0x100_0000) as u8,
        (n % 0x100_0000 / 0x1_0000) as u8,
        (n % 0x1_0000 / 0x100) as u8,
        (n % 0x100) as u8,
    ]
}

/// A plain encoding of the first `n` bytes of the numbers in the plain encoding
/// `q`.
pub open spec fn shortened(q: Seq<u8>, n: int) -> Seq<u8> {
    q.take(4) + word_bytes(n) + q.subrange(8, HEADER + n)
}

/// The plain encoding of what bytes tell before an endless run.
pub open spec fn before_endless(b: Seq<u8>) -> Seq<u8> {
    let q = plain_of(b)->Some_0;
    shortened(q, least_at(plain_numbers(q)->Some_0))
}

/// Why bytes that tell of an endless run encode no histogram.
pub open spec fn too_long() -> Seq<char> {
    "The current system's pointer width cannot represent the encoded histogram"@
}

/// The histogram that bytes stand for, or why they stand for none. Those that
/// tell of an endless run stand for none because of that, unless something is
/// wrong before it.
pub open spec fn decoded(bytes: Seq<u8>) -> Result<HistogramView, Seq<char>> {
    if is_endless(bytes) {
        match decoding_of(before_endless(bytes)) {
            Ok(_) => Err(too_long()),
            Err(e) => Err(e),
        }
    } else {
        decoding_of(bytes)
    }
}

/// Whether bytes stand for a histogram with the shape and the counts of `v`, and
/// also with its maximum where the shape is a common one that tells one from
/// zero.
pub open spec fn reads_back(bytes: Seq<u8>, v: HistogramView) -> bool {
    decoded(bytes) matches Ok(d) && d.shape == v.shape && d.counts == v.counts && (v.shape[0] == 1
        && is_common(v.shape) ==> d.maximum == v.maximum)
}

/// `V2DeflateSerializer::serialize` into a buffer, with an error as its `Display`
/// writes it. It fails where a slot counts more than 63 bits hold. Else the
/// bytes depend on the shape and the counts alone, and decoding them gives both
/// back.
#[verifier::external_body]
fn serialize(h: &LatencyHistogram) -> (r: Result<Vec<u8>, String>)
    ensures
        match r {
            Ok(bytes) => encodable(counts(*h)) && bytes@ == encoding_of(shape(*h), counts(*h))
                && reads_back(bytes@, h@),
            Err(e) => !encodable(counts(*h)) && e@ == not_encodable(),
        },
{
    let mut buf: Vec<u8> = Vec::new();
    let mut serializer = hdrhistogram::serialization::V2DeflateSerializer::new();
    hdrhistogram::serialization::Serializer::serialize(&mut serializer, &h.inner, &mut buf)
        .map_err(|e| e.to_string())?;
    Ok(buf)
}

/// `Deserializer::deserialize` on a buffer, which accepts the plain and the
/// compressed encoding, with an error as its `Display` writes it. The result
/// depends on the bytes alone. An endless run of empty slots is left out: its
/// length overflows, which panics where arithmetic is checked.
#[verifier::external_body]
fn deserialize(bytes: &Vec<u8>) -> (r: Result<LatencyHistogram, String>)
    requires
        !is_endless(bytes@),
    ensures
        match r {
            Ok(h) => decoding_of(bytes@) == Ok::<HistogramView, Seq<char>>(h@),
            Err(e) => decoding_of(bytes@) == Err::<HistogramView, Seq<char>>(e@),
        },
{
    let mut cursor = std::io::Cursor::new(bytes.as_slice());
    hdrhistogram::serialization::Deserializer::new()
        .deserialize(&mut cursor)
        .map(|inner| LatencyHistogram { inner })
        .map_err(|e| e.to_string())
}

/// `flate2::read::ZlibDecoder`, by which `hdrhistogram` reads the compressed
/// encoding: the first `n` bytes that it reads, or none where it fails on one of
/// them. The bytes depend on the data and on `n` alone.
#[verifier::external_body]
fn inflate(data: &Vec<u8>, n: u64) -> (r: Vec<u8>)
    ensures
        r@ == inflated_of(data@, n),
{
    let mut out: Vec<u8> = Vec::new();
    let mut decoder = std::io::Read::take(flate2::read::ZlibDecoder::new(data.as_slice()), n);
    match std::io::Read::read_to_end(&mut decoder, &mut out) {
        Ok(_) => out,
        Err(_) => Vec::new(),
    }
}

fn word_at(b: &Vec<u8>, i: usize) -> (r: u32)
    requires
        i + 4 <= b@.len(),
    ensures
        r == word(b@, i as int),
{
    let _ = b.len();
    let (x, y, z, w) = (b[i], b[i + 1], b[i + 2], b[i + 3]);
    x as u32 * 0x100_0000 + y as u32 * 0x1_0000 + z as u32 * 0x100 + w as u32
}

fn part_of(b: &Vec<u8>, from: usize, to: usize) -> (r: Vec<u8>)
    requires
        from <= to <= b@.len(),
    ensures
        r@ == b@.subrange(from as int, to as int),
{
    let mut out: Vec<u8> = Vec::new();
    let mut i: usize = from;
    while i < to
        invariant
            from <= i <= to <= b@.len(),
            out@ == b@.subrange(from as int, i as int),
        decreases to - i,
    {
        out.push(b[i]);
        assert(out@ =~= b@.subrange(from as int, i as int + 1));
        i += 1;
    }
    out
}

fn plain_numbers_of(b: &Vec<u8>) -> (r: Option<Vec<u8>>)
    ensures
        match r {
            Some(p) => plain_numbers(b@) == Some(p@),
            None => plain_numbers(b@) is None,
        },
{
    if b.len() < 40 || word_at(b, 0) != PLAIN {
        return None;
    }
    let n: u64 = word_at(b, 4) as u64;
    if (b.len() as u64) < HEADER + n {
        return None;
    }
    Some(part_of(b, 40, 40 + n as usize))
}

/// The plain encoding that bytes hold.
fn find_plain(b: &Vec<u8>) -> (r: Option<Vec<u8>>)
    ensures
        match r {
            Some(q) => plain_of(b@) == Some(q@),
            None => plain_of(b@) is None,
        },
{
    if b.len() < 8 || word_at(b, 0) != COMPRESSED {
        let q = part_of(b, 0, b.len());
        assert(q@ =~= b@);
        return Some(q);
    }
    let n: u64 = word_at(b, 4) as u64;
    let end: usize = if (b.len() as u64) < 8 + n {
        b.len()
    } else {
        8 + n as usize
    };
    let stream = part_of(b, 8, end);
    let head = inflate(&stream, HEADER);
    if head.len() < 40 {
        return None;
    }
    Some(inflate(&stream, HEADER + word_at(&head, 4) as u64))
}

/// Where the first of the least numbers in `p` stands, if there is one.
fn find_least(p: &Vec<u8>) -> (r: Option<usize>)
    ensures
        match r {
            Some(n) => holds_least(p@) && n == least_at(p@) && n <= p@.len(),
            None => !holds_least(p@),
        },
{
    let mut at: usize = 0;
    assert(p@.skip(0) =~= p@);
    while at < p.len()
        invariant
            at <= p@.len(),
            holds_least(p@) == holds_least(p@.skip(at as int)),
            holds_least(p@) ==> least_at(p@) == at + least_at(p@.skip(at as int)),
        decreases p@.len() - at,
    {
        let ghost rest = p@.skip(at as int);
        let mut k: usize = 0;
        let mut all = true;
        while k < 8 && k < p.len() - at && p[at + k] >= 128
            invariant
                at < p@.len(),
                rest == p@.skip(at as int),
                k <= 8,
                k <= rest.len(),
                all <==> forall|j: int| 0 <= j < k ==> #[trigger] rest[j] == 0xff,
                number_len(rest, 0) == number_len(rest, k as nat),
            decreases 8 - k,
        {
            assert(rest[k as int] == p@[at + k]);
            if p[at + k] != 0xff {
                all = false;
            }
            k += 1;
        }
        if k < p.len() - at {
            assert(rest[k as int] == p@[at + k]);
        }
        let n: usize = k + 1;
        assert(number_len(rest, 0) == n);
        if n > p.len() - at {
            return None;
        }
        let ghost q = rest.take(n as int);
        if n == 9 && all && p[at + 8] == 0xff {
            assert(is_least(q)) by {
                assert forall|j: int| 0 <= j < 9 implies #[trigger] q[j] == 0xff by {
                    assert(q[j] == rest[j]);
                }
            }
            return Some(at);
        }
        proof {
            if is_least(q) {
                assert forall|j: int| 0 <= j < k implies #[trigger] rest[j] == 0xff by {
                    assert(q[j] == rest[j]);
                }
                assert(q[8] == p@[at + 8]);
            }
            assert(rest.skip(n as int) =~= p@.skip(at + n));
        }
        at += n;
    }
    None
}

/// What a number takes depends on the bytes that it takes alone.
proof fn lemma_number_len_prefix(p: Seq<u8>, m: int, k: nat)
    requires
        number_len(p, k) <= m <= p.len(),
    ensures
        number_len(p.take(m), k) == number_len(p, k),
        number_len(p, k) > k || k >= 8,
    decreases 8 - k,
{
    if k < 8 && !(k >= p.len() || p[k as int] < 128) {
        lemma_number_len_prefix(p, m, k + 1);
    }
}

/// No least number stands before the first one.
proof fn lemma_none_before_least(p: Seq<u8>)
    requires
        holds_least(p),
    ensures
        0 <= least_at(p) <= p.len(),
        !holds_least(p.take(least_at(p))),
    decreases p.len(),
{
    let n = number_len(p, 0) as int;
    let at = least_at(p);
    if is_least(p.take(n)) {
        assert(p.take(at).len() == 0);
    } else {
        lemma_none_before_least(p.skip(n));
        lemma_number_len_prefix(p, at, 0);
        assert(p.take(at).take(n) =~= p.take(n));
        assert(p.take(at).skip(n) =~= p.skip(n).take(at - n));
    }
}

/// What is told before an endless run tells of none.
proof fn lemma_not_endless_before(b: Seq<u8>)
    requires
        is_endless(b),
    ensures
        !is_endless(before_endless(b)),
{
    let q = plain_of(b)->Some_0;
    let p = plain_numbers(q)->Some_0;
    let n = least_at(p);
    let c = before_endless(b);
    lemma_none_before_least(p);
    assert(c.len() == HEADER + n);
    assert(c[0] == q[0] && c[1] == q[1] && c[2] == q[2] && c[3] == q[3]);
    lemma_word_bytes(n);
    assert(c[4] == word_bytes(n)[0] && c[5] == word_bytes(n)[1] && c[6] == word_bytes(n)[2] && c[7]
        == word_bytes(n)[3]);
    assert(word(c, 0) == PLAIN);
    assert(word(c, 4) == n);
    assert(c.subrange(HEADER as int, HEADER + n) =~= p.take(n));
}

proof fn lemma_word_bytes(n: int)
    requires
        0 <= n <= u32::MAX,
    ensures
        word(word_bytes(n), 0) == n,
{
    assert(n == n / 0x100_0000 * 0x100_0000 + n % 0x100_0000);
    assert(n % 0x100_0000 == n % 0x100_0000 / 0x1_0000 * 0x1_0000 + n % 0x1_0000);
    assert(n % 0x1_0000 == n % 0x1_0000 / 0x100 * 0x100 + n % 0x100);
}

/// A plain encoding of the first `n` bytes of the numbers in the plain encoding
/// `q`.
fn shorten(q: &Vec<u8>, n: usize) -> (r: Vec<u8>)
    requires
        n <= u32::MAX,
        HEADER + n <= q@.len(),
    ensures
        r@ == shortened(q@, n as int),
{
    let _ = q.len();
    let mut out = part_of(q, 0, 4);
    assert(out@ =~= q@.take(4));
    out.push((n / 0x100_0000) as u8);
    out.push((n % 0x100_0000 / 0x1_0000) as u8);
    out.push((n % 0x1_0000 / 0x100) as u8);
    out.push((n % 0x100) as u8);
    assert(out@ =~= q@.take(4) + word_bytes(n as int));
    let mut rest = part_of(q, 8, 40 + n);
    out.append(&mut rest);
    out
}

/// What bytes tell before an endless run, where they tell of one.
fn find_endless(bytes: &Vec<u8>) -> (r: Option<Vec<u8>>)
    ensures
        match r {
            Some(c) => is_endless(bytes@) && c@ == before_endless(bytes@),
            None => !is_endless(bytes@),
        },
{
    let plain = match find_plain(bytes) {
        Some(q) => q,
        None => {
            return None;
        },
    };
    let numbers = match plain_numbers_of(&plain) {
        Some(p) => p,
        None => {
            return None;
        },
    };
    match find_least(&numbers) {
        Some(n) => Some(shorten(&plain, n)),
        None => None,
    }
}

/// Why a histogram was not encoded or decoded, with the encoder's message.
#[derive(Debug)]
pub enum HistogramError {
    Serialize(String),
    Deserialize(String),
}

/// The text that shows an error.
pub open spec fn histogram_error_text(e: HistogramError) -> Seq<char> {
    match e {
        HistogramError::Serialize(m) => "serialize: "@ + m@,
        HistogramError::Deserialize(m) => "deserialize: "@ + m@,
    }
}

impl HistogramError {
    /// The error as a message.
    pub fn message(&self) -> (r: String)
        ensures
            r@ == histogram_error_text(*self),
    {
        let (head, tail) = match self {
            HistogramError::Serialize(m) => ("serialize: ", m),
            HistogramError::Deserialize(m) => ("deserialize: ", m),
        };
        let mut s = head.to_owned();
        s.push_str(tail.as_str());
        s
    }
}

/// Encodes a histogram in compressed form, from which it can be decoded again.
pub fn encode_v2_compressed(h: &LatencyHistogram) -> (r: Result<Vec<u8>, HistogramError>)
    ensures
        match r {
            Ok(bytes) => encodable(counts(*h)) && bytes@ == encoding_of(shape(*h), counts(*h))
                && reads_back(bytes@, h@),
            Err(e) => !encodable(counts(*h)) && (e matches HistogramError::Serialize(m) && m@
                == not_encodable()),
        },
{
    match serialize(h) {
        Ok(bytes) => Ok(bytes),
        Err(e) => Err(HistogramError::Serialize(e)),
    }
}

/// Decodes a histogram. What was encoded comes back with the same shape and
/// counts.
pub fn decode(bytes: &Vec<u8>) -> (r: Result<LatencyHistogram, HistogramError>)
    ensures
        match r {
            Ok(h) => decoded(bytes@) == Ok::<HistogramView, Seq<char>>(h@),
            Err(e) => e matches HistogramError::Deserialize(m) && decoded(bytes@) == Err::<
                HistogramView,
                Seq<char>,
            >(m@),
        },
{
    if let Some(before) = find_endless(bytes) {
        proof {
            lemma_not_endless_before(bytes@);
        }
        let reason = match deserialize(&before) {
            Ok(_) => {
                "The current system's pointer width cannot represent the encoded histogram".to_owned()
            },
            Err(e) => e,
        };
        return Err(HistogramError::Deserialize(reason));
    }
    match deserialize(bytes) {
        Ok(h) => Ok(h),
        Err(e) => Err(HistogramError::Deserialize(e)),
    }
}

/// Histograms of one common shape can be merged in any order and any grouping.
pub proof fn law_merging_is_a_sum(a: HistogramView, b: HistogramView, c: HistogramView)
    requires
        a.shape == b.shape,
        b.shape == c.shape,
        is_common(a.shape),
        a.counts.len() == b.counts.len() == c.counts.len(),
    ensures
        merged(a, b) == merged(b, a),
        merged(merged(a, b), c) == merged(a, merged(b, c)),
{
    assert(merged(a, b) =~= merged(b, a));
    assert(merged(merged(a, b), c) =~= merged(a, merged(b, c)));
}

} // verus!
