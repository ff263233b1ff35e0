//! Counters and latency histograms of operations.
//!
//! A worker counts each kind of operation in a [`PerOpMetrics`]; the master
//! puts the results of all workers together with [`aggregate::aggregate`].

pub mod aggregate;
pub mod common_time;
pub mod histogram;
pub mod latencies;
pub mod recording;

use vstd::prelude::*;

use crate::metrics::histogram::{
    encodable, encoding_of, reads_back, HistogramView, LatencyHistogram,
};
use crate::pb::{LatencyStats, Number, PerformanceMetrics, PerformanceMetricsView};
use crate::strmap::{
    has_key, keys_distinct, keys_of, lemma_entry, lemma_new_key, lemma_viewed_keys, lemma_viewed_put,
    lookup, put, StrMap,
};
use crate::views::entry_views;

verus! {

/// The longest latency that is told apart, in microseconds: one hour.
pub const HIST_MAX_LATENCY_US: u64 = 3_600_000_000;

/// The significant figures that histograms keep.
pub const HIST_SIGNIFICANT_FIGURES: u8 = 3;

/// `n`, or the greatest 64-bit integer where `n` is greater.
pub open spec fn clamped(n: u64) -> i64 {
    if n > i64::MAX {
        i64::MAX
    } else {
        n as i64
    }
}

fn clamp(n: u64) -> (r: i64)
    ensures
        r == clamped(n),
{
    if n > i64::MAX as u64 {
        i64::MAX
    } else {
        n as i64
    }
}

/// `ops` in `ms` milliseconds, per second; zero where no time has passed.
pub open spec fn per_second(ops: int, ms: nat) -> Number {
    if ms > 0 {
        Number::Ratio { num: (ops * 1000) as i128, den: ms as u128 }
    } else {
        Number::spec_zero()
    }
}

/// `bytes` in `ms` milliseconds, in millions per second; zero where no time
/// has passed.
pub open spec fn millions_per_second(bytes: int, ms: nat) -> Number {
    if ms > 0 {
        Number::Ratio { num: bytes as i128, den: (ms * 1000) as u128 }
    } else {
        Number::spec_zero()
    }
}

/// The share of errors among operations; zero where there were none.
pub open spec fn error_share(errors: int, ops: int) -> Number {
    if ops > 0 {
        Number::Ratio { num: errors as i128, den: ops as u128 }
    } else {
        Number::spec_zero()
    }
}

/// Operations per second.
pub(crate) fn rate(ops: i128, ms: u64) -> (r: Number)
    requires
        i64::MIN <= ops <= u64::MAX,
    ensures
        r == per_second(ops as int, ms as nat),
{
    if ms > 0 {
        Number::Ratio { num: ops * 1000, den: ms as u128 }
    } else {
        Number::zero()
    }
}

/// Millions of bytes per second.
pub(crate) fn throughput(bytes: i128, ms: u64) -> (r: Number)
    ensures
        r == millions_per_second(bytes as int, ms as nat),
{
    if ms > 0 {
        Number::Ratio { num: bytes, den: ms as u128 * 1000 }
    } else {
        Number::zero()
    }
}

/// The share of errors.
pub(crate) fn error_ratio(errors: i128, ops: i128) -> (r: Number)
    ensures
        r == error_share(errors as int, ops as int),
{
    if ops > 0 {
        Number::Ratio { num: errors, den: ops as u128 }
    } else {
        Number::zero()
    }
}

/// The encoded form of a histogram; no bytes where it has none.
pub open spec fn bytes_of(h: HistogramView) -> Seq<u8> {
    if encodable(h.counts) {
        encoding_of(h.shape, h.counts)
    } else {
        Seq::empty()
    }
}

/// The latency statistics of a histogram: zeros where it is empty.
pub open spec fn stats_of(h: HistogramView) -> LatencyStats {
    if histogram::all_zero(h.counts) {
        LatencyStats::spec_none()
    } else {
        LatencyStats::spec_of_histogram(h.maximum)
    }
}

/// The latency statistics of a histogram.
pub(crate) fn latency_stats(h: &LatencyHistogram) -> (r: LatencyStats)
    ensures
        r == stats_of(h@),
{
    if histogram::is_empty(h) {
        LatencyStats::none()
    } else {
        LatencyStats::of_histogram(histogram::max(h))
    }
}

/// Encodes a histogram; no bytes where that fails. Else the histogram can be
/// read back from the bytes.
pub(crate) fn encoded(h: &LatencyHistogram) -> (r: Vec<u8>)
    ensures
        r@ == bytes_of(h@),
        encodable(h@.counts) ==> reads_back(r@, h@),
{
    match histogram::encode_v2_compressed(h) {
        Ok(b) => b,
        Err(_) => {
            let none: Vec<u8> = Vec::new();
            assert(none@ =~= Seq::<u8>::empty());
            none
        },
    }
}

/// The counters and the histogram of one kind of operation. Counters wrap
/// around at 64 bits.
pub struct PerOpMetrics {
    total_ops: u64,
    total_bytes: u64,
    error_count: u64,
    histogram: LatencyHistogram,
}

/// What a [`PerOpMetrics`] holds.
#[verifier::ext_equal]
pub struct PerOpView {
    pub total_ops: u64,
    pub total_bytes: u64,
    pub error_count: u64,
    pub histogram: HistogramView,
}

impl View for PerOpMetrics {
    type V = PerOpView;

    closed spec fn view(&self) -> PerOpView {
        PerOpView {
            total_ops: self.total_ops,
            total_bytes: self.total_bytes,
            error_count: self.error_count,
            histogram: self.histogram@,
        }
    }
}

/// The sum of two counters that wrap around.
pub open spec fn wrapped(a: u64, b: u64) -> u64 {
    if a + b > u64::MAX {
        (a + b - 0x1_0000_0000_0000_0000) as u64
    } else {
        (a + b) as u64
    }
}

fn wrap(a: u64, b: u64) -> (r: u64)
    ensures
        r == wrapped(a, b),
{
    let s: u128 = a as u128 + b as u128;
    if s > u64::MAX as u128 {
        (s - 0x1_0000_0000_0000_0000) as u64
    } else {
        s as u64
    }
}

/// The metrics after one more operation that took `latency_us` and moved
/// `bytes`; a latency above the highest that is tracked counts as that.
pub open spec fn with_op(m: PerOpView, latency_us: u64, bytes: u64) -> PerOpView {
    let h = m.histogram;
    let v = if latency_us < h.shape[1] {
        latency_us
    } else {
        h.shape[1]
    };
    let slot = histogram::slot_of(h.shape, v);
    PerOpView {
        total_ops: wrapped(m.total_ops, 1),
        total_bytes: wrapped(m.total_bytes, bytes),
        histogram: HistogramView {
            shape: h.shape,
            counts: h.counts.update(slot, histogram::saturating_sum(h.counts[slot], 1)),
            maximum: histogram::larger(h.maximum, histogram::top_of(h.shape, v)),
        },
        ..m
    }
}

/// The metrics after one more operation that failed.
pub open spec fn with_error(m: PerOpView) -> PerOpView {
    PerOpView {
        total_ops: wrapped(m.total_ops, 1),
        error_count: wrapped(m.error_count, 1),
        ..m
    }
}

/// The message that reports the metrics over `effective_ms` milliseconds.
pub open spec fn snapshot_of(m: PerOpView, effective_ms: u64) -> PerformanceMetricsView {
    PerformanceMetricsView {
        throughput_mbps: millions_per_second(m.total_bytes as int, effective_ms as nat),
        iops: per_second(m.total_ops as int, effective_ms as nat),
        latency_us: Some(stats_of(m.histogram)),
        error_count: clamped(m.error_count),
        error_rate: error_share(m.error_count as int, m.total_ops as int),
        total_ops: clamped(m.total_ops),
        total_bytes: clamped(m.total_bytes),
        latency_histogram_hdr: bytes_of(m.histogram),
    }
}

impl PerOpMetrics {
    /// Metrics of no operation.
    pub fn new() -> (r: PerOpMetrics)
        ensures
            r@.total_ops == 0,
            r@.total_bytes == 0,
            r@.error_count == 0,
            r@.histogram.shape == seq![1u64, HIST_MAX_LATENCY_US, HIST_SIGNIFICANT_FIGURES as u64],
            histogram::all_zero(r@.histogram.counts),
            r@.histogram.maximum == 0,
    {
        PerOpMetrics {
            total_ops: 0,
            total_bytes: 0,
            error_count: 0,
            histogram: histogram::new_with_max(HIST_MAX_LATENCY_US, HIST_SIGNIFICANT_FIGURES),
        }
    }

    /// Counts an operation, its bytes and its latency.
    pub fn record_op(&mut self, latency_us: u64, bytes: u64)
        ensures
            final(self)@ == with_op(old(self)@, latency_us, bytes),
    {
        self.total_ops = wrap(self.total_ops, 1);
        self.total_bytes = wrap(self.total_bytes, bytes);
        let top: u64 = histogram::high(&self.histogram);
        let v: u64 = if latency_us < top {
            latency_us
        } else {
            top
        };
        histogram::record(&mut self.histogram, v);
    }

    /// Counts an operation that failed; its latency is not counted.
    pub fn record_error(&mut self)
        ensures
            final(self)@ == with_error(old(self)@),
    {
        self.error_count = wrap(self.error_count, 1);
        self.total_ops = wrap(self.total_ops, 1);
    }

    /// The counters: operations, bytes, errors.
    pub fn totals(&self) -> (r: (u64, u64, u64))
        ensures
            r == (self@.total_ops, self@.total_bytes, self@.error_count),
    {
        (self.total_ops, self.total_bytes, self.error_count)
    }

    /// Reports the metrics as measured over `effective_ms` milliseconds. The
    /// histogram can be read back from the report.
    pub fn snapshot(&self, effective_ms: u64) -> (r: PerformanceMetrics)
        ensures
            r@ == snapshot_of(self@, effective_ms),
            encodable(self@.histogram.counts) ==> reads_back(
                r@.latency_histogram_hdr,
                self@.histogram,
            ),
    {
        let r = PerformanceMetrics {
            throughput_mbps: throughput(self.total_bytes as i128, effective_ms),
            iops: rate(self.total_ops as i128, effective_ms),
            latency_us: Some(latency_stats(&self.histogram)),
            error_count: clamp(self.error_count),
            error_rate: error_ratio(self.error_count as i128, self.total_ops as i128),
            total_ops: clamp(self.total_ops),
            total_bytes: clamp(self.total_bytes),
            latency_histogram_hdr: encoded(&self.histogram),
        };
        assert(r@ =~= snapshot_of(self@, effective_ms));
        r
    }
}

/// The metrics of several kinds of operations, by name.
pub struct MetricsRegistry {
    ops: StrMap<PerOpMetrics>,
}

impl View for MetricsRegistry {
    type V = Seq<(Seq<char>, PerOpView)>;

    closed spec fn view(&self) -> Seq<(Seq<char>, PerOpView)> {
        entry_views(self.ops.seq())
    }
}

/// The reports of all operations over `effective_ms` milliseconds.
pub open spec fn snapshots_of(ops: Seq<(Seq<char>, PerOpView)>, effective_ms: u64) -> Seq<
    (Seq<char>, PerformanceMetricsView),
> {
    ops.map_values(|e: (Seq<char>, PerOpView)| (e.0, snapshot_of(e.1, effective_ms)))
}

/// Whether `m` are the metrics of no operation.
pub open spec fn is_fresh(m: PerOpView) -> bool {
    &&& m.total_ops == 0 && m.total_bytes == 0 && m.error_count == 0
    &&& m.histogram.shape == seq![1u64, HIST_MAX_LATENCY_US, HIST_SIGNIFICANT_FIGURES as u64]
    &&& histogram::all_zero(m.histogram.counts)
    &&& m.histogram.maximum == 0
}

impl MetricsRegistry {
    /// A registry without operations.
    pub fn new() -> (r: MetricsRegistry)
        ensures
            r@ == Seq::<(Seq<char>, PerOpView)>::empty(),
    {
        let r = MetricsRegistry { ops: StrMap::new() };
        assert(r@ =~= Seq::<(Seq<char>, PerOpView)>::empty());
        r
    }

    /// The metrics of the operation `name`, which are made where there are
    /// none yet.
    pub fn op(&mut self, name: &str) -> (r: &mut PerOpMetrics)
        ensures
            match lookup(old(self)@, name@) {
                Some(m) => r@ == m,
                None => is_fresh(r@),
            },
            final(self)@ == put(old(self)@, name@, final(r)@),
    {
        let ghost before = self.ops.seq();
        let at: usize = match self.ops.find(name) {
            Some(i) => i,
            None => {
                let n: usize = self.ops.len();
                self.ops.insert(name.to_owned(), PerOpMetrics::new());
                n
            },
        };
        let _ = self.ops.len();
        let ghost mid = self.ops.seq();
        let m = self.ops.value_at_mut(at);
        proof {
            lemma_entry(mid, at as int);
            lemma_viewed_put(mid, name@, *final(m));
            lemma_viewed_keys(before, name@);
            if !has_key(before, name@) {
                assert(entry_views(mid) =~= entry_views(before).push((name@, mid.last().1@)));
                lemma_viewed_keys(mid, name@);
                assert(put(entry_views(mid), name@, final(m)@) =~= put(
                    entry_views(before),
                    name@,
                    final(m)@,
                ));
            } else {
                lemma_entry(before, at as int);
            }
        }
        m
    }

    /// Reports all operations as measured over `effective_ms` milliseconds.
    pub fn snapshot_pb(&self, effective_ms: u64) -> (r: StrMap<PerformanceMetrics>)
        ensures
            entry_views(r.seq()) == snapshots_of(self@, effective_ms),
    {
        let mut out: StrMap<PerformanceMetrics> = StrMap::new();
        let n: usize = self.ops.len();
        let ghost want = snapshots_of(self@, effective_ms);
        let mut i: usize = 0;
        assert(entry_views(out.seq()) =~= want.take(0));
        while i < n
            invariant
                i <= n,
                n == self.ops.seq().len(),
                keys_distinct(self.ops.seq()),
                want == snapshots_of(self@, effective_ms),
                want.len() == n,
                entry_views(out.seq()) == want.take(i as int),
            decreases n - i,
        {
            let key = self.ops.key_at(i).clone();
            let value = self.ops.value_at(i).snapshot(effective_ms);
            proof {
                assert(keys_of(out.seq()) =~= keys_of(self.ops.seq()).take(i as int)) by {
                    assert(entry_views(out.seq()).len() == out.seq().len());
                    assert forall|j: int| 0 <= j < i implies out.seq()[j].0 == self.ops.seq()[j].0 by {
                        assert(entry_views(out.seq())[j].0 == want[j].0);
                    }
                }
                lemma_new_key(self.ops.seq(), i as int, out.seq());
            }
            let ghost before = out.seq();
            out.insert(key, value);
            proof {
                assert(entry_views(out.seq()) =~= entry_views(before).push((key@, value@)));
                assert(want.take(i as int + 1) =~= want.take(i as int).push((key@, value@)));
            }
            i += 1;
        }
        assert(want.take(i as int) =~= want);
        out
    }
}

} // verus!
