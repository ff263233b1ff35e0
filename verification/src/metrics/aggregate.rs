//! The results of all workers of a job, put together.
//!
//! Counters are summed over all workers, those that failed included: what a
//! worker counted before its first error is shown. Histograms are merged over
//! the workers that succeeded, for those of the others are cut short. Rates
//! are taken over the time in which all workers that counted something were
//! measuring.

use vstd::prelude::*;

use crate::metrics::histogram::{
    decoded, encodable, merged, reads_back, HistogramView, LatencyHistogram,
};
use crate::metrics::latencies::{can_be_merged, can_be_read, lemma_total_can_be_read, told_by_all};
use crate::metrics::{
    bytes_of, encoded, error_ratio, error_share, histogram, latency_stats, millions_per_second,
    per_second, rate, stats_of, throughput,
};
use crate::pb::{
    AggregatedMetrics, AggregatedMetricsView, LatencyStats, PerformanceMetrics,
    PerformanceMetricsView, WorkerResult, WorkerResultView,
};
use crate::strmap::{
    has_key, keys_distinct, keys_of, lemma_entry, lemma_new_key, lemma_put_facts, lemma_viewed_keys,
    lemma_viewed_put, lookup, put, StrMap,
};
use crate::views::{copy_slice, entry_views, seq_views, Duplicate};

verus! {

/// The closest 64-bit integer.
pub open spec fn nearest(n: int) -> i64 {
    if n > i64::MAX {
        i64::MAX
    } else if n < i64::MIN {
        i64::MIN
    } else {
        n as i64
    }
}

/// The sum of two numbers, or the closest number where it is out of range.
pub open spec fn sum(a: i64, b: i64) -> i64 {
    nearest(a + b)
}

/// The closest 64-bit integer.
pub(crate) fn to_nearest(n: i128) -> (r: i64)
    ensures
        r == nearest(n as int),
{
    if n > i64::MAX as i128 {
        i64::MAX
    } else if n < i64::MIN as i128 {
        i64::MIN
    } else {
        n as i64
    }
}

fn saturating_add(a: i64, b: i64) -> (r: i64)
    ensures
        r == sum(a, b),
{
    to_nearest(a as i128 + b as i128)
}

/// The merged counters and histogram of one kind of operation.
struct MergedOp {
    total_ops: i64,
    total_bytes: i64,
    error_count: i64,
    histogram: Option<LatencyHistogram>,
}

/// What was merged: counters, and what the histogram holds.
#[verifier::ext_equal]
pub struct MergedView {
    pub total_ops: i64,
    pub total_bytes: i64,
    pub error_count: i64,
    pub histogram: Option<HistogramView>,
}

impl View for MergedOp {
    type V = MergedView;

    closed spec fn view(&self) -> MergedView {
        MergedView {
            total_ops: self.total_ops,
            total_bytes: self.total_bytes,
            error_count: self.error_count,
            histogram: match self.histogram {
                Some(h) => Some(h@),
                None => None,
            },
        }
    }
}

/// Nothing merged yet.
pub open spec fn nothing() -> MergedView {
    MergedView { total_ops: 0, total_bytes: 0, error_count: 0, histogram: None }
}

/// `m` with a histogram added; one that cannot be added is left out.
pub open spec fn with_histogram(m: MergedView, h: HistogramView) -> MergedView {
    MergedView {
        histogram: match m.histogram {
            None => Some(h),
            Some(own) => Some(merged(own, h)),
        },
        ..m
    }
}

/// `m` with the counters of a report added.
pub open spec fn with_counters(m: MergedView, p: PerformanceMetricsView) -> MergedView {
    MergedView {
        total_ops: sum(m.total_ops, p.total_ops),
        total_bytes: sum(m.total_bytes, p.total_bytes),
        error_count: sum(m.error_count, p.error_count),
        ..m
    }
}

/// `m` with a report added, its histogram only where `with_hist` holds and it
/// has one that can be decoded.
pub open spec fn with_report(m: MergedView, p: PerformanceMetricsView, with_hist: bool) -> MergedView {
    let c = with_counters(m, p);
    if with_hist && p.latency_histogram_hdr.len() > 0 {
        match decoded(p.latency_histogram_hdr) {
            Ok(h) => with_histogram(c, h),
            Err(_) => c,
        }
    } else {
        c
    }
}

/// `m` with what was merged elsewhere added.
pub open spec fn with_merged(m: MergedView, other: MergedView) -> MergedView {
    let c = MergedView {
        total_ops: sum(m.total_ops, other.total_ops),
        total_bytes: sum(m.total_bytes, other.total_bytes),
        error_count: sum(m.error_count, other.error_count),
        ..m
    };
    match other.histogram {
        Some(h) => with_histogram(c, h),
        None => c,
    }
}

/// The message that reports what was merged, over `ms` milliseconds.
pub open spec fn report_of(m: MergedView, ms: u64) -> PerformanceMetricsView {
    PerformanceMetricsView {
        throughput_mbps: millions_per_second(m.total_bytes as int, ms as nat),
        iops: per_second(m.total_ops as int, ms as nat),
        latency_us: Some(
            match m.histogram {
                Some(h) => stats_of(h),
                None => LatencyStats::spec_none(),
            },
        ),
        error_count: m.error_count,
        error_rate: error_share(m.error_count as int, m.total_ops as int),
        total_ops: m.total_ops,
        total_bytes: m.total_bytes,
        latency_histogram_hdr: match m.histogram {
            Some(h) => bytes_of(h),
            None => Seq::empty(),
        },
    }
}

impl MergedOp {
    fn new() -> (r: MergedOp)
        ensures
            r@ == nothing(),
    {
        MergedOp { total_ops: 0, total_bytes: 0, error_count: 0, histogram: None }
    }

    fn add_histogram(&mut self, h: &LatencyHistogram)
        ensures
            final(self)@ == with_histogram(old(self)@, h@),
    {
        match &mut self.histogram {
            Some(own) => {
                histogram::merge(own, h);
            },
            None => {
                self.histogram = Some(histogram::duplicate(h));
            },
        }
    }

    fn merge_report(&mut self, m: &PerformanceMetrics, with_hist: bool)
        ensures
            final(self)@ == with_report(old(self)@, m@, with_hist),
    {
        self.total_ops = saturating_add(self.total_ops, m.total_ops);
        self.total_bytes = saturating_add(self.total_bytes, m.total_bytes);
        self.error_count = saturating_add(self.error_count, m.error_count);
        if with_hist && m.latency_histogram_hdr.len() > 0 {
            if let Ok(h) = histogram::decode(&m.latency_histogram_hdr) {
                self.add_histogram(&h);
            }
        }
    }

    fn merge_other(&mut self, other: &MergedOp)
        ensures
            final(self)@ == with_merged(old(self)@, other@),
    {
        self.total_ops = saturating_add(self.total_ops, other.total_ops);
        self.total_bytes = saturating_add(self.total_bytes, other.total_bytes);
        self.error_count = saturating_add(self.error_count, other.error_count);
        if let Some(h) = &other.histogram {
            self.add_histogram(h);
        }
    }

    fn to_pb(&self, ms: u64) -> (r: PerformanceMetrics)
        ensures
            r@ == report_of(self@, ms),
            self@.histogram matches Some(h) ==> encodable(h.counts) ==> reads_back(
                r@.latency_histogram_hdr,
                h,
            ),
    {
        let (stats, bytes) = match &self.histogram {
            Some(h) => (latency_stats(h), encoded(h)),
            None => {
                let none: Vec<u8> = Vec::new();
                assert(none@ =~= Seq::<u8>::empty());
                (LatencyStats::none(), none)
            },
        };
        PerformanceMetrics {
            throughput_mbps: throughput(self.total_bytes as i128, ms),
            iops: rate(self.total_ops as i128, ms),
            latency_us: Some(stats),
            error_count: self.error_count,
            error_rate: error_ratio(self.error_count as i128, self.total_ops as i128),
            total_ops: self.total_ops,
            total_bytes: self.total_bytes,
            latency_histogram_hdr: bytes,
        }
    }
}

/// What is merged under `k`, which may be nothing yet.
pub open spec fn merged_under(acc: Seq<(Seq<char>, MergedView)>, k: Seq<char>) -> MergedView {
    match lookup(acc, k) {
        Some(m) => m,
        None => nothing(),
    }
}

/// `acc` with the reports of one worker merged in, each under its operation.
pub open spec fn merge_ops(
    acc: Seq<(Seq<char>, MergedView)>,
    ops: Seq<(Seq<char>, PerformanceMetricsView)>,
    with_hist: bool,
) -> Seq<(Seq<char>, MergedView)>
    decreases ops.len(),
{
    if ops.len() == 0 {
        acc
    } else {
        let before = merge_ops(acc, ops.drop_last(), with_hist);
        let (k, p) = ops.last();
        put(before, k, with_report(merged_under(before, k), p, with_hist))
    }
}

/// The reports of all workers, merged by operation.
pub open spec fn merge_workers(workers: Seq<WorkerResultView>) -> Seq<(Seq<char>, MergedView)>
    decreases workers.len(),
{
    if workers.len() == 0 {
        Seq::empty()
    } else {
        merge_ops(
            merge_workers(workers.drop_last()),
            workers.last().per_op,
            workers.last().success,
        )
    }
}

/// All operations merged into one.
pub open spec fn merge_all(ops: Seq<(Seq<char>, MergedView)>) -> MergedView
    decreases ops.len(),
{
    if ops.len() == 0 {
        nothing()
    } else {
        with_merged(merge_all(ops.drop_last()), ops.last().1)
    }
}

/// The reports of all operations over `ms` milliseconds.
pub open spec fn reports_of(ops: Seq<(Seq<char>, MergedView)>, ms: u64) -> Seq<
    (Seq<char>, PerformanceMetricsView),
> {
    ops.map_values(|e: (Seq<char>, MergedView)| (e.0, report_of(e.1, ms)))
}

/// Whether a worker counted anything.
pub open spec fn has_counters(w: WorkerResultView) -> bool {
    exists|i: int|
        0 <= i < w.per_op.len() && ((#[trigger] w.per_op[i]).1.total_ops > 0
            || w.per_op[i].1.total_bytes > 0 || w.per_op[i].1.error_count > 0)
}

/// The workers that counted anything.
pub open spec fn contributors(workers: Seq<WorkerResultView>) -> Seq<WorkerResultView>
    decreases workers.len(),
{
    if workers.len() == 0 {
        Seq::empty()
    } else if has_counters(workers.last()) {
        contributors(workers.drop_last()).push(workers.last())
    } else {
        contributors(workers.drop_last())
    }
}

/// The latest start of measuring.
pub open spec fn latest_start(workers: Seq<WorkerResultView>) -> i64
    decreases workers.len(),
{
    if workers.len() <= 1 {
        workers[0].measure_start_ms
    } else {
        let before = latest_start(workers.drop_last());
        if workers.last().measure_start_ms > before {
            workers.last().measure_start_ms
        } else {
            before
        }
    }
}

/// The earliest end of measuring.
pub open spec fn earliest_end(workers: Seq<WorkerResultView>) -> i64
    decreases workers.len(),
{
    if workers.len() <= 1 {
        workers[0].measure_end_ms
    } else {
        let before = earliest_end(workers.drop_last());
        if workers.last().measure_end_ms < before {
            workers.last().measure_end_ms
        } else {
            before
        }
    }
}

/// The shortest duration that a worker reports.
pub open spec fn shortest(workers: Seq<WorkerResultView>) -> i64
    decreases workers.len(),
{
    if workers.len() <= 1 {
        workers[0].effective_duration_ms
    } else {
        let before = shortest(workers.drop_last());
        if workers.last().effective_duration_ms < before {
            workers.last().effective_duration_ms
        } else {
            before
        }
    }
}

/// The time in which all of `workers` were measuring, in milliseconds, and
/// whether there was none. A single worker is aligned with itself: its time is
/// its span, or what it reports where it has none. Where several have no time
/// in common, the shortest duration stands in.
pub open spec fn window_of(workers: Seq<WorkerResultView>) -> (i64, bool) {
    if workers.len() == 0 {
        (0, false)
    } else if workers.len() == 1 {
        let w = workers[0];
        let span = w.measure_end_ms - w.measure_start_ms;
        if span > 0 {
            (nearest(span), false)
        } else if w.effective_duration_ms > 0 {
            (w.effective_duration_ms, false)
        } else {
            (0, false)
        }
    } else if earliest_end(workers) > latest_start(workers) {
        (nearest(earliest_end(workers) - latest_start(workers)), false)
    } else {
        (shortest(workers), true)
    }
}

/// How many workers succeeded.
pub open spec fn successes(workers: Seq<WorkerResultView>) -> nat
    decreases workers.len(),
{
    if workers.len() == 0 {
        0
    } else if workers.last().success {
        successes(workers.drop_last()) + 1
    } else {
        successes(workers.drop_last())
    }
}

/// Whether a worker reports operations without a histogram of their latencies.
pub open spec fn lacks_histogram(w: WorkerResultView) -> bool {
    exists|i: int|
        0 <= i < w.per_op.len() && (#[trigger] w.per_op[i]).1.latency_histogram_hdr.len() == 0
            && w.per_op[i].1.total_ops > 0
}

/// How many workers that succeeded lack a histogram.
pub open spec fn missing_histograms(workers: Seq<WorkerResultView>) -> nat
    decreases workers.len(),
{
    if workers.len() == 0 {
        0
    } else if workers.last().success && lacks_histogram(workers.last()) {
        missing_histograms(workers.drop_last()) + 1
    } else {
        missing_histograms(workers.drop_last())
    }
}

/// The results of a job, with how they were found.
#[derive(Debug)]
pub struct AggregatedSummary {
    pub aggregated: AggregatedMetrics,
    /// The time in which all workers that counted were measuring.
    pub effective_window_ms: i64,
    /// Whether there was no such time.
    pub window_misaligned: bool,
    pub success_worker_count: usize,
    /// How many successful workers reported operations without a histogram.
    pub missing_histogram_count: usize,
}

/// What an [`AggregatedSummary`] holds.
#[verifier::ext_equal]
pub struct SummaryView {
    pub aggregated: AggregatedMetricsView,
    pub effective_window_ms: i64,
    pub window_misaligned: bool,
    pub success_worker_count: nat,
    pub missing_histogram_count: nat,
}

impl View for AggregatedSummary {
    type V = SummaryView;

    open spec fn view(&self) -> SummaryView {
        SummaryView {
            aggregated: self.aggregated@,
            effective_window_ms: self.effective_window_ms,
            window_misaligned: self.window_misaligned,
            success_worker_count: self.success_worker_count as nat,
            missing_histogram_count: self.missing_histogram_count as nat,
        }
    }
}

/// The time over which rates are taken: at least one millisecond.
pub open spec fn rate_window(ms: i64) -> u64 {
    if ms < 1 {
        1
    } else {
        ms as u64
    }
}

/// The results of all workers, put together.
pub open spec fn summary_of(workers: Seq<WorkerResultView>) -> SummaryView {
    let (ms, misaligned) = window_of(contributors(workers));
    let per_op = merge_workers(workers);
    SummaryView {
        aggregated: AggregatedMetricsView {
            total: Some(report_of(merge_all(per_op), rate_window(ms))),
            total_per_op: reports_of(per_op, rate_window(ms)),
            per_worker: workers,
        },
        effective_window_ms: ms,
        window_misaligned: misaligned,
        success_worker_count: successes(workers),
        missing_histogram_count: missing_histograms(workers),
    }
}

fn counted(w: &WorkerResult) -> (r: bool)
    ensures
        r == has_counters(w@),
{
    let n: usize = w.per_op.len();
    let mut i: usize = 0;
    while i < n
        invariant
            i <= n,
            n == w.per_op.seq().len(),
            forall|j: int|
                0 <= j < i ==> !((#[trigger] w@.per_op[j]).1.total_ops > 0
                    || w@.per_op[j].1.total_bytes > 0 || w@.per_op[j].1.error_count > 0),
        decreases n - i,
    {
        let m = w.per_op.value_at(i);
        assert(w@.per_op[i as int].1 == m@);
        if m.total_ops > 0 || m.total_bytes > 0 || m.error_count > 0 {
            return true;
        }
        i += 1;
    }
    false
}

pub(crate) fn without_histogram(w: &WorkerResult) -> (r: bool)
    ensures
        r == lacks_histogram(w@),
{
    let n: usize = w.per_op.len();
    let mut i: usize = 0;
    while i < n
        invariant
            i <= n,
            n == w.per_op.seq().len(),
            forall|j: int|
                0 <= j < i ==> !((#[trigger] w@.per_op[j]).1.latency_histogram_hdr.len() == 0
                    && w@.per_op[j].1.total_ops > 0),
        decreases n - i,
    {
        let m = w.per_op.value_at(i);
        assert(w@.per_op[i as int].1 == m@);
        if m.latency_histogram_hdr.len() == 0 && m.total_ops > 0 {
            return true;
        }
        i += 1;
    }
    false
}

fn compute_effective_window_ms(workers: &[WorkerResult]) -> (r: (i64, bool))
    ensures
        r == window_of(contributors(seq_views(workers@))),
{
    let mut n: usize = 0;
    let mut first: usize = 0;
    let mut start: i64 = 0;
    let mut end: i64 = 0;
    let mut least: i64 = 0;
    let mut i: usize = 0;
    let ghost v = seq_views(workers@);
    while i < workers.len()
        invariant
            i <= workers@.len(),
            v == seq_views(workers@),
            n == contributors(v.take(i as int)).len(),
            n <= i,
            n > 0 ==> first < workers@.len() && contributors(v.take(i as int))[0] == v[first as int]
                && start == latest_start(contributors(v.take(i as int))) && end == earliest_end(
                contributors(v.take(i as int)),
            ) && least == shortest(contributors(v.take(i as int))),
        decreases workers@.len() - i,
    {
        let w = &workers[i];
        let ghost c = contributors(v.take(i as int));
        proof {
            assert(v.take(i as int + 1).drop_last() =~= v.take(i as int));
            assert(v.take(i as int + 1).last() == w@);
        }
        if counted(w) {
            proof {
                assert(c.push(w@).drop_last() =~= c);
                assert(c.push(w@).last() == w@);
            }
            if n == 0 {
                first = i;
                start = w.measure_start_ms;
                end = w.measure_end_ms;
                least = w.effective_duration_ms;
            } else {
                if w.measure_start_ms > start {
                    start = w.measure_start_ms;
                }
                if w.measure_end_ms < end {
                    end = w.measure_end_ms;
                }
                if w.effective_duration_ms < least {
                    least = w.effective_duration_ms;
                }
            }
            n += 1;
        }
        i += 1;
    }
    assert(v.take(i as int) =~= v);
    if n == 0 {
        (0, false)
    } else if n == 1 {
        let w = &workers[first];
        let span: i128 = w.measure_end_ms as i128 - w.measure_start_ms as i128;
        if span > 0 {
            (to_nearest(span), false)
        } else if w.effective_duration_ms > 0 {
            (w.effective_duration_ms, false)
        } else {
            (0, false)
        }
    } else if end > start {
        (to_nearest(end as i128 - start as i128), false)
    } else {
        (least, true)
    }
}

fn merge_worker(acc: &mut StrMap<MergedOp>, w: &WorkerResult)
    ensures
        entry_views(final(acc).seq()) == merge_ops(entry_views(old(acc).seq()), w@.per_op, w.success),
{
    let n: usize = w.per_op.len();
    let mut i: usize = 0;
    let ghost start = entry_views(acc.seq());
    let ghost ops = w@.per_op;
    while i < n
        invariant
            i <= n,
            n == w.per_op.seq().len(),
            ops == w@.per_op,
            entry_views(acc.seq()) == merge_ops(start, ops.take(i as int), w.success),
        decreases n - i,
    {
        let ghost k = w.per_op.seq()[i as int].0;
        proof {
            assert(ops.take(i as int + 1).drop_last() =~= ops.take(i as int));
            assert(ops.take(i as int + 1).last() == ops[i as int]);
        }
        let _ = acc.len();
        let ghost before = acc.seq();
        proof {
            lemma_viewed_keys(before, k);
        }
        let key = w.per_op.key_at(i);
        let at: usize = match acc.find(key.as_str()) {
            Some(p) => p,
            None => {
                let p: usize = acc.len();
                acc.insert(key.clone(), MergedOp::new());
                p
            },
        };
        let _ = acc.len();
        let ghost mid = acc.seq();
        let m = acc.value_at_mut(at);
        m.merge_report(w.per_op.value_at(i), w.success);
        proof {
            lemma_entry(mid, at as int);
            let now = acc.seq()[at as int].1;
            lemma_viewed_put(mid, k, now);
            if has_key(before, k) {
                lemma_entry(before, at as int);
            } else {
                assert(entry_views(mid) =~= entry_views(before).push((k, nothing())));
                lemma_viewed_keys(mid, k);
                assert(put(entry_views(mid), k, now@) =~= put(entry_views(before), k, now@));
            }
            assert(acc.seq() =~= put(mid, k, now));
        }
        i += 1;
    }
    assert(ops.take(i as int) =~= ops);
}

/// Puts the results of all workers of a job together. The latencies of all
/// workers that succeeded can be read back from the total.
#[must_use]
pub fn aggregate(workers: &[WorkerResult]) -> (r: AggregatedSummary)
    ensures
        r@ == summary_of(seq_views(workers@)),
        forall|shape: Seq<u64>, slots: nat| #[trigger]
            can_be_merged(told_by_all(seq_views(workers@)), shape, slots) ==> (
            r@.aggregated.total matches Some(p) && can_be_read(
                p,
                told_by_all(seq_views(workers@)),
                None,
                shape,
                slots,
            )),
{
    let (ms, misaligned) = compute_effective_window_ms(workers);
    let window: u64 = if ms < 1 {
        1
    } else {
        ms as u64
    };
    let mut merged: StrMap<MergedOp> = StrMap::new();
    let mut successful: usize = 0;
    let mut missing: usize = 0;
    let ghost v = seq_views(workers@);
    let mut i: usize = 0;
    assert(entry_views(merged.seq()) =~= Seq::<(Seq<char>, MergedView)>::empty());
    while i < workers.len()
        invariant
            i <= workers@.len(),
            v == seq_views(workers@),
            entry_views(merged.seq()) == merge_workers(v.take(i as int)),
            successful == successes(v.take(i as int)),
            successful <= i,
            missing == missing_histograms(v.take(i as int)),
            missing <= i,
        decreases workers@.len() - i,
    {
        let w = &workers[i];
        proof {
            assert(v.take(i as int + 1).drop_last() =~= v.take(i as int));
            assert(v.take(i as int + 1).last() == w@);
        }
        if w.success {
            successful += 1;
            if without_histogram(w) {
                missing += 1;
            }
        }
        merge_worker(&mut merged, w);
        i += 1;
    }
    assert(v.take(i as int) =~= v);
    let (total, total_per_op) = report_all(&merged, window);
    let aggregated = AggregatedMetrics {
        total: Some(total),
        total_per_op,
        per_worker: copy_slice(workers),
    };
    let r = AggregatedSummary {
        aggregated,
        effective_window_ms: ms,
        window_misaligned: misaligned,
        success_worker_count: successful,
        missing_histogram_count: missing,
    };
    proof {
        assert(r@.aggregated =~= summary_of(v).aggregated);
        let told = told_by_all(v);
        assert forall|shape: Seq<u64>, slots: nat| #[trigger]
            can_be_merged(told, shape, slots) implies (r@.aggregated.total matches Some(p)
            && can_be_read(p, told, None, shape, slots)) by {
            lemma_total_can_be_read(v, total@, shape, slots);
        }
    }
    r
}

fn report_all(merged: &StrMap<MergedOp>, window: u64) -> (r: (
    PerformanceMetrics,
    StrMap<PerformanceMetrics>,
))
    ensures
        r.0@ == report_of(merge_all(entry_views(merged.seq())), window),
        merge_all(entry_views(merged.seq())).histogram matches Some(h) ==> encodable(h.counts)
            ==> reads_back(r.0@.latency_histogram_hdr, h),
        entry_views(r.1.seq()) == reports_of(entry_views(merged.seq()), window),
{
    let mut total = MergedOp::new();
    let mut out: StrMap<PerformanceMetrics> = StrMap::new();
    let n: usize = merged.len();
    let ghost ops = entry_views(merged.seq());
    let ghost want = reports_of(ops, window);
    let mut i: usize = 0;
    assert(entry_views(out.seq()) =~= want.take(0));
    while i < n
        invariant
            i <= n,
            n == merged.seq().len(),
            keys_distinct(merged.seq()),
            ops == entry_views(merged.seq()),
            want == reports_of(ops, window),
            want.len() == n,
            total@ == merge_all(ops.take(i as int)),
            entry_views(out.seq()) == want.take(i as int),
        decreases n - i,
    {
        let key = merged.key_at(i).clone();
        let m = merged.value_at(i);
        proof {
            assert(ops.take(i as int + 1).drop_last() =~= ops.take(i as int));
            assert(ops.take(i as int + 1).last() == ops[i as int]);
            assert(ops[i as int].1 == m@);
            assert(keys_of(out.seq()) =~= keys_of(merged.seq()).take(i as int)) by {
                assert(entry_views(out.seq()).len() == out.seq().len());
                assert forall|j: int| 0 <= j < i implies out.seq()[j].0 == merged.seq()[j].0 by {
                    assert(entry_views(out.seq())[j].0 == want[j].0);
                }
            }
            lemma_new_key(merged.seq(), i as int, out.seq());
        }
        total.merge_other(m);
        let ghost before = out.seq();
        let value = m.to_pb(window);
        out.insert(key, value);
        proof {
            assert(entry_views(out.seq()) =~= entry_views(before).push((key@, value@)));
            assert(want.take(i as int + 1) =~= want.take(i as int).push((key@, value@)));
        }
        i += 1;
    }
    assert(want.take(i as int) =~= want);
    assert(ops.take(i as int) =~= ops);
    (total.to_pb(window), out)
}

/// What is counted.
pub enum Counter {
    Operations,
    Bytes,
    Errors,
}

/// A counter of a report.
pub open spec fn reported(p: PerformanceMetricsView, c: Counter) -> i64 {
    match c {
        Counter::Operations => p.total_ops,
        Counter::Bytes => p.total_bytes,
        Counter::Errors => p.error_count,
    }
}

/// A counter of what was merged.
pub open spec fn counted_in(m: MergedView, c: Counter) -> i64 {
    match c {
        Counter::Operations => m.total_ops,
        Counter::Bytes => m.total_bytes,
        Counter::Errors => m.error_count,
    }
}

/// The sum of a counter over operations.
pub open spec fn sum_over_ops(ops: Seq<(Seq<char>, PerformanceMetricsView)>, c: Counter) -> int
    decreases ops.len(),
{
    if ops.len() == 0 {
        0
    } else {
        sum_over_ops(ops.drop_last(), c) + reported(ops.last().1, c)
    }
}

/// The sum of a counter over all operations of all workers.
pub open spec fn sum_over_workers(workers: Seq<WorkerResultView>, c: Counter) -> int
    decreases workers.len(),
{
    if workers.len() == 0 {
        0
    } else {
        sum_over_workers(workers.drop_last(), c) + sum_over_ops(workers.last().per_op, c)
    }
}

/// Whether a counter is negative nowhere.
pub open spec fn never_negative(workers: Seq<WorkerResultView>, c: Counter) -> bool {
    forall|i: int, k: int|
        0 <= i < workers.len() && 0 <= k < workers[i].per_op.len() ==> reported(
            (#[trigger] workers[i].per_op[k]).1,
            c,
        ) >= 0
}

spec fn sum_merged(acc: Seq<(Seq<char>, MergedView)>, c: Counter) -> int
    decreases acc.len(),
{
    if acc.len() == 0 {
        0
    } else {
        sum_merged(acc.drop_last(), c) + counted_in(acc.last().1, c)
    }
}

spec fn no_negative_merged(acc: Seq<(Seq<char>, MergedView)>, c: Counter) -> bool {
    forall|i: int| 0 <= i < acc.len() ==> counted_in((#[trigger] acc[i]).1, c) >= 0
}

proof fn lemma_sum_update(acc: Seq<(Seq<char>, MergedView)>, i: int, e: (Seq<char>, MergedView), c: Counter)
    requires
        0 <= i < acc.len(),
    ensures
        sum_merged(acc.update(i, e), c) == sum_merged(acc, c) - counted_in(acc[i].1, c)
            + counted_in(e.1, c),
    decreases acc.len(),
{
    let t = acc.update(i, e);
    if i == acc.len() - 1 {
        assert(t.drop_last() =~= acc.drop_last());
    } else {
        assert(t.drop_last() =~= acc.drop_last().update(i, e));
        lemma_sum_update(acc.drop_last(), i, e, c);
    }
}

proof fn lemma_part_of_sum(acc: Seq<(Seq<char>, MergedView)>, i: int, c: Counter)
    requires
        no_negative_merged(acc, c),
    ensures
        sum_merged(acc, c) >= 0,
        0 <= i < acc.len() ==> counted_in(acc[i].1, c) <= sum_merged(acc, c),
    decreases acc.len(),
{
    if acc.len() > 0 {
        let head = acc.drop_last();
        assert forall|k: int| 0 <= k < head.len() implies counted_in((#[trigger] head[k]).1, c)
            >= 0 by {
            assert(head[k] == acc[k]);
        }
        lemma_part_of_sum(head, i, c);
        assert(counted_in(acc[acc.len() - 1].1, c) >= 0);
    }
}

proof fn lemma_merge_one(
    acc: Seq<(Seq<char>, MergedView)>,
    k: Seq<char>,
    p: PerformanceMetricsView,
    with_hist: bool,
    c: Counter,
)
    requires
        keys_distinct(acc),
        no_negative_merged(acc, c),
        reported(p, c) >= 0,
        sum_merged(acc, c) + reported(p, c) <= i64::MAX,
    ensures
        ({
            let next = put(acc, k, with_report(merged_under(acc, k), p, with_hist));
            &&& keys_distinct(next)
            &&& no_negative_merged(next, c)
            &&& sum_merged(next, c) == sum_merged(acc, c) + reported(p, c)
        }),
{
    let m = with_report(merged_under(acc, k), p, with_hist);
    let next = put(acc, k, m);
    lemma_put_facts(acc, k, m);
    if has_key(acc, k) {
        let i = choose|i: int| 0 <= i < acc.len() && #[trigger] acc[i].0 == k;
        lemma_entry(acc, i);
        lemma_part_of_sum(acc, i, c);
        lemma_sum_update(acc, i, (k, m), c);
    } else {
        lemma_part_of_sum(acc, 0, c);
        assert(next.drop_last() =~= acc);
    }
    assert forall|i: int| 0 <= i < next.len() implies counted_in((#[trigger] next[i]).1, c) >= 0 by {
        if next[i] != (k, m) {
            assert(next[i] == acc[i]);
        }
    }
}

proof fn lemma_ops_sum_positive(ops: Seq<(Seq<char>, PerformanceMetricsView)>, c: Counter)
    requires
        forall|k: int| 0 <= k < ops.len() ==> reported((#[trigger] ops[k]).1, c) >= 0,
    ensures
        sum_over_ops(ops, c) >= 0,
    decreases ops.len(),
{
    if ops.len() > 0 {
        let head = ops.drop_last();
        assert forall|k: int| 0 <= k < head.len() implies reported((#[trigger] head[k]).1, c) >= 0 by {
            assert(head[k] == ops[k]);
        }
        lemma_ops_sum_positive(head, c);
        assert(reported(ops[ops.len() - 1].1, c) >= 0);
    }
}

proof fn lemma_merge_ops(
    acc: Seq<(Seq<char>, MergedView)>,
    ops: Seq<(Seq<char>, PerformanceMetricsView)>,
    with_hist: bool,
    c: Counter,
)
    requires
        keys_distinct(acc),
        no_negative_merged(acc, c),
        forall|k: int| 0 <= k < ops.len() ==> reported((#[trigger] ops[k]).1, c) >= 0,
        sum_merged(acc, c) + sum_over_ops(ops, c) <= i64::MAX,
    ensures
        keys_distinct(merge_ops(acc, ops, with_hist)),
        no_negative_merged(merge_ops(acc, ops, with_hist), c),
        sum_merged(merge_ops(acc, ops, with_hist), c) == sum_merged(acc, c) + sum_over_ops(ops, c),
    decreases ops.len(),
{
    if ops.len() > 0 {
        let head = ops.drop_last();
        assert forall|k: int| 0 <= k < head.len() implies reported((#[trigger] head[k]).1, c) >= 0 by {
            assert(head[k] == ops[k]);
        }
        assert(reported(ops[ops.len() - 1].1, c) >= 0);
        lemma_merge_ops(acc, head, with_hist, c);
        let before = merge_ops(acc, head, with_hist);
        lemma_merge_one(before, ops.last().0, ops.last().1, with_hist, c);
    }
}

proof fn lemma_merge_workers(workers: Seq<WorkerResultView>, c: Counter)
    requires
        never_negative(workers, c),
        sum_over_workers(workers, c) <= i64::MAX,
    ensures
        keys_distinct(merge_workers(workers)),
        no_negative_merged(merge_workers(workers), c),
        sum_merged(merge_workers(workers), c) == sum_over_workers(workers, c),
    decreases workers.len(),
{
    if workers.len() > 0 {
        let head = workers.drop_last();
        let ops = workers.last().per_op;
        assert forall|i: int, k: int|
            0 <= i < head.len() && 0 <= k < head[i].per_op.len() implies reported(
            (#[trigger] head[i].per_op[k]).1,
            c,
        ) >= 0 by {
            assert(head[i].per_op[k] == workers[i].per_op[k]);
        }
        assert forall|k: int| 0 <= k < ops.len() implies reported((#[trigger] ops[k]).1, c) >= 0 by {
            assert(workers[workers.len() - 1].per_op[k] == ops[k]);
        }
        lemma_ops_sum_positive(ops, c);
        lemma_merge_workers(head, c);
        lemma_merge_ops(merge_workers(head), ops, workers.last().success, c);
    }
}

proof fn lemma_merge_all(ops: Seq<(Seq<char>, MergedView)>, c: Counter)
    requires
        no_negative_merged(ops, c),
        sum_merged(ops, c) <= i64::MAX,
    ensures
        counted_in(merge_all(ops), c) == sum_merged(ops, c),
        sum_merged(ops, c) >= 0,
    decreases ops.len(),
{
    lemma_part_of_sum(ops, 0, c);
    if ops.len() > 0 {
        let head = ops.drop_last();
        assert forall|k: int| 0 <= k < head.len() implies counted_in((#[trigger] head[k]).1, c)
            >= 0 by {
            assert(head[k] == ops[k]);
        }
        assert(counted_in(ops[ops.len() - 1].1, c) >= 0);
        lemma_merge_all(head, c);
    }
}

/// What is counted over all workers is the sum of what they counted, those that
/// failed included, as long as it fits in 64 bits.
pub proof fn law_totals_are_sums(workers: Seq<WorkerResultView>, c: Counter)
    requires
        never_negative(workers, c),
        sum_over_workers(workers, c) <= i64::MAX,
    ensures
        summary_of(workers).aggregated.total matches Some(t) && reported(t, c) == sum_over_workers(
            workers,
            c,
        ),
{
    lemma_merge_workers(workers, c);
    lemma_merge_all(merge_workers(workers), c);
}

/// The sum of a counter over what is told of the operation `k`.
pub open spec fn sum_over_op(
    ops: Seq<(Seq<char>, PerformanceMetricsView)>,
    k: Seq<char>,
    c: Counter,
) -> int
    decreases ops.len(),
{
    if ops.len() == 0 {
        0
    } else {
        sum_over_op(ops.drop_last(), k, c) + (if ops.last().0 == k {
            reported(ops.last().1, c) as int
        } else {
            0
        })
    }
}

/// The sum of a counter over what all workers tell of the operation `k`.
pub open spec fn sum_of_op(workers: Seq<WorkerResultView>, k: Seq<char>, c: Counter) -> int
    decreases workers.len(),
{
    if workers.len() == 0 {
        0
    } else {
        sum_of_op(workers.drop_last(), k, c) + sum_over_op(workers.last().per_op, k, c)
    }
}

/// Whether a worker tells of the operation `k`.
pub open spec fn told_of(workers: Seq<WorkerResultView>, k: Seq<char>) -> bool {
    exists|i: int| 0 <= i < workers.len() && has_key((#[trigger] workers[i]).per_op, k)
}

proof fn lemma_key_in_parts<V>(ops: Seq<(Seq<char>, V)>, k: Seq<char>)
    requires
        ops.len() > 0,
    ensures
        has_key(ops, k) <==> has_key(ops.drop_last(), k) || ops.last().0 == k,
{
    let head = ops.drop_last();
    if has_key(ops, k) {
        let i = choose|i: int| 0 <= i < ops.len() && #[trigger] ops[i].0 == k;
        if i < head.len() {
            assert(head[i].0 == k);
        }
    }
    if has_key(head, k) {
        let i = choose|i: int| 0 <= i < head.len() && #[trigger] head[i].0 == k;
        assert(ops[i].0 == k);
    }
    if ops.last().0 == k {
        assert(ops[ops.len() - 1].0 == k);
    }
}

proof fn lemma_op_sums(
    acc: Seq<(Seq<char>, MergedView)>,
    ops: Seq<(Seq<char>, PerformanceMetricsView)>,
    with_hist: bool,
    k: Seq<char>,
    c: Counter,
)
    requires
        keys_distinct(acc),
        counted_in(merged_under(acc, k), c) >= 0,
        forall|i: int| 0 <= i < ops.len() ==> reported((#[trigger] ops[i]).1, c) >= 0,
        counted_in(merged_under(acc, k), c) + sum_over_op(ops, k, c) <= i64::MAX,
    ensures
        sum_over_op(ops, k, c) >= 0,
        keys_distinct(merge_ops(acc, ops, with_hist)),
        has_key(merge_ops(acc, ops, with_hist), k) <==> has_key(acc, k) || has_key(ops, k),
        counted_in(merged_under(merge_ops(acc, ops, with_hist), k), c) == counted_in(
            merged_under(acc, k),
            c,
        ) + sum_over_op(ops, k, c),
    decreases ops.len(),
{
    if ops.len() > 0 {
        let head = ops.drop_last();
        assert forall|i: int| 0 <= i < head.len() implies reported((#[trigger] head[i]).1, c) >= 0 by {
            assert(head[i] == ops[i]);
        }
        assert(reported(ops[ops.len() - 1].1, c) >= 0);
        lemma_op_sums(acc, head, with_hist, k, c);
        lemma_key_in_parts(ops, k);
        let before = merge_ops(acc, head, with_hist);
        let (l, p) = ops.last();
        lemma_put_facts(before, l, with_report(merged_under(before, l), p, with_hist));
    }
}

proof fn lemma_told_in_parts(workers: Seq<WorkerResultView>, k: Seq<char>)
    requires
        workers.len() > 0,
    ensures
        told_of(workers, k) <==> told_of(workers.drop_last(), k) || has_key(
            workers.last().per_op,
            k,
        ),
{
    let head = workers.drop_last();
    if told_of(workers, k) {
        let i = choose|i: int| 0 <= i < workers.len() && has_key((#[trigger] workers[i]).per_op, k);
        if i < head.len() {
            assert(has_key(head[i].per_op, k));
        }
    }
    if told_of(head, k) {
        let i = choose|i: int| 0 <= i < head.len() && has_key((#[trigger] head[i]).per_op, k);
        assert(has_key(workers[i].per_op, k));
    }
    if has_key(workers.last().per_op, k) {
        assert(has_key(workers[workers.len() - 1].per_op, k));
    }
}

proof fn lemma_worker_op_sums(workers: Seq<WorkerResultView>, k: Seq<char>, c: Counter)
    requires
        never_negative(workers, c),
        sum_of_op(workers, k, c) <= i64::MAX,
    ensures
        keys_distinct(merge_workers(workers)),
        has_key(merge_workers(workers), k) <==> told_of(workers, k),
        counted_in(merged_under(merge_workers(workers), k), c) == sum_of_op(workers, k, c),
        sum_of_op(workers, k, c) >= 0,
    decreases workers.len(),
{
    if workers.len() > 0 {
        let head = workers.drop_last();
        let ops = workers.last().per_op;
        assert forall|i: int, j: int|
            0 <= i < head.len() && 0 <= j < head[i].per_op.len() implies reported(
            (#[trigger] head[i].per_op[j]).1,
            c,
        ) >= 0 by {
            assert(head[i].per_op[j] == workers[i].per_op[j]);
        }
        assert forall|j: int| 0 <= j < ops.len() implies reported((#[trigger] ops[j]).1, c) >= 0 by {
            assert(workers[workers.len() - 1].per_op[j] == ops[j]);
        }
        lemma_op_sum_positive(ops, k, c);
        lemma_worker_op_sums(head, k, c);
        lemma_op_sums(merge_workers(head), ops, workers.last().success, k, c);
        lemma_told_in_parts(workers, k);
    }
}

proof fn lemma_op_sum_positive(
    ops: Seq<(Seq<char>, PerformanceMetricsView)>,
    k: Seq<char>,
    c: Counter,
)
    requires
        forall|i: int| 0 <= i < ops.len() ==> reported((#[trigger] ops[i]).1, c) >= 0,
    ensures
        sum_over_op(ops, k, c) >= 0,
    decreases ops.len(),
{
    if ops.len() > 0 {
        let head = ops.drop_last();
        assert forall|i: int| 0 <= i < head.len() implies reported((#[trigger] head[i]).1, c) >= 0 by {
            assert(head[i] == ops[i]);
        }
        assert(reported(ops[ops.len() - 1].1, c) >= 0);
        lemma_op_sum_positive(head, k, c);
    }
}

/// Of each operation, what is counted over all workers is the sum of what they
/// counted, those that failed included, as long as it fits in 64 bits; and an
/// operation is reported where a worker tells of it.
pub proof fn law_operations_are_sums(workers: Seq<WorkerResultView>, k: Seq<char>, c: Counter)
    requires
        never_negative(workers, c),
        sum_of_op(workers, k, c) <= i64::MAX,
    ensures
        match lookup(summary_of(workers).aggregated.total_per_op, k) {
            Some(p) => told_of(workers, k) && reported(p, c) == sum_of_op(workers, k, c),
            None => !told_of(workers, k),
        },
{
    lemma_worker_op_sums(workers, k, c);
    let ops = merge_workers(workers);
    let ms = rate_window(window_of(contributors(workers)).0);
    let told = reports_of(ops, ms);
    assert(keys_of(told) =~= keys_of(ops));
    assert forall|i: int, j: int| 0 <= i < j < told.len() implies #[trigger] told[i].0
        != #[trigger] told[j].0 by {
        assert(ops[i].0 != ops[j].0);
    }
    if has_key(ops, k) {
        let i = choose|i: int| 0 <= i < ops.len() && #[trigger] ops[i].0 == k;
        lemma_entry(ops, i);
        assert(told[i].0 == k);
        lemma_entry(told, i);
        assert(told[i].1 == report_of(ops[i].1, ms));
    } else if has_key(told, k) {
        let i = choose|i: int| 0 <= i < told.len() && #[trigger] told[i].0 == k;
        assert(ops[i].0 == k);
    }
}

/// Whether two reports have the same counters.
pub open spec fn count_the_same(p: PerformanceMetricsView, q: PerformanceMetricsView) -> bool {
    p.total_ops == q.total_ops && p.total_bytes == q.total_bytes && p.error_count == q.error_count
}

/// Whether two workers tell the same, or both failed and count the same.
pub open spec fn same_or_failed(v: WorkerResultView, w: WorkerResultView) -> bool {
    ||| v == w
    ||| {
        &&& !v.success && !w.success
        &&& v.per_op.len() == w.per_op.len()
        &&& forall|k: int|
            0 <= k < v.per_op.len() ==> (#[trigger] v.per_op[k]).0 == w.per_op[k].0
                && count_the_same(v.per_op[k].1, w.per_op[k].1)
    }
}

proof fn lemma_only_counters_count(
    acc: Seq<(Seq<char>, MergedView)>,
    a: Seq<(Seq<char>, PerformanceMetricsView)>,
    b: Seq<(Seq<char>, PerformanceMetricsView)>,
)
    requires
        a.len() == b.len(),
        forall|k: int|
            0 <= k < a.len() ==> (#[trigger] a[k]).0 == b[k].0 && count_the_same(a[k].1, b[k].1),
    ensures
        merge_ops(acc, a, false) == merge_ops(acc, b, false),
    decreases a.len(),
{
    if a.len() > 0 {
        assert forall|k: int| 0 <= k < a.len() - 1 implies (#[trigger] a.drop_last()[k]).0
            == b.drop_last()[k].0 && count_the_same(a.drop_last()[k].1, b.drop_last()[k].1) by {
            assert(a.drop_last()[k] == a[k]);
        }
        assert(a[a.len() - 1].0 == b[b.len() - 1].0);
        lemma_only_counters_count(acc, a.drop_last(), b.drop_last());
    }
}

/// Nothing but the counters of a worker that failed goes into what is merged:
/// its histograms could be any others.
pub proof fn law_failed_histograms_stay_out(
    a: Seq<WorkerResultView>,
    b: Seq<WorkerResultView>,
)
    requires
        a.len() == b.len(),
        forall|i: int| 0 <= i < a.len() ==> same_or_failed(#[trigger] a[i], b[i]),
    ensures
        merge_workers(a) == merge_workers(b),
        merge_all(merge_workers(a)) == merge_all(merge_workers(b)),
    decreases a.len(),
{
    if a.len() > 0 {
        assert forall|i: int| 0 <= i < a.len() - 1 implies same_or_failed(
            #[trigger] a.drop_last()[i],
            b.drop_last()[i],
        ) by {
            assert(a.drop_last()[i] == a[i]);
        }
        law_failed_histograms_stay_out(a.drop_last(), b.drop_last());
        let (v, w) = (a.last(), b.last());
        assert(same_or_failed(a[a.len() - 1], b[b.len() - 1]));
        if v != w {
            lemma_only_counters_count(merge_workers(a.drop_last()), v.per_op, w.per_op);
        }
    }
}

} // verus!
