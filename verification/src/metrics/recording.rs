//! What is recorded of operations, and what is reported of it.

use vstd::prelude::*;

use crate::metrics::histogram::{encodable, encoding_of, slot_of, top_of, HistogramView};
use crate::metrics::{snapshot_of, snapshots_of, with_error, with_op, PerOpView};
use crate::pb::{LatencyStats, Number, PerformanceMetricsView};

verus! {

/// How many latencies the first `n` slots hold.
pub open spec fn held(counts: Seq<u64>, n: int) -> int
    decreases n,
{
    if n <= 0 {
        0
    } else {
        held(counts, n - 1) + counts[n - 1]
    }
}

proof fn lemma_one_more(a: Seq<u64>, b: Seq<u64>, slot: int, n: int)
    requires
        0 <= slot < a.len(),
        0 <= n <= a.len(),
        a[slot] < u64::MAX,
        b == a.update(slot, (a[slot] + 1) as u64),
    ensures
        held(b, n) == held(a, n) + if slot < n {
            1int
        } else {
            0
        },
    decreases n,
{
    if n > 0 {
        lemma_one_more(a, b, slot, n - 1);
    }
}

/// An operation that succeeded adds one to the operations, its bytes to the bytes,
/// and its latency to the slot that it falls into; one that is too long to be
/// tracked, to the last that is tracked. Nothing else changes.
pub proof fn law_operations_are_recorded(m: PerOpView, latency_us: u64, bytes: u64, slot: int)
    requires
        m.total_ops < u64::MAX,
        m.total_bytes + bytes <= u64::MAX,
        slot == slot_of(
            m.histogram.shape,
            if latency_us <= m.histogram.shape[1] {
                latency_us
            } else {
                m.histogram.shape[1]
            },
        ),
        0 <= slot < m.histogram.counts.len(),
        m.histogram.counts[slot] < u64::MAX,
    ensures
        with_op(m, latency_us, bytes).total_ops == m.total_ops + 1,
        with_op(m, latency_us, bytes).total_bytes == m.total_bytes + bytes,
        with_op(m, latency_us, bytes).error_count == m.error_count,
        with_op(m, latency_us, bytes).histogram.shape == m.histogram.shape,
        with_op(m, latency_us, bytes).histogram.counts.len() == m.histogram.counts.len(),
        with_op(m, latency_us, bytes).histogram.counts[slot] == m.histogram.counts[slot] + 1,
        forall|i: int|
            0 <= i < m.histogram.counts.len() && i != slot ==> #[trigger] with_op(
                m,
                latency_us,
                bytes,
            ).histogram.counts[i] == m.histogram.counts[i],
        held(
            with_op(m, latency_us, bytes).histogram.counts,
            m.histogram.counts.len() as int,
        ) == held(m.histogram.counts, m.histogram.counts.len() as int) + 1,
        with_op(m, latency_us, bytes).histogram.maximum >= m.histogram.maximum,
        latency_us <= m.histogram.shape[1] ==> with_op(m, latency_us, bytes).histogram.maximum
            >= top_of(m.histogram.shape, latency_us),
        with_op(m, latency_us, bytes).histogram.maximum > m.histogram.maximum && latency_us
            <= m.histogram.shape[1] ==> with_op(m, latency_us, bytes).histogram.maximum == top_of(
            m.histogram.shape,
            latency_us,
        ),
{
    lemma_one_more(
        m.histogram.counts,
        with_op(m, latency_us, bytes).histogram.counts,
        slot,
        m.histogram.counts.len() as int,
    );
}

/// An operation that failed adds one to the operations and to the errors, and has
/// no latency.
pub proof fn law_failures_are_recorded(m: PerOpView)
    requires
        m.total_ops < u64::MAX,
        m.error_count < u64::MAX,
    ensures
        with_error(m).total_ops == m.total_ops + 1,
        with_error(m).error_count == m.error_count + 1,
        with_error(m).total_bytes == m.total_bytes,
        with_error(m).histogram == m.histogram,
{
}

/// Whether a number is `a` divided by `b`.
pub open spec fn is_quotient(n: Number, a: int, b: int) -> bool {
    n matches Number::Ratio { num, den } && den > 0 && num * b == a * den
}

/// Whether statistics are those of a histogram: quantiles, the largest value and
/// the mean; and all zero where it is empty.
pub open spec fn are_stats_of(l: LatencyStats, h: HistogramView) -> bool {
    if exists|i: int| 0 <= i < h.counts.len() && #[trigger] h.counts[i] > 0 {
        &&& l.p50 == (Number::Quantile { permille: 500 })
        &&& l.p95 == (Number::Quantile { permille: 950 })
        &&& l.p99 == (Number::Quantile { permille: 990 })
        &&& l.p999 == (Number::Quantile { permille: 999 })
        &&& is_quotient(l.max, h.maximum as int, 1)
        &&& l.avg == Number::Mean
    } else {
        &&& l.p50 == Number::spec_zero()
        &&& l.p95 == Number::spec_zero()
        &&& l.p99 == Number::spec_zero()
        &&& l.p999 == Number::spec_zero()
        &&& l.max == Number::spec_zero()
        &&& l.avg == Number::spec_zero()
    }
}

/// Whether a report shows metrics over `ms` milliseconds: counts, rates per second
/// and the share of failures.
pub open spec fn reports(p: PerformanceMetricsView, m: PerOpView, ms: u64) -> bool {
    &&& m.total_ops <= i64::MAX ==> p.total_ops == m.total_ops
    &&& m.total_bytes <= i64::MAX ==> p.total_bytes == m.total_bytes
    &&& m.error_count <= i64::MAX ==> p.error_count == m.error_count
    &&& ms > 0 ==> is_quotient(p.iops, 1000 * m.total_ops, ms as int)
    &&& ms > 0 ==> is_quotient(p.throughput_mbps, 1000 * m.total_bytes, 1_000_000 * ms)
    &&& ms == 0 ==> p.iops == Number::spec_zero() && p.throughput_mbps == Number::spec_zero()
    &&& m.total_ops > 0 ==> is_quotient(p.error_rate, m.error_count as int, m.total_ops as int)
    &&& m.total_ops == 0 ==> p.error_rate == Number::spec_zero()
    &&& p.latency_us matches Some(l) && are_stats_of(l, m.histogram)
    &&& encodable(m.histogram.counts) ==> p.latency_histogram_hdr == encoding_of(
        m.histogram.shape,
        m.histogram.counts,
    )
}

/// A report shows what was recorded, over the time that was measured.
pub proof fn law_reports_show_what_was_recorded(m: PerOpView, ms: u64)
    ensures
        reports(snapshot_of(m, ms), m, ms),
{
    let bytes = m.total_bytes as int;
    assert(bytes * (1_000_000 * ms) == 1000 * bytes * (ms * 1000)) by (nonlinear_arith);
}

/// Each operation is reported under its name.
pub proof fn law_all_operations_are_reported(ops: Seq<(Seq<char>, PerOpView)>, ms: u64, k: int)
    requires
        0 <= k < ops.len(),
    ensures
        snapshots_of(ops, ms).len() == ops.len(),
        snapshots_of(ops, ms)[k].0 == ops[k].0,
        reports(snapshots_of(ops, ms)[k].1, ops[k].1, ms),
{
    law_reports_show_what_was_recorded(ops[k].1, ms);
}

} // verus!
