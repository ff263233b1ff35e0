//! The time in which several workers were measuring, and the rates over it.

use vstd::prelude::*;

use crate::metrics::aggregate::{
    contributors, earliest_end, has_counters, lacks_histogram, latest_start, merge_all,
    merge_workers, missing_histograms, rate_window, report_of, reports_of, shortest, successes,
    summary_of, window_of,
};
use crate::pb::{Number, PerformanceMetricsView, WorkerResultView};

verus! {

/// Whether a worker counted an operation, a byte or an error.
pub open spec fn did_something(w: WorkerResultView) -> bool {
    exists|k: int|
        0 <= k < w.per_op.len() && ({
            let p = (#[trigger] w.per_op[k]).1;
            p.total_ops > 0 || p.total_bytes > 0 || p.error_count > 0
        })
}

/// Whether the `n`th worker is one that `p` tells of.
pub open spec fn is_one(workers: Seq<WorkerResultView>, p: spec_fn(WorkerResultView) -> bool, n: int) -> bool {
    0 <= n < workers.len() && p(workers[n])
}

/// Whether the last of those that `p` tells of to start measuring did so at `t`.
pub open spec fn last_to_start(
    workers: Seq<WorkerResultView>,
    p: spec_fn(WorkerResultView) -> bool,
    t: i64,
) -> bool {
    &&& exists|n: int| #[trigger] is_one(workers, p, n) && workers[n].measure_start_ms == t
    &&& forall|n: int| #[trigger] is_one(workers, p, n) ==> workers[n].measure_start_ms <= t
}

/// Whether the first of those that `p` tells of to stop measuring did so at `t`.
pub open spec fn first_to_stop(
    workers: Seq<WorkerResultView>,
    p: spec_fn(WorkerResultView) -> bool,
    t: i64,
) -> bool {
    &&& exists|n: int| #[trigger] is_one(workers, p, n) && workers[n].measure_end_ms == t
    &&& forall|n: int| #[trigger] is_one(workers, p, n) ==> workers[n].measure_end_ms >= t
}

/// Whether the shortest duration that one of those reports that `p` tells of is
/// `d`.
pub open spec fn least_duration(
    workers: Seq<WorkerResultView>,
    p: spec_fn(WorkerResultView) -> bool,
    d: int,
) -> bool {
    &&& exists|n: int| #[trigger] is_one(workers, p, n) && workers[n].effective_duration_ms == d
    &&& forall|n: int| #[trigger] is_one(workers, p, n) ==> workers[n].effective_duration_ms >= d
}

/// Whether `some` are those of `workers` that `p` tells of, at the places `from`.
pub(crate) open spec fn picked(
    workers: Seq<WorkerResultView>,
    some: Seq<WorkerResultView>,
    p: spec_fn(WorkerResultView) -> bool,
    from: Seq<int>,
) -> bool {
    &&& from.len() == some.len()
    &&& forall|i: int|
        0 <= i < from.len() ==> is_one(workers, p, #[trigger] from[i]) && workers[from[i]]
            == some[i]
    &&& forall|i: int, j: int| 0 <= i < j < from.len() ==> #[trigger] from[i] < #[trigger] from[j]
    &&& forall|n: int| #[trigger] is_one(workers, p, n) ==> from.contains(n)
}

/// One worker more is picked if `p` tells of it.
pub(crate) proof fn lemma_picked_more(
    workers: Seq<WorkerResultView>,
    some: Seq<WorkerResultView>,
    p: spec_fn(WorkerResultView) -> bool,
    from: Seq<int>,
) -> (more: Seq<int>)
    requires
        workers.len() > 0,
        picked(workers.drop_last(), some, p, from),
    ensures
        p(workers.last()) ==> picked(workers, some.push(workers.last()), p, more),
        !p(workers.last()) ==> picked(workers, some, p, more),
{
    let head = workers.drop_last();
    let last = workers.len() - 1;
    let more = if p(workers.last()) {
        from.push(last)
    } else {
        from
    };
    assert forall|i: int| 0 <= i < from.len() implies is_one(workers, p, #[trigger] from[i])
        && workers[from[i]] == some[i] by {
        assert(is_one(head, p, from[i]));
        assert(head[from[i]] == workers[from[i]]);
    }
    assert forall|i: int| 0 <= i < more.len() implies is_one(workers, p, #[trigger] more[i]) by {
        if i < from.len() {
            assert(more[i] == from[i]);
        }
    }
    assert forall|i: int, j: int| 0 <= i < j < more.len() implies #[trigger] more[i]
        < #[trigger] more[j] by {
        assert(more[i] == from[i]);
        assert(is_one(head, p, from[i]));
        if j < from.len() {
            assert(more[j] == from[j]);
        }
    }
    assert forall|n: int| #[trigger] is_one(workers, p, n) implies more.contains(n) by {
        if n < last {
            assert(is_one(head, p, n));
            let i = choose|i: int| 0 <= i < from.len() && from[i] == n;
            assert(more[i] == n);
        } else {
            assert(more[more.len() - 1] == n);
        }
    }
    more
}

/// Of workers that were picked, the last start and the first stop are those of all
/// that could be.
pub(crate) proof fn lemma_times_of_picked(
    workers: Seq<WorkerResultView>,
    some: Seq<WorkerResultView>,
    p: spec_fn(WorkerResultView) -> bool,
    from: Seq<int>,
)
    requires
        picked(workers, some, p, from),
        some.len() > 0,
    ensures
        last_to_start(workers, p, latest_start(some)),
        first_to_stop(workers, p, earliest_end(some)),
        least_duration(workers, p, shortest(some) as int),
{
    lemma_extremes(some);
    let a = choose|i: int|
        0 <= i < some.len() && (#[trigger] some[i]).measure_start_ms == latest_start(some);
    let b = choose|i: int|
        0 <= i < some.len() && (#[trigger] some[i]).measure_end_ms == earliest_end(some);
    let c = choose|i: int|
        0 <= i < some.len() && (#[trigger] some[i]).effective_duration_ms == shortest(some);
    assert(is_one(workers, p, from[a]) && is_one(workers, p, from[b]) && is_one(
        workers,
        p,
        from[c],
    ));
    assert forall|n: int| #[trigger] is_one(workers, p, n) implies workers[n].measure_start_ms
        <= latest_start(some) && workers[n].measure_end_ms >= earliest_end(some)
        && workers[n].effective_duration_ms >= shortest(some) by {
        let i = choose|i: int| 0 <= i < from.len() && from[i] == n;
        assert(workers[from[i]] == some[i]);
    }
}

proof fn lemma_extremes(some: Seq<WorkerResultView>)
    requires
        some.len() > 0,
    ensures
        exists|i: int|
            0 <= i < some.len() && (#[trigger] some[i]).measure_start_ms == latest_start(some),
        exists|i: int|
            0 <= i < some.len() && (#[trigger] some[i]).measure_end_ms == earliest_end(some),
        exists|i: int|
            0 <= i < some.len() && (#[trigger] some[i]).effective_duration_ms == shortest(some),
        forall|i: int|
            0 <= i < some.len() ==> (#[trigger] some[i]).measure_start_ms <= latest_start(some)
                && some[i].measure_end_ms >= earliest_end(some) && some[i].effective_duration_ms
                >= shortest(some),
    decreases some.len(),
{
    if some.len() == 1 {
        assert(some[0].measure_start_ms == latest_start(some));
        assert(some[0].measure_end_ms == earliest_end(some));
        assert(some[0].effective_duration_ms == shortest(some));
    } else {
        let head = some.drop_last();
        lemma_extremes(head);
        let last = some.len() - 1;
        assert(some[last] == some.last());
        let a = choose|i: int|
            0 <= i < head.len() && (#[trigger] head[i]).measure_start_ms == latest_start(head);
        let b = choose|i: int|
            0 <= i < head.len() && (#[trigger] head[i]).measure_end_ms == earliest_end(head);
        let c = choose|i: int|
            0 <= i < head.len() && (#[trigger] head[i]).effective_duration_ms == shortest(head);
        assert(some[a] == head[a] && some[b] == head[b] && some[c] == head[c]);
        assert forall|i: int| 0 <= i < some.len() implies (#[trigger] some[i]).measure_start_ms
            <= latest_start(some) && some[i].measure_end_ms >= earliest_end(some)
            && some[i].effective_duration_ms >= shortest(some) by {
            if i < last {
                assert(head[i] == some[i]);
            }
        }
    }
}

proof fn lemma_contributors(workers: Seq<WorkerResultView>) -> (from: Seq<int>)
    ensures
        picked(workers, contributors(workers), |w: WorkerResultView| did_something(w), from),
    decreases workers.len(),
{
    let p = |w: WorkerResultView| did_something(w);
    if workers.len() == 0 {
        Seq::empty()
    } else {
        let head = lemma_contributors(workers.drop_last());
        let w = workers.last();
        if has_counters(w) {
            let k = choose|k: int|
                0 <= k < w.per_op.len() && ((#[trigger] w.per_op[k]).1.total_ops > 0
                    || w.per_op[k].1.total_bytes > 0 || w.per_op[k].1.error_count > 0);
            assert(w.per_op[k].1.total_ops > 0 || w.per_op[k].1.total_bytes > 0
                || w.per_op[k].1.error_count > 0);
            assert(did_something(w));
        }
        if did_something(w) {
            assert(has_counters(w));
        }
        lemma_picked_more(workers, contributors(workers.drop_last()), p, head)
    }
}

/// Rates are taken over the time in which several workers were all measuring:
/// from when the last of those that did something started until the first of them
/// stopped. Where there is no such time, the results say so, and the shortest
/// duration that one of them reports stands in.
pub proof fn law_time_is_common(workers: Seq<WorkerResultView>, a: int, b: int, start: i64, end: i64)
    requires
        0 <= a < b < workers.len(),
        did_something(workers[a]),
        did_something(workers[b]),
        last_to_start(workers, |w: WorkerResultView| did_something(w), start),
        first_to_stop(workers, |w: WorkerResultView| did_something(w), end),
    ensures
        ({
            let r = summary_of(workers);
            if start < end {
                &&& !r.window_misaligned
                &&& r.effective_window_ms == (if end - start > i64::MAX {
                    i64::MAX as int
                } else {
                    end - start
                })
            } else {
                &&& r.window_misaligned
                &&& least_duration(
                    workers,
                    |w: WorkerResultView| did_something(w),
                    r.effective_window_ms as int,
                )
            }
        }),
{
    let p = |w: WorkerResultView| did_something(w);
    let from = lemma_contributors(workers);
    let some = contributors(workers);
    assert(is_one(workers, p, a) && is_one(workers, p, b));
    let i = choose|i: int| 0 <= i < from.len() && from[i] == a;
    let j = choose|j: int| 0 <= j < from.len() && from[j] == b;
    assert(some.len() >= 2);
    lemma_times_of_picked(workers, some, p, from);
    let x = choose|n: int| #[trigger]
        is_one(workers, p, n) && workers[n].measure_start_ms == start;
    let y = choose|n: int| #[trigger]
        is_one(workers, p, n) && workers[n].measure_start_ms == latest_start(some);
    let z = choose|n: int| #[trigger] is_one(workers, p, n) && workers[n].measure_end_ms == end;
    let u = choose|n: int| #[trigger]
        is_one(workers, p, n) && workers[n].measure_end_ms == earliest_end(some);
    assert(start == latest_start(some) && end == earliest_end(some));
}

/// A worker that alone did something is measured by itself: from its start to its
/// stop, or over the duration that it reports where that is no time.
pub proof fn law_one_worker_is_measured_by_itself(workers: Seq<WorkerResultView>, n: int)
    requires
        0 <= n < workers.len(),
        did_something(workers[n]),
        forall|i: int|
            0 <= i < workers.len() && i != n ==> !did_something(#[trigger] workers[i]),
    ensures
        ({
            let r = summary_of(workers);
            let w = workers[n];
            let span = w.measure_end_ms - w.measure_start_ms;
            &&& !r.window_misaligned
            &&& span > i64::MAX ==> r.effective_window_ms == i64::MAX
            &&& 0 < span <= i64::MAX ==> r.effective_window_ms == span
            &&& span <= 0 && w.effective_duration_ms >= 0 ==> r.effective_window_ms
                == w.effective_duration_ms
            &&& span <= 0 && w.effective_duration_ms < 0 ==> r.effective_window_ms == 0
        }),
{
    let p = |w: WorkerResultView| did_something(w);
    let from = lemma_contributors(workers);
    let some = contributors(workers);
    assert(is_one(workers, p, n));
    let i = choose|i: int| 0 <= i < from.len() && from[i] == n;
    assert(from[i] == n);
    if from.len() > 1 {
        let j = if i == 0 { 1int } else { 0int };
        assert(is_one(workers, p, from[j]));
        assert(did_something(workers[from[j]]));
        assert(from[j] != n);
    }
    assert(some[0] == workers[n]);
}

/// Where nobody did anything there is no time to measure over.
pub proof fn law_no_work_takes_no_time(workers: Seq<WorkerResultView>)
    requires
        forall|i: int| 0 <= i < workers.len() ==> !did_something(#[trigger] workers[i]),
    ensures
        summary_of(workers).effective_window_ms == 0,
        !summary_of(workers).window_misaligned,
{
    let p = |w: WorkerResultView| did_something(w);
    let from = lemma_contributors(workers);
    if from.len() > 0 {
        assert(is_one(workers, p, from[0]));
        assert(did_something(workers[from[0]]));
    }
}

/// Whether the rates of a report are those of its counters over `ms`
/// milliseconds: operations per second, millions of bytes per second, and the
/// share of errors among operations.
pub open spec fn has_rates(m: PerformanceMetricsView, ms: int) -> bool {
    &&& m.iops == (Number::Ratio { num: (m.total_ops * 1000) as i128, den: ms as u128 })
    &&& m.throughput_mbps == (Number::Ratio { num: m.total_bytes as i128, den: (ms * 1000) as u128 })
    &&& m.error_rate == (if m.total_ops > 0 {
        Number::Ratio { num: m.error_count as i128, den: m.total_ops as u128 }
    } else {
        Number::Float { bits: 0 }
    })
}

/// All rates are taken over the time that the results name, or a millisecond
/// where it is less; and the results of the workers stand beside them as they
/// came.
pub proof fn law_rates_are_over_the_named_time(workers: Seq<WorkerResultView>, n: int)
    ensures
        ({
            let r = summary_of(workers);
            let ms = if r.effective_window_ms < 1 {
                1
            } else {
                r.effective_window_ms as int
            };
            &&& r.aggregated.total matches Some(m) && has_rates(m, ms)
            &&& 0 <= n < r.aggregated.total_per_op.len() ==> has_rates(
                r.aggregated.total_per_op[n].1,
                ms,
            )
            &&& r.aggregated.per_worker == workers
        }),
{
    let ops = merge_workers(workers);
    let ms = rate_window(window_of(contributors(workers)).0);
    if 0 <= n < ops.len() {
        assert(reports_of(ops, ms)[n].1 == report_of(ops[n].1, ms));
    }
    assert(report_of(merge_all(ops), ms).total_ops == merge_all(ops).total_ops);
}

proof fn lemma_filter_more(workers: Seq<WorkerResultView>, p: spec_fn(WorkerResultView) -> bool)
    requires
        workers.len() > 0,
    ensures
        workers.filter(p).len() == workers.drop_last().filter(p).len() + (if p(workers.last()) {
            1int
        } else {
            0
        }),
{
    reveal(Seq::filter);
}

proof fn lemma_successes(workers: Seq<WorkerResultView>)
    ensures
        successes(workers) == workers.filter(|w: WorkerResultView| w.success).len(),
    decreases workers.len(),
{
    let p = |w: WorkerResultView| w.success;
    if workers.len() == 0 {
        assert(workers.filter(p).len() == 0) by {
            reveal(Seq::filter);
        }
    } else {
        lemma_successes(workers.drop_last());
        lemma_filter_more(workers, p);
    }
}

/// Whether a worker succeeded and tells of an operation that it counted without
/// telling of its latencies.
pub open spec fn tells_no_latencies(w: WorkerResultView) -> bool {
    w.success && exists|k: int|
        0 <= k < w.per_op.len() && (#[trigger] w.per_op[k]).1.total_ops > 0
            && w.per_op[k].1.latency_histogram_hdr.len() == 0
}

proof fn lemma_missing(workers: Seq<WorkerResultView>)
    ensures
        missing_histograms(workers) == workers.filter(
            |w: WorkerResultView| tells_no_latencies(w),
        ).len(),
    decreases workers.len(),
{
    let p = |w: WorkerResultView| tells_no_latencies(w);
    if workers.len() == 0 {
        assert(workers.filter(p).len() == 0) by {
            reveal(Seq::filter);
        }
    } else {
        lemma_missing(workers.drop_last());
        lemma_filter_more(workers, p);
        let w = workers.last();
        if w.success && lacks_histogram(w) {
            let k = choose|k: int|
                0 <= k < w.per_op.len() && (#[trigger] w.per_op[k]).1.latency_histogram_hdr.len()
                    == 0 && w.per_op[k].1.total_ops > 0;
            assert(w.per_op[k].1.total_ops > 0);
        }
        if tells_no_latencies(w) {
            let k = choose|k: int|
                0 <= k < w.per_op.len() && (#[trigger] w.per_op[k]).1.total_ops > 0
                    && w.per_op[k].1.latency_histogram_hdr.len() == 0;
            assert(w.per_op[k].1.latency_histogram_hdr.len() == 0);
            assert(lacks_histogram(w));
        }
    }
}

/// The workers that succeeded are counted, and so are those of them that counted
/// operations without their latencies.
pub proof fn law_workers_are_counted(workers: Seq<WorkerResultView>)
    ensures
        summary_of(workers).success_worker_count == workers.filter(
            |w: WorkerResultView| w.success,
        ).len(),
        summary_of(workers).missing_histogram_count == workers.filter(
            |w: WorkerResultView| tells_no_latencies(w),
        ).len(),
{
    lemma_successes(workers);
    lemma_missing(workers);
}

} // verus!
