//! What a view of a running job shows: of each worker what it told last, and of
//! all workers together what they told, added up.

use vstd::prelude::*;

use crate::display::live::{
    add_ops, after_event, aggregate_rows, by_worker, elapsed_ms, ended_rows, longest_result,
    longest_run, no_metrics, op_rows, percent, running_rows, totals, with_metric, with_progress,
    worker_rows, DisplayRowView, LiveView, OpMetricsView,
};
use crate::order::{in_order, law_in_order_is_sorted};
use crate::pb;
use crate::pb::{LatencyStats, PerformanceMetricsView, WorkerProgressView, WorkerResultView};
use crate::strmap::{keys_distinct, lemma_put_facts, lookup};
use crate::time::Clock;

verus! {

/// Whether no report after the `i`th speaks of the same worker.
pub open spec fn is_latest(reports: Seq<WorkerProgressView>, i: int) -> bool {
    &&& 0 <= i < reports.len()
    &&& forall|k: int|
        i < k < reports.len() ==> (#[trigger] reports[k]).worker_id != reports[i].worker_id
}

/// Whether a report speaks of the worker `id`.
pub open spec fn is_told_of(reports: Seq<WorkerProgressView>, id: Seq<char>) -> bool {
    exists|k: int| 0 <= k < reports.len() && (#[trigger] reports[k]).worker_id == id
}

/// Of a worker its latest report is shown, and of workers that did not report
/// what was shown before.
pub proof fn law_latest_report_is_shown(
    workers: Seq<(Seq<char>, WorkerProgressView)>,
    reports: Seq<WorkerProgressView>,
    id: Seq<char>,
)
    requires
        keys_distinct(workers),
    ensures
        keys_distinct(with_progress(workers, reports)),
        forall|i: int| #[trigger]
            is_latest(reports, i) && reports[i].worker_id == id ==> lookup(
                with_progress(workers, reports),
                id,
            ) == Some(reports[i]),
        !is_told_of(reports, id) ==> lookup(with_progress(workers, reports), id) == lookup(
            workers,
            id,
        ),
    decreases reports.len(),
{
    if reports.len() > 0 {
        let rest = reports.drop_last();
        let last = reports.last();
        law_latest_report_is_shown(workers, rest, id);
        lemma_put_facts(with_progress(workers, rest), last.worker_id, last);
        assert(reports[reports.len() - 1] == last);
        assert forall|i: int| #[trigger]
            is_latest(reports, i) && reports[i].worker_id == id implies lookup(
            with_progress(workers, reports),
            id,
        ) == Some(reports[i]) by {
            if i < rest.len() {
                assert(reports[reports.len() - 1].worker_id != id);
                assert(rest[i] == reports[i]);
                assert forall|k: int| i < k < rest.len() implies (#[trigger] rest[k]).worker_id
                    != rest[i].worker_id by {
                    assert(rest[k] == reports[k]);
                }
                assert(is_latest(rest, i));
            }
        }
        if !is_told_of(reports, id) {
            assert(last.worker_id != id);
            if is_told_of(rest, id) {
                let k = choose|k: int|
                    0 <= k < rest.len() && (#[trigger] rest[k]).worker_id == id;
                assert(reports[k].worker_id == id);
            }
        }
    }
}

/// At the end, each result is shown under its worker.
pub proof fn law_results_are_shown(results: Seq<WorkerResultView>)
    requires
        forall|i: int, k: int|
            0 <= i < k < results.len() ==> (#[trigger] results[i]).worker_id != (
            #[trigger] results[k]).worker_id,
    ensures
        keys_distinct(by_worker(results)),
        by_worker(results).len() == results.len(),
        forall|i: int|
            0 <= i < results.len() ==> lookup(
                by_worker(results),
                (#[trigger] results[i]).worker_id,
            ) == Some(results[i]),
        forall|i: int|
            0 <= i < results.len() ==> #[trigger] by_worker(results)[i] == (
                results[i].worker_id,
                results[i],
            ),
    decreases results.len(),
{
    if results.len() > 0 {
        let rest = results.drop_last();
        let last = results.last();
        assert forall|i: int, k: int| 0 <= i < k < rest.len() implies (
        #[trigger] rest[i]).worker_id != (#[trigger] rest[k]).worker_id by {
            assert(rest[i] == results[i] && rest[k] == results[k]);
        }
        law_results_are_shown(rest);
        let before = by_worker(rest);
        lemma_put_facts(before, last.worker_id, last);
        let end = results.len() - 1;
        assert(results[end] == last);
        assert forall|i: int| 0 <= i < before.len() implies #[trigger] before[i].0
            != last.worker_id by {
            assert(before[i] == (rest[i].worker_id, rest[i]));
            assert(results[i].worker_id != results[end].worker_id);
        }
        assert(by_worker(results) =~= before.push((last.worker_id, last)));
        assert forall|i: int| 0 <= i < results.len() implies lookup(
            by_worker(results),
            (#[trigger] results[i]).worker_id,
        ) == Some(results[i]) by {
            if i < rest.len() {
                assert(rest[i] == results[i]);
                assert(results[i].worker_id != results[end].worker_id);
            }
        }
        assert forall|i: int| 0 <= i < results.len() implies #[trigger] by_worker(results)[i] == (
            results[i].worker_id,
            results[i],
        ) by {
            if i < rest.len() {
                assert(before[i] == (rest[i].worker_id, rest[i]));
            }
        }
    }
}

/// After an event its counts and its results are shown, and who is asked about
/// stays the same.
pub proof fn law_display_follows_events(d: LiveView, e: pb::JobEventView)
    ensures
        after_event(d, e).job_id == d.job_id,
        after_event(d, e).total_duration_ms == d.total_duration_ms,
        after_event(d, e).started_ns == d.started_ns,
        after_event(d, e).verbose == d.verbose,
        after_event(d, e).last_render == d.last_render,
        after_event(d, e).rendered_once == d.rendered_once,
        after_event(d, e).last_seq >= e.seq,
        after_event(d, e).last_seq == e.seq || after_event(d, e).last_seq == d.last_seq,
        after_event(d, e).dirs_scanned == e.dirs_scanned,
        after_event(d, e).files_scanned == e.files_scanned,
        after_event(d, e).scan_duration_ms == e.scan_duration_ms,
        forall|s: pb::JobStatus|
            e.status == #[trigger] s.code() ==> after_event(d, e).last_status == s,
        e.worker_progress.len() == 0 ==> after_event(d, e).workers == d.workers,
        e.aggregated is None ==> after_event(d, e).final_workers == d.final_workers && after_event(
            d,
            e,
        ).final_per_op == d.final_per_op,
        e.aggregated matches Some(a) ==> after_event(d, e).final_per_op == a.total_per_op && (
        a.per_worker.len() == 0 ==> after_event(d, e).final_workers.len() == 0),
{
}

/// Whether `ms` is the longest of the times that workers have measured.
pub open spec fn is_longest_run(
    ms: i64,
    workers: Seq<(Seq<char>, WorkerProgressView)>,
) -> bool {
    &&& exists|i: int| 0 <= i < workers.len() && (#[trigger] workers[i]).1.elapsed_ms == ms
    &&& forall|i: int| 0 <= i < workers.len() ==> (#[trigger] workers[i]).1.elapsed_ms <= ms
}

/// Whether `ms` is the longest of the times in results.
pub open spec fn is_longest_result(ms: i64, workers: Seq<(Seq<char>, WorkerResultView)>) -> bool {
    &&& exists|i: int|
        0 <= i < workers.len() && (#[trigger] workers[i]).1.effective_duration_ms == ms
    &&& forall|i: int|
        0 <= i < workers.len() ==> (#[trigger] workers[i]).1.effective_duration_ms <= ms
}

proof fn lemma_longest_run(workers: Seq<(Seq<char>, WorkerProgressView)>)
    ensures
        workers.len() == 0 ==> longest_run(workers) is None,
        workers.len() > 0 ==> (longest_run(workers) matches Some(ms) && is_longest_run(
            ms,
            workers,
        )),
    decreases workers.len(),
{
    if workers.len() > 0 {
        let rest = workers.drop_last();
        lemma_longest_run(rest);
        let ms = longest_run(workers)->Some_0;
        let end = workers.len() - 1;
        if rest.len() > 0 && ms == longest_run(rest)->Some_0 {
            let i = choose|i: int| 0 <= i < rest.len() && (#[trigger] rest[i]).1.elapsed_ms == ms;
            assert(workers[i].1.elapsed_ms == ms);
        } else {
            assert(workers[end].1.elapsed_ms == ms);
        }
        assert forall|i: int| 0 <= i < workers.len() implies (
        #[trigger] workers[i]).1.elapsed_ms <= ms by {
            if i < end {
                assert(rest[i] == workers[i]);
            }
        }
    }
}

proof fn lemma_longest_result(workers: Seq<(Seq<char>, WorkerResultView)>)
    ensures
        workers.len() == 0 ==> longest_result(workers) is None,
        workers.len() > 0 ==> (longest_result(workers) matches Some(ms) && is_longest_result(
            ms,
            workers,
        )),
    decreases workers.len(),
{
    if workers.len() > 0 {
        let rest = workers.drop_last();
        lemma_longest_result(rest);
        let ms = longest_result(workers)->Some_0;
        let end = workers.len() - 1;
        if rest.len() > 0 && ms == longest_result(rest)->Some_0 {
            let i = choose|i: int|
                0 <= i < rest.len() && (#[trigger] rest[i]).1.effective_duration_ms == ms;
            assert(workers[i].1.effective_duration_ms == ms);
        } else {
            assert(workers[end].1.effective_duration_ms == ms);
        }
        assert forall|i: int| 0 <= i < workers.len() implies (
        #[trigger] workers[i]).1.effective_duration_ms <= ms by {
            if i < end {
                assert(rest[i] == workers[i]);
            }
        }
    }
}

/// The time shown is the longest in the results; without results, the longest
/// that a worker has measured; without reports, the whole seconds since the
/// start.
pub proof fn law_time_shown_is_the_longest(d: LiveView, at: Clock)
    ensures
        d.final_workers.len() > 0 ==> is_longest_result(elapsed_ms(d, at), d.final_workers),
        d.final_workers.len() == 0 && d.workers.len() > 0 ==> is_longest_run(
            elapsed_ms(d, at),
            d.workers,
        ),
        d.final_workers.len() == 0 && d.workers.len() == 0 && d.started_ns <= at.mono_ns
            && at.mono_ns - d.started_ns < 1_000_000 * i64::MAX ==> elapsed_ms(d, at) % 1000 == 0
            && elapsed_ms(d, at) * 1_000_000 <= at.mono_ns - d.started_ns < elapsed_ms(d, at)
            * 1_000_000 + 1_000_000_000,
{
    lemma_longest_result(d.final_workers);
    lemma_longest_run(d.workers);
}

/// What workers tell of their operations, one after the other.
pub open spec fn all_told(workers: Seq<(Seq<char>, WorkerProgressView)>) -> Seq<
    (Seq<char>, PerformanceMetricsView),
>
    decreases workers.len(),
{
    if workers.len() == 0 {
        Seq::empty()
    } else {
        all_told(workers.drop_last()) + workers.last().1.per_op
    }
}

/// What is told of the operation `op`.
pub open spec fn told_of(told: Seq<(Seq<char>, PerformanceMetricsView)>, op: Seq<char>) -> Seq<
    PerformanceMetricsView,
>
    decreases told.len(),
{
    if told.len() == 0 {
        Seq::empty()
    } else if told.last().0 == op {
        told_of(told.drop_last(), op).push(told.last().1)
    } else {
        told_of(told.drop_last(), op)
    }
}

/// How many operations reports count.
pub open spec fn operations(ms: Seq<PerformanceMetricsView>) -> int
    decreases ms.len(),
{
    if ms.len() == 0 {
        0
    } else {
        operations(ms.drop_last()) + ms.last().total_ops
    }
}

/// How many failures reports count.
pub open spec fn failures(ms: Seq<PerformanceMetricsView>) -> int
    decreases ms.len(),
{
    if ms.len() == 0 {
        0
    } else {
        failures(ms.drop_last()) + ms.last().error_count
    }
}

/// The latencies that reports tell of.
pub open spec fn latencies(ms: Seq<PerformanceMetricsView>) -> Seq<LatencyStats>
    decreases ms.len(),
{
    if ms.len() == 0 {
        Seq::empty()
    } else {
        match ms.last().latency_us {
            Some(l) => latencies(ms.drop_last()).push(l),
            None => latencies(ms.drop_last()),
        }
    }
}

/// Whether counts are none below zero.
pub open spec fn counts(ms: Seq<PerformanceMetricsView>) -> bool {
    forall|i: int|
        0 <= i < ms.len() ==> (#[trigger] ms[i]).total_ops >= 0 && ms[i].error_count >= 0
}

/// Whether `t` shows the reports `ms` together: each rate to be added up, counts
/// that are their sums, and all latencies.
pub open spec fn shows_together(t: OpMetricsView, ms: Seq<PerformanceMetricsView>) -> bool {
    &&& t.throughput_mbps.len() == ms.len()
    &&& t.ops_per_sec.len() == ms.len()
    &&& forall|i: int|
        0 <= i < ms.len() ==> #[trigger] t.throughput_mbps[i] == ms[i].throughput_mbps
    &&& forall|i: int| 0 <= i < ms.len() ==> #[trigger] t.ops_per_sec[i] == ms[i].iops
    &&& counts(ms) && operations(ms) <= i64::MAX ==> t.total_ops == operations(ms)
    &&& counts(ms) && failures(ms) <= i64::MAX ==> t.error_count == failures(ms)
    &&& t.latency_us == latencies(ms)
}

proof fn lemma_shows_one_more(
    t: OpMetricsView,
    ms: Seq<PerformanceMetricsView>,
    m: PerformanceMetricsView,
)
    requires
        shows_together(t, ms),
    ensures
        shows_together(with_metric(t, m), ms.push(m)),
{
    let next = ms.push(m);
    assert(next.drop_last() =~= ms);
    assert(next.last() == m);
    if counts(next) {
        assert forall|i: int| 0 <= i < ms.len() implies (#[trigger] ms[i]).total_ops >= 0
            && ms[i].error_count >= 0 by {
            assert(next[i] == ms[i]);
        }
        assert(next[ms.len() as int] == m);
    }
    let u = with_metric(t, m);
    assert forall|i: int| 0 <= i < next.len() implies #[trigger] u.throughput_mbps[i]
        == next[i].throughput_mbps by {
        if i < ms.len() {
            assert(u.throughput_mbps[i] == t.throughput_mbps[i]);
        }
    }
    assert forall|i: int| 0 <= i < next.len() implies #[trigger] u.ops_per_sec[i]
        == next[i].iops by {
        if i < ms.len() {
            assert(u.ops_per_sec[i] == t.ops_per_sec[i]);
        }
    }
}

/// A mean is weighed by the operations that succeeded: those of the reports
/// before, and those of the report that is added.
pub proof fn law_means_are_weighed(
    t: OpMetricsView,
    ms: Seq<PerformanceMetricsView>,
    m: PerformanceMetricsView,
)
    requires
        shows_together(t, ms),
        counts(ms.push(m)),
        operations(ms) + m.total_ops <= i64::MAX,
        failures(ms) + m.error_count <= i64::MAX,
    ensures
        m.latency_us is None ==> with_metric(t, m).mean_us == t.mean_us,
        m.latency_us matches Some(l) ==> ({
            let before = operations(ms) - failures(ms);
            let added = m.total_ops - m.error_count;
            if before + added > 0 {
                &&& with_metric(t, m).mean_us.len() == t.mean_us.len() + 1
                &&& with_metric(t, m).mean_us.drop_last() == t.mean_us
                &&& with_metric(t, m).mean_us.last().avg == l.avg
                &&& with_metric(t, m).mean_us.last().before == before
                &&& with_metric(t, m).mean_us.last().added == added
                &&& with_metric(t, m).mean_us.last().all == before + added
            } else {
                with_metric(t, m).mean_us == t.mean_us
            }
        }),
{
    let next = ms.push(m);
    assert forall|i: int| 0 <= i < ms.len() implies (#[trigger] ms[i]).total_ops >= 0
        && ms[i].error_count >= 0 by {
        assert(next[i] == ms[i]);
    }
    assert(next[ms.len() as int] == m);
    lemma_counted(ms);
    if let Some(l) = m.latency_us {
        let steps = with_metric(t, m).mean_us;
        if operations(ms) - failures(ms) + m.total_ops - m.error_count > 0 {
            assert(steps.drop_last() =~= t.mean_us);
        }
    }
}

proof fn lemma_counted(ms: Seq<PerformanceMetricsView>)
    requires
        counts(ms),
    ensures
        operations(ms) >= 0,
        failures(ms) >= 0,
    decreases ms.len(),
{
    if ms.len() > 0 {
        let rest = ms.drop_last();
        assert forall|i: int| 0 <= i < rest.len() implies (#[trigger] rest[i]).total_ops >= 0
            && rest[i].error_count >= 0 by {
            assert(rest[i] == ms[i]);
        }
        assert(ms[ms.len() - 1] == ms.last());
        lemma_counted(rest);
    }
}

/// Whether each operation that is told of is shown, and no other.
pub open spec fn all_shown(
    acc: Seq<(Seq<char>, OpMetricsView)>,
    told: Seq<(Seq<char>, PerformanceMetricsView)>,
) -> bool {
    forall|op: Seq<char>| #[trigger] is_shown(acc, told, op)
}

/// Whether what is told of `op` is shown, if anything is.
pub open spec fn is_shown(
    acc: Seq<(Seq<char>, OpMetricsView)>,
    told: Seq<(Seq<char>, PerformanceMetricsView)>,
    op: Seq<char>,
) -> bool {
    match lookup(acc, op) {
        Some(t) => told_of(told, op).len() > 0 && shows_together(t, told_of(told, op)),
        None => told_of(told, op).len() == 0,
    }
}

proof fn lemma_add_ops(
    acc: Seq<(Seq<char>, OpMetricsView)>,
    told: Seq<(Seq<char>, PerformanceMetricsView)>,
    ops: Seq<(Seq<char>, PerformanceMetricsView)>,
)
    requires
        keys_distinct(acc),
        all_shown(acc, told),
    ensures
        keys_distinct(add_ops(acc, ops)),
        all_shown(add_ops(acc, ops), told + ops),
    decreases ops.len(),
{
    if ops.len() == 0 {
        assert(told + ops =~= told);
    } else {
        let rest = ops.drop_last();
        lemma_add_ops(acc, told, rest);
        let before = add_ops(acc, rest);
        let (op, m) = ops.last();
        let so_far = match lookup(before, op) {
            Some(t) => t,
            None => no_metrics(),
        };
        let old_told = told + rest;
        let now = told + ops;
        lemma_put_facts(before, op, with_metric(so_far, m));
        assert(now.drop_last() =~= old_told);
        assert(now.last() == (op, m));
        assert forall|k: Seq<char>| #[trigger] is_shown(add_ops(acc, ops), now, k) by {
            assert(is_shown(before, old_told, k));
            if k == op {
                lemma_shows_one_more(so_far, told_of(old_told, op), m);
            }
        }
    }
}

/// Of all workers together, each operation that any of them tells of is shown
/// with all their reports on it; and no other operation.
pub proof fn law_reports_are_added_up(workers: Seq<(Seq<char>, WorkerProgressView)>)
    ensures
        keys_distinct(totals(workers)),
        all_shown(totals(workers), all_told(workers)),
    decreases workers.len(),
{
    if workers.len() > 0 {
        law_reports_are_added_up(workers.drop_last());
        lemma_add_ops(
            totals(workers.drop_last()),
            all_told(workers.drop_last()),
            workers.last().1.per_op,
        );
    } else {
        assert forall|op: Seq<char>| #[trigger] is_shown(totals(workers), all_told(workers), op) by {
        }
    }
}

/// Whether a row shows what `m` reports, under these names and this time.
pub open spec fn shows_report(
    r: DisplayRowView,
    worker: Seq<char>,
    op: Seq<char>,
    ms: i64,
    m: PerformanceMetricsView,
) -> bool {
    &&& r.worker == worker
    &&& r.op == op
    &&& r.elapsed_ms == ms
    &&& r.metrics.throughput_mbps == seq![m.throughput_mbps]
    &&& r.metrics.ops_per_sec == seq![m.iops]
    &&& r.metrics.total_ops == m.total_ops
    &&& r.metrics.error_count == m.error_count
    &&& m.latency_us is None ==> r.metrics.latency_us.len() == 0 && r.metrics.mean_us.len() == 0
    &&& m.latency_us matches Some(l) ==> r.metrics.latency_us == seq![l] && r.metrics.mean_us.len()
        == 1 && r.metrics.mean_us[0].avg == l.avg && r.metrics.mean_us[0].before == 0
        && r.metrics.mean_us[0].added == r.metrics.mean_us[0].all
        && r.metrics.mean_us[0].all > 0
}

/// Whether one of the rows shows a report.
pub open spec fn has_row(
    rows: Seq<DisplayRowView>,
    worker: Seq<char>,
    op: Seq<char>,
    ms: i64,
    m: PerformanceMetricsView,
) -> bool {
    exists|i: int| 0 <= i < rows.len() && shows_report(#[trigger] rows[i], worker, op, ms, m)
}

proof fn lemma_op_rows(
    worker: Seq<char>,
    ops: Seq<(Seq<char>, PerformanceMetricsView)>,
    ms: i64,
    k: int,
)
    requires
        0 <= k < ops.len(),
    ensures
        has_row(op_rows(worker, ops, ms), worker, ops[k].0, ms, ops[k].1),
{
    law_in_order_is_sorted(ops);
    assert(in_order(ops).contains(ops[k]));
    let i = choose|i: int| 0 <= i < in_order(ops).len() && in_order(ops)[i] == ops[k];
    assert(shows_report(op_rows(worker, ops, ms)[i], worker, ops[k].0, ms, ops[k].1));
}

proof fn lemma_more_rows(
    rows: Seq<DisplayRowView>,
    more: Seq<DisplayRowView>,
    worker: Seq<char>,
    op: Seq<char>,
    ms: i64,
    m: PerformanceMetricsView,
)
    requires
        has_row(rows, worker, op, ms, m) || has_row(more, worker, op, ms, m),
    ensures
        has_row(rows + more, worker, op, ms, m),
{
    if has_row(rows, worker, op, ms, m) {
        let i = choose|i: int|
            0 <= i < rows.len() && shows_report(#[trigger] rows[i], worker, op, ms, m);
        assert((rows + more)[i] == rows[i]);
    } else {
        let i = choose|i: int|
            0 <= i < more.len() && shows_report(#[trigger] more[i], worker, op, ms, m);
        let at = rows.len() + i;
        assert((rows + more)[at] == more[i]);
    }
}

proof fn lemma_running_rows(workers: Seq<(Seq<char>, WorkerProgressView)>, n: int, k: int)
    requires
        0 <= n < workers.len(),
        0 <= k < workers[n].1.per_op.len(),
    ensures
        has_row(
            running_rows(workers),
            workers[n].0,
            workers[n].1.per_op[k].0,
            workers[n].1.elapsed_ms,
            workers[n].1.per_op[k].1,
        ),
    decreases workers.len(),
{
    let (id, w) = workers.last();
    let rest = workers.drop_last();
    if n == workers.len() - 1 {
        lemma_op_rows(id, w.per_op, w.elapsed_ms, k);
    } else {
        assert(rest[n] == workers[n]);
        lemma_running_rows(rest, n, k);
    }
    lemma_more_rows(
        running_rows(rest),
        op_rows(id, w.per_op, w.elapsed_ms),
        workers[n].0,
        workers[n].1.per_op[k].0,
        workers[n].1.elapsed_ms,
        workers[n].1.per_op[k].1,
    );
}

proof fn lemma_ended_rows(workers: Seq<(Seq<char>, WorkerResultView)>, n: int, k: int)
    requires
        0 <= n < workers.len(),
        0 <= k < workers[n].1.per_op.len(),
    ensures
        has_row(
            ended_rows(workers),
            workers[n].0,
            workers[n].1.per_op[k].0,
            workers[n].1.effective_duration_ms,
            workers[n].1.per_op[k].1,
        ),
    decreases workers.len(),
{
    let (id, w) = workers.last();
    let rest = workers.drop_last();
    if n == workers.len() - 1 {
        lemma_op_rows(id, w.per_op, w.effective_duration_ms, k);
    } else {
        assert(rest[n] == workers[n]);
        lemma_ended_rows(rest, n, k);
    }
    lemma_more_rows(
        ended_rows(rest),
        op_rows(id, w.per_op, w.effective_duration_ms),
        workers[n].0,
        workers[n].1.per_op[k].0,
        workers[n].1.effective_duration_ms,
        workers[n].1.per_op[k].1,
    );
}

/// While a job runs, what a worker tells of an operation has a row.
pub proof fn law_reports_have_rows(d: LiveView, n: int, k: int)
    requires
        d.final_workers.len() == 0,
        0 <= n < d.workers.len(),
        0 <= k < d.workers[n].1.per_op.len(),
    ensures
        has_row(
            worker_rows(d),
            d.workers[n].0,
            d.workers[n].1.per_op[k].0,
            d.workers[n].1.elapsed_ms,
            d.workers[n].1.per_op[k].1,
        ),
{
    law_in_order_is_sorted(d.workers);
    let s = in_order(d.workers);
    assert(s.contains(d.workers[n]));
    let i = choose|i: int| 0 <= i < s.len() && s[i] == d.workers[n];
    lemma_running_rows(s, i, k);
}

/// Once there are results, what the result of a worker tells of an operation has
/// a row.
pub proof fn law_results_have_rows(d: LiveView, n: int, k: int)
    requires
        0 <= n < d.final_workers.len(),
        0 <= k < d.final_workers[n].1.per_op.len(),
    ensures
        has_row(
            worker_rows(d),
            d.final_workers[n].0,
            d.final_workers[n].1.per_op[k].0,
            d.final_workers[n].1.effective_duration_ms,
            d.final_workers[n].1.per_op[k].1,
        ),
{
    law_in_order_is_sorted(d.final_workers);
    let s = in_order(d.final_workers);
    assert(s.contains(d.final_workers[n]));
    let i = choose|i: int| 0 <= i < s.len() && s[i] == d.final_workers[n];
    lemma_ended_rows(s, i, k);
}

/// Whether a row shows reports together, over the time shown.
pub open spec fn has_total_row(
    rows: Seq<DisplayRowView>,
    op: Seq<char>,
    ms: i64,
    t: OpMetricsView,
) -> bool {
    exists|i: int|
        0 <= i < rows.len() && (#[trigger] rows[i]).worker == "Aggregate"@ && rows[i].op == op
            && rows[i].elapsed_ms == ms && rows[i].metrics == t
}

/// Each operation has a row on all workers together: from the results of the
/// job, and before there are any from the reports.
pub proof fn law_operations_have_rows(d: LiveView, at: Clock, k: int)
    ensures
        d.final_per_op.len() == 0 && 0 <= k < totals(d.workers).len() ==> has_total_row(
            aggregate_rows(d, at),
            totals(d.workers)[k].0,
            elapsed_ms(d, at),
            totals(d.workers)[k].1,
        ),
        0 <= k < d.final_per_op.len() ==> has_row(
            aggregate_rows(d, at),
            "Aggregate"@,
            d.final_per_op[k].0,
            elapsed_ms(d, at),
            d.final_per_op[k].1,
        ),
        d.final_per_op.len() == 0 ==> aggregate_rows(d, at).len() == totals(d.workers).len(),
        d.final_per_op.len() > 0 ==> aggregate_rows(d, at).len() == d.final_per_op.len(),
{
    let t = totals(d.workers);
    law_in_order_is_sorted(t);
    law_in_order_is_sorted(d.final_per_op);
    if d.final_per_op.len() == 0 && 0 <= k < t.len() {
        assert(in_order(t).contains(t[k]));
        let i = choose|i: int| 0 <= i < in_order(t).len() && in_order(t)[i] == t[k];
        let row = aggregate_rows(d, at)[i];
        assert(row.op == t[k].0 && row.metrics == t[k].1);
    }
    if 0 <= k < d.final_per_op.len() {
        lemma_op_rows("Aggregate"@, d.final_per_op, elapsed_ms(d, at), k);
    }
}

/// A share is rounded to the closest whole percent, and to an even one where two
/// are as close.
pub proof fn law_shares_are_rounded(elapsed: int, total: int)
    requires
        total > 0,
    ensures
        elapsed <= 0 ==> percent(elapsed, total) == 0,
        0 <= percent(elapsed, total) <= 999,
        0 <= elapsed && percent(elapsed, total) < 999 ==> {
            let p = percent(elapsed, total);
            &&& 2 * (100 * elapsed - p * total) <= total
            &&& 2 * (p * total - 100 * elapsed) <= total
            &&& (2 * (100 * elapsed - p * total) == total || 2 * (p * total - 100 * elapsed)
                == total) ==> p % 2 == 0
        },
        elapsed >= 10 * total ==> percent(elapsed, total) == 999,
{
    let e = if elapsed > 0 {
        elapsed
    } else {
        0
    };
    let n = 100 * e;
    let q = n / total;
    let r = n % total;
    vstd::arithmetic::div_mod::lemma_fundamental_div_mod(n, total);
    assert(total * q == q * total) by (nonlinear_arith);
    assert((q + 1) * total == q * total + total) by (nonlinear_arith);
    vstd::arithmetic::div_mod::lemma_mod_bound(n, total);
    vstd::arithmetic::div_mod::lemma_div_pos_is_pos(n, total);
    assert(elapsed >= 10 * total ==> q >= 1000) by (nonlinear_arith)
        requires
            total > 0,
            n == 100 * e,
            e >= elapsed,
            n == total * q + r,
            0 <= r < total,
    ;
    if e == 0 {
        assert(q == 0) by (nonlinear_arith)
            requires
                total > 0,
                n == 0,
                n == total * q + r,
                0 <= r < total,
        ;
    }
}

} // verus!
