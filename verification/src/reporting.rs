//! What a report tells of the job that it is on.

use vstd::prelude::*;

use crate::metrics::aggregate::{earliest_end, latest_start, shortest};
use crate::metrics::common_time::{
    first_to_stop, is_one, last_to_start, least_duration, lemma_picked_more, lemma_times_of_picked,
    picked,
};
use crate::order::{in_order, law_in_order_is_sorted, lemma_sorted_order, sorted_order};
use crate::output::{
    aggregated_report, csv_row, file_name, first_failure, op_report, op_reports, op_rows, reports,
    rows_of, status_name, succeeded, wants_rows, worker_report, worker_rows, CsvRow, CsvRowView,
    JobReportView, OpReport,
};
use crate::path_safe::without_dots;
use crate::pb::{
    AggregatedMetricsView, JobStatus, LatencyStats, Number, PerformanceMetricsView,
    QueryJobResponseView, WorkerResultView,
};
use crate::strmap::keys_of;
use crate::text::{lemma_split_append, lemma_split_single, lowered, nonempty, split};
use crate::views::seq_views;

verus! {

/// Whether a number is nought.
pub open spec fn is_nought(n: Number) -> bool {
    n == (Number::Float { bits: 0 })
}

/// Whether a row has the latencies `l`, or noughts where there are none.
pub open spec fn has_latencies(r: CsvRow, l: Option<LatencyStats>) -> bool {
    match l {
        Some(x) => r.p50_us == x.p50 && r.p95_us == x.p95 && r.p99_us == x.p99 && r.p999_us
            == x.p999 && r.max_us == x.max && r.avg_us == x.avg,
        None => is_nought(r.p50_us) && is_nought(r.p95_us) && is_nought(r.p99_us) && is_nought(
            r.p999_us,
        ) && is_nought(r.max_us) && is_nought(r.avg_us),
    }
}

/// Whether a row shows the metrics `m`, each in its column.
pub open spec fn shows_metrics(r: CsvRow, m: PerformanceMetricsView) -> bool {
    &&& r.throughput_mbps == m.throughput_mbps
    &&& r.iops == m.iops
    &&& r.total_ops == m.total_ops
    &&& r.total_bytes == m.total_bytes
    &&& r.errors == m.error_count
    &&& has_latencies(r, m.latency_us)
}

/// Whether a row shows what was measured over all workers and operations.
pub open spec fn shows_total(r: CsvRow, a: AggregatedMetricsView) -> bool {
    &&& r.worker_id@ == "*"@ && r.op@ == "*"@
    &&& match a.total {
        Some(m) => shows_metrics(r, m),
        None => r.total_ops == 0 && r.total_bytes == 0 && r.errors == 0 && is_nought(
            r.throughput_mbps,
        ) && is_nought(r.iops) && has_latencies(r, None),
    }
}

/// Whether a row shows what was measured over all workers of their `k`th
/// operation.
pub open spec fn shows_operation(r: CsvRow, a: AggregatedMetricsView, k: int) -> bool {
    &&& 0 <= k < a.total_per_op.len()
    &&& r.worker_id@ == "*"@ && r.op@ == a.total_per_op[k].0
    &&& shows_metrics(r, a.total_per_op[k].1)
}

/// Whether a row shows what the worker `w` measured of its operation `k`.
pub open spec fn shows_worker(r: CsvRow, workers: Seq<WorkerResultView>, w: int, k: int) -> bool {
    &&& 0 <= w < workers.len() && 0 <= k < workers[w].per_op.len()
    &&& r.worker_id@ == workers[w].worker_id && r.op@ == workers[w].per_op[k].0
    &&& r.success == workers[w].success
    &&& r.effective_duration_ms == workers[w].effective_duration_ms
    &&& shows_metrics(r, workers[w].per_op[k].1)
}

/// Whether a row shows an operation over all workers.
pub open spec fn shows_some_operation(r: CsvRow, a: AggregatedMetricsView) -> bool {
    exists|k: int| shows_operation(r, a, k)
}

/// Whether a row shows an operation of a worker.
pub open spec fn shows_some_worker(r: CsvRow, workers: Seq<WorkerResultView>) -> bool {
    exists|w: int, k: int| shows_worker(r, workers, w, k)
}

/// Whether one of the rows shows the operation `k` over all workers.
pub open spec fn operation_is_shown(
    rows: Seq<CsvRow>,
    a: AggregatedMetricsView,
    k: int,
) -> bool {
    exists|n: int| 1 <= n < rows.len() && shows_operation(#[trigger] rows[n], a, k)
}

/// Whether one of the rows shows the operation `k` of the worker `w`.
pub open spec fn worker_is_shown(
    rows: Seq<CsvRow>,
    workers: Seq<WorkerResultView>,
    w: int,
    k: int,
) -> bool {
    exists|n: int| 0 <= n < rows.len() && shows_worker(#[trigger] rows[n], workers, w, k)
}

/// How many rows tell of all workers together.
pub open spec fn common_rows(q: QueryJobResponseView) -> int {
    match q.aggregated {
        Some(a) => 1int + a.total_per_op.len(),
        None => 0,
    }
}

/// Whether the `i`th worker is the first that failed.
pub open spec fn fails_first(workers: Seq<WorkerResultView>, i: int) -> bool {
    &&& 0 <= i < workers.len() && !workers[i].success
    &&& forall|k: int| 0 <= k < i ==> (#[trigger] workers[k]).success
}

/// Whether a job completed, without an error of its own or of the first worker
/// that failed.
pub open spec fn went_well(q: QueryJobResponseView) -> bool {
    &&& q.job matches Some(job) && job.status == JobStatus::Completed.code()
    &&& q.error matches Some(e) ==> e.len() == 0
    &&& forall|i: int| #[trigger]
        fails_first(q.worker_results, i) ==> q.worker_results[i].error is None
}

/// Whether the rows tell what the response tells: first all workers together,
/// then each operation over all workers, then each operation of each worker; every
/// row shows one of these in its columns, and each of these has a row.
pub open spec fn rows_tell(rows: Seq<CsvRow>, q: QueryJobResponseView) -> bool {
    &&& common_rows(q) <= rows.len()
    &&& q.aggregated matches Some(a) ==> {
        &&& shows_total(rows[0], a)
        &&& forall|n: int|
            1 <= n < common_rows(q) ==> shows_some_operation(#[trigger] rows[n], a)
        &&& forall|k: int|
            0 <= k < a.total_per_op.len() ==> #[trigger] operation_is_shown(rows, a, k)
        &&& forall|n: int|
            0 <= n < common_rows(q) ==> (#[trigger] rows[n]).success == went_well(q)
    }
    &&& forall|n: int|
        common_rows(q) <= n < rows.len() ==> shows_some_worker(#[trigger] rows[n], q.worker_results)
    &&& forall|w: int, k: int|
        0 <= w < q.worker_results.len() && 0 <= k < q.worker_results[w].per_op.len()
            ==> #[trigger] worker_is_shown(rows, q.worker_results, w, k)
}

/// Whether the `i`th of the reported operations is the `k`th of `ops`.
spec fn stands_for(ops: Seq<(Seq<char>, PerformanceMetricsView)>, i: int, k: int) -> bool {
    &&& 0 <= i < ops.len() && 0 <= k < ops.len()
    &&& in_order(op_reports(ops))[i] == (ops[k].0, op_report(ops[k].1))
}

spec fn stands_for_some(ops: Seq<(Seq<char>, PerformanceMetricsView)>, i: int) -> bool {
    exists|k: int| stands_for(ops, i, k)
}

spec fn has_stand_in(ops: Seq<(Seq<char>, PerformanceMetricsView)>, k: int) -> bool {
    exists|i: int| stands_for(ops, i, k)
}

proof fn lemma_all_stand(ops: Seq<(Seq<char>, PerformanceMetricsView)>)
    ensures
        in_order(op_reports(ops)).len() == ops.len(),
        forall|i: int| 0 <= i < ops.len() ==> #[trigger] stands_for_some(ops, i),
        forall|k: int| 0 <= k < ops.len() ==> #[trigger] has_stand_in(ops, k),
{
    let mid = op_reports(ops);
    let out = in_order(mid);
    law_in_order_is_sorted(ops);
    law_in_order_is_sorted(mid);
    lemma_sorted_order(keys_of(ops));
    lemma_sorted_order(keys_of(mid));
    assert forall|i: int| 0 <= i < ops.len() implies #[trigger] stands_for_some(ops, i) by {
        let j = sorted_order(keys_of(mid))[i];
        assert(out[i] == mid[j]);
        let k = sorted_order(keys_of(ops))[j];
        assert(in_order(ops)[j] == ops[k]);
        assert(stands_for(ops, i, k));
    }
    assert forall|k: int| 0 <= k < ops.len() implies #[trigger] has_stand_in(ops, k) by {
        assert(in_order(ops).contains(ops[k]));
        let j = choose|j: int| 0 <= j < in_order(ops).len() && in_order(ops)[j] == ops[k];
        assert(mid[j] == (ops[k].0, op_report(ops[k].1)));
        assert(out.contains(mid[j]));
        let i = choose|i: int| 0 <= i < out.len() && out[i] == mid[j];
        assert(stands_for(ops, i, k));
    }
}

/// What the rows of workers show.
spec fn worker_rows_tell(
    rows: Seq<CsvRowView>,
    workers: Seq<WorkerResultView>,
    n: int,
    w: int,
    k: int,
) -> bool {
    &&& 0 <= n < rows.len() && 0 <= w < workers.len() && 0 <= k < workers[w].per_op.len()
    &&& rows[n] == csv_row(
        workers[w].worker_id,
        workers[w].per_op[k].0,
        workers[w].success,
        op_report(workers[w].per_op[k].1),
        workers[w].effective_duration_ms,
    )
}

spec fn row_is_backed(
    rows: Seq<CsvRowView>,
    workers: Seq<WorkerResultView>,
    n: int,
) -> bool {
    exists|w: int, k: int| worker_rows_tell(rows, workers, n, w, k)
}

spec fn worker_has_row(
    rows: Seq<CsvRowView>,
    workers: Seq<WorkerResultView>,
    w: int,
    k: int,
) -> bool {
    exists|n: int| worker_rows_tell(rows, workers, n, w, k)
}

proof fn lemma_worker_rows(workers: Seq<WorkerResultView>)
    ensures
        ({
            let rows = worker_rows(workers.map_values(|w: WorkerResultView| worker_report(w)));
            &&& forall|n: int| 0 <= n < rows.len() ==> #[trigger] row_is_backed(rows, workers, n)
            &&& forall|w: int, k: int|
                0 <= w < workers.len() && 0 <= k < workers[w].per_op.len()
                    ==> #[trigger] worker_has_row(rows, workers, w, k)
        }),
    decreases workers.len(),
{
    let told = workers.map_values(|w: WorkerResultView| worker_report(w));
    let rows = worker_rows(told);
    if workers.len() > 0 {
        let head = workers.drop_last();
        let last = workers.len() - 1;
        let x = workers.last();
        lemma_worker_rows(head);
        let before = worker_rows(head.map_values(|w: WorkerResultView| worker_report(w)));
        assert(told.drop_last() =~= head.map_values(|w: WorkerResultView| worker_report(w)));
        assert(told.last() == worker_report(x));
        lemma_all_stand(x.per_op);
        let own = op_rows(
            x.worker_id,
            x.success,
            in_order(op_reports(x.per_op)),
            x.effective_duration_ms,
        );
        assert(rows == before + own);
        assert forall|n: int| 0 <= n < rows.len() implies #[trigger] row_is_backed(
            rows,
            workers,
            n,
        ) by {
            if n < before.len() {
                assert(row_is_backed(before, head, n));
                let (w, k) = choose|w: int, k: int| worker_rows_tell(before, head, n, w, k);
                assert(worker_rows_tell(rows, workers, n, w, k));
            } else {
                let i = n - before.len();
                assert(stands_for_some(x.per_op, i));
                let k = choose|k: int| stands_for(x.per_op, i, k);
                assert(rows[n] == own[i]);
                assert(worker_rows_tell(rows, workers, n, last, k));
            }
        }
        assert forall|w: int, k: int|
            0 <= w < workers.len() && 0 <= k < workers[w].per_op.len() implies #[trigger] worker_has_row(
            rows,
            workers,
            w,
            k,
        ) by {
            if w < last {
                assert(head[w] == workers[w]);
                assert(worker_has_row(before, head, w, k));
                let n = choose|n: int| worker_rows_tell(before, head, n, w, k);
                assert(worker_rows_tell(rows, workers, n, w, k));
            } else {
                assert(has_stand_in(x.per_op, k));
                let i = choose|i: int| stands_for(x.per_op, i, k);
                let n = before.len() + i;
                assert(rows[n] == own[i]);
                assert(worker_rows_tell(rows, workers, n, w, k));
            }
        }
    }
}

proof fn lemma_first_failure(workers: Seq<WorkerResultView>) -> (at: int)
    ensures
        0 <= at <= workers.len(),
        at < workers.len() ==> fails_first(workers, at) && first_failure(workers)
            == workers[at].error,
        at == workers.len() ==> first_failure(workers) is None && forall|i: int|
            0 <= i < workers.len() ==> (#[trigger] workers[i]).success,
    decreases workers.len(),
{
    if workers.len() == 0 {
        0
    } else if !workers[0].success {
        0
    } else {
        let rest = workers.drop_first();
        let at = lemma_first_failure(rest);
        assert forall|k: int| 0 <= k < at + 1 && k < workers.len() implies (
        #[trigger] workers[k]).success by {
            if k > 0 {
                assert(rest[k - 1] == workers[k]);
            }
        }
        at + 1
    }
}

/// The error that a report shows is that of the job, where it has one that says
/// something; else that of the first worker that failed, where one did.
pub proof fn law_error_is_shown(r: JobReportView, q: QueryJobResponseView, i: int)
    requires
        reports(r, q),
    ensures
        q.error matches Some(e) ==> e.len() > 0 ==> r.error == q.error,
        (q.error matches Some(e) ==> e.len() == 0) && fails_first(q.worker_results, i) ==> r.error
            == q.worker_results[i].error,
        (q.error matches Some(e) ==> e.len() == 0) && (forall|k: int|
            0 <= k < q.worker_results.len() ==> (#[trigger] q.worker_results[k]).success)
            ==> r.error is None,
{
    let at = lemma_first_failure(q.worker_results);
    if fails_first(q.worker_results, i) && at != i {
        if at < i {
            assert(q.worker_results[at].success);
        } else {
            assert(q.worker_results[i].success);
        }
    }
}

/// The rows of a report tell what the response tells that the report is on.
pub proof fn law_rows_tell_the_response(
    rows: Seq<CsvRow>,
    d: JobReportView,
    q: QueryJobResponseView,
)
    requires
        reports(d, q),
        seq_views(rows) == rows_of(d),
    ensures
        rows_tell(rows, q),
{
    let told = rows_of(d);
    let workers = q.worker_results;
    let tail = worker_rows(workers.map_values(|w: WorkerResultView| worker_report(w)));
    assert(rows.len() == told.len());
    assert forall|n: int| 0 <= n < rows.len() implies (#[trigger] rows[n])@ == told[n] by {
        assert(seq_views(rows)[n] == rows[n]@);
    }
    lemma_worker_rows(workers);
    let at = lemma_first_failure(workers);
    assert forall|i: int| #[trigger] fails_first(workers, i) implies i == at by {
        if at < i {
            assert(workers[at].success);
        } else if i < at {
            assert(workers[i].success);
        }
    }
    lemma_completed_text(q);
    let base = common_rows(q);
    if let Some(a) = q.aggregated {
        lemma_all_stand(a.total_per_op);
        let shown = aggregated_report(a);
        assert(d.aggregated == Some(shown));
        assert forall|n: int| 1 <= n < base implies shows_some_operation(#[trigger] rows[n], a) by {
            let i = n - 1;
            assert(stands_for_some(a.total_per_op, i));
            let k = choose|k: int| stands_for(a.total_per_op, i, k);
            assert(rows[n]@ == told[n]);
            assert(shows_operation(rows[n], a, k));
        }
        assert forall|k: int| 0 <= k < a.total_per_op.len() implies #[trigger] operation_is_shown(
            rows,
            a,
            k,
        ) by {
            assert(has_stand_in(a.total_per_op, k));
            let i = choose|i: int| stands_for(a.total_per_op, i, k);
            assert(rows[i + 1]@ == told[i + 1]);
            assert(shows_operation(rows[i + 1], a, k));
        }
        assert(rows[0]@ == told[0]);
    }
    assert forall|n: int| base <= n < rows.len() implies shows_some_worker(
        #[trigger] rows[n],
        workers,
    ) by {
        let i = n - base;
        assert(row_is_backed(tail, workers, i));
        let (w, k) = choose|w: int, k: int| worker_rows_tell(tail, workers, i, w, k);
        assert(told[n] == tail[i]);
        assert(rows[n]@ == told[n]);
        assert(shows_worker(rows[n], workers, w, k));
    }
    assert forall|w: int, k: int|
        0 <= w < workers.len() && 0 <= k < workers[w].per_op.len() implies #[trigger] worker_is_shown(
        rows,
        workers,
        w,
        k,
    ) by {
        assert(worker_has_row(tail, workers, w, k));
        let n = choose|n: int| worker_rows_tell(tail, workers, n, w, k);
        assert(told[base + n] == tail[n]);
        assert(rows[base + n]@ == told[base + n]);
        assert(shows_worker(rows[base + n], workers, w, k));
    }
}

pub(crate) proof fn lemma_succeeded(workers: Seq<WorkerResultView>) -> (from: Seq<int>)
    ensures
        picked(workers, succeeded(workers), |w: WorkerResultView| w.success, from),
    decreases workers.len(),
{
    if workers.len() == 0 {
        Seq::empty()
    } else {
        let head = lemma_succeeded(workers.drop_last());
        lemma_picked_more(
            workers,
            succeeded(workers.drop_last()),
            |w: WorkerResultView| w.success,
            head,
        )
    }
}

/// The time that a report shows is that in which all workers that succeeded were
/// measuring: from when the last of them started until the first stopped. Where
/// there is no such time the report says so, and shows the shortest duration that
/// one of them reports; none, where none succeeded.
pub proof fn law_report_shows_the_common_time(
    r: JobReportView,
    q: QueryJobResponseView,
    start: i64,
    end: i64,
)
    requires
        reports(r, q),
    ensures
        (forall|i: int| 0 <= i < q.worker_results.len() ==> !(#[trigger] q.worker_results[i]).success)
            ==> r.effective_duration_ms == 0 && !r.window_misaligned,
        last_to_start(q.worker_results, |w: WorkerResultView| w.success, start) && first_to_stop(
            q.worker_results,
            |w: WorkerResultView| w.success,
            end,
        ) ==> if start < end {
            !r.window_misaligned && r.effective_duration_ms == end - start
        } else {
            r.window_misaligned && least_duration(
                q.worker_results,
                |w: WorkerResultView| w.success,
                r.effective_duration_ms,
            )
        },
{
    let workers = q.worker_results;
    let p = |w: WorkerResultView| w.success;
    let from = lemma_succeeded(workers);
    let some = succeeded(workers);
    if some.len() > 0 {
        assert(is_one(workers, p, from[0]));
        assert(workers[from[0]].success);
        lemma_times_of_picked(workers, some, p, from);
        if last_to_start(workers, p, start) && first_to_stop(workers, p, end) {
            let x = choose|n: int| #[trigger]
                is_one(workers, p, n) && workers[n].measure_start_ms == start;
            let y = choose|n: int| #[trigger]
                is_one(workers, p, n) && workers[n].measure_start_ms == latest_start(some);
            let z = choose|n: int| #[trigger]
                is_one(workers, p, n) && workers[n].measure_end_ms == end;
            let u = choose|n: int| #[trigger]
                is_one(workers, p, n) && workers[n].measure_end_ms == earliest_end(some);
            assert(start == latest_start(some) && end == earliest_end(some));
            assert(least_duration(workers, p, shortest(some) as int));
        }
    } else {
        if last_to_start(workers, p, start) {
            let x = choose|n: int| #[trigger]
                is_one(workers, p, n) && workers[n].measure_start_ms == start;
            assert(from.contains(x));
        }
    }
}

/// What else a report says of its job is what the response says: the job's id and
/// age, what was asked for, how many workers there were, and how far its
/// directories were listed.
pub proof fn law_report_shows_the_job(r: JobReportView, q: QueryJobResponseView)
    requires
        reports(r, q),
    ensures
        q.job matches Some(j) ==> r.job_id == j.job_id && r.created_at_ms == j.created_at && (
        j.spec matches Some(p) ==> r.target_workers == p.target_workers && r.spec.fs_name
            == p.fs_name && r.spec.duration == p.duration && r.spec.write == p.write
            && r.spec.metadata == p.metadata),
        q.run_workers > 0 ==> r.run_workers == q.run_workers,
        q.run_workers <= 0 ==> r.run_workers == q.worker_results.len(),
        r.dirs_scanned == q.dirs_scanned,
        r.files_scanned == q.files_scanned,
        r.scan_duration_ms == q.scan_duration_ms,
        r.aggregated is Some <==> q.aggregated is Some,
        r.workers.len() == q.worker_results.len(),
{
}

/// Whether an operation is reported as it was measured.
pub open spec fn is_as_measured(o: OpReport, m: PerformanceMetricsView) -> bool {
    &&& o.throughput_mbps == m.throughput_mbps
    &&& o.iops == m.iops
    &&& o.total_ops == m.total_ops
    &&& o.total_bytes == m.total_bytes
    &&& o.errors == m.error_count
    &&& o.error_rate == m.error_rate
    &&& m.latency_us matches Some(l) ==> o.latency_us == l
}

/// Whether operations are reported as they were measured, each under its name,
/// and no others.
pub open spec fn are_as_measured(
    out: Seq<(Seq<char>, OpReport)>,
    ops: Seq<(Seq<char>, PerformanceMetricsView)>,
) -> bool {
    &&& out.len() == ops.len()
    &&& forall|i: int| 0 <= i < out.len() ==> #[trigger] is_measured_in(out[i], ops)
    &&& forall|k: int| 0 <= k < ops.len() ==> #[trigger] is_reported_in(ops[k], out)
}

/// Whether what is reported was measured.
pub open spec fn is_measured_in(
    o: (Seq<char>, OpReport),
    ops: Seq<(Seq<char>, PerformanceMetricsView)>,
) -> bool {
    exists|k: int|
        0 <= k < ops.len() && (#[trigger] ops[k]).0 == o.0 && is_as_measured(o.1, ops[k].1)
}

/// Whether what was measured is reported.
pub open spec fn is_reported_in(
    m: (Seq<char>, PerformanceMetricsView),
    out: Seq<(Seq<char>, OpReport)>,
) -> bool {
    exists|i: int|
        0 <= i < out.len() && (#[trigger] out[i]).0 == m.0 && is_as_measured(out[i].1, m.1)
}

proof fn lemma_as_measured(ops: Seq<(Seq<char>, PerformanceMetricsView)>)
    ensures
        are_as_measured(op_reports(ops), ops),
{
    let out = op_reports(ops);
    law_in_order_is_sorted(ops);
    lemma_sorted_order(keys_of(ops));
    assert forall|i: int| 0 <= i < out.len() implies #[trigger] is_measured_in(out[i], ops) by {
        let k = sorted_order(keys_of(ops))[i];
        assert(in_order(ops)[i] == ops[k]);
        assert(ops[k].0 == out[i].0);
    }
    assert forall|k: int| 0 <= k < ops.len() implies #[trigger] is_reported_in(ops[k], out) by {
        assert(in_order(ops).contains(ops[k]));
        let i = choose|i: int| 0 <= i < in_order(ops).len() && in_order(ops)[i] == ops[k];
        assert(out[i].0 == ops[k].0);
    }
}

/// What a report says of the operations, over all workers and of each worker, is
/// what was measured.
pub proof fn law_report_shows_what_was_measured(
    r: JobReportView,
    q: QueryJobResponseView,
    w: int,
)
    requires
        reports(r, q),
    ensures
        q.aggregated matches Some(a) ==> (r.aggregated matches Some(b) && are_as_measured(
            b.per_op,
            a.total_per_op,
        ) && (a.total matches Some(m) ==> is_as_measured(b.total, m))),
        0 <= w < q.worker_results.len() ==> {
            let x = q.worker_results[w];
            let y = r.workers[w];
            &&& y.worker_id == x.worker_id
            &&& y.success == x.success
            &&& y.error == x.error
            &&& y.effective_duration_ms == x.effective_duration_ms
            &&& y.measure_start_ms == x.measure_start_ms
            &&& y.measure_end_ms == x.measure_end_ms
            &&& y.consistency_errors == x.consistency_errors
            &&& are_as_measured(y.per_op, x.per_op)
        },
{
    if let Some(a) = q.aggregated {
        lemma_as_measured(a.total_per_op);
    }
    if 0 <= w < q.worker_results.len() {
        lemma_as_measured(q.worker_results[w].per_op);
        assert(r.workers[w] == worker_report(q.worker_results[w]));
    }
}

/// The status of a job is called completed where it is, and not else.
proof fn lemma_completed_text(q: QueryJobResponseView)
    ensures
        forall|code: i32| #[trigger]
            status_name(code) == "completed"@ <==> code
                == JobStatus::Completed.code(),
{
    reveal_strlit("completed");
    reveal_strlit("unspecified");
    reveal_strlit("pending");
    reveal_strlit("preparing");
    reveal_strlit("running");
    reveal_strlit("failed");
    reveal_strlit("cancelled");
    assert forall|code: i32| #[trigger]
        status_name(code) == "completed"@ <==> code
            == JobStatus::Completed.code() by {
        let t = status_name(code);
        assert("completed"@.len() == 9 && "completed"@[1] == 'o');
        if code != JobStatus::Completed.code() {
            assert(t.len() != 9 || t[1] != 'o');
        }
    }
}

/// The name of a file is what follows the last slash.
pub proof fn law_file_names_follow_the_last_slash(dir: Seq<char>, name: Seq<char>)
    requires
        name.len() > 0,
        !name.contains('/'),
        name != "."@,
    ensures
        file_name(dir + seq!['/'] + name) == name,
        file_name(name) == name,
{
    let path = dir + seq!['/'] + name;
    lemma_split_append(dir, name, '/');
    lemma_split_single(name, '/');
    let parts = nonempty(split(path, '/'));
    assert(split(dir, '/').push(name).drop_last() =~= split(dir, '/'));
    assert(parts.last() == name);
    assert(without_dots(parts).last() == name);
    assert(seq![name].drop_last() =~= Seq::empty());
    assert(nonempty(Seq::<Seq<char>>::empty()) =~= Seq::<Seq<char>>::empty());
    assert(seq![name].last() == name);
    assert(nonempty(seq![name]) =~= seq![name]);
    assert(without_dots(seq![name]).last() == name);
    assert(name[0] != '/');
}

/// A report is written as rows if and only if its file has the extension `csv`, in
/// letters of either case, and something before it.
pub proof fn law_rows_are_asked_for_by_extension(path: Seq<char>)
    ensures
        wants_rows(path) <==> file_name(path).len() > 4 && lowered(
            file_name(path).skip(file_name(path).len() - 4),
        ) == ".csv"@,
{
    reveal_strlit(".csv");
    let name = file_name(path);
    if name.len() > 4 {
        let end = name.skip(name.len() - 4);
        let low = lowered(end);
        assert(low.len() == 4);
        assert(end[0] == name[name.len() - 4] && end[1] == name[name.len() - 3] && end[2]
            == name[name.len() - 2] && end[3] == name[name.len() - 1]);
        if wants_rows(path) {
            assert(low =~= ".csv"@);
        }
        if low == ".csv"@ {
            assert(low[0] == '.' && low[1] == 'c' && low[2] == 's' && low[3] == 'v');
        }
    }
}

} // verus!
