//! What the summary of a job shows: the results under their headers, and how the
//! job and its workers did.

use vstd::prelude::*;

use crate::cmd::list::capitals;
use crate::display::live::{clock_text, short_text, two_digits};
use crate::display::summary::{
    aggregate_items, count_text, diagnostics, error_items, grouped, job_items, latency_cells, longest,
    metric_cells, progress_item, result_items, result_rows, scan_items, span_text, status_text, summary_of,
    three_digits, warning_items, workers_text, workload_items, CellView, ItemView,
};
use crate::display::table::{bars, border, column_width, column_widths, framed, row_line};
use crate::metrics::aggregate::{earliest_end, latest_start};
use crate::metrics::common_time::{first_to_stop, is_one, last_to_start, lemma_times_of_picked};
use crate::order::{in_order, law_in_order_is_sorted};
use crate::output::succeeded;
use crate::pb;
use crate::pb::{JobStatus, PerformanceMetricsView, QueryJobResponseView, WorkerResultView};
use crate::reporting::lemma_succeeded;
use crate::text::decimal;

verus! {

/// Whether the place of `header` in a row holds `cell`.
pub open spec fn is_under(
    headers: Seq<Seq<char>>,
    row: Seq<CellView>,
    header: Seq<char>,
    cell: CellView,
) -> bool {
    exists|k: int|
        0 <= k < headers.len() && k < row.len() && #[trigger] headers[k] == header && row[k]
            == cell
}

/// Whether the row `r` of a table holds `cell` under `header`.
pub open spec fn under(item: ItemView, header: Seq<char>, r: int, cell: CellView) -> bool {
    &&& item is Table
    &&& 0 <= r < item->rows.len()
    &&& is_under(item->headers, item->rows[r], header, cell)
}

/// Whether the row `r` of a table shows what `m` reports of `name`.
pub open spec fn shows_performance(
    item: ItemView,
    r: int,
    name: Seq<char>,
    m: PerformanceMetricsView,
) -> bool {
    &&& under(item, "Scope"@, r, CellView::Text(name))
    &&& under(item, "Throughput"@, r, CellView::Throughput(m.throughput_mbps))
    &&& under(item, "Ops/s"@, r, CellView::Rate(m.iops))
    &&& under(item, "Ops"@, r, CellView::Text(count_text(m.total_ops as int)))
    &&& under(
        item,
        "Errors"@,
        r,
        CellView::Errors { count: count_text(m.error_count as int), rate: m.error_rate },
    )
    &&& under(item, "Bytes"@, r, CellView::Text(count_text(m.total_bytes as int)))
}

/// Whether the row `r` of a table shows the latencies of `name`.
pub open spec fn shows_latency(
    item: ItemView,
    r: int,
    name: Seq<char>,
    m: PerformanceMetricsView,
) -> bool {
    &&& under(item, "Scope"@, r, CellView::Text(name))
    &&& m.latency_us matches Some(l) ==> under(item, "p50"@, r, CellView::Latency(l.p50)) && under(
        item,
        "p95"@,
        r,
        CellView::Latency(l.p95),
    ) && under(item, "p99"@, r, CellView::Latency(l.p99)) && under(
        item,
        "p999"@,
        r,
        CellView::Latency(l.p999),
    ) && under(item, "max"@, r, CellView::Latency(l.max)) && under(
        item,
        "avg"@,
        r,
        CellView::Latency(l.avg),
    )
}

/// Whether one of the items shows the performance of all operations, and of each
/// of them where they are asked for, and another one their latencies.
pub open spec fn shows_results(
    items: Seq<ItemView>,
    total: PerformanceMetricsView,
    ops: Seq<(Seq<char>, PerformanceMetricsView)>,
    verbose: bool,
) -> bool {
    exists|a: int, b: int|
        0 <= a < items.len() && 0 <= b < items.len() && are_tables_on(
            #[trigger] items[a],
            #[trigger] items[b],
            total,
            ops,
            verbose,
        )
}

/// Whether two tables show the performance and the latencies of all operations,
/// and of each of them where they are asked for.
pub open spec fn are_tables_on(
    p: ItemView,
    l: ItemView,
    total: PerformanceMetricsView,
    ops: Seq<(Seq<char>, PerformanceMetricsView)>,
    verbose: bool,
) -> bool {
    &&& shows_performance(p, 0, "aggregate"@, total)
    &&& shows_latency(l, 0, "aggregate"@, total)
    &&& verbose ==> forall|k: int|
        0 <= k < ops.len() ==> is_on_both(p, l, (#[trigger] ops[k]).0, ops[k].1)
}

/// Whether both tables have a row on `name`.
pub open spec fn is_on_both(
    p: ItemView,
    l: ItemView,
    name: Seq<char>,
    m: PerformanceMetricsView,
) -> bool {
    (exists|r: int| #[trigger] shows_performance(p, r, name, m)) && (exists|r: int| #[trigger]
        shows_latency(l, r, name, m))
}

proof fn lemma_under(
    headers: Seq<Seq<char>>,
    rows: Seq<Seq<CellView>>,
    r: int,
    k: int,
)
    requires
        0 <= r < rows.len(),
        0 <= k < headers.len(),
        k < rows[r].len(),
    ensures
        under(ItemView::Table { headers, rows }, headers[k], r, rows[r][k]),
{
    assert(is_under(headers, rows[r], headers[k], rows[r][k]));
}

proof fn lemma_performance_row(
    rows: Seq<Seq<CellView>>,
    r: int,
    name: Seq<char>,
    m: PerformanceMetricsView,
)
    requires
        0 <= r < rows.len(),
        rows[r] == metric_cells(name, m),
    ensures
        shows_performance(
            ItemView::Table {
                headers: seq!["Scope"@, "Throughput"@, "Ops/s"@, "Ops"@, "Errors"@, "Bytes"@],
                rows,
            },
            r,
            name,
            m,
        ),
{
    let headers = seq!["Scope"@, "Throughput"@, "Ops/s"@, "Ops"@, "Errors"@, "Bytes"@];
    lemma_under(headers, rows, r, 0);
    lemma_under(headers, rows, r, 1);
    lemma_under(headers, rows, r, 2);
    lemma_under(headers, rows, r, 3);
    lemma_under(headers, rows, r, 4);
    lemma_under(headers, rows, r, 5);
}

proof fn lemma_latency_row(
    rows: Seq<Seq<CellView>>,
    r: int,
    name: Seq<char>,
    m: PerformanceMetricsView,
)
    requires
        0 <= r < rows.len(),
        rows[r] == latency_cells(name, m),
    ensures
        shows_latency(
            ItemView::Table {
                headers: seq!["Scope"@, "p50"@, "p95"@, "p99"@, "p999"@, "max"@, "avg"@],
                rows,
            },
            r,
            name,
            m,
        ),
{
    let headers = seq!["Scope"@, "p50"@, "p95"@, "p99"@, "p999"@, "max"@, "avg"@];
    lemma_under(headers, rows, r, 0);
    lemma_under(headers, rows, r, 1);
    lemma_under(headers, rows, r, 2);
    lemma_under(headers, rows, r, 3);
    lemma_under(headers, rows, r, 4);
    lemma_under(headers, rows, r, 5);
    lemma_under(headers, rows, r, 6);
}

proof fn lemma_results(
    total: PerformanceMetricsView,
    ops: Seq<(Seq<char>, PerformanceMetricsView)>,
    verbose: bool,
)
    ensures
        shows_results(result_items(total, ops, verbose), total, ops, verbose),
{
    let items = result_items(total, ops, verbose);
    let p = result_rows(total, ops, verbose, false);
    let l = result_rows(total, ops, verbose, true);
    let a = ItemView::Table {
        headers: seq!["Scope"@, "Throughput"@, "Ops/s"@, "Ops"@, "Errors"@, "Bytes"@],
        rows: p,
    };
    let b = ItemView::Table {
        headers: seq!["Scope"@, "p50"@, "p95"@, "p99"@, "p999"@, "max"@, "avg"@],
        rows: l,
    };
    assert(items[3] == a);
    assert(items[7] == b);
    lemma_performance_row(p, 0, "aggregate"@, total);
    lemma_latency_row(l, 0, "aggregate"@, total);
    if verbose {
        law_in_order_is_sorted(ops);
        assert forall|k: int| 0 <= k < ops.len() implies is_on_both(
            a,
            b,
            (#[trigger] ops[k]).0,
            ops[k].1,
        ) by {
            assert(in_order(ops).contains(ops[k]));
            let i = choose|i: int| 0 <= i < in_order(ops).len() && in_order(ops)[i] == ops[k];
            let r = i + 1;
            assert(p[r] == metric_cells(ops[k].0, ops[k].1));
            assert(l[r] == latency_cells(ops[k].0, ops[k].1));
            lemma_performance_row(p, r, ops[k].0, ops[k].1);
            lemma_latency_row(l, r, ops[k].0, ops[k].1);
        }
    }
}

/// The part of a summary on the workload.
pub open spec fn workload_part(job: pb::JobView, q: QueryJobResponseView, verbose: bool) -> Seq<
    ItemView,
> {
    if verbose {
        workload_items(job.spec, q.run_workers)
    } else {
        Seq::empty()
    }
}

/// Where there are results, the summary shows their numbers under their headers:
/// those of all operations and, where asked for, those of each operation.
pub proof fn law_summary_shows_the_results(q: QueryJobResponseView, verbose: bool)
    ensures
        q.job is Some ==> (q.aggregated matches Some(g) ==> (g.total matches Some(total)
            ==> shows_results(summary_of(q, verbose), total, g.total_per_op, verbose))),
{
    if let Some(job) = q.job {
        if let Some(g) = q.aggregated {
            if let Some(total) = g.total {
                let part = result_items(total, g.total_per_op, verbose);
                lemma_results(total, g.total_per_op, verbose);
                let before = job_items(job, q) + workload_part(job, q, verbose) + scan_items(q);
                let after = warning_items(g.per_worker) + error_items(q.error);
                let items = summary_of(q, verbose);
                assert(items =~= before + part + after);
                let (a, b) = choose|a: int, b: int|
                    0 <= a < part.len() && 0 <= b < part.len() && are_tables_on(
                        #[trigger] part[a],
                        #[trigger] part[b],
                        total,
                        g.total_per_op,
                        verbose,
                    );
                let x = before.len() + a;
                let y = before.len() + b;
                assert(items[x] == part[a] && items[y] == part[b]);
            }
        }
    }
}

/// The summary names the job and its status, and tells its error.
pub proof fn law_summary_tells_of_the_job(q: QueryJobResponseView, verbose: bool)
    ensures
        q.job matches Some(job) ==> ({
            let items = summary_of(q, verbose);
            &&& items.contains(ItemView::Line("Job ID  : "@ + job.job_id))
            &&& forall|s: JobStatus|
                job.status == #[trigger] s.code() ==> items.contains(
                    ItemView::Line("Status  : "@ + capitals(s)),
                )
            &&& q.error matches Some(e) ==> items.contains(ItemView::Line(e))
            &&& verbose ==> (job.spec matches Some(p) ==> items.contains(
                ItemView::Line("Duration : "@ + p.duration),
            ) && items.contains(ItemView::Line("Block    : "@ + p.block_size)))
        }),
{
    if let Some(job) = q.job {
        let items = summary_of(q, verbose);
        lemma_job_stands_in(job, q, verbose);
        lemma_workload_stands_in(job, q, verbose);
        lemma_error_stands_in(job, q, verbose);
        assert forall|s: JobStatus| job.status == #[trigger] s.code() implies items.contains(
            ItemView::Line("Status  : "@ + capitals(s)),
        ) by {
            assert(status_text(job.status) == capitals(s));
        }
    }
}

proof fn lemma_job_stands_in(job: pb::JobView, q: QueryJobResponseView, verbose: bool)
    requires
        q.job == Some(job),
    ensures
        summary_of(q, verbose).contains(ItemView::Line("Job ID  : "@ + job.job_id)),
        summary_of(q, verbose).contains(ItemView::Line("Status  : "@ + status_text(job.status))),
{
    let items = summary_of(q, verbose);
    let part = job_items(job, q);
    assert(items[2] == part[2]);
    assert(items[3] == part[3]);
}

proof fn lemma_workload_stands_in(job: pb::JobView, q: QueryJobResponseView, verbose: bool)
    requires
        q.job == Some(job),
    ensures
        verbose ==> (job.spec matches Some(p) ==> summary_of(q, verbose).contains(
            ItemView::Line("Duration : "@ + p.duration),
        ) && summary_of(q, verbose).contains(ItemView::Line("Block    : "@ + p.block_size))),
{
    if verbose {
        if let Some(p) = job.spec {
            let items = summary_of(q, verbose);
            let before = job_items(job, q);
            let part = workload_items(job.spec, q.run_workers);
            let a = before.len() + 3int;
            let b = before.len() + 4int;
            assert(items[a] == part[3]);
            assert(items[b] == part[4]);
        }
    }
}

proof fn lemma_error_stands_in(job: pb::JobView, q: QueryJobResponseView, verbose: bool)
    requires
        q.job == Some(job),
    ensures
        q.error matches Some(e) ==> summary_of(q, verbose).contains(ItemView::Line(e)),
{
    if let Some(e) = q.error {
        let items = summary_of(q, verbose);
        let part = error_items(q.error);
        assert(part.len() == 4);
        assert(items.len() >= 4);
        let at = items.len() - 1;
        assert(items[at] == part[3]);
    }
}

/// Whether one of the items shows what was searched.
pub open spec fn shows_search(items: Seq<ItemView>, q: QueryJobResponseView) -> bool {
    exists|i: int|
        0 <= i < items.len() && under(
            #[trigger] items[i],
            "Dirs"@,
            0,
            CellView::Text(count_text(q.dirs_scanned as int)),
        ) && under(
            items[i],
            "Files"@,
            0,
            CellView::Text(count_text(q.files_scanned as int)),
        ) && under(
            items[i],
            "Duration"@,
            0,
            CellView::Text(span_text(q.scan_duration_ms as int)),
        )
}

/// Where directories were searched, the summary shows how many of them, the files
/// that were found, and how long it took.
pub proof fn law_summary_shows_the_search(q: QueryJobResponseView, verbose: bool)
    ensures
        q.job is Some && (q.dirs_scanned > 0 || q.files_scanned > 0 || q.scan_duration_ms > 0)
            ==> shows_search(summary_of(q, verbose), q),
{
    if let Some(job) = q.job {
        if q.dirs_scanned > 0 || q.files_scanned > 0 || q.scan_duration_ms > 0 {
            let items = summary_of(q, verbose);
            let before = job_items(job, q) + workload_part(job, q, verbose);
            let part = scan_items(q);
            let after = aggregate_items(q, verbose) + error_items(q.error);
            assert(items =~= before + part + after);
            let at = before.len() + 3int;
            assert(items[at] == part[3]);
            let headers = seq!["Dirs"@, "Files"@, "Duration"@];
            let rows = seq![
                seq![
                    CellView::Text(count_text(q.dirs_scanned as int)),
                    CellView::Text(count_text(q.files_scanned as int)),
                    CellView::Text(span_text(q.scan_duration_ms as int)),
                ],
            ];
            assert(part[3] == ItemView::Table { headers, rows });
            lemma_under(headers, rows, 0, 0);
            lemma_under(headers, rows, 0, 1);
            lemma_under(headers, rows, 0, 2);
        }
    }
}

/// How many workers succeeded.
pub open spec fn good(workers: Seq<WorkerResultView>) -> nat {
    workers.filter(|w: WorkerResultView| w.success).len()
}

proof fn lemma_good(workers: Seq<WorkerResultView>)
    ensures
        succeeded(workers).len() == good(workers),
        good(workers) <= workers.len(),
    decreases workers.len(),
{
    reveal(Seq::filter);
    if workers.len() > 0 {
        lemma_good(workers.drop_last());
    }
}

/// The summary counts the workers that reported, those that succeeded and those
/// that did not; before any reported, those that run.
pub proof fn law_workers_are_told(q: QueryJobResponseView)
    ensures
        q.worker_results.len() > 0 ==> workers_text(q) == decimal(q.worker_results.len())
            + " reported, "@ + decimal(good(q.worker_results)) + " success, "@ + decimal(
            (q.worker_results.len() - good(q.worker_results)) as nat,
        ) + " failed"@,
        q.worker_results.len() == 0 && q.run_workers >= 0 ==> workers_text(q) == "0 reported, "@
            + decimal(q.run_workers as nat) + " running"@,
{
    lemma_good(q.worker_results);
}

/// Whether `ms` is the longest time that a worker measured.
pub open spec fn is_longest(ms: i64, workers: Seq<WorkerResultView>) -> bool {
    &&& exists|i: int|
        0 <= i < workers.len() && (#[trigger] workers[i]).effective_duration_ms == ms
    &&& forall|i: int|
        0 <= i < workers.len() ==> (#[trigger] workers[i]).effective_duration_ms <= ms
}

proof fn lemma_longest(workers: Seq<WorkerResultView>)
    ensures
        workers.len() > 0 ==> is_longest(longest(workers), workers),
        workers.len() == 0 ==> longest(workers) == 0,
    decreases workers.len(),
{
    if workers.len() > 0 {
        let rest = workers.drop_last();
        lemma_longest(rest);
        let ms = longest(workers);
        let end = workers.len() - 1;
        if rest.len() > 0 && ms == longest(rest) {
            let i = choose|i: int|
                0 <= i < rest.len() && (#[trigger] rest[i]).effective_duration_ms == ms;
            assert(workers[i].effective_duration_ms == ms);
        } else {
            assert(workers[end].effective_duration_ms == ms);
        }
        assert forall|i: int| 0 <= i < workers.len() implies (
        #[trigger] workers[i]).effective_duration_ms <= ms by {
            if i < end {
                assert(rest[i] == workers[i]);
            }
        }
    }
}

/// A job that has ended is all done. Of one that has not, the share of the time
/// asked for is shown that the worker has measured that is furthest.
pub proof fn law_progress_is_that_of_the_longest(
    job: pb::JobView,
    workers: Seq<WorkerResultView>,
    s: JobStatus,
)
    requires
        job.status == s.code(),
    ensures
        s == JobStatus::Completed || s == JobStatus::Failed || s == JobStatus::Cancelled
            ==> progress_item(job, workers) == ItemView::Line("Progress: 100%"@),
        s != JobStatus::Completed && s != JobStatus::Failed && s != JobStatus::Cancelled ==> (
        progress_item(job, workers) matches ItemView::Share { elapsed_ms, duration_ms, .. }
            ==> duration_ms > 0 && (workers.len() > 0 ==> is_longest(elapsed_ms, workers)) && (
        workers.len() == 0 ==> elapsed_ms == 0)),
        s != JobStatus::Completed && s != JobStatus::Failed && s != JobStatus::Cancelled ==> (
        progress_item(job, workers) is Share || progress_item(job, workers) == ItemView::Line(
            "Progress: running"@,
        )),
{
    lemma_longest(workers);
}

/// Of workers that succeeded a warning says that they had no time in common, if
/// and only if one of at least two stopped before, or when, another one started.
pub proof fn law_misaligned_workers_are_warned_of(workers: Seq<WorkerResultView>)
    ensures
        diagnostics(workers).0 == (good(workers) >= 2 && exists|i: int, j: int|
            0 <= i < workers.len() && 0 <= j < workers.len() && (#[trigger] workers[i]).success && (
            #[trigger] workers[j]).success && workers[i].measure_end_ms
                <= workers[j].measure_start_ms),
{
    lemma_good(workers);
    let p = |w: WorkerResultView| w.success;
    let some = succeeded(workers);
    let from = lemma_succeeded(workers);
    if some.len() >= 2 {
        lemma_times_of_picked(workers, some, p, from);
        let start = latest_start(some);
        let end = earliest_end(some);
        assert(last_to_start(workers, p, start));
        assert(first_to_stop(workers, p, end));
        let a = choose|n: int| #[trigger]
            is_one(workers, p, n) && workers[n].measure_start_ms == start;
        let b = choose|n: int| #[trigger]
            is_one(workers, p, n) && workers[n].measure_end_ms == end;
        if end <= start {
            assert(workers[b].success && workers[a].success);
        }
        if exists|i: int, j: int|
            0 <= i < workers.len() && 0 <= j < workers.len() && (#[trigger] workers[i]).success && (
            #[trigger] workers[j]).success && workers[i].measure_end_ms
                <= workers[j].measure_start_ms {
            let (i, j) = choose|i: int, j: int|
                0 <= i < workers.len() && 0 <= j < workers.len() && (
                #[trigger] workers[i]).success && (#[trigger] workers[j]).success
                    && workers[i].measure_end_ms <= workers[j].measure_start_ms;
            assert(is_one(workers, p, i) && is_one(workers, p, j));
        }
    }
}

/// Digits are grouped from the end: a comma stands before each three of them, and
/// between the commas they are all there.
pub proof fn law_digits_are_grouped(digits: Seq<char>, e: int)
    requires
        digits.len() > 0,
        0 <= e < grouped(digits).len(),
    ensures
        grouped(digits).len() == digits.len() + (digits.len() - 1) / 3,
        e % 4 == 3 ==> grouped(digits)[grouped(digits).len() - 1 - e] == ',',
        e % 4 != 3 ==> grouped(digits)[grouped(digits).len() - 1 - e] == digits[digits.len() - 1 - (
        e - e / 4)],
    decreases digits.len(),
{
    reveal_strlit(",");
    let n = digits.len();
    if n > 3 {
        let head = digits.take(n - 3);
        let g = grouped(digits);
        lemma_grouped_len(head);
        assert(g.len() == grouped(head).len() + 4);
        if e >= 4 {
            law_digits_are_grouped(head, e - 4);
            assert(g[g.len() - 1 - e] == grouped(head)[grouped(head).len() - 1 - (e - 4)]);
        }
    }
}

proof fn lemma_grouped_len(digits: Seq<char>)
    requires
        digits.len() > 0,
    ensures
        grouped(digits).len() == digits.len() + (digits.len() - 1) / 3,
    decreases digits.len(),
{
    reveal_strlit(",");
    if digits.len() > 3 {
        lemma_grouped_len(digits.take(digits.len() - 3));
    }
}

/// A span is shown in hours, minutes and seconds that make it up.
pub proof fn law_spans_are_split(h: int, m: int, s: int, rest: int)
    requires
        0 <= h,
        0 <= m < 60,
        0 <= s < 60,
        0 <= rest < 1000,
    ensures
        ({
            let ms = ((h * 60 + m) * 60 + s) * 1000 + rest;
            &&& ms > 0 ==> clock_text(ms) == two_digits(h as nat) + ":"@ + two_digits(m as nat)
                + ":"@ + two_digits(s as nat)
            &&& ms == 0 ==> clock_text(ms) == "00:00:00"@ && short_text(ms) == "0s"@ && span_text(
                ms,
            ) == "0ms"@
            &&& h > 0 ==> short_text(ms) == decimal(h as nat) + "h"@ + two_digits(m as nat)
                && span_text(ms) == decimal(h as nat) + "h "@ + decimal(m as nat) + "m "@ + decimal(
                s as nat,
            ) + "s"@
            &&& h == 0 && m > 0 ==> short_text(ms) == decimal(m as nat) + "m"@ + two_digits(
                s as nat,
            ) && span_text(ms) == decimal(m as nat) + "m "@ + decimal(s as nat) + "s"@
            &&& h == 0 && m == 0 && ms > 0 ==> short_text(ms) == decimal(s as nat) + "s"@
            &&& h == 0 && m == 0 && s > 0 ==> span_text(ms) == decimal(s as nat) + "."@
                + three_digits(rest as nat) + "s"@
            &&& h == 0 && m == 0 && s == 0 && rest > 0 ==> span_text(ms) == decimal(rest as nat)
                + "ms"@
        }),
{
    let ms = ((h * 60 + m) * 60 + s) * 1000 + rest;
    let secs = ms / 1000;
    assert(secs == (h * 60 + m) * 60 + s);
    assert(secs / 3600 == h);
    assert((secs % 3600) / 60 == m);
    assert(secs % 60 == s);
    assert(ms % 1000 == rest);
}

/// A column is as wide as its header and all that stands in it, and no wider than
/// the widest of these.
pub proof fn law_columns_fit(headers: Seq<Seq<char>>, rows: Seq<Seq<Seq<char>>>, k: int)
    requires
        0 <= k < headers.len(),
    ensures
        column_widths(headers, rows).len() == headers.len(),
        headers[k].len() <= column_widths(headers, rows)[k],
        forall|i: int|
            0 <= i < rows.len() && k < (#[trigger] rows[i]).len() ==> rows[i][k].len()
                <= column_widths(headers, rows)[k],
        column_widths(headers, rows)[k] == headers[k].len() || exists|i: int|
            0 <= i < rows.len() && k < (#[trigger] rows[i]).len() && rows[i][k].len()
                == column_widths(headers, rows)[k],
{
    lemma_width(rows, k, headers[k].len() as int);
}

proof fn lemma_width(rows: Seq<Seq<Seq<char>>>, k: int, least: int)
    requires
        0 <= k,
    ensures
        least <= column_width(rows, k, least),
        forall|i: int|
            0 <= i < rows.len() && k < (#[trigger] rows[i]).len() ==> rows[i][k].len()
                <= column_width(rows, k, least),
        column_width(rows, k, least) == least || exists|i: int|
            0 <= i < rows.len() && k < (#[trigger] rows[i]).len() && rows[i][k].len()
                == column_width(rows, k, least),
    decreases rows.len(),
{
    if rows.len() > 0 {
        let rest = rows.drop_last();
        lemma_width(rest, k, least);
        let w = column_width(rows, k, least);
        let end = rows.len() - 1;
        assert(rows[end] == rows.last());
        assert forall|i: int| 0 <= i < rows.len() && k < (
        #[trigger] rows[i]).len() implies rows[i][k].len() <= w by {
            if i < end {
                assert(rest[i] == rows[i]);
            }
        }
        if w == column_width(rest, k, least) && w != least {
            let i = choose|i: int|
                0 <= i < rest.len() && k < (#[trigger] rest[i]).len() && rest[i][k].len()
                    == column_width(rest, k, least);
            assert(rows[i] == rest[i]);
        } else if w != least {
            assert(rows[end][k].len() == w);
        }
    }
}

/// How long the first `n` columns are, with their frame.
pub open spec fn frame_length(widths: Seq<int>, n: int) -> int
    decreases n,
{
    if n <= 0 {
        1
    } else {
        frame_length(widths, n - 1) + widths[n - 1] + 3
    }
}

/// The lines of a table are all as long: those of its frame, and those of its rows
/// that have a text for each column.
pub proof fn law_lines_are_as_long(
    cells: Seq<Seq<char>>,
    widths: Seq<int>,
    left: char,
    middle: char,
    right: char,
)
    requires
        widths.len() > 0,
        cells.len() == widths.len(),
        forall|k: int| 0 <= k < cells.len() ==> (#[trigger] cells[k]).len() <= widths[k],
    ensures
        row_line(cells, widths).len() == frame_length(widths, widths.len() as int) + 1,
        border(left, middle, right, widths).len() == frame_length(widths, widths.len() as int)
            + 1,
{
    reveal_strlit("│");
    lemma_framed(cells, widths, widths.len() as int);
    lemma_bars(middle, cells, widths, widths.len() as int);
}

proof fn lemma_framed(cells: Seq<Seq<char>>, widths: Seq<int>, n: int)
    requires
        0 <= n <= widths.len(),
        cells.len() == widths.len(),
        forall|k: int| 0 <= k < cells.len() ==> (#[trigger] cells[k]).len() <= widths[k],
    ensures
        framed(cells, widths, n).len() + 1 == frame_length(widths, n),
    decreases n,
{
    reveal_strlit(" ");
    reveal_strlit(" │");
    if n > 0 {
        lemma_framed(cells, widths, n - 1);
        assert(cells[n - 1].len() <= widths[n - 1]);
    }
}

proof fn lemma_bars(middle: char, cells: Seq<Seq<char>>, widths: Seq<int>, n: int)
    requires
        1 <= n <= widths.len(),
        cells.len() == widths.len(),
        forall|k: int| 0 <= k < cells.len() ==> (#[trigger] cells[k]).len() <= widths[k],
    ensures
        bars(middle, widths, n).len() + 2 == frame_length(widths, n),
    decreases n,
{
    assert(cells[n - 1].len() <= widths[n - 1]);
    if n > 1 {
        lemma_bars(middle, cells, widths, n - 1);
    } else {
        assert(frame_length(widths, 0) == 1);
    }
}

} // verus!
