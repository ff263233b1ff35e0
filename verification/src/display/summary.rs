//! The summary of a job: its state, its workload, and its results in tables.
//!
//! Numbers that are shown in floating point stay numbers here; whoever prints
//! the summary writes them out and has the rows laid out as a table.

use vstd::prelude::*;

use crate::cmd::list::{capitals, status_short};
use crate::cmd::terminal_code;
use crate::metrics::aggregate::{
    earliest_end, latest_start, missing_histograms, without_histogram,
};
use crate::order::{in_order, lemma_viewed_order, order_of};
use crate::output::succeeded;
use crate::parse::duration::{duration_ms, parse_duration};
use crate::pb;
use crate::pb::{
    JobStatus, LatencyStats, Number, PerformanceMetricsView, QueryJobResponseView, WorkerResultView,
};
use crate::strmap::StrMap;
use crate::text;
use crate::text::{chars_of, decimal, repeated, string_of, sub_chars};
use crate::views::{entry_views, seq_views};

verus! {

/// What a summary shows besides the results.
#[derive(Debug, Clone, Copy, PartialEq, Eq, Default, Structural)]
pub struct SummaryOptions {
    /// Also the workload, and the results of each operation.
    pub verbose: bool,
}

/// A place in a table.
#[derive(Debug, PartialEq, Eq)]
pub enum Cell {
    Text(String),
    /// A number of megabytes per second.
    Throughput(Number),
    /// A number of operations per second.
    Rate(Number),
    /// A count of errors, and their share of the operations.
    Errors { count: String, rate: Number },
    /// A number of microseconds.
    Latency(Number),
}

/// What a [`Cell`] holds.
#[verifier::ext_equal]
pub enum CellView {
    Text(Seq<char>),
    Throughput(Number),
    Rate(Number),
    Errors { count: Seq<char>, rate: Number },
    Latency(Number),
}

impl View for Cell {
    type V = CellView;

    open spec fn view(&self) -> CellView {
        match self {
            Cell::Text(s) => CellView::Text(s@),
            Cell::Throughput(n) => CellView::Throughput(*n),
            Cell::Rate(n) => CellView::Rate(*n),
            Cell::Errors { count, rate } => CellView::Errors { count: count@, rate: *rate },
            Cell::Latency(n) => CellView::Latency(*n),
        }
    }
}

/// A part of a summary.
#[derive(Debug, PartialEq, Eq)]
pub enum Item {
    Line(String),
    /// A line on how much of the time has passed, in percent, with `tail`
    /// behind the percentage.
    Share { elapsed_ms: i64, duration_ms: i64, tail: String },
    Table { headers: Vec<String>, rows: Vec<Vec<Cell>> },
}

/// What an [`Item`] holds.
#[verifier::ext_equal]
pub enum ItemView {
    Line(Seq<char>),
    Share { elapsed_ms: i64, duration_ms: i64, tail: Seq<char> },
    Table { headers: Seq<Seq<char>>, rows: Seq<Seq<CellView>> },
}

/// What the rows of a table hold.
pub open spec fn row_views(rows: Seq<Vec<Cell>>) -> Seq<Seq<CellView>> {
    rows.map_values(|r: Vec<Cell>| seq_views(r@))
}

impl View for Item {
    type V = ItemView;

    open spec fn view(&self) -> ItemView {
        match self {
            Item::Line(s) => ItemView::Line(s@),
            Item::Share { elapsed_ms, duration_ms, tail } => ItemView::Share {
                elapsed_ms: *elapsed_ms,
                duration_ms: *duration_ms,
                tail: tail@,
            },
            Item::Table { headers, rows } => ItemView::Table {
                headers: text::views(headers@),
                rows: row_views(rows@),
            },
        }
    }
}

/// Digits in groups of three, with commas between the groups.
pub open spec fn grouped(digits: Seq<char>) -> Seq<char>
    decreases digits.len(),
{
    if digits.len() <= 3 {
        digits
    } else {
        grouped(digits.take(digits.len() - 3)) + ","@ + digits.skip(digits.len() - 3)
    }
}

/// A count, with commas between groups of three digits.
pub open spec fn count_text(n: int) -> Seq<char> {
    if n < 0 {
        "-"@ + grouped(decimal((-n) as nat))
    } else {
        grouped(decimal(n as nat))
    }
}

fn push_grouped(out: &mut String, digits: &Vec<char>, n: usize)
    requires
        n <= digits@.len(),
    ensures
        final(out)@ == old(out)@ + grouped(digits@.take(n as int)),
    decreases n,
{
    let ghost before = out@;
    let ghost d = digits@.take(n as int);
    if n <= 3 {
        let s = string_of(&sub_chars(digits, 0, n));
        assert(s@ =~= d);
        out.push_str(s.as_str());
    } else {
        push_grouped(out, digits, n - 3);
        out.push_str(",");
        let s = string_of(&sub_chars(digits, n - 3, n));
        out.push_str(s.as_str());
        proof {
            assert(d.take(n - 3) =~= digits@.take(n - 3));
            assert(s@ =~= d.skip(n - 3));
            assert(out@ =~= before + grouped(d));
        }
    }
}

/// Writes a count with commas between groups of three digits.
pub fn format_count(n: i64) -> (r: String)
    ensures
        r@ == count_text(n as int),
{
    let mut out = String::new();
    assert(out@ =~= Seq::<char>::empty());
    if n < 0 {
        out.push_str("-");
        assert(out@ =~= "-"@);
    }
    let wide: i128 = if n < 0 {
        -(n as i128)
    } else {
        n as i128
    };
    let digits = chars_of(text::decimal_of(wide as u128).as_str());
    let len: usize = digits.len();
    assert(digits@.take(len as int) =~= digits@);
    let ghost before = out@;
    push_grouped(&mut out, &digits, len);
    assert(out@ =~= count_text(n as int));
    out
}

/// `n` in at least three digits.
pub open spec fn three_digits(n: nat) -> Seq<char> {
    repeated('0', 3 - decimal(n).len()) + decimal(n)
}

/// A span of `ms` milliseconds: hours, minutes and seconds, or seconds and
/// milliseconds, or milliseconds.
pub open spec fn span_text(ms: int) -> Seq<char> {
    let secs = ms / 1000;
    let h = secs / 3600;
    let m = (secs % 3600) / 60;
    let s = secs % 60;
    if ms <= 0 {
        "0ms"@
    } else if h > 0 {
        decimal(h as nat) + "h "@ + decimal(m as nat) + "m "@ + decimal(s as nat) + "s"@
    } else if m > 0 {
        decimal(m as nat) + "m "@ + decimal(s as nat) + "s"@
    } else if s > 0 {
        decimal(s as nat) + "."@ + three_digits((ms % 1000) as nat) + "s"@
    } else {
        decimal(ms as nat) + "ms"@
    }
}

/// Writes a span of milliseconds.
pub fn format_duration_ms(ms: i64) -> (r: String)
    ensures
        r@ == span_text(ms as int),
{
    if ms <= 0 {
        return "0ms".to_owned();
    }
    let secs: i64 = ms / 1000;
    let millis: i64 = ms % 1000;
    let h: i64 = secs / 3600;
    let m: i64 = (secs % 3600) / 60;
    let s: i64 = secs % 60;
    if h > 0 {
        let mut out = text::decimal_of(h as u128);
        out.push_str("h ");
        out.push_str(text::decimal_of(m as u128).as_str());
        out.push_str("m ");
        out.push_str(text::decimal_of(s as u128).as_str());
        out.push_str("s");
        out
    } else if m > 0 {
        let mut out = text::decimal_of(m as u128);
        out.push_str("m ");
        out.push_str(text::decimal_of(s as u128).as_str());
        out.push_str("s");
        out
    } else if s > 0 {
        let mut out = text::decimal_of(s as u128);
        out.push_str(".");
        let ghost head = out@;
        let digits = text::decimal_of(millis as u128);
        let n: usize = chars_of(digits.as_str()).len();
        if n < 3 {
            text::push_repeated(&mut out, '0', 3 - n);
        }
        out.push_str(digits.as_str());
        assert(out@ =~= head + three_digits(millis as nat));
        out.push_str("s");
        out
    } else {
        let mut out = text::decimal_of(ms as u128);
        out.push_str("ms");
        out
    }
}

/// How many workers reported, and how many of them succeeded; or how many
/// are running where none has reported.
pub open spec fn workers_text(q: QueryJobResponseView) -> Seq<char> {
    let n = q.worker_results.len();
    if n == 0 {
        "0 reported, "@ + decimal(
            if q.run_workers > 0 {
                q.run_workers as nat
            } else {
                0
            },
        ) + " running"@
    } else {
        let ok = succeeded(q.worker_results).len();
        decimal(n) + " reported, "@ + decimal(ok) + " success, "@ + decimal((n - ok) as nat)
            + " failed"@
    }
}

fn count_successes(workers: &Vec<pb::WorkerResult>) -> (r: usize)
    ensures
        r == succeeded(seq_views(workers@)).len(),
        r <= workers@.len(),
{
    let ghost v = seq_views(workers@);
    let mut n: usize = 0;
    let mut i: usize = 0;
    assert(v.take(0) =~= Seq::<WorkerResultView>::empty());
    while i < workers.len()
        invariant
            i <= workers@.len(),
            v == seq_views(workers@),
            n <= i,
            n == succeeded(v.take(i as int)).len(),
        decreases workers@.len() - i,
    {
        proof {
            assert(v.take(i as int + 1).drop_last() =~= v.take(i as int));
            assert(v.take(i as int + 1).last() == workers@[i as int]@);
        }
        if workers[i].success {
            n += 1;
        }
        i += 1;
    }
    assert(v.take(i as int) =~= v);
    n
}

fn worker_summary(query: &pb::QueryJobResponse) -> (r: String)
    ensures
        r@ == workers_text(query@),
{
    let n: usize = query.worker_results.len();
    if n == 0 {
        let running: u128 = if query.run_workers > 0 {
            query.run_workers as u128
        } else {
            0
        };
        let mut s = "0 reported, ".to_owned();
        s.push_str(text::decimal_of(running).as_str());
        s.push_str(" running");
        s
    } else {
        let ok: usize = count_successes(&query.worker_results);
        let mut s = text::decimal_of(n as u128);
        s.push_str(" reported, ");
        s.push_str(text::decimal_of(ok as u128).as_str());
        s.push_str(" success, ");
        s.push_str(text::decimal_of((n - ok) as u128).as_str());
        s.push_str(" failed");
        s
    }
}

/// The longest time that a worker reports; zero where none does.
pub open spec fn longest(workers: Seq<WorkerResultView>) -> i64
    decreases workers.len(),
{
    if workers.len() == 0 {
        0
    } else if workers.len() == 1 || workers.last().effective_duration_ms > longest(
        workers.drop_last(),
    ) {
        workers.last().effective_duration_ms
    } else {
        longest(workers.drop_last())
    }
}

fn longest_of(workers: &Vec<pb::WorkerResult>) -> (r: i64)
    ensures
        r == longest(seq_views(workers@)),
{
    let ghost v = seq_views(workers@);
    let mut most: i64 = 0;
    let mut i: usize = 0;
    assert(v.take(0) =~= Seq::<WorkerResultView>::empty());
    while i < workers.len()
        invariant
            i <= workers@.len(),
            v == seq_views(workers@),
            most == longest(v.take(i as int)),
        decreases workers@.len() - i,
    {
        proof {
            assert(v.take(i as int + 1).drop_last() =~= v.take(i as int));
            assert(v.take(i as int + 1).last() == workers@[i as int]@);
        }
        let ms: i64 = workers[i].effective_duration_ms;
        if i == 0 || ms > most {
            most = ms;
        }
        i += 1;
    }
    assert(v.take(i as int) =~= v);
    most
}

/// How long a specification asks a job to run, in milliseconds, where it says
/// so and the number fits in 64 bits.
pub open spec fn asked_span(duration: Seq<char>) -> Option<i64> {
    match duration_ms(duration) {
        Ok(Some(ms)) => if ms <= i64::MAX {
            Some(ms as i64)
        } else {
            None
        },
        _ => None,
    }
}

fn parse_duration_ms(raw: &str) -> (r: Option<i64>)
    ensures
        r == asked_span(raw@),
{
    match parse_duration(raw) {
        Ok(Some(d)) => {
            let ms: u128 = d.as_millis();
            if ms <= i64::MAX as u128 {
                Some(ms as i64)
            } else {
                None
            }
        },
        _ => None,
    }
}

/// How far a job has got: by how long its workers have measured, unless it has
/// ended or is not known to last for some time.
pub open spec fn progress_item(job: pb::JobView, workers: Seq<WorkerResultView>) -> ItemView {
    let running = ItemView::Line("Progress: running"@);
    if terminal_code(job.status) {
        ItemView::Line("Progress: 100%"@)
    } else {
        match job.spec {
            None => running,
            Some(spec) => match asked_span(spec.duration) {
                None => running,
                Some(asked) => if asked <= 0 {
                    running
                } else {
                    ItemView::Share {
                        elapsed_ms: longest(workers),
                        duration_ms: asked,
                        tail: "% ("@ + span_text(longest(workers) as int) + "/"@ + span_text(
                            asked as int,
                        ) + ")"@,
                    }
                },
            },
        }
    }
}

fn progress_summary(job: &pb::Job, workers: &Vec<pb::WorkerResult>) -> (r: Item)
    ensures
        r@ == progress_item(job@, seq_views(workers@)),
{
    if crate::cmd::is_terminal_status(job.status) {
        return Item::Line("Progress: 100%".to_owned());
    }
    let asked: i64 = match &job.spec {
        None => 0,
        Some(spec) => match parse_duration_ms(spec.duration.as_str()) {
            None => 0,
            Some(ms) => ms,
        },
    };
    if asked <= 0 {
        return Item::Line("Progress: running".to_owned());
    }
    let elapsed_ms: i64 = longest_of(workers);
    let mut tail = "% (".to_owned();
    tail.push_str(format_duration_ms(elapsed_ms).as_str());
    tail.push_str("/");
    tail.push_str(format_duration_ms(asked).as_str());
    tail.push_str(")");
    Item::Share { elapsed_ms, duration_ms: asked, tail }
}

/// A row on the performance of `name`.
pub open spec fn metric_cells(name: Seq<char>, m: PerformanceMetricsView) -> Seq<CellView> {
    seq![
        CellView::Text(name),
        CellView::Throughput(m.throughput_mbps),
        CellView::Rate(m.iops),
        CellView::Text(count_text(m.total_ops as int)),
        CellView::Errors { count: count_text(m.error_count as int), rate: m.error_rate },
        CellView::Text(count_text(m.total_bytes as int)),
    ]
}

/// A row on the latency of `name`.
pub open spec fn latency_cells(name: Seq<char>, m: PerformanceMetricsView) -> Seq<CellView> {
    let l = match m.latency_us {
        Some(l) => l,
        None => LatencyStats::spec_none(),
    };
    seq![
        CellView::Text(name),
        CellView::Latency(l.p50),
        CellView::Latency(l.p95),
        CellView::Latency(l.p99),
        CellView::Latency(l.p999),
        CellView::Latency(l.max),
        CellView::Latency(l.avg),
    ]
}

/// The rows on all operations together and, where asked for, on each of them
/// in the order of the names; on their latency or on their performance.
pub open spec fn result_rows(
    total: PerformanceMetricsView,
    ops: Seq<(Seq<char>, PerformanceMetricsView)>,
    verbose: bool,
    latency: bool,
) -> Seq<Seq<CellView>> {
    let first = if latency {
        latency_cells("aggregate"@, total)
    } else {
        metric_cells("aggregate"@, total)
    };
    seq![first] + (if verbose {
        in_order(ops).map_values(
            |e: (Seq<char>, PerformanceMetricsView)|
                if latency {
                    latency_cells(e.0, e.1)
                } else {
                    metric_cells(e.0, e.1)
                },
        )
    } else {
        Seq::empty()
    })
}

fn metric_row(name: &str, metric: &pb::PerformanceMetrics) -> (r: Vec<Cell>)
    ensures
        seq_views(r@) == metric_cells(name@, metric@),
{
    let mut row: Vec<Cell> = Vec::new();
    row.push(Cell::Text(name.to_owned()));
    row.push(Cell::Throughput(metric.throughput_mbps));
    row.push(Cell::Rate(metric.iops));
    row.push(Cell::Text(format_count(metric.total_ops)));
    row.push(Cell::Errors { count: format_count(metric.error_count), rate: metric.error_rate });
    row.push(Cell::Text(format_count(metric.total_bytes)));
    assert(seq_views(row@) =~= metric_cells(name@, metric@));
    row
}

fn latency_row(name: &str, metric: &pb::PerformanceMetrics) -> (r: Vec<Cell>)
    ensures
        seq_views(r@) == latency_cells(name@, metric@),
{
    let l: LatencyStats = match metric.latency_us {
        Some(l) => l,
        None => LatencyStats::none(),
    };
    let mut row: Vec<Cell> = Vec::new();
    row.push(Cell::Text(name.to_owned()));
    row.push(Cell::Latency(l.p50));
    row.push(Cell::Latency(l.p95));
    row.push(Cell::Latency(l.p99));
    row.push(Cell::Latency(l.p999));
    row.push(Cell::Latency(l.max));
    row.push(Cell::Latency(l.avg));
    assert(seq_views(row@) =~= latency_cells(name@, metric@));
    row
}

fn rows_on(
    total: &pb::PerformanceMetrics,
    ops: &StrMap<pb::PerformanceMetrics>,
    verbose: bool,
    latency: bool,
) -> (r: Vec<Vec<Cell>>)
    ensures
        row_views(r@) == result_rows(total@, entry_views(ops.seq()), verbose, latency),
{
    let mut rows: Vec<Vec<Cell>> = Vec::new();
    let ghost want = result_rows(total@, entry_views(ops.seq()), verbose, latency);
    let first = if latency {
        latency_row("aggregate", total)
    } else {
        metric_row("aggregate", total)
    };
    rows.push(first);
    if !verbose {
        assert(row_views(rows@) =~= want);
        return rows;
    }
    let order = order_of(ops);
    let ghost s = in_order(ops.seq());
    let mut i: usize = 0;
    proof {
        lemma_viewed_order(ops.seq());
        assert(want.len() == s.len() + 1);
        assert(row_views(rows@) =~= want.take(1));
    }
    while i < order.len()
        invariant
            i <= order@.len(),
            order@.len() == ops.seq().len(),
            s == in_order(ops.seq()),
            s.len() == order@.len(),
            in_order(entry_views(ops.seq())) == entry_views(s),
            want == result_rows(total@, entry_views(ops.seq()), verbose, latency),
            verbose,
            forall|j: int| 0 <= j < order@.len() ==> (#[trigger] order@[j]) < ops.seq().len(),
            forall|j: int|
                0 <= j < order@.len() ==> ops.seq()[#[trigger] order@[j] as int] == s[j],
            rows@.len() == i + 1,
            row_views(rows@) == want.take(i as int + 1),
        decreases order@.len() - i,
    {
        let at: usize = order[i];
        let name = ops.key_at(at).as_str();
        let m = ops.value_at(at);
        let row = if latency {
            latency_row(name, m)
        } else {
            metric_row(name, m)
        };
        let ghost v = seq_views(row@);
        let ghost held = rows@;
        rows.push(row);
        proof {
            assert(entry_views(s)[i as int] == (name@, m@));
            assert(v == want[i as int + 1]);
            assert(row_views(rows@) =~= row_views(held).push(v));
            assert(row_views(rows@) =~= want.take(i as int + 2));
        }
        i += 1;
    }
    assert(want.take(i as int + 1) =~= want);
    rows
}

/// Whether the workers that succeeded, at least two, had no time of measuring
/// in common; and how many of them report operations without a histogram.
pub open spec fn diagnostics(workers: Seq<WorkerResultView>) -> (bool, nat) {
    let done = succeeded(workers);
    (done.len() >= 2 && earliest_end(done) <= latest_start(done), missing_histograms(workers))
}

fn compute_diagnostics(workers: &Vec<pb::WorkerResult>) -> (r: (bool, usize))
    ensures
        (r.0, r.1 as nat) == diagnostics(seq_views(workers@)),
{
    let ghost v = seq_views(workers@);
    let mut n: usize = 0;
    let mut missing: usize = 0;
    let mut start: i64 = 0;
    let mut end: i64 = 0;
    let mut i: usize = 0;
    assert(v.take(0) =~= Seq::<WorkerResultView>::empty());
    while i < workers.len()
        invariant
            i <= workers@.len(),
            v == seq_views(workers@),
            n <= i,
            missing <= i,
            n == succeeded(v.take(i as int)).len(),
            missing == missing_histograms(v.take(i as int)),
            n > 0 ==> start == latest_start(succeeded(v.take(i as int))) && end == earliest_end(
                succeeded(v.take(i as int)),
            ),
        decreases workers@.len() - i,
    {
        let w = &workers[i];
        let ghost c = succeeded(v.take(i as int));
        proof {
            assert(v.take(i as int + 1).drop_last() =~= v.take(i as int));
            assert(v.take(i as int + 1).last() == w@);
        }
        if w.success {
            proof {
                assert(c.push(w@).drop_last() =~= c);
                assert(c.push(w@).last() == w@);
            }
            if n == 0 || w.measure_start_ms > start {
                start = w.measure_start_ms;
            }
            if n == 0 || w.measure_end_ms < end {
                end = w.measure_end_ms;
            }
            if without_histogram(w) {
                missing += 1;
            }
            n += 1;
        }
        i += 1;
    }
    assert(v.take(i as int) =~= v);
    (n >= 2 && end <= start, missing)
}

/// A heading: an empty line, its text, and a line under it.
pub open spec fn heading(title: Seq<char>, rule: Seq<char>) -> Seq<ItemView> {
    seq![ItemView::Line(""@), ItemView::Line(title), ItemView::Line(rule)]
}

/// The part on the job itself.
pub open spec fn job_items(job: pb::JobView, q: QueryJobResponseView) -> Seq<ItemView> {
    seq![
        ItemView::Line("Job Summary"@),
        ItemView::Line("───────────"@),
        ItemView::Line("Job ID  : "@ + job.job_id),
        ItemView::Line("Status  : "@ + status_text(job.status)),
        ItemView::Line("Workers : "@ + workers_text(q)),
        progress_item(job, q.worker_results),
    ]
}

/// The name of the status that a number in a message stands for.
pub open spec fn status_text(code: i32) -> Seq<char> {
    match JobStatus::decoded(code) {
        Some(s) => capitals(s),
        None => capitals(JobStatus::Unspecified),
    }
}

fn status_name(code: i32) -> (r: &'static str)
    ensures
        r@ == status_text(code),
{
    match JobStatus::from_i32(code) {
        Some(s) => status_short(s),
        None => status_short(JobStatus::Unspecified),
    }
}

/// The part on what was asked for.
pub open spec fn workload_items(spec: Option<pb::BenchSpecView>, run_workers: i32) -> Seq<ItemView> {
    match spec {
        Some(p) => heading("Workload"@, "────────"@) + seq![
            ItemView::Line("Duration : "@ + p.duration),
            ItemView::Line("Block    : "@ + p.block_size),
            ItemView::Line(
                "Workers  : target="@ + text::signed_decimal(p.target_workers as int) + " run="@
                    + text::signed_decimal(run_workers as int),
            ),
        ],
        None => Seq::empty(),
    }
}

/// The part on the search for files.
pub open spec fn scan_items(q: QueryJobResponseView) -> Seq<ItemView> {
    if q.dirs_scanned > 0 || q.files_scanned > 0 || q.scan_duration_ms > 0 {
        heading("Manifest Scan"@, "─────────────"@) + seq![
            ItemView::Table {
                headers: seq!["Dirs"@, "Files"@, "Duration"@],
                rows: seq![
                    seq![
                        CellView::Text(count_text(q.dirs_scanned as int)),
                        CellView::Text(count_text(q.files_scanned as int)),
                        CellView::Text(span_text(q.scan_duration_ms as int)),
                    ],
                ],
            },
        ]
    } else {
        Seq::empty()
    }
}

/// The tables of results.
pub open spec fn result_items(
    total: PerformanceMetricsView,
    ops: Seq<(Seq<char>, PerformanceMetricsView)>,
    verbose: bool,
) -> Seq<ItemView> {
    heading("Performance"@, "───────────"@) + seq![
        ItemView::Table {
            headers: seq!["Scope"@, "Throughput"@, "Ops/s"@, "Ops"@, "Errors"@, "Bytes"@],
            rows: result_rows(total, ops, verbose, false),
        },
    ] + heading("Latency"@, "───────"@) + seq![
        ItemView::Table {
            headers: seq!["Scope"@, "p50"@, "p95"@, "p99"@, "p999"@, "max"@, "avg"@],
            rows: result_rows(total, ops, verbose, true),
        },
    ]
}

/// What is warned of.
pub open spec fn warning_items(workers: Seq<WorkerResultView>) -> Seq<ItemView> {
    let (misaligned, missing) = diagnostics(workers);
    let first = if misaligned {
        seq![
            ItemView::Line(
                "- Worker timing is misaligned; aggregate metrics may be less reliable"@,
            ),
        ]
    } else {
        Seq::empty()
    };
    let second = if missing > 0 {
        seq![
            ItemView::Line(
                "- Latency histograms incomplete: "@ + decimal(missing)
                    + " worker(s) missing histogram"@,
            ),
        ]
    } else {
        Seq::empty()
    };
    if misaligned || missing > 0 {
        heading("Warnings"@, "────────"@) + first + second
    } else {
        Seq::empty()
    }
}

/// The part on the results.
pub open spec fn aggregate_items(q: QueryJobResponseView, verbose: bool) -> Seq<ItemView> {
    match q.aggregated {
        Some(a) => (match a.total {
            Some(total) => result_items(total, a.total_per_op, verbose),
            None => Seq::empty(),
        }) + warning_items(a.per_worker),
        None => Seq::empty(),
    }
}

/// The part on the error of the job.
pub open spec fn error_items(error: Option<Seq<char>>) -> Seq<ItemView> {
    match error {
        Some(e) => heading("Error"@, "─────"@) + seq![ItemView::Line(e)],
        None => Seq::empty(),
    }
}

/// The summary of a job.
pub open spec fn summary_of(q: QueryJobResponseView, verbose: bool) -> Seq<ItemView> {
    match q.job {
        None => seq![ItemView::Line("(empty QueryJobResponse — job not found?)"@)],
        Some(job) => job_items(job, q) + (if verbose {
            workload_items(job.spec, q.run_workers)
        } else {
            Seq::empty()
        }) + scan_items(q) + aggregate_items(q, verbose) + error_items(q.error),
    }
}

fn push_item(out: &mut Vec<Item>, item: Item)
    ensures
        seq_views(final(out)@) == seq_views(old(out)@).push(item@),
{
    let ghost before = out@;
    out.push(item);
    assert(seq_views(out@) =~= seq_views(before).push(item@));
}

fn push_line(out: &mut Vec<Item>, line: &str)
    ensures
        seq_views(final(out)@) == seq_views(old(out)@).push(ItemView::Line(line@)),
{
    push_item(out, Item::Line(line.to_owned()));
}

fn push_pair(out: &mut Vec<Item>, label: &str, value: &str)
    ensures
        seq_views(final(out)@) == seq_views(old(out)@).push(ItemView::Line(label@ + value@)),
{
    let mut s = label.to_owned();
    s.push_str(value);
    push_item(out, Item::Line(s));
}

fn push_heading(out: &mut Vec<Item>, title: &str, rule: &str)
    ensures
        seq_views(final(out)@) == seq_views(old(out)@) + heading(title@, rule@),
{
    let ghost before = seq_views(out@);
    push_line(out, "");
    push_line(out, title);
    push_line(out, rule);
    assert(seq_views(out@) =~= before + heading(title@, rule@));
}

fn push_table(out: &mut Vec<Item>, headers: Vec<String>, rows: Vec<Vec<Cell>>)
    ensures
        seq_views(final(out)@) == seq_views(old(out)@).push(
            ItemView::Table { headers: text::views(headers@), rows: row_views(rows@) },
        ),
{
    push_item(out, Item::Table { headers, rows });
}

fn push_job(out: &mut Vec<Item>, job: &pb::Job, query: &pb::QueryJobResponse)
    ensures
        seq_views(final(out)@) == seq_views(old(out)@) + job_items(job@, query@),
{
    let ghost before = seq_views(out@);
    push_line(out, "Job Summary");
    push_line(out, "───────────");
    push_pair(out, "Job ID  : ", job.job_id.as_str());
    push_pair(out, "Status  : ", status_name(job.status));
    push_pair(out, "Workers : ", worker_summary(query).as_str());
    push_item(out, progress_summary(job, &query.worker_results));
    assert(seq_views(out@) =~= before + job_items(job@, query@));
}

fn push_workload(out: &mut Vec<Item>, spec: &pb::BenchSpec, run_workers: i32)
    ensures
        seq_views(final(out)@) == seq_views(old(out)@) + workload_items(Some(spec@), run_workers),
{
    let ghost before = seq_views(out@);
    push_heading(out, "Workload", "────────");
    push_pair(out, "Duration : ", spec.duration.as_str());
    push_pair(out, "Block    : ", spec.block_size.as_str());
    let mut s = "Workers  : target=".to_owned();
    s.push_str(text::signed_decimal_of(spec.target_workers as i64).as_str());
    s.push_str(" run=");
    s.push_str(text::signed_decimal_of(run_workers as i64).as_str());
    push_line(out, s.as_str());
    assert(seq_views(out@) =~= before + workload_items(Some(spec@), run_workers));
}

fn push_scan(out: &mut Vec<Item>, query: &pb::QueryJobResponse)
    ensures
        seq_views(final(out)@) == seq_views(old(out)@) + scan_items(query@),
{
    let ghost before = seq_views(out@);
    if query.dirs_scanned > 0 || query.files_scanned > 0 || query.scan_duration_ms > 0 {
        push_heading(out, "Manifest Scan", "─────────────");
        let mut headers: Vec<String> = Vec::new();
        headers.push("Dirs".to_owned());
        headers.push("Files".to_owned());
        headers.push("Duration".to_owned());
        let mut row: Vec<Cell> = Vec::new();
        row.push(Cell::Text(format_count(query.dirs_scanned)));
        row.push(Cell::Text(format_count(query.files_scanned)));
        row.push(Cell::Text(format_duration_ms(query.scan_duration_ms)));
        let ghost cells = seq![
            CellView::Text(count_text(query.dirs_scanned as int)),
            CellView::Text(count_text(query.files_scanned as int)),
            CellView::Text(span_text(query.scan_duration_ms as int)),
        ];
        assert(seq_views(row@) =~= cells);
        let mut rows: Vec<Vec<Cell>> = Vec::new();
        rows.push(row);
        proof {
            assert(row_views(rows@) =~= seq![cells]);
            assert(text::views(headers@) =~= seq!["Dirs"@, "Files"@, "Duration"@]);
        }
        push_table(out, headers, rows);
    }
    assert(seq_views(out@) =~= before + scan_items(query@));
}

fn push_results(
    out: &mut Vec<Item>,
    total: &pb::PerformanceMetrics,
    ops: &StrMap<pb::PerformanceMetrics>,
    verbose: bool,
)
    ensures
        seq_views(final(out)@) == seq_views(old(out)@) + result_items(
            total@,
            entry_views(ops.seq()),
            verbose,
        ),
{
    let ghost before = seq_views(out@);
    push_heading(out, "Performance", "───────────");
    let mut headers: Vec<String> = Vec::new();
    headers.push("Scope".to_owned());
    headers.push("Throughput".to_owned());
    headers.push("Ops/s".to_owned());
    headers.push("Ops".to_owned());
    headers.push("Errors".to_owned());
    headers.push("Bytes".to_owned());
    assert(text::views(headers@) =~= seq![
        "Scope"@,
        "Throughput"@,
        "Ops/s"@,
        "Ops"@,
        "Errors"@,
        "Bytes"@,
    ]);
    push_table(out, headers, rows_on(total, ops, verbose, false));
    push_heading(out, "Latency", "───────");
    let mut headers: Vec<String> = Vec::new();
    headers.push("Scope".to_owned());
    headers.push("p50".to_owned());
    headers.push("p95".to_owned());
    headers.push("p99".to_owned());
    headers.push("p999".to_owned());
    headers.push("max".to_owned());
    headers.push("avg".to_owned());
    assert(text::views(headers@) =~= seq![
        "Scope"@,
        "p50"@,
        "p95"@,
        "p99"@,
        "p999"@,
        "max"@,
        "avg"@,
    ]);
    push_table(out, headers, rows_on(total, ops, verbose, true));
    assert(seq_views(out@) =~= before + result_items(total@, entry_views(ops.seq()), verbose));
}

fn push_warnings(out: &mut Vec<Item>, workers: &Vec<pb::WorkerResult>)
    ensures
        seq_views(final(out)@) == seq_views(old(out)@) + warning_items(seq_views(workers@)),
{
    let ghost before = seq_views(out@);
    let (misaligned, missing) = compute_diagnostics(workers);
    if misaligned || missing > 0 {
        push_heading(out, "Warnings", "────────");
        if misaligned {
            push_line(
                out,
                "- Worker timing is misaligned; aggregate metrics may be less reliable",
            );
        }
        if missing > 0 {
            let mut s = "- Latency histograms incomplete: ".to_owned();
            s.push_str(text::decimal_of(missing as u128).as_str());
            s.push_str(" worker(s) missing histogram");
            push_line(out, s.as_str());
        }
    }
    assert(seq_views(out@) =~= before + warning_items(seq_views(workers@)));
}

/// What is printed of the job that a response tells of.
pub fn print(query: &pb::QueryJobResponse) -> (r: Vec<Item>)
    ensures
        seq_views(r@) == summary_of(query@, false),
{
    print_with_options(query, SummaryOptions { verbose: false })
}

/// What is printed of the job that a response tells of, with more of it where
/// `options` ask for it.
pub fn print_with_options(query: &pb::QueryJobResponse, options: SummaryOptions) -> (r: Vec<Item>)
    ensures
        seq_views(r@) == summary_of(query@, options.verbose),
{
    let mut out: Vec<Item> = Vec::new();
    assert(seq_views(out@) =~= Seq::<ItemView>::empty());
    let job = match &query.job {
        Some(job) => job,
        None => {
            push_line(&mut out, "(empty QueryJobResponse — job not found?)");
            assert(seq_views(out@) =~= summary_of(query@, options.verbose));
            return out;
        },
    };
    push_job(&mut out, job, query);
    if options.verbose {
        if let Some(spec) = &job.spec {
            push_workload(&mut out, spec, query.run_workers);
        }
    }
    let ghost head = job_items(job@, query@) + (if options.verbose {
        workload_items(job@.spec, query@.run_workers)
    } else {
        Seq::empty()
    });
    assert(seq_views(out@) =~= head);
    push_scan(&mut out, query);
    let ghost scanned = seq_views(out@);
    if let Some(agg) = &query.aggregated {
        if let Some(total) = &agg.total {
            push_results(&mut out, total, &agg.total_per_op, options.verbose);
        }
        push_warnings(&mut out, &agg.per_worker);
    }
    assert(seq_views(out@) =~= scanned + aggregate_items(query@, options.verbose));
    let ghost shown = seq_views(out@);
    if let Some(e) = &query.error {
        push_heading(&mut out, "Error", "─────");
        push_line(&mut out, e.as_str());
    }
    assert(seq_views(out@) =~= shown + error_items(query@.error));
    out
}

} // verus!
