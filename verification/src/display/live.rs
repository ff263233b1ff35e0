//! A job while it runs: what its events have told so far, and samples of it in
//! a table, a row for each worker and operation.
//!
//! Numbers that are shown in floating point stay numbers here; whoever prints a
//! sample adds up, compares and writes them out.

use vstd::prelude::*;

use crate::cmd::list::{capitals, status_short};
use crate::metrics::aggregate::{nearest, sum, to_nearest};
use crate::order::{in_order, lemma_viewed_order, order_of};
use crate::pb;
use crate::pb::{
    EventKind, JobStatus, LatencyStats, Number, PerformanceMetricsView, WorkerProgressView,
    WorkerResultView,
};
use crate::state::job::is_end;
use crate::strmap::{lemma_viewed_keys, lemma_viewed_put, lookup, put, StrMap};
use crate::text;
use crate::text::{
    chars_of, decimal, pad_left, pad_right, push_aligned, push_padded, push_repeated, repeated,
    starts_with, string_of, sub_chars,
};
use crate::time::Clock;
use crate::views::{copy_map, entry_views, seq_views, Duplicate};

verus! {

/// The least time between two samples, in nanoseconds.
pub const REFRESH_INTERVAL_NS: u128 = 2_000_000_000;

/// A step in finding a mean: the mean so far counts for `before` operations, and
/// `avg` for `added` more, of `all` together.
#[derive(Debug, Clone, Copy, PartialEq, Eq, Structural)]
pub struct MeanStep {
    pub before: i64,
    pub avg: Number,
    pub added: i64,
    pub all: i64,
}

/// What is shown of an operation, of one worker or of several.
#[derive(Debug, PartialEq, Eq)]
pub struct OpMetrics {
    /// Megabytes per second, to be added up.
    pub throughput_mbps: Vec<Number>,
    /// Operations per second, to be added up.
    pub ops_per_sec: Vec<Number>,
    pub total_ops: i64,
    pub error_count: i64,
    /// Latencies, of which the largest of each kind are shown.
    pub latency_us: Vec<LatencyStats>,
    /// The steps in which the mean latency is found.
    pub mean_us: Vec<MeanStep>,
}

/// What an [`OpMetrics`] holds.
#[verifier::ext_equal]
pub struct OpMetricsView {
    pub throughput_mbps: Seq<Number>,
    pub ops_per_sec: Seq<Number>,
    pub total_ops: i64,
    pub error_count: i64,
    pub latency_us: Seq<LatencyStats>,
    pub mean_us: Seq<MeanStep>,
}

impl View for OpMetrics {
    type V = OpMetricsView;

    open spec fn view(&self) -> OpMetricsView {
        OpMetricsView {
            throughput_mbps: self.throughput_mbps@,
            ops_per_sec: self.ops_per_sec@,
            total_ops: self.total_ops,
            error_count: self.error_count,
            latency_us: self.latency_us@,
            mean_us: self.mean_us@,
        }
    }
}

fn copy_all<T: Copy>(v: &Vec<T>) -> (r: Vec<T>)
    ensures
        r@ == v@,
{
    let mut out: Vec<T> = Vec::new();
    let mut i: usize = 0;
    while i < v.len()
        invariant
            i <= v@.len(),
            out@ == v@.take(i as int),
        decreases v@.len() - i,
    {
        out.push(v[i]);
        assert(out@ =~= v@.take(i as int + 1));
        i += 1;
    }
    assert(v@.take(i as int) =~= v@);
    out
}

impl Duplicate for OpMetrics {
    fn copy(&self) -> (r: Self) {
        OpMetrics {
            throughput_mbps: copy_all(&self.throughput_mbps),
            ops_per_sec: copy_all(&self.ops_per_sec),
            total_ops: self.total_ops,
            error_count: self.error_count,
            latency_us: copy_all(&self.latency_us),
            mean_us: copy_all(&self.mean_us),
        }
    }
}

/// Nothing to show yet.
pub open spec fn no_metrics() -> OpMetricsView {
    OpMetricsView {
        throughput_mbps: Seq::empty(),
        ops_per_sec: Seq::empty(),
        total_ops: 0,
        error_count: 0,
        latency_us: Seq::empty(),
        mean_us: Seq::empty(),
    }
}

/// What is shown of a single report.
pub open spec fn metrics_of(m: PerformanceMetricsView) -> OpMetricsView {
    OpMetricsView {
        throughput_mbps: seq![m.throughput_mbps],
        ops_per_sec: seq![m.iops],
        total_ops: m.total_ops,
        error_count: m.error_count,
        latency_us: match m.latency_us {
            Some(l) => seq![l],
            None => Seq::empty(),
        },
        mean_us: match m.latency_us {
            Some(l) => seq![MeanStep { before: 0, avg: l.avg, added: 1, all: 1 }],
            None => Seq::empty(),
        },
    }
}

/// `t` with a report added. Means are weighed by the operations that
/// succeeded.
pub open spec fn with_metric(t: OpMetricsView, m: PerformanceMetricsView) -> OpMetricsView {
    let errors = sum(t.error_count, m.error_count);
    let before = nearest(t.total_ops - (errors - m.error_count));
    let added = nearest(m.total_ops - m.error_count);
    let all = sum(before, added);
    OpMetricsView {
        throughput_mbps: t.throughput_mbps.push(m.throughput_mbps),
        ops_per_sec: t.ops_per_sec.push(m.iops),
        total_ops: sum(t.total_ops, m.total_ops),
        error_count: errors,
        latency_us: match m.latency_us {
            Some(l) => t.latency_us.push(l),
            None => t.latency_us,
        },
        mean_us: match m.latency_us {
            Some(l) => if all > 0 {
                t.mean_us.push(MeanStep { before, avg: l.avg, added, all })
            } else {
                t.mean_us
            },
            None => t.mean_us,
        },
    }
}

fn no_op_metrics() -> (r: OpMetrics)
    ensures
        r@ == no_metrics(),
{
    OpMetrics {
        throughput_mbps: Vec::new(),
        ops_per_sec: Vec::new(),
        total_ops: 0,
        error_count: 0,
        latency_us: Vec::new(),
        mean_us: Vec::new(),
    }
}

fn metrics_from_metric(metric: &pb::PerformanceMetrics) -> (r: OpMetrics)
    ensures
        r@ == metrics_of(metric@),
{
    let mut r = no_op_metrics();
    r.throughput_mbps.push(metric.throughput_mbps);
    r.ops_per_sec.push(metric.iops);
    r.total_ops = metric.total_ops;
    r.error_count = metric.error_count;
    if let Some(l) = metric.latency_us {
        r.latency_us.push(l);
        r.mean_us.push(MeanStep { before: 0, avg: l.avg, added: 1, all: 1 });
    }
    assert(r@ =~= metrics_of(metric@));
    r
}

fn merge_metric(target: &mut OpMetrics, metric: &pb::PerformanceMetrics)
    ensures
        final(target)@ == with_metric(old(target)@, metric@),
{
    let previous: i64 = target.total_ops;
    target.throughput_mbps.push(metric.throughput_mbps);
    target.ops_per_sec.push(metric.iops);
    target.total_ops = to_nearest(previous as i128 + metric.total_ops as i128);
    target.error_count = to_nearest(target.error_count as i128 + metric.error_count as i128);
    if let Some(l) = metric.latency_us {
        target.latency_us.push(l);
        let before: i64 = to_nearest(
            previous as i128 - (target.error_count as i128 - metric.error_count as i128),
        );
        let added: i64 = to_nearest(metric.total_ops as i128 - metric.error_count as i128);
        let all: i64 = to_nearest(before as i128 + added as i128);
        if all > 0 {
            target.mean_us.push(MeanStep { before, avg: l.avg, added, all });
        }
    }
    assert(target@ =~= with_metric(old(target)@, metric@));
}

/// What the events of a job have told.
#[derive(Debug)]
pub struct LiveDisplay {
    job_id: String,
    /// How long the job is to run; zero where that is not known.
    total_duration_ms: i64,
    verbose: bool,
    started_ns: u128,
    last_status: JobStatus,
    last_seq: i64,
    dirs_scanned: i64,
    files_scanned: i64,
    scan_duration_ms: i64,
    workers: StrMap<pb::WorkerProgress>,
    final_workers: StrMap<pb::WorkerResult>,
    final_per_op: StrMap<pb::PerformanceMetrics>,
    last_render: Option<u128>,
    rendered_once: bool,
}

/// What a [`LiveDisplay`] holds.
#[verifier::ext_equal]
pub struct LiveView {
    pub job_id: Seq<char>,
    pub total_duration_ms: i64,
    pub verbose: bool,
    pub started_ns: u128,
    pub last_status: JobStatus,
    pub last_seq: i64,
    pub dirs_scanned: i64,
    pub files_scanned: i64,
    pub scan_duration_ms: i64,
    pub workers: Seq<(Seq<char>, WorkerProgressView)>,
    pub final_workers: Seq<(Seq<char>, WorkerResultView)>,
    pub final_per_op: Seq<(Seq<char>, PerformanceMetricsView)>,
    pub last_render: Option<u128>,
    pub rendered_once: bool,
}

impl View for LiveDisplay {
    type V = LiveView;

    closed spec fn view(&self) -> LiveView {
        LiveView {
            job_id: self.job_id@,
            total_duration_ms: self.total_duration_ms,
            verbose: self.verbose,
            started_ns: self.started_ns,
            last_status: self.last_status,
            last_seq: self.last_seq,
            dirs_scanned: self.dirs_scanned,
            files_scanned: self.files_scanned,
            scan_duration_ms: self.scan_duration_ms,
            workers: entry_views(self.workers.seq()),
            final_workers: entry_views(self.final_workers.seq()),
            final_per_op: entry_views(self.final_per_op.seq()),
            last_render: self.last_render,
            rendered_once: self.rendered_once,
        }
    }
}

/// Nothing told yet.
pub open spec fn nothing_told(
    job_id: Seq<char>,
    total_duration_ms: i64,
    verbose: bool,
    at: Clock,
) -> LiveView {
    LiveView {
        job_id,
        total_duration_ms,
        verbose,
        started_ns: at.mono_ns,
        last_status: JobStatus::Unspecified,
        last_seq: 0,
        dirs_scanned: 0,
        files_scanned: 0,
        scan_duration_ms: 0,
        workers: Seq::empty(),
        final_workers: Seq::empty(),
        final_per_op: Seq::empty(),
        last_render: None,
        rendered_once: false,
    }
}

/// The workers with new reports, each in place of the last of its worker.
pub open spec fn with_progress(
    workers: Seq<(Seq<char>, WorkerProgressView)>,
    reports: Seq<WorkerProgressView>,
) -> Seq<(Seq<char>, WorkerProgressView)>
    decreases reports.len(),
{
    if reports.len() == 0 {
        workers
    } else {
        put(
            with_progress(workers, reports.drop_last()),
            reports.last().worker_id,
            reports.last(),
        )
    }
}

/// The results by worker; of several of one worker the last.
pub open spec fn by_worker(results: Seq<WorkerResultView>) -> Seq<(Seq<char>, WorkerResultView)>
    decreases results.len(),
{
    if results.len() == 0 {
        Seq::empty()
    } else {
        put(by_worker(results.drop_last()), results.last().worker_id, results.last())
    }
}

/// What is told after an event.
pub open spec fn after_event(d: LiveView, e: pb::JobEventView) -> LiveView {
    LiveView {
        last_seq: if e.seq > d.last_seq {
            e.seq
        } else {
            d.last_seq
        },
        last_status: match JobStatus::decoded(e.status) {
            Some(s) => s,
            None => JobStatus::Unspecified,
        },
        dirs_scanned: e.dirs_scanned,
        files_scanned: e.files_scanned,
        scan_duration_ms: e.scan_duration_ms,
        workers: with_progress(d.workers, e.worker_progress),
        final_workers: match e.aggregated {
            Some(a) => by_worker(a.per_worker),
            None => d.final_workers,
        },
        final_per_op: match e.aggregated {
            Some(a) => a.total_per_op,
            None => d.final_per_op,
        },
        ..d
    }
}

fn add_progress(workers: &mut StrMap<pb::WorkerProgress>, reports: &Vec<pb::WorkerProgress>)
    ensures
        entry_views(final(workers).seq()) == with_progress(
            entry_views(old(workers).seq()),
            seq_views(reports@),
        ),
{
    let ghost start = entry_views(workers.seq());
    let ghost v = seq_views(reports@);
    let mut i: usize = 0;
    assert(v.take(0) =~= Seq::<WorkerProgressView>::empty());
    while i < reports.len()
        invariant
            i <= reports@.len(),
            v == seq_views(reports@),
            entry_views(workers.seq()) == with_progress(start, v.take(i as int)),
        decreases reports@.len() - i,
    {
        let one = reports[i].copy();
        let id = one.worker_id.clone();
        let _ = workers.len();
        proof {
            assert(v.take(i as int + 1).drop_last() =~= v.take(i as int));
            assert(v.take(i as int + 1).last() == one@);
            lemma_viewed_put(workers.seq(), id@, one);
        }
        workers.insert(id, one);
        i += 1;
    }
    assert(v.take(i as int) =~= v);
}

fn results_by_worker(results: &Vec<pb::WorkerResult>) -> (r: StrMap<pb::WorkerResult>)
    ensures
        entry_views(r.seq()) == by_worker(seq_views(results@)),
{
    let mut out: StrMap<pb::WorkerResult> = StrMap::new();
    let ghost v = seq_views(results@);
    let mut i: usize = 0;
    proof {
        assert(v.take(0) =~= Seq::<WorkerResultView>::empty());
        assert(entry_views(out.seq()) =~= Seq::<(Seq<char>, WorkerResultView)>::empty());
    }
    while i < results.len()
        invariant
            i <= results@.len(),
            v == seq_views(results@),
            entry_views(out.seq()) == by_worker(v.take(i as int)),
        decreases results@.len() - i,
    {
        let one = results[i].copy();
        let id = one.worker_id.clone();
        let _ = out.len();
        proof {
            assert(v.take(i as int + 1).drop_last() =~= v.take(i as int));
            assert(v.take(i as int + 1).last() == one@);
            lemma_viewed_put(out.seq(), id@, one);
        }
        out.insert(id, one);
        i += 1;
    }
    assert(v.take(i as int) =~= v);
    out
}

/// The longest time that a worker reports on its way.
pub open spec fn longest_run(workers: Seq<(Seq<char>, WorkerProgressView)>) -> Option<i64>
    decreases workers.len(),
{
    if workers.len() == 0 {
        None
    } else {
        let last = workers.last().1.elapsed_ms;
        match longest_run(workers.drop_last()) {
            Some(ms) => Some(
                if last > ms {
                    last
                } else {
                    ms
                },
            ),
            None => Some(last),
        }
    }
}

/// The longest time that a worker reports at its end.
pub open spec fn longest_result(workers: Seq<(Seq<char>, WorkerResultView)>) -> Option<i64>
    decreases workers.len(),
{
    if workers.len() == 0 {
        None
    } else {
        let last = workers.last().1.effective_duration_ms;
        match longest_result(workers.drop_last()) {
            Some(ms) => Some(
                if last > ms {
                    last
                } else {
                    ms
                },
            ),
            None => Some(last),
        }
    }
}

/// How long a job has run: what its workers report at their end, or else on
/// their way, or else the whole seconds since it is watched.
pub open spec fn elapsed_ms(d: LiveView, at: Clock) -> i64 {
    match longest_result(d.final_workers) {
        Some(ms) => ms,
        None => match longest_run(d.workers) {
            Some(ms) => ms,
            None => nearest(
                (if at.mono_ns > d.started_ns {
                    at.mono_ns - d.started_ns
                } else {
                    0
                }) / 1_000_000_000 * 1000,
            ),
        },
    }
}

/// A row of a sample.
#[derive(Debug, PartialEq, Eq)]
pub struct DisplayRow {
    pub worker: String,
    pub op: String,
    pub elapsed_ms: i64,
    pub metrics: OpMetrics,
}

/// What a [`DisplayRow`] holds.
#[verifier::ext_equal]
pub struct DisplayRowView {
    pub worker: Seq<char>,
    pub op: Seq<char>,
    pub elapsed_ms: i64,
    pub metrics: OpMetricsView,
}

impl View for DisplayRow {
    type V = DisplayRowView;

    open spec fn view(&self) -> DisplayRowView {
        DisplayRowView {
            worker: self.worker@,
            op: self.op@,
            elapsed_ms: self.elapsed_ms,
            metrics: self.metrics@,
        }
    }
}

/// The rows on the operations of a worker, in the order of their names.
pub open spec fn op_rows(
    worker: Seq<char>,
    ops: Seq<(Seq<char>, PerformanceMetricsView)>,
    elapsed_ms: i64,
) -> Seq<DisplayRowView> {
    in_order(ops).map_values(
        |e: (Seq<char>, PerformanceMetricsView)|
            DisplayRowView { worker, op: e.0, elapsed_ms, metrics: metrics_of(e.1) },
    )
}

/// The rows on workers that report on their way.
pub open spec fn running_rows(workers: Seq<(Seq<char>, WorkerProgressView)>) -> Seq<DisplayRowView>
    decreases workers.len(),
{
    if workers.len() == 0 {
        Seq::empty()
    } else {
        let (id, w) = workers.last();
        running_rows(workers.drop_last()) + op_rows(id, w.per_op, w.elapsed_ms)
    }
}

/// The rows on workers that reported at their end.
pub open spec fn ended_rows(workers: Seq<(Seq<char>, WorkerResultView)>) -> Seq<DisplayRowView>
    decreases workers.len(),
{
    if workers.len() == 0 {
        Seq::empty()
    } else {
        let (id, w) = workers.last();
        ended_rows(workers.drop_last()) + op_rows(id, w.per_op, w.effective_duration_ms)
    }
}

/// The rows on each worker, in the order of their ids.
pub open spec fn worker_rows(d: LiveView) -> Seq<DisplayRowView> {
    if d.final_workers.len() == 0 {
        running_rows(in_order(d.workers))
    } else {
        ended_rows(in_order(d.final_workers))
    }
}

/// `acc` with the reports of a worker added, each under its operation.
pub open spec fn add_ops(
    acc: Seq<(Seq<char>, OpMetricsView)>,
    ops: Seq<(Seq<char>, PerformanceMetricsView)>,
) -> Seq<(Seq<char>, OpMetricsView)>
    decreases ops.len(),
{
    if ops.len() == 0 {
        acc
    } else {
        let before = add_ops(acc, ops.drop_last());
        let (op, m) = ops.last();
        let so_far = match lookup(before, op) {
            Some(t) => t,
            None => no_metrics(),
        };
        put(before, op, with_metric(so_far, m))
    }
}

/// The reports of all workers, added up by operation.
pub open spec fn totals(workers: Seq<(Seq<char>, WorkerProgressView)>) -> Seq<
    (Seq<char>, OpMetricsView),
>
    decreases workers.len(),
{
    if workers.len() == 0 {
        Seq::empty()
    } else {
        add_ops(totals(workers.drop_last()), workers.last().1.per_op)
    }
}

/// The rows on all workers together, in the order of the operations: from the
/// results of the job, or else added up.
pub open spec fn aggregate_rows(d: LiveView, at: Clock) -> Seq<DisplayRowView> {
    let ms = elapsed_ms(d, at);
    if d.final_per_op.len() == 0 {
        in_order(totals(d.workers)).map_values(
            |e: (Seq<char>, OpMetricsView)|
                DisplayRowView { worker: "Aggregate"@, op: e.0, elapsed_ms: ms, metrics: e.1 },
        )
    } else {
        op_rows("Aggregate"@, d.final_per_op, ms)
    }
}

fn push_op_rows(
    rows: &mut Vec<DisplayRow>,
    worker: &str,
    ops: &StrMap<pb::PerformanceMetrics>,
    elapsed_ms: i64,
)
    ensures
        seq_views(final(rows)@) == seq_views(old(rows)@) + op_rows(
            worker@,
            entry_views(ops.seq()),
            elapsed_ms,
        ),
{
    let order = order_of(ops);
    let ghost start = seq_views(rows@);
    let ghost s = in_order(ops.seq());
    let ghost all = op_rows(worker@, entry_views(ops.seq()), elapsed_ms);
    let mut i: usize = 0;
    proof {
        lemma_viewed_order(ops.seq());
        assert(start =~= start + all.take(0));
    }
    while i < order.len()
        invariant
            i <= order@.len(),
            order@.len() == ops.seq().len(),
            s == in_order(ops.seq()),
            s.len() == order@.len(),
            in_order(entry_views(ops.seq())) == entry_views(s),
            all == op_rows(worker@, entry_views(ops.seq()), elapsed_ms),
            forall|j: int| 0 <= j < order@.len() ==> (#[trigger] order@[j]) < ops.seq().len(),
            forall|j: int|
                0 <= j < order@.len() ==> ops.seq()[#[trigger] order@[j] as int] == s[j],
            seq_views(rows@) == start + all.take(i as int),
        decreases order@.len() - i,
    {
        let at: usize = order[i];
        let row = DisplayRow {
            worker: worker.to_owned(),
            op: ops.key_at(at).clone(),
            elapsed_ms,
            metrics: metrics_from_metric(ops.value_at(at)),
        };
        let ghost v = row@;
        let ghost held = rows@;
        rows.push(row);
        proof {
            assert(entry_views(s)[i as int] == (s[i as int].0, s[i as int].1@));
            assert(v == all[i as int]);
            assert(seq_views(rows@) =~= seq_views(held).push(v));
            assert(seq_views(rows@) =~= start + all.take(i as int + 1));
        }
        i += 1;
    }
    assert(all.take(i as int) =~= all);
}

fn add_worker_ops(acc: &mut StrMap<OpMetrics>, ops: &StrMap<pb::PerformanceMetrics>)
    ensures
        entry_views(final(acc).seq()) == add_ops(
            entry_views(old(acc).seq()),
            entry_views(ops.seq()),
        ),
{
    let n: usize = ops.len();
    let ghost start = entry_views(acc.seq());
    let ghost v = entry_views(ops.seq());
    let mut i: usize = 0;
    assert(v.take(0) =~= Seq::<(Seq<char>, PerformanceMetricsView)>::empty());
    while i < n
        invariant
            i <= n,
            n == ops.seq().len(),
            v == entry_views(ops.seq()),
            entry_views(acc.seq()) == add_ops(start, v.take(i as int)),
        decreases n - i,
    {
        let key = ops.key_at(i);
        proof {
            assert(v.take(i as int + 1).drop_last() =~= v.take(i as int));
            assert(v.take(i as int + 1).last() == v[i as int]);
        }
        let _ = acc.len();
        proof {
            lemma_viewed_keys(acc.seq(), key@);
        }
        let mut t = match acc.get(key.as_str()) {
            Some(t) => t.copy(),
            None => no_op_metrics(),
        };
        merge_metric(&mut t, ops.value_at(i));
        proof {
            lemma_viewed_put(acc.seq(), key@, t);
        }
        acc.insert(key.clone(), t);
        i += 1;
    }
    assert(v.take(i as int) =~= v);
}

fn aggregate_per_op(workers: &StrMap<pb::WorkerProgress>) -> (r: StrMap<OpMetrics>)
    ensures
        entry_views(r.seq()) == totals(entry_views(workers.seq())),
{
    let mut acc: StrMap<OpMetrics> = StrMap::new();
    let n: usize = workers.len();
    let ghost v = entry_views(workers.seq());
    let mut i: usize = 0;
    proof {
        assert(v.take(0) =~= Seq::<(Seq<char>, WorkerProgressView)>::empty());
        assert(entry_views(acc.seq()) =~= Seq::<(Seq<char>, OpMetricsView)>::empty());
    }
    while i < n
        invariant
            i <= n,
            n == workers.seq().len(),
            v == entry_views(workers.seq()),
            entry_views(acc.seq()) == totals(v.take(i as int)),
        decreases n - i,
    {
        let w = workers.value_at(i);
        proof {
            assert(v.take(i as int + 1).drop_last() =~= v.take(i as int));
            assert(v.take(i as int + 1).last() == v[i as int]);
        }
        add_worker_ops(&mut acc, &w.per_op);
        i += 1;
    }
    assert(v.take(i as int) =~= v);
    acc
}

/// A piece of the head of a sample: a text, or a count that is shown in short.
#[derive(Debug, PartialEq, Eq)]
pub enum Piece {
    Text(String),
    Count(i64),
}

/// What a [`Piece`] holds.
#[verifier::ext_equal]
pub enum PieceView {
    Text(Seq<char>),
    Count(i64),
}

impl View for Piece {
    type V = PieceView;

    open spec fn view(&self) -> PieceView {
        match self {
            Piece::Text(s) => PieceView::Text(s@),
            Piece::Count(n) => PieceView::Count(*n),
        }
    }
}

/// `n` in at least two digits.
pub open spec fn two_digits(n: nat) -> Seq<char> {
    repeated('0', 2 - decimal(n).len()) + decimal(n)
}

/// A span of milliseconds in hours, minutes and seconds.
pub open spec fn clock_text(ms: int) -> Seq<char> {
    let secs = ms / 1000;
    if ms <= 0 {
        "00:00:00"@
    } else {
        two_digits((secs / 3600) as nat) + ":"@ + two_digits(((secs % 3600) / 60) as nat) + ":"@
            + two_digits((secs % 60) as nat)
    }
}

/// A span of milliseconds in its two largest units.
pub open spec fn short_text(ms: int) -> Seq<char> {
    let secs = ms / 1000;
    let h = secs / 3600;
    let m = (secs % 3600) / 60;
    let s = secs % 60;
    if ms <= 0 {
        "0s"@
    } else if h > 0 {
        decimal(h as nat) + "h"@ + two_digits(m as nat)
    } else if m > 0 {
        decimal(m as nat) + "m"@ + two_digits(s as nat)
    } else {
        decimal(s as nat) + "s"@
    }
}

fn push_two_digits(out: &mut String, n: i64)
    requires
        n >= 0,
    ensures
        final(out)@ == old(out)@ + two_digits(n as nat),
{
    let ghost before = out@;
    let digits = text::decimal_of(n as u128);
    let len: usize = chars_of(digits.as_str()).len();
    if len < 2 {
        push_repeated(out, '0', 2 - len);
    }
    out.push_str(digits.as_str());
    assert(out@ =~= before + two_digits(n as nat));
}

/// Writes a span of milliseconds in hours, minutes and seconds.
pub fn format_duration(ms: i64) -> (r: String)
    ensures
        r@ == clock_text(ms as int),
{
    if ms <= 0 {
        return "00:00:00".to_owned();
    }
    let secs: i64 = ms / 1000;
    let mut out = String::new();
    assert(out@ =~= Seq::<char>::empty());
    push_two_digits(&mut out, secs / 3600);
    assert(out@ =~= two_digits((secs / 3600) as nat));
    out.push_str(":");
    push_two_digits(&mut out, (secs % 3600) / 60);
    out.push_str(":");
    push_two_digits(&mut out, secs % 60);
    out
}

/// Writes a span of milliseconds in its two largest units.
pub fn format_duration_short(ms: i64) -> (r: String)
    ensures
        r@ == short_text(ms as int),
{
    if ms <= 0 {
        return "0s".to_owned();
    }
    let secs: i64 = ms / 1000;
    let h: i64 = secs / 3600;
    let m: i64 = (secs % 3600) / 60;
    let s: i64 = secs % 60;
    if h > 0 {
        let mut out = text::decimal_of(h as u128);
        out.push_str("h");
        push_two_digits(&mut out, m);
        out
    } else if m > 0 {
        let mut out = text::decimal_of(m as u128);
        out.push_str("m");
        push_two_digits(&mut out, s);
        out
    } else {
        let mut out = text::decimal_of(s as u128);
        out.push_str("s");
        out
    }
}

/// The whole number closest to `n / d`, the even one where two are.
pub open spec fn rounded(n: int, d: int) -> int {
    let q = n / d;
    let r = n % d;
    if 2 * r < d || (2 * r == d && q % 2 == 0) {
        q
    } else {
        q + 1
    }
}

/// How much of `total` has passed, in whole percent, and never more than 999.
pub open spec fn percent(elapsed: int, total: int) -> int {
    let e = if elapsed > 0 {
        elapsed
    } else {
        0
    };
    let p = rounded(100 * e, total);
    if p > 999 {
        999
    } else {
        p
    }
}

/// The time that has passed, and how much of `total` it is where that is
/// known.
pub open spec fn elapsed_text(elapsed: int, total: int) -> Seq<char> {
    if total > 0 {
        short_text(elapsed) + " "@ + pad_left(decimal(percent(elapsed, total) as nat), 3) + "%"@
    } else {
        short_text(elapsed)
    }
}

/// Writes the time that has passed, and how much of `total_ms` it is where that
/// is known.
pub fn format_elapsed_compact(elapsed_ms: i64, total_ms: i64) -> (r: String)
    ensures
        r@ == elapsed_text(elapsed_ms as int, total_ms as int),
{
    let mut out = format_duration_short(elapsed_ms);
    if total_ms > 0 {
        let e: i128 = if elapsed_ms > 0 {
            100 * (elapsed_ms as i128)
        } else {
            0
        };
        let d: i128 = total_ms as i128;
        let q: i128 = e / d;
        let r: i128 = e % d;
        let mut p: i128 = if 2 * r < d || (2 * r == d && q % 2 == 0) {
            q
        } else {
            q + 1
        };
        proof {
            vstd::arithmetic::div_mod::lemma_div_is_ordered_by_denominator(e as int, 1, d as int);
            vstd::arithmetic::div_mod::lemma_div_pos_is_pos(e as int, d as int);
        }
        if p > 999 {
            p = 999;
        }
        out.push_str(" ");
        push_aligned(&mut out, text::decimal_of(p as u128).as_str(), 3);
        out.push_str("%");
    }
    out
}

/// The head of a sample.
pub open spec fn head_pieces(d: LiveView, at: Clock) -> Seq<PieceView> {
    let times = if d.total_duration_ms > 0 {
        clock_text(elapsed_ms(d, at) as int) + " / "@ + clock_text(d.total_duration_ms as int)
    } else {
        clock_text(elapsed_ms(d, at) as int)
    };
    let first = seq![
        PieceView::Text(
            "Job ID: "@ + d.job_id + " | Elapsed: "@ + times + " | Status: "@ + capitals(
                d.last_status,
            ) + "\n"@,
        ),
    ];
    let scan = if d.verbose && (d.dirs_scanned > 0 || d.files_scanned > 0 || d.scan_duration_ms
        > 0) {
        seq![
            PieceView::Text("Scan: dirs="@),
            PieceView::Count(d.dirs_scanned),
            PieceView::Text(" files="@),
            PieceView::Count(d.files_scanned),
            PieceView::Text(" duration="@ + clock_text(d.scan_duration_ms as int) + "\n"@),
        ]
    } else {
        Seq::empty()
    };
    let tip = if is_end(d.last_status) {
        Seq::empty()
    } else {
        seq![PieceView::Text("Tip: Press Ctrl+C to detach or cancel job\n"@)]
    };
    first + scan + tip
}

/// A sample: its head, which only the first has, and its rows.
#[derive(Debug, PartialEq, Eq)]
pub struct Sample {
    pub head: Option<Vec<Piece>>,
    pub worker_rows: Vec<DisplayRow>,
    pub aggregate_rows: Vec<DisplayRow>,
}

impl LiveDisplay {
    /// Nothing told yet of a job that is to run for `total_duration_ms`.
    #[must_use]
    pub fn new(job_id: String, total_duration_ms: i64, at: &Clock) -> (r: LiveDisplay)
        ensures
            r@ == nothing_told(job_id@, total_duration_ms, false, *at),
    {
        LiveDisplay::new_with_options(job_id, total_duration_ms, false, at)
    }

    /// Nothing told yet of a job that is to run for `total_duration_ms`.
    #[must_use]
    pub fn new_with_options(
        job_id: String,
        total_duration_ms: i64,
        verbose: bool,
        at: &Clock,
    ) -> (r: LiveDisplay)
        ensures
            r@ == nothing_told(job_id@, total_duration_ms, verbose, *at),
    {
        let r = LiveDisplay {
            job_id,
            total_duration_ms,
            verbose,
            started_ns: at.mono_ns,
            last_status: JobStatus::Unspecified,
            last_seq: 0,
            dirs_scanned: 0,
            files_scanned: 0,
            scan_duration_ms: 0,
            workers: StrMap::new(),
            final_workers: StrMap::new(),
            final_per_op: StrMap::new(),
            last_render: None,
            rendered_once: false,
        };
        assert(r@ =~= nothing_told(job_id@, total_duration_ms, verbose, *at));
        r
    }

    /// Takes an event in.
    pub fn apply(&mut self, evt: &pb::JobEvent)
        ensures
            final(self)@ == after_event(old(self)@, evt@),
    {
        if evt.seq > self.last_seq {
            self.last_seq = evt.seq;
        }
        self.last_status = match JobStatus::from_i32(evt.status) {
            Some(s) => s,
            None => JobStatus::Unspecified,
        };
        self.dirs_scanned = evt.dirs_scanned;
        self.files_scanned = evt.files_scanned;
        self.scan_duration_ms = evt.scan_duration_ms;
        add_progress(&mut self.workers, &evt.worker_progress);
        if let Some(agg) = &evt.aggregated {
            self.final_workers = results_by_worker(&agg.per_worker);
            self.final_per_op = copy_map(&agg.total_per_op);
        }
        assert(self@ =~= after_event(old(self)@, evt@));
    }

    /// Whether it is time for a sample.
    pub fn should_render(&self, at: &Clock) -> (r: bool)
        ensures
            r == (match self@.last_render {
                None => true,
                Some(t) => at.mono_ns - t >= REFRESH_INTERVAL_NS,
            }),
    {
        match self.last_render {
            None => true,
            Some(t) => at.mono_ns >= t && at.mono_ns - t >= REFRESH_INTERVAL_NS,
        }
    }

    fn display_elapsed_ms(&self, at: &Clock) -> (r: i64)
        ensures
            r == elapsed_ms(self@, *at),
    {
        let n: usize = self.final_workers.len();
        let ghost f = self@.final_workers;
        let mut found: Option<i64> = None;
        let mut i: usize = 0;
        assert(f.take(0) =~= Seq::<(Seq<char>, WorkerResultView)>::empty());
        while i < n
            invariant
                i <= n,
                n == self.final_workers.seq().len(),
                f == entry_views(self.final_workers.seq()),
                found == longest_result(f.take(i as int)),
            decreases n - i,
        {
            proof {
                assert(f.take(i as int + 1).drop_last() =~= f.take(i as int));
                assert(f.take(i as int + 1).last() == f[i as int]);
            }
            let ms: i64 = self.final_workers.value_at(i).effective_duration_ms;
            found = match found {
                Some(most) => Some(
                    if ms > most {
                        ms
                    } else {
                        most
                    },
                ),
                None => Some(ms),
            };
            i += 1;
        }
        assert(f.take(i as int) =~= f);
        if let Some(ms) = found {
            return ms;
        }
        let n: usize = self.workers.len();
        let ghost w = self@.workers;
        let mut found: Option<i64> = None;
        let mut i: usize = 0;
        assert(w.take(0) =~= Seq::<(Seq<char>, WorkerProgressView)>::empty());
        while i < n
            invariant
                i <= n,
                n == self.workers.seq().len(),
                w == entry_views(self.workers.seq()),
                found == longest_run(w.take(i as int)),
            decreases n - i,
        {
            proof {
                assert(w.take(i as int + 1).drop_last() =~= w.take(i as int));
                assert(w.take(i as int + 1).last() == w[i as int]);
            }
            let ms: i64 = self.workers.value_at(i).elapsed_ms;
            found = match found {
                Some(most) => Some(
                    if ms > most {
                        ms
                    } else {
                        most
                    },
                ),
                None => Some(ms),
            };
            i += 1;
        }
        assert(w.take(i as int) =~= w);
        match found {
            Some(ms) => ms,
            None => {
                let nanos: u128 = if at.mono_ns > self.started_ns {
                    at.mono_ns - self.started_ns
                } else {
                    0
                };
                let secs: u128 = nanos / 1_000_000_000;
                to_nearest(secs as i128 * 1000)
            },
        }
    }

    fn worker_rows(&self) -> (r: Vec<DisplayRow>)
        ensures
            seq_views(r@) == worker_rows(self@),
    {
        let mut rows: Vec<DisplayRow> = Vec::new();
        assert(seq_views(rows@) =~= Seq::<DisplayRowView>::empty());
        let mut i: usize = 0;
        if self.final_workers.is_empty() {
            let order = order_of(&self.workers);
            let ghost s = in_order(self.workers.seq());
            let ghost v = in_order(self@.workers);
            proof {
                lemma_viewed_order(self.workers.seq());
                assert(v.take(0) =~= Seq::<(Seq<char>, WorkerProgressView)>::empty());
            }
            while i < order.len()
                invariant
                    i <= order@.len(),
                    order@.len() == self.workers.seq().len(),
                    s == in_order(self.workers.seq()),
                    v == entry_views(s),
                    v.len() == order@.len(),
                    forall|j: int|
                        0 <= j < order@.len() ==> (#[trigger] order@[j]) < self.workers.seq().len(),
                    forall|j: int|
                        0 <= j < order@.len() ==> self.workers.seq()[#[trigger] order@[j] as int]
                            == s[j],
                    seq_views(rows@) == running_rows(v.take(i as int)),
                decreases order@.len() - i,
            {
                let at: usize = order[i];
                let w = self.workers.value_at(at);
                proof {
                    assert(v.take(i as int + 1).drop_last() =~= v.take(i as int));
                    assert(v.take(i as int + 1).last() == v[i as int]);
                }
                push_op_rows(
                    &mut rows,
                    self.workers.key_at(at).as_str(),
                    &w.per_op,
                    w.elapsed_ms,
                );
                i += 1;
            }
            assert(v.take(i as int) =~= v);
        } else {
            let order = order_of(&self.final_workers);
            let ghost s = in_order(self.final_workers.seq());
            let ghost v = in_order(self@.final_workers);
            proof {
                lemma_viewed_order(self.final_workers.seq());
                assert(v.take(0) =~= Seq::<(Seq<char>, WorkerResultView)>::empty());
            }
            while i < order.len()
                invariant
                    i <= order@.len(),
                    order@.len() == self.final_workers.seq().len(),
                    s == in_order(self.final_workers.seq()),
                    v == entry_views(s),
                    v.len() == order@.len(),
                    forall|j: int|
                        0 <= j < order@.len() ==> (#[trigger] order@[j])
                            < self.final_workers.seq().len(),
                    forall|j: int|
                        0 <= j < order@.len()
                            ==> self.final_workers.seq()[#[trigger] order@[j] as int] == s[j],
                    seq_views(rows@) == ended_rows(v.take(i as int)),
                decreases order@.len() - i,
            {
                let at: usize = order[i];
                let w = self.final_workers.value_at(at);
                proof {
                    assert(v.take(i as int + 1).drop_last() =~= v.take(i as int));
                    assert(v.take(i as int + 1).last() == v[i as int]);
                }
                push_op_rows(
                    &mut rows,
                    self.final_workers.key_at(at).as_str(),
                    &w.per_op,
                    w.effective_duration_ms,
                );
                i += 1;
            }
            assert(v.take(i as int) =~= v);
        }
        rows
    }

    fn aggregate_rows(&self, at: &Clock) -> (r: Vec<DisplayRow>)
        ensures
            seq_views(r@) == aggregate_rows(self@, *at),
    {
        let ms: i64 = self.display_elapsed_ms(at);
        let mut rows: Vec<DisplayRow> = Vec::new();
        assert(seq_views(rows@) =~= Seq::<DisplayRowView>::empty());
        if !self.final_per_op.is_empty() {
            push_op_rows(&mut rows, "Aggregate", &self.final_per_op, ms);
            assert(seq_views(rows@) =~= aggregate_rows(self@, *at));
            return rows;
        }
        let per_op = aggregate_per_op(&self.workers);
        let order = order_of(&per_op);
        let ghost s = in_order(per_op.seq());
        let ghost all = aggregate_rows(self@, *at);
        let mut i: usize = 0;
        proof {
            lemma_viewed_order(per_op.seq());
            assert(all.take(0) =~= Seq::<DisplayRowView>::empty());
        }
        while i < order.len()
            invariant
                i <= order@.len(),
                order@.len() == per_op.seq().len(),
                s == in_order(per_op.seq()),
                s.len() == order@.len(),
                self@.final_per_op.len() == 0,
                ms == elapsed_ms(self@, *at),
                entry_views(per_op.seq()) == totals(self@.workers),
                in_order(entry_views(per_op.seq())) == entry_views(s),
                all == aggregate_rows(self@, *at),
                forall|j: int| 0 <= j < order@.len() ==> (#[trigger] order@[j]) < per_op.seq().len(),
                forall|j: int|
                    0 <= j < order@.len() ==> per_op.seq()[#[trigger] order@[j] as int] == s[j],
                seq_views(rows@) == all.take(i as int),
            decreases order@.len() - i,
        {
            let k: usize = order[i];
            let row = DisplayRow {
                worker: "Aggregate".to_owned(),
                op: per_op.key_at(k).clone(),
                elapsed_ms: ms,
                metrics: per_op.value_at(k).copy(),
            };
            let ghost v = row@;
            let ghost held = rows@;
            rows.push(row);
            proof {
                assert(entry_views(s)[i as int] == (s[i as int].0, s[i as int].1@));
                assert(v == all[i as int]);
                assert(seq_views(rows@) =~= seq_views(held).push(v));
                assert(seq_views(rows@) =~= all.take(i as int + 1));
            }
            i += 1;
        }
        assert(all.take(i as int) =~= all);
        rows
    }

    fn header_block(&self, at: &Clock) -> (r: Vec<Piece>)
        ensures
            seq_views(r@) == head_pieces(self@, *at),
    {
        let mut s = "Job ID: ".to_owned();
        s.push_str(self.job_id.as_str());
        s.push_str(" | Elapsed: ");
        let ghost start = s@;
        s.push_str(format_duration(self.display_elapsed_ms(at)).as_str());
        let ghost ms = elapsed_ms(self@, *at) as int;
        if self.total_duration_ms > 0 {
            s.push_str(" / ");
            s.push_str(format_duration(self.total_duration_ms).as_str());
            assert(s@ =~= start + (clock_text(ms) + " / "@ + clock_text(
                self.total_duration_ms as int,
            )));
        }
        s.push_str(" | Status: ");
        s.push_str(status_short(self.last_status));
        s.push_str("\n");
        let mut out: Vec<Piece> = Vec::new();
        out.push(Piece::Text(s));
        if self.verbose && (self.dirs_scanned > 0 || self.files_scanned > 0 || self.scan_duration_ms
            > 0) {
            let mut t = " duration=".to_owned();
            t.push_str(format_duration(self.scan_duration_ms).as_str());
            t.push_str("\n");
            out.push(Piece::Text("Scan: dirs=".to_owned()));
            out.push(Piece::Count(self.dirs_scanned));
            out.push(Piece::Text(" files=".to_owned()));
            out.push(Piece::Count(self.files_scanned));
            out.push(Piece::Text(t));
        }
        let over = match self.last_status {
            JobStatus::Completed | JobStatus::Failed | JobStatus::Cancelled => true,
            _ => false,
        };
        if !over {
            out.push(Piece::Text("Tip: Press Ctrl+C to detach or cancel job\n".to_owned()));
        }
        assert(seq_views(out@) =~= head_pieces(self@, *at));
        out
    }

    /// Takes a sample of what has been told.
    pub fn render(&mut self, at: &Clock) -> (r: Sample)
        ensures
            match r.head {
                Some(h) => !old(self)@.rendered_once && seq_views(h@) == head_pieces(
                    old(self)@,
                    *at,
                ),
                None => old(self)@.rendered_once,
            },
            seq_views(r.worker_rows@) == worker_rows(old(self)@),
            seq_views(r.aggregate_rows@) == aggregate_rows(old(self)@, *at),
            final(self)@ == (LiveView {
                last_render: Some(at.mono_ns),
                rendered_once: true,
                ..old(self)@
            }),
    {
        let head = if self.rendered_once {
            None
        } else {
            Some(self.header_block(at))
        };
        let worker_rows = self.worker_rows();
        let aggregate_rows = self.aggregate_rows(at);
        self.last_render = Some(at.mono_ns);
        self.rendered_once = true;
        Sample { head, worker_rows, aggregate_rows }
    }
}

/// The name of the kind of event that a number in a message stands for.
pub open spec fn kind_text(kind: i32) -> Seq<char> {
    match EventKind::decoded(kind) {
        Some(EventKind::StatusChange) => "STATUS"@,
        Some(EventKind::Progress) => "PROGRESS"@,
        Some(EventKind::Result) => "RESULT"@,
        Some(EventKind::Error) => "ERROR"@,
        Some(EventKind::Unspecified) | None => "?"@,
    }
}

fn kind_name(kind: i32) -> (r: &'static str)
    ensures
        r@ == kind_text(kind),
{
    match EventKind::from_i32(kind) {
        Some(EventKind::StatusChange) => "STATUS",
        Some(EventKind::Progress) => "PROGRESS",
        Some(EventKind::Result) => "RESULT",
        Some(EventKind::Error) => "ERROR",
        Some(EventKind::Unspecified) | None => "?",
    }
}

/// The line that shows an event.
pub open spec fn event_text(e: pb::JobEventView) -> Seq<char> {
    "[seq="@ + pad_left(text::signed_decimal(e.seq as int), 4) + "] "@ + pad_right(
        kind_text(e.kind),
        8,
    ) + " status="@ + pad_right(
        capitals(
            match JobStatus::decoded(e.status) {
                Some(s) => s,
                None => JobStatus::Unspecified,
            },
        ),
        10,
    ) + " workers="@ + decimal(e.worker_progress.len()) + (match e.error {
        Some(m) => " error="@ + text::quoted_text(m),
        None => Seq::empty(),
    })
}

/// What is printed of an event: a line.
pub fn print_event(evt: &pb::JobEvent) -> (r: String)
    ensures
        r@ == event_text(evt@),
{
    let status: JobStatus = match JobStatus::from_i32(evt.status) {
        Some(s) => s,
        None => JobStatus::Unspecified,
    };
    let mut s = "[seq=".to_owned();
    push_aligned(&mut s, text::signed_decimal_of(evt.seq).as_str(), 4);
    s.push_str("] ");
    push_padded(&mut s, kind_name(evt.kind), 8);
    s.push_str(" status=");
    push_padded(&mut s, status_short(status), 10);
    s.push_str(" workers=");
    s.push_str(text::decimal_of(evt.worker_progress.len() as u128).as_str());
    let ghost head = s@;
    match &evt.error {
        Some(m) => {
            s.push_str(" error=");
            s.push_str(text::quoted(m.as_str()).as_str());
            assert(s@ =~= head + (" error="@ + text::quoted_text(m@)));
        },
        None => {
            assert(s@ =~= head + Seq::<char>::empty());
        },
    }
    s
}

/// The label of an operation: operations on metadata without their prefix.
pub open spec fn op_text(op: Seq<char>) -> Seq<char> {
    if starts_with(op, "metadata."@) {
        op.skip("metadata."@.len() as int)
    } else {
        op
    }
}

/// The label of an operation.
pub fn op_label(op: &str) -> (r: String)
    ensures
        r@ == op_text(op@),
{
    let cs = chars_of(op);
    if text::has_prefix(&cs, "metadata.") {
        let n: usize = chars_of("metadata.").len();
        let rest = sub_chars(&cs, n, cs.len());
        assert(rest@ =~= op@.skip(n as int));
        string_of(&rest)
    } else {
        op.to_owned()
    }
}

/// Whether an operation moves no data, so that no throughput is shown for it.
pub fn moves_no_data(op: &str) -> (r: bool)
    ensures
        r == starts_with(op@, "metadata."@),
{
    let cs = chars_of(op);
    text::has_prefix(&cs, "metadata.")
}

/// The last `width` characters.
pub open spec fn suffix(s: Seq<char>, width: int) -> Seq<char> {
    if s.len() <= width {
        s
    } else {
        s.skip(s.len() - width)
    }
}

/// The first `width` characters.
pub open spec fn prefix(s: Seq<char>, width: int) -> Seq<char> {
    if s.len() <= width {
        s
    } else {
        s.take(width)
    }
}

/// The label of a worker: of its id, whose last parts are a process id and a
/// random part, the process id and the start of the random part; of an id
/// without such parts its end.
pub open spec fn worker_text(worker: Seq<char>) -> Seq<char> {
    let parts = text::split(worker, '-');
    let n = parts.len();
    if worker == "Aggregate"@ {
        worker
    } else if n < 2 {
        suffix(worker, 11)
    } else {
        parts[n - 2] + "-"@ + prefix(parts[n - 1], 5)
    }
}

fn first_chars(value: &str, width: usize) -> (r: String)
    ensures
        r@ == prefix(value@, width as int),
{
    let cs = chars_of(value);
    if cs.len() <= width {
        value.to_owned()
    } else {
        let head = sub_chars(&cs, 0, width);
        assert(head@ =~= cs@.take(width as int));
        string_of(&head)
    }
}

fn suffix_chars(value: &str, width: usize) -> (r: String)
    ensures
        r@ == suffix(value@, width as int),
{
    let cs = chars_of(value);
    if cs.len() <= width {
        value.to_owned()
    } else {
        let tail = sub_chars(&cs, cs.len() - width, cs.len());
        assert(tail@ =~= cs@.skip(cs@.len() - width));
        string_of(&tail)
    }
}

/// The label of a worker.
pub fn worker_label(worker_id: &str) -> (r: String)
    ensures
        r@ == worker_text(worker_id@),
{
    if text::str_eq(worker_id, "Aggregate") {
        return worker_id.to_owned();
    }
    let parts = text::split_at_char(worker_id, '-');
    let n: usize = parts.len();
    let ghost v = text::views(parts@);
    assert(v.len() == n);
    if n < 2 {
        return suffix_chars(worker_id, 11);
    }
    proof {
        assert(v[n - 2] == parts@[n - 2]@);
        assert(v[n - 1] == parts@[n - 1]@);
    }
    let mut s = parts[n - 2].clone();
    s.push_str("-");
    s.push_str(first_chars(parts[n - 1].as_str(), 5).as_str());
    s
}

/// A text in the middle of `width` characters, cut where it is longer.
pub open spec fn centered(s: Seq<char>, width: int) -> Seq<char> {
    let cut = prefix(s, width);
    let left = (width - cut.len()) / 2;
    repeated(' ', left) + cut + repeated(' ', width - cut.len() - left)
}

/// Puts a text in the middle of `width` characters, cut where it is longer.
pub fn fit_center(value: &str, width: usize) -> (r: String)
    ensures
        r@ == centered(value@, width as int),
{
    let cut = first_chars(value, width);
    let n: usize = chars_of(cut.as_str()).len();
    let left: usize = (width - n) / 2;
    let right: usize = width - n - left;
    let mut s = String::new();
    assert(s@ =~= Seq::<char>::empty());
    push_repeated(&mut s, ' ', left);
    s.push_str(cut.as_str());
    push_repeated(&mut s, ' ', right);
    assert(s@ =~= centered(value@, width as int));
    s
}

/// The widths of the columns of a sample.
pub open spec fn columns() -> Seq<int> {
    seq![11int, 13, 9, 10, 7, 8, 6, 6, 6, 6, 6, 6, 6]
}

/// The first `n` texts, each in its column.
pub open spec fn placed(cells: Seq<Seq<char>>, n: int) -> Seq<char>
    decreases n,
{
    if n <= 0 {
        Seq::empty()
    } else if n == 1 {
        centered(cells[0], columns()[0])
    } else {
        placed(cells, n - 1) + " │ "@ + centered(cells[n - 1], columns()[n - 1])
    }
}

/// A line of a sample; texts without a column are left out.
pub open spec fn sample_line(cells: Seq<Seq<char>>) -> Seq<char> {
    " "@ + placed(
        cells,
        if cells.len() < columns().len() {
            cells.len() as int
        } else {
            columns().len() as int
        },
    ) + "\n"@
}

fn column(i: usize) -> (w: usize)
    requires
        i < 13,
    ensures
        w == columns()[i as int],
{
    match i {
        0 => 11,
        1 => 13,
        2 => 9,
        3 => 10,
        4 => 7,
        5 => 8,
        _ => 6,
    }
}

/// Lays out the texts of a row in the columns of a sample.
pub fn format_metric_row(cells: &Vec<String>) -> (r: String)
    ensures
        r@ == sample_line(text::views(cells@)),
{
    let ghost v = text::views(cells@);
    let mut s = " ".to_owned();
    let ghost start = s@;
    let mut i: usize = 0;
    assert(start =~= start + placed(v, 0));
    while i < cells.len() && i < 13
        invariant
            i <= cells@.len(),
            i <= 13,
            v == text::views(cells@),
            s@ == start + placed(v, i as int),
        decreases cells@.len() - i,
    {
        assert(v[i as int] == cells@[i as int]@);
        if i > 0 {
            s.push_str(" │ ");
        }
        let cell = fit_center(cells[i].as_str(), column(i));
        s.push_str(cell.as_str());
        assert(s@ =~= start + placed(v, i as int + 1));
        i += 1;
    }
    s.push_str("\n");
    s
}

/// The headers of the columns of a sample.
pub open spec fn column_names() -> Seq<Seq<char>> {
    seq![
        "Worker"@,
        "Op"@,
        "Elapsed"@,
        "Throughput"@,
        "Ops/s"@,
        "Ops"@,
        "Errors"@,
        "p50"@,
        "p95"@,
        "p99"@,
        "p999"@,
        "max"@,
        "avg"@,
    ]
}

/// The line over the rows of a sample.
pub fn format_table_header() -> (r: String)
    ensures
        r@ == sample_line(column_names()),
{
    let mut cells: Vec<String> = Vec::new();
    cells.push("Worker".to_owned());
    cells.push("Op".to_owned());
    cells.push("Elapsed".to_owned());
    cells.push("Throughput".to_owned());
    cells.push("Ops/s".to_owned());
    cells.push("Ops".to_owned());
    cells.push("Errors".to_owned());
    cells.push("p50".to_owned());
    cells.push("p95".to_owned());
    cells.push("p99".to_owned());
    cells.push("p999".to_owned());
    cells.push("max".to_owned());
    cells.push("avg".to_owned());
    assert(text::views(cells@) =~= column_names());
    format_metric_row(&cells)
}

/// The number of the last event never falls, and is at least that of each event
/// taken in.
pub proof fn law_last_number_never_falls(d: LiveView, e: pb::JobEventView)
    ensures
        after_event(d, e).last_seq >= d.last_seq,
        after_event(d, e).last_seq >= e.seq,
{
}

} // verus!
