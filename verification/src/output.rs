//! The report on a job: what is written to a file when it has ended, as one
//! structure or as rows of a table.
//!
//! A row stands for a worker and an operation; the worker `*` stands for all of
//! them together, the operation `*` for all operations.

use vstd::prelude::*;

use crate::metrics::aggregate::{earliest_end, latest_start, nearest, shortest, to_nearest};
use crate::order::{
    in_order, law_in_order_is_sorted, lemma_sorted_order, lemma_viewed_order, order_of, sorted_order,
    text_le,
};
use crate::parse::duration::{duration_ms, parse_duration};
use crate::pb;
use crate::pb::{
    AggregatedMetricsView, ConsistencyErrorView, JobStatus, LatencyStats, Number,
    PerformanceMetricsView, QueryJobResponseView, WorkerResultView,
};
use crate::prometheus::{status_label, status_text};
use crate::reporting::{law_rows_tell_the_response, rows_tell};
use crate::spec::redact::{redact_in_place, redacted_view};
use crate::strmap::{has_key, keys_of, StrMap};
use crate::text;
use crate::time::Duration;
use crate::views::{copy_opt_text, copy_vec, entry_views, opt_text, opt_view, seq_views, Duplicate};

verus! {

/// Percentiles of a latency, its maximum and its mean, in microseconds.
pub type LatencyReport = LatencyStats;

/// What is reported of an operation. The numbers are those of the response.
#[derive(Debug, Clone, Copy, PartialEq, Eq, Structural)]
pub struct OpReport {
    pub throughput_mbps: Number,
    pub iops: Number,
    pub total_ops: i64,
    pub total_bytes: i64,
    pub errors: i64,
    pub error_rate: Number,
    pub latency_us: LatencyReport,
}

/// What is reported of all workers together.
#[derive(Debug, PartialEq, Eq)]
pub struct AggregatedReport {
    pub throughput_mbps: Number,
    pub iops: Number,
    pub total_ops: i64,
    pub total_bytes: i64,
    pub errors: i64,
    pub error_rate: Number,
    pub latency_us: LatencyReport,
    /// The operations by name.
    pub per_op: StrMap<OpReport>,
}

/// What an [`AggregatedReport`] holds.
#[verifier::ext_equal]
pub struct AggregatedReportView {
    pub total: OpReport,
    pub per_op: Seq<(Seq<char>, OpReport)>,
}

impl View for AggregatedReport {
    type V = AggregatedReportView;

    open spec fn view(&self) -> AggregatedReportView {
        AggregatedReportView {
            total: OpReport {
                throughput_mbps: self.throughput_mbps,
                iops: self.iops,
                total_ops: self.total_ops,
                total_bytes: self.total_bytes,
                errors: self.errors,
                error_rate: self.error_rate,
                latency_us: self.latency_us,
            },
            per_op: self.per_op.seq(),
        }
    }
}

/// What is reported of a worker.
#[derive(Debug, PartialEq, Eq)]
pub struct WorkerReport {
    pub worker_id: String,
    pub success: bool,
    pub error: Option<String>,
    pub effective_duration_ms: i64,
    pub measure_start_ms: i64,
    pub measure_end_ms: i64,
    pub consistency_errors: Vec<pb::ConsistencyError>,
    /// The operations by name.
    pub per_op: StrMap<OpReport>,
}

/// What a [`WorkerReport`] holds.
#[verifier::ext_equal]
pub struct WorkerReportView {
    pub worker_id: Seq<char>,
    pub success: bool,
    pub error: Option<Seq<char>>,
    pub effective_duration_ms: i64,
    pub measure_start_ms: i64,
    pub measure_end_ms: i64,
    pub consistency_errors: Seq<ConsistencyErrorView>,
    pub per_op: Seq<(Seq<char>, OpReport)>,
}

impl View for WorkerReport {
    type V = WorkerReportView;

    open spec fn view(&self) -> WorkerReportView {
        WorkerReportView {
            worker_id: self.worker_id@,
            success: self.success,
            error: opt_text(self.error),
            effective_duration_ms: self.effective_duration_ms,
            measure_start_ms: self.measure_start_ms,
            measure_end_ms: self.measure_end_ms,
            consistency_errors: seq_views(self.consistency_errors@),
            per_op: self.per_op.seq(),
        }
    }
}

/// The report on a job. Spans of time are shown in seconds.
#[derive(Debug, PartialEq, Eq)]
pub struct JobReport {
    pub job_id: String,
    pub status: String,
    pub created_at_ms: i64,
    pub error: Option<String>,
    /// How long the job was to run.
    pub duration_secs: Duration,
    /// How long all successful workers were measuring, in milliseconds.
    pub effective_duration_ms: i128,
    pub target_workers: i32,
    pub run_workers: usize,
    pub dirs_scanned: i64,
    pub files_scanned: i64,
    pub scan_duration_ms: i64,
    pub window_misaligned: bool,
    pub spec: pb::BenchSpec,
    pub aggregated: Option<AggregatedReport>,
    pub workers: Vec<WorkerReport>,
}

/// What a [`JobReport`] holds.
#[verifier::ext_equal]
pub struct JobReportView {
    pub job_id: Seq<char>,
    pub status: Seq<char>,
    pub created_at_ms: i64,
    pub error: Option<Seq<char>>,
    pub duration_nanos: int,
    pub effective_duration_ms: int,
    pub target_workers: i32,
    pub run_workers: int,
    pub dirs_scanned: i64,
    pub files_scanned: i64,
    pub scan_duration_ms: i64,
    pub window_misaligned: bool,
    pub spec: pb::BenchSpecView,
    pub aggregated: Option<AggregatedReportView>,
    pub workers: Seq<WorkerReportView>,
}

impl View for JobReport {
    type V = JobReportView;

    open spec fn view(&self) -> JobReportView {
        JobReportView {
            job_id: self.job_id@,
            status: self.status@,
            created_at_ms: self.created_at_ms,
            error: opt_text(self.error),
            duration_nanos: self.duration_secs.nanos as int,
            effective_duration_ms: self.effective_duration_ms as int,
            target_workers: self.target_workers,
            run_workers: self.run_workers as int,
            dirs_scanned: self.dirs_scanned,
            files_scanned: self.files_scanned,
            scan_duration_ms: self.scan_duration_ms,
            window_misaligned: self.window_misaligned,
            spec: self.spec@,
            aggregated: opt_view(self.aggregated),
            workers: seq_views(self.workers@),
        }
    }
}

/// What is reported of an operation.
pub open spec fn op_report(m: PerformanceMetricsView) -> OpReport {
    OpReport {
        throughput_mbps: m.throughput_mbps,
        iops: m.iops,
        total_ops: m.total_ops,
        total_bytes: m.total_bytes,
        errors: m.error_count,
        error_rate: m.error_rate,
        latency_us: match m.latency_us {
            Some(l) => l,
            None => LatencyStats::spec_none(),
        },
    }
}

/// What is reported of nothing.
pub open spec fn no_op() -> OpReport {
    OpReport {
        throughput_mbps: Number::spec_zero(),
        iops: Number::spec_zero(),
        total_ops: 0,
        total_bytes: 0,
        errors: 0,
        error_rate: Number::spec_zero(),
        latency_us: LatencyStats::spec_none(),
    }
}

fn perf_to_op_report(m: &pb::PerformanceMetrics) -> (r: OpReport)
    ensures
        r == op_report(m@),
{
    OpReport {
        throughput_mbps: m.throughput_mbps,
        iops: m.iops,
        total_ops: m.total_ops,
        total_bytes: m.total_bytes,
        errors: m.error_count,
        error_rate: m.error_rate,
        latency_us: match m.latency_us {
            Some(l) => l,
            None => LatencyStats::none(),
        },
    }
}

/// What is reported of operations, in the order of their names.
pub open spec fn op_reports(ops: Seq<(Seq<char>, PerformanceMetricsView)>) -> Seq<
    (Seq<char>, OpReport),
> {
    in_order(ops).map_values(|e: (Seq<char>, PerformanceMetricsView)| (e.0, op_report(e.1)))
}

fn op_reports_of(ops: &StrMap<pb::PerformanceMetrics>) -> (r: StrMap<OpReport>)
    ensures
        r.seq() == op_reports(entry_views(ops.seq())),
{
    let order = order_of(ops);
    let n: usize = ops.len();
    let ghost s = ops.seq();
    let ghost all = op_reports(entry_views(s));
    let mut r: StrMap<OpReport> = StrMap::new();
    let mut i: usize = 0;
    proof {
        lemma_viewed_order(s);
        lemma_sorted_order(keys_of(s));
        assert(all.take(0) =~= r.seq());
    }
    while i < order.len()
        invariant
            i <= order@.len(),
            s == ops.seq(),
            order@.len() == s.len(),
            all.len() == s.len(),
            all == op_reports(entry_views(s)),
            in_order(entry_views(s)) == entry_views(in_order(s)),
            crate::order::ints(order@) == sorted_order(keys_of(s)),
            sorted_order(keys_of(s)).no_duplicates(),
            forall|j: int| 0 <= j < order@.len() ==> (#[trigger] order@[j]) < s.len(),
            forall|j: int|
                0 <= j < order@.len() ==> s[#[trigger] order@[j] as int] == in_order(s)[j],
            crate::strmap::keys_distinct(s),
            r.seq() == all.take(i as int),
        decreases order@.len() - i,
    {
        let at: usize = order[i];
        let key = ops.key_at(at).clone();
        let m = perf_to_op_report(ops.value_at(at));
        proof {
            let before = all.take(i as int);
            assert(all[i as int] == (key@, m));
            if has_key(before, key@) {
                let j = choose|j: int| 0 <= j < before.len() && (#[trigger] before[j]).0 == key@;
                assert(before[j].0 == in_order(s)[j].0);
                assert(s[order@[j] as int].0 == key@);
                assert(crate::order::ints(order@)[j] == order@[j]);
                assert(crate::order::ints(order@)[i as int] == order@[i as int]);
                assert(false);
            }
            assert(all.take(i as int + 1) =~= before.push(all[i as int]));
        }
        r.insert(key, m);
        i += 1;
    }
    assert(all.take(i as int) =~= all);
    r
}

/// What is reported of all workers together.
pub open spec fn aggregated_report(a: AggregatedMetricsView) -> AggregatedReportView {
    AggregatedReportView {
        total: match a.total {
            Some(m) => op_report(m),
            None => no_op(),
        },
        per_op: op_reports(a.total_per_op),
    }
}

fn build_aggregated_report(agg: &pb::AggregatedMetrics) -> (r: AggregatedReport)
    ensures
        r@ == aggregated_report(agg@),
{
    let total: OpReport = match &agg.total {
        Some(m) => perf_to_op_report(m),
        None => OpReport {
            throughput_mbps: Number::zero(),
            iops: Number::zero(),
            total_ops: 0,
            total_bytes: 0,
            errors: 0,
            error_rate: Number::zero(),
            latency_us: LatencyStats::none(),
        },
    };
    AggregatedReport {
        throughput_mbps: total.throughput_mbps,
        iops: total.iops,
        total_ops: total.total_ops,
        total_bytes: total.total_bytes,
        errors: total.errors,
        error_rate: total.error_rate,
        latency_us: total.latency_us,
        per_op: op_reports_of(&agg.total_per_op),
    }
}

/// What is reported of a worker.
pub open spec fn worker_report(w: WorkerResultView) -> WorkerReportView {
    WorkerReportView {
        worker_id: w.worker_id,
        success: w.success,
        error: w.error,
        effective_duration_ms: w.effective_duration_ms,
        measure_start_ms: w.measure_start_ms,
        measure_end_ms: w.measure_end_ms,
        consistency_errors: w.consistency_errors,
        per_op: op_reports(w.per_op),
    }
}

fn build_worker_report(w: &pb::WorkerResult) -> (r: WorkerReport)
    ensures
        r@ == worker_report(w@),
{
    WorkerReport {
        worker_id: w.worker_id.clone(),
        success: w.success,
        error: copy_opt_text(&w.error),
        effective_duration_ms: w.effective_duration_ms,
        measure_start_ms: w.measure_start_ms,
        measure_end_ms: w.measure_end_ms,
        consistency_errors: copy_vec(&w.consistency_errors),
        per_op: op_reports_of(&w.per_op),
    }
}

/// The workers that succeeded.
pub open spec fn succeeded(workers: Seq<WorkerResultView>) -> Seq<WorkerResultView>
    decreases workers.len(),
{
    if workers.len() == 0 {
        Seq::empty()
    } else if workers.last().success {
        succeeded(workers.drop_last()).push(workers.last())
    } else {
        succeeded(workers.drop_last())
    }
}

/// The time in which all workers that succeeded were measuring, in
/// milliseconds, and whether there was none; then the shortest duration stands
/// in.
pub open spec fn effective_window(workers: Seq<WorkerResultView>) -> (int, bool) {
    let done = succeeded(workers);
    if done.len() == 0 {
        (0, false)
    } else if earliest_end(done) > latest_start(done) {
        (earliest_end(done) - latest_start(done), false)
    } else {
        (shortest(done) as int, true)
    }
}

fn compute_effective_window(workers: &Vec<pb::WorkerResult>) -> (r: (i128, bool))
    ensures
        (r.0 as int, r.1) == effective_window(seq_views(workers@)),
{
    let mut n: usize = 0;
    let mut start: i64 = 0;
    let mut end: i64 = 0;
    let mut least: i64 = 0;
    let mut i: usize = 0;
    let ghost v = seq_views(workers@);
    while i < workers.len()
        invariant
            i <= workers@.len(),
            v == seq_views(workers@),
            n == succeeded(v.take(i as int)).len(),
            n <= i,
            n > 0 ==> start == latest_start(succeeded(v.take(i as int))) && end == earliest_end(
                succeeded(v.take(i as int)),
            ) && least == shortest(succeeded(v.take(i as int))),
        decreases workers@.len() - i,
    {
        let w = &workers[i];
        let ghost c = succeeded(v.take(i as int));
        proof {
            assert(v.take(i as int + 1).drop_last() =~= v.take(i as int));
            assert(v.take(i as int + 1).last() == w@);
        }
        if w.success {
            proof {
                assert(c.push(w@).drop_last() =~= c);
                assert(c.push(w@).last() == w@);
            }
            if n == 0 || w.measure_start_ms > start {
                start = w.measure_start_ms;
            }
            if n == 0 || w.measure_end_ms < end {
                end = w.measure_end_ms;
            }
            if n == 0 || w.effective_duration_ms < least {
                least = w.effective_duration_ms;
            }
            n += 1;
        }
        i += 1;
    }
    assert(v.take(i as int) =~= v);
    if n == 0 {
        (0, false)
    } else if end > start {
        (end as i128 - start as i128, false)
    } else {
        (least as i128, true)
    }
}

/// The error of the first worker that failed.
pub open spec fn first_failure(workers: Seq<WorkerResultView>) -> Option<Seq<char>>
    decreases workers.len(),
{
    if workers.len() == 0 {
        None
    } else if !workers[0].success {
        workers[0].error
    } else {
        first_failure(workers.drop_first())
    }
}

/// The error of a job: its own, or else that of the first worker that failed.
pub open spec fn error_of(q: QueryJobResponseView) -> Option<Seq<char>> {
    match q.error {
        Some(e) => if e.len() > 0 {
            Some(e)
        } else {
            first_failure(q.worker_results)
        },
        None => first_failure(q.worker_results),
    }
}

fn extract_error(query: &pb::QueryJobResponse) -> (r: Option<String>)
    ensures
        opt_text(r) == error_of(query@),
{
    if let Some(e) = &query.error {
        if !e.as_str().is_empty() {
            return Some(e.clone());
        }
    }
    let workers = &query.worker_results;
    let ghost v = seq_views(workers@);
    let mut i: usize = 0;
    assert(v.skip(0) =~= v);
    while i < workers.len()
        invariant
            i <= workers@.len(),
            v == seq_views(workers@),
            error_of(query@) == first_failure(v),
            first_failure(v) == first_failure(v.skip(i as int)),
        decreases workers@.len() - i,
    {
        assert(v.skip(i as int)[0] == workers@[i as int]@);
        assert(v.skip(i as int).drop_first() =~= v.skip(i as int + 1));
        if !workers[i].success {
            return copy_opt_text(&workers[i].error);
        }
        i += 1;
    }
    None
}

/// The name of the status that a number stands for.
pub open spec fn status_name(code: i32) -> Seq<char> {
    match JobStatus::decoded(code) {
        Some(s) => status_text(s),
        None => status_text(JobStatus::Unspecified),
    }
}

fn status_to_str(code: i32) -> (r: &'static str)
    ensures
        r@ == status_name(code),
{
    match JobStatus::from_i32(code) {
        Some(s) => status_label(s),
        None => status_label(JobStatus::Unspecified),
    }
}

/// How long a specification asks a job to run, in nanoseconds; zero where it
/// does not say so.
pub open spec fn asked_nanos(duration: Seq<char>) -> int {
    match duration_ms(duration) {
        Ok(Some(ms)) => ms as int * 1_000_000,
        _ => 0,
    }
}

fn asked_duration(duration: &str) -> (r: Duration)
    ensures
        r.nanos == asked_nanos(duration@),
{
    match parse_duration(duration) {
        Ok(Some(d)) => d,
        _ => Duration { nanos: 0 },
    }
}

/// The specification of nothing.
pub open spec fn is_blank(p: pb::BenchSpecView) -> bool {
    p == (pb::BenchSpecView {
        fs_name: Seq::empty(),
        io_mode: Seq::empty(),
        io_aligned: false,
        direct_io: false,
        block_size: Seq::empty(),
        duration: Seq::empty(),
        warmup: Seq::empty(),
        target_workers: 0,
        read: None,
        write: None,
        metadata: None,
    })
}

/// A job without anything said of it.
pub open spec fn blank_job() -> pb::JobView {
    pb::JobView { job_id: Seq::empty(), spec: None, status: 0, created_at: 0 }
}

/// The specification without secrets that a report shows.
pub open spec fn shown_spec(spec: Option<pb::BenchSpecView>, shown: pb::BenchSpecView) -> bool {
    match spec {
        Some(p) => shown == redacted_view(p),
        None => is_blank(shown),
    }
}

/// Whether `r` is the report on the job that `q` tells of.
pub open spec fn reports(r: JobReportView, q: QueryJobResponseView) -> bool {
    let job = match q.job {
        Some(j) => j,
        None => blank_job(),
    };
    &&& shown_spec(job.spec, r.spec)
    &&& r == (JobReportView {
        job_id: job.job_id,
        status: status_name(job.status),
        created_at_ms: job.created_at,
        error: error_of(q),
        duration_nanos: asked_nanos(r.spec.duration),
        effective_duration_ms: effective_window(q.worker_results).0,
        target_workers: r.spec.target_workers,
        run_workers: if q.run_workers > 0 {
            q.run_workers as int
        } else {
            q.worker_results.len() as int
        },
        dirs_scanned: q.dirs_scanned,
        files_scanned: q.files_scanned,
        scan_duration_ms: q.scan_duration_ms,
        window_misaligned: effective_window(q.worker_results).1,
        spec: r.spec,
        aggregated: match q.aggregated {
            Some(a) => Some(aggregated_report(a)),
            None => None,
        },
        workers: q.worker_results.map_values(|w: WorkerResultView| worker_report(w)),
    })
}

fn blank_spec() -> (r: pb::BenchSpec)
    ensures
        is_blank(r@),
{
    let r = pb::BenchSpec {
        fs_name: String::new(),
        io_mode: String::new(),
        io_aligned: false,
        direct_io: false,
        block_size: String::new(),
        duration: String::new(),
        warmup: String::new(),
        target_workers: 0,
        read: None,
        write: None,
        metadata: None,
    };
    assert(r@.fs_name =~= Seq::<char>::empty());
    assert(r@.io_mode =~= Seq::<char>::empty());
    assert(r@.block_size =~= Seq::<char>::empty());
    assert(r@.duration =~= Seq::<char>::empty());
    assert(r@.warmup =~= Seq::<char>::empty());
    r
}

fn build_worker_reports(workers: &Vec<pb::WorkerResult>) -> (r: Vec<WorkerReport>)
    ensures
        seq_views(r@) == seq_views(workers@).map_values(|w: WorkerResultView| worker_report(w)),
{
    let mut out: Vec<WorkerReport> = Vec::new();
    let mut i: usize = 0;
    while i < workers.len()
        invariant
            i <= workers@.len(),
            out@.len() == i,
            forall|j: int|
                0 <= j < i ==> (#[trigger] out@[j])@ == worker_report(workers@[j]@),
        decreases workers@.len() - i,
    {
        out.push(build_worker_report(&workers[i]));
        i += 1;
    }
    assert(seq_views(out@) =~= seq_views(workers@).map_values(
        |w: WorkerResultView| worker_report(w),
    ));
    out
}

/// The report on the job that a response tells of.
pub fn build_report(query: &pb::QueryJobResponse) -> (r: JobReport)
    ensures
        reports(r@, query@),
{
    let mut job_id = String::new();
    let mut status: i32 = 0;
    let mut created_at_ms: i64 = 0;
    let mut spec = blank_spec();
    assert(job_id@ =~= Seq::<char>::empty());
    if let Some(job) = &query.job {
        job_id = job.job_id.clone();
        status = job.status;
        created_at_ms = job.created_at;
        if let Some(given) = &job.spec {
            spec = given.copy();
            redact_in_place(&mut spec);
        }
    }
    let run_workers: usize = if query.run_workers > 0 {
        query.run_workers as usize
    } else {
        query.worker_results.len()
    };
    let (effective_duration_ms, window_misaligned) = compute_effective_window(
        &query.worker_results,
    );
    let r = JobReport {
        job_id,
        status: status_to_str(status).to_owned(),
        created_at_ms,
        error: extract_error(query),
        duration_secs: asked_duration(spec.duration.as_str()),
        effective_duration_ms,
        target_workers: spec.target_workers,
        run_workers,
        dirs_scanned: query.dirs_scanned,
        files_scanned: query.files_scanned,
        scan_duration_ms: query.scan_duration_ms,
        window_misaligned,
        spec,
        aggregated: match &query.aggregated {
            Some(a) => Some(build_aggregated_report(a)),
            None => None,
        },
        workers: build_worker_reports(&query.worker_results),
    };
    r
}

/// A row of the table.
#[derive(Debug, PartialEq, Eq)]
pub struct CsvRow {
    pub worker_id: String,
    pub op: String,
    pub success: bool,
    pub total_ops: i64,
    pub total_bytes: i64,
    pub errors: i64,
    pub throughput_mbps: Number,
    pub iops: Number,
    pub p50_us: Number,
    pub p95_us: Number,
    pub p99_us: Number,
    pub p999_us: Number,
    pub max_us: Number,
    pub avg_us: Number,
    pub effective_duration_ms: i64,
}

/// What a [`CsvRow`] holds.
#[verifier::ext_equal]
pub struct CsvRowView {
    pub worker_id: Seq<char>,
    pub op: Seq<char>,
    pub success: bool,
    pub total_ops: i64,
    pub total_bytes: i64,
    pub errors: i64,
    pub throughput_mbps: Number,
    pub iops: Number,
    pub latency_us: LatencyStats,
    pub effective_duration_ms: i64,
}

impl View for CsvRow {
    type V = CsvRowView;

    open spec fn view(&self) -> CsvRowView {
        CsvRowView {
            worker_id: self.worker_id@,
            op: self.op@,
            success: self.success,
            total_ops: self.total_ops,
            total_bytes: self.total_bytes,
            errors: self.errors,
            throughput_mbps: self.throughput_mbps,
            iops: self.iops,
            latency_us: LatencyStats {
                p50: self.p50_us,
                p95: self.p95_us,
                p99: self.p99_us,
                p999: self.p999_us,
                max: self.max_us,
                avg: self.avg_us,
            },
            effective_duration_ms: self.effective_duration_ms,
        }
    }
}

/// The row for an operation of a worker.
pub open spec fn csv_row(
    worker: Seq<char>,
    op: Seq<char>,
    success: bool,
    m: OpReport,
    ms: i64,
) -> CsvRowView {
    CsvRowView {
        worker_id: worker,
        op,
        success,
        total_ops: m.total_ops,
        total_bytes: m.total_bytes,
        errors: m.errors,
        throughput_mbps: m.throughput_mbps,
        iops: m.iops,
        latency_us: m.latency_us,
        effective_duration_ms: ms,
    }
}

fn row_of(worker: &str, op: &str, success: bool, m: &OpReport, ms: i64) -> (r: CsvRow)
    ensures
        r@ == csv_row(worker@, op@, success, *m, ms),
{
    CsvRow {
        worker_id: worker.to_owned(),
        op: op.to_owned(),
        success,
        total_ops: m.total_ops,
        total_bytes: m.total_bytes,
        errors: m.errors,
        throughput_mbps: m.throughput_mbps,
        iops: m.iops,
        p50_us: m.latency_us.p50,
        p95_us: m.latency_us.p95,
        p99_us: m.latency_us.p99,
        p999_us: m.latency_us.p999,
        max_us: m.latency_us.max,
        avg_us: m.latency_us.avg,
        effective_duration_ms: ms,
    }
}

/// The rows for the operations of a worker.
pub open spec fn op_rows(
    worker: Seq<char>,
    success: bool,
    ops: Seq<(Seq<char>, OpReport)>,
    ms: i64,
) -> Seq<CsvRowView> {
    ops.map_values(|e: (Seq<char>, OpReport)| csv_row(worker, e.0, success, e.1, ms))
}

/// The rows for the operations of each worker.
pub open spec fn worker_rows(workers: Seq<WorkerReportView>) -> Seq<CsvRowView>
    decreases workers.len(),
{
    if workers.len() == 0 {
        Seq::empty()
    } else {
        let w = workers.last();
        worker_rows(workers.drop_last()) + op_rows(
            w.worker_id,
            w.success,
            in_order(w.per_op),
            w.effective_duration_ms,
        )
    }
}

/// The rows of a report: the total and each operation over all workers, and
/// then each worker with each of its operations. Operations come in the order
/// of their names. What is shown of all workers counts as a success where the
/// job completed without an error.
pub open spec fn rows_of(r: JobReportView) -> Seq<CsvRowView> {
    let success = r.status == "completed"@ && r.error is None;
    let ms = nearest(r.effective_duration_ms);
    (match r.aggregated {
        Some(a) => seq![csv_row("*"@, "*"@, success, a.total, ms)] + op_rows(
            "*"@,
            success,
            in_order(a.per_op),
            ms,
        ),
        None => Seq::empty(),
    }) + worker_rows(r.workers)
}

fn push_op_rows(
    rows: &mut Vec<CsvRow>,
    worker: &str,
    success: bool,
    ops: &StrMap<OpReport>,
    ms: i64,
)
    ensures
        seq_views(final(rows)@) == seq_views(old(rows)@) + op_rows(
            worker@,
            success,
            in_order(ops.seq()),
            ms,
        ),
{
    let order = order_of(ops);
    let ghost before = seq_views(rows@);
    let ghost sorted = in_order(ops.seq());
    let ghost all = op_rows(worker@, success, sorted, ms);
    let mut i: usize = 0;
    assert(before =~= before + all.take(0));
    while i < order.len()
        invariant
            i <= order@.len(),
            order@.len() == sorted.len(),
            all == op_rows(worker@, success, sorted, ms),
            forall|j: int| 0 <= j < order@.len() ==> (#[trigger] order@[j]) < ops.seq().len(),
            forall|j: int|
                0 <= j < order@.len() ==> ops.seq()[#[trigger] order@[j] as int] == sorted[j],
            seq_views(rows@) == before + all.take(i as int),
        decreases order@.len() - i,
    {
        let ghost held = rows@;
        let at: usize = order[i];
        let row = row_of(worker, ops.key_at(at).as_str(), success, ops.value_at(at), ms);
        let ghost v = row@;
        rows.push(row);
        proof {
            assert(seq_views(rows@) =~= seq_views(held).push(v));
            assert(v == all[i as int]);
            assert(seq_views(rows@) =~= before + all.take(i as int + 1));
        }
        i += 1;
    }
    assert(all.take(i as int) =~= all);
}

impl JobReport {
    /// The report as rows of a table.
    pub fn csv_rows(&self) -> (r: Vec<CsvRow>)
        ensures
            seq_views(r@) == rows_of(self@),
    {
        let success = text::str_eq(self.status.as_str(), "completed") && self.error.is_none();
        let ms: i64 = to_nearest(self.effective_duration_ms);
        let mut rows: Vec<CsvRow> = Vec::new();
        assert(seq_views(rows@) =~= Seq::<CsvRowView>::empty());
        if let Some(agg) = &self.aggregated {
            let total = OpReport {
                throughput_mbps: agg.throughput_mbps,
                iops: agg.iops,
                total_ops: agg.total_ops,
                total_bytes: agg.total_bytes,
                errors: agg.errors,
                error_rate: agg.error_rate,
                latency_us: agg.latency_us,
            };
            let row = row_of("*", "*", success, &total, ms);
            let ghost v = row@;
            rows.push(row);
            assert(seq_views(rows@) =~= seq![v]);
            push_op_rows(&mut rows, "*", success, &agg.per_op, ms);
        }
        let ghost head = seq_views(rows@);
        let ghost v = seq_views(self.workers@);
        let mut i: usize = 0;
        proof {
            assert(v.take(0) =~= Seq::<WorkerReportView>::empty());
            assert(head =~= head + worker_rows(v.take(0)));
        }
        while i < self.workers.len()
            invariant
                i <= self.workers@.len(),
                v == seq_views(self.workers@),
                seq_views(rows@) == head + worker_rows(v.take(i as int)),
            decreases self.workers@.len() - i,
        {
            let w = &self.workers[i];
            push_op_rows(
                &mut rows,
                w.worker_id.as_str(),
                w.success,
                &w.per_op,
                w.effective_duration_ms,
            );
            proof {
                let next = v.take(i as int + 1);
                assert(next.drop_last() =~= v.take(i as int));
                assert(next.last() == w@);
                assert(seq_views(rows@) =~= head + worker_rows(next));
            }
            i += 1;
        }
        assert(v.take(i as int) =~= v);
        rows
    }
}

/// Whether a report that is written to the file `path` is written as rows: the
/// extension of its name is `csv`, in letters of either case.
pub open spec fn wants_rows(path: Seq<char>) -> bool {
    let name = file_name(path);
    let n = name.len();
    &&& n > 4
    &&& name[n - 4] == '.'
    &&& (name[n - 3] == 'c' || name[n - 3] == 'C')
    &&& (name[n - 2] == 's' || name[n - 2] == 'S')
    &&& (name[n - 1] == 'v' || name[n - 1] == 'V')
}

/// The last step of a path.
pub open spec fn file_name(path: Seq<char>) -> Seq<char> {
    let parts = crate::path_safe::steps(path);
    if parts.len() > 0 {
        parts.last()
    } else {
        Seq::empty()
    }
}

/// Whether a report that is written to the file `path` is written as rows.
pub fn writes_rows(path: &str) -> (r: bool)
    ensures
        r == wants_rows(path@),
{
    let parts = crate::path_safe::steps_of(path);
    assert(text::views(parts@).len() == parts@.len());
    if parts.len() == 0 {
        return false;
    }
    assert(text::views(parts@).last() == parts@.last()@);
    let name = text::chars_of(parts[parts.len() - 1].as_str());
    let n: usize = name.len();
    n > 4 && name[n - 4] == '.' && (name[n - 3] == 'c' || name[n - 3] == 'C') && (name[n - 2] == 's'
        || name[n - 2] == 'S') && (name[n - 1] == 'v' || name[n - 1] == 'V')
}

/// What a file with a report holds.
#[derive(Debug, PartialEq, Eq)]
pub enum ReportFile {
    Rows(Vec<CsvRow>),
    Document(JobReport),
}

/// What is to be written to the file `path` on the job that a response tells
/// of.
pub fn write_report(path: &str, query: &pb::QueryJobResponse) -> (r: ReportFile)
    ensures
        match r {
            ReportFile::Rows(rows) => wants_rows(path@) && rows_tell(rows@, query@) && exists|
                d: JobReportView,
            | #[trigger]
                reports(d, query@) && seq_views(rows@) == rows_of(d),
            ReportFile::Document(d) => !wants_rows(path@) && reports(d@, query@),
        },
{
    let report = build_report(query);
    if writes_rows(path) {
        let rows = report.csv_rows();
        proof {
            assert(reports(report@, query@) && seq_views(rows@) == rows_of(report@));
            law_rows_tell_the_response(rows@, report@, query@);
        }
        ReportFile::Rows(rows)
    } else {
        ReportFile::Document(report)
    }
}

/// The operations that rows tell of, in the order of the rows.
pub open spec fn ops_told(rows: Seq<CsvRowView>) -> Seq<Seq<char>> {
    rows.map_values(|r: CsvRowView| r.op)
}

/// The rows for the operations of a worker come in the order of the names.
pub proof fn law_rows_are_sorted(
    worker: Seq<char>,
    success: bool,
    ops: Seq<(Seq<char>, OpReport)>,
    ms: i64,
)
    ensures
        ({
            let told = ops_told(op_rows(worker, success, in_order(ops), ms));
            &&& told.len() == ops.len()
            &&& forall|i: int, j: int|
                0 <= i <= j < told.len() ==> text_le(#[trigger] told[i], #[trigger] told[j])
        }),
{
    law_in_order_is_sorted(ops);
    let rows = op_rows(worker, success, in_order(ops), ms);
    let told = ops_told(rows);
    assert forall|i: int, j: int| 0 <= i <= j < told.len() implies text_le(
        #[trigger] told[i],
        #[trigger] told[j],
    ) by {
        assert(told[i] == in_order(ops)[i].0);
        assert(told[j] == in_order(ops)[j].0);
    }
}

/// No report shows a secret.
pub proof fn law_report_shows_no_secret(r: JobReportView, q: QueryJobResponseView)
    requires
        reports(r, q),
    ensures
        redacted_view(r.spec) == r.spec,
{
    assert(redacted_view(r.spec) =~= r.spec);
}

} // verus!
