//! The latest metrics of each worker, in the text format that Prometheus reads.

pub mod samples;

use vstd::prelude::*;

use crate::id::byte_len;
use crate::order::{in_order, lemma_viewed_order, order_of};
use crate::pb;
use crate::pb::{JobStatus, LatencyStats, Number};
use crate::state::job::{JobRecord, JobView};
use crate::state::{MasterState, StateView};
use crate::text;
use crate::text::{chars_of, is_white, split, split_at_char, white};
use crate::views::{entry_views, seq_views};

verus! {

/// A line of the text: one that is complete, or a series whose value is shown
/// as a floating-point number behind it (zero where it is not finite).
#[derive(Debug, PartialEq, Eq)]
pub enum Line {
    Text(String),
    Sample { series: String, value: Number },
}

/// What a [`Line`] holds.
#[verifier::ext_equal]
pub enum LineView {
    Text(Seq<char>),
    Sample { series: Seq<char>, value: Number },
}

impl View for Line {
    type V = LineView;

    open spec fn view(&self) -> LineView {
        match self {
            Line::Text(s) => LineView::Text(s@),
            Line::Sample { series, value } => LineView::Sample { series: series@, value: *value },
        }
    }
}

/// The name of a status, as a label.
pub open spec fn status_text(status: JobStatus) -> Seq<char> {
    match status {
        JobStatus::Unspecified => "unspecified"@,
        JobStatus::Pending => "pending"@,
        JobStatus::Preparing => "preparing"@,
        JobStatus::Running => "running"@,
        JobStatus::Completed => "completed"@,
        JobStatus::Failed => "failed"@,
        JobStatus::Cancelled => "cancelled"@,
    }
}

/// The name of a status, as a label.
pub fn status_label(status: JobStatus) -> (r: &'static str)
    ensures
        r@ == status_text(status),
{
    match status {
        JobStatus::Unspecified => "unspecified",
        JobStatus::Pending => "pending",
        JobStatus::Preparing => "preparing",
        JobStatus::Running => "running",
        JobStatus::Completed => "completed",
        JobStatus::Failed => "failed",
        JobStatus::Cancelled => "cancelled",
    }
}

/// How a character stands inside the quotes of a label.
pub open spec fn escape(c: char) -> Seq<char> {
    if c == '\\' {
        seq!['\\', '\\']
    } else if c == '"' {
        seq!['\\', '"']
    } else if c == '\n' {
        seq!['\\', 'n']
    } else {
        seq![c]
    }
}

/// How a text stands inside the quotes of a label.
pub open spec fn escaped(s: Seq<char>) -> Seq<char>
    decreases s.len(),
{
    if s.len() == 0 {
        Seq::empty()
    } else {
        escaped(s.drop_last()) + escape(s.last())
    }
}

/// Escapes the value of a label: backslashes, quotes and line ends.
pub fn escape_label(value: &str) -> (r: String)
    ensures
        r@ == escaped(value@),
{
    let cs = chars_of(value);
    let mut out = String::new();
    let mut i: usize = 0;
    while i < cs.len()
        invariant
            i <= cs@.len(),
            out@ == escaped(cs@.take(i as int)),
        decreases cs@.len() - i,
    {
        let c: char = cs[i];
        let ghost before = out@;
        assert(cs@.take(i as int + 1).drop_last() =~= cs@.take(i as int));
        if c == '\\' {
            out.push('\\');
            out.push('\\');
        } else if c == '"' {
            out.push('\\');
            out.push('"');
        } else if c == '\n' {
            out.push('\\');
            out.push('n');
        } else {
            out.push(c);
        }
        assert(out@ =~= before + escape(c));
        i += 1;
    }
    assert(cs@.take(i as int) =~= cs@);
    out
}

/// The label `name` with the value `value`, behind the labels `before`.
pub open spec fn labelled(before: Seq<char>, name: Seq<char>, value: Seq<char>) -> Seq<char> {
    before + name + "=\""@ + escaped(value) + "\""@
}

fn add_label(labels: &mut String, name: &str, value: &str)
    ensures
        final(labels)@ == labelled(old(labels)@, name@, value@),
{
    labels.push_str(name);
    labels.push_str("=\"");
    let v = escape_label(value);
    labels.push_str(v.as_str());
    labels.push_str("\"");
}

/// The labels of a job.
pub open spec fn job_labels(id: Seq<char>, status: JobStatus, fs_name: Seq<char>) -> Seq<char> {
    labelled(
        labelled(labelled(Seq::empty(), "job_id"@, id), ",status"@, status_text(status)),
        ",fs_name"@,
        fs_name,
    )
}

/// The labels of a worker in a job.
pub open spec fn worker_labels(job: Seq<char>, worker: Seq<char>) -> Seq<char> {
    labelled(labelled(Seq::empty(), "job_id"@, job), ",worker_id"@, worker)
}

/// The labels of an operation of a worker in a job.
pub open spec fn op_labels(job: Seq<char>, worker: Seq<char>, op: Seq<char>) -> Seq<char> {
    labelled(worker_labels(job, worker), ",op"@, op)
}

/// The series `name` with the labels `labels`.
pub open spec fn series(name: Seq<char>, labels: Seq<char>) -> Seq<char> {
    name + "{"@ + labels + "}"@
}

fn series_of(name: &str, labels: &str) -> (r: String)
    ensures
        r@ == series(name@, labels@),
{
    let mut s = name.to_owned();
    s.push_str("{");
    s.push_str(labels);
    s.push_str("}");
    s
}

/// A series whose value is the integer `i`.
pub open spec fn integer_line(name: Seq<char>, labels: Seq<char>, i: int) -> LineView {
    LineView::Text(series(name, labels) + " "@ + text::signed_decimal(i))
}

/// A series whose value is the number `n`.
pub open spec fn number_line(name: Seq<char>, labels: Seq<char>, n: Number) -> LineView {
    LineView::Sample { series: series(name, labels), value: n }
}

fn push_text(out: &mut Vec<Line>, line: &str)
    ensures
        seq_views(final(out)@) == seq_views(old(out)@).push(LineView::Text(line@)),
{
    let ghost before = out@;
    out.push(Line::Text(line.to_owned()));
    assert(seq_views(out@) =~= seq_views(before).push(LineView::Text(line@)));
}

fn push_integer(out: &mut Vec<Line>, name: &str, labels: &str, i: i64)
    ensures
        seq_views(final(out)@) == seq_views(old(out)@).push(integer_line(name@, labels@, i as int)),
{
    let mut s = series_of(name, labels);
    s.push_str(" ");
    let digits = text::signed_decimal_of(i);
    s.push_str(digits.as_str());
    push_text(out, s.as_str());
}

fn push_number(out: &mut Vec<Line>, name: &str, labels: &str, n: Number)
    ensures
        seq_views(final(out)@) == seq_views(old(out)@).push(number_line(name@, labels@, n)),
{
    let ghost before = out@;
    out.push(Line::Sample { series: series_of(name, labels), value: n });
    assert(seq_views(out@) =~= seq_views(before).push(number_line(name@, labels@, n)));
}

/// The statistic `stat` of a latency.
pub open spec fn latency_line(labels: Seq<char>, stat: Seq<char>, n: Number) -> LineView {
    number_line("cvdbench_worker_op_latency_us"@, labels + ",stat=\""@ + stat + "\""@, n)
}

fn push_latency(out: &mut Vec<Line>, labels: &str, stat: &str, n: Number)
    ensures
        seq_views(final(out)@) == seq_views(old(out)@).push(latency_line(labels@, stat@, n)),
{
    let mut l = labels.to_owned();
    l.push_str(",stat=\"");
    l.push_str(stat);
    l.push_str("\"");
    push_number(out, "cvdbench_worker_op_latency_us", l.as_str(), n);
}

/// The lines on one operation of a worker.
pub open spec fn op_lines(
    job: Seq<char>,
    worker: Seq<char>,
    op: Seq<char>,
    m: pb::PerformanceMetricsView,
) -> Seq<LineView> {
    let labels = op_labels(job, worker, op);
    let latency = match m.latency_us {
        Some(l) => l,
        None => LatencyStats::spec_none(),
    };
    seq![
        number_line("cvdbench_worker_op_throughput_mbps"@, labels, m.throughput_mbps),
        number_line("cvdbench_worker_op_iops"@, labels, m.iops),
        integer_line("cvdbench_worker_op_total_ops"@, labels, m.total_ops as int),
        integer_line("cvdbench_worker_op_total_bytes"@, labels, m.total_bytes as int),
        integer_line("cvdbench_worker_op_errors"@, labels, m.error_count as int),
        number_line("cvdbench_worker_op_error_rate"@, labels, m.error_rate),
        latency_line(labels, "p50"@, latency.p50),
        latency_line(labels, "p95"@, latency.p95),
        latency_line(labels, "p99"@, latency.p99),
        latency_line(labels, "p999"@, latency.p999),
        latency_line(labels, "max"@, latency.max),
        latency_line(labels, "avg"@, latency.avg),
    ]
}

fn write_metric_lines(
    out: &mut Vec<Line>,
    job_id: &str,
    worker_id: &str,
    op: &str,
    metric: &pb::PerformanceMetrics,
)
    ensures
        seq_views(final(out)@) == seq_views(old(out)@) + op_lines(
            job_id@,
            worker_id@,
            op@,
            metric@,
        ),
{
    let ghost before = seq_views(out@);
    let mut labels = String::new();
    assert(labels@ =~= Seq::<char>::empty());
    add_label(&mut labels, "job_id", job_id);
    add_label(&mut labels, ",worker_id", worker_id);
    add_label(&mut labels, ",op", op);
    let l = labels.as_str();
    push_number(out, "cvdbench_worker_op_throughput_mbps", l, metric.throughput_mbps);
    push_number(out, "cvdbench_worker_op_iops", l, metric.iops);
    push_integer(out, "cvdbench_worker_op_total_ops", l, metric.total_ops);
    push_integer(out, "cvdbench_worker_op_total_bytes", l, metric.total_bytes);
    push_integer(out, "cvdbench_worker_op_errors", l, metric.error_count);
    push_number(out, "cvdbench_worker_op_error_rate", l, metric.error_rate);
    let latency: LatencyStats = match metric.latency_us {
        Some(stats) => stats,
        None => LatencyStats::none(),
    };
    push_latency(out, l, "p50", latency.p50);
    push_latency(out, l, "p95", latency.p95);
    push_latency(out, l, "p99", latency.p99);
    push_latency(out, l, "p999", latency.p999);
    push_latency(out, l, "max", latency.max);
    push_latency(out, l, "avg", latency.avg);
    assert(seq_views(out@) =~= before + op_lines(job_id@, worker_id@, op@, metric@));
}

/// The lines on the operations of a worker.
pub open spec fn all_op_lines(
    job: Seq<char>,
    worker: Seq<char>,
    ops: Seq<(Seq<char>, pb::PerformanceMetricsView)>,
) -> Seq<LineView>
    decreases ops.len(),
{
    if ops.len() == 0 {
        Seq::empty()
    } else {
        all_op_lines(job, worker, ops.drop_last()) + op_lines(
            job,
            worker,
            ops.last().0,
            ops.last().1,
        )
    }
}

/// The lines on a worker.
pub open spec fn worker_lines(
    job: Seq<char>,
    worker: Seq<char>,
    p: pb::WorkerProgressView,
) -> Seq<LineView> {
    let labels = worker_labels(job, worker);
    seq![
        integer_line("cvdbench_worker_phase"@, labels, p.phase as int),
        integer_line("cvdbench_worker_elapsed_ms"@, labels, p.elapsed_ms as int),
    ] + all_op_lines(job, worker, in_order(p.per_op))
}

fn write_worker(out: &mut Vec<Line>, job_id: &str, worker_id: &str, progress: &pb::WorkerProgress)
    ensures
        seq_views(final(out)@) == seq_views(old(out)@) + worker_lines(
            job_id@,
            worker_id@,
            progress@,
        ),
{
    let ghost before = seq_views(out@);
    let mut labels = String::new();
    assert(labels@ =~= Seq::<char>::empty());
    add_label(&mut labels, "job_id", job_id);
    add_label(&mut labels, ",worker_id", worker_id);
    let l = labels.as_str();
    push_integer(out, "cvdbench_worker_phase", l, progress.phase as i64);
    push_integer(out, "cvdbench_worker_elapsed_ms", l, progress.elapsed_ms);
    let ghost first = seq_views(out@);
    let order = order_of(&progress.per_op);
    let ghost ops = in_order(progress@.per_op);
    let mut i: usize = 0;
    proof {
        lemma_viewed_order(progress.per_op.seq());
        assert(ops.take(0) =~= Seq::<(Seq<char>, pb::PerformanceMetricsView)>::empty());
        assert(first =~= first + all_op_lines(job_id@, worker_id@, ops.take(0)));
    }
    while i < order.len()
        invariant
            i <= order@.len(),
            order@.len() == progress.per_op.seq().len(),
            order@.len() == ops.len(),
            ops == entry_views(in_order(progress.per_op.seq())),
            forall|j: int| 0 <= j < order@.len() ==> (#[trigger] order@[j]) < progress.per_op.seq().len(),
            forall|j: int|
                0 <= j < order@.len() ==> progress.per_op.seq()[#[trigger] order@[j] as int]
                    == in_order(progress.per_op.seq())[j],
            seq_views(out@) == first + all_op_lines(job_id@, worker_id@, ops.take(i as int)),
        decreases order@.len() - i,
    {
        let at: usize = order[i];
        write_metric_lines(
            out,
            job_id,
            worker_id,
            progress.per_op.key_at(at).as_str(),
            progress.per_op.value_at(at),
        );
        proof {
            let next = ops.take(i as int + 1);
            assert(next.drop_last() =~= ops.take(i as int));
            assert(next.last() == ops[i as int]);
            assert(seq_views(out@) =~= first + all_op_lines(job_id@, worker_id@, next));
        }
        i += 1;
    }
    proof {
        assert(ops.take(i as int) =~= ops);
        assert(seq_views(out@) =~= before + worker_lines(job_id@, worker_id@, progress@));
    }
}

/// The lines on the workers of a job.
pub open spec fn all_worker_lines(
    job: Seq<char>,
    workers: Seq<(Seq<char>, pb::WorkerProgressView)>,
) -> Seq<LineView>
    decreases workers.len(),
{
    if workers.len() == 0 {
        Seq::empty()
    } else {
        all_worker_lines(job, workers.drop_last()) + worker_lines(
            job,
            workers.last().0,
            workers.last().1,
        )
    }
}

/// The lines on a job.
pub open spec fn job_lines(id: Seq<char>, j: JobView) -> Seq<LineView> {
    seq![
        integer_line("cvdbench_job_info"@, job_labels(id, j.status, j.spec.fs_name), 1),
    ] + all_worker_lines(id, in_order(j.progress))
}

fn write_job(out: &mut Vec<Line>, job_id: &str, record: &JobRecord)
    ensures
        seq_views(final(out)@) == seq_views(old(out)@) + job_lines(job_id@, record@),
{
    let ghost before = seq_views(out@);
    let mut labels = String::new();
    assert(labels@ =~= Seq::<char>::empty());
    add_label(&mut labels, "job_id", job_id);
    add_label(&mut labels, ",status", status_label(record.status));
    add_label(&mut labels, ",fs_name", record.spec_redacted.fs_name.as_str());
    push_integer(out, "cvdbench_job_info", labels.as_str(), 1);
    let ghost first = seq_views(out@);
    let order = order_of(&record.latest_progress);
    let ghost workers = in_order(record@.progress);
    let mut i: usize = 0;
    proof {
        lemma_viewed_order(record.latest_progress.seq());
        assert(workers.take(0) =~= Seq::<(Seq<char>, pb::WorkerProgressView)>::empty());
        assert(first =~= first + all_worker_lines(job_id@, workers.take(0)));
    }
    while i < order.len()
        invariant
            i <= order@.len(),
            order@.len() == record.latest_progress.seq().len(),
            order@.len() == workers.len(),
            workers == entry_views(in_order(record.latest_progress.seq())),
            forall|j: int|
                0 <= j < order@.len() ==> (#[trigger] order@[j]) < record.latest_progress.seq().len(),
            forall|j: int|
                0 <= j < order@.len() ==> record.latest_progress.seq()[#[trigger] order@[j] as int]
                    == in_order(record.latest_progress.seq())[j],
            seq_views(out@) == first + all_worker_lines(job_id@, workers.take(i as int)),
        decreases order@.len() - i,
    {
        let at: usize = order[i];
        write_worker(
            out,
            job_id,
            record.latest_progress.key_at(at).as_str(),
            record.latest_progress.value_at(at),
        );
        proof {
            let next = workers.take(i as int + 1);
            assert(next.drop_last() =~= workers.take(i as int));
            assert(next.last() == workers[i as int]);
            assert(seq_views(out@) =~= first + all_worker_lines(job_id@, next));
        }
        i += 1;
    }
    proof {
        assert(workers.take(i as int) =~= workers);
        assert(seq_views(out@) =~= before + job_lines(job_id@, record@));
    }
}

/// The lines that describe the series.
pub open spec fn header() -> Seq<LineView> {
    seq![
        LineView::Text("# HELP cvdbench_job_info cvdbench job metadata."@),
        LineView::Text("# TYPE cvdbench_job_info gauge"@),
        LineView::Text("# HELP cvdbench_worker_phase Worker phase enum value for latest progress."@),
        LineView::Text("# TYPE cvdbench_worker_phase gauge"@),
        LineView::Text("# HELP cvdbench_worker_elapsed_ms Latest worker elapsed time in milliseconds."@),
        LineView::Text("# TYPE cvdbench_worker_elapsed_ms gauge"@),
        LineView::Text("# HELP cvdbench_worker_op_throughput_mbps Latest worker operation throughput in MB/s."@),
        LineView::Text("# TYPE cvdbench_worker_op_throughput_mbps gauge"@),
        LineView::Text("# HELP cvdbench_worker_op_iops Latest worker operation IOPS."@),
        LineView::Text("# TYPE cvdbench_worker_op_iops gauge"@),
        LineView::Text("# HELP cvdbench_worker_op_total_ops Latest worker operation total ops within the job."@),
        LineView::Text("# TYPE cvdbench_worker_op_total_ops gauge"@),
        LineView::Text("# HELP cvdbench_worker_op_total_bytes Latest worker operation total bytes within the job."@),
        LineView::Text("# TYPE cvdbench_worker_op_total_bytes gauge"@),
        LineView::Text("# HELP cvdbench_worker_op_errors Latest worker operation error count within the job."@),
        LineView::Text("# TYPE cvdbench_worker_op_errors gauge"@),
        LineView::Text("# HELP cvdbench_worker_op_error_rate Latest worker operation error rate."@),
        LineView::Text("# TYPE cvdbench_worker_op_error_rate gauge"@),
        LineView::Text("# HELP cvdbench_worker_op_latency_us Latest worker operation latency in microseconds by quantile/stat."@),
        LineView::Text("# TYPE cvdbench_worker_op_latency_us gauge"@),
    ]
}

fn write_header(out: &mut Vec<Line>)
    requires
        old(out)@.len() == 0,
    ensures
        seq_views(final(out)@) == header(),
{
    push_text(out, "# HELP cvdbench_job_info cvdbench job metadata.");
    push_text(out, "# TYPE cvdbench_job_info gauge");
    push_text(out, "# HELP cvdbench_worker_phase Worker phase enum value for latest progress.");
    push_text(out, "# TYPE cvdbench_worker_phase gauge");
    push_text(out, "# HELP cvdbench_worker_elapsed_ms Latest worker elapsed time in milliseconds.");
    push_text(out, "# TYPE cvdbench_worker_elapsed_ms gauge");
    push_text(out, "# HELP cvdbench_worker_op_throughput_mbps Latest worker operation throughput in MB/s.");
    push_text(out, "# TYPE cvdbench_worker_op_throughput_mbps gauge");
    push_text(out, "# HELP cvdbench_worker_op_iops Latest worker operation IOPS.");
    push_text(out, "# TYPE cvdbench_worker_op_iops gauge");
    push_text(out, "# HELP cvdbench_worker_op_total_ops Latest worker operation total ops within the job.");
    push_text(out, "# TYPE cvdbench_worker_op_total_ops gauge");
    push_text(out, "# HELP cvdbench_worker_op_total_bytes Latest worker operation total bytes within the job.");
    push_text(out, "# TYPE cvdbench_worker_op_total_bytes gauge");
    push_text(out, "# HELP cvdbench_worker_op_errors Latest worker operation error count within the job.");
    push_text(out, "# TYPE cvdbench_worker_op_errors gauge");
    push_text(out, "# HELP cvdbench_worker_op_error_rate Latest worker operation error rate.");
    push_text(out, "# TYPE cvdbench_worker_op_error_rate gauge");
    push_text(out, "# HELP cvdbench_worker_op_latency_us Latest worker operation latency in microseconds by quantile/stat.");
    push_text(out, "# TYPE cvdbench_worker_op_latency_us gauge");
    assert(seq_views(out@) =~= header());
}

/// The lines on jobs.
pub open spec fn all_job_lines(jobs: Seq<(Seq<char>, JobView)>) -> Seq<LineView>
    decreases jobs.len(),
{
    if jobs.len() == 0 {
        Seq::empty()
    } else {
        all_job_lines(jobs.drop_last()) + job_lines(jobs.last().0, jobs.last().1)
    }
}

/// The lines on what a master knows: what the series are, and then each job in
/// the order of the identifiers, its workers in the order of theirs, and their
/// operations in the order of the names.
pub open spec fn rendering(s: StateView) -> Seq<LineView> {
    header() + all_job_lines(in_order(s.jobs))
}

/// Renders the latest metrics of all workers of all jobs.
pub fn render(state: &MasterState) -> (r: Vec<Line>)
    ensures
        seq_views(r@) == rendering(state@),
{
    let mut out: Vec<Line> = Vec::new();
    write_header(&mut out);
    let order = order_of(&state.jobs);
    let ghost jobs = in_order(state@.jobs);
    let mut i: usize = 0;
    proof {
        lemma_viewed_order(state.jobs.seq());
        assert(jobs.take(0) =~= Seq::<(Seq<char>, JobView)>::empty());
        assert(header() =~= header() + all_job_lines(jobs.take(0)));
    }
    while i < order.len()
        invariant
            i <= order@.len(),
            order@.len() == state.jobs.seq().len(),
            order@.len() == jobs.len(),
            jobs == entry_views(in_order(state.jobs.seq())),
            forall|j: int| 0 <= j < order@.len() ==> (#[trigger] order@[j]) < state.jobs.seq().len(),
            forall|j: int|
                0 <= j < order@.len() ==> state.jobs.seq()[#[trigger] order@[j] as int] == in_order(
                    state.jobs.seq(),
                )[j],
            seq_views(out@) == header() + all_job_lines(jobs.take(i as int)),
        decreases order@.len() - i,
    {
        let at: usize = order[i];
        write_job(&mut out, state.jobs.key_at(at).as_str(), state.jobs.value_at(at));
        proof {
            let next = jobs.take(i as int + 1);
            assert(next.drop_last() =~= jobs.take(i as int));
            assert(next.last() == jobs[i as int]);
            assert(seq_views(out@) =~= header() + all_job_lines(next));
        }
        i += 1;
    }
    assert(jobs.take(i as int) =~= jobs);
    out
}

/// The runs of characters of `s` between white space.
pub open spec fn words(s: Seq<char>) -> Seq<Seq<char>>
    decreases s.len(),
{
    if s.len() == 0 {
        Seq::empty()
    } else {
        let before = words(s.drop_last());
        if is_white(s.last()) {
            before
        } else if s.len() == 1 || is_white(s[s.len() - 2]) {
            before.push(seq![s.last()])
        } else {
            before.drop_last().push(before.last().push(s.last()))
        }
    }
}

/// The path that the first line of a request asks for: its second word, or
/// else the root.
pub open spec fn path_of(request: Seq<char>) -> Seq<char> {
    let line = words(split(request, '\n')[0]);
    if line.len() > 1 {
        line[1]
    } else {
        "/"@
    }
}

/// Splits `s` at white space.
fn words_of(s: &str) -> (r: Vec<String>)
    ensures
        text::views(r@) == words(s@),
{
    let cs = chars_of(s);
    let mut out: Vec<String> = Vec::new();
    let mut i: usize = 0;
    assert(text::views(out@) =~= words(cs@.take(0)));
    while i < cs.len()
        invariant
            i <= cs@.len(),
            text::views(out@) == words(cs@.take(i as int)),
            i > 0 && !is_white(cs@[i - 1]) ==> out@.len() > 0,
        decreases cs@.len() - i,
    {
        let ghost seen = cs@.take(i as int);
        let ghost next = cs@.take(i as int + 1);
        let ghost before = text::views(out@);
        let c: char = cs[i];
        proof {
            assert(next.drop_last() =~= seen);
            assert(next.last() == c);
            assert(i > 0 ==> next[next.len() - 2] == cs@[i - 1]);
        }
        if !white(c) {
            if i == 0 || white(cs[i - 1]) {
                let mut w = String::new();
                w.push(c);
                assert(w@ =~= seq![c]);
                out.push(w);
                assert(text::views(out@) =~= before.push(seq![c]));
            } else {
                let mut w = match out.pop() {
                    Some(w) => w,
                    None => String::new(),
                };
                assert(before.last() == w@);
                w.push(c);
                out.push(w);
                assert(text::views(out@) =~= before.drop_last().push(before.last().push(c)));
            }
        }
        i += 1;
    }
    assert(cs@.take(i as int) =~= cs@);
    out
}

/// The path that an HTTP request asks for.
pub fn parse_path(request: &str) -> (r: String)
    ensures
        r@ == path_of(request@),
{
    let lines = split_at_char(request, '\n');
    proof {
        text::lemma_split_parts(request@, '\n');
        assert(text::views(lines@).len() == lines@.len());
        assert(text::views(lines@)[0] == lines@[0]@);
    }
    let found = words_of(lines[0].as_str());
    assert(text::views(found@).len() == found@.len());
    if found.len() > 1 {
        assert(text::views(found@)[1] == found@[1]@);
        found[1].clone()
    } else {
        "/".to_owned()
    }
}

/// An HTTP response that closes the connection.
pub open spec fn http_text(status: Seq<char>, content_type: Seq<char>, body: Seq<char>) -> Seq<char> {
    "HTTP/1.1 "@ + status + "\r\nContent-Type: "@ + content_type + "\r\nContent-Length: "@
        + text::decimal(byte_len(body) as nat) + "\r\nConnection: close\r\n\r\n"@ + body
}

/// What a request is answered, where `metrics` are the metrics: these for the
/// path `/metrics`, and that there is nothing for any other.
pub open spec fn answer_text(request: Seq<char>, metrics: Seq<char>) -> Seq<char> {
    if path_of(request) == "/metrics"@ {
        http_text("200 OK"@, "text/plain; version=0.0.4; charset=utf-8"@, metrics)
    } else {
        http_text("404 Not Found"@, "text/plain; charset=utf-8"@, "not found\n"@)
    }
}

fn http_response(status: &str, content_type: &str, body: &str) -> (r: String)
    ensures
        r@ == http_text(status@, content_type@, body@),
{
    let mut s = "HTTP/1.1 ".to_owned();
    s.push_str(status);
    s.push_str("\r\nContent-Type: ");
    s.push_str(content_type);
    s.push_str("\r\nContent-Length: ");
    let digits = text::decimal_of(body.len() as u128);
    s.push_str(digits.as_str());
    s.push_str("\r\nConnection: close\r\n\r\n");
    s.push_str(body);
    s
}

/// Answers an HTTP request, where `metrics` is the rendered text.
pub fn answer(request: &str, metrics: &str) -> (r: String)
    ensures
        r@ == answer_text(request@, metrics@),
{
    let path = parse_path(request);
    if text::str_eq(path.as_str(), "/metrics") {
        http_response("200 OK", "text/plain; version=0.0.4; charset=utf-8", metrics)
    } else {
        http_response("404 Not Found", "text/plain; charset=utf-8", "not found\n")
    }
}

/// A label never breaks its line: what is escaped holds no line end.
pub proof fn law_labels_stay_on_one_line(s: Seq<char>)
    ensures
        !escaped(s).contains('\n'),
    decreases s.len(),
{
    if s.len() > 0 {
        law_labels_stay_on_one_line(s.drop_last());
        let head = escaped(s.drop_last());
        assert forall|i: int| 0 <= i < escaped(s).len() implies escaped(s)[i] != '\n' by {
            if i < head.len() {
                assert(head[i] == escaped(s)[i]);
                assert(head[i] != '\n') by {
                    if head[i] == '\n' {
                        assert(head.contains('\n'));
                    }
                }
            }
        }
    }
}

} // verus!
