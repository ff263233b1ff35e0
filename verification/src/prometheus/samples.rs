//! That the metrics of each operation of each worker of each job are shown, under
//! their names and with their labels.

use vstd::prelude::*;

use crate::order::{in_order, law_in_order_is_sorted};
use crate::pb::{JobStatus, Number, PerformanceMetricsView, WorkerProgressView};
use crate::prometheus::{
    all_job_lines, all_op_lines, all_worker_lines, answer_text, escape, escaped, header, job_lines,
    op_lines, path_of, rendering, words, worker_lines, LineView,
};
use crate::state::job::JobView;
use crate::state::StateView;
use crate::text::{
    decimal, is_white, lemma_split_concat, lemma_split_single, signed_decimal, split,
};

verus! {

/// The labels that tell a worker of a job.
pub open spec fn whose(job: Seq<char>, worker: Seq<char>) -> Seq<char> {
    Seq::<char>::empty() + "job_id"@ + "=\""@ + escaped(job) + "\""@ + ",worker_id"@ + "=\""@
        + escaped(worker) + "\""@
}

/// The labels that tell an operation of a worker of a job.
pub open spec fn which(job: Seq<char>, worker: Seq<char>, op: Seq<char>) -> Seq<char> {
    whose(job, worker) + ",op"@ + "=\""@ + escaped(op) + "\""@
}

/// Whether a line shows the number `n` under `name`.
pub open spec fn has_number(
    lines: Seq<LineView>,
    name: Seq<char>,
    labels: Seq<char>,
    n: Number,
) -> bool {
    lines.contains(LineView::Sample { series: name + "{"@ + labels + "}"@, value: n })
}

/// Whether a line shows the integer `i` under `name`.
pub open spec fn has_integer(
    lines: Seq<LineView>,
    name: Seq<char>,
    labels: Seq<char>,
    i: int,
) -> bool {
    lines.contains(LineView::Text(name + "{"@ + labels + "}"@ + " "@ + signed_decimal(i)))
}

/// Whether a line shows a latency.
pub open spec fn has_latency(
    lines: Seq<LineView>,
    labels: Seq<char>,
    stat: Seq<char>,
    n: Number,
) -> bool {
    has_number(
        lines,
        "cvdbench_worker_op_latency_us"@,
        labels + ",stat=\""@ + stat + "\""@,
        n,
    )
}

/// Whether lines show all that `m` reports of an operation.
pub open spec fn shows_operation(
    lines: Seq<LineView>,
    job: Seq<char>,
    worker: Seq<char>,
    op: Seq<char>,
    m: PerformanceMetricsView,
) -> bool {
    let labels = which(job, worker, op);
    &&& has_number(lines, "cvdbench_worker_op_throughput_mbps"@, labels, m.throughput_mbps)
    &&& has_number(lines, "cvdbench_worker_op_iops"@, labels, m.iops)
    &&& has_integer(lines, "cvdbench_worker_op_total_ops"@, labels, m.total_ops as int)
    &&& has_integer(lines, "cvdbench_worker_op_total_bytes"@, labels, m.total_bytes as int)
    &&& has_integer(lines, "cvdbench_worker_op_errors"@, labels, m.error_count as int)
    &&& has_number(lines, "cvdbench_worker_op_error_rate"@, labels, m.error_rate)
    &&& m.latency_us matches Some(l) ==> has_latency(lines, labels, "p50"@, l.p50) && has_latency(
        lines,
        labels,
        "p95"@,
        l.p95,
    ) && has_latency(lines, labels, "p99"@, l.p99) && has_latency(lines, labels, "p999"@, l.p999)
        && has_latency(lines, labels, "max"@, l.max) && has_latency(lines, labels, "avg"@, l.avg)
}

/// Whether lines show all that a worker reports.
pub open spec fn shows_worker(
    lines: Seq<LineView>,
    job: Seq<char>,
    worker: Seq<char>,
    p: WorkerProgressView,
) -> bool {
    &&& has_integer(lines, "cvdbench_worker_phase"@, whose(job, worker), p.phase as int)
    &&& has_integer(lines, "cvdbench_worker_elapsed_ms"@, whose(job, worker), p.elapsed_ms as int)
    &&& forall|k: int|
        0 <= k < p.per_op.len() ==> shows_operation(
            lines,
            job,
            worker,
            (#[trigger] p.per_op[k]).0,
            p.per_op[k].1,
        )
}

/// Whether all of `part` stands in `lines`.
pub open spec fn holds_all(lines: Seq<LineView>, part: Seq<LineView>) -> bool {
    forall|i: int| 0 <= i < part.len() ==> lines.contains(#[trigger] part[i])
}

proof fn lemma_joined(a: Seq<LineView>, b: Seq<LineView>)
    ensures
        holds_all(a + b, a),
        holds_all(a + b, b),
{
    let both = a + b;
    assert forall|i: int| 0 <= i < a.len() implies both.contains(#[trigger] a[i]) by {
        assert(both[i] == a[i]);
    }
    assert forall|i: int| 0 <= i < b.len() implies both.contains(#[trigger] b[i]) by {
        assert(both[a.len() + i] == b[i]);
    }
}

proof fn lemma_within(lines: Seq<LineView>, part: Seq<LineView>, inner: Seq<LineView>)
    requires
        holds_all(lines, part),
        holds_all(part, inner),
    ensures
        holds_all(lines, inner),
{
    assert forall|i: int| 0 <= i < inner.len() implies lines.contains(#[trigger] inner[i]) by {
        assert(part.contains(inner[i]));
        let k = choose|k: int| 0 <= k < part.len() && part[k] == inner[i];
        assert(lines.contains(part[k]));
    }
}

proof fn lemma_operation(
    lines: Seq<LineView>,
    job: Seq<char>,
    worker: Seq<char>,
    op: Seq<char>,
    m: PerformanceMetricsView,
)
    requires
        holds_all(lines, op_lines(job, worker, op, m)),
    ensures
        shows_operation(lines, job, worker, op, m),
{
    let part = op_lines(job, worker, op, m);
    assert(lines.contains(part[0]) && lines.contains(part[1]) && lines.contains(part[2]));
    assert(lines.contains(part[3]) && lines.contains(part[4]) && lines.contains(part[5]));
    assert(lines.contains(part[6]) && lines.contains(part[7]) && lines.contains(part[8]));
    assert(lines.contains(part[9]) && lines.contains(part[10]) && lines.contains(part[11]));
}

proof fn lemma_operations(
    job: Seq<char>,
    worker: Seq<char>,
    ops: Seq<(Seq<char>, PerformanceMetricsView)>,
    k: int,
)
    requires
        0 <= k < ops.len(),
    ensures
        holds_all(all_op_lines(job, worker, ops), op_lines(job, worker, ops[k].0, ops[k].1)),
    decreases ops.len(),
{
    let rest = ops.drop_last();
    let before = all_op_lines(job, worker, rest);
    let last = op_lines(job, worker, ops.last().0, ops.last().1);
    lemma_joined(before, last);
    if k < rest.len() {
        lemma_operations(job, worker, rest, k);
        lemma_within(
            before + last,
            before,
            op_lines(job, worker, ops[k].0, ops[k].1),
        );
    }
}

proof fn lemma_worker(
    lines: Seq<LineView>,
    job: Seq<char>,
    worker: Seq<char>,
    p: WorkerProgressView,
)
    requires
        holds_all(lines, worker_lines(job, worker, p)),
    ensures
        shows_worker(lines, job, worker, p),
{
    let part = worker_lines(job, worker, p);
    let ops = in_order(p.per_op);
    let first = part.take(2);
    assert(part =~= first + all_op_lines(job, worker, ops));
    lemma_joined(first, all_op_lines(job, worker, ops));
    assert(lines.contains(part[0]));
    assert(lines.contains(part[1]));
    law_in_order_is_sorted(p.per_op);
    assert forall|k: int| 0 <= k < p.per_op.len() implies shows_operation(
        lines,
        job,
        worker,
        (#[trigger] p.per_op[k]).0,
        p.per_op[k].1,
    ) by {
        assert(ops.contains(p.per_op[k]));
        let i = choose|i: int| 0 <= i < ops.len() && ops[i] == p.per_op[k];
        lemma_operations(job, worker, ops, i);
        let wanted = op_lines(job, worker, p.per_op[k].0, p.per_op[k].1);
        lemma_within(part, all_op_lines(job, worker, ops), wanted);
        lemma_within(lines, part, wanted);
        lemma_operation(lines, job, worker, p.per_op[k].0, p.per_op[k].1);
    }
}

proof fn lemma_workers(job: Seq<char>, workers: Seq<(Seq<char>, WorkerProgressView)>, n: int)
    requires
        0 <= n < workers.len(),
    ensures
        holds_all(
            all_worker_lines(job, workers),
            worker_lines(job, workers[n].0, workers[n].1),
        ),
    decreases workers.len(),
{
    let rest = workers.drop_last();
    let before = all_worker_lines(job, rest);
    let last = worker_lines(job, workers.last().0, workers.last().1);
    lemma_joined(before, last);
    if n < rest.len() {
        lemma_workers(job, rest, n);
        lemma_within(before + last, before, worker_lines(job, workers[n].0, workers[n].1));
    }
}

#[verifier::rlimit(40)]
proof fn lemma_jobs(jobs: Seq<(Seq<char>, JobView)>, n: int)
    requires
        0 <= n < jobs.len(),
    ensures
        holds_all(all_job_lines(jobs), job_lines(jobs[n].0, jobs[n].1)),
    decreases jobs.len(),
{
    let rest = jobs.drop_last();
    let before = all_job_lines(rest);
    let last = job_lines(jobs.last().0, jobs.last().1);
    lemma_joined(before, last);
    if n < rest.len() {
        lemma_jobs(rest, n);
        lemma_within(before + last, before, job_lines(jobs[n].0, jobs[n].1));
    }
}

proof fn lemma_job_is_rendered(s: StateView, n: int)
    requires
        0 <= n < s.jobs.len(),
    ensures
        holds_all(rendering(s), job_lines(s.jobs[n].0, s.jobs[n].1)),
{
    let jobs = in_order(s.jobs);
    law_in_order_is_sorted(s.jobs);
    assert(jobs.contains(s.jobs[n]));
    let i = choose|i: int| 0 <= i < jobs.len() && jobs[i] == s.jobs[n];
    lemma_jobs(jobs, i);
    lemma_joined(header(), all_job_lines(jobs));
    lemma_within(rendering(s), all_job_lines(jobs), job_lines(s.jobs[n].0, s.jobs[n].1));
}

/// What a worker of a job reported last is shown: its phase, how long it has
/// measured, and of each operation every number under its own name.
pub proof fn law_reports_are_shown(s: StateView, n: int, w: int)
    requires
        0 <= n < s.jobs.len(),
        0 <= w < s.jobs[n].1.progress.len(),
    ensures
        shows_worker(
            rendering(s),
            s.jobs[n].0,
            s.jobs[n].1.progress[w].0,
            s.jobs[n].1.progress[w].1,
        ),
{
    let (id, j) = s.jobs[n];
    lemma_job_is_rendered(s, n);
    let part = job_lines(id, j);
    let workers = in_order(j.progress);
    law_in_order_is_sorted(j.progress);
    assert(workers.contains(j.progress[w]));
    let i = choose|i: int| 0 <= i < workers.len() && workers[i] == j.progress[w];
    lemma_workers(id, workers, i);
    assert(part =~= part.take(1) + all_worker_lines(id, workers));
    lemma_joined(part.take(1), all_worker_lines(id, workers));
    let wanted = worker_lines(id, j.progress[w].0, j.progress[w].1);
    lemma_within(part, all_worker_lines(id, workers), wanted);
    lemma_within(rendering(s), part, wanted);
    lemma_worker(rendering(s), id, j.progress[w].0, j.progress[w].1);
}

/// How a status is told.
pub open spec fn told_as(status: JobStatus) -> Seq<char> {
    match status {
        JobStatus::Pending => "pending"@,
        JobStatus::Preparing => "preparing"@,
        JobStatus::Running => "running"@,
        JobStatus::Completed => "completed"@,
        JobStatus::Failed => "failed"@,
        JobStatus::Cancelled => "cancelled"@,
        JobStatus::Unspecified => "unspecified"@,
    }
}

/// Of each job its status and its file system are shown.
pub proof fn law_jobs_are_shown(s: StateView, n: int)
    requires
        0 <= n < s.jobs.len(),
    ensures
        has_integer(
            rendering(s),
            "cvdbench_job_info"@,
            Seq::<char>::empty() + "job_id"@ + "=\""@ + escaped(s.jobs[n].0) + "\""@ + ",status"@
                + "=\""@ + escaped(told_as(s.jobs[n].1.status)) + "\""@ + ",fs_name"@ + "=\""@
                + escaped(s.jobs[n].1.spec.fs_name) + "\""@,
            1,
        ),
{
    lemma_job_is_rendered(s, n);
    let part = job_lines(s.jobs[n].0, s.jobs[n].1);
    assert(rendering(s).contains(part[0]));
}

proof fn lemma_from_the_front(s: Seq<char>)
    requires
        s.len() > 0,
    ensures
        escaped(s) == escape(s[0]) + escaped(s.drop_first()),
    decreases s.len(),
{
    let rest = s.drop_last();
    if s.len() == 1 {
        assert(rest =~= Seq::empty());
        assert(s.drop_first() =~= Seq::empty());
        assert(escaped(s) =~= escape(s[0]) + escaped(s.drop_first()));
    } else {
        lemma_from_the_front(rest);
        assert(rest.drop_first() =~= s.drop_first().drop_last());
        assert(s.drop_first().last() == s.last());
        assert(escaped(s) =~= escape(s[0]) + escaped(s.drop_first()));
    }
}

/// Labels can be told apart as they stand inside quotes.
pub proof fn law_labels_are_told_apart(a: Seq<char>, b: Seq<char>)
    requires
        escaped(a) == escaped(b),
    ensures
        a == b,
    decreases a.len(),
{
    if a.len() == 0 {
        if b.len() > 0 {
            lemma_from_the_front(b);
            assert(escaped(b).len() >= escape(b[0]).len());
        }
        assert(a =~= b);
    } else if b.len() == 0 {
        lemma_from_the_front(a);
        assert(escaped(a).len() >= escape(a[0]).len());
    } else {
        lemma_from_the_front(a);
        lemma_from_the_front(b);
        let x = escape(a[0]);
        let y = escape(b[0]);
        let s = escaped(a.drop_first());
        let t = escaped(b.drop_first());
        assert((x + s)[0] == x[0] && (y + t)[0] == y[0]);
        assert(x[0] == y[0]);
        if x[0] == '\\' {
            assert(x.len() == 2 && y.len() == 2);
            assert((x + s)[1] == x[1] && (y + t)[1] == y[1]);
        }
        assert(a[0] == b[0]);
        assert(x =~= y);
        assert(s =~= (x + s).skip(x.len() as int));
        assert(t =~= (y + t).skip(y.len() as int));
        law_labels_are_told_apart(a.drop_first(), b.drop_first());
        assert(a =~= seq![a[0]] + a.drop_first());
        assert(b =~= seq![b[0]] + b.drop_first());
    }
}

/// Whether an answer is found to be of this kind, and to hold this text, whose
/// length it tells.
pub open spec fn answers(
    answer: Seq<char>,
    status: Seq<char>,
    kind: Seq<char>,
    body: Seq<char>,
) -> bool {
    answer == "HTTP/1.1 "@ + status + "\r\nContent-Type: "@ + kind + "\r\nContent-Length: "@
        + decimal(vstd::utf8::encode_utf8(body).len() as usize as nat)
        + "\r\nConnection: close\r\n\r\n"@ + body
}

/// The metrics are given to who asks for their path, and to no one else.
pub proof fn law_only_metrics_are_served(request: Seq<char>, metrics: Seq<char>)
    ensures
        path_of(request) == "/metrics"@ ==> answers(
            answer_text(request, metrics),
            "200 OK"@,
            "text/plain; version=0.0.4; charset=utf-8"@,
            metrics,
        ),
        path_of(request) != "/metrics"@ ==> answers(
            answer_text(request, metrics),
            "404 Not Found"@,
            "text/plain; charset=utf-8"@,
            "not found\n"@,
        ),
{
}

/// Whether a text has no white space.
pub open spec fn is_word(w: Seq<char>) -> bool {
    w.len() > 0 && forall|i: int| 0 <= i < w.len() ==> !is_white(#[trigger] w[i])
}

proof fn lemma_one_word_more(s: Seq<char>, w: Seq<char>)
    requires
        is_word(w),
        s.len() == 0 || is_white(s.last()),
    ensures
        words(s + w) == words(s).push(w),
    decreases w.len(),
{
    let all = s + w;
    assert(all.last() == w.last());
    assert(!is_white(w[w.len() - 1]));
    let rest = w.drop_last();
    assert(all.drop_last() =~= s + rest);
    if w.len() == 1 {
        assert(rest =~= Seq::empty());
        assert(s + rest =~= s);
        assert(s.len() > 0 ==> all[all.len() - 2] == s.last());
        assert(w =~= seq![w.last()]);
    } else {
        assert forall|i: int| 0 <= i < rest.len() implies !is_white(#[trigger] rest[i]) by {
            assert(rest[i] == w[i]);
        }
        lemma_one_word_more(s, rest);
        assert(all[all.len() - 2] == w[w.len() - 2]);
        assert(words(s).push(rest).drop_last() =~= words(s));
        assert(rest.push(w.last()) =~= w);
    }
}

proof fn lemma_words_stay(s: Seq<char>, c: char, rest: Seq<char>)
    requires
        is_white(c),
    ensures
        words(s.push(c) + rest).len() >= words(s).len(),
        rest.len() > 0 && !is_white(rest.last()) ==> words(s.push(c) + rest).len() > words(s).len(),
        forall|k: int|
            0 <= k < words(s).len() ==> #[trigger] words(s.push(c) + rest)[k] == words(s)[k],
    decreases rest.len(),
{
    let all = s.push(c) + rest;
    if rest.len() == 0 {
        assert(all =~= s.push(c));
        assert(all.drop_last() =~= s);
    } else {
        lemma_words_stay(s, c, rest.drop_last());
        assert(all.drop_last() =~= s.push(c) + rest.drop_last());
        assert(all.last() == rest.last());
        if rest.len() == 1 {
            assert(all[all.len() - 2] == c);
        } else {
            assert(all[all.len() - 2] == rest.drop_last().last());
        }
    }
}

/// The path of a request is the second word of its first line, whatever follows.
pub proof fn law_path_is_the_second_word(
    method: Seq<char>,
    path: Seq<char>,
    version: Seq<char>,
    rest: Seq<char>,
)
    requires
        is_word(method),
        is_word(path),
        !version.contains('\n'),
    ensures
        path_of(method + seq![' '] + path + seq![' '] + version + seq!['\n'] + rest) == path,
{
    let head = method + seq![' '];
    let two = head + path;
    let line = two + seq![' '] + version;
    let request = line + seq!['\n'] + rest;
    assert(is_white(' '));
    assert(is_white('\n'));
    assert(Seq::<char>::empty() + method =~= method);
    lemma_one_word_more(Seq::empty(), method);
    lemma_words_stay(method, ' ', Seq::empty());
    assert(method.push(' ') + Seq::<char>::empty() =~= head);
    assert(head.drop_last() =~= method);
    assert(words(head) == words(method));
    lemma_one_word_more(head, path);
    assert(words(two).len() == 2 && words(two)[1] == path);
    lemma_words_stay(two, ' ', version);
    assert(two.push(' ') + version =~= line);
    assert(!line.contains('\n')) by {
        if line.contains('\n') {
            let i = choose|i: int| 0 <= i < line.len() && line[i] == '\n';
            let n = method.len() as int;
            let m = n + 1 + path.len();
            if i < n {
                assert(line[i] == method[i]);
            } else if i > n && i < m {
                assert(line[i] == path[i - n - 1]);
            } else if i > m {
                assert(line[i] == version[i - m - 1]);
            }
        }
    }
    lemma_split_concat(line, rest, '\n');
    lemma_split_single(line, '\n');
    assert(split(request, '\n')[0] == line);
}

} // verus!
