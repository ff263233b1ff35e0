//! What workers ask and report.

use vstd::prelude::*;

use crate::events::{emit_for_job, event_of, Notice, NoticeView};
use crate::id::id_check;
use crate::manifest::queue::{batch_len, QueueView};
use crate::pb;
use crate::scheduler;
use crate::scheduler::release::{free_worker, freed};
use crate::service::error::{Code, Refusal, ServiceError};
use crate::service::reply::{
    bad_worker_id, no_notices, note, refused, replies, replies_view, require_valid_worker_id,
    unchanged, Reply, Step,
};
use crate::state::job::{ended, is_end, touched, JobView};
use crate::state::{next_seq, MasterState, StateView};
use crate::strmap::{has_key, lemma_put_same, lemma_viewed_keys, lemma_viewed_put, lookup, put, StrMap};
use crate::time::Clock;
use crate::views::{copy_map, copy_opt_text, opt_text, opt_view, seq_views};

verus! {

/// `step`, unless the worker id is not valid: then the request is refused.
pub open spec fn checked<R>(s: StateView, worker: Seq<char>, step: Step<R>) -> Step<R> {
    match id_check(worker) {
        Ok(_) => step,
        Err(e) => Step { state: s, notices: Seq::empty(), result: Err(bad_worker_id(e)) },
    }
}

/// Answers a worker that asks for work.
pub fn fetch_job(state: &mut MasterState, req: pb::FetchJobRequest, at: &Clock) -> (r: Reply<
    pb::FetchJobResponse,
>)
    ensures
        replies_view(
            r,
            final(state)@,
            scheduler::fetch_job::fetch(old(state)@, req.worker_id@, *at),
        ),
        final(state).subscribers == old(state).subscribers,
{
    scheduler::fetch_job::fetch_job(state, req, at)
}

/// Answers a worker that is ready, or failed to get ready.
pub fn report_ready(state: &mut MasterState, req: pb::ReportReadyRequest, at: &Clock) -> (r: Reply<
    pb::ReportReadyResponse,
>)
    ensures
        replies(
            r,
            final(state)@,
            checked(
                old(state)@,
                req.worker_id@,
                scheduler::ready::ready(
                    old(state)@,
                    req.job_id@,
                    req.worker_id@,
                    opt_text(req.error),
                    *at,
                ),
            ),
        ),
        final(state).subscribers == old(state).subscribers,
{
    if let Err(e) = require_valid_worker_id(req.worker_id.as_str()) {
        return Reply::refuse(e);
    }
    scheduler::ready::report_ready(state, req, at)
}

/// How many files a batch has at most: 1000 where nothing is said, and never
/// more than 10000.
pub open spec fn batch_size(asked: i32) -> usize {
    if asked <= 0 {
        1_000
    } else if asked > 10_000 {
        10_000
    } else {
        asked as usize
    }
}

/// No files, and none to come.
pub open spec fn no_files(cancelled: bool, unknown_job: bool) -> pb::FetchFileBatchResponseView {
    pb::FetchFileBatchResponseView { files: Seq::empty(), has_more: false, cancelled, unknown_job }
}

/// What happens when a worker of a running job asks for up to `n` files. More
/// may come as long as some came now, or the list has not been read to its
/// end.
pub open spec fn take_files(
    s: StateView,
    id: Seq<char>,
    j: JobView,
    q: QueueView<pb::FileEntry>,
    worker: Seq<char>,
    n: usize,
    at: Clock,
) -> Step<pb::FetchFileBatchResponseView> {
    let k = batch_len(q.items.len(), n);
    let rest = QueueView { items: q.items.skip(k), ..q };
    let t = touched(j, worker, at);
    Step {
        state: StateView {
            jobs: put(s.jobs, id, JobView { file_queue: Some(rest), ..t }),
            ..s
        },
        notices: Seq::empty(),
        result: Ok(
            pb::FetchFileBatchResponseView {
                files: seq_views(q.items.take(k)),
                has_more: k > 0 || !(j.manifest_done && rest.items.len() == 0),
                cancelled: false,
                unknown_job: false,
            },
        ),
    }
}

/// What happens when a worker asks for files.
pub open spec fn file_batch(
    s: StateView,
    id: Seq<char>,
    worker: Seq<char>,
    asked: i32,
    at: Clock,
) -> Step<pb::FetchFileBatchResponseView> {
    match lookup(s.jobs, id) {
        None => unchanged(s, no_files(false, true)),
        Some(j) => if !j.run_workers.contains(worker) {
            unchanged(s, no_files(false, true))
        } else if j.status == pb::JobStatus::Cancelled {
            Step {
                state: StateView { jobs: put(s.jobs, id, touched(j, worker, at)), ..s },
                notices: Seq::empty(),
                result: Ok(no_files(true, false)),
            }
        } else if j.status != pb::JobStatus::Running {
            unchanged(s, no_files(false, true))
        } else {
            match j.file_queue {
                None => unchanged(s, no_files(false, true)),
                Some(q) => take_files(s, id, j, q, worker, batch_size(asked), at),
            }
        },
    }
}

fn empty_batch(cancelled: bool, unknown_job: bool) -> (r: pb::FetchFileBatchResponse)
    ensures
        r@ == no_files(cancelled, unknown_job),
{
    let files: Vec<pb::FileEntry> = Vec::new();
    assert(seq_views(files@) =~= Seq::<pb::FileEntryView>::empty());
    pb::FetchFileBatchResponse { files, has_more: false, cancelled, unknown_job }
}

fn limit_of(asked: i32) -> (r: usize)
    ensures
        r == batch_size(asked),
{
    if asked <= 0 {
        1_000
    } else if asked > 10_000 {
        10_000
    } else {
        asked as usize
    }
}

/// Hands files to a worker.
pub fn fetch_file_batch(
    state: &mut MasterState,
    req: pb::FetchFileBatchRequest,
    at: &Clock,
) -> (r: Reply<pb::FetchFileBatchResponse>)
    ensures
        replies_view(
            r,
            final(state)@,
            checked(
                old(state)@,
                req.worker_id@,
                file_batch(old(state)@, req.job_id@, req.worker_id@, req.batch_size, *at),
            ),
        ),
        final(state).subscribers == old(state).subscribers,
{
    if let Err(e) = require_valid_worker_id(req.worker_id.as_str()) {
        return Reply::refuse(e);
    }
    let n: usize = limit_of(req.batch_size);
    let ghost s = state@;
    let ghost id = req.job_id@;
    let ghost worker = req.worker_id@;
    let _ = state.jobs.len();
    let ghost jobs = state.jobs.seq();
    proof {
        lemma_viewed_keys(jobs, id);
    }
    let record = match state.jobs.get_mut(req.job_id.as_str()) {
        Some(record) => record,
        None => {
            return Reply::answer(empty_batch(false, true));
        },
    };
    let ghost j = record@;
    let takes_part = record.run_workers.contains(req.worker_id.as_str());
    if takes_part && record.status == pb::JobStatus::Cancelled {
        record.touch(req.worker_id.as_str(), at);
        let ghost done = *record;
        proof {
            lemma_viewed_put(jobs, id, done);
        }
        return Reply::answer(empty_batch(true, false));
    }
    if takes_part && record.status == pb::JobStatus::Running && record.file_queue.is_some() {
        record.touch(req.worker_id.as_str(), at);
        let finished = record.manifest_done;
        let mut files: Vec<pb::FileEntry> = Vec::new();
        let mut left = false;
        if let Some(q) = &mut record.file_queue {
            files = q.drain_up_to(n);
            left = !q.is_empty();
        }
        let has_more = files.len() > 0 || !(finished && !left);
        let ghost done = *record;
        proof {
            lemma_viewed_put(jobs, id, done);
        }
        let r = Reply::answer(
            pb::FetchFileBatchResponse { files, has_more, cancelled: false, unknown_job: false },
        );
        proof {
            let step = file_batch(s, id, worker, req.batch_size, *at);
            assert(state@ =~= step.state);
        }
        return r;
    }
    let ghost same = *record;
    proof {
        lemma_viewed_put(jobs, id, same);
        lemma_put_same(s.jobs, id);
    }
    Reply::answer(empty_batch(false, true))
}

/// Whether a worker counts operations in a phase.
pub open spec fn counts_in(phase: i32) -> bool {
    pb::WorkerPhase::decoded(phase) == Some(pb::WorkerPhase::Warmup) || pb::WorkerPhase::decoded(
        phase,
    ) == Some(pb::WorkerPhase::Measuring)
}

/// A worker's progress as it is kept: without counts, outside the phases in
/// which it counts.
pub open spec fn kept_progress(p: pb::WorkerProgressView) -> pb::WorkerProgressView {
    if counts_in(p.phase) {
        p
    } else {
        pb::WorkerProgressView { per_op: Seq::empty(), ..p }
    }
}

/// What happens when a worker reports its progress.
pub open spec fn progress(
    s: StateView,
    id: Seq<char>,
    p: pb::WorkerProgressView,
    at: Clock,
) -> Step<pb::ReportProgressResponse> {
    let worker = p.worker_id;
    match lookup(s.jobs, id) {
        None => unchanged(s, pb::ReportProgressResponse { cancelled: false, unknown_job: true }),
        Some(j) => if j.status == pb::JobStatus::Cancelled {
            Step {
                state: StateView { jobs: put(s.jobs, id, touched(j, worker, at)), ..s },
                notices: Seq::empty(),
                result: Ok(pb::ReportProgressResponse { cancelled: true, unknown_job: false }),
            }
        } else if is_end(j.status) || !has_key(j.assignments, worker) {
            unchanged(s, pb::ReportProgressResponse { cancelled: false, unknown_job: true })
        } else {
            let t = touched(j, worker, at);
            let n = JobView { progress: put(j.progress, worker, kept_progress(p)), ..t };
            Step {
                state: StateView {
                    jobs: put(s.jobs, id, n),
                    event_seq: next_seq(s.event_seq),
                    ..s
                },
                notices: seq![
                    NoticeView::Event(event_of(n, pb::EventKind::Progress, s.event_seq, at)),
                ],
                result: Ok(pb::ReportProgressResponse { cancelled: false, unknown_job: false }),
            }
        },
    }
}

/// What happens when a worker reports its progress, or leaves it out.
pub open spec fn progress_request(
    s: StateView,
    id: Seq<char>,
    p: Option<pb::WorkerProgressView>,
    at: Clock,
) -> Step<pb::ReportProgressResponse> {
    match p {
        None => refused(s, Code::InvalidArgument, "progress is required"@),
        Some(p) => checked(s, p.worker_id, progress(s, id, p, at)),
    }
}

/// Takes the progress of a worker in, and tells the watchers of its job.
pub fn report_progress(
    state: &mut MasterState,
    req: pb::ReportProgressRequest,
    at: &Clock,
) -> (r: Reply<pb::ReportProgressResponse>)
    ensures
        replies(
            r,
            final(state)@,
            progress_request(old(state)@, req.job_id@, opt_view(req.progress), *at),
        ),
        final(state).subscribers == old(state).subscribers,
{
    let ghost s = state@;
    let ghost id = req.job_id@;
    let mut report = match req.progress {
        Some(p) => p,
        None => {
            return Reply::refuse(ServiceError::new(Code::InvalidArgument, "progress is required"));
        },
    };
    let ghost p = report@;
    let worker = report.worker_id.clone();
    if let Err(e) = require_valid_worker_id(worker.as_str()) {
        return Reply::refuse(e);
    }
    let counting = match pb::WorkerPhase::from_i32(report.phase) {
        Some(pb::WorkerPhase::Warmup) => true,
        Some(pb::WorkerPhase::Measuring) => true,
        _ => false,
    };
    if !counting {
        report.per_op = StrMap::new();
    }
    assert(report@ =~= kept_progress(p));
    let _ = state.jobs.len();
    let ghost jobs = state.jobs.seq();
    proof {
        lemma_viewed_keys(jobs, id);
    }
    let record = match state.jobs.get_mut(req.job_id.as_str()) {
        Some(record) => record,
        None => {
            return Reply::answer(
                pb::ReportProgressResponse { cancelled: false, unknown_job: true },
            );
        },
    };
    let ghost j = record@;
    if record.status == pb::JobStatus::Cancelled {
        record.touch(worker.as_str(), at);
        let ghost done = *record;
        proof {
            lemma_viewed_put(jobs, id, done);
        }
        return Reply::answer(pb::ReportProgressResponse { cancelled: true, unknown_job: false });
    }
    if record.is_terminal() || !record.worker_assignments.contains_key(worker.as_str()) {
        let ghost same = *record;
        proof {
            lemma_viewed_put(jobs, id, same);
            lemma_put_same(s.jobs, id);
        }
        return Reply::answer(pb::ReportProgressResponse { cancelled: false, unknown_job: true });
    }
    record.touch(worker.as_str(), at);
    let _ = record.latest_progress.len();
    proof {
        lemma_viewed_put(record.latest_progress.seq(), worker@, report);
    }
    record.latest_progress.insert(worker, report);
    let mut notices = no_notices();
    let event = emit_for_job(&mut state.event_seq, record, pb::EventKind::Progress, at);
    note(&mut notices, event);
    let ghost done = *record;
    proof {
        lemma_viewed_put(jobs, id, done);
    }
    let r = Reply {
        result: Ok(pb::ReportProgressResponse { cancelled: false, unknown_job: false }),
        notices,
    };
    proof {
        let step = progress(s, id, p, *at);
        assert(seq_views(r.notices@) =~= step.notices);
        assert(state@ =~= step.state);
    }
    r
}

/// A worker's last progress, made from its result.
pub open spec fn final_progress(r: pb::WorkerResultView) -> pb::WorkerProgressView {
    pb::WorkerProgressView {
        worker_id: r.worker_id,
        elapsed_ms: r.effective_duration_ms,
        per_op: r.per_op,
        phase: if r.success {
            pb::WorkerPhase::Finished.code()
        } else {
            pb::WorkerPhase::Unspecified.code()
        },
    }
}

/// The error of a job one of whose workers failed.
pub open spec fn worker_failure(r: pb::WorkerResultView) -> Seq<char> {
    match r.error {
        Some(e) => e,
        None => "worker "@ + r.worker_id + " reported failure"@,
    }
}

/// The job after the first result of a worker, and whether that ended it: a
/// failure does, and so does the last success. A job that has been cancelled
/// stays so, and its results as they are.
pub open spec fn with_result(j: JobView, r: pb::WorkerResultView, at: Clock) -> (JobView, bool) {
    let worker = r.worker_id;
    let p = JobView {
        progress: put(j.progress, worker, final_progress(r)),
        ..touched(j, worker, at)
    };
    if j.status == pb::JobStatus::Cancelled {
        (p, false)
    } else {
        let n = JobView { results: put(j.results, worker, r), ..p };
        if !r.success {
            (ended(n, pb::JobStatus::Failed, Some(worker_failure(r)), at), true)
        } else if n.results.len() == n.run_workers.len() {
            (ended(n, pb::JobStatus::Completed, n.error, at), true)
        } else {
            (n, false)
        }
    }
}

/// What happens when a worker hands in its result. Only a worker that takes
/// part in a job that runs, or was cancelled, has a result to hand in, and
/// only the first one counts. Whatever comes of it, the worker is free.
pub open spec fn take_result(s: StateView, id: Seq<char>, r: pb::WorkerResultView, at: Clock) -> Step<
    pb::ReportResultResponse,
> {
    let worker = r.worker_id;
    let free = StateView { active: freed(s.active, worker, id), ..s };
    let known = Ok::<pb::ReportResultResponse, Refusal>(
        pb::ReportResultResponse { unknown_job: false },
    );
    match lookup(s.jobs, id) {
        None => unchanged(free, pb::ReportResultResponse { unknown_job: true }),
        Some(j) => if !j.run_workers.contains(worker) || (j.status != pb::JobStatus::Running
            && j.status != pb::JobStatus::Cancelled) {
            unchanged(free, pb::ReportResultResponse { unknown_job: true })
        } else if has_key(j.results, worker) {
            Step {
                state: StateView { jobs: put(s.jobs, id, touched(j, worker, at)), ..free },
                notices: Seq::empty(),
                result: known,
            }
        } else {
            let (n, over) = with_result(j, r, at);
            Step {
                state: StateView {
                    jobs: put(s.jobs, id, n),
                    event_seq: if over {
                        next_seq(s.event_seq)
                    } else {
                        s.event_seq
                    },
                    ..free
                },
                notices: if over {
                    seq![
                        NoticeView::Event(
                            event_of(n, pb::EventKind::StatusChange, s.event_seq, at),
                        ),
                        NoticeView::End(id),
                    ]
                } else {
                    Seq::empty()
                },
                result: known,
            }
        },
    }
}

/// What happens when a worker hands in its result, or leaves it out.
pub open spec fn result_request(
    s: StateView,
    id: Seq<char>,
    r: Option<pb::WorkerResultView>,
    at: Clock,
) -> Step<pb::ReportResultResponse> {
    match r {
        None => refused(s, Code::InvalidArgument, "result is required"@),
        Some(r) => checked(s, r.worker_id, take_result(s, id, r, at)),
    }
}

fn failure_text(result: &pb::WorkerResult) -> (m: String)
    ensures
        m@ == worker_failure(result@),
{
    match &result.error {
        Some(e) => e.clone(),
        None => {
            let mut m = "worker ".to_owned();
            m.push_str(result.worker_id.as_str());
            m.push_str(" reported failure");
            m
        },
    }
}

/// Takes the result of a worker into a job; the result says whether that ended
/// it.
fn absorb(record: &mut crate::state::job::JobRecord, result: pb::WorkerResult, at: &Clock) -> (over: bool)
    ensures
        final(record)@ == with_result(old(record)@, result@, *at).0,
        over == with_result(old(record)@, result@, *at).1,
{
    let ghost j = record@;
    let ghost r = result@;
    let worker = result.worker_id.clone();
    record.touch(worker.as_str(), at);
    let progress = pb::WorkerProgress {
        worker_id: worker.clone(),
        elapsed_ms: result.effective_duration_ms,
        per_op: copy_map(&result.per_op),
        phase: if result.success {
            pb::WorkerPhase::Finished.to_i32()
        } else {
            pb::WorkerPhase::Unspecified.to_i32()
        },
    };
    assert(progress@ =~= final_progress(r));
    let _ = record.latest_progress.len();
    proof {
        lemma_viewed_put(record.latest_progress.seq(), worker@, progress);
    }
    record.latest_progress.insert(worker.clone(), progress);
    if record.status == pb::JobStatus::Cancelled {
        return false;
    }
    let success = result.success;
    let failure = failure_text(&result);
    let _ = record.worker_results.len();
    proof {
        lemma_viewed_put(record.worker_results.seq(), worker@, result);
    }
    record.worker_results.insert(worker, result);
    if !success {
        record.end(pb::JobStatus::Failed, Some(failure), at);
        return true;
    }
    let n: usize = record.worker_results.len();
    proof {
        assert(record@.results.len() == n);
    }
    if n == record.run_workers.len() {
        let error = copy_opt_text(&record.error);
        record.end(pb::JobStatus::Completed, error, at);
        return true;
    }
    false
}

/// Takes the result of a worker in. The last success completes its job, a
/// failure fails it.
pub fn report_result(state: &mut MasterState, req: pb::ReportResultRequest, at: &Clock) -> (r: Reply<
    pb::ReportResultResponse,
>)
    ensures
        replies(
            r,
            final(state)@,
            result_request(old(state)@, req.job_id@, opt_view(req.result), *at),
        ),
        final(state).subscribers == old(state).subscribers,
{
    let ghost s = state@;
    let ghost id = req.job_id@;
    let result = match req.result {
        Some(x) => x,
        None => {
            return Reply::refuse(ServiceError::new(Code::InvalidArgument, "result is required"));
        },
    };
    let ghost given = result@;
    let worker = result.worker_id.clone();
    if let Err(e) = require_valid_worker_id(worker.as_str()) {
        return Reply::refuse(e);
    }
    free_worker(&mut state.worker_active_jobs, worker.as_str(), req.job_id.as_str());
    let _ = state.jobs.len();
    let ghost jobs = state.jobs.seq();
    proof {
        lemma_viewed_keys(jobs, id);
    }
    let record = match state.jobs.get_mut(req.job_id.as_str()) {
        Some(record) => record,
        None => {
            return Reply::answer(pb::ReportResultResponse { unknown_job: true });
        },
    };
    let ghost j = record@;
    if !record.run_workers.contains(worker.as_str()) || (record.status != pb::JobStatus::Running
        && record.status != pb::JobStatus::Cancelled) {
        let ghost same = *record;
        proof {
            lemma_viewed_put(jobs, id, same);
            lemma_put_same(s.jobs, id);
        }
        return Reply::answer(pb::ReportResultResponse { unknown_job: true });
    }
    let _ = record.worker_results.len();
    proof {
        lemma_viewed_keys(record.worker_results.seq(), worker@);
    }
    if record.worker_results.contains_key(worker.as_str()) {
        record.touch(worker.as_str(), at);
        let ghost done = *record;
        proof {
            lemma_viewed_put(jobs, id, done);
        }
        return Reply::answer(pb::ReportResultResponse { unknown_job: false });
    }
    let over = absorb(record, result, at);
    let mut notices = no_notices();
    if over {
        let event = emit_for_job(&mut state.event_seq, record, pb::EventKind::StatusChange, at);
        note(&mut notices, event);
        note(&mut notices, Notice::End(req.job_id));
    }
    let ghost done = *record;
    proof {
        lemma_viewed_put(jobs, id, done);
    }
    let r = Reply { result: Ok(pb::ReportResultResponse { unknown_job: false }), notices };
    proof {
        let step = take_result(s, id, given, *at);
        assert(seq_views(r.notices@) =~= step.notices);
        assert(state@ =~= step.state);
    }
    r
}

} // verus!
