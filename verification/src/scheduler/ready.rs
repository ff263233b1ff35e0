//! The start of a job: once all its workers are ready, they are given the same
//! time to start. A worker that fails to get ready fails the job.

use vstd::prelude::*;

use crate::events::{emit_for_job, event_of, Notice, NoticeView};
use crate::metrics::aggregate::{nearest, to_nearest};
use crate::pb;
use crate::scheduler::release::{release, released};
use crate::service::reply::{no_notices, note, replies, unchanged, Reply, Step};
use crate::state::job::{ended, is_end, touched, JobView};
use crate::state::{next_seq, MasterState, StateView};
use crate::strmap::{has_key, keys_of, lemma_put_same, lemma_viewed_keys, lemma_viewed_put, lookup, put};
use crate::time::{Clock, Duration};
use crate::views::seq_views;

verus! {

/// The answer to a worker that has no business with the job.
pub open spec fn unknown_job(at: Clock) -> pb::ReportReadyResponse {
    pb::ReportReadyResponse {
        cancelled: false,
        unknown_job: true,
        start_at_ms: 0,
        master_now_ms: at.wall_ms,
    }
}

/// The answer to a worker of a job that has been cancelled.
pub open spec fn cancelled_job(at: Clock) -> pb::ReportReadyResponse {
    pb::ReportReadyResponse {
        cancelled: true,
        unknown_job: false,
        start_at_ms: 0,
        master_now_ms: at.wall_ms,
    }
}

/// The answer to a worker of the job: when to start, or zero.
pub open spec fn start_at(ms: i64, at: Clock) -> pb::ReportReadyResponse {
    pb::ReportReadyResponse {
        cancelled: false,
        unknown_job: false,
        start_at_ms: ms,
        master_now_ms: at.wall_ms,
    }
}

/// The delay of a start in milliseconds; five seconds where it does not fit.
pub open spec fn delay_ms(d: Duration) -> i64 {
    if d.nanos / 1_000_000 > i64::MAX {
        5_000
    } else {
        (d.nanos / 1_000_000) as i64
    }
}

/// The error of a job one of whose workers failed to get ready.
pub open spec fn ready_failure(worker: Seq<char>, reason: Seq<char>) -> Seq<char> {
    "worker "@ + worker + " reported ready failure: "@ + reason
}

/// The job after a worker got ready, and whether it starts. A job starts when
/// it is preparing and as many workers are ready as take part.
pub open spec fn readied(j: JobView, worker: Seq<char>, delay: i64, at: Clock) -> (JobView, bool) {
    if j.status == pb::JobStatus::Preparing || j.status == pb::JobStatus::Pending {
        let r = JobView { ready_workers: j.ready_workers.insert(worker), ..j };
        if j.status == pb::JobStatus::Preparing && j.start_at_ms == 0 && j.run_workers.len() > 0
            && r.ready_workers.len() == j.run_workers.len() {
            (
                JobView {
                    start_at_ms: nearest(at.wall_ms + delay),
                    status: pb::JobStatus::Running,
                    ..r
                },
                true,
            )
        } else {
            (r, false)
        }
    } else {
        (j, false)
    }
}

/// What happens when a worker of the job `j` reports that it is ready, or why
/// it is not.
pub open spec fn worker_ready(
    s: StateView,
    id: Seq<char>,
    j: JobView,
    worker: Seq<char>,
    error: Option<Seq<char>>,
    at: Clock,
) -> Step<pb::ReportReadyResponse> {
    let t = touched(j, worker, at);
    match error {
        Some(reason) => if j.status != pb::JobStatus::Preparing {
            Step {
                state: StateView { jobs: put(s.jobs, id, t), ..s },
                notices: Seq::empty(),
                result: Ok(unknown_job(at)),
            }
        } else {
            let failed = ended(
                t,
                pb::JobStatus::Failed,
                Some(ready_failure(worker, reason)),
                at,
            );
            Step {
                state: StateView {
                    jobs: put(s.jobs, id, failed),
                    active: released(s.active, keys_of(j.assignments), id),
                    event_seq: next_seq(s.event_seq),
                    ..s
                },
                notices: seq![
                    NoticeView::Event(
                        event_of(failed, pb::EventKind::StatusChange, s.event_seq, at),
                    ),
                    NoticeView::End(id),
                ],
                result: Ok(start_at(0, at)),
            }
        },
        None => {
            let (r, started) = readied(t, worker, delay_ms(s.config.scheduler.start_delay), at);
            Step {
                state: StateView {
                    jobs: put(s.jobs, id, r),
                    event_seq: if started {
                        next_seq(s.event_seq)
                    } else {
                        s.event_seq
                    },
                    ..s
                },
                notices: if started {
                    seq![
                        NoticeView::Event(
                            event_of(r, pb::EventKind::StatusChange, s.event_seq, at),
                        ),
                    ]
                } else {
                    Seq::empty()
                },
                result: Ok(start_at(r.start_at_ms, at)),
            }
        },
    }
}

/// What happens when a worker reports that it is ready, or why it is not.
pub open spec fn ready(
    s: StateView,
    id: Seq<char>,
    worker: Seq<char>,
    error: Option<Seq<char>>,
    at: Clock,
) -> Step<pb::ReportReadyResponse> {
    match lookup(s.jobs, id) {
        None => unchanged(s, unknown_job(at)),
        Some(j) => if j.status == pb::JobStatus::Cancelled {
            unchanged(s, cancelled_job(at))
        } else if is_end(j.status) || !has_key(j.assignments, worker) {
            unchanged(s, unknown_job(at))
        } else {
            worker_ready(s, id, j, worker, error, at)
        },
    }
}

fn unknown(at: &Clock) -> (r: pb::ReportReadyResponse)
    ensures
        r == unknown_job(*at),
{
    pb::ReportReadyResponse {
        cancelled: false,
        unknown_job: true,
        start_at_ms: 0,
        master_now_ms: at.wall_ms,
    }
}

fn delay_of(d: &Duration) -> (r: i64)
    ensures
        r == delay_ms(*d),
{
    let ms: u128 = d.as_millis();
    if ms > i64::MAX as u128 {
        5_000
    } else {
        ms as i64
    }
}

/// Answers a worker that is ready, or failed to get ready.
pub fn report_ready(state: &mut MasterState, req: pb::ReportReadyRequest, at: &Clock) -> (r: Reply<
    pb::ReportReadyResponse,
>)
    ensures
        replies(
            r,
            final(state)@,
            ready(
                old(state)@,
                req.job_id@,
                req.worker_id@,
                crate::views::opt_text(req.error),
                *at,
            ),
        ),
        final(state).subscribers == old(state).subscribers,
{
    let ghost s = state@;
    let ghost id = req.job_id@;
    let ghost worker = req.worker_id@;
    let _ = state.jobs.len();
    let ghost jobs = state.jobs.seq();
    proof {
        lemma_viewed_keys(jobs, id);
    }
    let delay: i64 = delay_of(&state.config.scheduler.start_delay);
    let record = match state.jobs.get_mut(req.job_id.as_str()) {
        Some(record) => record,
        None => {
            return Reply::answer(unknown(at));
        },
    };
    let ghost j = record@;
    let cancelled = record.status == pb::JobStatus::Cancelled;
    if cancelled || record.is_terminal() || !record.worker_assignments.contains_key(
        req.worker_id.as_str(),
    ) {
        let ghost same = *record;
        proof {
            lemma_viewed_put(jobs, id, same);
            lemma_put_same(s.jobs, id);
        }
        if cancelled {
            return Reply::answer(
                pb::ReportReadyResponse {
                    cancelled: true,
                    unknown_job: false,
                    start_at_ms: 0,
                    master_now_ms: at.wall_ms,
                },
            );
        }
        return Reply::answer(unknown(at));
    }
    record.touch(req.worker_id.as_str(), at);
    let mut notices = no_notices();
    if let Some(reason) = &req.error {
        if record.status != pb::JobStatus::Preparing {
            let ghost done = *record;
            proof {
                lemma_viewed_put(jobs, id, done);
            }
            return Reply::answer(unknown(at));
        }
        let mut m = "worker ".to_owned();
        m.push_str(req.worker_id.as_str());
        m.push_str(" reported ready failure: ");
        m.push_str(reason.as_str());
        record.end(pb::JobStatus::Failed, Some(m), at);
        let event = emit_for_job(&mut state.event_seq, record, pb::EventKind::StatusChange, at);
        let workers = record.worker_assignments.keys();
        let ghost done = *record;
        proof {
            lemma_viewed_put(jobs, id, done);
        }
        release(&mut state.worker_active_jobs, &workers, req.job_id.as_str());
        note(&mut notices, event);
        note(&mut notices, Notice::End(req.job_id));
        let r = Reply {
            result: Ok(
                pb::ReportReadyResponse {
                    cancelled: false,
                    unknown_job: false,
                    start_at_ms: 0,
                    master_now_ms: at.wall_ms,
                },
            ),
            notices,
        };
        proof {
            let step = worker_ready(s, id, j, worker, Some(reason@), *at);
            assert(seq_views(r.notices@) =~= step.notices);
            assert(state@ =~= step.state);
        }
        return r;
    }
    let mut started = false;
    if record.status == pb::JobStatus::Preparing || record.status == pb::JobStatus::Pending {
        record.ready_workers.insert(req.worker_id.clone());
        if record.status == pb::JobStatus::Preparing && record.start_at_ms == 0
            && !record.run_workers.is_empty() && record.ready_workers.len()
            == record.run_workers.len() {
            record.start_at_ms = to_nearest(at.wall_ms as i128 + delay as i128);
            record.status = pb::JobStatus::Running;
            started = true;
        }
    }
    let start: i64 = record.start_at_ms;
    if started {
        let event = emit_for_job(&mut state.event_seq, record, pb::EventKind::StatusChange, at);
        note(&mut notices, event);
    }
    let ghost done = *record;
    proof {
        lemma_viewed_put(jobs, id, done);
    }
    let r = Reply {
        result: Ok(
            pb::ReportReadyResponse {
                cancelled: false,
                unknown_job: false,
                start_at_ms: start,
                master_now_ms: at.wall_ms,
            },
        ),
        notices,
    };
    proof {
        let step = worker_ready(s, id, j, worker, None, *at);
        assert(done@ =~= readied(
            touched(j, worker, *at),
            worker,
            delay_ms(s.config.scheduler.start_delay),
            *at,
        ).0);
        assert(seq_views(r.notices@) =~= step.notices);
        assert(state@ =~= step.state);
    }
    r
}

} // verus!
