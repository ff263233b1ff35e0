//! Work for a worker that asks for it.
//!
//! A worker that already has a place in a job that has not ended gets that job
//! again. Any other gets a place in the oldest job that waits for workers;
//! when the last place is taken, the job starts to prepare.

use vstd::prelude::*;

use crate::events::{emit_for_job, event_of, NoticeView};
use crate::id::id_check;
use crate::manifest::{reading_of, start_for_file_queue_job, with_queue};
use crate::pb;
use crate::service::reply::{
    bad_worker_id, no_notices, note, replies_view, require_valid_worker_id, unchanged, Reply, Step,
};
use crate::state::job::{assigned, filled, is_end, preparing, remaining, touched, JobRecord, JobView};
use crate::state::{next_seq, pending, MasterState, StateView};
use crate::strmap::{
    del, has_key, lemma_viewed_del, lemma_viewed_keys, lemma_viewed_put, lookup, put,
};
use crate::time::Clock;
use crate::views::{copy_opt, seq_views, Duplicate};

verus! {

/// A place as a message shows it.
pub open spec fn shown_index(worker_index: u32) -> i32 {
    if worker_index > i32::MAX {
        0
    } else {
        worker_index as i32
    }
}

/// The offer of a place in a job.
pub open spec fn offer_of(j: JobView, job_id: Seq<char>, worker_index: u32, at: Clock) -> pb::FetchJobResponseView {
    pb::FetchJobResponseView {
        job_id: Some(job_id),
        spec: Some(j.spec),
        mount_point: Some(j.mount_point),
        worker_index: Some(shown_index(worker_index)),
        s3_credentials: j.credentials,
        master_now_ms: at.wall_ms,
    }
}

/// No work.
pub open spec fn no_offer(at: Clock) -> pb::FetchJobResponseView {
    pb::FetchJobResponseView {
        job_id: None,
        spec: None,
        mount_point: None,
        worker_index: None,
        s3_credentials: None,
        master_now_ms: at.wall_ms,
    }
}

/// The job that a worker has a place in and that has not ended.
pub open spec fn current_job(s: StateView, worker: Seq<char>) -> Option<(Seq<char>, JobView)> {
    match lookup(s.active, worker) {
        Some(id) => match lookup(s.jobs, id) {
            Some(j) => if !is_end(j.status) && has_key(j.assignments, worker) {
                Some((id, j))
            } else {
                None
            },
            None => None,
        },
        None => None,
    }
}

/// A worker gets the next place in the waiting job `j`, which starts to
/// prepare if that was the last.
pub open spec fn place(s: StateView, id: Seq<char>, j: JobView, worker: Seq<char>, at: Clock) -> Step<
    pb::FetchJobResponseView,
> {
    let taken = assigned(j, worker, at);
    let active = put(s.active, worker, id);
    let offer = offer_of(taken, id, filled(j), at);
    if remaining(taken) > 0 {
        Step {
            state: StateView { jobs: put(s.jobs, id, taken), active, ..s },
            notices: Seq::empty(),
            result: Ok(offer),
        }
    } else {
        let full = preparing(taken, at);
        let ready = with_queue(full, s.config.scheduler.file_queue_capacity);
        let event = NoticeView::Event(
            event_of(ready, pb::EventKind::StatusChange, s.event_seq, at),
        );
        Step {
            state: StateView {
                jobs: put(s.jobs, id, ready),
                active,
                pending: s.pending.drop_first(),
                event_seq: next_seq(s.event_seq),
                ..s
            },
            notices: match reading_of(full) {
                Some(n) => seq![n, event],
                None => seq![event],
            },
            result: Ok(offer),
        }
    }
}

/// A worker gets a place in the first job in the queue that waits for workers.
/// What stands before it does not wait any more and leaves the queue.
pub open spec fn assign(s: StateView, worker: Seq<char>, at: Clock) -> Step<
    pb::FetchJobResponseView,
>
    decreases s.pending.len(),
{
    if s.pending.len() == 0 {
        unchanged(s, no_offer(at))
    } else {
        let id = s.pending[0];
        let shorter = StateView { pending: s.pending.drop_first(), ..s };
        match lookup(s.jobs, id) {
            None => assign(shorter, worker, at),
            Some(j) => if j.status != pb::JobStatus::Pending {
                assign(shorter, worker, at)
            } else if remaining(j) == 0 {
                assign(
                    StateView { jobs: put(s.jobs, id, preparing(j, at)), ..shorter },
                    worker,
                    at,
                )
            } else {
                place(s, id, j, worker, at)
            },
        }
    }
}

/// What happens when a worker asks for work.
pub open spec fn fetch(s: StateView, worker: Seq<char>, at: Clock) -> Step<
    pb::FetchJobResponseView,
> {
    match id_check(worker) {
        Err(e) => Step { state: s, notices: Seq::empty(), result: Err(bad_worker_id(e)) },
        Ok(_) => match current_job(s, worker) {
            Some((id, j)) => Step {
                state: StateView { jobs: put(s.jobs, id, touched(j, worker, at)), ..s },
                notices: Seq::empty(),
                result: Ok(
                    offer_of(j, id, lookup(j.assignments, worker)->Some_0.worker_index, at),
                ),
            },
            None => assign(StateView { active: del(s.active, worker), ..s }, worker, at),
        },
    }
}

fn show_index(worker_index: u32) -> (r: i32)
    ensures
        r == shown_index(worker_index),
{
    if worker_index > i32::MAX as u32 {
        0
    } else {
        worker_index as i32
    }
}

fn offer(record: &JobRecord, job_id: &str, worker_index: u32, at: &Clock) -> (r: pb::FetchJobResponse)
    ensures
        r@ == offer_of(record@, job_id@, worker_index, *at),
{
    pb::FetchJobResponse {
        job_id: Some(job_id.to_owned()),
        spec: Some(record.spec_redacted.copy()),
        mount_point: Some(record.mount_point.clone()),
        worker_index: Some(show_index(worker_index)),
        s3_credentials: copy_opt(&record.credentials),
        master_now_ms: at.wall_ms,
    }
}

fn nothing(at: &Clock) -> (r: pb::FetchJobResponse)
    ensures
        r@ == no_offer(*at),
{
    pb::FetchJobResponse {
        job_id: None,
        spec: None,
        mount_point: None,
        worker_index: None,
        s3_credentials: None,
        master_now_ms: at.wall_ms,
    }
}

/// Gives a worker the job that it has a place in, where there is one that has
/// not ended.
fn replay(state: &mut MasterState, worker_id: &str, at: &Clock) -> (r: Option<pb::FetchJobResponse>)
    ensures
        final(state).subscribers == old(state).subscribers,
        match current_job(old(state)@, worker_id@) {
            Some((id, j)) => {
                &&& r matches Some(x) && x@ == offer_of(
                    j,
                    id,
                    lookup(j.assignments, worker_id@)->Some_0.worker_index,
                    *at,
                )
                &&& final(state)@ == (StateView {
                    jobs: put(old(state)@.jobs, id, touched(j, worker_id@, *at)),
                    ..old(state)@
                })
            },
            None => r is None && final(state)@ == (StateView {
                active: del(old(state)@.active, worker_id@),
                ..old(state)@
            }),
        },
{
    let ghost s = state@;
    let _ = state.worker_active_jobs.len();
    let _ = state.jobs.len();
    let ghost active = state.worker_active_jobs.seq();
    let ghost jobs = state.jobs.seq();
    proof {
        lemma_viewed_keys(active, worker_id@);
        lemma_viewed_del(active, worker_id@);
    }
    let found = match state.worker_active_jobs.get(worker_id) {
        Some(id) => Some(id.clone()),
        None => None,
    };
    if let Some(id) = found {
        proof {
            lemma_viewed_keys(jobs, id@);
        }
        if let Some(record) = state.jobs.get_mut(id.as_str()) {
            if !record.is_terminal() {
                let place = match record.worker_assignments.get(worker_id) {
                    Some(a) => Some(*a),
                    None => None,
                };
                if let Some(a) = place {
                    let answer = offer(record, id.as_str(), a.worker_index, at);
                    record.touch(worker_id, at);
                    let ghost done = *record;
                    proof {
                        lemma_viewed_put(jobs, id@, done);
                    }
                    assert(state@.jobs == put(s.jobs, id@, done@));
                    return Some(answer);
                }
            }
            let ghost same = *record;
            proof {
                lemma_viewed_put(jobs, id@, same);
                crate::strmap::lemma_put_same(s.jobs, id@);
            }
            assert(state@.jobs == s.jobs);
        }
        let _ = state.worker_active_jobs.remove(worker_id);
    }
    None
}

/// Answers a worker that asks for work.
pub fn fetch_job(state: &mut MasterState, req: pb::FetchJobRequest, at: &Clock) -> (r: Reply<
    pb::FetchJobResponse,
>)
    ensures
        replies_view(r, final(state)@, fetch(old(state)@, req.worker_id@, *at)),
        final(state).subscribers == old(state).subscribers,
{
    let worker = req.worker_id;
    if let Err(e) = require_valid_worker_id(worker.as_str()) {
        return Reply::refuse(e);
    }
    if let Some(answer) = replay(state, worker.as_str(), at) {
        return Reply::answer(answer);
    }
    let ghost start = state@;
    let ghost subs = state.subscribers;
    loop
        invariant
            assign(state@, worker@, *at) == assign(start, worker@, *at),
            state.subscribers == subs,
            fetch(old(state)@, worker@, *at) == assign(start, worker@, *at),
            subs == old(state).subscribers,
            worker@ == req.worker_id@,
        decreases state@.pending.len(),
    {
        let ghost s = state@;
        let top = match pending::peek_front(&state.pending_queue) {
            Some(id) => id.clone(),
            None => {
                return Reply::answer(nothing(at));
            },
        };
        let _ = state.jobs.len();
        let ghost jobs = state.jobs.seq();
        proof {
            lemma_viewed_keys(jobs, top@);
        }
        match state.jobs.get_mut(top.as_str()) {
            None => {
                pending::pop_if_front(&mut state.pending_queue, top.as_str());
            },
            Some(record) => {
                let ghost j = record@;
                if record.status != pb::JobStatus::Pending {
                    let ghost same = *record;
                    pending::pop_if_front(&mut state.pending_queue, top.as_str());
                    proof {
                        lemma_viewed_put(jobs, top@, same);
                        crate::strmap::lemma_put_same(s.jobs, top@);
                    }
                } else {
                    match record.try_assign(worker.as_str(), at) {
                        None => {
                            record.enter_preparing(at);
                            let ghost done = *record;
                            pending::pop_if_front(&mut state.pending_queue, top.as_str());
                            proof {
                                lemma_viewed_put(jobs, top@, done);
                            }
                        },
                        Some(a) => {
                            let answer = offer(record, top.as_str(), a.worker_index, at);
                            let mut notices = no_notices();
                            if record.slots_remaining() == 0 {
                                record.enter_preparing(at);
                                let started = start_for_file_queue_job(
                                    record,
                                    state.config.scheduler.file_queue_capacity,
                                );
                                if let Some(n) = started {
                                    note(&mut notices, n);
                                }
                                let event = emit_for_job(
                                    &mut state.event_seq,
                                    record,
                                    pb::EventKind::StatusChange,
                                    at,
                                );
                                note(&mut notices, event);
                                pending::pop_if_front(&mut state.pending_queue, top.as_str());
                            }
                            let ghost done = *record;
                            let _ = state.worker_active_jobs.len();
                            proof {
                                lemma_viewed_put(jobs, top@, done);
                                lemma_viewed_put(state.worker_active_jobs.seq(), worker@, top);
                            }
                            state.worker_active_jobs.insert(worker, top);
                            let r = Reply { result: Ok(answer), notices };
                            assert(seq_views(r.notices@) =~= place(s, top@, j, worker@, *at).notices);
                            assert(state@ =~= place(s, top@, j, worker@, *at).state);
                            return r;
                        },
                    }
                }
            },
        }
    }
}

} // verus!
