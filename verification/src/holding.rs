//! How a worker keeps the place that it was given.
//!
//! Whatever else is asked of the master, a worker that has a place in a job
//! keeps it until the job ends, and asking for work again gives that place.
use vstd::prelude::*;

use crate::gc::{cutoff, law_only_expired_jobs_are_forgotten};
use crate::id::id_check;
use crate::lifecycle::{
    after, fresh, law_jobs_only_move_on, law_state_stays_valid, lemma_fetch_valid, lemma_found,
    lemma_given_is_current, lemma_job_ok, lemma_others_stay, lemma_released, lemma_sweep_valid,
    queued_if_waiting, stage, valid, Action,
};
use crate::manifest::queue::{batch_len, QueueView};
use crate::manifest::with_queue;
use crate::pb;
use crate::scheduler::fetch_job::{assign, current_job, fetch};
use crate::scheduler::ready::{delay_ms, readied, ready_failure};
use crate::scheduler::staleness::{sweep, swept_state};
use crate::service::cli_rpc::stored_spec;
use crate::service::worker_rpc::{batch_size, kept_progress, take_result, with_result};
use crate::spec::redact::secrets_of;
use crate::state::job::{
    assigned, ended, filled, is_end, new_job, preparing, remaining, touched, JobView,
    WorkerAssignment,
};
use crate::state::StateView;
use crate::strmap::{
    del, has_key, keys_distinct, keys_of, lemma_del_facts, lemma_entry, lemma_put_facts, lookup,
    position, put,
};
use crate::time::Clock;

verus! {

/// Whether a worker holds a place in the job `id`, which has not ended; while
/// the job waits for others, it is kept as working on it.
pub open spec fn holds(
    s: StateView,
    id: Seq<char>,
    worker: Seq<char>,
    place: WorkerAssignment,
) -> bool {
    lookup(s.jobs, id) matches Some(j) && !is_end(j.status) && lookup(j.assignments, worker)
        == Some(place) && (stage(j.status) == 0 ==> lookup(s.active, worker) == Some(id))
}

/// Whether a worker hands in a result for the job `id` while that still waits
/// for workers. That gives up its place.
pub open spec fn gives_up(s: StateView, a: Action, id: Seq<char>, worker: Seq<char>) -> bool {
    a matches Action::Result { id: of, result } && of == id && (result matches Some(r)
        && r.worker_id == worker) && (lookup(s.jobs, id) matches Some(j) && stage(j.status) == 0)
}

/// Whether the job `id` has not ended.
pub open spec fn goes_on(s: StateView, id: Seq<char>) -> bool {
    lookup(s.jobs, id) matches Some(j) && !is_end(j.status)
}

/// The state after several actions, each at its time.
pub open spec fn after_all(s: StateView, actions: Seq<(Action, Clock)>) -> StateView
    decreases actions.len(),
{
    if actions.len() == 0 {
        s
    } else {
        let (a, at) = actions.last();
        after(after_all(s, actions.drop_last()), a, at)
    }
}

/// Whether new jobs get new ids throughout, the job `id` does not end, and the
/// worker does not give its place in it up.
pub open spec fn undisturbed(
    s: StateView,
    actions: Seq<(Action, Clock)>,
    id: Seq<char>,
    worker: Seq<char>,
) -> bool
    decreases actions.len(),
{
    if actions.len() == 0 {
        true
    } else {
        let before = after_all(s, actions.drop_last());
        let (a, at) = actions.last();
        &&& undisturbed(s, actions.drop_last(), id, worker)
        &&& fresh(before, a)
        &&& !gives_up(before, a, id, worker)
        &&& goes_on(after(before, a, at), id)
    }
}

/// Where one job changes, those who hold places go on to, if the job keeps
/// their places and they are kept as working on it.
proof fn lemma_put_holds(
    s: StateView,
    t: StateView,
    changed: Seq<char>,
    k: JobView,
    id: Seq<char>,
    worker: Seq<char>,
    place: WorkerAssignment,
)
    requires
        keys_distinct(s.jobs),
        holds(s, id, worker, place),
        t.jobs == put(s.jobs, changed, k),
        changed == id ==> lookup(k.assignments, worker) == Some(place),
        goes_on(t, id),
        stage(lookup(t.jobs, id)->Some_0.status) == 0 ==> stage(
            lookup(s.jobs, id)->Some_0.status,
        ) == 0 && lookup(t.active, worker) == lookup(s.active, worker),
    ensures
        holds(t, id, worker, place),
{
    lemma_put_facts(s.jobs, changed, k);
}

/// A place that is given to another takes nobody's place.
proof fn lemma_assign_holds(
    s: StateView,
    other: Seq<char>,
    at: Clock,
    id: Seq<char>,
    worker: Seq<char>,
    place: WorkerAssignment,
)
    requires
        keys_distinct(s.jobs),
        keys_distinct(s.active),
        forall|o: Seq<char>| #[trigger]
            lookup(s.jobs, o) matches Some(j) ==> keys_distinct(j.assignments),
        holds(s, id, worker, place),
        other != worker,
    ensures
        holds(assign(s, other, at).state, id, worker, place),
    decreases s.pending.len(),
{
    if s.pending.len() > 0 {
        let first = s.pending[0];
        let shorter = StateView { pending: s.pending.drop_first(), ..s };
        match lookup(s.jobs, first) {
            None => {
                lemma_assign_holds(shorter, other, at, id, worker, place);
            },
            Some(j) => if j.status != pb::JobStatus::Pending {
                lemma_assign_holds(shorter, other, at, id, worker, place);
            } else if remaining(j) == 0 {
                let k = preparing(j, at);
                let t = StateView { jobs: put(s.jobs, first, k), ..shorter };
                lemma_put_facts(s.jobs, first, k);
                assert(lookup(s.jobs, first) is Some);
                lemma_put_holds(s, t, first, k, id, worker, place);
                lemma_assign_holds(t, other, at, id, worker, place);
            } else {
                let taken = assigned(j, other, at);
                let full = with_queue(
                    preparing(taken, at),
                    s.config.scheduler.file_queue_capacity,
                );
                let t = assign(s, other, at).state;
                assert(keys_distinct(lookup(s.jobs, first)->Some_0.assignments));
                lemma_put_facts(
                    j.assignments,
                    other,
                    WorkerAssignment { worker_index: filled(j) },
                );
                lemma_put_facts(s.active, other, first);
                lemma_put_facts(s.jobs, first, taken);
                lemma_put_facts(s.jobs, first, full);
                assert(lookup(taken.assignments, worker) == lookup(j.assignments, worker));
                assert(lookup(t.active, worker) == lookup(s.active, worker));
                if remaining(taken) > 0 {
                    lemma_put_holds(s, t, first, taken, id, worker, place);
                } else {
                    lemma_put_holds(s, t, first, full, id, worker, place);
                }
            },
        }
    }
}

proof fn lemma_fetch_holds(
    s: StateView,
    other: Seq<char>,
    at: Clock,
    id: Seq<char>,
    worker: Seq<char>,
    place: WorkerAssignment,
)
    requires
        valid(s),
        holds(s, id, worker, place),
        lookup(s.jobs, id) matches Some(j) && stage(j.status) == 0,
    ensures
        holds(fetch(s, other, at).state, id, worker, place),
{
    let j = lookup(s.jobs, id)->Some_0;
    if id_check(other) is Ok {
        match current_job(s, other) {
            Some((held, own)) => {
                let k = touched(own, other, at);
                lemma_put_facts(s.jobs, held, k);
                lemma_put_holds(s, fetch(s, other, at).state, held, k, id, worker, place);
            },
            None => {
                if other == worker {
                    assert(current_job(s, worker) == Some((id, j)));
                }
                lemma_del_facts(s.active, other);
                let t = StateView { active: del(s.active, other), ..s };
                assert forall|o: Seq<char>| #[trigger] lookup(t.jobs, o) is Some implies keys_distinct(
                    lookup(t.jobs, o)->Some_0.assignments,
                ) by {
                    lemma_job_ok(s, o);
                }
                assert(lookup(t.active, worker) == lookup(s.active, worker));
                lemma_assign_holds(t, other, at, id, worker, place);
            },
        }
    }
}

proof fn lemma_swept_holds(
    s: StateView,
    at: Clock,
    id: Seq<char>,
    worker: Seq<char>,
    place: WorkerAssignment,
)
    requires
        valid(s),
        holds(s, id, worker, place),
        lookup(s.jobs, id) matches Some(j) && stage(j.status) == 0,
    ensures
        holds(swept_state(s, at), id, worker, place),
{
    let t = swept_state(s, at);
    let w = sweep(s.jobs, s.config.scheduler, s.event_seq, at);
    lemma_sweep_valid(s.jobs, s, s.event_seq, at);
    lemma_sweep_idle(s.jobs, s, at);
    lemma_found(s.jobs, id);
    let p = position(s.jobs, id);
    assert(t.jobs[p] == w.jobs[p]);
    assert(t.jobs[p] == s.jobs[p]);
    assert forall|i: int, j: int| 0 <= i < j < t.jobs.len() implies #[trigger] t.jobs[i].0
        != #[trigger] t.jobs[j].0 by {
        assert(w.jobs[i].0 == s.jobs[i].0 && w.jobs[j].0 == s.jobs[j].0);
        assert(s.jobs[i].0 != s.jobs[j].0);
    }
    lemma_entry(t.jobs, p);
    assert forall|f: int| 0 <= f < w.failed.len() implies (#[trigger] w.failed[f]).0 != id by {
        assert(was_busy(s.jobs, w.failed[f].0));
        let i = choose|i: int|
            0 <= i < s.jobs.len() && #[trigger] s.jobs[i].0 == w.failed[f].0 && stage(
                s.jobs[i].1.status,
            ) > 0;
        if w.failed[f].0 == id {
            if i < p {
                assert(s.jobs[i].0 != s.jobs[p].0);
            } else if p < i {
                assert(s.jobs[p].0 != s.jobs[i].0);
            }
        }
    }
    lemma_others_stay(s.active, w.failed, worker, id);
}

/// Whether the job `id` has got its workers.
spec fn was_busy(jobs: Seq<(Seq<char>, JobView)>, id: Seq<char>) -> bool {
    exists|i: int| 0 <= i < jobs.len() && #[trigger] jobs[i].0 == id && stage(jobs[i].1.status) > 0
}

/// A look for lost workers leaves jobs alone that wait for workers.
proof fn lemma_sweep_idle(jobs: Seq<(Seq<char>, JobView)>, s: StateView, at: Clock)
    ensures
        sweep(jobs, s.config.scheduler, s.event_seq, at).jobs.len() == jobs.len(),
        forall|i: int|
            0 <= i < jobs.len() && stage(jobs[i].1.status) == 0 ==> #[trigger] sweep(
                jobs,
                s.config.scheduler,
                s.event_seq,
                at,
            ).jobs[i] == jobs[i],
        ({
            let failed = sweep(jobs, s.config.scheduler, s.event_seq, at).failed;
            forall|f: int| 0 <= f < failed.len() ==> was_busy(jobs, (#[trigger] failed[f]).0)
        }),
    decreases jobs.len(),
{
    if jobs.len() > 0 {
        let cfg = s.config.scheduler;
        let head = jobs.drop_last();
        lemma_sweep_idle(head, s, at);
        let b = sweep(head, cfg, s.event_seq, at);
        let w = sweep(jobs, cfg, s.event_seq, at);
        assert(w.jobs.len() == jobs.len());
        assert forall|i: int|
            0 <= i < jobs.len() && stage(jobs[i].1.status) == 0 implies #[trigger] w.jobs[i]
            == jobs[i] by {
            if i < head.len() {
                assert(head[i] == jobs[i]);
                assert(w.jobs[i] == b.jobs[i]);
            }
        }
        let failed = w.failed;
        assert forall|f: int| 0 <= f < failed.len() implies was_busy(jobs, (#[trigger] failed[f]).0) by {
            if f < b.failed.len() {
                assert(failed[f] == b.failed[f]);
                let i = choose|i: int|
                    0 <= i < head.len() && #[trigger] head[i].0 == b.failed[f].0 && stage(
                        head[i].1.status,
                    ) > 0;
                assert(jobs[i] == head[i]);
                assert(jobs[i].0 == failed[f].0);
            } else {
                assert(jobs[jobs.len() - 1].0 == failed[f].0);
            }
        }
    }
}

proof fn lemma_result_holds(
    s: StateView,
    of: Seq<char>,
    r: pb::WorkerResultView,
    at: Clock,
    id: Seq<char>,
    worker: Seq<char>,
    place: WorkerAssignment,
)
    requires
        valid(s),
        holds(s, id, worker, place),
        lookup(s.jobs, id) matches Some(j) && stage(j.status) == 0,
        !(of == id && r.worker_id == worker),
    ensures
        holds(take_result(s, of, r, at).state, id, worker, place),
{
    let t = take_result(s, of, r, at).state;
    lemma_del_facts(s.active, r.worker_id);
    assert(lookup(t.active, worker) == lookup(s.active, worker));
    if let Some(j) = lookup(s.jobs, of) {
        if j.run_workers.contains(r.worker_id) && (j.status == pb::JobStatus::Running || j.status
            == pb::JobStatus::Cancelled) {
            let k = if has_key(j.results, r.worker_id) {
                touched(j, r.worker_id, at)
            } else {
                with_result(j, r, at).0
            };
            lemma_put_facts(s.jobs, of, k);
            lemma_put_holds(s, t, of, k, id, worker, place);
        }
    }
}

proof fn lemma_ready_holds(
    s: StateView,
    of: Seq<char>,
    other: Seq<char>,
    error: Option<Seq<char>>,
    at: Clock,
    id: Seq<char>,
    worker: Seq<char>,
    place: WorkerAssignment,
)
    requires
        valid(s),
        holds(s, id, worker, place),
        lookup(s.jobs, id) matches Some(j) && stage(j.status) == 0,
    ensures
        holds(after(s, Action::Ready { id: of, worker: other, error }, at), id, worker, place),
{
    let t = after(s, Action::Ready { id: of, worker: other, error }, at);
    if let Some(j) = lookup(s.jobs, of) {
        if id_check(other) is Ok && !is_end(j.status) && has_key(j.assignments, other) {
            let heard = touched(j, other, at);
            match error {
                Some(reason) => if j.status != pb::JobStatus::Preparing {
                    lemma_put_facts(s.jobs, of, heard);
                    lemma_put_holds(s, t, of, heard, id, worker, place);
                } else {
                    let why = Some(ready_failure(other, reason));
                    let k = ended(heard, pb::JobStatus::Failed, why, at);
                    lemma_put_facts(s.jobs, of, k);
                    lemma_released(s.active, keys_of(j.assignments), of);
                    lemma_put_holds(s, t, of, k, id, worker, place);
                },
                None => {
                    let delay = delay_ms(s.config.scheduler.start_delay);
                    let k = readied(heard, other, delay, at).0;
                    lemma_put_facts(s.jobs, of, k);
                    lemma_put_holds(s, t, of, k, id, worker, place);
                },
            }
        }
    }
}

proof fn lemma_files_holds(
    s: StateView,
    of: Seq<char>,
    other: Seq<char>,
    asked: i32,
    at: Clock,
    id: Seq<char>,
    worker: Seq<char>,
    place: WorkerAssignment,
)
    requires
        valid(s),
        holds(s, id, worker, place),
        lookup(s.jobs, id) matches Some(j) && stage(j.status) == 0,
    ensures
        holds(after(s, Action::Files { id: of, worker: other, asked }, at), id, worker, place),
{
    let t = after(s, Action::Files { id: of, worker: other, asked }, at);
    if let Some(j) = lookup(s.jobs, of) {
        lemma_put_facts(s.jobs, of, j);
        if id_check(other) is Ok && j.run_workers.contains(other) {
            let heard = touched(j, other, at);
            if j.status == pb::JobStatus::Cancelled {
                lemma_put_facts(s.jobs, of, heard);
                lemma_put_holds(s, t, of, heard, id, worker, place);
            } else if j.status == pb::JobStatus::Running {
                if let Some(q) = j.file_queue {
                    let n = batch_len(q.items.len(), batch_size(asked));
                    let rest = QueueView { items: q.items.skip(n), ..q };
                    let k = JobView { file_queue: Some(rest), ..heard };
                    lemma_put_facts(s.jobs, of, k);
                    lemma_put_holds(s, t, of, k, id, worker, place);
                }
            }
        }
    }
}

proof fn lemma_progress_holds(
    s: StateView,
    of: Seq<char>,
    report: Option<pb::WorkerProgressView>,
    at: Clock,
    id: Seq<char>,
    worker: Seq<char>,
    place: WorkerAssignment,
)
    requires
        valid(s),
        holds(s, id, worker, place),
        lookup(s.jobs, id) matches Some(j) && stage(j.status) == 0,
    ensures
        holds(after(s, Action::Progress { id: of, report }, at), id, worker, place),
{
    let t = after(s, Action::Progress { id: of, report }, at);
    if let Some(p) = report {
        if let Some(j) = lookup(s.jobs, of) {
            let heard = touched(j, p.worker_id, at);
            if id_check(p.worker_id) is Ok {
                if j.status == pb::JobStatus::Cancelled {
                    lemma_put_facts(s.jobs, of, heard);
                    lemma_put_holds(s, t, of, heard, id, worker, place);
                } else if !is_end(j.status) && has_key(j.assignments, p.worker_id) {
                    let k = JobView {
                        progress: put(j.progress, p.worker_id, kept_progress(p)),
                        ..heard
                    };
                    lemma_put_facts(s.jobs, of, k);
                    lemma_put_holds(s, t, of, k, id, worker, place);
                }
            }
        }
    }
}

proof fn lemma_cancel_holds(
    s: StateView,
    of: Seq<char>,
    at: Clock,
    id: Seq<char>,
    worker: Seq<char>,
    place: WorkerAssignment,
)
    requires
        valid(s),
        holds(s, id, worker, place),
        lookup(s.jobs, id) matches Some(j) && stage(j.status) == 0,
        of != id,
    ensures
        holds(after(s, Action::Cancel { id: of }, at), id, worker, place),
{
    let t = after(s, Action::Cancel { id: of }, at);
    if let Some(j) = lookup(s.jobs, of) {
        if !is_end(j.status) {
            let k = ended(j, pb::JobStatus::Cancelled, j.error, at);
            lemma_put_facts(s.jobs, of, k);
            lemma_released(s.active, keys_of(j.assignments), of);
            lemma_put_holds(s, t, of, k, id, worker, place);
        }
    }
}

proof fn lemma_reading_holds(
    s: StateView,
    of: Seq<char>,
    reason: Seq<char>,
    at: Clock,
    id: Seq<char>,
    worker: Seq<char>,
    place: WorkerAssignment,
)
    requires
        valid(s),
        holds(s, id, worker, place),
        lookup(s.jobs, id) matches Some(j) && stage(j.status) == 0,
        of != id,
    ensures
        holds(after(s, Action::ReadingFailed { id: of, reason }, at), id, worker, place),
{
    let t = after(s, Action::ReadingFailed { id: of, reason }, at);
    if let Some(j) = lookup(s.jobs, of) {
        if !is_end(j.status) {
            let why = Some("manifest reader: "@ + reason);
            let k = ended(j, pb::JobStatus::Failed, why, at);
            lemma_put_facts(s.jobs, of, k);
            lemma_released(s.active, keys_of(j.assignments), of);
            lemma_put_holds(s, t, of, k, id, worker, place);
        }
    }
}

/// A worker that holds a place in a job that waits goes on to, or the job ends.
proof fn lemma_waiting_holds(
    s: StateView,
    a: Action,
    at: Clock,
    id: Seq<char>,
    worker: Seq<char>,
    place: WorkerAssignment,
)
    requires
        valid(s),
        fresh(s, a),
        holds(s, id, worker, place),
        lookup(s.jobs, id) matches Some(j) && stage(j.status) == 0,
        !gives_up(s, a, id, worker),
        goes_on(after(s, a, at), id),
    ensures
        holds(after(s, a, at), id, worker, place),
{
    let t = after(s, a, at);
    match a {
        Action::Create { id: new, spec, typed, probes } => {
            if t != s {
                let mount = lookup(s.config.filesystems, typed.fs_name@)->Some_0;
                let j = new_job(
                    new,
                    stored_spec(spec),
                    secrets_of(spec),
                    mount,
                    typed.target_workers,
                    at.wall_ms,
                );
                lemma_put_facts(s.jobs, new, j);
                lemma_put_holds(s, t, new, j, id, worker, place);
            }
        },
        Action::Cancel { id: of } => {
            if of != id {
                lemma_cancel_holds(s, of, at, id, worker, place);
            } else {
                let j = lookup(s.jobs, id)->Some_0;
                lemma_put_facts(s.jobs, id, ended(j, pb::JobStatus::Cancelled, j.error, at));
            }
        },
        Action::Fetch { worker: other } => {
            lemma_fetch_holds(s, other, at, id, worker, place);
        },
        Action::Ready { id: of, worker: other, error } => {
            lemma_ready_holds(s, of, other, error, at, id, worker, place);
        },
        Action::Files { id: of, worker: other, asked } => {
            lemma_files_holds(s, of, other, asked, at, id, worker, place);
        },
        Action::Progress { id: of, report } => {
            lemma_progress_holds(s, of, report, at, id, worker, place);
        },
        Action::Result { id: of, result } => {
            if let Some(r) = result {
                lemma_result_holds(s, of, r, at, id, worker, place);
            }
        },
        Action::ReadingFailed { id: of, reason } => {
            if of != id {
                lemma_reading_holds(s, of, reason, at, id, worker, place);
            } else {
                let j = lookup(s.jobs, id)->Some_0;
                let why = Some("manifest reader: "@ + reason);
                lemma_put_facts(s.jobs, id, ended(j, pb::JobStatus::Failed, why, at));
            }
        },
        Action::LookForLost => {
            lemma_swept_holds(s, at, id, worker, place);
        },
        Action::Forget => {
            law_only_expired_jobs_are_forgotten(
                s.jobs,
                cutoff(s.config.scheduler.job_retention, at),
                id,
            );
        },
    }
}

/// A worker that holds a place in a job goes on to hold that place, unless the
/// job ends. A worker that hands in a result while the job still waits for
/// others gives its place up.
pub proof fn law_places_are_kept(
    s: StateView,
    a: Action,
    at: Clock,
    id: Seq<char>,
    worker: Seq<char>,
    place: WorkerAssignment,
)
    requires
        valid(s),
        fresh(s, a),
        holds(s, id, worker, place),
        !gives_up(s, a, id, worker),
        goes_on(after(s, a, at), id),
    ensures
        holds(after(s, a, at), id, worker, place),
{
    let j = lookup(s.jobs, id)->Some_0;
    if stage(j.status) == 0 {
        lemma_waiting_holds(s, a, at, id, worker, place);
    } else {
        law_jobs_only_move_on(s, a, at, id);
    }
}

/// What a worker is told of a place does not change while others act.
proof fn lemma_all_hold(
    s: StateView,
    actions: Seq<(Action, Clock)>,
    id: Seq<char>,
    worker: Seq<char>,
    place: WorkerAssignment,
)
    requires
        valid(s),
        holds(s, id, worker, place),
        undisturbed(s, actions, id, worker),
    ensures
        valid(after_all(s, actions)),
        holds(after_all(s, actions), id, worker, place),
        ({
            let j = lookup(s.jobs, id)->Some_0;
            let k = lookup(after_all(s, actions).jobs, id)->Some_0;
            k.spec == j.spec && k.mount_point == j.mount_point && k.credentials == j.credentials
        }),
    decreases actions.len(),
{
    if actions.len() > 0 {
        let before = after_all(s, actions.drop_last());
        let (a, at) = actions.last();
        lemma_all_hold(s, actions.drop_last(), id, worker, place);
        law_state_stays_valid(before, a, at);
        law_places_are_kept(before, a, at, id, worker, place);
        law_jobs_only_move_on(before, a, at, id);
    }
}

/// A worker that asks for work again, whatever others asked of the master
/// meanwhile, is given the same job, the same place and all that goes with it,
/// as long as the job has not ended and the worker is still kept as working on
/// it. No other place is taken: nothing changes but when the job last heard of
/// the worker.
pub proof fn law_fetch_can_be_repeated_later(
    s: StateView,
    worker: Seq<char>,
    at: Clock,
    actions: Seq<(Action, Clock)>,
    later: Clock,
)
    requires
        valid(s),
        fetch(s, worker, at).result matches Ok(o) && (o.job_id matches Some(id) && undisturbed(
            fetch(s, worker, at).state,
            actions,
            id,
            worker,
        ) && lookup(after_all(fetch(s, worker, at).state, actions).active, worker) == Some(id)),
    ensures
        ({
            let one = fetch(s, worker, at);
            let t = after_all(one.state, actions);
            let two = fetch(t, worker, later);
            let first = one.result->Ok_0;
            let id = first.job_id->Some_0;
            let k = lookup(t.jobs, id)->Some_0;
            let l = touched(k, worker, later);
            &&& two.result matches Ok(second) && second == (pb::FetchJobResponseView {
                master_now_ms: later.wall_ms,
                ..first
            })
            &&& two.state == (StateView { jobs: put(t.jobs, id, l), ..t })
            &&& l.status == k.status && l.assignments == k.assignments && filled(l) == filled(k)
            &&& two.notices.len() == 0
        }),
{
    let one = fetch(s, worker, at);
    let first = one.result->Ok_0;
    let id = first.job_id->Some_0;
    lemma_fetch_valid(s, worker, at);
    match current_job(s, worker) {
        Some((own, j)) => {
            lemma_put_facts(s.jobs, own, touched(j, worker, at));
        },
        None => {
            lemma_del_facts(s.active, worker);
            let t = StateView { active: del(s.active, worker), ..s };
            assert(valid(t)) by {
                assert forall|o: Seq<char>| #[trigger] queued_if_waiting(t, o) by {
                    assert(queued_if_waiting(s, o));
                }
            }
            lemma_given_is_current(t, worker, at);
        },
    }
    let (own, j) = current_job(one.state, worker)->Some_0;
    let place = lookup(j.assignments, worker)->Some_0;
    lemma_found(j.assignments, worker);
    assert(holds(one.state, id, worker, place));
    lemma_all_hold(one.state, actions, id, worker, place);
    let k = lookup(after_all(one.state, actions).jobs, id)->Some_0;
    assert(has_key(k.assignments, worker));
}

} // verus!
