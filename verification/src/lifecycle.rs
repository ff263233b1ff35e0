//! The master as one machine: whatever is asked of it, by a client, by a
//! worker or by its own clock, is a step from one state to the next. What holds
//! of all of these steps stands here.

use vstd::prelude::*;

use crate::events::NoticeView;
use crate::gc::{cutoff, retained};
use crate::id::id_check;
use crate::manifest::{failed_reading, with_queue};
use crate::pb;
use crate::scheduler::fetch_job::{assign, current_job, fetch, offer_of, place};
use crate::scheduler::ready::{ready, readied};
use crate::scheduler::release::{freed, released};
use crate::scheduler::staleness::{
    all_released, ends_of, overdue, sweep, swept_notices, swept_state,
};
use crate::service::cli_rpc::{cancel, enqueue, stored_spec, Probe};
use crate::service::worker_rpc::{
    checked, file_batch, progress_request, result_request, take_result, with_result,
};
use crate::spec::redact::redacted_view;
use crate::spec::BenchSpec;
use crate::state::job::{
    assigned, ended, filled, is_end, new_job, preparing, remaining, touched, JobView,
};
use crate::state::{pending, StateView};
use crate::strmap::{
    del, has_key, keys_distinct, keys_of, lemma_del_facts, lemma_entry, lemma_put_facts, lookup,
    position, put,
};
use crate::time::Clock;

verus! {

/// What is asked of the master.
pub enum Action {
    /// A job is to be created under `id` for a specification that is read as
    /// `typed`.
    Create {
        id: Seq<char>,
        spec: pb::BenchSpecView,
        typed: BenchSpec,
        probes: Seq<(Seq<char>, Probe)>,
    },
    Cancel { id: Seq<char> },
    Fetch { worker: Seq<char> },
    Ready { id: Seq<char>, worker: Seq<char>, error: Option<Seq<char>> },
    Files { id: Seq<char>, worker: Seq<char>, asked: i32 },
    Progress { id: Seq<char>, report: Option<pb::WorkerProgressView> },
    Result { id: Seq<char>, result: Option<pb::WorkerResultView> },
    /// The list of a job's files could not be read.
    ReadingFailed { id: Seq<char>, reason: Seq<char> },
    /// A look for lost workers.
    LookForLost,
    /// Jobs that ended long ago are forgotten.
    Forget,
}

/// The state after an action, and what is to be done.
pub open spec fn outcome(s: StateView, a: Action, at: Clock) -> (StateView, Seq<NoticeView>) {
    match a {
        Action::Create { id, spec, typed, probes } => {
            let step = enqueue(s, spec, typed, probes, id, at);
            (step.state, step.notices)
        },
        Action::Cancel { id } => (cancel(s, id, at).state, cancel(s, id, at).notices),
        Action::Fetch { worker } => (fetch(s, worker, at).state, fetch(s, worker, at).notices),
        Action::Ready { id, worker, error } => {
            let step = checked(s, worker, ready(s, id, worker, error, at));
            (step.state, step.notices)
        },
        Action::Files { id, worker, asked } => {
            let step = checked(s, worker, file_batch(s, id, worker, asked, at));
            (step.state, step.notices)
        },
        Action::Progress { id, report } => {
            let step = progress_request(s, id, report, at);
            (step.state, step.notices)
        },
        Action::Result { id, result } => {
            let step = result_request(s, id, result, at);
            (step.state, step.notices)
        },
        Action::ReadingFailed { id, reason } => failed_reading(s, id, reason, at),
        Action::LookForLost => (swept_state(s, at), swept_notices(s, at)),
        Action::Forget => (
            StateView { jobs: retained(s.jobs, cutoff(s.config.scheduler.job_retention, at)), ..s },
            Seq::empty(),
        ),
    }
}

/// The state after an action.
pub open spec fn after(s: StateView, a: Action, at: Clock) -> StateView {
    outcome(s, a, at).0
}

/// What holds of those who take part in a job, at all times: they are those who
/// have a place, once the job prepares, and nobody before; only those who have a
/// place are ready, and all who take part are, once the job runs, and somebody
/// does; only those who take part hand in results, once the job runs; no result
/// of a failure stands while the job goes on or once it is completed; and a
/// completed job has as many results as workers take part, a running one fewer.
pub open spec fn crew_ok(j: JobView) -> bool {
    &&& stage(j.status) == 0 ==> j.run_workers.len() == 0
    &&& j.run_workers.len() == 0 || j.run_workers == keys_of(j.assignments)
    &&& j.ready_workers.finite()
    &&& forall|w: Seq<char>| #[trigger]
        j.ready_workers.contains(w) ==> keys_of(j.assignments).contains(w)
    &&& keys_distinct(j.results)
    &&& forall|w: Seq<char>| #[trigger]
        keys_of(j.results).contains(w) ==> j.run_workers.contains(w)
    &&& has_started(j) ==> forall|w: Seq<char>| #[trigger]
        j.run_workers.contains(w) ==> j.ready_workers.contains(w)
    &&& goes_well(j) ==> forall|i: int|
        0 <= i < j.results.len() ==> (#[trigger] j.results[i]).1.success
    &&& has_started(j) ==> j.run_workers.len() > 0
    &&& !is_end(j.status) && !has_started(j) ==> j.results.len() == 0
    &&& j.status == pb::JobStatus::Running ==> j.results.len() < j.run_workers.len()
    &&& j.status == pb::JobStatus::Completed ==> j.results.len() == j.run_workers.len()
}

/// Whether a job runs or has run to its end.
pub open spec fn has_started(j: JobView) -> bool {
    j.status == pb::JobStatus::Running || j.status == pb::JobStatus::Completed
}

/// Whether a job goes on or is completed.
pub open spec fn goes_well(j: JobView) -> bool {
    !is_end(j.status) || j.status == pb::JobStatus::Completed
}

/// What holds of a job at all times: no more places are taken than it has, each
/// by another worker; its specification holds no secret; each worker's progress
/// is held once; no time is set for its start before it runs; and once it has ended,
/// its results are put together, whoever reads its list is told to stop, and its
/// queue is closed.
pub open spec fn job_ok(j: JobView) -> bool {
    &&& keys_distinct(j.assignments)
    &&& j.assignments.len() <= j.target_workers
    &&& redacted_view(j.spec) == j.spec
    &&& keys_distinct(j.progress)
    &&& !is_end(j.status) && !has_started(j) ==> j.start_at_ms == 0
    &&& crew_ok(j)
    &&& is_end(j.status) ==> {
        &&& j.aggregated is Some
        &&& j.terminal_at_ms is Some
        &&& j.cancel_flag
        &&& j.file_queue matches Some(q) ==> q.closed
    }
}

/// What holds of all jobs at all times.
pub open spec fn jobs_ok(jobs: Seq<(Seq<char>, JobView)>) -> bool {
    forall|i: int| 0 <= i < jobs.len() ==> job_ok((#[trigger] jobs[i]).1)
}

/// Whether a job stands in the queue if it waits for workers.
pub open spec fn queued_if_waiting(s: StateView, id: Seq<char>) -> bool {
    lookup(s.jobs, id) matches Some(j) ==> j.status == pb::JobStatus::Pending
        ==> s.pending.contains(id)
}

/// Whether every job that waits for workers stands in the queue.
pub open spec fn waiting_queued(s: StateView) -> bool {
    forall|id: Seq<char>| #[trigger] queued_if_waiting(s, id)
}

/// What holds of the state at all times.
pub open spec fn valid(s: StateView) -> bool {
    &&& keys_distinct(s.jobs)
    &&& keys_distinct(s.active)
    &&& jobs_ok(s.jobs)
    &&& waiting_queued(s)
}

/// Whether the id of a job that is to be created is not in use.
pub open spec fn fresh(s: StateView, a: Action) -> bool {
    a matches Action::Create { id, .. } ==> !has_key(s.jobs, id)
}

/// Whether an action is refused with an error.
pub open spec fn is_refused(s: StateView, a: Action, at: Clock) -> bool {
    match a {
        Action::Create { id, spec, typed, probes } => enqueue(
            s,
            spec,
            typed,
            probes,
            id,
            at,
        ).result is Err,
        Action::Cancel { id } => cancel(s, id, at).result is Err,
        Action::Fetch { worker } => fetch(s, worker, at).result is Err,
        Action::Ready { id, worker, error } => checked(
            s,
            worker,
            ready(s, id, worker, error, at),
        ).result is Err,
        Action::Files { id, worker, asked } => checked(
            s,
            worker,
            file_batch(s, id, worker, asked, at),
        ).result is Err,
        Action::Progress { id, report } => progress_request(s, id, report, at).result is Err,
        Action::Result { id, result } => result_request(s, id, result, at).result is Err,
        Action::ReadingFailed { .. } | Action::LookForLost | Action::Forget => false,
    }
}

/// A worker that asks for work is always answered.
proof fn lemma_assign_answers(s: StateView, worker: Seq<char>, at: Clock)
    ensures
        assign(s, worker, at).result is Ok,
    decreases s.pending.len(),
{
    if s.pending.len() > 0 {
        let id = s.pending[0];
        let shorter = StateView { pending: s.pending.drop_first(), ..s };
        lemma_assign_answers(shorter, worker, at);
        if let Some(j) = lookup(s.jobs, id) {
            lemma_assign_answers(
                StateView { jobs: put(s.jobs, id, preparing(j, at)), ..shorter },
                worker,
                at,
            );
        }
    }
}

/// A request that is refused changes nothing, and nobody is told of it.
pub proof fn law_refused_requests_change_nothing(s: StateView, a: Action, at: Clock)
    requires
        is_refused(s, a, at),
    ensures
        outcome(s, a, at) == (s, Seq::<NoticeView>::empty()),
{
    if let Action::Fetch { worker } = a {
        lemma_assign_answers(StateView { active: del(s.active, worker), ..s }, worker, at);
    }
}

/// A request with an id that no worker can have is refused.
pub proof fn law_bad_worker_ids_are_refused(s: StateView, worker: Seq<char>, at: Clock)
    requires
        id_check(worker) is Err,
    ensures
        is_refused(s, Action::Fetch { worker }, at),
        forall|id: Seq<char>, error: Option<Seq<char>>| #[trigger]
            is_refused(s, Action::Ready { id, worker, error }, at),
        forall|id: Seq<char>, asked: i32| #[trigger]
            is_refused(s, Action::Files { id, worker, asked }, at),
        forall|id: Seq<char>, p: pb::WorkerProgressView|
            p.worker_id == worker ==> #[trigger] is_refused(
                s,
                Action::Progress { id, report: Some(p) },
                at,
            ),
        forall|id: Seq<char>, r: pb::WorkerResultView|
            r.worker_id == worker ==> #[trigger] is_refused(
                s,
                Action::Result { id, result: Some(r) },
                at,
            ),
{
}

/// A master without jobs is in a valid state.
pub proof fn law_first_state_is_valid(s: StateView)
    requires
        s.jobs == Seq::<(Seq<char>, JobView)>::empty(),
        s.active == Seq::<(Seq<char>, Seq<char>)>::empty(),
    ensures
        valid(s),
{
}

pub(crate) proof fn lemma_found<V>(s: Seq<(Seq<char>, V)>, k: Seq<char>)
    requires
        has_key(s, k),
    ensures
        0 <= position(s, k) < s.len(),
        s[position(s, k)].0 == k,
        lookup(s, k) == Some(s[position(s, k)].1),
{
    let i = choose|i: int| 0 <= i < s.len() && #[trigger] s[i].0 == k;
    assert(0 <= i < s.len() && s[i].0 == k);
}

/// A job that is found is one of the jobs.
pub(crate) proof fn lemma_job_ok(s: StateView, id: Seq<char>)
    requires
        jobs_ok(s.jobs),
        has_key(s.jobs, id),
    ensures
        job_ok(lookup(s.jobs, id)->Some_0),
{
    lemma_found(s.jobs, id);
    let p = position(s.jobs, id);
    assert(job_ok(s.jobs[p].1));
}

/// Putting a job that is as it should be keeps all as it should be, where it is
/// queued if it waits.
proof fn lemma_put_job(s: StateView, t: StateView, id: Seq<char>, j: JobView)
    requires
        valid(s),
        job_ok(j),
        t.jobs == put(s.jobs, id, j),
        keys_distinct(t.active),
        forall|o: Seq<char>| o != id && s.pending.contains(o) ==> #[trigger] t.pending.contains(o),
        j.status == pb::JobStatus::Pending ==> t.pending.contains(id),
    ensures
        valid(t),
{
    lemma_put_facts(s.jobs, id, j);
    assert forall|i: int| 0 <= i < t.jobs.len() implies job_ok((#[trigger] t.jobs[i]).1) by {
        if t.jobs[i] != (id, j) {
            assert(t.jobs[i] == s.jobs[i]);
        }
    }
    assert forall|o: Seq<char>| #[trigger] queued_if_waiting(t, o) by {
        if o != id {
            assert(queued_if_waiting(s, o));
        }
    }
}

/// Freed workers leave no trace behind.
pub(crate) proof fn lemma_released(active: Seq<(Seq<char>, Seq<char>)>, workers: Seq<Seq<char>>, id: Seq<char>)
    requires
        keys_distinct(active),
    ensures
        keys_distinct(released(active, workers, id)),
        forall|w: Seq<char>| #[trigger]
            lookup(released(active, workers, id), w) == lookup(active, w) || (lookup(active, w)
                == Some(id) && lookup(released(active, workers, id), w) is None),
        forall|w: Seq<char>|
            workers.contains(w) ==> #[trigger] lookup(released(active, workers, id), w) != Some(id),
    decreases workers.len(),
{
    if workers.len() > 0 {
        let before = released(active, workers.drop_last(), id);
        lemma_released(active, workers.drop_last(), id);
        lemma_del_facts(before, workers.last());
        assert forall|w: Seq<char>| workers.contains(w) implies #[trigger] lookup(
            released(active, workers, id),
            w,
        ) != Some(id) by {
            if w != workers.last() {
                let k = choose|k: int| 0 <= k < workers.len() && workers[k] == w;
                assert(workers.drop_last()[k] == w);
            }
        }
    }
}

proof fn lemma_all_released(
    active: Seq<(Seq<char>, Seq<char>)>,
    failed: Seq<(Seq<char>, Seq<Seq<char>>)>,
)
    requires
        keys_distinct(active),
    ensures
        keys_distinct(all_released(active, failed)),
    decreases failed.len(),
{
    if failed.len() > 0 {
        lemma_all_released(active, failed.drop_last());
        lemma_released(
            all_released(active, failed.drop_last()),
            failed.last().1,
            failed.last().0,
        );
    }
}

/// Whoever is found in a map is one of its keys.
pub(crate) proof fn lemma_key<V>(s: Seq<(Seq<char>, V)>, k: Seq<char>)
    ensures
        keys_of(s).contains(k) <==> has_key(s, k),
{
    if keys_of(s).contains(k) {
        let i = choose|i: int| 0 <= i < keys_of(s).len() && keys_of(s)[i] == k;
        assert(s[i].0 == k);
    }
    if has_key(s, k) {
        lemma_found(s, k);
        assert(keys_of(s)[position(s, k)] == k);
    }
}

/// A map that something is put into has one key more, or as many.
proof fn lemma_put_keys<V>(s: Seq<(Seq<char>, V)>, k: Seq<char>, v: V)
    requires
        keys_distinct(s),
    ensures
        forall|w: Seq<char>| #[trigger]
            keys_of(put(s, k, v)).contains(w) <==> keys_of(s).contains(w) || w == k,
{
    lemma_put_facts(s, k, v);
    assert forall|w: Seq<char>| #[trigger]
        keys_of(put(s, k, v)).contains(w) <==> keys_of(s).contains(w) || w == k by {
        lemma_key(s, w);
        lemma_key(put(s, k, v), w);
    }
}

proof fn lemma_assigned_ok(j: JobView, worker: Seq<char>, at: Clock)
    requires
        job_ok(j),
        remaining(j) > 0,
        j.status == pb::JobStatus::Pending,
    ensures
        job_ok(assigned(j, worker, at)),
        job_ok(preparing(assigned(j, worker, at), at)),
{
    let v = crate::state::job::WorkerAssignment { worker_index: filled(j) };
    lemma_put_facts(j.assignments, worker, v);
    lemma_put_keys(j.assignments, worker, v);
}

/// As many as take part, and only such as take part, are all who take part.
proof fn lemma_as_many(ready: Set<Seq<char>>, crew: Seq<Seq<char>>)
    requires
        ready.finite(),
        crew.no_duplicates(),
        forall|w: Seq<char>| #[trigger] ready.contains(w) ==> crew.contains(w),
        ready.len() == crew.len(),
    ensures
        forall|w: Seq<char>| #[trigger] crew.contains(w) ==> ready.contains(w),
{
    let all = crew.to_set();
    crew.unique_seq_to_set();
    vstd::seq_lib::seq_to_set_is_finite(crew);
    assert(ready.subset_of(all));
    vstd::set_lib::lemma_subset_equality(ready, all);
    assert forall|w: Seq<char>| #[trigger] crew.contains(w) implies ready.contains(w) by {
        assert(all.contains(w));
    }
}

pub(crate) proof fn lemma_keys_unique<V>(s: Seq<(Seq<char>, V)>)
    requires
        keys_distinct(s),
    ensures
        keys_of(s).no_duplicates(),
{
    let keys = keys_of(s);
    assert forall|i: int, j: int| 0 <= i < j < keys.len() implies keys[i] != keys[j] by {
        assert(s[i].0 != s[j].0);
    }
}

proof fn lemma_readied_ok(j: JobView, worker: Seq<char>, delay: i64, at: Clock)
    requires
        job_ok(j),
        has_key(j.assignments, worker),
    ensures
        job_ok(readied(j, worker, delay, at).0),
{
    let k = readied(j, worker, delay, at).0;
    lemma_key(j.assignments, worker);
    lemma_keys_unique(j.assignments);
    if k.status != j.status {
        lemma_as_many(k.ready_workers, k.run_workers);
    }
}

proof fn lemma_with_result_ok(j: JobView, r: pb::WorkerResultView, at: Clock)
    requires
        job_ok(j),
        j.run_workers.contains(r.worker_id),
        j.status == pb::JobStatus::Running || j.status == pb::JobStatus::Cancelled,
        !has_key(j.results, r.worker_id),
    ensures
        job_ok(with_result(j, r, at).0),
{
    let results = put(j.results, r.worker_id, r);
    lemma_put_facts(j.results, r.worker_id, r);
    lemma_put_keys(j.results, r.worker_id, r);
    assert forall|i: int|
        0 <= i < results.len() && r.success && goes_well(j) implies (#[trigger]
    results[i]).1.success by {
        if results[i] != (r.worker_id, r) {
            assert(results[i] == j.results[i]);
        }
    }
}

proof fn lemma_place_valid(s: StateView, id: Seq<char>, worker: Seq<char>, at: Clock)
    requires
        valid(s),
        s.pending.len() > 0,
        s.pending[0] == id,
        lookup(s.jobs, id) matches Some(j) && j.status == pb::JobStatus::Pending && remaining(j)
            > 0,
    ensures
        valid(place(s, id, lookup(s.jobs, id)->Some_0, worker, at).state),
{
    let j = lookup(s.jobs, id)->Some_0;
    let step = place(s, id, j, worker, at);
    lemma_job_ok(s, id);
    lemma_assigned_ok(j, worker, at);
    lemma_put_facts(s.active, worker, id);
    let taken = assigned(j, worker, at);
    assert(s.pending.contains(id));
    if remaining(taken) > 0 {
        lemma_put_job(s, step.state, id, taken);
    } else {
        let full = preparing(taken, at);
        let ready = with_queue(full, s.config.scheduler.file_queue_capacity);
        lemma_shorter(s.pending, id);
        lemma_put_job(s, step.state, id, ready);
    }
}

/// Without its first entry a queue still holds the others.
proof fn lemma_shorter(q: Seq<Seq<char>>, id: Seq<char>)
    requires
        q.len() > 0,
        q[0] == id,
    ensures
        forall|o: Seq<char>| o != id && q.contains(o) ==> #[trigger] q.drop_first().contains(o),
{
    assert forall|o: Seq<char>| o != id && q.contains(o) implies #[trigger] q.drop_first().contains(
        o,
    ) by {
        let k = choose|k: int| 0 <= k < q.len() && q[k] == o;
        assert(q.drop_first()[k - 1] == o);
    }
}

proof fn lemma_assign_valid(s: StateView, worker: Seq<char>, at: Clock)
    requires
        valid(s),
    ensures
        valid(assign(s, worker, at).state),
    decreases s.pending.len(),
{
    if s.pending.len() > 0 {
        let id = s.pending[0];
        let shorter = StateView { pending: s.pending.drop_first(), ..s };
        lemma_shorter(s.pending, id);
        match lookup(s.jobs, id) {
            None => {
                lemma_shorter_valid(s);
                lemma_assign_valid(shorter, worker, at);
            },
            Some(j) => {
                lemma_job_ok(s, id);
                if j.status != pb::JobStatus::Pending {
                    lemma_shorter_valid(s);
                    lemma_assign_valid(shorter, worker, at);
                } else if remaining(j) == 0 {
                    let t = StateView { jobs: put(s.jobs, id, preparing(j, at)), ..shorter };
                    lemma_put_job(s, t, id, preparing(j, at));
                    lemma_assign_valid(t, worker, at);
                } else {
                    lemma_place_valid(s, id, worker, at);
                }
            },
        }
    }
}

pub(crate) proof fn lemma_fetch_valid(s: StateView, worker: Seq<char>, at: Clock)
    requires
        valid(s),
    ensures
        valid(fetch(s, worker, at).state),
{
    if id_check(worker) is Ok {
        match current_job(s, worker) {
            Some((id, j)) => {
                lemma_job_ok(s, id);
                assert(queued_if_waiting(s, id));
                lemma_put_job(s, fetch(s, worker, at).state, id, touched(j, worker, at));
            },
            None => {
                lemma_del_facts(s.active, worker);
                let t = StateView { active: del(s.active, worker), ..s };
                assert forall|o: Seq<char>| #[trigger] queued_if_waiting(t, o) by {
                    assert(queued_if_waiting(s, o));
                }
                lemma_assign_valid(t, worker, at);
            },
        }
    }
}

/// A job that ends is as a job that has ended should be.
proof fn lemma_ended_ok(j: JobView, status: pb::JobStatus, error: Option<Seq<char>>, at: Clock)
    requires
        job_ok(j),
        status == pb::JobStatus::Failed || status == pb::JobStatus::Cancelled,
    ensures
        job_ok(ended(j, status, error, at)),
        ended(j, status, error, at).status == status,
{
}

/// How far a job has got: it waits, prepares, runs, or has ended.
pub open spec fn stage(status: pb::JobStatus) -> int {
    match status {
        pb::JobStatus::Unspecified => 0,
        pb::JobStatus::Pending => 0,
        pb::JobStatus::Preparing => 1,
        pb::JobStatus::Running => 2,
        _ => 3,
    }
}

/// Whether `a` is how a list of names begins that is `b`.
pub open spec fn begins(a: Seq<Seq<char>>, b: Seq<Seq<char>>) -> bool {
    a.len() <= b.len() && b.take(a.len() as int) == a
}

/// Whether a job may become another: what was asked for and what workers are
/// given with it stays, it never goes back, the time of its start is set once, nobody who has a place loses it, no
/// place is given away once it prepares, and once it has ended its end, its
/// error and its results stay.
pub open spec fn may_become(j: JobView, k: JobView) -> bool {
    &&& k.job_id == j.job_id
    &&& k.spec == j.spec
    &&& k.mount_point == j.mount_point
    &&& k.credentials == j.credentials
    &&& k.target_workers == j.target_workers
    &&& k.created_at_ms == j.created_at_ms
    &&& stage(j.status) <= stage(k.status)
    &&& k.start_at_ms == j.start_at_ms || (stage(j.status) < 2 && j.start_at_ms == 0 && stage(
        k.status,
    ) >= 2)
    &&& begins(keys_of(j.assignments), keys_of(k.assignments))
    &&& stage(j.status) > 0 ==> k.assignments == j.assignments
    &&& is_end(j.status) ==> {
        &&& k.status == j.status
        &&& k.error == j.error
        &&& k.results == j.results
        &&& k.aggregated == j.aggregated
        &&& k.terminal_at_ms == j.terminal_at_ms
    }
}

/// Whether a job, where there is one, is still there and has become what it may
/// become.
pub open spec fn moves(
    before: Seq<(Seq<char>, JobView)>,
    after: Seq<(Seq<char>, JobView)>,
    id: Seq<char>,
) -> bool {
    lookup(before, id) matches Some(j) ==> (lookup(after, id) matches Some(k) && may_become(j, k))
}

/// Whether each of the jobs is still there and has become what it may become.
pub open spec fn move_on(
    before: Seq<(Seq<char>, JobView)>,
    after: Seq<(Seq<char>, JobView)>,
) -> bool {
    forall|id: Seq<char>| #[trigger] moves(before, after, id)
}

proof fn lemma_same(j: JobView)
    ensures
        may_become(j, j),
{
    assert(keys_of(j.assignments).take(j.assignments.len() as int) =~= keys_of(j.assignments));
}

proof fn lemma_transitive(j: JobView, k: JobView, l: JobView)
    requires
        may_become(j, k),
        may_become(k, l),
    ensures
        may_become(j, l),
{
    let a = keys_of(j.assignments);
    let b = keys_of(k.assignments);
    let c = keys_of(l.assignments);
    assert(c.take(a.len() as int) =~= b.take(a.len() as int)) by {
        assert forall|i: int| 0 <= i < a.len() implies c[i] == b[i] by {
            assert(c.take(b.len() as int)[i] == b[i]);
        }
    }
}

proof fn lemma_nothing_moves(jobs: Seq<(Seq<char>, JobView)>)
    ensures
        move_on(jobs, jobs),
{
    assert forall|id: Seq<char>| #[trigger] moves(jobs, jobs, id) by {
        if lookup(jobs, id) is Some {
            lemma_same(lookup(jobs, id)->Some_0);
        }
    }
}

proof fn lemma_moves_join(
    a: Seq<(Seq<char>, JobView)>,
    b: Seq<(Seq<char>, JobView)>,
    c: Seq<(Seq<char>, JobView)>,
)
    requires
        move_on(a, b),
        move_on(b, c),
    ensures
        move_on(a, c),
{
    assert forall|id: Seq<char>| #[trigger] moves(a, c, id) by {
        assert(moves(a, b, id));
        assert(moves(b, c, id));
        if lookup(a, id) is Some {
            lemma_transitive(
                lookup(a, id)->Some_0,
                lookup(b, id)->Some_0,
                lookup(c, id)->Some_0,
            );
        }
    }
}

/// Where one job becomes what it may become, all do.
proof fn lemma_one_moves(jobs: Seq<(Seq<char>, JobView)>, id: Seq<char>, k: JobView)
    requires
        keys_distinct(jobs),
        lookup(jobs, id) matches Some(j) ==> may_become(j, k),
    ensures
        move_on(jobs, put(jobs, id, k)),
{
    lemma_put_facts(jobs, id, k);
    assert forall|o: Seq<char>| #[trigger] moves(jobs, put(jobs, id, k), o) by {
        if o != id && lookup(jobs, o) is Some {
            lemma_same(lookup(jobs, o)->Some_0);
        }
    }
}

proof fn lemma_touched_moves(j: JobView, worker: Seq<char>, at: Clock)
    ensures
        may_become(j, touched(j, worker, at)),
{
    lemma_same(j);
}

proof fn lemma_assigned_moves(j: JobView, worker: Seq<char>, at: Clock, capacity: usize)
    requires
        job_ok(j),
        j.status == pb::JobStatus::Pending,
    ensures
        may_become(j, assigned(j, worker, at)),
        may_become(j, preparing(j, at)),
        may_become(j, with_queue(preparing(assigned(j, worker, at), at), capacity)),
{
    lemma_same(j);
    let a = j.assignments;
    let v = crate::state::job::WorkerAssignment { worker_index: filled(j) };
    let b = put(a, worker, v);
    lemma_put_facts(a, worker, v);
    assert(keys_of(b).take(a.len() as int) =~= keys_of(a)) by {
        assert forall|i: int| 0 <= i < a.len() implies keys_of(b)[i] == keys_of(a)[i] by {
            if has_key(a, worker) {
                lemma_found(a, worker);
            }
        }
    }
}

proof fn lemma_ended_moves(j: JobView, status: pb::JobStatus, error: Option<Seq<char>>, at: Clock)
    requires
        !is_end(j.status),
        is_end(status),
    ensures
        may_become(j, ended(j, status, error, at)),
{
    lemma_same(j);
}

proof fn lemma_assign_moves(s: StateView, worker: Seq<char>, at: Clock)
    requires
        valid(s),
    ensures
        move_on(s.jobs, assign(s, worker, at).state.jobs),
    decreases s.pending.len(),
{
    lemma_nothing_moves(s.jobs);
    if s.pending.len() > 0 {
        let id = s.pending[0];
        let shorter = StateView { pending: s.pending.drop_first(), ..s };
        lemma_shorter(s.pending, id);
        match lookup(s.jobs, id) {
            None => {
                lemma_shorter_valid(s);
                lemma_assign_moves(shorter, worker, at);
            },
            Some(j) => {
                lemma_job_ok(s, id);
                if j.status != pb::JobStatus::Pending {
                    lemma_shorter_valid(s);
                    lemma_assign_moves(shorter, worker, at);
                } else {
                    lemma_assigned_moves(
                        j,
                        worker,
                        at,
                        s.config.scheduler.file_queue_capacity,
                    );
                    if remaining(j) == 0 {
                        let t = StateView { jobs: put(s.jobs, id, preparing(j, at)), ..shorter };
                        lemma_put_job(s, t, id, preparing(j, at));
                        lemma_one_moves(s.jobs, id, preparing(j, at));
                        lemma_assign_moves(t, worker, at);
                        lemma_moves_join(s.jobs, t.jobs, assign(t, worker, at).state.jobs);
                    } else if remaining(assigned(j, worker, at)) > 0 {
                        lemma_one_moves(s.jobs, id, assigned(j, worker, at));
                    } else {
                        lemma_one_moves(
                            s.jobs,
                            id,
                            with_queue(
                                preparing(assigned(j, worker, at), at),
                                s.config.scheduler.file_queue_capacity,
                            ),
                        );
                    }
                }
            },
        }
    }
}

/// What does not wait may leave the queue.
proof fn lemma_shorter_valid(s: StateView)
    requires
        valid(s),
        s.pending.len() > 0,
        lookup(s.jobs, s.pending[0]) matches Some(j) ==> j.status != pb::JobStatus::Pending,
    ensures
        valid(StateView { pending: s.pending.drop_first(), ..s }),
{
    let t = StateView { pending: s.pending.drop_first(), ..s };
    lemma_shorter(s.pending, s.pending[0]);
    assert forall|o: Seq<char>| #[trigger] queued_if_waiting(t, o) by {
        assert(queued_if_waiting(s, o));
    }
}

pub(crate) proof fn lemma_sweep_valid(jobs: Seq<(Seq<char>, JobView)>, s: StateView, event_seq: i64, at: Clock)
    requires
        jobs_ok(jobs),
    ensures
        sweep(jobs, s.config.scheduler, event_seq, at).jobs.len() == jobs.len(),
        jobs_ok(sweep(jobs, s.config.scheduler, event_seq, at).jobs),
        forall|i: int|
            0 <= i < jobs.len() ==> {
                let after = #[trigger] sweep(jobs, s.config.scheduler, event_seq, at).jobs[i];
                after.0 == jobs[i].0 && may_become(jobs[i].1, after.1) && after.1.assignments
                    == jobs[i].1.assignments && (jobs[i].1.status
                    == pb::JobStatus::Pending ==> after.1 == jobs[i].1) && (after.1.status
                    == pb::JobStatus::Pending ==> jobs[i].1.status == pb::JobStatus::Pending)
            },
    decreases jobs.len(),
{
    if jobs.len() > 0 {
        let cfg = s.config.scheduler;
        let head = jobs.drop_last();
        assert forall|i: int| 0 <= i < head.len() implies job_ok((#[trigger] head[i]).1) by {
            assert(head[i] == jobs[i]);
        }
        lemma_sweep_valid(head, s, event_seq, at);
        let before = sweep(head, cfg, event_seq, at);
        let (id, j) = jobs.last();
        assert(job_ok(jobs[jobs.len() - 1].1));
        let all = sweep(jobs, cfg, event_seq, at);
        match overdue(j, cfg, at) {
            None => {
                lemma_same(j);
            },
            Some(reason) => {
                lemma_ended_ok(j, pb::JobStatus::Failed, Some(reason), at);
                lemma_ended_moves(j, pb::JobStatus::Failed, Some(reason), at);
            },
        }
        assert forall|i: int| 0 <= i < all.jobs.len() implies job_ok((#[trigger] all.jobs[i]).1) by {
            if i < before.jobs.len() {
                assert(all.jobs[i] == before.jobs[i]);
            }
        }
        assert forall|i: int| 0 <= i < jobs.len() implies {
            let after = #[trigger] all.jobs[i];
            after.0 == jobs[i].0 && may_become(jobs[i].1, after.1) && after.1.assignments
                == jobs[i].1.assignments && (jobs[i].1.status
                == pb::JobStatus::Pending ==> after.1 == jobs[i].1) && (after.1.status
                == pb::JobStatus::Pending ==> jobs[i].1.status == pb::JobStatus::Pending)
        } by {
            if i < before.jobs.len() {
                assert(all.jobs[i] == before.jobs[i]);
                assert(head[i] == jobs[i]);
            }
        }
    }
}

/// A look for lost workers keeps all as it should be.
proof fn lemma_swept(s: StateView, at: Clock)
    requires
        valid(s),
    ensures
        valid(swept_state(s, at)),
        move_on(s.jobs, swept_state(s, at).jobs),
{
    let w = sweep(s.jobs, s.config.scheduler, s.event_seq, at);
    lemma_sweep_valid(s.jobs, s, s.event_seq, at);
    lemma_all_released(s.active, w.failed);
    let t = swept_state(s, at);
    assert forall|i: int, j: int| 0 <= i < j < t.jobs.len() implies #[trigger] t.jobs[i].0
        != #[trigger] t.jobs[j].0 by {
        assert(s.jobs[i].0 != s.jobs[j].0);
    }
    assert forall|o: Seq<char>| #[trigger] queued_if_waiting(t, o) by {
        if has_key(t.jobs, o) {
            lemma_found(t.jobs, o);
            let p = position(t.jobs, o);
            assert(s.jobs[p].0 == o);
            lemma_entry(s.jobs, p);
            assert(queued_if_waiting(s, o));
        }
    }
    assert forall|o: Seq<char>| #[trigger] moves(s.jobs, t.jobs, o) by {
        if has_key(s.jobs, o) {
            lemma_found(s.jobs, o);
            let p = position(s.jobs, o);
            assert(t.jobs[p].0 == o);
            lemma_entry(t.jobs, p);
        }
    }
}

/// Where a job becomes what it may become and does not come to wait, and workers
/// are set free, all stays as it should be.
proof fn lemma_step(s: StateView, t: StateView, id: Seq<char>, k: JobView)
    requires
        valid(s),
        lookup(s.jobs, id) matches Some(j) && may_become(j, k) && (k.status
            == pb::JobStatus::Pending ==> j.status == pb::JobStatus::Pending),
        job_ok(k),
        t.jobs == put(s.jobs, id, k),
        t.pending == s.pending,
        keys_distinct(t.active),
    ensures
        valid(t),
        move_on(s.jobs, t.jobs),
{
    assert(queued_if_waiting(s, id));
    lemma_put_job(s, t, id, k);
    lemma_one_moves(s.jobs, id, k);
}

proof fn lemma_ready(
    s: StateView,
    id: Seq<char>,
    worker: Seq<char>,
    error: Option<Seq<char>>,
    at: Clock,
)
    requires
        valid(s),
    ensures
        valid(ready(s, id, worker, error, at).state),
        move_on(s.jobs, ready(s, id, worker, error, at).state.jobs),
{
    lemma_nothing_moves(s.jobs);
    if let Some(j) = lookup(s.jobs, id) {
        if !is_end(j.status) && has_key(j.assignments, worker) {
            let t = ready(s, id, worker, error, at).state;
            lemma_job_ok(s, id);
            lemma_same(j);
            lemma_released(s.active, keys_of(j.assignments), id);
            let k = lookup(t.jobs, id)->Some_0;
            let heard = touched(j, worker, at);
            match error {
                Some(reason) => if j.status != pb::JobStatus::Preparing {
                    lemma_step(s, t, id, heard);
                } else {
                    let why = Some(crate::scheduler::ready::ready_failure(worker, reason));
                    lemma_ended_ok(heard, pb::JobStatus::Failed, why, at);
                    lemma_ended_moves(heard, pb::JobStatus::Failed, why, at);
                    lemma_step(s, t, id, ended(heard, pb::JobStatus::Failed, why, at));
                },
                None => {
                    let delay = crate::scheduler::ready::delay_ms(
                        s.config.scheduler.start_delay,
                    );
                    lemma_readied_ok(heard, worker, delay, at);
                    lemma_step(s, t, id, readied(heard, worker, delay, at).0);
                },
            }
        }
    }
}

proof fn lemma_files(s: StateView, id: Seq<char>, worker: Seq<char>, asked: i32, at: Clock)
    requires
        valid(s),
    ensures
        valid(file_batch(s, id, worker, asked, at).state),
        move_on(s.jobs, file_batch(s, id, worker, asked, at).state.jobs),
{
    lemma_nothing_moves(s.jobs);
    if let Some(j) = lookup(s.jobs, id) {
        let t = file_batch(s, id, worker, asked, at).state;
        lemma_job_ok(s, id);
        lemma_same(j);
        lemma_put_facts(s.jobs, id, j);
        if j.run_workers.contains(worker) {
            if j.status == pb::JobStatus::Cancelled {
                lemma_step(s, t, id, touched(j, worker, at));
            } else if j.status == pb::JobStatus::Running {
                if let Some(q) = j.file_queue {
                    let n = crate::service::worker_rpc::batch_size(asked);
                    let k = crate::manifest::queue::batch_len(q.items.len(), n);
                    let rest = crate::manifest::queue::QueueView { items: q.items.skip(k), ..q };
                    lemma_step(
                        s,
                        t,
                        id,
                        JobView { file_queue: Some(rest), ..touched(j, worker, at) },
                    );
                }
            }
        }
    }
}

proof fn lemma_progress(s: StateView, id: Seq<char>, p: pb::WorkerProgressView, at: Clock)
    requires
        valid(s),
    ensures
        valid(crate::service::worker_rpc::progress(s, id, p, at).state),
        move_on(s.jobs, crate::service::worker_rpc::progress(s, id, p, at).state.jobs),
{
    lemma_nothing_moves(s.jobs);
    if let Some(j) = lookup(s.jobs, id) {
        let t = crate::service::worker_rpc::progress(s, id, p, at).state;
        lemma_job_ok(s, id);
        lemma_same(j);
        if j.status == pb::JobStatus::Cancelled {
            lemma_step(s, t, id, touched(j, p.worker_id, at));
        } else if !is_end(j.status) && has_key(j.assignments, p.worker_id) {
            lemma_step(
                s,
                t,
                id,
                JobView {
                    progress: put(
                        j.progress,
                        p.worker_id,
                        crate::service::worker_rpc::kept_progress(p),
                    ),
                    ..touched(j, p.worker_id, at)
                },
            );
        }
    }
}

proof fn lemma_result(s: StateView, id: Seq<char>, r: pb::WorkerResultView, at: Clock)
    requires
        valid(s),
    ensures
        valid(take_result(s, id, r, at).state),
        move_on(s.jobs, take_result(s, id, r, at).state.jobs),
{
    lemma_nothing_moves(s.jobs);
    lemma_del_facts(s.active, r.worker_id);
    let t = take_result(s, id, r, at).state;
    let free = StateView { active: freed(s.active, r.worker_id, id), ..s };
    assert(valid(free)) by {
        assert forall|o: Seq<char>| #[trigger] queued_if_waiting(free, o) by {
            assert(queued_if_waiting(s, o));
        }
    }
    if let Some(j) = lookup(s.jobs, id) {
        if j.run_workers.contains(r.worker_id) && (j.status == pb::JobStatus::Running || j.status
            == pb::JobStatus::Cancelled) {
            lemma_job_ok(s, id);
            lemma_same(j);
            if has_key(j.results, r.worker_id) {
                lemma_step(s, t, id, touched(j, r.worker_id, at));
            } else {
                lemma_with_result_ok(j, r, at);
                lemma_step(s, t, id, with_result(j, r, at).0);
            }
        }
    }
}

proof fn lemma_cancel(s: StateView, id: Seq<char>, at: Clock)
    requires
        valid(s),
    ensures
        valid(cancel(s, id, at).state),
        move_on(s.jobs, cancel(s, id, at).state.jobs),
{
    lemma_nothing_moves(s.jobs);
    if let Some(j) = lookup(s.jobs, id) {
        if !is_end(j.status) {
            let t = cancel(s, id, at).state;
            let k = ended(j, pb::JobStatus::Cancelled, j.error, at);
            lemma_job_ok(s, id);
            lemma_ended_ok(j, pb::JobStatus::Cancelled, j.error, at);
            lemma_ended_moves(j, pb::JobStatus::Cancelled, j.error, at);
            lemma_released(s.active, keys_of(j.assignments), id);
            assert forall|o: Seq<char>| o != id && s.pending.contains(o) implies #[trigger]
                t.pending.contains(o) by {
                pending::law_removal_keeps_the_others(s.pending, id, o);
            }
            lemma_put_job(s, t, id, k);
            lemma_one_moves(s.jobs, id, k);
        }
    }
}

proof fn lemma_reading_failed(s: StateView, id: Seq<char>, reason: Seq<char>, at: Clock)
    requires
        valid(s),
    ensures
        valid(failed_reading(s, id, reason, at).0),
        move_on(s.jobs, failed_reading(s, id, reason, at).0.jobs),
{
    lemma_nothing_moves(s.jobs);
    if let Some(j) = lookup(s.jobs, id) {
        if !is_end(j.status) {
            let t = failed_reading(s, id, reason, at).0;
            let why = Some("manifest reader: "@ + reason);
            lemma_job_ok(s, id);
            lemma_ended_ok(j, pb::JobStatus::Failed, why, at);
            lemma_ended_moves(j, pb::JobStatus::Failed, why, at);
            lemma_released(s.active, keys_of(j.assignments), id);
            lemma_step(s, t, id, ended(j, pb::JobStatus::Failed, why, at));
        }
    }
}

/// What is redacted stays as it is when it is redacted again.
proof fn lemma_stored(p: pb::BenchSpecView)
    ensures
        redacted_view(stored_spec(p)) == stored_spec(p),
{
    assert(redacted_view(stored_spec(p)) =~= stored_spec(p));
}

proof fn lemma_create(
    s: StateView,
    p: pb::BenchSpecView,
    typed: BenchSpec,
    probes: Seq<(Seq<char>, Probe)>,
    id: Seq<char>,
    at: Clock,
)
    requires
        valid(s),
        !has_key(s.jobs, id),
    ensures
        valid(enqueue(s, p, typed, probes, id, at).state),
        move_on(s.jobs, enqueue(s, p, typed, probes, id, at).state.jobs),
{
    lemma_nothing_moves(s.jobs);
    lemma_stored(p);
    let t = enqueue(s, p, typed, probes, id, at).state;
    if t != s {
        let mount = lookup(s.config.filesystems, typed.fs_name@)->Some_0;
        let j = new_job(
            id,
            stored_spec(p),
            crate::spec::redact::secrets_of(p),
            mount,
            typed.target_workers,
            at.wall_ms,
        );
        assert(t.pending == s.pending.push(id));
        assert(t.pending[s.pending.len() as int] == id);
        assert forall|o: Seq<char>| o != id && s.pending.contains(o) implies #[trigger]
            t.pending.contains(o) by {
            let k = choose|k: int| 0 <= k < s.pending.len() && s.pending[k] == o;
            assert(t.pending[k] == o);
        }
        lemma_put_job(s, t, id, j);
        lemma_one_moves(s.jobs, id, j);
    }
}

proof fn lemma_forget(s: StateView, at: Clock)
    requires
        valid(s),
    ensures
        valid(after(s, Action::Forget, at)),
{
    let limit = cutoff(s.config.scheduler.job_retention, at);
    let t = after(s, Action::Forget, at);
    crate::gc::law_only_expired_jobs_are_forgotten(s.jobs, limit, Seq::empty());
    assert forall|o: Seq<char>| #[trigger] queued_if_waiting(t, o) by {
        crate::gc::law_only_expired_jobs_are_forgotten(s.jobs, limit, o);
        assert(queued_if_waiting(s, o));
    }
    assert forall|i: int| 0 <= i < t.jobs.len() implies job_ok((#[trigger] t.jobs[i]).1) by {
        let id = t.jobs[i].0;
        lemma_entry(t.jobs, i);
        crate::gc::law_only_expired_jobs_are_forgotten(s.jobs, limit, id);
        assert(lookup(t.jobs, id) == Some(t.jobs[i].1));
        lemma_job_ok(s, id);
    }
}

/// Whatever is asked of the master, its state stays valid: no more places are
/// taken than a job has, no specification holds a secret, every job that waits
/// stands in the queue, and a job that has ended is closed and summed up.
pub proof fn law_state_stays_valid(s: StateView, a: Action, at: Clock)
    requires
        valid(s),
        fresh(s, a),
    ensures
        valid(after(s, a, at)),
{
    match a {
        Action::Create { id, spec, typed, probes } => {
            lemma_create(s, spec, typed, probes, id, at);
        },
        Action::Cancel { id } => {
            lemma_cancel(s, id, at);
        },
        Action::Fetch { worker } => {
            lemma_fetch_valid(s, worker, at);
        },
        Action::Ready { id, worker, error } => {
            lemma_ready(s, id, worker, error, at);
        },
        Action::Files { id, worker, asked } => {
            lemma_files(s, id, worker, asked, at);
        },
        Action::Progress { id, report } => {
            if let Some(p) = report {
                lemma_progress(s, id, p, at);
            }
        },
        Action::Result { id, result } => {
            if let Some(r) = result {
                lemma_result(s, id, r, at);
            }
        },
        Action::ReadingFailed { id, reason } => {
            lemma_reading_failed(s, id, reason, at);
        },
        Action::LookForLost => {
            lemma_swept(s, at);
        },
        Action::Forget => {
            lemma_forget(s, at);
        },
    }
}

/// Whatever is asked of the master, a job only moves on: see [`may_become`]. A
/// job is gone only when it had ended and jobs were forgotten.
pub proof fn law_jobs_only_move_on(s: StateView, a: Action, at: Clock, id: Seq<char>)
    requires
        valid(s),
        fresh(s, a),
        lookup(s.jobs, id) is Some,
    ensures
        match lookup(after(s, a, at).jobs, id) {
            Some(k) => may_become(lookup(s.jobs, id)->Some_0, k),
            None => a is Forget && is_end(lookup(s.jobs, id)->Some_0.status),
        },
{
    lemma_nothing_moves(s.jobs);
    assert(moves(s.jobs, s.jobs, id));
    let j = lookup(s.jobs, id)->Some_0;
    match a {
        Action::Create { id, spec, typed, probes } => {
            lemma_create(s, spec, typed, probes, id, at);
        },
        Action::Cancel { id } => {
            lemma_cancel(s, id, at);
        },
        Action::Fetch { worker } => {
            if id_check(worker) is Ok {
                match current_job(s, worker) {
                    Some((held, own)) => {
                        lemma_touched_moves(own, worker, at);
                        lemma_one_moves(s.jobs, held, touched(own, worker, at));
                    },
                    None => {
                        let t = StateView { active: del(s.active, worker), ..s };
                        lemma_del_facts(s.active, worker);
                        assert forall|o: Seq<char>| #[trigger] queued_if_waiting(t, o) by {
                            assert(queued_if_waiting(s, o));
                        }
                        lemma_assign_moves(t, worker, at);
                    },
                }
            }
        },
        Action::Ready { id, worker, error } => {
            lemma_ready(s, id, worker, error, at);
        },
        Action::Files { id, worker, asked } => {
            lemma_files(s, id, worker, asked, at);
        },
        Action::Progress { id, report } => {
            if let Some(p) = report {
                lemma_progress(s, id, p, at);
            }
        },
        Action::Result { id, result } => {
            if let Some(r) = result {
                lemma_result(s, id, r, at);
            }
        },
        Action::ReadingFailed { id, reason } => {
            lemma_reading_failed(s, id, reason, at);
        },
        Action::LookForLost => {
            lemma_swept(s, at);
        },
        Action::Forget => {
            crate::gc::law_only_expired_jobs_are_forgotten(
                s.jobs,
                cutoff(s.config.scheduler.job_retention, at),
                id,
            );
            lemma_same(j);
        },
    }
    if !(a is Forget) {
        assert(moves(s.jobs, after(s, a, at).jobs, id));
    }
}

/// The numbers of the events among notices, in their order.
pub open spec fn event_numbers(notices: Seq<NoticeView>) -> Seq<int>
    decreases notices.len(),
{
    if notices.len() == 0 {
        Seq::empty()
    } else {
        let before = event_numbers(notices.drop_last());
        match notices.last() {
            NoticeView::Event(e) => before.push(e.seq as int),
            _ => before,
        }
    }
}

/// Whether events are numbered one after the other, from `first` on.
pub open spec fn numbered_from(numbers: Seq<int>, first: int) -> bool {
    forall|k: int| 0 <= k < numbers.len() ==> #[trigger] numbers[k] == first + k
}

proof fn lemma_numbers_join(a: Seq<NoticeView>, b: Seq<NoticeView>)
    ensures
        event_numbers(a + b) == event_numbers(a) + event_numbers(b),
    decreases b.len(),
{
    if b.len() == 0 {
        assert(a + b =~= a);
        assert(event_numbers(a) + event_numbers(b) =~= event_numbers(a));
    } else {
        assert((a + b).drop_last() =~= a + b.drop_last());
        lemma_numbers_join(a, b.drop_last());
        assert(event_numbers(a + b) =~= event_numbers(a) + event_numbers(b));
    }
}

/// The numbers among at most two notices.
proof fn lemma_few_notices(notices: Seq<NoticeView>)
    requires
        notices.len() <= 2,
    ensures
        ({
            let first = if notices.len() > 0 && notices[0] is Event {
                seq![notices[0]->Event_0.seq as int]
            } else {
                Seq::empty()
            };
            let second = if notices.len() > 1 && notices[1] is Event {
                seq![notices[1]->Event_0.seq as int]
            } else {
                Seq::empty()
            };
            event_numbers(notices) == first + second
        }),
{
    reveal_with_fuel(event_numbers, 3);
    let first = if notices.len() > 0 && notices[0] is Event {
        seq![notices[0]->Event_0.seq as int]
    } else {
        Seq::empty()
    };
    let second = if notices.len() > 1 && notices[1] is Event {
        seq![notices[1]->Event_0.seq as int]
    } else {
        Seq::empty()
    };
    assert(event_numbers(notices) =~= first + second);
}

proof fn lemma_no_numbers(failed: Seq<(Seq<char>, Seq<Seq<char>>)>)
    ensures
        event_numbers(ends_of(failed)) == Seq::<int>::empty(),
    decreases failed.len(),
{
    if failed.len() > 0 {
        lemma_no_numbers(failed.drop_last());
        assert(ends_of(failed).drop_last() =~= ends_of(failed.drop_last()));
        assert(ends_of(failed).last() is End);
    }
}

proof fn lemma_sweep_numbers(jobs: Seq<(Seq<char>, JobView)>, s: StateView, at: Clock)
    requires
        s.event_seq + jobs.len() < i64::MAX,
    ensures
        ({
            let w = sweep(jobs, s.config.scheduler, s.event_seq, at);
            let numbers = event_numbers(w.events);
            &&& numbers.len() <= jobs.len()
            &&& numbered_from(numbers, s.event_seq as int)
            &&& w.event_seq == s.event_seq + numbers.len()
        }),
    decreases jobs.len(),
{
    if jobs.len() > 0 {
        let cfg = s.config.scheduler;
        lemma_sweep_numbers(jobs.drop_last(), s, at);
        let before = sweep(jobs.drop_last(), cfg, s.event_seq, at);
        let w = sweep(jobs, cfg, s.event_seq, at);
        if overdue(jobs.last().1, cfg, at) is Some {
            assert(w.events.drop_last() =~= before.events);
        }
    }
}

proof fn lemma_assign_numbers(s: StateView, worker: Seq<char>, at: Clock)
    requires
        s.event_seq < i64::MAX,
    ensures
        ({
            let step = assign(s, worker, at);
            let numbers = event_numbers(step.notices);
            &&& numbers.len() <= 1
            &&& numbered_from(numbers, s.event_seq as int)
            &&& step.state.event_seq == s.event_seq + numbers.len()
        }),
    decreases s.pending.len(),
{
    if s.pending.len() > 0 {
        let id = s.pending[0];
        let shorter = StateView { pending: s.pending.drop_first(), ..s };
        match lookup(s.jobs, id) {
            None => {
                lemma_assign_numbers(shorter, worker, at);
            },
            Some(j) => if j.status != pb::JobStatus::Pending {
                lemma_assign_numbers(shorter, worker, at);
            } else if remaining(j) == 0 {
                lemma_assign_numbers(
                    StateView { jobs: put(s.jobs, id, preparing(j, at)), ..shorter },
                    worker,
                    at,
                );
            } else {
                lemma_few_notices(place(s, id, j, worker, at).notices);
            },
        }
    }
}

/// Whether the events of an action are numbered as they are to be.
pub open spec fn numbered_well(s: StateView, a: Action, at: Clock) -> bool {
    let numbers = event_numbers(outcome(s, a, at).1);
    &&& numbered_from(numbers, s.event_seq as int)
    &&& after(s, a, at).event_seq == s.event_seq + numbers.len()
}

proof fn lemma_ready_numbers(
    s: StateView,
    id: Seq<char>,
    worker: Seq<char>,
    error: Option<Seq<char>>,
    at: Clock,
)
    requires
        s.event_seq < i64::MAX,
    ensures
        numbered_well(s, Action::Ready { id, worker, error }, at),
{
    lemma_few_notices(outcome(s, Action::Ready { id, worker, error }, at).1);
}

proof fn lemma_files_numbers(
    s: StateView,
    id: Seq<char>,
    worker: Seq<char>,
    asked: i32,
    at: Clock,
)
    requires
        s.event_seq < i64::MAX,
    ensures
        numbered_well(s, Action::Files { id, worker, asked }, at),
{
    lemma_few_notices(outcome(s, Action::Files { id, worker, asked }, at).1);
}

proof fn lemma_progress_numbers(
    s: StateView,
    id: Seq<char>,
    report: Option<pb::WorkerProgressView>,
    at: Clock,
)
    requires
        s.event_seq < i64::MAX,
    ensures
        numbered_well(s, Action::Progress { id, report }, at),
{
    lemma_few_notices(outcome(s, Action::Progress { id, report }, at).1);
}

proof fn lemma_result_numbers(
    s: StateView,
    id: Seq<char>,
    result: Option<pb::WorkerResultView>,
    at: Clock,
)
    requires
        s.event_seq < i64::MAX,
    ensures
        numbered_well(s, Action::Result { id, result }, at),
{
    lemma_few_notices(outcome(s, Action::Result { id, result }, at).1);
}

proof fn lemma_sweep_numbered(s: StateView, at: Clock)
    requires
        s.event_seq + s.jobs.len() + 1 < i64::MAX,
    ensures
        numbered_well(s, Action::LookForLost, at),
{
    let w = sweep(s.jobs, s.config.scheduler, s.event_seq, at);
    lemma_sweep_numbers(s.jobs, s, at);
    lemma_no_numbers(w.failed);
    lemma_numbers_join(w.events, ends_of(w.failed));
    assert(event_numbers(swept_notices(s, at)) =~= event_numbers(w.events));
}

/// Events are numbered one after the other, from the number that the state
/// holds on, and the next state holds the number after the last of them. (The
/// numbers wrap around after 64 bits; this is said of the time before.)
#[verifier::spinoff_prover]
#[verifier::rlimit(40)]
pub proof fn law_events_are_numbered_in_order(s: StateView, a: Action, at: Clock)
    requires
        s.event_seq + s.jobs.len() + 1 < i64::MAX,
    ensures
        numbered_well(s, a, at),
{
    match a {
        Action::Fetch { worker } => {
            lemma_few_notices(Seq::empty());
            lemma_assign_numbers(StateView { active: del(s.active, worker), ..s }, worker, at);
        },
        Action::Ready { id, worker, error } => lemma_ready_numbers(s, id, worker, error, at),
        Action::Files { id, worker, asked } => lemma_files_numbers(s, id, worker, asked, at),
        Action::Progress { id, report } => lemma_progress_numbers(s, id, report, at),
        Action::Result { id, result } => lemma_result_numbers(s, id, result, at),
        Action::LookForLost => lemma_sweep_numbered(s, at),
        Action::Create { .. } | Action::Cancel { .. } | Action::ReadingFailed { .. }
        | Action::Forget => lemma_few_notices(outcome(s, a, at).1),
    }
}

/// Whether a job in the queue has a place for a worker.
pub open spec fn open_at(s: StateView, k: int) -> bool {
    lookup(s.jobs, s.pending[k]) matches Some(j) && j.status == pb::JobStatus::Pending && remaining(
        j,
    ) > 0
}

proof fn lemma_first_come(s: StateView, worker: Seq<char>, at: Clock)
    requires
        valid(s),
    ensures
        assign(s, worker, at).result matches Ok(o) && match o.job_id {
            Some(id) => exists|k: int|
                0 <= k < s.pending.len() && #[trigger] s.pending[k] == id && open_at(s, k)
                    && forall|i: int| 0 <= i < k ==> !#[trigger] open_at(s, i),
            None => forall|k: int| 0 <= k < s.pending.len() ==> !#[trigger] open_at(s, k),
        },
    decreases s.pending.len(),
{
    if s.pending.len() > 0 {
        let id = s.pending[0];
        let shorter = StateView { pending: s.pending.drop_first(), ..s };
        if !open_at(s, 0) {
            let t = match lookup(s.jobs, id) {
                Some(j) => if j.status == pb::JobStatus::Pending {
                    StateView { jobs: put(s.jobs, id, preparing(j, at)), ..shorter }
                } else {
                    shorter
                },
                None => shorter,
            };
            match lookup(s.jobs, id) {
                Some(j) => {
                    lemma_job_ok(s, id);
                    if j.status == pb::JobStatus::Pending {
                        lemma_shorter(s.pending, id);
                        lemma_put_job(s, t, id, preparing(j, at));
                        lemma_put_facts(s.jobs, id, preparing(j, at));
                    } else {
                        lemma_shorter_valid(s);
                    }
                },
                None => {
                    lemma_shorter_valid(s);
                },
            }
            assert forall|k: int| 0 <= k < t.pending.len() implies open_at(t, k) == open_at(
                s,
                k + 1,
            ) by {
                assert(t.pending[k] == s.pending[k + 1]);
            }
            lemma_first_come(t, worker, at);
            let o = assign(t, worker, at).result->Ok_0;
            match o.job_id {
                Some(found) => {
                    let k = choose|k: int|
                        0 <= k < t.pending.len() && #[trigger] t.pending[k] == found && open_at(
                            t,
                            k,
                        ) && forall|i: int| 0 <= i < k ==> !#[trigger] open_at(t, i);
                    assert(s.pending[k + 1] == found);
                    assert forall|i: int| 0 <= i < k + 1 implies !#[trigger] open_at(s, i) by {
                        if i > 0 {
                            assert(open_at(t, i - 1) == open_at(s, i - 1 + 1));
                        }
                    }
                    assert(open_at(s, k + 1));
                },
                None => {
                    assert forall|k: int| 0 <= k < s.pending.len() implies !#[trigger] open_at(
                        s,
                        k,
                    ) by {
                        if k > 0 {
                            assert(open_at(t, k - 1) == open_at(s, k - 1 + 1));
                        }
                    }
                },
            }
        } else {
            assert(s.pending[0] == id);
        }
    }
}

/// A worker without a job is given a place in the job that has waited longest
/// among those with a free place, and none only where there is no such job.
pub proof fn law_first_come_first_served(s: StateView, worker: Seq<char>, at: Clock)
    requires
        valid(s),
        id_check(worker) is Ok,
        current_job(s, worker) is None,
    ensures
        fetch(s, worker, at).result matches Ok(o) && match o.job_id {
            Some(id) => exists|k: int|
                0 <= k < s.pending.len() && #[trigger] s.pending[k] == id && open_at(s, k)
                    && forall|i: int| 0 <= i < k ==> !#[trigger] open_at(s, i),
            None => forall|k: int| 0 <= k < s.pending.len() ==> !#[trigger] open_at(s, k),
        },
{
    lemma_del_facts(s.active, worker);
    let t = StateView { active: del(s.active, worker), ..s };
    assert forall|o: Seq<char>| #[trigger] queued_if_waiting(t, o) by {
        assert(queued_if_waiting(s, o));
    }
    assert forall|k: int| 0 <= k < s.pending.len() implies open_at(t, k) == open_at(s, k) by {}
    lemma_first_come(t, worker, at);
    let o = assign(t, worker, at).result->Ok_0;
    match o.job_id {
        Some(id) => {
            let k = choose|k: int|
                0 <= k < t.pending.len() && #[trigger] t.pending[k] == id && open_at(t, k)
                    && forall|i: int| 0 <= i < k ==> !#[trigger] open_at(t, i);
            assert(s.pending[k] == id);
            assert(open_at(s, k));
            assert forall|i: int| 0 <= i < k implies !#[trigger] open_at(s, i) by {
                assert(!open_at(t, i));
            }
        },
        None => {
            assert forall|k: int| 0 <= k < s.pending.len() implies !#[trigger] open_at(s, k) by {
                assert(!open_at(t, k));
            }
        },
    }
}

/// What a worker is given is its current job.
pub(crate) proof fn lemma_given_is_current(s: StateView, worker: Seq<char>, at: Clock)
    requires
        valid(s),
    ensures
        assign(s, worker, at).result matches Ok(o) && match o.job_id {
            Some(id) => current_job(assign(s, worker, at).state, worker) matches Some((own, k))
                && own == id && o == offer_of(
                k,
                id,
                lookup(k.assignments, worker)->Some_0.worker_index,
                at,
            ),
            None => true,
        },
    decreases s.pending.len(),
{
    if s.pending.len() > 0 {
        let id = s.pending[0];
        let shorter = StateView { pending: s.pending.drop_first(), ..s };
        match lookup(s.jobs, id) {
            None => {
                lemma_shorter_valid(s);
                lemma_given_is_current(shorter, worker, at);
            },
            Some(j) => {
                lemma_job_ok(s, id);
                if j.status != pb::JobStatus::Pending {
                    lemma_shorter_valid(s);
                    lemma_given_is_current(shorter, worker, at);
                } else if remaining(j) == 0 {
                    let t = StateView { jobs: put(s.jobs, id, preparing(j, at)), ..shorter };
                    lemma_shorter(s.pending, id);
                    lemma_put_job(s, t, id, preparing(j, at));
                    lemma_given_is_current(t, worker, at);
                } else {
                    let taken = assigned(j, worker, at);
                    lemma_put_facts(
                        j.assignments,
                        worker,
                        crate::state::job::WorkerAssignment { worker_index: filled(j) },
                    );
                    lemma_found(taken.assignments, worker);
                    lemma_put_facts(s.active, worker, id);
                    lemma_put_facts(s.jobs, id, taken);
                    lemma_put_facts(
                        s.jobs,
                        id,
                        with_queue(
                            preparing(taken, at),
                            s.config.scheduler.file_queue_capacity,
                        ),
                    );
                }
            },
        }
    }
}

/// A worker that asks for work again at once is given the same job, the same
/// place and all that goes with it, and no other place is taken.
pub proof fn law_fetch_is_repeatable(s: StateView, worker: Seq<char>, at: Clock, later: Clock)
    requires
        valid(s),
        fetch(s, worker, at).result matches Ok(o) && o.job_id is Some,
    ensures
        ({
            let one = fetch(s, worker, at);
            let two = fetch(one.state, worker, later);
            let first = one.result->Ok_0;
            let id = first.job_id->Some_0;
            &&& two.result matches Ok(second) && second == (pb::FetchJobResponseView {
                master_now_ms: later.wall_ms,
                ..first
            })
            &&& lookup(two.state.jobs, id) matches Some(k) && (lookup(
                one.state.jobs,
                id,
            ) matches Some(j) && k == touched(j, worker, later))
            &&& two.state == (StateView { jobs: two.state.jobs, ..one.state })
            &&& two.notices.len() == 0
        }),
{
    let one = fetch(s, worker, at);
    lemma_fetch_valid(s, worker, at);
    match current_job(s, worker) {
        Some((id, j)) => {
            lemma_put_facts(s.jobs, id, touched(j, worker, at));
        },
        None => {
            lemma_del_facts(s.active, worker);
            let t = StateView { active: del(s.active, worker), ..s };
            assert forall|o: Seq<char>| #[trigger] queued_if_waiting(t, o) by {
                assert(queued_if_waiting(s, o));
            }
            lemma_given_is_current(t, worker, at);
        },
    }
    let (id, k) = current_job(one.state, worker)->Some_0;
    lemma_put_facts(one.state.jobs, id, touched(k, worker, later));
}

/// Only the first result of a worker counts: another changes nothing but when
/// the worker was last heard of, and nobody is told.
pub proof fn law_result_counts_once(
    s: StateView,
    id: Seq<char>,
    result: pb::WorkerResultView,
    at: Clock,
)
    requires
        valid(s),
        id_check(result.worker_id) is Ok,
        lookup(s.jobs, id) matches Some(j) && j.run_workers.contains(result.worker_id) && j.status
            == pb::JobStatus::Running && has_key(j.results, result.worker_id),
    ensures
        ({
            let a = Action::Result { id, result: Some(result) };
            &&& lookup(after(s, a, at).jobs, id) == Some(
                touched(lookup(s.jobs, id)->Some_0, result.worker_id, at),
            )
            &&& outcome(s, a, at).1.len() == 0
            &&& after(s, a, at).event_seq == s.event_seq
        }),
{
    lemma_put_facts(
        s.jobs,
        id,
        touched(lookup(s.jobs, id)->Some_0, result.worker_id, at),
    );
}

/// A job runs only once every worker that takes part is ready, and only those
/// who have a place are ever ready; somebody takes part, and nobody twice.
pub proof fn law_all_are_ready_at_the_start(s: StateView, id: Seq<char>)
    requires
        valid(s),
        lookup(s.jobs, id) is Some,
    ensures
        ({
            let j = lookup(s.jobs, id)->Some_0;
            &&& j.run_workers.no_duplicates()
            &&& has_started(j) ==> j.run_workers.len() > 0
            &&& has_started(j) ==> forall|w: Seq<char>| #[trigger]
                j.run_workers.contains(w) ==> j.ready_workers.contains(w)
            &&& forall|w: Seq<char>| #[trigger]
                j.ready_workers.contains(w) ==> has_key(j.assignments, w)
        }),
{
    lemma_job_ok(s, id);
    let j = lookup(s.jobs, id)->Some_0;
    lemma_keys_unique(j.assignments);
    assert forall|w: Seq<char>| #[trigger] j.ready_workers.contains(w) implies has_key(
        j.assignments,
        w,
    ) by {
        lemma_key(j.assignments, w);
    }
}

/// Whether a worker has handed in a success.
pub open spec fn has_succeeded(j: JobView, worker: Seq<char>) -> bool {
    lookup(j.results, worker) matches Some(r) && r.success
}

/// Only workers that take part have handed in results, and a job that has
/// started is completed if and only if each of them has handed in a success.
pub proof fn law_success_of_all_completes(s: StateView, id: Seq<char>)
    requires
        valid(s),
        lookup(s.jobs, id) is Some,
    ensures
        ({
            let j = lookup(s.jobs, id)->Some_0;
            &&& forall|w: Seq<char>| #[trigger]
                has_key(j.results, w) ==> j.run_workers.contains(w)
            &&& has_started(j) ==> (j.status == pb::JobStatus::Completed <==> forall|w: Seq<char>|
                j.run_workers.contains(w) ==> #[trigger] has_succeeded(j, w))
        }),
{
    lemma_job_ok(s, id);
    let j = lookup(s.jobs, id)->Some_0;
    let names = keys_of(j.results);
    let crew = j.run_workers;
    assert forall|w: Seq<char>| #[trigger] has_key(j.results, w) implies crew.contains(w) by {
        lemma_key(j.results, w);
    }
    lemma_keys_unique(j.assignments);
    lemma_keys_unique(j.results);
    names.unique_seq_to_set();
    crew.unique_seq_to_set();
    vstd::seq_lib::seq_to_set_is_finite(names);
    vstd::seq_lib::seq_to_set_is_finite(crew);
    if j.status == pb::JobStatus::Completed {
        assert forall|w: Seq<char>| crew.contains(w) implies #[trigger] has_succeeded(j, w) by {
            lemma_as_many(names.to_set(), crew);
            assert(names.to_set().contains(w));
            lemma_key(j.results, w);
            lemma_found(j.results, w);
        }
    }
    if has_started(j) && forall|w: Seq<char>|
        crew.contains(w) ==> #[trigger] has_succeeded(j, w) {
        assert forall|w: Seq<char>| crew.to_set().contains(w) implies names.to_set().contains(
            w,
        ) by {
            assert(has_succeeded(j, w));
            lemma_key(j.results, w);
        }
        vstd::set_lib::lemma_len_subset(crew.to_set(), names.to_set());
    }
}

/// When a job is cancelled, or fails because its list cannot be read, none of
/// its workers is left on it.
pub proof fn law_workers_are_set_free(
    s: StateView,
    id: Seq<char>,
    reason: Seq<char>,
    at: Clock,
    worker: Seq<char>,
)
    requires
        valid(s),
        lookup(s.jobs, id) matches Some(j) && !is_end(j.status) && has_key(j.assignments, worker),
    ensures
        lookup(after(s, Action::Cancel { id }, at).active, worker) != Some(id),
        lookup(after(s, Action::ReadingFailed { id, reason }, at).active, worker) != Some(id),
{
    let j = lookup(s.jobs, id)->Some_0;
    lemma_released(s.active, keys_of(j.assignments), id);
    lemma_found(j.assignments, worker);
    let p = position(j.assignments, worker);
    assert(keys_of(j.assignments)[p] == worker);
    assert(keys_of(j.assignments).contains(worker));
}

/// Whether the places of a job are numbered from zero in the order in which they
/// were taken.
pub open spec fn numbered_places(j: JobView) -> bool {
    forall|i: int|
        0 <= i < j.assignments.len() ==> (#[trigger] j.assignments[i]).1.worker_index == i
}

/// Whether a worker that has a place in the waiting job `id` is kept as working
/// on it.
pub open spec fn on_its_job(s: StateView, id: Seq<char>, worker: Seq<char>) -> bool {
    lookup(s.jobs, id) matches Some(j) ==> (j.status == pb::JobStatus::Pending && has_key(
        j.assignments,
        worker,
    ) ==> lookup(s.active, worker) == Some(id))
}

/// Whether the places of all jobs are numbered as they should be, and whoever has
/// a place in a waiting job is kept as working on it.
pub open spec fn places_ok(s: StateView) -> bool {
    &&& forall|i: int| 0 <= i < s.jobs.len() ==> numbered_places((#[trigger] s.jobs[i]).1)
    &&& forall|id: Seq<char>, worker: Seq<char>| #[trigger] on_its_job(s, id, worker)
}

/// Whether a worker hands in a result for a job that still waits for workers.
pub open spec fn too_early(s: StateView, a: Action) -> bool {
    a matches Action::Result { id, result } && (result matches Some(r) && (lookup(
        s.jobs,
        id,
    ) matches Some(j) && j.status == pb::JobStatus::Pending && has_key(j.assignments, r.worker_id)))
}

proof fn lemma_numbered(s: StateView, id: Seq<char>)
    requires
        places_ok(s),
        has_key(s.jobs, id),
    ensures
        numbered_places(lookup(s.jobs, id)->Some_0),
{
    lemma_found(s.jobs, id);
    let p = position(s.jobs, id);
    assert(numbered_places(s.jobs[p].1));
}

/// Where one job changes, and of the workers at most those on it, places stay as
/// they should be.
proof fn lemma_put_places(s: StateView, t: StateView, id: Seq<char>, k: JobView)
    requires
        keys_distinct(s.jobs),
        places_ok(s),
        t.jobs == put(s.jobs, id, k),
        numbered_places(k),
        forall|w: Seq<char>| #[trigger]
            lookup(t.active, w) == lookup(s.active, w) || lookup(s.active, w) == Some(id),
        k.status == pb::JobStatus::Pending ==> t.active == s.active && (lookup(
            s.jobs,
            id,
        ) matches Some(j) && j.status == pb::JobStatus::Pending && k.assignments == j.assignments),
    ensures
        places_ok(t),
{
    lemma_put_facts(s.jobs, id, k);
    assert forall|i: int| 0 <= i < t.jobs.len() implies numbered_places((#[trigger] t.jobs[i]).1) by {
        if t.jobs[i] != (id, k) {
            assert(t.jobs[i] == s.jobs[i]);
        }
    }
    assert forall|o: Seq<char>, w: Seq<char>| #[trigger] on_its_job(t, o, w) by {
        assert(on_its_job(s, o, w));
        assert(lookup(t.active, w) == lookup(s.active, w) || lookup(s.active, w) == Some(id));
    }
}

proof fn lemma_assign_places(s: StateView, worker: Seq<char>, at: Clock)
    requires
        valid(s),
        places_ok(s),
        forall|id: Seq<char>|
            (#[trigger] lookup(s.jobs, id) matches Some(j) && j.status == pb::JobStatus::Pending)
                ==> !has_key(lookup(s.jobs, id)->Some_0.assignments, worker),
    ensures
        places_ok(assign(s, worker, at).state),
    decreases s.pending.len(),
{
    if s.pending.len() > 0 {
        let id = s.pending[0];
        let shorter = StateView { pending: s.pending.drop_first(), ..s };
        assert(places_ok(shorter)) by {
            assert forall|o: Seq<char>, w: Seq<char>| #[trigger] on_its_job(shorter, o, w) by {
                assert(on_its_job(s, o, w));
            }
        }
        lemma_shorter(s.pending, id);
        match lookup(s.jobs, id) {
            None => {
                lemma_shorter_valid(s);
                lemma_assign_places(shorter, worker, at);
            },
            Some(j) => {
                lemma_job_ok(s, id);
                lemma_numbered(s, id);
                if j.status != pb::JobStatus::Pending {
                    lemma_shorter_valid(s);
                    lemma_assign_places(shorter, worker, at);
                } else if remaining(j) == 0 {
                    let k = preparing(j, at);
                    let t = StateView { jobs: put(s.jobs, id, k), ..shorter };
                    lemma_put_facts(s.jobs, id, k);
                    lemma_put_job(s, t, id, k);
                    lemma_put_places(shorter, t, id, k);
                    lemma_assign_places(t, worker, at);
                } else {
                    lemma_place_places(s, id, j, worker, at);
                }
            },
        }
    }
}

proof fn lemma_place_places(s: StateView, id: Seq<char>, j: JobView, worker: Seq<char>, at: Clock)
    requires
        valid(s),
        places_ok(s),
        lookup(s.jobs, id) == Some(j),
        j.status == pb::JobStatus::Pending,
        remaining(j) > 0,
        forall|id: Seq<char>|
            (#[trigger] lookup(s.jobs, id) matches Some(j) && j.status == pb::JobStatus::Pending)
                ==> !has_key(lookup(s.jobs, id)->Some_0.assignments, worker),
    ensures
        places_ok(place(s, id, j, worker, at).state),
{
    lemma_job_ok(s, id);
    lemma_numbered(s, id);
    let t = place(s, id, j, worker, at).state;
    let taken = assigned(j, worker, at);
    let v = crate::state::job::WorkerAssignment { worker_index: filled(j) };
    assert(!has_key(j.assignments, worker));
    lemma_put_facts(j.assignments, worker, v);
    lemma_put_facts(s.active, worker, id);
    let k = lookup(t.jobs, id)->Some_0;
    lemma_put_facts(s.jobs, id, taken);
    lemma_put_facts(
        s.jobs,
        id,
        with_queue(preparing(taken, at), s.config.scheduler.file_queue_capacity),
    );
    assert(k.assignments == taken.assignments);
    assert(numbered_places(k)) by {
        assert forall|i: int| 0 <= i < k.assignments.len() implies (#[trigger]
        k.assignments[i]).1.worker_index == i by {
            if i < j.assignments.len() {
                assert(k.assignments[i] == j.assignments[i]);
            }
        }
    }
    assert forall|i: int| 0 <= i < t.jobs.len() implies numbered_places((#[trigger] t.jobs[i]).1) by {
        if t.jobs[i] != (id, k) {
            assert(t.jobs[i] == s.jobs[i]);
        }
    }
    assert forall|o: Seq<char>, w: Seq<char>| #[trigger] on_its_job(t, o, w) by {
        assert(on_its_job(s, o, w));
        if o == id {
            if w != worker {
                assert(has_key(taken.assignments, w) == has_key(j.assignments, w));
                assert(lookup(t.active, w) == lookup(s.active, w));
            }
        } else {
            assert(lookup(t.jobs, o) == lookup(s.jobs, o));
            if w != worker {
                assert(lookup(t.active, w) == lookup(s.active, w));
            }
        }
    }
}

proof fn lemma_fetch_places(s: StateView, worker: Seq<char>, at: Clock)
    requires
        valid(s),
        places_ok(s),
    ensures
        places_ok(fetch(s, worker, at).state),
{
    if id_check(worker) is Ok {
        match current_job(s, worker) {
            Some((id, j)) => {
                lemma_numbered(s, id);
                lemma_put_places(s, fetch(s, worker, at).state, id, touched(j, worker, at));
            },
            None => {
                lemma_del_facts(s.active, worker);
                let t = StateView { active: del(s.active, worker), ..s };
                assert forall|o: Seq<char>| #[trigger] queued_if_waiting(t, o) by {
                    assert(queued_if_waiting(s, o));
                }
                assert forall|o: Seq<char>|
                    (#[trigger] lookup(t.jobs, o) matches Some(j) && j.status
                        == pb::JobStatus::Pending) implies !has_key(
                    lookup(t.jobs, o)->Some_0.assignments,
                    worker,
                ) by {
                    assert(on_its_job(s, o, worker));
                }
                assert forall|o: Seq<char>, w: Seq<char>| #[trigger] on_its_job(t, o, w) by {
                    assert(on_its_job(s, o, w));
                    if w != worker {
                        assert(lookup(t.active, w) == lookup(s.active, w));
                    }
                }
                lemma_assign_places(t, worker, at);
            },
        }
    }
}

proof fn lemma_sweep_failed(jobs: Seq<(Seq<char>, JobView)>, s: StateView, at: Clock)
    ensures
        ({
            let failed = sweep(jobs, s.config.scheduler, s.event_seq, at).failed;
            forall|k: int|
                0 <= k < failed.len() ==> exists|i: int|
                    0 <= i < jobs.len() && #[trigger] jobs[i].0 == (#[trigger] failed[k]).0
                        && jobs[i].1.status != pb::JobStatus::Pending
        }),
    decreases jobs.len(),
{
    if jobs.len() > 0 {
        let cfg = s.config.scheduler;
        let head = jobs.drop_last();
        lemma_sweep_failed(head, s, at);
        let before = sweep(head, cfg, s.event_seq, at).failed;
        let failed = sweep(jobs, cfg, s.event_seq, at).failed;
        assert forall|k: int| 0 <= k < failed.len() implies exists|i: int|
            0 <= i < jobs.len() && #[trigger] jobs[i].0 == (#[trigger] failed[k]).0
                && jobs[i].1.status != pb::JobStatus::Pending by {
            if k < before.len() {
                assert(failed[k] == before[k]);
                let i = choose|i: int|
                    0 <= i < head.len() && #[trigger] head[i].0 == before[k].0 && head[i].1.status
                        != pb::JobStatus::Pending;
                assert(jobs[i] == head[i]);
            } else {
                let i = jobs.len() - 1;
                assert(jobs[i].0 == failed[k].0);
            }
        }
    }
}

/// Only workers on the jobs that failed are set free.
pub(crate) proof fn lemma_others_stay(
    active: Seq<(Seq<char>, Seq<char>)>,
    failed: Seq<(Seq<char>, Seq<Seq<char>>)>,
    worker: Seq<char>,
    id: Seq<char>,
)
    requires
        keys_distinct(active),
        lookup(active, worker) == Some(id),
        forall|k: int| 0 <= k < failed.len() ==> (#[trigger] failed[k]).0 != id,
    ensures
        lookup(all_released(active, failed), worker) == Some(id),
    decreases failed.len(),
{
    if failed.len() > 0 {
        let head = failed.drop_last();
        assert forall|k: int| 0 <= k < head.len() implies (#[trigger] head[k]).0 != id by {
            assert(head[k] == failed[k]);
        }
        lemma_others_stay(active, head, worker, id);
        lemma_all_released(active, head);
        lemma_released(all_released(active, head), failed.last().1, failed.last().0);
        assert(failed[failed.len() - 1].0 != id);
    }
}

proof fn lemma_swept_places(s: StateView, at: Clock)
    requires
        valid(s),
        places_ok(s),
    ensures
        places_ok(swept_state(s, at)),
{
    let t = swept_state(s, at);
    let w = sweep(s.jobs, s.config.scheduler, s.event_seq, at);
    lemma_sweep_valid(s.jobs, s, s.event_seq, at);
    lemma_sweep_failed(s.jobs, s, at);
    lemma_swept(s, at);
    assert forall|i: int| 0 <= i < t.jobs.len() implies numbered_places((#[trigger] t.jobs[i]).1) by {
        assert(numbered_places(s.jobs[i].1));
        let j = s.jobs[i].1;
        let k = t.jobs[i].1;
        assert(w.jobs[i] == t.jobs[i]);
        assert(may_become(j, k));
        assert(k.assignments == j.assignments);
    }
    assert forall|o: Seq<char>, worker: Seq<char>| #[trigger] on_its_job(t, o, worker) by {
        assert(on_its_job(s, o, worker));
        if has_key(t.jobs, o) {
            lemma_found(t.jobs, o);
            let p = position(t.jobs, o);
            assert(w.jobs[p] == t.jobs[p]);
            lemma_entry(s.jobs, p);
            let k = t.jobs[p].1;
            if k.status == pb::JobStatus::Pending && has_key(k.assignments, worker) {
                assert forall|f: int| 0 <= f < w.failed.len() implies (#[trigger] w.failed[f]).0
                    != o by {
                    let i = choose|i: int|
                        0 <= i < s.jobs.len() && #[trigger] s.jobs[i].0 == w.failed[f].0
                            && s.jobs[i].1.status != pb::JobStatus::Pending;
                    if w.failed[f].0 == o {
                        assert(s.jobs[i].0 == s.jobs[p].0);
                        if i < p {
                            assert(s.jobs[i].0 != s.jobs[p].0);
                        } else if p < i {
                            assert(s.jobs[p].0 != s.jobs[i].0);
                        }
                    }
                }
                lemma_others_stay(s.active, w.failed, worker, o);
            }
        }
    }
}

proof fn lemma_result_places(s: StateView, id: Seq<char>, r: pb::WorkerResultView, at: Clock)
    requires
        valid(s),
        places_ok(s),
        lookup(s.jobs, id) matches Some(j) ==> !(j.status == pb::JobStatus::Pending && has_key(
            j.assignments,
            r.worker_id,
        )),
    ensures
        places_ok(take_result(s, id, r, at).state),
{
    lemma_del_facts(s.active, r.worker_id);
    let t = take_result(s, id, r, at).state;
    let free = StateView { active: freed(s.active, r.worker_id, id), ..s };
    assert(places_ok(free)) by {
        assert forall|o: Seq<char>, w: Seq<char>| #[trigger] on_its_job(free, o, w) by {
            assert(on_its_job(s, o, w));
            if w != r.worker_id {
                assert(lookup(free.active, w) == lookup(s.active, w));
            }
        }
    }
    if let Some(j) = lookup(s.jobs, id) {
        if j.run_workers.contains(r.worker_id) && (j.status == pb::JobStatus::Running || j.status
            == pb::JobStatus::Cancelled) {
            lemma_numbered(s, id);
            if has_key(j.results, r.worker_id) {
                lemma_put_places(free, t, id, touched(j, r.worker_id, at));
            } else {
                lemma_put_places(free, t, id, with_result(j, r, at).0);
            }
        }
    }
}

proof fn lemma_forget_places(s: StateView, at: Clock)
    requires
        valid(s),
        places_ok(s),
    ensures
        places_ok(after(s, Action::Forget, at)),
{
    let limit = cutoff(s.config.scheduler.job_retention, at);
    let t = after(s, Action::Forget, at);
    crate::gc::law_only_expired_jobs_are_forgotten(s.jobs, limit, Seq::empty());
    assert forall|o: Seq<char>, w: Seq<char>| #[trigger] on_its_job(t, o, w) by {
        crate::gc::law_only_expired_jobs_are_forgotten(s.jobs, limit, o);
        assert(on_its_job(s, o, w));
    }
    assert forall|i: int| 0 <= i < t.jobs.len() implies numbered_places((#[trigger] t.jobs[i]).1) by {
        let id = t.jobs[i].0;
        lemma_entry(t.jobs, i);
        crate::gc::law_only_expired_jobs_are_forgotten(s.jobs, limit, id);
        assert(lookup(t.jobs, id) == Some(t.jobs[i].1));
        lemma_numbered(s, id);
    }
}

proof fn lemma_create_places(
    s: StateView,
    spec: pb::BenchSpecView,
    typed: BenchSpec,
    probes: Seq<(Seq<char>, Probe)>,
    id: Seq<char>,
    at: Clock,
)
    requires
        valid(s),
        places_ok(s),
        !has_key(s.jobs, id),
    ensures
        places_ok(enqueue(s, spec, typed, probes, id, at).state),
{
    let t = enqueue(s, spec, typed, probes, id, at).state;
    if t != s {
        let mount = lookup(s.config.filesystems, typed.fs_name@)->Some_0;
        let j = new_job(
            id,
            stored_spec(spec),
            crate::spec::redact::secrets_of(spec),
            mount,
            typed.target_workers,
            at.wall_ms,
        );
        lemma_put_facts(s.jobs, id, j);
        assert forall|i: int| 0 <= i < t.jobs.len() implies numbered_places(
            (#[trigger] t.jobs[i]).1,
        ) by {
            if t.jobs[i] != (id, j) {
                assert(t.jobs[i] == s.jobs[i]);
            }
        }
        assert forall|o: Seq<char>, w: Seq<char>| #[trigger] on_its_job(t, o, w) by {
            assert(on_its_job(s, o, w));
        }
    }
}

proof fn lemma_cancel_places(s: StateView, id: Seq<char>, at: Clock)
    requires
        valid(s),
        places_ok(s),
    ensures
        places_ok(cancel(s, id, at).state),
{
    let t = cancel(s, id, at).state;
    if let Some(j) = lookup(s.jobs, id) {
        if !is_end(j.status) {
            lemma_numbered(s, id);
            lemma_released(s.active, keys_of(j.assignments), id);
            lemma_put_places(s, t, id, ended(j, pb::JobStatus::Cancelled, j.error, at));
        }
    }
}

proof fn lemma_ready_places(
    s: StateView,
    id: Seq<char>,
    worker: Seq<char>,
    error: Option<Seq<char>>,
    at: Clock,
)
    requires
        valid(s),
        places_ok(s),
    ensures
        places_ok(ready(s, id, worker, error, at).state),
{
    let t = ready(s, id, worker, error, at).state;
    if let Some(j) = lookup(s.jobs, id) {
        if !is_end(j.status) && has_key(j.assignments, worker) {
            lemma_numbered(s, id);
            lemma_released(s.active, keys_of(j.assignments), id);
            let heard = touched(j, worker, at);
            match error {
                Some(reason) => if j.status != pb::JobStatus::Preparing {
                    lemma_put_places(s, t, id, heard);
                } else {
                    let why = Some(crate::scheduler::ready::ready_failure(worker, reason));
                    lemma_put_places(s, t, id, ended(heard, pb::JobStatus::Failed, why, at));
                },
                None => {
                    let delay = crate::scheduler::ready::delay_ms(
                        s.config.scheduler.start_delay,
                    );
                    lemma_put_places(s, t, id, readied(heard, worker, delay, at).0);
                },
            }
        }
    }
}

proof fn lemma_files_places(s: StateView, id: Seq<char>, worker: Seq<char>, asked: i32, at: Clock)
    requires
        valid(s),
        places_ok(s),
    ensures
        places_ok(file_batch(s, id, worker, asked, at).state),
{
    let t = file_batch(s, id, worker, asked, at).state;
    if let Some(j) = lookup(s.jobs, id) {
        lemma_numbered(s, id);
        if j.run_workers.contains(worker) {
            if j.status == pb::JobStatus::Cancelled {
                lemma_put_places(s, t, id, touched(j, worker, at));
            } else if j.status == pb::JobStatus::Running {
                if let Some(q) = j.file_queue {
                    let n = crate::service::worker_rpc::batch_size(asked);
                    let k = crate::manifest::queue::batch_len(q.items.len(), n);
                    let rest = crate::manifest::queue::QueueView { items: q.items.skip(k), ..q };
                    lemma_put_places(
                        s,
                        t,
                        id,
                        JobView { file_queue: Some(rest), ..touched(j, worker, at) },
                    );
                }
            }
        }
    }
}

proof fn lemma_progress_places(s: StateView, id: Seq<char>, p: pb::WorkerProgressView, at: Clock)
    requires
        valid(s),
        places_ok(s),
    ensures
        places_ok(crate::service::worker_rpc::progress(s, id, p, at).state),
{
    let t = crate::service::worker_rpc::progress(s, id, p, at).state;
    if let Some(j) = lookup(s.jobs, id) {
        lemma_numbered(s, id);
        if j.status == pb::JobStatus::Cancelled {
            lemma_put_places(s, t, id, touched(j, p.worker_id, at));
        } else if !is_end(j.status) && has_key(j.assignments, p.worker_id) {
            lemma_put_places(
                s,
                t,
                id,
                JobView {
                    progress: put(
                        j.progress,
                        p.worker_id,
                        crate::service::worker_rpc::kept_progress(p),
                    ),
                    ..touched(j, p.worker_id, at)
                },
            );
        }
    }
}

proof fn lemma_reading_places(s: StateView, id: Seq<char>, reason: Seq<char>, at: Clock)
    requires
        valid(s),
        places_ok(s),
    ensures
        places_ok(failed_reading(s, id, reason, at).0),
{
    let t = failed_reading(s, id, reason, at).0;
    if let Some(j) = lookup(s.jobs, id) {
        if !is_end(j.status) {
            lemma_numbered(s, id);
            lemma_released(s.active, keys_of(j.assignments), id);
            let why = Some("manifest reader: "@ + reason);
            lemma_put_places(s, t, id, ended(j, pb::JobStatus::Failed, why, at));
        }
    }
}

/// The places of a job are numbered from zero in the order in which they were
/// taken, so that no two workers have the same number, whatever is asked of the
/// master except for one thing: a result from a worker whose job still waits for
/// workers, which would let that worker take a second place.
pub proof fn law_places_are_numbered(s: StateView, a: Action, at: Clock)
    requires
        valid(s),
        places_ok(s),
        fresh(s, a),
        !too_early(s, a),
    ensures
        places_ok(after(s, a, at)),
{
    match a {
        Action::Create { id, spec, typed, probes } => {
            lemma_create_places(s, spec, typed, probes, id, at);
        },
        Action::Cancel { id } => {
            lemma_cancel_places(s, id, at);
        },
        Action::Fetch { worker } => {
            lemma_fetch_places(s, worker, at);
        },
        Action::Ready { id, worker, error } => {
            lemma_ready_places(s, id, worker, error, at);
        },
        Action::Files { id, worker, asked } => {
            lemma_files_places(s, id, worker, asked, at);
        },
        Action::Progress { id, report } => {
            if let Some(p) = report {
                lemma_progress_places(s, id, p, at);
            }
        },
        Action::Result { id, result } => {
            if let Some(r) = result {
                lemma_result_places(s, id, r, at);
            }
        },
        Action::ReadingFailed { id, reason } => {
            lemma_reading_places(s, id, reason, at);
        },
        Action::LookForLost => {
            lemma_swept_places(s, at);
        },
        Action::Forget => {
            lemma_forget_places(s, at);
        },
    }
}

/// What clients are told of a job shows no secret.
pub proof fn law_clients_see_no_secret(s: StateView, id: Seq<char>)
    requires
        valid(s),
    ensures
        lookup(s.jobs, id) matches Some(j) ==> (crate::service::cli_rpc::query_answer(
            j,
        ).job matches Some(m) && (m.spec matches Some(p) && redacted_view(p) == p)),
{
    if has_key(s.jobs, id) {
        lemma_job_ok(s, id);
    }
}

} // verus!
