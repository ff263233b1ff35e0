//! What the master owes its workers: what each report comes to, and how it is
//! answered.

use vstd::prelude::*;

use crate::events::NoticeView;
use crate::id::id_check;
use crate::lifecycle::{
    after, crew_ok, lemma_found, lemma_given_is_current, lemma_job_ok, lemma_key, lemma_keys_unique,
    lemma_released, outcome, queued_if_waiting, valid, Action,
};
use crate::manifest::{reading_of, with_queue};
use crate::manifest::queue::{batch_len, QueueView};
use crate::metrics::aggregate::summary_of;
use crate::pb;
use crate::pb::WorkerPhase;
use crate::scheduler::fetch_job::{assign, current_job, fetch, place};
use crate::scheduler::ready::{delay_ms, readied, ready, ready_failure};
use crate::scheduler::release::released;
use crate::service::worker_rpc::{
    batch_size, checked, file_batch, final_progress, kept_progress, progress_request,
    result_request, with_result,
};
use crate::spec::{is_spec_of, spec_of, BenchSpec, ConvertFault, MetadataOp, ReadSource};
use crate::state::StateView;
use crate::state::job::{assigned, ended, is_end, preparing, remaining, touched, JobView};
use crate::strmap::{
    del, has_key, keys_distinct, keys_of, lemma_del_facts, lemma_put_facts, lookup, position, put,
};
use crate::time::Clock;
use crate::views::{seq_views, values_of};

verus! {

/// Whether the `n`th notice is an event that shows `q` among the progress of the
/// workers.
pub open spec fn shows_progress(
    notices: Seq<NoticeView>,
    n: int,
    q: pb::WorkerProgressView,
) -> bool {
    0 <= n < notices.len() && (notices[n] matches NoticeView::Event(e)
        && e.worker_progress.contains(q))
}

/// The progress of a worker that has a place in a job is kept and told to those
/// who watch the job. While the worker warms up or measures, it is kept as it
/// came; else without counts. Nothing else of the job changes but when the worker
/// was last heard of.
pub proof fn law_progress_is_kept_and_told(
    s: StateView,
    id: Seq<char>,
    p: pb::WorkerProgressView,
    at: Clock,
)
    requires
        valid(s),
        id_check(p.worker_id) is Ok,
        lookup(s.jobs, id) matches Some(j) && !is_end(j.status) && has_key(
            j.assignments,
            p.worker_id,
        ),
    ensures
        ({
            let j = lookup(s.jobs, id)->Some_0;
            let step = progress_request(s, id, Some(p), at);
            let w = p.worker_id;
            &&& step.result matches Ok(a) && !a.cancelled && !a.unknown_job
            &&& lookup(step.state.jobs, id) matches Some(k) && (lookup(k.progress, w) matches Some(
                q,
            ) && {
                &&& p.phase == WorkerPhase::Warmup.code() || p.phase
                    == WorkerPhase::Measuring.code() ==> q == p
                &&& p.phase != WorkerPhase::Warmup.code() && p.phase
                    != WorkerPhase::Measuring.code() ==> q.per_op.len() == 0
                &&& q.worker_id == w && q.elapsed_ms == p.elapsed_ms && q.phase == p.phase
                &&& shows_progress(step.notices, 0, q)
                &&& k.last_seen.dom().contains(w) && k.last_seen[w] == at.mono_ns
                &&& k == (JobView { progress: k.progress, last_seen: k.last_seen, ..j })
                &&& forall|o: Seq<char>|
                    o != w ==> #[trigger] lookup(k.progress, o) == lookup(j.progress, o)
            })
            &&& step.notices.len() == 1
            &&& step.notices[0]->Event_0.kind == pb::EventKind::Progress.code()
            &&& forall|o: Seq<char>|
                o != id ==> #[trigger] lookup(step.state.jobs, o) == lookup(s.jobs, o)
        }),
{
    let j = lookup(s.jobs, id)->Some_0;
    lemma_job_ok(s, id);
    let step = progress_request(s, id, Some(p), at);
    let q = kept_progress(p);
    let w = p.worker_id;
    lemma_put_facts(j.progress, w, q);
    let n = JobView { progress: put(j.progress, w, q), ..touched(j, w, at) };
    lemma_put_facts(s.jobs, id, n);
    lemma_found(n.progress, w);
    let i = position(n.progress, w);
    let shown = step.notices[0]->Event_0.worker_progress;
    assert(shown == values_of(n.progress));
    assert(shown[i] == q);
    assert(shown.contains(q));
}

/// A report on a job that the worker has no place in, or that has ended without
/// being cancelled, is answered with that; one on a cancelled job too.
pub proof fn law_progress_of_others_is_turned_away(
    s: StateView,
    id: Seq<char>,
    p: pb::WorkerProgressView,
    at: Clock,
)
    requires
        id_check(p.worker_id) is Ok,
    ensures
        ({
            let step = progress_request(s, id, Some(p), at);
            match lookup(s.jobs, id) {
                None => step.state == s && step.notices.len() == 0 && (step.result matches Ok(a)
                    && a.unknown_job && !a.cancelled),
                Some(j) => {
                    &&& j.status == pb::JobStatus::Cancelled ==> step.notices.len() == 0 && (
                    step.result matches Ok(a) && a.cancelled && !a.unknown_job)
                    &&& j.status == pb::JobStatus::Completed || j.status == pb::JobStatus::Failed || (
                    j.status != pb::JobStatus::Cancelled && !has_key(j.assignments, p.worker_id))
                        ==> step.state == s && step.notices.len() == 0 && (step.result matches Ok(a)
                        && a.unknown_job && !a.cancelled)
                },
            }
        }),
{
}

/// The first result of a worker that takes part in a running job is kept, with it
/// its last counts as progress, and the worker is free. A failure fails the job
/// for the reason that the worker gives; a job that ends is summed up over all
/// results that it has.
pub proof fn law_result_is_taken(
    s: StateView,
    id: Seq<char>,
    r: pb::WorkerResultView,
    at: Clock,
)
    requires
        valid(s),
        id_check(r.worker_id) is Ok,
        lookup(s.jobs, id) matches Some(j) && j.status == pb::JobStatus::Running
            && j.run_workers.contains(r.worker_id) && !has_key(j.results, r.worker_id),
    ensures
        ({
            let j = lookup(s.jobs, id)->Some_0;
            let w = r.worker_id;
            let step = result_request(s, id, Some(r), at);
            &&& step.result matches Ok(a) && !a.unknown_job
            &&& lookup(step.state.active, w) != Some(id)
            &&& forall|o: Seq<char>|
                o != w ==> #[trigger] lookup(step.state.active, o) == lookup(s.active, o)
            &&& lookup(step.state.jobs, id) matches Some(k) && {
                &&& lookup(k.results, w) == Some(r)
                &&& forall|o: Seq<char>|
                    o != w ==> #[trigger] lookup(k.results, o) == lookup(j.results, o)
                &&& lookup(k.progress, w) matches Some(q) && q.worker_id == w && q.per_op
                    == r.per_op && q.elapsed_ms == r.effective_duration_ms && (r.success ==> q.phase
                    == WorkerPhase::Finished.code())
                &&& k.last_seen.dom().contains(w) && k.last_seen[w] == at.mono_ns
                &&& !r.success ==> k.status == pb::JobStatus::Failed && k.error == Some(
                    match r.error {
                        Some(e) => e,
                        None => "worker "@ + w + " reported failure"@,
                    },
                )
                &&& r.success ==> k.error == j.error && k.status != pb::JobStatus::Failed
                    && k.status != pb::JobStatus::Cancelled
                &&& r.success && (exists|o: Seq<char>| #[trigger]
                    j.run_workers.contains(o) && o != w && !has_key(j.results, o)) ==> k.status
                    == pb::JobStatus::Running
                &&& is_end(k.status) ==> is_summed_up(k) && (j.terminal_at_ms is None
                    ==> k.terminal_at_ms == Some(at.wall_ms))
            }
        }),
{
    let j = lookup(s.jobs, id)->Some_0;
    let w = r.worker_id;
    lemma_job_ok(s, id);
    lemma_put_facts(j.results, w, r);
    lemma_put_facts(j.progress, w, final_progress(r));
    lemma_del_facts(s.active, w);
    let n = with_result(j, r, at).0;
    lemma_put_facts(s.jobs, id, n);
    if r.success && (exists|o: Seq<char>| #[trigger]
        j.run_workers.contains(o) && o != w && !has_key(j.results, o)) {
        let o = choose|o: Seq<char>| #[trigger]
            j.run_workers.contains(o) && o != w && !has_key(j.results, o);
        let results = put(j.results, w, r);
        lemma_not_all_handed_in(j, results, o);
    }
}

/// Whether what is shown of a job over all workers comes from the results that it
/// has.
pub open spec fn is_summed_up(k: JobView) -> bool {
    let sums = summary_of(values_of(k.results));
    &&& k.aggregated == Some(sums.aggregated)
    &&& k.window_misaligned == sums.window_misaligned
    &&& k.success_worker_count == sums.success_worker_count
    &&& k.missing_histogram_count == sums.missing_histogram_count
}

proof fn lemma_not_all_handed_in(
    j: JobView,
    results: Seq<(Seq<char>, pb::WorkerResultView)>,
    o: Seq<char>,
)
    requires
        crew_ok(j),
        keys_distinct(j.assignments),
        keys_distinct(results),
        j.run_workers.contains(o),
        !has_key(results, o),
        forall|w: Seq<char>| #[trigger] has_key(results, w) ==> has_key(j.results, w)
            || j.run_workers.contains(w),
    ensures
        results.len() != j.run_workers.len(),
{
    let names = keys_of(results);
    let crew = j.run_workers;
    lemma_keys_unique(results);
    lemma_keys_unique(j.assignments);
    names.unique_seq_to_set();
    crew.unique_seq_to_set();
    vstd::seq_lib::seq_to_set_is_finite(names);
    vstd::seq_lib::seq_to_set_is_finite(crew);
    assert forall|w: Seq<char>| names.to_set().contains(w) implies crew.to_set().contains(w) by {
        lemma_key(results, w);
        lemma_key(j.results, w);
        assert(has_key(results, w));
    }
    if results.len() == crew.len() {
        vstd::set_lib::lemma_subset_equality(names.to_set(), crew.to_set());
        assert(names.to_set().contains(o)) by {
            assert(crew.to_set().contains(o));
        }
        lemma_key(results, o);
    }
}

/// A result of a worker that does not take part, or on a job that neither runs nor
/// was cancelled, changes no job; and whatever comes of a result, its worker is
/// free.
pub proof fn law_other_results_are_turned_away(
    s: StateView,
    id: Seq<char>,
    r: pb::WorkerResultView,
    at: Clock,
)
    requires
        valid(s),
        id_check(r.worker_id) is Ok,
    ensures
        ({
            let step = result_request(s, id, Some(r), at);
            &&& lookup(step.state.active, r.worker_id) != Some(id)
            &&& (lookup(s.jobs, id) matches Some(j) ==> !j.run_workers.contains(r.worker_id) || (
            j.status != pb::JobStatus::Running && j.status != pb::JobStatus::Cancelled)) ==> (
            step.result matches Ok(a) && a.unknown_job) && step.state.jobs == s.jobs
                && step.notices.len() == 0
            &&& lookup(s.jobs, id) matches Some(j) ==> j.status == pb::JobStatus::Cancelled ==> (
            lookup(step.state.jobs, id) matches Some(k) && k.status == pb::JobStatus::Cancelled
                && k.results == j.results)
        }),
{
    lemma_del_facts(s.active, r.worker_id);
    if let Some(j) = lookup(s.jobs, id) {
        lemma_put_facts(s.jobs, id, touched(j, r.worker_id, at));
        lemma_put_facts(s.jobs, id, with_result(j, r, at).0);
    }
}

/// A worker that takes part in a running job is given the files at the front of
/// the job's queue, which then holds the others: as many as it asks for, a
/// thousand where it does not say, ten thousand at most, or all that are there.
/// It is told that no more will come only where none was given, the list was read
/// to its end, and the queue is empty.
pub proof fn law_files_come_from_the_front(
    s: StateView,
    id: Seq<char>,
    worker: Seq<char>,
    asked: i32,
    at: Clock,
)
    requires
        valid(s),
        id_check(worker) is Ok,
        lookup(s.jobs, id) matches Some(j) && j.status == pb::JobStatus::Running
            && j.run_workers.contains(worker) && j.file_queue is Some,
    ensures
        ({
            let j = lookup(s.jobs, id)->Some_0;
            let q = j.file_queue->Some_0;
            let limit = if asked <= 0 {
                1_000
            } else if asked > 10_000 {
                10_000
            } else {
                asked as int
            };
            let step = checked(s, worker, file_batch(s, id, worker, asked, at));
            &&& step.notices.len() == 0
            &&& step.result matches Ok(b) && !b.cancelled && !b.unknown_job && (lookup(
                step.state.jobs,
                id,
            ) matches Some(k) && (k.file_queue matches Some(rest) && {
                &&& b.files.len() <= limit
                &&& b.files.len() == limit || rest.items.len() == 0
                &&& b.files.len() + rest.items.len() == q.items.len()
                &&& forall|i: int|
                    0 <= i < b.files.len() ==> #[trigger] b.files[i] == q.items[i]@
                &&& forall|i: int|
                    0 <= i < rest.items.len() ==> #[trigger] rest.items[i] == q.items[b.files.len()
                        + i]
                &&& rest.closed == q.closed && rest.capacity == q.capacity
                &&& !b.has_more <==> b.files.len() == 0 && j.manifest_done && rest.items.len() == 0
                &&& k.last_seen.dom().contains(worker) && k.last_seen[worker] == at.mono_ns
                &&& k == (JobView { file_queue: k.file_queue, last_seen: k.last_seen, ..j })
            }))
        }),
{
    let j = lookup(s.jobs, id)->Some_0;
    let q = j.file_queue->Some_0;
    let step = file_batch(s, id, worker, asked, at);
    let n = batch_size(asked);
    let k = batch_len(q.items.len(), n);
    let rest = QueueView { items: q.items.skip(k), ..q };
    lemma_put_facts(
        s.jobs,
        id,
        JobView { file_queue: Some(rest), ..touched(j, worker, at) },
    );
    let b = step.result->Ok_0;
    assert(b.files.len() == k);
    assert forall|i: int| 0 <= i < b.files.len() implies #[trigger] b.files[i] == q.items[i]@ by {
        assert(seq_views(q.items.take(k))[i] == q.items.take(k)[i]@);
    }
}

/// No files are given to a worker that does not take part, on a job that does not
/// run, or that has no list of files; a worker of a cancelled job is told so.
pub proof fn law_files_are_for_running_jobs(
    s: StateView,
    id: Seq<char>,
    worker: Seq<char>,
    asked: i32,
    at: Clock,
)
    requires
        valid(s),
        id_check(worker) is Ok,
        lookup(s.jobs, id) matches Some(j) ==> !(j.status == pb::JobStatus::Running
            && j.run_workers.contains(worker) && j.file_queue is Some),
    ensures
        ({
            let step = checked(s, worker, file_batch(s, id, worker, asked, at));
            let cancelled = lookup(s.jobs, id) matches Some(j) && j.status
                == pb::JobStatus::Cancelled && j.run_workers.contains(worker);
            &&& step.notices.len() == 0
            &&& step.result matches Ok(b) && b.files.len() == 0 && !b.has_more && b.cancelled
                == cancelled && b.unknown_job == !cancelled
            &&& !cancelled ==> step.state == s
        }),
{
}

/// Whether every worker that takes part is ready but for `worker`.
pub open spec fn others_are_ready(j: JobView, worker: Seq<char>) -> bool {
    forall|o: Seq<char>| #[trigger]
        j.run_workers.contains(o) && o != worker ==> j.ready_workers.contains(o)
}

/// When the last worker of a job that prepares gets ready, the job runs; all of
/// its workers are told the same time to start, which lies the configured delay
/// ahead of then. A worker that gets ready before the last is told of no time.
pub proof fn law_start_is_set_when_all_are_ready(
    s: StateView,
    id: Seq<char>,
    worker: Seq<char>,
    at: Clock,
)
    requires
        valid(s),
        id_check(worker) is Ok,
        lookup(s.jobs, id) matches Some(j) && !is_end(j.status) && has_key(j.assignments, worker),
        s.config.scheduler.start_delay.nanos / 1_000_000 <= i64::MAX,
    ensures
        ({
            let j = lookup(s.jobs, id)->Some_0;
            let step = checked(s, worker, ready(s, id, worker, None, at));
            let due = at.wall_ms + s.config.scheduler.start_delay.nanos / 1_000_000;
            &&& step.result matches Ok(a) && !a.cancelled && !a.unknown_job && a.master_now_ms
                == at.wall_ms && (lookup(step.state.jobs, id) matches Some(k) && {
                &&& a.start_at_ms == k.start_at_ms
                &&& k.last_seen.dom().contains(worker) && k.last_seen[worker] == at.mono_ns
                &&& j.status == pb::JobStatus::Preparing && j.run_workers.len() > 0
                    && others_are_ready(j, worker) ==> k.status == pb::JobStatus::Running
                    && k.start_at_ms == (if due > i64::MAX {
                    i64::MAX as int
                } else {
                    due
                })
                &&& j.status == pb::JobStatus::Preparing && !others_are_ready(j, worker)
                    ==> k.status == j.status && k.start_at_ms == 0 && k.ready_workers.contains(
                    worker,
                )
                &&& j.status == pb::JobStatus::Pending ==> k.status == j.status && k.start_at_ms == 0
                    && k.ready_workers.contains(worker)
                &&& j.status == pb::JobStatus::Running ==> k.status == j.status && k.start_at_ms
                    == j.start_at_ms
                &&& forall|o: Seq<char>|
                    o != worker ==> #[trigger] k.ready_workers.contains(o)
                        == j.ready_workers.contains(o)
            })
        }),
{
    let j = lookup(s.jobs, id)->Some_0;
    lemma_job_ok(s, id);
    let t = touched(j, worker, at);
    let delay = delay_ms(s.config.scheduler.start_delay);
    let k = readied(t, worker, delay, at).0;
    lemma_put_facts(s.jobs, id, k);
    lemma_key(j.assignments, worker);
    if j.status == pb::JobStatus::Preparing {
        let crew = j.run_workers;
        let now = j.ready_workers.insert(worker);
        lemma_keys_unique(j.assignments);
        crew.unique_seq_to_set();
        vstd::seq_lib::seq_to_set_is_finite(crew);
        if crew.len() > 0 {
            assert(crew == keys_of(j.assignments));
            assert forall|o: Seq<char>| now.contains(o) implies crew.to_set().contains(o) by {
                if o != worker {
                    assert(j.ready_workers.contains(o));
                }
            }
            if others_are_ready(j, worker) {
                assert(now =~= crew.to_set()) by {
                    assert forall|o: Seq<char>| crew.to_set().contains(o) implies now.contains(
                        o,
                    ) by {
                        assert(crew.contains(o));
                    }
                }
            } else {
                let o = choose|o: Seq<char>| #[trigger]
                    crew.contains(o) && o != worker && !j.ready_workers.contains(o);
                if now.len() == crew.len() {
                    vstd::set_lib::lemma_subset_equality(now, crew.to_set());
                    assert(crew.to_set().contains(o));
                }
            }
        }
    }
}

/// A worker of a job that prepares that cannot get ready fails the job, which then
/// tells which worker it was and why.
pub proof fn law_failure_to_get_ready_fails_the_job(
    s: StateView,
    id: Seq<char>,
    worker: Seq<char>,
    reason: Seq<char>,
    at: Clock,
)
    requires
        valid(s),
        id_check(worker) is Ok,
        lookup(s.jobs, id) matches Some(j) && !is_end(j.status) && has_key(j.assignments, worker),
    ensures
        ({
            let j = lookup(s.jobs, id)->Some_0;
            let step = checked(s, worker, ready(s, id, worker, Some(reason), at));
            &&& step.result matches Ok(a) && !a.cancelled && a.start_at_ms == 0 && a.master_now_ms
                == at.wall_ms && a.unknown_job == (j.status != pb::JobStatus::Preparing)
            &&& lookup(step.state.jobs, id) matches Some(k) && if j.status
                == pb::JobStatus::Preparing {
                &&& k.status == pb::JobStatus::Failed
                &&& k.error == Some("worker "@ + worker + " reported ready failure: "@ + reason)
                &&& is_summed_up(k)
            } else {
                k == (JobView { last_seen: k.last_seen, ..j }) && step.notices.len() == 0
            }
            &&& j.status == pb::JobStatus::Preparing ==> forall|o: Seq<char>|
                has_key(j.assignments, o) ==> #[trigger] lookup(step.state.active, o) != Some(id)
        }),
{
    let j = lookup(s.jobs, id)->Some_0;
    lemma_job_ok(s, id);
    let t = touched(j, worker, at);
    lemma_put_facts(s.jobs, id, t);
    let failed = ended(
        t,
        pb::JobStatus::Failed,
        Some(ready_failure(worker, reason)),
        at,
    );
    lemma_put_facts(s.jobs, id, failed);
    lemma_released(s.active, keys_of(j.assignments), id);
    assert forall|o: Seq<char>|
        has_key(j.assignments, o) && j.status == pb::JobStatus::Preparing implies #[trigger] lookup(
        released(s.active, keys_of(j.assignments), id),
        o,
    ) != Some(id) by {
        lemma_key(j.assignments, o);
    }
}

/// A worker without a place in a job that goes on is told that the job is not
/// known, a worker on a cancelled job that it is cancelled; nothing changes.
pub proof fn law_ready_of_others_is_turned_away(
    s: StateView,
    id: Seq<char>,
    worker: Seq<char>,
    error: Option<Seq<char>>,
    at: Clock,
)
    requires
        id_check(worker) is Ok,
        lookup(s.jobs, id) matches Some(j) ==> is_end(j.status) || !has_key(j.assignments, worker),
    ensures
        ({
            let step = checked(s, worker, ready(s, id, worker, error, at));
            let cancelled = lookup(s.jobs, id) matches Some(j) && j.status
                == pb::JobStatus::Cancelled;
            &&& step.state == s && step.notices.len() == 0
            &&& step.result matches Ok(a) && a.cancelled == cancelled && a.unknown_job == !cancelled
                && a.start_at_ms == 0 && a.master_now_ms == at.wall_ms
        }),
{
}

/// What a worker is offered is a job that goes on, as the job was asked for: its
/// specification, where its file system is mounted, and the credentials for it.
/// The worker has a place in the job, is on it, and is told which place it has.
/// Where it is offered nothing, it is told nothing but the time.
pub proof fn law_offers_are_complete(s: StateView, worker: Seq<char>, at: Clock)
    requires
        valid(s),
    ensures
        ({
            let step = fetch(s, worker, at);
            step.result matches Ok(o) ==> o.master_now_ms == at.wall_ms && match o.job_id {
                Some(id) => lookup(step.state.active, worker) == Some(id) && (lookup(
                    step.state.jobs,
                    id,
                ) matches Some(k) && {
                    &&& !is_end(k.status)
                    &&& o.spec == Some(k.spec)
                    &&& o.mount_point == Some(k.mount_point)
                    &&& o.s3_credentials == k.credentials
                    &&& lookup(k.assignments, worker) matches Some(a) && (a.worker_index <= i32::MAX
                        ==> o.worker_index == Some(a.worker_index as i32))
                    &&& k.last_seen.dom().contains(worker) && k.last_seen[worker] == at.mono_ns
                }),
                None => o.spec is None && o.mount_point is None && o.worker_index is None
                    && o.s3_credentials is None,
            }
        }),
{
    if id_check(worker) is Ok {
        match current_job(s, worker) {
            Some((id, j)) => {
                lemma_put_facts(s.jobs, id, touched(j, worker, at));
                lemma_found(j.assignments, worker);
            },
            None => {
                lemma_del_facts(s.active, worker);
                let t = StateView { active: del(s.active, worker), ..s };
                assert forall|o: Seq<char>| #[trigger] queued_if_waiting(t, o) by {
                    assert(queued_if_waiting(s, o));
                }
                lemma_given_is_current(t, worker, at);
                lemma_given_is_heard(t, worker, at);
            },
        }
    }
}

/// Whoever is given a place is heard of.
proof fn lemma_given_is_heard(s: StateView, worker: Seq<char>, at: Clock)
    requires
        keys_distinct(s.jobs),
        keys_distinct(s.active),
    ensures
        assign(s, worker, at).result matches Ok(o) && o.master_now_ms == at.wall_ms
            && match o.job_id {
            Some(id) => lookup(assign(s, worker, at).state.active, worker) == Some(id) && (lookup(
                assign(s, worker, at).state.jobs,
                id,
            ) matches Some(k) && k.last_seen.dom().contains(worker) && k.last_seen[worker]
                == at.mono_ns),
            None => o.spec is None && o.mount_point is None && o.worker_index is None
                && o.s3_credentials is None,
        },
    decreases s.pending.len(),
{
    if s.pending.len() > 0 {
        let id = s.pending[0];
        let shorter = StateView { pending: s.pending.drop_first(), ..s };
        match lookup(s.jobs, id) {
            None => {
                lemma_given_is_heard(shorter, worker, at);
            },
            Some(j) => {
                if j.status != pb::JobStatus::Pending {
                    lemma_given_is_heard(shorter, worker, at);
                } else if remaining(j) == 0 {
                    lemma_put_facts(s.jobs, id, preparing(j, at));
                    lemma_given_is_heard(
                        StateView { jobs: put(s.jobs, id, preparing(j, at)), ..shorter },
                        worker,
                        at,
                    );
                } else {
                    lemma_put_facts(s.active, worker, id);
                    let step = place(s, id, j, worker, at);
                    let taken = assigned(j, worker, at);
                    lemma_put_facts(s.jobs, id, taken);
                    lemma_put_facts(
                        s.jobs,
                        id,
                        with_queue(
                            preparing(taken, at),
                            s.config.scheduler.file_queue_capacity,
                        ),
                    );
                }
            },
        }
    }
}

/// Where a job with a free place comes to prepare, it was given the worker for its
/// last place.
proof fn lemma_prepares(s: StateView, worker: Seq<char>, at: Clock, id: Seq<char>)
    requires
        keys_distinct(s.jobs),
        lookup(s.jobs, id) matches Some(j) && j.status == pb::JobStatus::Pending && remaining(j)
            > 0,
        lookup(assign(s, worker, at).state.jobs, id) matches Some(k) && k.status
            == pb::JobStatus::Preparing,
    ensures
        ({
            let j = lookup(s.jobs, id)->Some_0;
            let taken = assigned(j, worker, at);
            let full = preparing(taken, at);
            &&& remaining(taken) == 0
            &&& lookup(assign(s, worker, at).state.jobs, id) == Some(
                with_queue(full, s.config.scheduler.file_queue_capacity),
            )
            &&& reading_of(full) matches Some(n) ==> assign(s, worker, at).notices.len() == 2
                && assign(s, worker, at).notices[0] == n && assign(s, worker, at).notices[1] is Event
            &&& reading_of(full) is None ==> assign(s, worker, at).notices.len() == 1 && assign(
                s,
                worker,
                at,
            ).notices[0] is Event
        }),
    decreases s.pending.len(),
{
    let j = lookup(s.jobs, id)->Some_0;
    if s.pending.len() > 0 {
        let o = s.pending[0];
        let shorter = StateView { pending: s.pending.drop_first(), ..s };
        match lookup(s.jobs, o) {
            None => {
                lemma_prepares(shorter, worker, at, id);
            },
            Some(front) => {
                if front.status != pb::JobStatus::Pending {
                    lemma_prepares(shorter, worker, at, id);
                } else if remaining(front) == 0 {
                    lemma_put_facts(s.jobs, o, preparing(front, at));
                    lemma_prepares(
                        StateView { jobs: put(s.jobs, o, preparing(front, at)), ..shorter },
                        worker,
                        at,
                        id,
                    );
                } else {
                    let taken = assigned(front, worker, at);
                    lemma_put_facts(s.jobs, o, taken);
                    lemma_put_facts(
                        s.jobs,
                        o,
                        with_queue(
                            preparing(taken, at),
                            s.config.scheduler.file_queue_capacity,
                        ),
                    );
                }
            },
        }
    }
}

/// Whether a kept specification names the lists that `p` names.
pub open spec fn names_lists_of(kept: pb::BenchSpecView, p: pb::BenchSpec) -> bool {
    &&& match (kept.read, p.read) {
        (Some(a), Some(b)) => a.file_manifest == b.file_manifest@ && a.dir_manifest
            == b.dir_manifest@ && a.loop_files == b.loop_files,
        (None, None) => true,
        _ => false,
    }
    &&& match (kept.metadata, p.metadata) {
        (Some(a), Some(b)) => a.dir_manifest == b.dir_manifest@,
        (None, None) => true,
        _ => false,
    }
}

/// The list that a specification, once read, has its files from: its path,
/// whether it lists directories, and whether it is read over and over.
pub open spec fn list_of(typed: BenchSpec) -> Option<(Seq<char>, bool, bool)> {
    match (typed.read, typed.metadata) {
        (Some(read), _) => match read.source {
            ReadSource::FileManifest { path } => Some((path@, false, read.loop_files)),
            ReadSource::DirManifest { path } => Some((path@, true, read.loop_files)),
        },
        (None, Some(meta)) => match meta.dir_manifest {
            Some(path) => Some((path@, true, false)),
            None => None,
        },
        (None, None) => None,
    }
}

/// When a job starts to prepare, the list that its specification was read to name
/// is to be read: a list of files as one of files, a list of directories as one
/// of directories; and the job has an open, empty queue for what is read. Where
/// none is named, nothing is read, and there is no queue.
pub proof fn law_lists_are_read_as_named(
    s: StateView,
    worker: Seq<char>,
    at: Clock,
    id: Seq<char>,
    p: pb::BenchSpec,
    typed: BenchSpec,
)
    requires
        valid(s),
        is_spec_of(typed, p),
        lookup(s.jobs, id) matches Some(j) && j.status == pb::JobStatus::Pending
            && j.assignments.len() < j.target_workers && j.file_queue is None && names_lists_of(
            j.spec,
            p,
        ),
        lookup(after(s, Action::Fetch { worker }, at).jobs, id) matches Some(k) && k.status
            == pb::JobStatus::Preparing,
    ensures
        ({
            let j = lookup(s.jobs, id)->Some_0;
            let k = lookup(after(s, Action::Fetch { worker }, at).jobs, id)->Some_0;
            let notices = outcome(s, Action::Fetch { worker }, at).1;
            match list_of(typed) {
                Some((path, lists_dirs, loop_files)) => {
                    &&& notices.contains(
                        NoticeView::ReadManifest {
                            job_id: j.job_id,
                            path,
                            lists_dirs,
                            loop_files,
                        },
                    )
                    &&& k.file_queue matches Some(q) && q.items.len() == 0 && !q.closed && (
                    s.config.scheduler.file_queue_capacity > 0 ==> q.capacity
                        == s.config.scheduler.file_queue_capacity)
                },
                None => k.file_queue is None && forall|n: int|
                    0 <= n < notices.len() ==> !((#[trigger] notices[n]) is ReadManifest),
            }
        }),
{
    let j = lookup(s.jobs, id)->Some_0;
    lemma_job_ok(s, id);
    let ops: Vec<MetadataOp> = match typed.metadata {
        Some(m) => m.ops,
        None => arbitrary(),
    };
    assert(spec_of(p, ops) == Ok::<BenchSpec, ConvertFault>(typed));
    if let Some((own, k)) = current_job(s, worker) {
        lemma_put_facts(s.jobs, own, touched(k, worker, at));
    }
    lemma_del_facts(s.active, worker);
    let t = StateView { active: del(s.active, worker), ..s };
    assert(id_check(worker) is Ok);
    assert(current_job(s, worker) is None);
    lemma_prepares(t, worker, at, id);
    let full = preparing(assigned(j, worker, at), at);
    let notices = outcome(s, Action::Fetch { worker }, at).1;
    if let Some(n) = reading_of(full) {
        assert(notices[0] == n);
    }
}

/// A job prepares once its last place is taken, and not before: then its workers
/// are those who have a place, and the time since which it prepares is set.
pub proof fn law_full_jobs_prepare(s: StateView, worker: Seq<char>, at: Clock, id: Seq<char>)
    requires
        valid(s),
        id_check(worker) is Ok,
        current_job(s, worker) is None,
        fetch(s, worker, at).result matches Ok(o) && o.job_id == Some(id),
    ensures
        ({
            let k = lookup(fetch(s, worker, at).state.jobs, id)->Some_0;
            &&& lookup(fetch(s, worker, at).state.jobs, id) is Some
            &&& k.assignments.len() >= k.target_workers ==> {
                &&& k.status == pb::JobStatus::Preparing
                &&& k.preparing_since == Some(at.mono_ns)
                &&& k.run_workers == keys_of(k.assignments)
            }
            &&& k.assignments.len() < k.target_workers ==> k.status == pb::JobStatus::Pending
        }),
{
    lemma_del_facts(s.active, worker);
    let t = StateView { active: del(s.active, worker), ..s };
    assert forall|o: Seq<char>| #[trigger] queued_if_waiting(t, o) by {
        assert(queued_if_waiting(s, o));
    }
    lemma_placed(t, worker, at);
}

proof fn lemma_placed(s: StateView, worker: Seq<char>, at: Clock)
    requires
        keys_distinct(s.jobs),
    ensures
        assign(s, worker, at).result matches Ok(o) && (o.job_id matches Some(id) ==> (lookup(
            assign(s, worker, at).state.jobs,
            id,
        ) matches Some(k) && {
            &&& k.assignments.len() >= k.target_workers ==> {
                &&& k.status == pb::JobStatus::Preparing
                &&& k.preparing_since == Some(at.mono_ns)
                &&& k.run_workers == keys_of(k.assignments)
            }
            &&& k.assignments.len() < k.target_workers ==> k.status == pb::JobStatus::Pending
        })),
    decreases s.pending.len(),
{
    if s.pending.len() > 0 {
        let id = s.pending[0];
        let shorter = StateView { pending: s.pending.drop_first(), ..s };
        match lookup(s.jobs, id) {
            None => {
                lemma_placed(shorter, worker, at);
            },
            Some(j) => {
                if j.status != pb::JobStatus::Pending {
                    lemma_placed(shorter, worker, at);
                } else if remaining(j) == 0 {
                    lemma_put_facts(s.jobs, id, preparing(j, at));
                    lemma_placed(
                        StateView { jobs: put(s.jobs, id, preparing(j, at)), ..shorter },
                        worker,
                        at,
                    );
                } else {
                    let taken = assigned(j, worker, at);
                    lemma_put_facts(s.jobs, id, taken);
                    lemma_put_facts(
                        s.jobs,
                        id,
                        with_queue(
                            preparing(taken, at),
                            s.config.scheduler.file_queue_capacity,
                        ),
                    );
                }
            },
        }
    }
}

} // verus!
