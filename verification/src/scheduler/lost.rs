//! What a look for lost workers comes to.

use vstd::prelude::*;

use crate::config::SchedulerConfig;
use crate::lifecycle::{lemma_found, lemma_key, lemma_released};
use crate::pb;
use crate::scheduler::staleness::{
    all_released, first_lost, interval, overdue, silence, sweep, swept_state,
};
use crate::state::job::{ended, JobView};
use crate::state::StateView;
use crate::strmap::{
    has_key, keys_distinct, keys_of, lemma_entry, lookup, position,
};
use crate::text;
use crate::time::{Clock, Duration};

verus! {

/// Whether the last sign of life of a worker was at `t`: when it last reported,
/// or when the job began to prepare where it never did.
pub open spec fn last_sign(j: JobView, worker: Seq<char>, t: u128) -> bool {
    if j.last_seen.dom().contains(worker) {
        j.last_seen[worker] == t
    } else {
        j.preparing_since == Some(t)
    }
}

/// Whether a worker has been silent for longer than `limit`, since `t`.
pub open spec fn is_lost(j: JobView, worker: Seq<char>, t: u128, limit: Duration, at: Clock) -> bool {
    last_sign(j, worker, t) && at.mono_ns > t + limit.nanos
}

/// Whether none of the first `n` workers that take part has been silent for too
/// long.
pub open spec fn none_lost(j: JobView, n: int, limit: Duration, at: Clock) -> bool {
    forall|i: int, t: u128|
        0 <= i < n && i < j.run_workers.len() ==> !#[trigger] is_lost(
            j,
            j.run_workers[i],
            t,
            limit,
            at,
        )
}

/// Whether a job has been preparing for longer than `limit`.
pub open spec fn is_late(j: JobView, limit: Duration, at: Clock) -> bool {
    j.status == pb::JobStatus::Preparing && (j.preparing_since matches Some(t) && at.mono_ns > t
        + limit.nanos)
}

/// Whether a job is one that a look may fail.
pub open spec fn is_watched(j: JobView) -> bool {
    j.status == pb::JobStatus::Preparing || j.status == pb::JobStatus::Running
}

/// What is said of a job whose worker was lost.
pub open spec fn lost_text(worker: Seq<char>, t: u128, limit: Duration, at: Clock) -> Seq<char> {
    "worker "@ + worker + " stale ("@ + text::decimal(((at.mono_ns - t) / 1_000_000) as nat)
        + " ms > worker_staleness "@ + text::decimal((limit.nanos / 1_000_000) as nat) + " ms)"@
}

proof fn lemma_silent(j: JobView, worker: Seq<char>, limit: Duration, at: Clock)
    ensures
        silence(j, worker, at) > limit.nanos <==> exists|t: u128| #[trigger]
            is_lost(j, worker, t, limit, at),
        forall|t: u128| #[trigger]
            is_lost(j, worker, t, limit, at) ==> silence(j, worker, at) == at.mono_ns - t,
{
    if silence(j, worker, at) > limit.nanos {
        let t = if j.last_seen.dom().contains(worker) {
            j.last_seen[worker]
        } else {
            j.preparing_since->Some_0
        };
        assert(is_lost(j, worker, t, limit, at));
    }
}

proof fn lemma_first_lost(j: JobView, workers: Seq<Seq<char>>, limit: Duration, at: Clock)
    ensures
        match first_lost(j, workers, limit, at) {
            Some(w) => exists|n: int|
                0 <= n < workers.len() && #[trigger] workers[n] == w && silence(j, w, at)
                    > limit.nanos && forall|i: int|
                    0 <= i < n ==> silence(j, #[trigger] workers[i], at) <= limit.nanos,
            None => forall|i: int|
                0 <= i < workers.len() ==> silence(j, #[trigger] workers[i], at) <= limit.nanos,
        },
    decreases workers.len(),
{
    if workers.len() > 0 {
        let rest = workers.drop_first();
        lemma_first_lost(j, rest, limit, at);
        if silence(j, workers[0], at) > limit.nanos {
            assert(workers[0] == first_lost(j, workers, limit, at)->Some_0);
        } else {
            match first_lost(j, rest, limit, at) {
                Some(w) => {
                    let n = choose|n: int|
                        0 <= n < rest.len() && #[trigger] rest[n] == w && silence(j, w, at)
                            > limit.nanos && forall|i: int|
                            0 <= i < n ==> silence(j, #[trigger] rest[i], at) <= limit.nanos;
                    assert(workers[n + 1] == w);
                    assert forall|i: int| 0 <= i < n + 1 implies silence(
                        j,
                        #[trigger] workers[i],
                        at,
                    ) <= limit.nanos by {
                        if i > 0 {
                            assert(rest[i - 1] == workers[i]);
                        }
                    }
                },
                None => {
                    assert forall|i: int| 0 <= i < workers.len() implies silence(
                        j,
                        #[trigger] workers[i],
                        at,
                    ) <= limit.nanos by {
                        if i > 0 {
                            assert(rest[i - 1] == workers[i]);
                        }
                    }
                },
            }
        }
    }
}

/// Whether `f` is the `i`th of the jobs, which is to fail, with its workers.
spec fn fails_with(
    jobs: Seq<(Seq<char>, JobView)>,
    cfg: SchedulerConfig,
    at: Clock,
    f: (Seq<char>, Seq<Seq<char>>),
    i: int,
) -> bool {
    0 <= i < jobs.len() && jobs[i].0 == f.0 && f.1 == keys_of(jobs[i].1.assignments) && overdue(
        jobs[i].1,
        cfg,
        at,
    ) is Some
}

/// Whether `f` is one of the jobs, which is to fail, with its workers.
spec fn one_fails_with(
    jobs: Seq<(Seq<char>, JobView)>,
    cfg: SchedulerConfig,
    at: Clock,
    f: (Seq<char>, Seq<Seq<char>>),
) -> bool {
    exists|i: int| fails_with(jobs, cfg, at, f, i)
}

/// What becomes of a job.
spec fn looked_at(e: (Seq<char>, JobView), cfg: SchedulerConfig, at: Clock) -> (
    Seq<char>,
    JobView,
) {
    match overdue(e.1, cfg, at) {
        Some(reason) => (e.0, ended(e.1, pb::JobStatus::Failed, Some(reason), at)),
        None => e,
    }
}

/// What becomes of each job.
proof fn lemma_each_job(
    jobs: Seq<(Seq<char>, JobView)>,
    cfg: SchedulerConfig,
    event_seq: i64,
    at: Clock,
)
    ensures
        sweep(jobs, cfg, event_seq, at).jobs.len() == jobs.len(),
        forall|i: int|
            0 <= i < jobs.len() ==> #[trigger] sweep(jobs, cfg, event_seq, at).jobs[i]
                == looked_at(jobs[i], cfg, at),
        forall|n: int|
            0 <= n < sweep(jobs, cfg, event_seq, at).failed.len() ==> one_fails_with(
                jobs,
                cfg,
                at,
                #[trigger] sweep(jobs, cfg, event_seq, at).failed[n],
            ),
        forall|i: int|
            0 <= i < jobs.len() && overdue((#[trigger] jobs[i]).1, cfg, at) is Some ==> sweep(
                jobs,
                cfg,
                event_seq,
                at,
            ).failed.contains((jobs[i].0, keys_of(jobs[i].1.assignments))),
    decreases jobs.len(),
{
    if jobs.len() > 0 {
        let head = jobs.drop_last();
        lemma_each_job(head, cfg, event_seq, at);
        let before = sweep(head, cfg, event_seq, at);
        let w = sweep(jobs, cfg, event_seq, at);
        let last = jobs.len() - 1;
        assert forall|i: int| 0 <= i < jobs.len() implies #[trigger] w.jobs[i] == looked_at(
            jobs[i],
            cfg,
            at,
        ) by {
            if i < last {
                assert(w.jobs[i] == before.jobs[i]);
                assert(head[i] == jobs[i]);
            }
        }
        assert forall|n: int| 0 <= n < w.failed.len() implies one_fails_with(
            jobs,
            cfg,
            at,
            #[trigger] w.failed[n],
        ) by {
            if n < before.failed.len() {
                assert(w.failed[n] == before.failed[n]);
                assert(one_fails_with(head, cfg, at, before.failed[n]));
                let i = choose|i: int| fails_with(head, cfg, at, before.failed[n], i);
                assert(fails_with(jobs, cfg, at, w.failed[n], i));
            } else {
                assert(fails_with(jobs, cfg, at, w.failed[n], last));
            }
        }
        assert forall|i: int|
            0 <= i < jobs.len() && overdue((#[trigger] jobs[i]).1, cfg, at) is Some implies w.failed.contains(
        (jobs[i].0, keys_of(jobs[i].1.assignments))) by {
            let f = (jobs[i].0, keys_of(jobs[i].1.assignments));
            if i < last {
                assert(head[i] == jobs[i]);
                let n = choose|n: int| 0 <= n < before.failed.len() && before.failed[n] == f;
                assert(w.failed[n] == f);
            } else {
                assert(w.failed[w.failed.len() - 1] == f);
            }
        }
    }
}

/// What becomes of the job `id`.
proof fn lemma_one_job(s: StateView, at: Clock, id: Seq<char>)
    requires
        keys_distinct(s.jobs),
        lookup(s.jobs, id) is Some,
    ensures
        ({
            let j = lookup(s.jobs, id)->Some_0;
            lookup(swept_state(s, at).jobs, id) == Some(
                match overdue(j, s.config.scheduler, at) {
                    Some(reason) => ended(j, pb::JobStatus::Failed, Some(reason), at),
                    None => j,
                },
            )
        }),
{
    let cfg = s.config.scheduler;
    lemma_each_job(s.jobs, cfg, s.event_seq, at);
    lemma_found(s.jobs, id);
    let p = position(s.jobs, id);
    let later = swept_state(s, at).jobs;
    assert forall|i: int, k: int| 0 <= i < k < later.len() implies #[trigger] later[i].0
        != #[trigger] later[k].0 by {
        assert(s.jobs[i].0 != s.jobs[k].0);
    }
    assert(later[p].0 == id);
    lemma_entry(later, p);
}

/// A job that prepares or runs fails as soon as any worker that takes part has
/// been silent for too long; its error names the first such worker and for how
/// long it was silent.
pub proof fn law_lost_workers_fail_their_job(
    s: StateView,
    at: Clock,
    id: Seq<char>,
    worker: Seq<char>,
    since: u128,
)
    requires
        keys_distinct(s.jobs),
        lookup(s.jobs, id) matches Some(j) && is_watched(j) && j.run_workers.contains(worker)
            && is_lost(j, worker, since, s.config.scheduler.worker_staleness, at),
    ensures
        ({
            let j = lookup(s.jobs, id)->Some_0;
            let limit = s.config.scheduler.worker_staleness;
            lookup(swept_state(s, at).jobs, id) matches Some(k) && k.status
                == pb::JobStatus::Failed && exists|n: int, t: u128|
                0 <= n < j.run_workers.len() && #[trigger] is_lost(
                    j,
                    j.run_workers[n],
                    t,
                    limit,
                    at,
                ) && none_lost(j, n, limit, at) && k.error == Some(
                    lost_text(j.run_workers[n], t, limit, at),
                )
        }),
{
    let j = lookup(s.jobs, id)->Some_0;
    let limit = s.config.scheduler.worker_staleness;
    lemma_one_job(s, at, id);
    lemma_first_lost(j, j.run_workers, limit, at);
    lemma_silent(j, worker, limit, at);
    let x = choose|x: int| 0 <= x < j.run_workers.len() && j.run_workers[x] == worker;
    assert(silence(j, j.run_workers[x], at) > limit.nanos);
    let w = first_lost(j, j.run_workers, limit, at)->Some_0;
    let n = choose|n: int|
        0 <= n < j.run_workers.len() && #[trigger] j.run_workers[n] == w && silence(j, w, at)
            > limit.nanos && forall|i: int|
            0 <= i < n ==> silence(j, #[trigger] j.run_workers[i], at) <= limit.nanos;
    lemma_silent(j, w, limit, at);
    let t = choose|t: u128| #[trigger] is_lost(j, w, t, limit, at);
    assert forall|i: int, u: u128|
        0 <= i < n && i < j.run_workers.len() implies !#[trigger] is_lost(
        j,
        j.run_workers[i],
        u,
        limit,
        at,
    ) by {
        lemma_silent(j, j.run_workers[i], limit, at);
    }
    assert(is_lost(j, j.run_workers[n], t, limit, at));
}

/// A job that has been preparing for too long fails, unless it fails for a lost
/// worker.
pub proof fn law_late_jobs_fail(s: StateView, at: Clock, id: Seq<char>)
    requires
        keys_distinct(s.jobs),
        lookup(s.jobs, id) matches Some(j) && is_late(j, s.config.scheduler.prepare_timeout, at),
    ensures
        lookup(swept_state(s, at).jobs, id) matches Some(k) && k.status == pb::JobStatus::Failed && (
        none_lost(
            lookup(s.jobs, id)->Some_0,
            lookup(s.jobs, id)->Some_0.run_workers.len() as int,
            s.config.scheduler.worker_staleness,
            at,
        ) ==> k.error == Some(
            "PREPARING exceeded prepare_timeout ("@ + text::decimal(
                (s.config.scheduler.prepare_timeout.nanos / 1_000_000) as nat,
            ) + " ms) without all ReportReady"@,
        )),
{
    let j = lookup(s.jobs, id)->Some_0;
    let limit = s.config.scheduler.worker_staleness;
    lemma_one_job(s, at, id);
    lemma_first_lost(j, j.run_workers, limit, at);
    if let Some(w) = first_lost(j, j.run_workers, limit, at) {
        let n = choose|n: int|
            0 <= n < j.run_workers.len() && #[trigger] j.run_workers[n] == w && silence(j, w, at)
                > limit.nanos && forall|i: int|
                0 <= i < n ==> silence(j, #[trigger] j.run_workers[i], at) <= limit.nanos;
        lemma_silent(j, w, limit, at);
        let t = choose|t: u128| #[trigger] is_lost(j, w, t, limit, at);
        assert(is_lost(j, j.run_workers[n], t, limit, at));
    }
}

/// A job whose workers all gave a sign of life in time and that is not late in
/// preparing is left as it is, and so is one that waits or has ended.
pub proof fn law_other_jobs_are_left_alone(s: StateView, at: Clock, id: Seq<char>)
    requires
        keys_distinct(s.jobs),
        lookup(s.jobs, id) matches Some(j) && (!is_watched(j) || (none_lost(
            j,
            j.run_workers.len() as int,
            s.config.scheduler.worker_staleness,
            at,
        ) && !is_late(j, s.config.scheduler.prepare_timeout, at))),
    ensures
        lookup(swept_state(s, at).jobs, id) == lookup(s.jobs, id),
{
    let j = lookup(s.jobs, id)->Some_0;
    let limit = s.config.scheduler.worker_staleness;
    lemma_one_job(s, at, id);
    lemma_first_lost(j, j.run_workers, limit, at);
    if is_watched(j) {
        if let Some(w) = first_lost(j, j.run_workers, limit, at) {
            let n = choose|n: int|
                0 <= n < j.run_workers.len() && #[trigger] j.run_workers[n] == w && silence(
                    j,
                    w,
                    at,
                ) > limit.nanos && forall|i: int|
                    0 <= i < n ==> silence(j, #[trigger] j.run_workers[i], at) <= limit.nanos;
            lemma_silent(j, w, limit, at);
            let t = choose|t: u128| #[trigger] is_lost(j, w, t, limit, at);
            assert(is_lost(j, j.run_workers[n], t, limit, at));
        }
    }
}

proof fn lemma_freed(
    active: Seq<(Seq<char>, Seq<char>)>,
    failed: Seq<(Seq<char>, Seq<Seq<char>>)>,
    worker: Seq<char>,
)
    requires
        keys_distinct(active),
    ensures
        keys_distinct(all_released(active, failed)),
        match lookup(all_released(active, failed), worker) {
            Some(id) => lookup(active, worker) == Some(id) && forall|n: int|
                0 <= n < failed.len() && (#[trigger] failed[n]).0 == id
                    ==> !failed[n].1.contains(worker),
            None => lookup(active, worker) is None || exists|n: int|
                0 <= n < failed.len() && lookup(active, worker) == Some((#[trigger] failed[n]).0),
        },
    decreases failed.len(),
{
    if failed.len() > 0 {
        let head = failed.drop_last();
        lemma_freed(active, head, worker);
        let before = all_released(active, head);
        lemma_released(before, failed.last().1, failed.last().0);
        let now = lookup(all_released(active, failed), worker);
        let last = failed.len() - 1;
        assert(failed[last] == failed.last());
        assert(now == lookup(before, worker) || (lookup(before, worker) == Some(failed[last].0)
            && now is None));
        match now {
            Some(id) => {
                assert forall|n: int|
                    0 <= n < failed.len() && (#[trigger] failed[n]).0 == id implies !failed[n].1.contains(
                worker) by {
                    if n < last {
                        assert(head[n] == failed[n]);
                    }
                }
            },
            None => {
                if lookup(before, worker) is None && lookup(active, worker) is Some {
                    let n = choose|n: int|
                        0 <= n < head.len() && lookup(active, worker) == Some(
                            (#[trigger] head[n]).0,
                        );
                    assert(failed[n] == head[n]);
                }
            },
        }
    }
}

/// The workers of a job that a look fails are set free, and all others stay with
/// the jobs that they are on.
pub proof fn law_lost_jobs_set_their_workers_free(s: StateView, at: Clock, worker: Seq<char>)
    requires
        keys_distinct(s.jobs),
        keys_distinct(s.active),
        lookup(s.active, worker) matches Some(id) && (lookup(s.jobs, id) matches Some(j) && has_key(
            j.assignments,
            worker,
        )),
    ensures
        ({
            let id = lookup(s.active, worker)->Some_0;
            let j = lookup(s.jobs, id)->Some_0;
            let k = lookup(swept_state(s, at).jobs, id)->Some_0;
            lookup(swept_state(s, at).active, worker) == (if j.status != pb::JobStatus::Failed
                && k.status == pb::JobStatus::Failed {
                None::<Seq<char>>
            } else {
                Some(id)
            })
        }),
{
    let cfg = s.config.scheduler;
    let id = lookup(s.active, worker)->Some_0;
    let j = lookup(s.jobs, id)->Some_0;
    let w = sweep(s.jobs, cfg, s.event_seq, at);
    lemma_one_job(s, at, id);
    lemma_each_job(s.jobs, cfg, s.event_seq, at);
    lemma_freed(s.active, w.failed, worker);
    lemma_found(s.jobs, id);
    let p = position(s.jobs, id);
    lemma_key(j.assignments, worker);
    if overdue(j, cfg, at) is Some {
        assert(overdue(s.jobs[p].1, cfg, at) is Some);
        let f = (id, keys_of(j.assignments));
        assert(w.failed.contains(f));
        let n = choose|n: int| 0 <= n < w.failed.len() && w.failed[n] == f;
        assert(w.failed[n].0 == id);
    } else if lookup(all_released(s.active, w.failed), worker) is None {
        let n = choose|n: int|
            0 <= n < w.failed.len() && lookup(s.active, worker) == Some((#[trigger] w.failed[n]).0);
        assert(one_fails_with(s.jobs, cfg, at, w.failed[n]));
        let i = choose|i: int| fails_with(s.jobs, cfg, at, w.failed[n], i);
        lemma_entry(s.jobs, i);
        assert(i == p);
    }
}

/// A look comes at least three times in the span after which a worker counts as
/// lost, unless that is too short; and neither too often nor too seldom.
pub proof fn law_looks_come_often_enough(cfg: SchedulerConfig)
    ensures
        100_000_000 <= interval(cfg).nanos <= 5_000_000_000,
        cfg.worker_staleness.nanos >= 300_000_000 ==> 3 * interval(cfg).nanos
            <= cfg.worker_staleness.nanos,
        cfg.worker_staleness.nanos <= 15_000_000_000 ==> 3 * (interval(cfg).nanos + 1)
            > cfg.worker_staleness.nanos,
        cfg.worker_staleness.nanos >= 15_000_000_000 ==> interval(cfg).nanos == 5_000_000_000,
{
}

} // verus!
