//! Workers that are not heard of any more, and jobs that take too long to
//! prepare: both fail the job.

use vstd::prelude::*;

use crate::config::SchedulerConfig;
use crate::events::{emit_for_job, event_of, Notice, NoticeView};
use crate::pb;
use crate::scheduler::release::{release, released};
use crate::service::reply::{no_notices, note};
use crate::state::job::{ended, JobRecord, JobView};
use crate::state::{next_seq, MasterState, StateView};
use crate::strmap::keys_of;
use crate::text;
use crate::time::{Clock, Duration};
use crate::views::{entry_views, seq_views};

verus! {

/// How often to look: three times in the span after which a worker counts as
/// lost, but not more often than every 100 milliseconds, nor less often than
/// every five seconds.
pub open spec fn interval(cfg: SchedulerConfig) -> Duration {
    let third = cfg.worker_staleness.nanos / 3;
    Duration {
        nanos: if third < 100_000_000 {
            100_000_000
        } else if third > 5_000_000_000 {
            5_000_000_000
        } else {
            third
        },
    }
}

/// How often to look for lost workers.
pub fn tick_interval(cfg: &SchedulerConfig) -> (r: Duration)
    ensures
        r == interval(*cfg),
{
    let third: u128 = cfg.worker_staleness.nanos / 3;
    Duration {
        nanos: if third < 100_000_000 {
            100_000_000
        } else if third > 5_000_000_000 {
            5_000_000_000
        } else {
            third
        },
    }
}

/// When a worker was last heard of: when it last reported, else when the job
/// began to prepare, else now.
pub open spec fn last_heard(j: JobView, worker: Seq<char>, at: Clock) -> u128 {
    if j.last_seen.contains_key(worker) {
        j.last_seen[worker]
    } else {
        match j.preparing_since {
            Some(t) => t,
            None => at.mono_ns,
        }
    }
}

/// How long ago that was.
pub open spec fn silence(j: JobView, worker: Seq<char>, at: Clock) -> nat {
    let t = last_heard(j, worker, at);
    if t > at.mono_ns {
        0
    } else {
        (at.mono_ns - t) as nat
    }
}

/// The first of `workers` that was silent for longer than `limit`.
pub open spec fn first_lost(j: JobView, workers: Seq<Seq<char>>, limit: Duration, at: Clock) -> Option<
    Seq<char>,
>
    decreases workers.len(),
{
    if workers.len() == 0 {
        None
    } else if silence(j, workers[0], at) > limit.nanos {
        Some(workers[0])
    } else {
        first_lost(j, workers.drop_first(), limit, at)
    }
}

/// Why the job is to fail, if it is: it prepares or runs and one of its workers
/// is lost, or it has been preparing for too long.
pub open spec fn overdue(j: JobView, cfg: SchedulerConfig, at: Clock) -> Option<Seq<char>> {
    if j.status != pb::JobStatus::Preparing && j.status != pb::JobStatus::Running {
        None
    } else {
        match first_lost(j, j.run_workers, cfg.worker_staleness, at) {
            Some(w) => Some(
                "worker "@ + w + " stale ("@ + text::decimal(silence(j, w, at) / 1_000_000)
                    + " ms > worker_staleness "@ + text::decimal(
                    (cfg.worker_staleness.nanos / 1_000_000) as nat,
                ) + " ms)"@,
            ),
            None => if j.status == pb::JobStatus::Preparing && prepares_too_long(j, cfg, at) {
                Some(
                    "PREPARING exceeded prepare_timeout ("@ + text::decimal(
                        (cfg.prepare_timeout.nanos / 1_000_000) as nat,
                    ) + " ms) without all ReportReady"@,
                )
            } else {
                None
            },
        }
    }
}

/// Whether the job has been preparing for too long.
pub open spec fn prepares_too_long(j: JobView, cfg: SchedulerConfig, at: Clock) -> bool {
    match j.preparing_since {
        Some(t) => t < at.mono_ns && at.mono_ns - t > cfg.prepare_timeout.nanos,
        None => false,
    }
}

/// The jobs after a look at them, the next event's number, the events, and the
/// jobs that failed with their workers.
#[verifier::ext_equal]
pub struct Sweep {
    pub jobs: Seq<(Seq<char>, JobView)>,
    pub event_seq: i64,
    pub events: Seq<NoticeView>,
    pub failed: Seq<(Seq<char>, Seq<Seq<char>>)>,
}

/// What a look at `jobs` finds.
pub open spec fn sweep(
    jobs: Seq<(Seq<char>, JobView)>,
    cfg: SchedulerConfig,
    event_seq: i64,
    at: Clock,
) -> Sweep
    decreases jobs.len(),
{
    if jobs.len() == 0 {
        Sweep { jobs, event_seq, events: Seq::empty(), failed: Seq::empty() }
    } else {
        let before = sweep(jobs.drop_last(), cfg, event_seq, at);
        let (id, j) = jobs.last();
        match overdue(j, cfg, at) {
            None => Sweep { jobs: before.jobs.push((id, j)), ..before },
            Some(reason) => {
                let n = ended(j, pb::JobStatus::Failed, Some(reason), at);
                Sweep {
                    jobs: before.jobs.push((id, n)),
                    event_seq: next_seq(before.event_seq),
                    events: before.events.push(
                        NoticeView::Event(
                            event_of(n, pb::EventKind::StatusChange, before.event_seq, at),
                        ),
                    ),
                    failed: before.failed.push((id, keys_of(j.assignments))),
                }
            },
        }
    }
}

/// `active` without the workers of the jobs that failed.
pub open spec fn all_released(
    active: Seq<(Seq<char>, Seq<char>)>,
    failed: Seq<(Seq<char>, Seq<Seq<char>>)>,
) -> Seq<(Seq<char>, Seq<char>)>
    decreases failed.len(),
{
    if failed.len() == 0 {
        active
    } else {
        released(all_released(active, failed.drop_last()), failed.last().1, failed.last().0)
    }
}

/// The ends of the jobs that failed.
pub open spec fn ends_of(failed: Seq<(Seq<char>, Seq<Seq<char>>)>) -> Seq<NoticeView> {
    failed.map_values(|f: (Seq<char>, Seq<Seq<char>>)| NoticeView::End(f.0))
}

/// The state after a look at all jobs.
pub open spec fn swept_state(s: StateView, at: Clock) -> StateView {
    let w = sweep(s.jobs, s.config.scheduler, s.event_seq, at);
    StateView {
        jobs: w.jobs,
        active: all_released(s.active, w.failed),
        event_seq: w.event_seq,
        ..s
    }
}

/// What is to be done after a look at all jobs: to tell of those that failed,
/// then to end their channels.
pub open spec fn swept_notices(s: StateView, at: Clock) -> Seq<NoticeView> {
    let w = sweep(s.jobs, s.config.scheduler, s.event_seq, at);
    w.events + ends_of(w.failed)
}

fn find_stale_worker(record: &JobRecord, at: &Clock, limit: &Duration) -> (r: Option<(String, u128)>)
    ensures
        match r {
            Some((w, age)) => first_lost(record@, record@.run_workers, *limit, *at) == Some(w@)
                && age == silence(record@, w@, *at),
            None => first_lost(record@, record@.run_workers, *limit, *at) is None,
        },
{
    let n: usize = record.run_workers.len();
    let ghost all = record@.run_workers;
    let mut i: usize = 0;
    assert(all.skip(0) =~= all);
    while i < n
        invariant
            i <= n,
            n == all.len(),
            all == record@.run_workers,
            first_lost(record@, all, *limit, *at) == first_lost(
                record@,
                all.skip(i as int),
                *limit,
                *at,
            ),
        decreases n - i,
    {
        let w = record.run_workers.at(i);
        assert(all.skip(i as int)[0] == w@);
        assert(all.skip(i as int).drop_first() =~= all.skip(i as int + 1));
        let seen: u128 = match record.worker_last_seen.get(w.as_str()) {
            Some(t) => *t,
            None => match record.preparing_since {
                Some(t) => t,
                None => at.mono_ns,
            },
        };
        let age: u128 = if seen > at.mono_ns {
            0
        } else {
            at.mono_ns - seen
        };
        if age > limit.nanos {
            return Some((w.clone(), age));
        }
        i += 1;
    }
    None
}

fn why_overdue(record: &JobRecord, cfg: &SchedulerConfig, at: &Clock) -> (r: Option<String>)
    ensures
        crate::views::opt_text(r) == overdue(record@, *cfg, *at),
{
    if record.status != pb::JobStatus::Preparing && record.status != pb::JobStatus::Running {
        return None;
    }
    if let Some((w, age)) = find_stale_worker(record, at, &cfg.worker_staleness) {
        let mut m = "worker ".to_owned();
        m.push_str(w.as_str());
        m.push_str(" stale (");
        m.push_str(text::decimal_of(age / 1_000_000).as_str());
        m.push_str(" ms > worker_staleness ");
        m.push_str(text::decimal_of(cfg.worker_staleness.as_millis()).as_str());
        m.push_str(" ms)");
        return Some(m);
    }
    let too_long = match record.preparing_since {
        Some(t) => t < at.mono_ns && at.mono_ns - t > cfg.prepare_timeout.nanos,
        None => false,
    };
    if record.status == pb::JobStatus::Preparing && too_long {
        let mut m = "PREPARING exceeded prepare_timeout (".to_owned();
        m.push_str(text::decimal_of(cfg.prepare_timeout.as_millis()).as_str());
        m.push_str(" ms) without all ReportReady");
        return Some(m);
    }
    None
}

/// Looks at all jobs and fails those with lost workers or too long a
/// preparation.
pub fn tick_once(state: &mut MasterState, at: &Clock) -> (r: Vec<Notice>)
    ensures
        final(state)@ == swept_state(old(state)@, *at),
        seq_views(r@) == swept_notices(old(state)@, *at),
        final(state).subscribers == old(state).subscribers,
{
    let ghost s = state@;
    let ghost jobs = s.jobs;
    let ghost cfg = s.config.scheduler;
    let scheduler = state.config.scheduler;
    let n: usize = state.jobs.len();
    let mut notices = no_notices();
    let mut ids: Vec<String> = Vec::new();
    let mut crews: Vec<Vec<String>> = Vec::new();
    let mut i: usize = 0;
    assert(jobs.take(0) =~= Seq::<(Seq<char>, JobView)>::empty());
    assert(jobs.skip(0) =~= jobs);
    assert(failures(ids@, crews@) =~= Seq::<(Seq<char>, Seq<Seq<char>>)>::empty());
    assert(sweep(jobs.take(0), cfg, s.event_seq, *at).jobs + jobs.skip(0) =~= jobs);
    while i < n
        invariant
            i <= n,
            n == jobs.len(),
            s == old(state)@,
            jobs == s.jobs,
            cfg == s.config.scheduler,
            scheduler == cfg,
            ids@.len() == crews@.len(),
            sweep(jobs.take(i as int), cfg, s.event_seq, *at).jobs.len() == i,
            state@ == (StateView {
                jobs: sweep(jobs.take(i as int), cfg, s.event_seq, *at).jobs + jobs.skip(i as int),
                event_seq: sweep(jobs.take(i as int), cfg, s.event_seq, *at).event_seq,
                ..s
            }),
            seq_views(notices@) == sweep(jobs.take(i as int), cfg, s.event_seq, *at).events,
            failures(ids@, crews@) == sweep(jobs.take(i as int), cfg, s.event_seq, *at).failed,
            state.subscribers == old(state).subscribers,
        decreases n - i,
    {
        let ghost w = sweep(jobs.take(i as int), cfg, s.event_seq, *at);
        let ghost next = jobs.take(i as int + 1);
        let _ = state.jobs.len();
        let ghost held = state.jobs.seq();
        proof {
            assert(next.drop_last() =~= jobs.take(i as int));
            assert(next.last() == jobs[i as int]);
            assert((w.jobs + jobs.skip(i as int))[i as int] == jobs[i as int]);
            assert((w.jobs + jobs.skip(i as int)).len() == n);
            assert(entry_views(held).len() == held.len());
            assert(entry_views(held)[i as int] == (held[i as int].0, held[i as int].1@));
        }
        let id = state.jobs.key_at(i).clone();
        let record = state.jobs.value_at_mut(i);
        let ghost j = record@;
        if let Some(reason) = why_overdue(record, &scheduler, at) {
            record.end(pb::JobStatus::Failed, Some(reason), at);
            let event = emit_for_job(&mut state.event_seq, record, pb::EventKind::StatusChange, at);
            note(&mut notices, event);
            let crew = record.worker_assignments.keys();
            let ghost ids0 = ids@;
            let ghost crews0 = crews@;
            ids.push(id);
            crews.push(crew);
            assert(failures(ids@, crews@) =~= failures(ids0, crews0).push((id@, text::views(crew@))));
        }
        let ghost done = *record;
        proof {
            assert(entry_views(state.jobs.seq()) =~= entry_views(held).update(
                i as int,
                (id@, done@),
            ));
            let after = sweep(next, cfg, s.event_seq, *at);
            assert(state@.jobs =~= after.jobs + jobs.skip(i as int + 1));
        }
        i += 1;
    }
    proof {
        assert(jobs.take(i as int) =~= jobs);
        assert(jobs.skip(i as int) =~= Seq::<(Seq<char>, JobView)>::empty());
    }
    let ghost w = sweep(jobs, cfg, s.event_seq, *at);
    assert(state@.jobs =~= w.jobs);
    let ghost failed = w.failed;
    let mut k: usize = 0;
    assert(failed.take(0) =~= Seq::<(Seq<char>, Seq<Seq<char>>)>::empty());
    assert(seq_views(notices@) =~= w.events + ends_of(failed.take(0)));
    while k < ids.len()
        invariant
            k <= ids@.len(),
            ids@.len() == crews@.len(),
            s == old(state)@,
            w == sweep(s.jobs, s.config.scheduler, s.event_seq, *at),
            failed == w.failed,
            failures(ids@, crews@) == failed,
            state@ == (StateView {
                jobs: w.jobs,
                event_seq: w.event_seq,
                active: all_released(s.active, failed.take(k as int)),
                ..s
            }),
            seq_views(notices@) == w.events + ends_of(failed.take(k as int)),
            state.subscribers == old(state).subscribers,
        decreases ids@.len() - k,
    {
        proof {
            assert(failed.take(k as int + 1).drop_last() =~= failed.take(k as int));
            assert(failed.take(k as int + 1).last() == failed[k as int]);
            assert(failed[k as int] == (ids@[k as int]@, text::views(crews@[k as int]@)));
        }
        release(&mut state.worker_active_jobs, &crews[k], ids[k].as_str());
        note(&mut notices, Notice::End(ids[k].clone()));
        assert(seq_views(notices@) =~= w.events + ends_of(failed.take(k as int + 1)));
        k += 1;
    }
    assert(failed.take(k as int) =~= failed);
    notices
}

/// The jobs that failed with their workers, out of two lists.
pub open spec fn failures(ids: Seq<String>, crews: Seq<Vec<String>>) -> Seq<
    (Seq<char>, Seq<Seq<char>>),
> {
    Seq::new(ids.len(), |i: int| (ids[i]@, text::views(crews[i]@)))
}

} // verus!
