//! Jobs that ended some time ago are forgotten.

use vstd::prelude::*;

use crate::config::SchedulerConfig;
use crate::metrics::aggregate::{nearest, to_nearest};
use crate::state::job::{is_end, JobRecord, JobView};
use crate::state::{MasterState, StateView};
use crate::strmap::{has_key, keys_distinct, lemma_put_facts, lookup, put};
use crate::time::{Clock, Duration};
use crate::views::entry_views;

verus! {

/// How often to look: ten times in the span for which jobs are kept, but not
/// more often than every half second, nor less often than every minute.
pub open spec fn interval(cfg: SchedulerConfig) -> Duration {
    let tenth = cfg.job_retention.nanos / 10;
    Duration {
        nanos: if tenth < 500_000_000 {
            500_000_000
        } else if tenth > 60_000_000_000 {
            60_000_000_000
        } else {
            tenth
        },
    }
}

/// How often to look for jobs to forget.
pub fn tick_interval(cfg: &SchedulerConfig) -> (r: Duration)
    ensures
        r == interval(*cfg),
{
    let tenth: u128 = cfg.job_retention.nanos / 10;
    Duration {
        nanos: if tenth < 500_000_000 {
            500_000_000
        } else if tenth > 60_000_000_000 {
            60_000_000_000
        } else {
            tenth
        },
    }
}

/// The time before which jobs that ended are forgotten, in milliseconds.
pub open spec fn cutoff(retention: Duration, at: Clock) -> i64 {
    let ms = retention.nanos / 1_000_000;
    nearest(
        at.wall_ms - if ms > i64::MAX {
            i64::MAX as int
        } else {
            ms as int
        },
    )
}

/// Whether a job is to be forgotten: it ended, or was created where the end is
/// not noted, at or before `cutoff`.
pub open spec fn expired(j: JobView, cutoff: i64) -> bool {
    is_end(j.status) && match j.terminal_at_ms {
        Some(t) => t,
        None => j.created_at_ms,
    } <= cutoff
}

/// The jobs that are kept.
pub open spec fn retained(jobs: Seq<(Seq<char>, JobView)>, cutoff: i64) -> Seq<(Seq<char>, JobView)>
    decreases jobs.len(),
{
    if jobs.len() == 0 {
        jobs
    } else if expired(jobs.last().1, cutoff) {
        retained(jobs.drop_last(), cutoff)
    } else {
        retained(jobs.drop_last(), cutoff).push(jobs.last())
    }
}

fn has_expired(record: &JobRecord, cutoff: i64) -> (r: bool)
    ensures
        r == expired(record@, cutoff),
{
    let since: i64 = match record.terminal_at_ms {
        Some(t) => t,
        None => record.created_at_ms,
    };
    record.is_terminal() && since <= cutoff
}

/// Forgets the jobs that ended long enough ago.
pub fn tick_once(state: &mut MasterState, at: &Clock)
    ensures
        final(state)@ == (StateView {
            jobs: retained(
                old(state)@.jobs,
                cutoff(old(state)@.config.scheduler.job_retention, *at),
            ),
            ..old(state)@
        }),
        final(state).subscribers == old(state).subscribers,
{
    let ms: u128 = state.config.scheduler.job_retention.as_millis();
    let kept_ms: i64 = if ms > i64::MAX as u128 {
        i64::MAX
    } else {
        ms as i64
    };
    let limit: i64 = to_nearest(at.wall_ms as i128 - kept_ms as i128);
    let ghost s = state@;
    let ghost jobs = s.jobs;
    let n: usize = state.jobs.len();
    let mut seen: usize = 0;
    let mut i: usize = 0;
    assert(jobs.take(0) =~= Seq::<(Seq<char>, JobView)>::empty());
    assert(retained(jobs.take(0), limit) + jobs.skip(0) =~= jobs);
    while seen < n
        invariant
            seen <= n,
            n == jobs.len(),
            jobs == s.jobs,
            s == old(state)@,
            i == retained(jobs.take(seen as int), limit).len(),
            state@ == (StateView {
                jobs: retained(jobs.take(seen as int), limit) + jobs.skip(seen as int),
                ..s
            }),
            state.subscribers == old(state).subscribers,
        decreases n - seen,
    {
        let ghost kept = retained(jobs.take(seen as int), limit);
        let ghost next = jobs.take(seen as int + 1);
        let _ = state.jobs.len();
        let ghost held = state.jobs.seq();
        proof {
            assert(next.drop_last() =~= jobs.take(seen as int));
            assert(next.last() == jobs[seen as int]);
            assert((kept + jobs.skip(seen as int))[i as int] == jobs[seen as int]);
            assert(entry_views(held).len() == held.len());
            assert(entry_views(held)[i as int].1 == held[i as int].1@);
        }
        if has_expired(state.jobs.value_at(i), limit) {
            let _ = state.jobs.remove_at(i);
            proof {
                assert(entry_views(held.remove(i as int)) =~= entry_views(held).remove(i as int));
                assert(state@.jobs =~= kept + jobs.skip(seen as int + 1));
            }
        } else {
            proof {
                assert(state@.jobs =~= kept.push(jobs[seen as int]) + jobs.skip(seen as int + 1));
            }
            i += 1;
        }
        seen += 1;
    }
    proof {
        assert(jobs.take(seen as int) =~= jobs);
        assert(jobs.skip(seen as int) =~= Seq::<(Seq<char>, JobView)>::empty());
        assert(state@.jobs =~= retained(jobs, limit));
    }
}

/// Just those jobs are forgotten that ended, or were created where the end is
/// not noted, at or before the given time; all others stay as they are.
pub proof fn law_only_expired_jobs_are_forgotten(
    jobs: Seq<(Seq<char>, JobView)>,
    cutoff: i64,
    id: Seq<char>,
)
    requires
        keys_distinct(jobs),
    ensures
        keys_distinct(retained(jobs, cutoff)),
        lookup(retained(jobs, cutoff), id) == (match lookup(jobs, id) {
            Some(j) => if expired(j, cutoff) {
                None
            } else {
                Some(j)
            },
            None => None,
        }),
    decreases jobs.len(),
{
    if jobs.len() > 0 {
        let head = jobs.drop_last();
        let (k, j) = jobs.last();
        let kept = retained(head, cutoff);
        assert forall|a: int, b: int| 0 <= a < b < head.len() implies #[trigger] head[a].0
            != #[trigger] head[b].0 by {
            assert(jobs[a].0 != jobs[b].0);
        }
        assert(!has_key(head, k)) by {
            if has_key(head, k) {
                let p = choose|p: int| 0 <= p < head.len() && #[trigger] head[p].0 == k;
                assert(jobs[p].0 != jobs[jobs.len() - 1].0);
            }
        }
        law_only_expired_jobs_are_forgotten(head, cutoff, k);
        law_only_expired_jobs_are_forgotten(head, cutoff, id);
        assert(jobs =~= put(head, k, j));
        lemma_put_facts(head, k, j);
        if !expired(j, cutoff) {
            assert(retained(jobs, cutoff) == put(kept, k, j));
            lemma_put_facts(kept, k, j);
        }
    }
}

} // verus!
