//! What the master owes its clients: what each request comes to, and how it is
//! answered.

use vstd::prelude::*;

use crate::config::SchedulerConfig;
use crate::duties::is_summed_up;
use crate::gc::{cutoff, interval, law_only_expired_jobs_are_forgotten};
use crate::lifecycle::{after, valid, Action};
use crate::manifest::failed_reading;
use crate::pb;
use crate::service::cli_rpc::{
    cancel, enqueue, law_list_is_sorted, listing, newest_first, query_answer, selected, stored_spec,
    Probe,
};
use crate::service::error::Code;
use crate::spec::{BenchSpec, ReadSource};
use crate::spec::redact::secrets_of;
use crate::spec::validate::{default_context, violations};
use crate::state::StateView;
use crate::state::job::{ended, is_end, new_job, JobView};
use crate::state::pending::law_removal_keeps_the_others;
use crate::strmap::{has_key, lemma_put_facts, lookup};
use crate::time::Clock;

verus! {

/// Whether `kept` is what was asked for, but for what is secret in it and for how
/// many workers take part where that was not said.
pub open spec fn is_kept_for(kept: pb::BenchSpecView, asked: pb::BenchSpecView) -> bool {
    &&& kept.fs_name == asked.fs_name
    &&& kept.io_mode == asked.io_mode
    &&& kept.io_aligned == asked.io_aligned
    &&& kept.direct_io == asked.direct_io
    &&& kept.block_size == asked.block_size
    &&& kept.duration == asked.duration
    &&& kept.warmup == asked.warmup
    &&& kept.write == asked.write
    &&& kept.metadata == asked.metadata
    &&& asked.target_workers > 0 ==> kept.target_workers == asked.target_workers
    &&& asked.target_workers <= 0 ==> kept.target_workers == 1
    &&& kept.read is Some <==> asked.read is Some
    &&& asked.read matches Some(a) ==> {
        let k = kept.read->Some_0;
        &&& k.concurrency == a.concurrency
        &&& k.file_manifest == a.file_manifest
        &&& k.dir_manifest == a.dir_manifest
        &&& k.think_time == a.think_time
        &&& k.rate_limit == a.rate_limit
        &&& k.loop_files == a.loop_files
        &&& k.s3_consistency_check is Some <==> a.s3_consistency_check is Some
        &&& a.s3_consistency_check matches Some(x) ==> {
            let y = k.s3_consistency_check->Some_0;
            &&& y.bucket_name == x.bucket_name
            &&& y.bucket_url == x.bucket_url
            &&& y.region == x.region
            &&& y.prefix == x.prefix
            &&& y.access_key == "***"@
            &&& y.secret_key == "***"@
            &&& y.session_token == "***"@
        }
    }
}

/// Whether the credentials that were asked for are held.
pub open spec fn are_held(held: Option<pb::S3CredentialMaterialView>, asked: pb::BenchSpecView) -> bool {
    match asked.read {
        Some(read) => match read.s3_consistency_check {
            Some(x) => held matches Some(c) && c.access_key == x.access_key && c.secret_key
                == x.secret_key && c.session_token == x.session_token,
            None => held is None,
        },
        None => held is None,
    }
}

/// Whether nothing has happened to a job yet.
pub open spec fn is_new(j: JobView) -> bool {
    &&& j.status == pb::JobStatus::Pending
    &&& j.assignments.len() == 0 && j.run_workers.len() == 0 && j.results.len() == 0
        && j.progress.len() == 0
    &&& j.start_at_ms == 0 && j.preparing_since is None && j.terminal_at_ms is None
    &&& j.error is None && j.aggregated is None && j.file_queue is None
    &&& !j.cancel_flag && !j.manifest_done && !j.window_misaligned
    &&& j.scan.dirs_scanned == 0 && j.scan.files_scanned == 0 && j.scan.scan_duration_ms == 0
}

/// Whether the lists that a specification names were found to be readable.
pub open spec fn lists_are_readable(typed: BenchSpec, probes: Seq<(Seq<char>, Probe)>) -> bool {
    &&& typed.read matches Some(read) ==> match read.source {
        ReadSource::FileManifest { path } => lookup(probes, path@) == Some(Probe::Readable),
        ReadSource::DirManifest { path } => lookup(probes, path@) == Some(Probe::Readable),
    }
    &&& typed.metadata matches Some(m) ==> (m.dir_manifest matches Some(path) ==> lookup(
        probes,
        path@,
    ) == Some(Probe::Readable))
}

/// A job is created for a specification that breaks no rule, names a known file
/// system, and whose lists can be read; any other is refused. The job is as new as
/// can be, asks for what was asked for, and stands last in the queue; nothing else
/// changes but the number of the next event.
pub proof fn law_good_specifications_become_jobs(
    s: StateView,
    p: pb::BenchSpecView,
    typed: BenchSpec,
    probes: Seq<(Seq<char>, Probe)>,
    id: Seq<char>,
    at: Clock,
)
    requires
        valid(s),
    ensures
        ({
            let step = enqueue(s, p, typed, probes, id, at);
            &&& step.result is Ok <==> violations(typed, default_context()).len() == 0 && has_key(
                s.config.filesystems,
                typed.fs_name@,
            ) && lists_are_readable(typed, probes)
            &&& step.result matches Ok(a) ==> a.job_id == id && (lookup(
                step.state.jobs,
                id,
            ) matches Some(j) && {
                &&& is_new(j)
                &&& j.job_id == id
                &&& is_kept_for(j.spec, p)
                &&& are_held(j.credentials, p)
                &&& lookup(s.config.filesystems, typed.fs_name@) == Some(j.mount_point)
                &&& j.target_workers == typed.target_workers
                &&& j.created_at_ms == at.wall_ms
                &&& step.state.pending.len() == s.pending.len() + 1
                &&& step.state.pending.last() == id
                &&& step.state.pending.drop_last() == s.pending
                &&& step.state.active == s.active && step.state.config == s.config
                &&& forall|o: Seq<char>|
                    o != id ==> #[trigger] lookup(step.state.jobs, o) == lookup(s.jobs, o)
            })
            &&& step.result matches Err(e) ==> e.code == Code::FailedPrecondition && step.state == s
        }),
{
    let step = enqueue(s, p, typed, probes, id, at);
    if step.result is Ok {
        let mount = lookup(s.config.filesystems, typed.fs_name@)->Some_0;
        let j = new_job(id, stored_spec(p), secrets_of(p), mount, typed.target_workers, at.wall_ms);
        lemma_put_facts(s.jobs, id, j);
        assert(step.state.pending.drop_last() =~= s.pending);
    }
}

/// A job that goes on is cancelled, with all that belongs to it: it leaves the
/// queue, where the others stay, and is summed up. One that has ended stays as it
/// is, and one that is not known is not found.
pub proof fn law_cancelling_ends_a_job(s: StateView, id: Seq<char>, at: Clock)
    requires
        valid(s),
    ensures
        ({
            let step = cancel(s, id, at);
            match lookup(s.jobs, id) {
                None => step.result matches Err(e) && e.code == Code::NotFound && step.state == s,
                Some(j) => {
                    &&& step.result is Ok
                    &&& is_end(j.status) ==> step.state == s && step.notices.len() == 0
                    &&& !is_end(j.status) ==> (lookup(step.state.jobs, id) matches Some(k) && {
                        &&& k.status == pb::JobStatus::Cancelled
                        &&& k.error == j.error
                        &&& is_summed_up(k)
                        &&& j.terminal_at_ms is None ==> k.terminal_at_ms == Some(at.wall_ms)
                        &&& k.cancel_flag
                        &&& k.file_queue matches Some(q) ==> q.closed && (
                        j.file_queue matches Some(b) && q.items == b.items)
                        &&& k.results == j.results && k.progress == j.progress
                        &&& k.assignments == j.assignments
                    })
                    &&& forall|o: Seq<char>|
                        o != id && s.pending.contains(o) ==> #[trigger] step.state.pending.contains(
                            o,
                        )
                    &&& forall|o: Seq<char>|
                        o != id ==> #[trigger] lookup(step.state.jobs, o) == lookup(s.jobs, o)
                },
            }
        }),
{
    let step = cancel(s, id, at);
    if let Some(j) = lookup(s.jobs, id) {
        lemma_put_facts(s.jobs, id, ended(j, pb::JobStatus::Cancelled, j.error, at));
        assert forall|o: Seq<char>|
            o != id && s.pending.contains(o) implies #[trigger] step.state.pending.contains(o) by {
            law_removal_keeps_the_others(s.pending, id, o);
        }
    }
}

/// A job whose list cannot be read fails, and says why; one that has ended stays
/// as it is.
pub proof fn law_unreadable_lists_fail_their_job(
    s: StateView,
    id: Seq<char>,
    reason: Seq<char>,
    at: Clock,
)
    requires
        valid(s),
    ensures
        ({
            let (later, notices) = failed_reading(s, id, reason, at);
            match lookup(s.jobs, id) {
                None => later == s && notices.len() == 0,
                Some(j) => {
                    &&& is_end(j.status) ==> later == s && notices.len() == 0
                    &&& !is_end(j.status) ==> (lookup(later.jobs, id) matches Some(k) && k.status
                        == pb::JobStatus::Failed && k.error == Some("manifest reader: "@ + reason)
                        && is_summed_up(k) && k.cancel_flag)
                    &&& forall|o: Seq<char>|
                        o != id ==> #[trigger] lookup(later.jobs, o) == lookup(s.jobs, o)
                },
            }
        }),
{
    if let Some(j) = lookup(s.jobs, id) {
        let why = Some("manifest reader: "@ + reason);
        lemma_put_facts(s.jobs, id, ended(j, pb::JobStatus::Failed, why, at));
    }
}

/// What is told of a job is what is known of it: what was asked for, where it is
/// in its life, the result of each worker, the sums, the error, how many workers
/// take part, or have a place while others are missing, and how far its
/// directories were listed.
pub proof fn law_all_is_told_of_a_job(j: JobView)
    ensures
        ({
            let a = query_answer(j);
            &&& a.job matches Some(m) && m.job_id == j.job_id && m.spec == Some(j.spec) && m.status
                == j.status.code() && m.created_at == j.created_at_ms
            &&& a.worker_results.len() == j.results.len()
            &&& forall|i: int|
                0 <= i < j.results.len() ==> #[trigger] a.worker_results[i] == j.results[i].1
            &&& a.aggregated == j.aggregated
            &&& a.error == j.error
            &&& 0 < j.run_workers.len() <= i32::MAX ==> a.run_workers == j.run_workers.len()
            &&& j.run_workers.len() == 0 && j.assignments.len() <= i32::MAX ==> a.run_workers
                == j.assignments.len()
            &&& a.dirs_scanned == j.scan.dirs_scanned
            &&& a.files_scanned == j.scan.files_scanned
            &&& a.scan_duration_ms == j.scan.scan_duration_ms
        }),
{
}

/// Whether a message tells of the job `j`.
pub open spec fn lists_job(m: pb::JobView, j: JobView) -> bool {
    m.job_id == j.job_id && m.spec == Some(j.spec) && m.status == j.status.code() && m.created_at
        == j.created_at_ms
}

/// Whether a job is one that was asked for.
pub open spec fn is_wanted(j: JobView, status: Option<i32>) -> bool {
    status matches Some(code) ==> j.status.code() == code
}

/// Whether the jobs that are wanted are those that are listed, in the same order,
/// at the places `from`.
spec fn lists_from(
    jobs: Seq<(Seq<char>, JobView)>,
    status: Option<i32>,
    out: Seq<pb::JobView>,
    from: Seq<int>,
) -> bool {
    &&& from.len() == out.len()
    &&& forall|i: int|
        0 <= i < out.len() ==> 0 <= #[trigger] from[i] < jobs.len() && is_wanted(
            jobs[from[i]].1,
            status,
        ) && lists_job(out[i], jobs[from[i]].1)
    &&& forall|n: int|
        0 <= n < jobs.len() && is_wanted((#[trigger] jobs[n]).1, status) ==> from.contains(n)
    &&& forall|i: int, k: int| 0 <= i < k < from.len() ==> #[trigger] from[i] < #[trigger] from[k]
}

proof fn lemma_selected(jobs: Seq<(Seq<char>, JobView)>, status: Option<i32>) -> (from: Seq<int>)
    ensures
        lists_from(jobs, status, selected(jobs, status), from),
    decreases jobs.len(),
{
    if jobs.len() == 0 {
        Seq::empty()
    } else {
        let head = jobs.drop_last();
        let last = jobs.len() - 1;
        let f = lemma_selected(head, status);
        let before = selected(head, status);
        let out = selected(jobs, status);
        let j = jobs.last().1;
        let from = if is_wanted(j, status) {
            f.push(last)
        } else {
            f
        };
        assert forall|i: int| 0 <= i < out.len() implies 0 <= #[trigger] from[i] < jobs.len()
            && is_wanted(jobs[from[i]].1, status) && lists_job(out[i], jobs[from[i]].1) by {
            if i < f.len() {
                assert(from[i] == f[i]);
                assert(head[f[i]] == jobs[f[i]]);
                assert(out[i] == before[i]);
            }
        }
        assert forall|n: int|
            0 <= n < jobs.len() && is_wanted((#[trigger] jobs[n]).1, status) implies from.contains(
            n,
        ) by {
            if n < last {
                assert(is_wanted(head[n].1, status));
                let i = choose|i: int| 0 <= i < f.len() && f[i] == n;
                assert(from[i] == n);
            } else {
                assert(from[from.len() - 1] == n);
            }
        }
        assert forall|i: int, k: int| 0 <= i < k < from.len() implies #[trigger] from[i]
            < #[trigger] from[k] by {
            assert(from[i] == f[i]);
            if k < f.len() {
                assert(from[k] == f[k]);
            }
        }
        from
    }
}

/// Whether the `n`th of the jobs is listed.
pub open spec fn is_listed(
    jobs: Seq<(Seq<char>, JobView)>,
    out: Seq<pb::JobView>,
    n: int,
) -> bool {
    exists|i: int| 0 <= i < out.len() && lists_job(#[trigger] out[i], jobs[n].1)
}

/// Whether what is listed in the place `i` is a job that was asked for.
pub open spec fn is_a_wanted_job(
    jobs: Seq<(Seq<char>, JobView)>,
    status: Option<i32>,
    m: pb::JobView,
) -> bool {
    exists|n: int|
        0 <= n < jobs.len() && is_wanted((#[trigger] jobs[n]).1, status) && lists_job(m, jobs[n].1)
}

/// A list holds jobs with the status that was asked for alone, the newest first,
/// and as many as were asked for, a hundred where nothing is said, a thousand at
/// most. It holds all of them where there are no more.
pub proof fn law_lists_hold_what_was_asked_for(
    jobs: Seq<(Seq<char>, JobView)>,
    status: Option<i32>,
    asked: i32,
)
    ensures
        ({
            let out = listing(jobs, status, asked);
            let limit = if asked <= 0 {
                100
            } else if asked > 1_000 {
                1_000
            } else {
                asked as int
            };
            &&& out.len() <= limit
            &&& forall|i: int|
                0 <= i < out.len() ==> is_a_wanted_job(jobs, status, #[trigger] out[i])
            &&& forall|i: int, k: int|
                0 <= i < k < out.len() ==> (#[trigger] out[i]).created_at >= (
                #[trigger] out[k]).created_at
            &&& out.len() < limit ==> forall|n: int|
                0 <= n < jobs.len() && is_wanted((#[trigger] jobs[n]).1, status) ==> is_listed(
                    jobs,
                    out,
                    n,
                )
        }),
{
    broadcast use vstd::seq_lib::group_to_multiset_ensures;

    let some = selected(jobs, status);
    let all = newest_first(some);
    let out = listing(jobs, status, asked);
    let from = lemma_selected(jobs, status);
    law_list_is_sorted(some);
    assert forall|i: int| 0 <= i < out.len() implies is_a_wanted_job(
        jobs,
        status,
        #[trigger] out[i],
    ) by {
        assert(out[i] == all[i]);
        assert(all.contains(all[i]));
        assert(all.to_multiset().count(all[i]) > 0);
        assert(some.to_multiset().count(all[i]) > 0);
        assert(some.contains(all[i]));
        let k = choose|k: int| 0 <= k < some.len() && some[k] == all[i];
        let n = from[k];
        assert(is_wanted(jobs[n].1, status) && lists_job(out[i], jobs[n].1));
    }
    assert forall|n: int|
        0 <= n < jobs.len() && is_wanted((#[trigger] jobs[n]).1, status) && out.len() == all.len() implies is_listed(
    jobs, out, n) by {
        let k = choose|k: int| 0 <= k < from.len() && from[k] == n;
        assert(lists_job(some[k], jobs[from[k]].1));
        assert(some.contains(some[k]));
        assert(some.to_multiset().count(some[k]) > 0);
        assert(all.contains(some[k]));
        let i = choose|i: int| 0 <= i < all.len() && all[i] == some[k];
        assert(out[i] == all[i]);
        assert(lists_job(out[i], jobs[n].1));
    }
}

/// A job is forgotten once it ended, or was created where its end is not noted,
/// as long ago as jobs are kept; no sooner, and never before it ended.
pub proof fn law_jobs_are_kept_for_long_enough(s: StateView, at: Clock, id: Seq<char>)
    requires
        valid(s),
        lookup(s.jobs, id) is Some,
        s.config.scheduler.job_retention.nanos / 1_000_000 <= i64::MAX,
        at.wall_ms - s.config.scheduler.job_retention.nanos / 1_000_000 >= i64::MIN,
    ensures
        ({
            let j = lookup(s.jobs, id)->Some_0;
            let since = match j.terminal_at_ms {
                Some(t) => t,
                None => j.created_at_ms,
            };
            let ended = j.status == pb::JobStatus::Completed || j.status == pb::JobStatus::Failed
                || j.status == pb::JobStatus::Cancelled;
            let old = since + s.config.scheduler.job_retention.nanos / 1_000_000 <= at.wall_ms;
            lookup(after(s, Action::Forget, at).jobs, id) == (if ended && old {
                None::<JobView>
            } else {
                Some(j)
            })
        }),
{
    law_only_expired_jobs_are_forgotten(
        s.jobs,
        cutoff(s.config.scheduler.job_retention, at),
        id,
    );
}

/// A look for jobs to forget comes at least ten times in the span for which they
/// are kept, unless that is too short; and neither too often nor too seldom.
pub proof fn law_jobs_are_looked_over_often_enough(cfg: SchedulerConfig)
    ensures
        500_000_000 <= interval(cfg).nanos <= 60_000_000_000,
        cfg.job_retention.nanos >= 5_000_000_000 ==> 10 * interval(cfg).nanos
            <= cfg.job_retention.nanos,
        cfg.job_retention.nanos <= 600_000_000_000 ==> 10 * (interval(cfg).nanos + 1)
            > cfg.job_retention.nanos,
        cfg.job_retention.nanos >= 600_000_000_000 ==> interval(cfg).nanos == 60_000_000_000,
{
}

} // verus!
