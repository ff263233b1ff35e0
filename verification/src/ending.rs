//! How those who watch a job learn of its end.
//!
//! Every action that ends a job tells so before it ends the job's channels, and
//! no action ends the channels of a job that goes on.
use vstd::prelude::*;

use crate::events::{event_of, NoticeView};
use crate::gc::{cutoff, law_only_expired_jobs_are_forgotten};
use crate::id::id_check;
use crate::lifecycle::{after, fresh, lemma_found, outcome, valid, Action};
use crate::manifest::queue::{batch_len, QueueView};
use crate::manifest::with_queue;
use crate::pb;
use crate::scheduler::fetch_job::{assign, current_job};
use crate::scheduler::ready::{delay_ms, readied, ready, ready_failure};
use crate::scheduler::staleness::{overdue, sweep, swept_notices, swept_state};
use crate::service::cli_rpc::stored_spec;
use crate::service::worker_rpc::{
    batch_size, file_batch, kept_progress, progress, take_result, with_result,
};
use crate::spec::redact::secrets_of;
use crate::state::job::{
    assigned, ended, is_end, new_job, preparing, remaining, touched, JobView,
};
use crate::state::StateView;
use crate::strmap::{
    del, has_key, keys_distinct, lemma_entry, lemma_put_facts, lookup, position, put,
};
use crate::time::Clock;

verus! {

/// Among `notices` is the last word on the job `id`, which has become `k`, and
/// after it that its channels end.
pub open spec fn told_of_end(notices: Seq<NoticeView>, id: Seq<char>, k: JobView) -> bool {
    exists|m: int, n: int|
        0 <= m < n < notices.len() && last_word(#[trigger] notices[m], k) && (
        #[trigger] notices[n]) == NoticeView::End(id)
}

/// A notice that tells how the job `k` stands.
pub open spec fn last_word(notice: NoticeView, k: JobView) -> bool {
    notice matches NoticeView::Event(e) && e.job_id == k.job_id && e.status == k.status.code()
        && e.error == k.error && e.aggregated == k.aggregated
}

/// What became of the job `id` is accounted for: a new job bears its id and has
/// not ended; an old one keeps its id, and if it has ended just now, `notices`
/// say so.
pub open spec fn accounted(
    before: Seq<(Seq<char>, JobView)>,
    later: Seq<(Seq<char>, JobView)>,
    notices: Seq<NoticeView>,
    id: Seq<char>,
) -> bool {
    lookup(later, id) matches Some(k) ==> match lookup(before, id) {
        Some(j) => k.job_id == j.job_id && (is_end(k.status) && !is_end(j.status) ==> told_of_end(
            notices,
            id,
            k,
        )),
        None => k.job_id == id && !is_end(k.status),
    }
}

/// What became of every job is accounted for.
pub open spec fn all_accounted(
    before: Seq<(Seq<char>, JobView)>,
    later: Seq<(Seq<char>, JobView)>,
    notices: Seq<NoticeView>,
) -> bool {
    forall|id: Seq<char>| #[trigger] accounted(before, later, notices, id)
}

/// Channels end only of jobs that have ended.
pub open spec fn only_ended(jobs: Seq<(Seq<char>, JobView)>, notices: Seq<NoticeView>) -> bool {
    forall|n: int|
        0 <= n < notices.len() ==> ((#[trigger] notices[n]) matches NoticeView::End(id) ==> (lookup(
            jobs,
            id,
        ) matches Some(k) && is_end(k.status)))
}

proof fn lemma_quiet(jobs: Seq<(Seq<char>, JobView)>, notices: Seq<NoticeView>)
    ensures
        all_accounted(jobs, jobs, notices),
{
}

/// One job changes and does not end.
proof fn lemma_one_goes_on(
    jobs: Seq<(Seq<char>, JobView)>,
    id: Seq<char>,
    k: JobView,
    notices: Seq<NoticeView>,
)
    requires
        keys_distinct(jobs),
        match lookup(jobs, id) {
            Some(j) => k.job_id == j.job_id && (is_end(k.status) ==> is_end(j.status)),
            None => k.job_id == id && !is_end(k.status),
        },
    ensures
        all_accounted(jobs, put(jobs, id, k), notices),
{
    lemma_put_facts(jobs, id, k);
}

/// One job ends, which is told.
proof fn lemma_one_ends(
    jobs: Seq<(Seq<char>, JobView)>,
    id: Seq<char>,
    k: JobView,
    event: pb::JobEventView,
)
    requires
        keys_distinct(jobs),
        lookup(jobs, id) matches Some(j) && k.job_id == j.job_id,
        is_end(k.status),
        last_word(NoticeView::Event(event), k),
    ensures
        all_accounted(
            jobs,
            put(jobs, id, k),
            seq![NoticeView::Event(event), NoticeView::End(id)],
        ),
        only_ended(put(jobs, id, k), seq![NoticeView::Event(event), NoticeView::End(id)]),
{
    let notices = seq![NoticeView::Event(event), NoticeView::End(id)];
    lemma_put_facts(jobs, id, k);
    assert(last_word(notices[0], k));
    assert(notices[1] == NoticeView::End(id));
    assert(told_of_end(notices, id, k));
}

/// A worker that is given a place ends no job.
proof fn lemma_assign_accounted(s: StateView, worker: Seq<char>, at: Clock)
    requires
        keys_distinct(s.jobs),
    ensures
        all_accounted(
            s.jobs,
            assign(s, worker, at).state.jobs,
            assign(s, worker, at).notices,
        ),
        only_ended(assign(s, worker, at).state.jobs, assign(s, worker, at).notices),
    decreases s.pending.len(),
{
    let step = assign(s, worker, at);
    lemma_quiet(s.jobs, step.notices);
    if s.pending.len() > 0 {
        let id = s.pending[0];
        let shorter = StateView { pending: s.pending.drop_first(), ..s };
        match lookup(s.jobs, id) {
            None => {
                lemma_assign_accounted(shorter, worker, at);
            },
            Some(j) => if j.status != pb::JobStatus::Pending {
                lemma_assign_accounted(shorter, worker, at);
            } else if remaining(j) == 0 {
                let p = preparing(j, at);
                let t = StateView { jobs: put(s.jobs, id, p), ..shorter };
                lemma_put_facts(s.jobs, id, p);
                lemma_assign_accounted(t, worker, at);
                assert forall|o: Seq<char>| #[trigger]
                    accounted(s.jobs, step.state.jobs, step.notices, o) by {
                    assert(accounted(t.jobs, step.state.jobs, step.notices, o));
                }
            } else if remaining(assigned(j, worker, at)) > 0 {
                lemma_one_goes_on(s.jobs, id, assigned(j, worker, at), step.notices);
            } else {
                lemma_one_goes_on(
                    s.jobs,
                    id,
                    with_queue(
                        preparing(assigned(j, worker, at), at),
                        s.config.scheduler.file_queue_capacity,
                    ),
                    step.notices,
                );
            },
        }
    }
}

/// A look at all jobs tells of each that it fails.
proof fn lemma_sweep_tells(jobs: Seq<(Seq<char>, JobView)>, s: StateView, at: Clock)
    ensures
        ({
            let w = sweep(jobs, s.config.scheduler, s.event_seq, at);
            &&& w.jobs.len() == jobs.len()
            &&& w.events.len() == w.failed.len()
            &&& forall|i: int|
                0 <= i < jobs.len() ==> (#[trigger] w.jobs[i]).0 == jobs[i].0 && w.jobs[i].1.job_id
                    == jobs[i].1.job_id && (w.jobs[i].1 == jobs[i].1 || exists|f: int|
                    0 <= f < w.failed.len() && (#[trigger] w.failed[f]).0 == jobs[i].0
                        && last_word(w.events[f], w.jobs[i].1))
            &&& forall|f: int|
                0 <= f < w.failed.len() ==> (#[trigger] w.events[f]) is Event && exists|i: int|
                    0 <= i < jobs.len() && (#[trigger] w.jobs[i]).0 == w.failed[f].0 && is_end(
                        w.jobs[i].1.status,
                    )
        }),
    decreases jobs.len(),
{
    if jobs.len() > 0 {
        let cfg = s.config.scheduler;
        let head = jobs.drop_last();
        lemma_sweep_tells(head, s, at);
        let b = sweep(head, cfg, s.event_seq, at);
        let w = sweep(jobs, cfg, s.event_seq, at);
        let (id, j) = jobs.last();
        let last = jobs.len() - 1;
        assert(w.jobs.len() == jobs.len());
        assert forall|i: int| 0 <= i < jobs.len() implies (#[trigger] w.jobs[i]).0 == jobs[i].0
            && w.jobs[i].1.job_id == jobs[i].1.job_id && (w.jobs[i].1 == jobs[i].1 || exists|f: int|
            0 <= f < w.failed.len() && (#[trigger] w.failed[f]).0 == jobs[i].0 && last_word(
                w.events[f],
                w.jobs[i].1,
            )) by {
            if i < last {
                assert(w.jobs[i] == b.jobs[i]);
                assert(head[i] == jobs[i]);
                if w.jobs[i].1 != jobs[i].1 {
                    let f = choose|f: int|
                        0 <= f < b.failed.len() && (#[trigger] b.failed[f]).0 == head[i].0
                            && last_word(b.events[f], b.jobs[i].1);
                    assert(w.failed[f] == b.failed[f]);
                    assert(w.events[f] == b.events[f]);
                }
            } else if overdue(j, cfg, at) is Some {
                let f = b.failed.len() as int;
                assert(w.failed[f].0 == id);
                assert(last_word(w.events[f], w.jobs[i].1));
            }
        }
        assert forall|f: int| 0 <= f < w.failed.len() implies (#[trigger] w.events[f]) is Event
            && exists|i: int|
            0 <= i < jobs.len() && (#[trigger] w.jobs[i]).0 == w.failed[f].0 && is_end(
                w.jobs[i].1.status,
            ) by {
            if f < b.failed.len() {
                assert(w.events[f] == b.events[f]);
                assert(w.failed[f] == b.failed[f]);
                let i = choose|i: int|
                    0 <= i < head.len() && (#[trigger] b.jobs[i]).0 == b.failed[f].0 && is_end(
                        b.jobs[i].1.status,
                    );
                assert(w.jobs[i] == b.jobs[i]);
            } else {
                assert(w.jobs[last].0 == w.failed[f].0);
            }
        }
    }
}

proof fn lemma_ready_accounted(
    s: StateView,
    id: Seq<char>,
    worker: Seq<char>,
    error: Option<Seq<char>>,
    at: Clock,
)
    requires
        keys_distinct(s.jobs),
    ensures
        all_accounted(
            s.jobs,
            ready(s, id, worker, error, at).state.jobs,
            ready(s, id, worker, error, at).notices,
        ),
        only_ended(
            ready(s, id, worker, error, at).state.jobs,
            ready(s, id, worker, error, at).notices,
        ),
{
    let step = ready(s, id, worker, error, at);
    lemma_quiet(s.jobs, step.notices);
    if let Some(j) = lookup(s.jobs, id) {
        if !is_end(j.status) && has_key(j.assignments, worker) {
            let heard = touched(j, worker, at);
            match error {
                Some(reason) => if j.status != pb::JobStatus::Preparing {
                    lemma_one_goes_on(s.jobs, id, heard, step.notices);
                } else {
                    let why = Some(ready_failure(worker, reason));
                    let k = ended(heard, pb::JobStatus::Failed, why, at);
                    lemma_one_ends(
                        s.jobs,
                        id,
                        k,
                        event_of(k, pb::EventKind::StatusChange, s.event_seq, at),
                    );
                },
                None => {
                    let delay = delay_ms(s.config.scheduler.start_delay);
                    lemma_one_goes_on(
                        s.jobs,
                        id,
                        readied(heard, worker, delay, at).0,
                        step.notices,
                    );
                },
            }
        }
    }
}

proof fn lemma_files_accounted(s: StateView, id: Seq<char>, worker: Seq<char>, asked: i32, at: Clock)
    requires
        keys_distinct(s.jobs),
    ensures
        all_accounted(
            s.jobs,
            file_batch(s, id, worker, asked, at).state.jobs,
            file_batch(s, id, worker, asked, at).notices,
        ),
        only_ended(
            file_batch(s, id, worker, asked, at).state.jobs,
            file_batch(s, id, worker, asked, at).notices,
        ),
{
    let step = file_batch(s, id, worker, asked, at);
    lemma_quiet(s.jobs, step.notices);
    if let Some(j) = lookup(s.jobs, id) {
        lemma_put_facts(s.jobs, id, j);
        if j.run_workers.contains(worker) {
            if j.status == pb::JobStatus::Cancelled {
                lemma_one_goes_on(s.jobs, id, touched(j, worker, at), step.notices);
            } else if j.status == pb::JobStatus::Running {
                if let Some(q) = j.file_queue {
                    let n = batch_size(asked);
                    let k = batch_len(q.items.len(), n);
                    let rest = QueueView { items: q.items.skip(k), ..q };
                    lemma_one_goes_on(
                        s.jobs,
                        id,
                        JobView { file_queue: Some(rest), ..touched(j, worker, at) },
                        step.notices,
                    );
                }
            }
        }
    }
}

proof fn lemma_progress_accounted(s: StateView, id: Seq<char>, p: pb::WorkerProgressView, at: Clock)
    requires
        keys_distinct(s.jobs),
    ensures
        all_accounted(
            s.jobs,
            progress(s, id, p, at).state.jobs,
            progress(s, id, p, at).notices,
        ),
        only_ended(progress(s, id, p, at).state.jobs, progress(s, id, p, at).notices),
{
    let step = progress(s, id, p, at);
    lemma_quiet(s.jobs, step.notices);
    if let Some(j) = lookup(s.jobs, id) {
        let heard = touched(j, p.worker_id, at);
        if j.status == pb::JobStatus::Cancelled {
            lemma_one_goes_on(s.jobs, id, heard, step.notices);
        } else if !is_end(j.status) && has_key(j.assignments, p.worker_id) {
            lemma_one_goes_on(
                s.jobs,
                id,
                JobView { progress: put(j.progress, p.worker_id, kept_progress(p)), ..heard },
                step.notices,
            );
        }
    }
}

proof fn lemma_result_accounted(s: StateView, id: Seq<char>, r: pb::WorkerResultView, at: Clock)
    requires
        keys_distinct(s.jobs),
    ensures
        all_accounted(
            s.jobs,
            take_result(s, id, r, at).state.jobs,
            take_result(s, id, r, at).notices,
        ),
        only_ended(take_result(s, id, r, at).state.jobs, take_result(s, id, r, at).notices),
{
    let step = take_result(s, id, r, at);
    lemma_quiet(s.jobs, step.notices);
    if let Some(j) = lookup(s.jobs, id) {
        if j.run_workers.contains(r.worker_id) && (j.status == pb::JobStatus::Running || j.status
            == pb::JobStatus::Cancelled) {
            if has_key(j.results, r.worker_id) {
                lemma_one_goes_on(s.jobs, id, touched(j, r.worker_id, at), step.notices);
            } else {
                let (k, over) = with_result(j, r, at);
                if over {
                    lemma_one_ends(
                        s.jobs,
                        id,
                        k,
                        event_of(k, pb::EventKind::StatusChange, s.event_seq, at),
                    );
                } else {
                    lemma_one_goes_on(s.jobs, id, k, step.notices);
                }
            }
        }
    }
}

proof fn lemma_swept_accounted(s: StateView, at: Clock)
    requires
        keys_distinct(s.jobs),
    ensures
        all_accounted(s.jobs, swept_state(s, at).jobs, swept_notices(s, at)),
        only_ended(swept_state(s, at).jobs, swept_notices(s, at)),
{
    let w = sweep(s.jobs, s.config.scheduler, s.event_seq, at);
    let notices = swept_notices(s, at);
    lemma_sweep_tells(s.jobs, s, at);
    assert forall|i: int, j: int| 0 <= i < j < w.jobs.len() implies #[trigger] w.jobs[i].0
        != #[trigger] w.jobs[j].0 by {
        assert(s.jobs[i].0 != s.jobs[j].0);
    }
    assert(keys_distinct(w.jobs));
    assert forall|id: Seq<char>| #[trigger] accounted(s.jobs, w.jobs, notices, id) by {
        if has_key(w.jobs, id) {
            lemma_found(w.jobs, id);
            let p = position(w.jobs, id);
            assert(s.jobs[p].0 == id);
            lemma_entry(s.jobs, p);
            if w.jobs[p].1 != s.jobs[p].1 {
                let f = choose|f: int|
                    0 <= f < w.failed.len() && (#[trigger] w.failed[f]).0 == s.jobs[p].0
                        && last_word(w.events[f], w.jobs[p].1);
                assert(last_word(notices[f], w.jobs[p].1));
                assert(notices[w.events.len() + f] == NoticeView::End(id));
            }
        }
    }
    assert forall|n: int| 0 <= n < notices.len() implies ((#[trigger] notices[n]) matches
        NoticeView::End(id) ==> (lookup(w.jobs, id) matches Some(k) && is_end(k.status))) by {
        if n < w.events.len() {
            assert(w.events[n] is Event);
        } else {
            let f = n - w.events.len();
            assert(w.events[f] is Event);
            let i = choose|i: int|
                0 <= i < s.jobs.len() && (#[trigger] w.jobs[i]).0 == w.failed[f].0 && is_end(
                    w.jobs[i].1.status,
                );
            lemma_entry(w.jobs, i);
        }
    }
}

proof fn lemma_accounted(s: StateView, a: Action, at: Clock)
    requires
        valid(s),
        fresh(s, a),
    ensures
        all_accounted(s.jobs, after(s, a, at).jobs, outcome(s, a, at).1),
        only_ended(after(s, a, at).jobs, outcome(s, a, at).1),
{
    let notices = outcome(s, a, at).1;
    lemma_quiet(s.jobs, notices);
    match a {
        Action::Create { id, spec, typed, probes } => {
            let t = after(s, a, at);
            if t != s {
                let mount = lookup(s.config.filesystems, typed.fs_name@)->Some_0;
                let j = new_job(
                    id,
                    stored_spec(spec),
                    secrets_of(spec),
                    mount,
                    typed.target_workers,
                    at.wall_ms,
                );
                lemma_one_goes_on(s.jobs, id, j, notices);
            }
        },
        Action::Cancel { id } => {
            if let Some(j) = lookup(s.jobs, id) {
                if !is_end(j.status) {
                    let k = ended(j, pb::JobStatus::Cancelled, j.error, at);
                    lemma_one_ends(
                        s.jobs,
                        id,
                        k,
                        event_of(k, pb::EventKind::StatusChange, s.event_seq, at),
                    );
                }
            }
        },
        Action::Fetch { worker } => {
            if id_check(worker) is Ok {
                match current_job(s, worker) {
                    Some((held, own)) => {
                        lemma_one_goes_on(s.jobs, held, touched(own, worker, at), notices);
                    },
                    None => {
                        let t = StateView { active: del(s.active, worker), ..s };
                        lemma_assign_accounted(t, worker, at);
                    },
                }
            }
        },
        Action::Ready { id, worker, error } => {
            lemma_ready_accounted(s, id, worker, error, at);
        },
        Action::Files { id, worker, asked } => {
            lemma_files_accounted(s, id, worker, asked, at);
        },
        Action::Progress { id, report } => {
            if let Some(p) = report {
                lemma_progress_accounted(s, id, p, at);
            }
        },
        Action::Result { id, result } => {
            if let Some(r) = result {
                lemma_result_accounted(s, id, r, at);
            }
        },
        Action::ReadingFailed { id, reason } => {
            if let Some(j) = lookup(s.jobs, id) {
                if !is_end(j.status) {
                    let why = Some("manifest reader: "@ + reason);
                    let k = ended(j, pb::JobStatus::Failed, why, at);
                    lemma_one_ends(
                        s.jobs,
                        id,
                        k,
                        event_of(k, pb::EventKind::StatusChange, s.event_seq, at),
                    );
                }
            }
        },
        Action::LookForLost => {
            lemma_swept_accounted(s, at);
        },
        Action::Forget => {
            let limit = cutoff(s.config.scheduler.job_retention, at);
            let later = after(s, a, at).jobs;
            assert forall|id: Seq<char>| #[trigger] accounted(s.jobs, later, notices, id) by {
                law_only_expired_jobs_are_forgotten(s.jobs, limit, id);
            }
        },
    }
}

/// Each job bears the id under which it is kept.
pub open spec fn bear_their_ids(s: StateView) -> bool {
    forall|id: Seq<char>| #[trigger] lookup(s.jobs, id) matches Some(j) ==> j.job_id == id
}

/// With no job yet, each bears its id.
pub proof fn law_first_jobs_bear_their_ids(s: StateView)
    requires
        s.jobs.len() == 0,
    ensures
        bear_their_ids(s),
{
}

/// No action makes a job bear another id than the one it is kept under.
pub proof fn law_jobs_bear_their_ids(s: StateView, a: Action, at: Clock)
    requires
        valid(s),
        fresh(s, a),
        bear_their_ids(s),
    ensures
        bear_their_ids(after(s, a, at)),
{
    lemma_accounted(s, a, at);
    let later = after(s, a, at).jobs;
    assert forall|id: Seq<char>| #[trigger] lookup(later, id) is Some implies lookup(
        later,
        id,
    )->Some_0.job_id == id by {
        assert(accounted(s.jobs, later, outcome(s, a, at).1, id));
    }
}

/// Those who watch a job learn of its end: whatever action ends it, they are
/// told how it ended, with its last error and sums, and only then their
/// channels end.
pub proof fn law_watchers_learn_of_the_end(s: StateView, a: Action, at: Clock, id: Seq<char>)
    requires
        valid(s),
        fresh(s, a),
        lookup(s.jobs, id) matches Some(j) && !is_end(j.status),
        lookup(after(s, a, at).jobs, id) matches Some(k) && is_end(k.status),
    ensures
        told_of_end(outcome(s, a, at).1, id, lookup(after(s, a, at).jobs, id)->Some_0),
{
    lemma_accounted(s, a, at);
    assert(accounted(s.jobs, after(s, a, at).jobs, outcome(s, a, at).1, id));
}

/// No action ends the channels of a job that goes on.
pub proof fn law_channels_stay_open_till_the_end(s: StateView, a: Action, at: Clock, n: int)
    requires
        valid(s),
        fresh(s, a),
        0 <= n < outcome(s, a, at).1.len(),
        outcome(s, a, at).1[n] is End,
    ensures
        lookup(after(s, a, at).jobs, outcome(s, a, at).1[n]->End_0) matches Some(k) && is_end(
            k.status,
        ),
{
    lemma_accounted(s, a, at);
}

} // verus!
