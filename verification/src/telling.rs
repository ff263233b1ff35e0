//! What the events of jobs tell, and when there is one.

use vstd::prelude::*;

use crate::events::{event_of, NoticeView};
use crate::gc::{cutoff, law_only_expired_jobs_are_forgotten};
use crate::id::id_check;
use crate::lifecycle::{after, fresh, lemma_found, lemma_job_ok, outcome, valid, Action};
use crate::manifest::queue::{batch_len, QueueView};
use crate::manifest::{failed_reading, with_queue};
use crate::pb;
use crate::scheduler::fetch_job::{assign, current_job, place};
use crate::scheduler::ready::{delay_ms, readied, ready, ready_failure};
use crate::scheduler::staleness::{ends_of, sweep, swept_notices, swept_state};
use crate::service::cli_rpc::{cancel, enqueue, stored_spec, Probe};
use crate::service::worker_rpc::{
    batch_size, file_batch, kept_progress, progress, take_result, with_result,
};
use crate::spec::redact::secrets_of;
use crate::spec::BenchSpec;
use crate::state::job::{
    assigned, ended, is_end, new_job, preparing, remaining, touched, JobView,
};
use crate::state::StateView;
use crate::strmap::{
    del, has_key, keys_distinct, lemma_entry, lemma_put_facts, lookup, position, put,
};
use crate::time::Clock;

verus! {

/// Whether an event tells of the job `k` as it is: its id, where it is in its
/// life, the progress of each of its workers, its sums, its error, how far its
/// directories were listed; and when that was.
pub open spec fn shows_job(e: pb::JobEventView, k: JobView, at: Clock) -> bool {
    &&& e.job_id == k.job_id
    &&& e.status == k.status.code()
    &&& e.error == k.error
    &&& e.aggregated == k.aggregated
    &&& e.worker_progress.len() == k.progress.len()
    &&& forall|i: int|
        0 <= i < k.progress.len() ==> #[trigger] e.worker_progress[i] == k.progress[i].1
    &&& e.dirs_scanned == k.scan.dirs_scanned
    &&& e.files_scanned == k.scan.files_scanned
    &&& e.scan_duration_ms == k.scan.scan_duration_ms
    &&& e.timestamp == at.wall_ms
}

/// Whether an event tells of one of the jobs as it is.
pub open spec fn shows_a_job(
    e: pb::JobEventView,
    jobs: Seq<(Seq<char>, JobView)>,
    at: Clock,
) -> bool {
    exists|id: Seq<char>|
        (#[trigger] lookup(jobs, id)) matches Some(k) && shows_job(e, k, at)
}

/// Whether a notice, if it is an event, tells of one of the jobs as it is, of the
/// kind `kind`.
pub open spec fn notice_is_right(
    n: NoticeView,
    jobs: Seq<(Seq<char>, JobView)>,
    kind: pb::EventKind,
    at: Clock,
) -> bool {
    n matches NoticeView::Event(e) ==> e.kind == kind.code() && shows_a_job(e, jobs, at)
}

/// Whether every event among the notices does.
pub open spec fn notices_are_right(
    notices: Seq<NoticeView>,
    jobs: Seq<(Seq<char>, JobView)>,
    kind: pb::EventKind,
    at: Clock,
) -> bool {
    forall|n: int|
        0 <= n < notices.len() ==> notice_is_right(#[trigger] notices[n], jobs, kind, at)
}

/// Whether one of the notices tells of the job `k` as it is.
pub open spec fn is_told(notices: Seq<NoticeView>, k: JobView, at: Clock) -> bool {
    exists|n: int|
        0 <= n < notices.len() && ((#[trigger] notices[n]) matches NoticeView::Event(e)
            && shows_job(e, k, at))
}

proof fn lemma_event(
    jobs: Seq<(Seq<char>, JobView)>,
    id: Seq<char>,
    k: JobView,
    kind: pb::EventKind,
    seq: i64,
    at: Clock,
)
    requires
        keys_distinct(jobs),
    ensures
        notice_is_right(NoticeView::Event(event_of(k, kind, seq, at)), put(jobs, id, k), kind, at),
        shows_job(event_of(k, kind, seq, at), k, at),
        forall|o: Seq<char>|
            o != id ==> #[trigger] lookup(put(jobs, id, k), o) == lookup(jobs, o),
        lookup(put(jobs, id, k), id) == Some(k),
{
    lemma_put_facts(jobs, id, k);
    let e = event_of(k, kind, seq, at);
    assert(lookup(put(jobs, id, k), id) == Some(k));
    assert(shows_job(e, k, at));
}

/// What a look for lost workers tells.
proof fn lemma_sweep_tells(
    jobs: Seq<(Seq<char>, JobView)>,
    s: StateView,
    at: Clock,
)
    requires
        keys_distinct(jobs),
    ensures
        ({
            let w = sweep(jobs, s.config.scheduler, s.event_seq, at);
            &&& w.jobs.len() == jobs.len()
            &&& keys_distinct(w.jobs)
            &&& forall|i: int|
                0 <= i < jobs.len() ==> (#[trigger] w.jobs[i]).0 == jobs[i].0
            &&& notices_are_right(w.events, w.jobs, pb::EventKind::StatusChange, at)
            &&& forall|i: int|
                0 <= i < jobs.len() && (#[trigger] w.jobs[i]).1 != jobs[i].1 ==> is_told(
                    w.events,
                    w.jobs[i].1,
                    at,
                )
        }),
    decreases jobs.len(),
{
    let cfg = s.config.scheduler;
    if jobs.len() > 0 {
        let head = jobs.drop_last();
        assert forall|i: int, k: int| 0 <= i < k < head.len() implies #[trigger] head[i].0
            != #[trigger] head[k].0 by {
            assert(jobs[i].0 != jobs[k].0);
        }
        lemma_sweep_tells(head, s, at);
        let before = sweep(head, cfg, s.event_seq, at);
        let w = sweep(jobs, cfg, s.event_seq, at);
        let last = jobs.len() - 1;
        let (id, j) = jobs.last();
        assert forall|i: int| 0 <= i < jobs.len() implies (#[trigger] w.jobs[i]).0 == jobs[i].0 by {
            if i < last {
                assert(w.jobs[i] == before.jobs[i]);
            }
        }
        assert forall|i: int, k: int| 0 <= i < k < w.jobs.len() implies #[trigger] w.jobs[i].0
            != #[trigger] w.jobs[k].0 by {
            assert(jobs[i].0 != jobs[k].0);
        }
        let n = w.jobs[last].1;
        assert(w.jobs =~= before.jobs.push((id, n)));
        assert forall|m: int| 0 <= m < w.events.len() implies notice_is_right(
            #[trigger] w.events[m],
            w.jobs,
            pb::EventKind::StatusChange,
            at,
        ) by {
            if m < before.events.len() {
                assert(w.events[m] == before.events[m]);
                assert(notice_is_right(
                    before.events[m],
                    before.jobs,
                    pb::EventKind::StatusChange,
                    at,
                ));
                if let NoticeView::Event(e) = before.events[m] {
                    let o = choose|o: Seq<char>|
                        (#[trigger] lookup(before.jobs, o)) matches Some(k) && shows_job(e, k, at);
                    lemma_found(before.jobs, o);
                    let p = position(before.jobs, o);
                    assert(w.jobs[p] == before.jobs[p]);
                    lemma_entry(w.jobs, p);
                    assert(lookup(w.jobs, o) == lookup(before.jobs, o));
                }
            } else {
                lemma_entry(w.jobs, last);
                assert(lookup(w.jobs, id) == Some(n));
                let e = event_of(n, pb::EventKind::StatusChange, before.event_seq, at);
                assert(shows_job(e, n, at));
            }
        }
        assert forall|i: int|
            0 <= i < jobs.len() && (#[trigger] w.jobs[i]).1 != jobs[i].1 implies is_told(
            w.events,
            w.jobs[i].1,
            at,
        ) by {
            if i < last {
                assert(w.jobs[i] == before.jobs[i]);
                assert(head[i] == jobs[i]);
                let m = choose|m: int|
                    0 <= m < before.events.len() && ((
                    #[trigger] before.events[m]) matches NoticeView::Event(e) && shows_job(
                        e,
                        w.jobs[i].1,
                        at,
                    ));
                assert(w.events[m] == before.events[m]);
            } else {
                let m = w.events.len() - 1;
                let e = event_of(n, pb::EventKind::StatusChange, before.event_seq, at);
                assert(w.events[m] == NoticeView::Event(e));
                assert(shows_job(e, n, at));
            }
        }
    }
}

proof fn lemma_swept_tells(s: StateView, at: Clock)
    requires
        keys_distinct(s.jobs),
    ensures
        notices_are_right(
            swept_notices(s, at),
            swept_state(s, at).jobs,
            pb::EventKind::StatusChange,
            at,
        ),
        forall|id: Seq<char>|
            (#[trigger] lookup(swept_state(s, at).jobs, id)) matches Some(k) ==> (lookup(
                s.jobs,
                id,
            ) matches Some(j) && (j != k ==> is_told(swept_notices(s, at), k, at))),
{
    lemma_sweep_tells(s.jobs, s, at);
    let w = sweep(s.jobs, s.config.scheduler, s.event_seq, at);
    let all = swept_notices(s, at);
    assert forall|n: int| 0 <= n < all.len() implies notice_is_right(
        #[trigger] all[n],
        w.jobs,
        pb::EventKind::StatusChange,
        at,
    ) by {
        if n < w.events.len() {
            assert(all[n] == w.events[n]);
        } else {
            assert(all[n] == ends_of(w.failed)[n - w.events.len()]);
        }
    }
    assert forall|id: Seq<char>|
        (#[trigger] lookup(w.jobs, id)) is Some implies lookup(s.jobs, id) is Some && (lookup(
        s.jobs,
        id,
    ) != lookup(w.jobs, id) ==> is_told(all, lookup(w.jobs, id)->Some_0, at)) by {
        lemma_found(w.jobs, id);
        let p = position(w.jobs, id);
        assert(s.jobs[p].0 == id);
        lemma_entry(s.jobs, p);
        if s.jobs[p].1 != w.jobs[p].1 {
            assert(is_told(w.events, w.jobs[p].1, at));
            let m = choose|m: int|
                0 <= m < w.events.len() && ((#[trigger] w.events[m]) matches NoticeView::Event(e)
                    && shows_job(e, w.jobs[p].1, at));
            assert(all[m] == w.events[m]);
        }
    }
}

proof fn lemma_assign_tells(s: StateView, worker: Seq<char>, at: Clock)
    requires
        keys_distinct(s.jobs),
    ensures
        notices_are_right(
            assign(s, worker, at).notices,
            assign(s, worker, at).state.jobs,
            pb::EventKind::StatusChange,
            at,
        ),
        forall|id: Seq<char>|
            (#[trigger] lookup(assign(s, worker, at).state.jobs, id)) matches Some(k) ==> (lookup(
                s.jobs,
                id,
            ) matches Some(j) && (j.status != k.status && remaining(j) > 0 ==> is_told(
                assign(s, worker, at).notices,
                k,
                at,
            ))),
    decreases s.pending.len(),
{
    if s.pending.len() > 0 {
        let id = s.pending[0];
        let shorter = StateView { pending: s.pending.drop_first(), ..s };
        match lookup(s.jobs, id) {
            None => {
                lemma_assign_tells(shorter, worker, at);
            },
            Some(j) => {
                if j.status != pb::JobStatus::Pending {
                    lemma_assign_tells(shorter, worker, at);
                } else if remaining(j) == 0 {
                    lemma_put_facts(s.jobs, id, preparing(j, at));
                    let t = StateView { jobs: put(s.jobs, id, preparing(j, at)), ..shorter };
                    lemma_assign_tells(t, worker, at);
                    assert forall|o: Seq<char>|
                        (#[trigger] lookup(assign(s, worker, at).state.jobs, o)) is Some implies ({
                        let k = lookup(assign(s, worker, at).state.jobs, o)->Some_0;
                        lookup(s.jobs, o) matches Some(i) && (i.status != k.status && remaining(i)
                            > 0 ==> is_told(assign(s, worker, at).notices, k, at))
                    }) by {
                        assert(lookup(assign(t, worker, at).state.jobs, o) is Some);
                    }
                } else {
                    let taken = assigned(j, worker, at);
                    let full = with_queue(
                        preparing(taken, at),
                        s.config.scheduler.file_queue_capacity,
                    );
                    let kind = pb::EventKind::StatusChange;
                    lemma_event(s.jobs, id, full, kind, s.event_seq, at);
                    lemma_put_facts(s.jobs, id, taken);
                    let step = place(s, id, j, worker, at);
                    if remaining(taken) == 0 {
                        let e = event_of(full, kind, s.event_seq, at);
                        let m = step.notices.len() - 1;
                        assert(step.notices[m] == NoticeView::Event(e));
                        assert(is_told(step.notices, full, at));
                    }
                }
            },
        }
    }
}

/// Every event tells of a job as it is after the request that brought it; it is
/// one on progress where a worker reported its progress, and one on a change of
/// status else.
pub proof fn law_events_show_jobs_as_they_are(s: StateView, a: Action, at: Clock, n: int)
    requires
        valid(s),
        fresh(s, a),
        0 <= n < outcome(s, a, at).1.len(),
    ensures
        notice_is_right(
            outcome(s, a, at).1[n],
            after(s, a, at).jobs,
            if a is Progress {
                pb::EventKind::Progress
            } else {
                pb::EventKind::StatusChange
            },
            at,
        ),
{
    match a {
        Action::Fetch { worker } => {
            lemma_assign_tells(StateView { active: del(s.active, worker), ..s }, worker, at);
        },
        Action::LookForLost => {
            lemma_swept_tells(s, at);
        },
        Action::Forget => {},
        _ => {
            lemma_one_told(s, a, at);
        },
    }
}

/// Whether every event among the notices tells of one of the jobs as it is later,
/// and each job whose status has changed, or that is new, is told of.
spec fn all_is_told(
    before: Seq<(Seq<char>, JobView)>,
    later: Seq<(Seq<char>, JobView)>,
    notices: Seq<NoticeView>,
    kind: pb::EventKind,
    at: Clock,
) -> bool {
    &&& notices_are_right(notices, later, kind, at)
    &&& forall|id: Seq<char>|
        (#[trigger] lookup(later, id)) matches Some(k) ==> match lookup(before, id) {
            Some(j) => j.status != k.status ==> is_told(notices, k, at),
            None => is_told(notices, k, at),
        }
}

/// One job changes, and is told of at once.
proof fn lemma_change_is_told(
    jobs: Seq<(Seq<char>, JobView)>,
    id: Seq<char>,
    k: JobView,
    notices: Seq<NoticeView>,
    kind: pb::EventKind,
    seq: i64,
    at: Clock,
)
    requires
        keys_distinct(jobs),
        notices.len() > 0,
        notices[0] == NoticeView::Event(event_of(k, kind, seq, at)),
        forall|n: int| 1 <= n < notices.len() ==> (#[trigger] notices[n]) is End,
    ensures
        all_is_told(jobs, put(jobs, id, k), notices, kind, at),
{
    lemma_event(jobs, id, k, kind, seq, at);
    assert(is_told(notices, k, at));
    assert forall|n: int| 0 <= n < notices.len() implies notice_is_right(
        #[trigger] notices[n],
        put(jobs, id, k),
        kind,
        at,
    ) by {
        if n > 0 {
            assert(notices[n] is End);
        }
    }
}

/// One job changes but for its status, and nobody is told.
proof fn lemma_silent_change(
    jobs: Seq<(Seq<char>, JobView)>,
    id: Seq<char>,
    k: JobView,
    kind: pb::EventKind,
    at: Clock,
)
    requires
        keys_distinct(jobs),
        lookup(jobs, id) matches Some(j) && j.status == k.status,
    ensures
        all_is_told(jobs, put(jobs, id, k), Seq::empty(), kind, at),
{
    lemma_put_facts(jobs, id, k);
}

proof fn lemma_create_is_told(
    s: StateView,
    p: pb::BenchSpecView,
    typed: BenchSpec,
    probes: Seq<(Seq<char>, Probe)>,
    id: Seq<char>,
    at: Clock,
)
    requires
        keys_distinct(s.jobs),
    ensures
        ({
            let step = enqueue(s, p, typed, probes, id, at);
            all_is_told(s.jobs, step.state.jobs, step.notices, pb::EventKind::StatusChange, at)
        }),
{
    let step = enqueue(s, p, typed, probes, id, at);
    if step.result is Ok {
        let mount = lookup(s.config.filesystems, typed.fs_name@)->Some_0;
        let k = new_job(id, stored_spec(p), secrets_of(p), mount, typed.target_workers, at.wall_ms);
        let status = pb::EventKind::StatusChange;
        lemma_change_is_told(s.jobs, id, k, step.notices, status, s.event_seq, at);
    }
}

proof fn lemma_cancel_is_told(s: StateView, id: Seq<char>, at: Clock)
    requires
        keys_distinct(s.jobs),
    ensures
        ({
            let step = cancel(s, id, at);
            all_is_told(s.jobs, step.state.jobs, step.notices, pb::EventKind::StatusChange, at)
        }),
{
    if let Some(j) = lookup(s.jobs, id) {
        if !is_end(j.status) {
            let k = ended(j, pb::JobStatus::Cancelled, j.error, at);
            let status = pb::EventKind::StatusChange;
            lemma_change_is_told(s.jobs, id, k, cancel(s, id, at).notices, status, s.event_seq, at);
        }
    }
}

proof fn lemma_ready_is_told(
    s: StateView,
    id: Seq<char>,
    worker: Seq<char>,
    error: Option<Seq<char>>,
    at: Clock,
)
    requires
        keys_distinct(s.jobs),
    ensures
        ({
            let step = ready(s, id, worker, error, at);
            all_is_told(s.jobs, step.state.jobs, step.notices, pb::EventKind::StatusChange, at)
        }),
{
    let step = ready(s, id, worker, error, at);
    let status = pb::EventKind::StatusChange;
    if let Some(j) = lookup(s.jobs, id) {
        if !is_end(j.status) && has_key(j.assignments, worker) {
            let t = touched(j, worker, at);
            match error {
                Some(reason) => {
                    if j.status != pb::JobStatus::Preparing {
                        lemma_silent_change(s.jobs, id, t, status, at);
                    } else {
                        let why = Some(ready_failure(worker, reason));
                        let k = ended(t, pb::JobStatus::Failed, why, at);
                        lemma_change_is_told(
                            s.jobs,
                            id,
                            k,
                            step.notices,
                            status,
                            s.event_seq,
                            at,
                        );
                    }
                },
                None => {
                    let delay = delay_ms(s.config.scheduler.start_delay);
                    let (k, started) = readied(t, worker, delay, at);
                    if started {
                        lemma_change_is_told(
                            s.jobs,
                            id,
                            k,
                            step.notices,
                            status,
                            s.event_seq,
                            at,
                        );
                    } else {
                        lemma_silent_change(s.jobs, id, k, status, at);
                    }
                },
            }
        }
    }
}

proof fn lemma_files_are_told(
    s: StateView,
    id: Seq<char>,
    worker: Seq<char>,
    asked: i32,
    at: Clock,
)
    requires
        keys_distinct(s.jobs),
    ensures
        ({
            let step = file_batch(s, id, worker, asked, at);
            all_is_told(s.jobs, step.state.jobs, step.notices, pb::EventKind::StatusChange, at)
        }),
{
    let status = pb::EventKind::StatusChange;
    if let Some(j) = lookup(s.jobs, id) {
        lemma_silent_change(s.jobs, id, touched(j, worker, at), status, at);
        if let Some(q) = j.file_queue {
            let m = batch_len(q.items.len(), batch_size(asked));
            let rest = QueueView { items: q.items.skip(m), ..q };
            let k = JobView { file_queue: Some(rest), ..touched(j, worker, at) };
            lemma_silent_change(s.jobs, id, k, status, at);
        }
    }
}

proof fn lemma_progress_is_told(
    s: StateView,
    id: Seq<char>,
    p: pb::WorkerProgressView,
    at: Clock,
)
    requires
        keys_distinct(s.jobs),
    ensures
        ({
            let step = progress(s, id, p, at);
            all_is_told(s.jobs, step.state.jobs, step.notices, pb::EventKind::Progress, at)
        }),
{
    let kind = pb::EventKind::Progress;
    let step = progress(s, id, p, at);
    if let Some(j) = lookup(s.jobs, id) {
        let t = touched(j, p.worker_id, at);
        lemma_silent_change(s.jobs, id, t, kind, at);
        if !is_end(j.status) && has_key(j.assignments, p.worker_id) {
            let k = JobView { progress: put(j.progress, p.worker_id, kept_progress(p)), ..t };
            lemma_change_is_told(s.jobs, id, k, step.notices, kind, s.event_seq, at);
        }
    }
}

proof fn lemma_result_is_told(
    s: StateView,
    id: Seq<char>,
    r: pb::WorkerResultView,
    at: Clock,
)
    requires
        keys_distinct(s.jobs),
    ensures
        ({
            let step = take_result(s, id, r, at);
            all_is_told(s.jobs, step.state.jobs, step.notices, pb::EventKind::StatusChange, at)
        }),
{
    let status = pb::EventKind::StatusChange;
    let step = take_result(s, id, r, at);
    if let Some(j) = lookup(s.jobs, id) {
        lemma_silent_change(s.jobs, id, touched(j, r.worker_id, at), status, at);
        let (k, over) = with_result(j, r, at);
        if !(!j.run_workers.contains(r.worker_id) || (j.status != pb::JobStatus::Running && j.status
            != pb::JobStatus::Cancelled)) && !has_key(j.results, r.worker_id) {
            if over {
                lemma_change_is_told(s.jobs, id, k, step.notices, status, s.event_seq, at);
            } else {
                lemma_silent_change(s.jobs, id, k, status, at);
            }
        }
    }
}

proof fn lemma_reading_is_told(s: StateView, id: Seq<char>, reason: Seq<char>, at: Clock)
    requires
        keys_distinct(s.jobs),
    ensures
        ({
            let step = failed_reading(s, id, reason, at);
            all_is_told(s.jobs, step.0.jobs, step.1, pb::EventKind::StatusChange, at)
        }),
{
    if let Some(j) = lookup(s.jobs, id) {
        if !is_end(j.status) {
            let k = ended(j, pb::JobStatus::Failed, Some("manifest reader: "@ + reason), at);
            let status = pb::EventKind::StatusChange;
            let notices = failed_reading(s, id, reason, at).1;
            lemma_change_is_told(s.jobs, id, k, notices, status, s.event_seq, at);
        }
    }
}

/// The actions that change one job at most.
proof fn lemma_one_told(s: StateView, a: Action, at: Clock)
    requires
        valid(s),
        !(a is Fetch) && !(a is LookForLost) && !(a is Forget),
    ensures
        all_is_told(
            s.jobs,
            after(s, a, at).jobs,
            outcome(s, a, at).1,
            if a is Progress {
                pb::EventKind::Progress
            } else {
                pb::EventKind::StatusChange
            },
            at,
        ),
{
    match a {
        Action::Create { id, spec, typed, probes } => {
            lemma_create_is_told(s, spec, typed, probes, id, at);
        },
        Action::Cancel { id } => {
            lemma_cancel_is_told(s, id, at);
        },
        Action::Ready { id, worker, error } => {
            lemma_ready_is_told(s, id, worker, error, at);
        },
        Action::Files { id, worker, asked } => {
            lemma_files_are_told(s, id, worker, asked, at);
        },
        Action::Progress { id, report } => {
            if let Some(p) = report {
                lemma_progress_is_told(s, id, p, at);
            }
        },
        Action::Result { id, result } => {
            if let Some(r) = result {
                lemma_result_is_told(s, id, r, at);
            }
        },
        Action::ReadingFailed { id, reason } => {
            lemma_reading_is_told(s, id, reason, at);
        },
        _ => {},
    }
}

/// Whatever changes the status of a job, those who watch it are told of the job as
/// it then is; and so it is told of every new job. (A job all of whose places are
/// taken while it waits is none that comes about.)
pub proof fn law_changes_are_told(s: StateView, a: Action, at: Clock, id: Seq<char>)
    requires
        valid(s),
        fresh(s, a),
        lookup(after(s, a, at).jobs, id) is Some,
        lookup(s.jobs, id) matches Some(j) ==> j.status != lookup(
            after(s, a, at).jobs,
            id,
        )->Some_0.status && (a is Fetch ==> j.assignments.len() < j.target_workers),
    ensures
        is_told(outcome(s, a, at).1, lookup(after(s, a, at).jobs, id)->Some_0, at),
{
    match a {
        Action::Fetch { worker } => {
            let t = StateView { active: del(s.active, worker), ..s };
            lemma_assign_tells(t, worker, at);
            if let Some((own, k)) = current_job(s, worker) {
                lemma_put_facts(s.jobs, own, touched(k, worker, at));
            }
            assert(lookup(after(s, a, at).jobs, id) is Some);
            if id_check(worker) is Ok && current_job(s, worker) is None {
                assert(lookup(assign(t, worker, at).state.jobs, id) is Some);
                lemma_job_ok(s, id);
            }
        },
        Action::LookForLost => {
            lemma_swept_tells(s, at);
        },
        Action::Forget => {
            law_only_expired_jobs_are_forgotten(
                s.jobs,
                cutoff(s.config.scheduler.job_retention, at),
                id,
            );
        },
        _ => {
            lemma_one_told(s, a, at);
        },
    }
}

} // verus!
