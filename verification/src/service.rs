//! What the master answers to its clients and workers.

pub mod cli_rpc;
pub mod error;
pub mod reply;
pub mod worker_rpc;

use vstd::prelude::*;

use crate::events::subscriber::{broadcast_ends, EventReceiver, EventSender, SubscriberRegistry};
use crate::events::{finalize_stream, Notice, NoticeView};
use crate::id::hyphenated_uuid;
use crate::pb;
use crate::service::cli_rpc::Probe;
use crate::service::error::{Refusal, ServiceError};
use crate::service::reply::{no_notices, note, Reply, Step};
use crate::state::{MasterState, StateView};
use crate::strmap::StrMap;
use crate::time::Clock;
use crate::views::{opt_text, opt_view, seq_views};

verus! {

/// Whether `after` are the watchers after a notice was acted on: an event was
/// offered to the watchers of its job, or their channels were closed.
pub open spec fn acted_on(
    before: Map<Seq<char>, Seq<EventSender>>,
    n: NoticeView,
    after: Map<Seq<char>, Seq<EventSender>>,
) -> bool {
    match n {
        NoticeView::Event(e) => broadcast_ends(before, e.job_id, e, after),
        NoticeView::End(id) => after == before.remove(id),
        NoticeView::ReadManifest { .. } => after == before,
    }
}

/// Whether `after` are the watchers after the notices were acted on in their
/// order.
pub open spec fn dispatched(
    before: Map<Seq<char>, Seq<EventSender>>,
    notices: Seq<NoticeView>,
    after: Map<Seq<char>, Seq<EventSender>>,
) -> bool
    decreases notices.len(),
{
    if notices.len() == 0 {
        after == before
    } else {
        exists|mid: Map<Seq<char>, Seq<EventSender>>|
            dispatched(before, notices.drop_last(), mid) && #[trigger] acted_on(
                mid,
                notices.last(),
                after,
            )
    }
}

/// The notices that are left for whoever reads lists of files.
pub open spec fn readings(notices: Seq<NoticeView>) -> Seq<NoticeView>
    decreases notices.len(),
{
    if notices.len() == 0 {
        Seq::empty()
    } else if notices.last() is ReadManifest {
        readings(notices.drop_last()).push(notices.last())
    } else {
        readings(notices.drop_last())
    }
}

/// Tells watchers what the notices say, and hands back those that are for
/// whoever reads lists of files.
pub fn dispatch(subscribers: &mut SubscriberRegistry, notices: Vec<Notice>) -> (r: Vec<Notice>)
    ensures
        dispatched(old(subscribers)@, seq_views(notices@), final(subscribers)@),
        seq_views(r@) == readings(seq_views(notices@)),
{
    let ghost all = seq_views(notices@);
    let ghost before = subscribers@;
    let mut rest = notices;
    let mut left = no_notices();
    let ghost mut done: int = 0;
    proof {
        assert(all.skip(0) =~= all);
        assert(all.take(0) =~= Seq::<NoticeView>::empty());
    }
    while rest.len() > 0
        invariant
            0 <= done <= all.len(),
            seq_views(rest@) == all.skip(done),
            dispatched(before, all.take(done), subscribers@),
            seq_views(left@) == readings(all.take(done)),
        decreases rest@.len(),
    {
        let ghost mid = subscribers@;
        let ghost held = rest@;
        let n = rest.remove(0);
        proof {
            assert(seq_views(rest@) =~= seq_views(held).drop_first());
            assert(seq_views(held)[0] == n@);
            assert(all.skip(done).drop_first() =~= all.skip(done + 1));
            assert(all.take(done + 1).drop_last() =~= all.take(done));
            assert(all.take(done + 1).last() == n@);
        }
        match n {
            Notice::Event(e) => {
                subscribers.broadcast(e.job_id.as_str(), &e);
                assert(acted_on(mid, all.take(done + 1).last(), subscribers@));
            },
            Notice::End(id) => {
                finalize_stream(subscribers, id.as_str());
                assert(acted_on(mid, all.take(done + 1).last(), subscribers@));
            },
            Notice::ReadManifest { job_id, path, lists_dirs, loop_files } => {
                note(&mut left, Notice::ReadManifest { job_id, path, lists_dirs, loop_files });
                assert(acted_on(mid, all.take(done + 1).last(), subscribers@));
            },
        }
        proof {
            done = done + 1;
        }
    }
    assert(all.take(done) =~= all);
    left
}

/// Whether `r` is the reply `q` after its notices were acted on.
pub open spec fn settled<T>(
    r: Reply<T>,
    q: Reply<T>,
    before: Map<Seq<char>, Seq<EventSender>>,
    after: Map<Seq<char>, Seq<EventSender>>,
) -> bool {
    &&& r.result == q.result
    &&& dispatched(before, seq_views(q.notices@), after)
    &&& seq_views(r.notices@) == readings(seq_views(q.notices@))
}

/// Acts on the notices of a reply; those for whoever reads lists stay in it.
pub fn settle<T>(state: &mut MasterState, reply: Reply<T>) -> (r: Reply<T>)
    ensures
        settled(r, reply, old(state).subscribers@, final(state).subscribers@),
        final(state)@ == old(state)@,
{
    let Reply { result, notices } = reply;
    let left = dispatch(&mut state.subscribers, notices);
    Reply { result, notices: left }
}

/// The state of a master and its watchers.
#[verifier::ext_equal]
pub struct Master {
    pub state: StateView,
    pub watchers: Map<Seq<char>, Seq<EventSender>>,
}

/// Whether a request had the effect of `step`: on the state, on the watchers,
/// and in what is left to be read.
pub open spec fn took_effect<R>(
    left: Seq<Notice>,
    before: Master,
    after: Master,
    step: Step<R>,
) -> bool {
    &&& after.state == step.state
    &&& dispatched(before.watchers, step.notices, after.watchers)
    &&& seq_views(left) == readings(step.notices)
}

/// Whether a request was served as `step` says, for answers that are compared
/// as they are.
pub open spec fn served<T>(r: Reply<T>, before: Master, after: Master, step: Step<T>) -> bool {
    &&& took_effect(r.notices@, before, after, step)
    &&& match r.result {
        Ok(x) => step.result == Ok::<T, Refusal>(x),
        Err(e) => step.result == Err::<T, Refusal>(e@),
    }
}

/// Whether a request was served as `step` says, for answers that are compared
/// by their views.
pub open spec fn served_view<T: View>(
    r: Reply<T>,
    before: Master,
    after: Master,
    step: Step<T::V>,
) -> bool {
    &&& took_effect(r.notices@, before, after, step)
    &&& match r.result {
        Ok(x) => step.result == Ok::<T::V, Refusal>(x@),
        Err(e) => step.result == Err::<T::V, Refusal>(e@),
    }
}

/// The service of the master: each request changes the state and is told to
/// the watchers of its job.
pub struct MasterServiceImpl {
    pub state: MasterState,
}

impl View for MasterServiceImpl {
    type V = Master;

    open spec fn view(&self) -> Master {
        Master { state: self.state@, watchers: self.state.subscribers@ }
    }
}

impl MasterServiceImpl {
    /// The service of a master in the given state.
    #[must_use]
    pub fn new(state: MasterState) -> (r: MasterServiceImpl)
        ensures
            r.state == state,
    {
        MasterServiceImpl { state }
    }

    /// Creates a job under a new id; see [`cli_rpc::create_job`].
    pub fn create_job(
        &mut self,
        req: pb::CreateJobRequest,
        probes: &StrMap<Probe>,
        at: &Clock,
    ) -> (r: Reply<pb::CreateJobResponse>)
        ensures
            exists|id: Seq<char>, q: Reply<pb::CreateJobResponse>|
                {
                    &&& hyphenated_uuid(id)
                    &&& #[trigger] cli_rpc::creates(
                        q,
                        final(self)@.state,
                        old(self)@.state,
                        req,
                        probes.seq(),
                        id,
                        *at,
                    )
                    &&& settled(r, q, old(self)@.watchers, final(self)@.watchers)
                },
    {
        let reply = cli_rpc::create_job(&mut self.state, req, probes, at);
        settle(&mut self.state, reply)
    }

    /// Opens a channel for a watcher of a job; see [`cli_rpc::watch_job`].
    pub fn watch_job(&mut self, req: pb::WatchJobRequest, at: &Clock) -> (r: Result<
        EventReceiver,
        ServiceError,
    >)
        ensures
            cli_rpc::watches(
                r,
                old(self)@.state,
                old(self)@.watchers,
                final(self)@.state,
                final(self)@.watchers,
                req.job_id@,
                *at,
            ),
    {
        cli_rpc::watch_job(&mut self.state, req, at)
    }

    /// Tells all that is known of a job.
    pub fn query_job(&self, req: pb::QueryJobRequest) -> (r: Result<
        pb::QueryJobResponse,
        ServiceError,
    >)
        ensures
            cli_rpc::tells(r, self@.state, req.job_id@),
    {
        cli_rpc::query_job(&self.state, req)
    }

    /// Cancels a job that has not ended.
    pub fn delete_job(&mut self, req: pb::DeleteJobRequest, at: &Clock) -> (r: Reply<
        pb::DeleteJobResponse,
    >)
        ensures
            served(
                r,
                old(self)@,
                final(self)@,
                cli_rpc::cancel(old(self)@.state, req.job_id@, *at),
            ),
    {
        let reply = cli_rpc::delete_job(&mut self.state, req, at);
        settle(&mut self.state, reply)
    }

    /// Lists jobs, the newest first.
    pub fn list_jobs(&self, req: pb::ListJobsRequest) -> (r: pb::ListJobsResponse)
        ensures
            r@.jobs == cli_rpc::listing(self@.state.jobs, req.status_filter, req.limit),
    {
        cli_rpc::list_jobs(&self.state, req)
    }

    /// Answers a worker that asks for work.
    pub fn fetch_job(&mut self, req: pb::FetchJobRequest, at: &Clock) -> (r: Reply<
        pb::FetchJobResponse,
    >)
        ensures
            served_view(
                r,
                old(self)@,
                final(self)@,
                crate::scheduler::fetch_job::fetch(old(self)@.state, req.worker_id@, *at),
            ),
    {
        let reply = worker_rpc::fetch_job(&mut self.state, req, at);
        settle(&mut self.state, reply)
    }

    /// Answers a worker that is ready, or failed to get ready.
    pub fn report_ready(&mut self, req: pb::ReportReadyRequest, at: &Clock) -> (r: Reply<
        pb::ReportReadyResponse,
    >)
        ensures
            served(
                r,
                old(self)@,
                final(self)@,
                worker_rpc::checked(
                    old(self)@.state,
                    req.worker_id@,
                    crate::scheduler::ready::ready(
                        old(self)@.state,
                        req.job_id@,
                        req.worker_id@,
                        opt_text(req.error),
                        *at,
                    ),
                ),
            ),
    {
        let reply = worker_rpc::report_ready(&mut self.state, req, at);
        settle(&mut self.state, reply)
    }

    /// Hands files to a worker.
    pub fn fetch_file_batch(&mut self, req: pb::FetchFileBatchRequest, at: &Clock) -> (r: Reply<
        pb::FetchFileBatchResponse,
    >)
        ensures
            served_view(
                r,
                old(self)@,
                final(self)@,
                worker_rpc::checked(
                    old(self)@.state,
                    req.worker_id@,
                    worker_rpc::file_batch(
                        old(self)@.state,
                        req.job_id@,
                        req.worker_id@,
                        req.batch_size,
                        *at,
                    ),
                ),
            ),
    {
        let reply = worker_rpc::fetch_file_batch(&mut self.state, req, at);
        settle(&mut self.state, reply)
    }

    /// Takes the progress of a worker in, and tells the watchers of its job.
    pub fn report_progress(&mut self, req: pb::ReportProgressRequest, at: &Clock) -> (r: Reply<
        pb::ReportProgressResponse,
    >)
        ensures
            served(
                r,
                old(self)@,
                final(self)@,
                worker_rpc::progress_request(
                    old(self)@.state,
                    req.job_id@,
                    opt_view(req.progress),
                    *at,
                ),
            ),
    {
        let reply = worker_rpc::report_progress(&mut self.state, req, at);
        settle(&mut self.state, reply)
    }

    /// Takes the result of a worker in.
    pub fn report_result(&mut self, req: pb::ReportResultRequest, at: &Clock) -> (r: Reply<
        pb::ReportResultResponse,
    >)
        ensures
            served(
                r,
                old(self)@,
                final(self)@,
                worker_rpc::result_request(
                    old(self)@.state,
                    req.job_id@,
                    opt_view(req.result),
                    *at,
                ),
            ),
    {
        let reply = worker_rpc::report_result(&mut self.state, req, at);
        settle(&mut self.state, reply)
    }
}

} // verus!
