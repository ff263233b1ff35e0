//! Answers, with what is to be done besides.

use vstd::prelude::*;

use crate::events::{Notice, NoticeView};
use crate::service::error::{Code, Refusal, ServiceError};
use crate::state::StateView;
use crate::views::seq_views;

verus! {

/// The answer to a request, and what is to be done in its wake, in order.
pub struct Reply<T> {
    pub result: Result<T, ServiceError>,
    pub notices: Vec<Notice>,
}

/// What a request does: the state after it, what is to be done, and the
/// answer.
pub struct Step<R> {
    pub state: StateView,
    pub notices: Seq<NoticeView>,
    pub result: Result<R, Refusal>,
}

/// A request that changes nothing and is answered with `answer`.
pub open spec fn unchanged<R>(s: StateView, answer: R) -> Step<R> {
    Step { state: s, notices: Seq::empty(), result: Ok(answer) }
}

/// A request that changes nothing and is refused.
pub open spec fn refused<R>(s: StateView, code: Code, message: Seq<char>) -> Step<R> {
    Step { state: s, notices: Seq::empty(), result: Err(Refusal { code, message }) }
}

/// Whether a reply, with the state after it, is what `step` says, for answers
/// that are compared as they are.
pub open spec fn replies<T>(r: Reply<T>, state: StateView, step: Step<T>) -> bool {
    &&& state == step.state
    &&& seq_views(r.notices@) == step.notices
    &&& match r.result {
        Ok(x) => step.result == Ok::<T, Refusal>(x),
        Err(e) => step.result == Err::<T, Refusal>(e@),
    }
}

/// Whether a reply, with the state after it, is what `step` says, for answers
/// that are compared by their views.
pub open spec fn replies_view<T: View>(r: Reply<T>, state: StateView, step: Step<T::V>) -> bool {
    &&& state == step.state
    &&& seq_views(r.notices@) == step.notices
    &&& match r.result {
        Ok(x) => step.result == Ok::<T::V, Refusal>(x@),
        Err(e) => step.result == Err::<T::V, Refusal>(e@),
    }
}

impl<T> Reply<T> {
    /// An answer after which nothing is to be done.
    pub fn answer(x: T) -> (r: Reply<T>)
        ensures
            r.result == Ok::<T, ServiceError>(x),
            seq_views(r.notices@) == Seq::<NoticeView>::empty(),
    {
        let notices: Vec<Notice> = Vec::new();
        assert(seq_views(notices@) =~= Seq::<NoticeView>::empty());
        Reply { result: Ok(x), notices }
    }

    /// A refusal, after which nothing is to be done.
    pub fn refuse(e: ServiceError) -> (r: Reply<T>)
        ensures
            r.result == Err::<T, ServiceError>(e),
            seq_views(r.notices@) == Seq::<NoticeView>::empty(),
    {
        let notices: Vec<Notice> = Vec::new();
        assert(seq_views(notices@) =~= Seq::<NoticeView>::empty());
        Reply { result: Err(e), notices }
    }
}

/// Adds a notice at the end.
pub fn note(notices: &mut Vec<Notice>, n: Notice)
    ensures
        seq_views(final(notices)@) == seq_views(old(notices)@).push(n@),
{
    let ghost before = notices@;
    notices.push(n);
    assert(seq_views(notices@) =~= seq_views(before).push(n@));
}

/// No notices.
pub fn no_notices() -> (r: Vec<Notice>)
    ensures
        seq_views(r@) == Seq::<NoticeView>::empty(),
{
    let notices: Vec<Notice> = Vec::new();
    assert(seq_views(notices@) =~= Seq::<NoticeView>::empty());
    notices
}

/// The refusal of a worker id.
pub open spec fn bad_worker_id(e: crate::id::WorkerIdError) -> Refusal {
    Refusal { code: Code::InvalidArgument, message: "worker_id: "@ + crate::id::id_error_text(e) }
}

/// Checks a worker id.
pub fn require_valid_worker_id(worker_id: &str) -> (r: Result<(), ServiceError>)
    ensures
        match crate::id::id_check(worker_id@) {
            Ok(_) => r is Ok,
            Err(e) => r matches Err(x) && x@ == bad_worker_id(e),
        },
{
    match crate::id::validate(worker_id) {
        Ok(_) => Ok(()),
        Err(e) => {
            let mut m = "worker_id: ".to_owned();
            m.push_str(e.message().as_str());
            Err(ServiceError::new(Code::InvalidArgument, m.as_str()))
        },
    }
}

} // verus!
