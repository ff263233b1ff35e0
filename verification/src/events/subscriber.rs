//! The watchers of jobs: one channel each.
//!
//! An event goes to every watcher of its job without waiting. A watcher that
//! has gone is dropped, and so is one whose channel is full, which is told so
//! if there is room for it. When a job ends, the channels of its watchers are
//! closed.

use vstd::prelude::*;

use crate::pb;
use crate::service::error::{Code, Refusal, ServiceError};
use crate::strmap::StrMap;
use crate::views::Duplicate;

verus! {

/// How many events a watcher may fall behind.
pub const SUBSCRIBER_CAPACITY: usize = 64;

/// `tokio::sync::mpsc::Sender`: the end of a channel that messages go into.
#[verifier::external_type_specification]
#[verifier::external_body]
#[verifier::reject_recursive_types(T)]
pub struct ExSender<T>(tokio::sync::mpsc::Sender<T>);

/// `tokio::sync::mpsc::Receiver`: the end of a channel that messages come out
/// of.
#[verifier::external_type_specification]
#[verifier::external_body]
#[verifier::reject_recursive_types(T)]
pub struct ExReceiver<T>(tokio::sync::mpsc::Receiver<T>);

/// What a watcher is sent: an event, or the reason why no more will come.
pub type Message = Result<pb::JobEvent, ServiceError>;

/// The end of a watcher's channel that events go into.
pub type EventSender = tokio::sync::mpsc::Sender<Message>;

/// The end of a watcher's channel that events come out of.
pub type EventReceiver = tokio::sync::mpsc::Receiver<Message>;

/// What became of a message that was offered to a channel.
#[derive(Debug, Clone, Copy, PartialEq, Eq, Structural)]
pub enum Sent {
    /// The channel took it.
    Taken,
    /// The other end is gone.
    Closed,
    /// The channel had no room for it.
    Full,
}

/// What a watcher is told by a message.
pub open spec fn told(m: Message) -> Result<pb::JobEventView, Refusal> {
    match m {
        Ok(e) => Ok(e@),
        Err(e) => Err(e@),
    }
}

/// Whether what goes into `tx` comes out of `rx`.
pub uninterp spec fn same_channel(tx: EventSender, rx: EventReceiver) -> bool;

/// How many messages that have not come out the channel of `tx` can hold.
pub uninterp spec fn room(tx: EventSender) -> nat;

/// What was offered through `tx`, in order, with what became of each.
pub uninterp spec fn offers(tx: EventSender) -> Seq<(Result<pb::JobEventView, Refusal>, Sent)>;

/// Whether two senders are of one channel, as far as it was made.
pub open spec fn same_end(a: EventSender, b: EventSender) -> bool {
    &&& room(a) == room(b)
    &&& forall|rx: EventReceiver| #[trigger] same_channel(a, rx) == same_channel(b, rx)
}

/// `tokio::sync::mpsc::channel`: a channel for up to `capacity` messages, by its
/// two ends, through which nothing was offered yet. It panics on a capacity of
/// zero.
#[verifier::external_body]
pub(crate) fn open_channel(capacity: usize) -> (r: (EventSender, EventReceiver))
    requires
        1 <= capacity <= SUBSCRIBER_CAPACITY,
    ensures
        same_channel(r.0, r.1),
        room(r.0) == capacity,
        offers(r.0).len() == 0,
{
    tokio::sync::mpsc::channel(capacity)
}

/// `Sender::try_send`: offers a message without waiting. Whether it is taken
/// depends on the other end; but a channel is not full to which less was offered
/// than it has room for. The channel stays the one it is.
#[verifier::external_body]
pub(crate) fn offer(tx: &mut EventSender, message: Message) -> (r: Sent)
    ensures
        offers(*final(tx)) == offers(*old(tx)).push((told(message), r)),
        same_end(*old(tx), *final(tx)),
        offers(*old(tx)).len() < room(*old(tx)) ==> r != Sent::Full,
{
    match tx.try_send(message) {
        Ok(()) => Sent::Taken,
        Err(tokio::sync::mpsc::error::TrySendError::Closed(_)) => Sent::Closed,
        Err(tokio::sync::mpsc::error::TrySendError::Full(_)) => Sent::Full,
    }
}

/// The watchers of all jobs.
pub struct SubscriberRegistry {
    inner: StrMap<Vec<EventSender>>,
}

/// The watchers that took the message offered to them.
pub open spec fn kept(list: Seq<EventSender>, fates: Seq<Sent>) -> Seq<EventSender>
    decreases list.len(),
{
    if list.len() == 0 {
        Seq::empty()
    } else if fates[list.len() - 1] == Sent::Taken {
        kept(list.drop_last(), fates).push(list.last())
    } else {
        kept(list.drop_last(), fates)
    }
}

/// Keeps the watchers that took the message offered to them.
pub fn keep(list: Vec<EventSender>, fates: &Vec<Sent>) -> (r: Vec<EventSender>)
    requires
        list@.len() == fates@.len(),
    ensures
        r@ == kept(list@, fates@),
{
    let mut list = list;
    let ghost all = list@;
    let mut out: Vec<EventSender> = Vec::new();
    let mut i: usize = 0;
    assert(all.skip(0) =~= all);
    while i < fates.len()
        invariant
            i <= fates@.len(),
            all.len() == fates@.len(),
            list@ == all.skip(i as int),
            out@ == kept(all.take(i as int), fates@),
        decreases fates@.len() - i,
    {
        let tx = list.remove(0);
        assert(list@ =~= all.skip(i as int + 1));
        assert(all.take(i as int + 1).drop_last() =~= all.take(i as int));
        assert(all.take(i as int + 1).last() == tx);
        if fates[i] == Sent::Taken {
            out.push(tx);
        }
        i += 1;
    }
    assert(all.take(i as int) =~= all);
    out
}

impl View for SubscriberRegistry {
    type V = Map<Seq<char>, Seq<EventSender>>;

    closed spec fn view(&self) -> Map<Seq<char>, Seq<EventSender>> {
        self.inner@.map_values(|v: Vec<EventSender>| v@)
    }
}

/// The watchers of one job.
pub open spec fn watchers(m: Map<Seq<char>, Seq<EventSender>>, job_id: Seq<char>) -> Seq<EventSender> {
    if m.contains_key(job_id) {
        m[job_id]
    } else {
        Seq::empty()
    }
}

/// The watchers after those of `job_id` were offered a message: they are then
/// `list`, and it met the given fates. A job without watchers is forgotten.
pub open spec fn after_broadcast(
    m: Map<Seq<char>, Seq<EventSender>>,
    job_id: Seq<char>,
    list: Seq<EventSender>,
    fates: Seq<Sent>,
) -> Map<Seq<char>, Seq<EventSender>> {
    if !m.contains_key(job_id) {
        m
    } else if kept(list, fates).len() == 0 {
        m.remove(job_id)
    } else {
        m.insert(job_id, kept(list, fates))
    }
}

/// What a watcher is told whose channel is full.
pub open spec fn overflow() -> Refusal {
    Refusal {
        code: Code::ResourceExhausted,
        message: "watcher buffer overflowed; reconnect to resume"@,
    }
}

/// What a watcher is told for the last time, after what became of the event that
/// it was offered: nothing, unless its channel is full.
pub fn last_word(fate: Sent) -> (r: Option<ServiceError>)
    ensures
        match r {
            Some(e) => fate == Sent::Full && e@ == overflow(),
            None => fate != Sent::Full,
        },
{
    match fate {
        Sent::Full => Some(
            ServiceError::new(
                Code::ResourceExhausted,
                "watcher buffer overflowed; reconnect to resume",
            ),
        ),
        Sent::Taken | Sent::Closed => None,
    }
}

/// Whether a watcher became `now` when `event` was offered to it and met `fate`:
/// it was offered the event, and after that the reason why no more will come
/// where its channel was full, and nothing else. A channel is full only after as
/// many offers as it has room for.
pub open spec fn handed(
    before: EventSender,
    event: pb::JobEventView,
    fate: Sent,
    now: EventSender,
) -> bool {
    let with_event = offers(before).push((Ok(event), fate));
    &&& same_end(before, now)
    &&& if fate == Sent::Full {
        &&& offers(now).len() == with_event.len() + 1
        &&& offers(now).drop_last() == with_event
        &&& offers(now).last().0 == Err::<pb::JobEventView, Refusal>(overflow())
        &&& offers(before).len() >= room(before)
    } else {
        offers(now) == with_event
    }
}

/// Whether `after` are the watchers after `event` was offered to each watcher
/// of `job_id`, and to nobody else. Those who took it stay.
pub open spec fn broadcast_ends(
    before: Map<Seq<char>, Seq<EventSender>>,
    job_id: Seq<char>,
    event: pb::JobEventView,
    after: Map<Seq<char>, Seq<EventSender>>,
) -> bool {
    let list = watchers(before, job_id);
    exists|now: Seq<EventSender>, fates: Seq<Sent>|
        {
            &&& now.len() == list.len() && fates.len() == list.len()
            &&& forall|i: int|
                0 <= i < list.len() ==> handed(#[trigger] list[i], event, fates[i], now[i])
            &&& after == #[trigger] after_broadcast(before, job_id, now, fates)
        }
}

/// Whether nothing but `first` was offered through `tx`. The channel, which is
/// new, was not full.
pub open spec fn handed_first(tx: EventSender, first: Option<pb::JobEventView>) -> bool {
    match first {
        Some(event) => offers(tx).len() == 1 && offers(tx)[0].0 == Ok::<
            pb::JobEventView,
            Refusal,
        >(event) && offers(tx)[0].1 != Sent::Full,
        None => offers(tx).len() == 0,
    }
}

/// Whether `rx` is the end of a new channel with room for `capacity` messages,
/// to which nothing but `first` was offered.
pub open spec fn opened(rx: EventReceiver, capacity: nat, first: Option<pb::JobEventView>) -> bool {
    exists|tx: EventSender| #[trigger]
        same_channel(tx, rx) && room(tx) == capacity && handed_first(tx, first)
}

/// Whether `after` are the watchers with a new one of `job_id`, which listens at
/// `rx`, may fall behind by as many events as any, and was offered nothing but
/// `first`.
pub open spec fn joined_by(
    before: Map<Seq<char>, Seq<EventSender>>,
    job_id: Seq<char>,
    rx: EventReceiver,
    first: Option<pb::JobEventView>,
    after: Map<Seq<char>, Seq<EventSender>>,
) -> bool {
    exists|tx: EventSender| #[trigger]
        same_channel(tx, rx) && room(tx) == SUBSCRIBER_CAPACITY && handed_first(tx, first) && after
            == before.insert(job_id, watchers(before, job_id).push(tx))
}

/// Opens a channel with room for `capacity` messages and offers it `first`.
pub(crate) fn open_with(capacity: usize, first: pb::JobEvent) -> (r: (EventSender, EventReceiver))
    requires
        1 <= capacity <= SUBSCRIBER_CAPACITY,
    ensures
        same_channel(r.0, r.1),
        room(r.0) == capacity,
        handed_first(r.0, Some(first@)),
{
    let (tx, rx) = open_channel(capacity);
    let mut tx = tx;
    let _ = offer(&mut tx, Ok(first));
    (tx, rx)
}

impl SubscriberRegistry {
    /// No watchers.
    pub fn new() -> (r: SubscriberRegistry)
        ensures
            r@ == Map::<Seq<char>, Seq<EventSender>>::empty(),
    {
        let r = SubscriberRegistry { inner: StrMap::new() };
        assert(r@ =~= Map::<Seq<char>, Seq<EventSender>>::empty());
        r
    }

    /// Adds a channel to the watchers of a job.
    fn register(&mut self, job_id: &str, tx: EventSender)
        ensures
            final(self)@ == old(self)@.insert(job_id@, watchers(old(self)@, job_id@).push(tx)),
    {
        let ghost before = self.inner@;
        let mut list: Vec<EventSender> = match self.inner.remove(job_id) {
            Some(v) => v,
            None => Vec::new(),
        };
        assert(list@ =~= watchers(old(self)@, job_id@));
        list.push(tx);
        self.inner.insert(job_id.to_owned(), list);
        assert(self@ =~= old(self)@.insert(job_id@, watchers(old(self)@, job_id@).push(tx)));
    }

    /// Opens a channel for a new watcher of a job.
    pub fn subscribe(&mut self, job_id: &str) -> (rx: EventReceiver)
        ensures
            joined_by(old(self)@, job_id@, rx, None, final(self)@),
    {
        let (tx, rx) = open_channel(SUBSCRIBER_CAPACITY);
        self.register(job_id, tx);
        rx
    }

    /// Opens a channel for a new watcher of a job, and puts `snapshot` into it
    /// before anything else.
    pub fn subscribe_with_snapshot(&mut self, job_id: &str, snapshot: pb::JobEvent) -> (rx:
        EventReceiver)
        ensures
            joined_by(old(self)@, job_id@, rx, Some(snapshot@), final(self)@),
    {
        let (tx, rx) = open_with(SUBSCRIBER_CAPACITY, snapshot);
        self.register(job_id, tx);
        rx
    }

    /// Offers an event to every watcher of a job, and keeps those that took
    /// it.
    pub fn broadcast(&mut self, job_id: &str, event: &pb::JobEvent)
        ensures
            broadcast_ends(old(self)@, job_id@, event@, final(self)@),
    {
        let mut list = match self.inner.remove(job_id) {
            Some(v) => v,
            None => {
                proof {
                    let now: Seq<EventSender> = Seq::empty();
                    let fates: Seq<Sent> = Seq::empty();
                    assert(self@ =~= old(self)@);
                    assert(self@ == after_broadcast(old(self)@, job_id@, now, fates));
                }
                return;
            },
        };
        let ghost all = list@;
        let mut now: Vec<EventSender> = Vec::new();
        let mut fates: Vec<Sent> = Vec::new();
        assert(all.skip(0) =~= all);
        while list.len() > 0
            invariant
                now@.len() == fates@.len(),
                now@.len() + list@.len() == all.len(),
                list@ == all.skip(now@.len() as int),
                forall|j: int|
                    0 <= j < now@.len() ==> handed(
                        #[trigger] all[j],
                        event@,
                        fates@[j],
                        now@[j],
                    ),
            decreases list@.len(),
        {
            let ghost i = now@.len() as int;
            let mut tx = list.remove(0);
            let ghost before = tx;
            assert(before == all[i]);
            assert(list@ =~= all.skip(i + 1));
            let fate = offer(&mut tx, Ok(event.copy()));
            let ghost with_event = offers(tx);
            if let Some(reason) = last_word(fate) {
                let _ = offer(&mut tx, Err(reason));
                assert(offers(tx).drop_last() =~= with_event);
            }
            assert(handed(before, event@, fate, tx));
            now.push(tx);
            fates.push(fate);
        }
        proof {
            assert(all =~= watchers(old(self)@, job_id@));
        }
        let ghost list_now = now@;
        let remaining = keep(now, &fates);
        if remaining.len() > 0 {
            self.inner.insert(job_id.to_owned(), remaining);
        }
        assert(self@ =~= after_broadcast(old(self)@, job_id@, list_now, fates@));
    }

    /// Closes the channels of all watchers of a job.
    pub fn terminate(&mut self, job_id: &str)
        ensures
            final(self)@ == old(self)@.remove(job_id@),
    {
        let _ = self.inner.remove(job_id);
        assert(self@ =~= old(self)@.remove(job_id@));
    }

    /// How many watchers a job has.
    pub fn subscriber_count(&self, job_id: &str) -> (n: usize)
        ensures
            n == watchers(self@, job_id@).len(),
    {
        match self.inner.get(job_id) {
            Some(v) => v.len(),
            None => 0,
        }
    }
}

} // verus!
