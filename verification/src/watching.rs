//! What the watchers of a job hear.
//!
//! A watcher is first shown the job as it is. As long as it stays, it is handed
//! each event of its job once and in order, and nothing else.

use vstd::prelude::*;

use crate::events::subscriber::{
    after_broadcast, broadcast_ends, handed, handed_first, joined_by, kept, offers, room,
    same_channel, same_end, watchers, EventReceiver, EventSender, Sent, SUBSCRIBER_CAPACITY,
};
use crate::events::NoticeView;
use crate::pb;
use crate::service::error::Refusal;
use crate::service::{acted_on, dispatched};

verus! {

/// The events of the job `id` among notices, in their order.
pub open spec fn events_for(notices: Seq<NoticeView>, id: Seq<char>) -> Seq<pb::JobEventView>
    decreases notices.len(),
{
    if notices.len() == 0 {
        Seq::empty()
    } else {
        let before = events_for(notices.drop_last(), id);
        match notices.last() {
            NoticeView::Event(e) => if e.job_id == id {
                before.push(e)
            } else {
                before
            },
            _ => before,
        }
    }
}

/// Offers of events that were all taken.
pub open spec fn taken(events: Seq<pb::JobEventView>) -> Seq<
    (Result<pb::JobEventView, Refusal>, Sent),
> {
    events.map_values(
        |e: pb::JobEventView| (Ok::<pb::JobEventView, Refusal>(e), Sent::Taken),
    )
}

/// Whether a watcher became `now` by being handed `events`, all of which it took,
/// and nothing else.
pub open spec fn hears(
    before: EventSender,
    now: EventSender,
    events: Seq<pb::JobEventView>,
) -> bool {
    same_end(before, now) && offers(now) == offers(before) + taken(events)
}

/// Whether the watchers `now` are those at the places `from` of the watchers
/// `before`, in the same order, and each has been handed `events`.
pub open spec fn stayed(
    before: Seq<EventSender>,
    now: Seq<EventSender>,
    events: Seq<pb::JobEventView>,
    from: Seq<int>,
) -> bool {
    &&& from.len() == now.len()
    &&& forall|i: int|
        0 <= i < now.len() ==> 0 <= #[trigger] from[i] < before.len() && hears(
            before[from[i]],
            now[i],
            events,
        )
    &&& forall|i: int, j: int| 0 <= i < j < from.len() ==> #[trigger] from[i] < #[trigger] from[j]
}

/// Whether the watchers `now` are some of the watchers `before`, in the same
/// order, and each has been handed `events`.
pub open spec fn have_heard(
    before: Seq<EventSender>,
    now: Seq<EventSender>,
    events: Seq<pb::JobEventView>,
) -> bool {
    exists|from: Seq<int>| stayed(before, now, events, from)
}

/// Those who are kept are some of those there were, in the same order, and took
/// what they were offered.
proof fn lemma_kept(list: Seq<EventSender>, fates: Seq<Sent>) -> (from: Seq<int>)
    requires
        list.len() <= fates.len(),
    ensures
        from.len() == kept(list, fates).len(),
        forall|i: int|
            0 <= i < from.len() ==> 0 <= #[trigger] from[i] < list.len() && fates[from[i]]
                == Sent::Taken && kept(list, fates)[i] == list[from[i]],
        forall|i: int, j: int| 0 <= i < j < from.len() ==> #[trigger] from[i] < #[trigger] from[j],
    decreases list.len(),
{
    if list.len() == 0 {
        Seq::empty()
    } else {
        let head = lemma_kept(list.drop_last(), fates);
        let last = list.len() - 1;
        if fates[last] == Sent::Taken {
            let from = head.push(last);
            assert forall|i: int| 0 <= i < from.len() implies 0 <= #[trigger] from[i] < list.len()
                && fates[from[i]] == Sent::Taken && kept(list, fates)[i] == list[from[i]] by {
                if i < head.len() {
                    assert(from[i] == head[i]);
                }
            }
            assert forall|i: int, j: int| 0 <= i < j < from.len() implies #[trigger] from[i]
                < #[trigger] from[j] by {
                assert(from[i] == head[i]);
                if j < head.len() {
                    assert(from[j] == head[j]);
                }
            }
            from
        } else {
            assert forall|i: int| 0 <= i < head.len() implies 0 <= #[trigger] head[i] < list.len()
                && fates[head[i]] == Sent::Taken && kept(list, fates)[i] == list[head[i]] by {
            }
            head
        }
    }
}

/// Whoever hears nothing is as before.
proof fn lemma_heard_nothing(list: Seq<EventSender>)
    ensures
        have_heard(list, list, Seq::empty()),
{
    let from = Seq::new(list.len(), |i: int| i);
    assert forall|i: int| 0 <= i < list.len() implies 0 <= #[trigger] from[i] < list.len() && hears(
        list[from[i]],
        list[i],
        Seq::empty(),
    ) by {
        let none = taken(Seq::empty());
        assert(offers(list[i]) + none =~= offers(list[i]));
    }
    assert(stayed(list, list, Seq::empty(), from));
}

/// Hearing goes on from where it was.
proof fn lemma_heard_more(
    before: Seq<EventSender>,
    mid: Seq<EventSender>,
    now: Seq<EventSender>,
    a: Seq<pb::JobEventView>,
    b: Seq<pb::JobEventView>,
)
    requires
        have_heard(before, mid, a),
        have_heard(mid, now, b),
    ensures
        have_heard(before, now, a + b),
{
    let f = choose|f: Seq<int>| stayed(before, mid, a, f);
    let g = choose|g: Seq<int>| stayed(mid, now, b, g);
    let from = Seq::new(now.len(), |i: int| f[g[i]]);
    assert forall|i: int| 0 <= i < now.len() implies 0 <= #[trigger] from[i] < before.len() && hears(
        before[from[i]],
        now[i],
        a + b,
    ) by {
        let k = g[i];
        assert(0 <= f[k] < before.len());
        let (x, y, z) = (before[f[k]], mid[k], now[i]);
        assert(hears(x, y, a) && hears(y, z, b));
        assert(offers(x) + taken(a) + taken(b) =~= offers(x) + taken(a + b));
        assert forall|rx: EventReceiver| #[trigger] same_channel(x, rx) == same_channel(z, rx) by {
            assert(same_channel(x, rx) == same_channel(y, rx));
        }
    }
    assert forall|i: int, j: int| 0 <= i < j < from.len() implies #[trigger] from[i]
        < #[trigger] from[j] by {
        assert(g[i] < g[j]);
        assert(0 <= g[i] && g[j] < mid.len());
        assert(f[g[i]] < f[g[j]]);
    }
    assert(stayed(before, now, a + b, from));
}

/// After an event was told, whoever stays has heard it.
proof fn lemma_broadcast_heard(
    before: Map<Seq<char>, Seq<EventSender>>,
    event: pb::JobEventView,
    after: Map<Seq<char>, Seq<EventSender>>,
)
    requires
        broadcast_ends(before, event.job_id, event, after),
    ensures
        have_heard(
            watchers(before, event.job_id),
            watchers(after, event.job_id),
            seq![event],
        ),
        forall|o: Seq<char>|
            o != event.job_id ==> #[trigger] watchers(after, o) == watchers(before, o),
{
    let id = event.job_id;
    let list = watchers(before, id);
    let (now, fates) = choose|now: Seq<EventSender>, fates: Seq<Sent>|
        {
            &&& now.len() == list.len() && fates.len() == list.len()
            &&& forall|i: int|
                0 <= i < list.len() ==> handed(#[trigger] list[i], event, fates[i], now[i])
            &&& after == #[trigger] after_broadcast(before, id, now, fates)
        };
    let from = lemma_kept(now, fates);
    let there = watchers(after, id);
    assert(there =~= kept(now, fates));
    assert forall|i: int| 0 <= i < there.len() implies 0 <= #[trigger] from[i] < list.len() && hears(
        list[from[i]],
        there[i],
        seq![event],
    ) by {
        let k = from[i];
        assert(handed(list[k], event, fates[k], now[k]));
        assert(offers(list[k]) + taken(seq![event]) =~= offers(list[k]).push(
            (Ok(event), Sent::Taken),
        ));
    }
    assert(stayed(list, there, seq![event], from));
}

/// A watcher that is still there has been handed each event of its job, once
/// and in order, and nothing else; and no watcher has come in between.
pub proof fn law_watchers_hear_all(
    before: Map<Seq<char>, Seq<EventSender>>,
    notices: Seq<NoticeView>,
    after: Map<Seq<char>, Seq<EventSender>>,
    id: Seq<char>,
)
    requires
        dispatched(before, notices, after),
    ensures
        have_heard(watchers(before, id), watchers(after, id), events_for(notices, id)),
    decreases notices.len(),
{
    lemma_heard_nothing(watchers(before, id));
    if notices.len() > 0 {
        let head = notices.drop_last();
        let mid = choose|mid: Map<Seq<char>, Seq<EventSender>>|
            dispatched(before, head, mid) && #[trigger] acted_on(mid, notices.last(), after);
        law_watchers_hear_all(before, head, mid, id);
        let told = events_for(head, id);
        match notices.last() {
            NoticeView::Event(e) => {
                lemma_broadcast_heard(mid, e, after);
                if e.job_id == id {
                    lemma_heard_more(
                        watchers(before, id),
                        watchers(mid, id),
                        watchers(after, id),
                        told,
                        seq![e],
                    );
                    assert(told + seq![e] =~= told.push(e));
                }
            },
            NoticeView::End(of) => {
                if of == id {
                    assert(watchers(after, id) =~= Seq::<EventSender>::empty());
                    assert(stayed(
                        watchers(before, id),
                        watchers(after, id),
                        told,
                        Seq::<int>::empty(),
                    ));
                } else {
                    assert(watchers(after, id) == watchers(mid, id));
                }
            },
            NoticeView::ReadManifest { .. } => {},
        }
    }
}

/// What is told by one request after another is told in their order.
pub proof fn law_telling_goes_on(
    before: Map<Seq<char>, Seq<EventSender>>,
    first: Seq<NoticeView>,
    mid: Map<Seq<char>, Seq<EventSender>>,
    more: Seq<NoticeView>,
    after: Map<Seq<char>, Seq<EventSender>>,
)
    requires
        dispatched(before, first, mid),
        dispatched(mid, more, after),
    ensures
        dispatched(before, first + more, after),
    decreases more.len(),
{
    let all = first + more;
    if more.len() == 0 {
        assert(all =~= first);
    } else {
        let late = choose|late: Map<Seq<char>, Seq<EventSender>>|
            dispatched(mid, more.drop_last(), late) && #[trigger] acted_on(
                late,
                more.last(),
                after,
            );
        law_telling_goes_on(before, first, mid, more.drop_last(), late);
        assert(all.drop_last() =~= first + more.drop_last());
        assert(all.last() == more.last());
        assert(acted_on(late, all.last(), after));
    }
}

/// Whether a watcher listens at `rx`, may fall behind by as many events as any,
/// and was handed `snapshot`, then `events`, all of which it took, and nothing
/// else.
pub open spec fn heard_from_the_start(
    now: EventSender,
    rx: EventReceiver,
    snapshot: pb::JobEventView,
    events: Seq<pb::JobEventView>,
) -> bool {
    &&& same_channel(now, rx) && room(now) == SUBSCRIBER_CAPACITY
    &&& offers(now).len() == 1 + events.len()
    &&& offers(now)[0].0 == Ok::<pb::JobEventView, Refusal>(snapshot)
    &&& offers(now).skip(1) == taken(events)
}

/// A new watcher that is still there has been handed its snapshot and then each
/// event of its job since, once and in order, and nothing else. Whoever else is
/// there was there before, and has been handed the same events.
pub proof fn law_snapshot_comes_first(
    before: Map<Seq<char>, Seq<EventSender>>,
    id: Seq<char>,
    rx: EventReceiver,
    snapshot: pb::JobEventView,
    mid: Map<Seq<char>, Seq<EventSender>>,
    notices: Seq<NoticeView>,
    after: Map<Seq<char>, Seq<EventSender>>,
    i: int,
)
    requires
        joined_by(before, id, rx, Some(snapshot), mid),
        dispatched(mid, notices, after),
        0 <= i < watchers(after, id).len(),
    ensures
        ({
            let now = watchers(after, id)[i];
            let events = events_for(notices, id);
            ||| heard_from_the_start(now, rx, snapshot, events)
            ||| exists|k: int|
                0 <= k < watchers(before, id).len() && hears(
                    #[trigger] watchers(before, id)[k],
                    now,
                    events,
                )
        }),
{
    law_watchers_hear_all(mid, notices, after, id);
    let events = events_for(notices, id);
    let tx = choose|tx: EventSender| #[trigger]
        same_channel(tx, rx) && room(tx) == SUBSCRIBER_CAPACITY && handed_first(
            tx,
            Some(snapshot),
        ) && mid == before.insert(id, watchers(before, id).push(tx));
    let list = watchers(before, id);
    assert(watchers(mid, id) =~= list.push(tx));
    let from = choose|from: Seq<int>|
        stayed(watchers(mid, id), watchers(after, id), events, from);
    let now = watchers(after, id)[i];
    let k = from[i];
    assert(hears(watchers(mid, id)[k], now, events));
    if k < list.len() {
        assert(hears(list[k], now, events));
    } else {
        assert(same_channel(now, rx));
        assert(offers(now).skip(1) =~= taken(events));
    }
}

} // verus!
