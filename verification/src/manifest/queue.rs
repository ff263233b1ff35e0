//! A queue of bounded length between the reader of a manifest and the workers.
//!
//! The reader waits while the queue is full; workers take batches out. A
//! closed queue takes nothing in, but what it holds can still be taken out.

use std::collections::VecDeque;

use vstd::prelude::*;

verus! {

/// The queue takes nothing in any more.
#[derive(Debug, Clone, Copy, PartialEq, Eq, Structural)]
pub struct QueueClosed;

impl QueueClosed {
    /// The error as a message.
    pub fn message(&self) -> (r: String)
        ensures
            r@ == "queue closed"@,
    {
        "queue closed".to_owned()
    }
}

/// A first-in, first-out queue that holds at most `capacity` items.
#[derive(Debug)]
pub struct BoundedQueue<T> {
    items: VecDeque<T>,
    capacity: usize,
    closed: bool,
}

/// What a [`BoundedQueue`] holds.
#[verifier::ext_equal]
pub struct QueueView<T> {
    pub items: Seq<T>,
    pub capacity: usize,
    pub closed: bool,
}

impl<T> View for BoundedQueue<T> {
    type V = QueueView<T>;

    closed spec fn view(&self) -> QueueView<T> {
        QueueView { items: self.items@, capacity: self.capacity, closed: self.closed }
    }
}

/// An empty queue; a capacity of zero counts as one.
pub open spec fn empty_queue<T>(capacity: usize) -> QueueView<T> {
    QueueView {
        items: Seq::empty(),
        capacity: if capacity == 0 {
            1
        } else {
            capacity
        },
        closed: false,
    }
}

/// How many items a batch of up to `n` takes out.
pub open spec fn batch_len(held: nat, n: usize) -> int {
    if n < held {
        n as int
    } else {
        held as int
    }
}

impl<T> BoundedQueue<T> {
    #[verifier::type_invariant]
    spec fn bounded(self) -> bool {
        self.items@.len() <= self.capacity && self.capacity >= 1
    }

    /// An empty queue.
    #[must_use]
    pub fn new(capacity: usize) -> (r: BoundedQueue<T>)
        ensures
            r@ == empty_queue::<T>(capacity),
    {
        let items: VecDeque<T> = VecDeque::new();
        let r = BoundedQueue {
            items,
            capacity: if capacity == 0 {
                1
            } else {
                capacity
            },
            closed: false,
        };
        assert(r@ =~= empty_queue::<T>(capacity));
        r
    }

    /// How many items the queue can hold.
    #[must_use]
    pub fn capacity(&self) -> (r: usize)
        ensures
            r == self@.capacity,
            self@.items.len() <= r,
            r >= 1,
    {
        proof {
            use_type_invariant(self);
        }
        self.capacity
    }

    /// Puts an item at the end. A full queue hands it back, to be tried again
    /// once there is room; a closed one refuses it.
    pub fn push(&mut self, item: T) -> (r: Result<Option<T>, QueueClosed>)
        ensures
            if old(self)@.closed {
                r is Err && final(self)@ == old(self)@
            } else if old(self)@.items.len() >= old(self)@.capacity {
                r == Ok::<Option<T>, QueueClosed>(Some(item)) && final(self)@ == old(self)@
            } else {
                r == Ok::<Option<T>, QueueClosed>(None) && final(self)@ == (QueueView {
                    items: old(self)@.items.push(item),
                    ..old(self)@
                })
            },
    {
        proof {
            use_type_invariant(&*self);
        }
        if self.closed {
            return Err(QueueClosed);
        }
        if self.items.len() >= self.capacity {
            return Ok(Some(item));
        }
        let mut whole = BoundedQueue { items: VecDeque::new(), capacity: 1, closed: false };
        std::mem::swap(&mut whole, self);
        let BoundedQueue { mut items, capacity, closed } = whole;
        items.push_back(item);
        *self = BoundedQueue { items, capacity, closed };
        Ok(None)
    }

    /// Takes up to `n` items out, the oldest first.
    pub fn drain_up_to(&mut self, n: usize) -> (r: Vec<T>)
        ensures
            r@ == old(self)@.items.take(batch_len(old(self)@.items.len(), n)),
            final(self)@ == (QueueView {
                items: old(self)@.items.skip(batch_len(old(self)@.items.len(), n)),
                ..old(self)@
            }),
    {
        proof {
            use_type_invariant(&*self);
        }
        let mut whole = BoundedQueue { items: VecDeque::new(), capacity: 1, closed: false };
        std::mem::swap(&mut whole, self);
        let BoundedQueue { mut items, capacity, closed } = whole;
        let mut out: Vec<T> = Vec::new();
        let ghost all = items@;
        assert(all.skip(0) =~= all);
        assert(all.take(0) =~= out@);
        while out.len() < n && items.len() > 0
            invariant
                out@.len() <= n,
                out@.len() <= all.len(),
                out@ == all.take(out@.len() as int),
                items@ == all.skip(out@.len() as int),
            decreases items@.len(),
        {
            if let Some(item) = items.pop_front() {
                out.push(item);
                assert(all.take(out@.len() as int) =~= out@);
                assert(all.skip(out@.len() as int) =~= items@);
            }
        }
        *self = BoundedQueue { items, capacity, closed };
        out
    }

    /// How many items the queue holds.
    #[must_use]
    pub fn len(&self) -> (r: usize)
        ensures
            r == self@.items.len(),
    {
        self.items.len()
    }

    /// Whether the queue holds nothing.
    #[must_use]
    pub fn is_empty(&self) -> (r: bool)
        ensures
            r == (self@.items.len() == 0),
    {
        self.items.len() == 0
    }

    /// Whether the queue takes nothing in any more.
    #[must_use]
    pub fn is_closed(&self) -> (r: bool)
        ensures
            r == self@.closed,
    {
        self.closed
    }

    /// Lets the queue take nothing in any more.
    pub fn close(&mut self)
        ensures
            final(self)@ == (QueueView { closed: true, ..old(self)@ }),
    {
        proof {
            use_type_invariant(&*self);
        }
        self.closed = true;
    }
}

/// Two batches give what one batch of their joint size gives, in the same order.
pub proof fn law_batches_join<T>(items: Seq<T>, a: usize, b: usize)
    requires
        a + b <= usize::MAX,
    ensures
        ({
            let first = batch_len(items.len(), a);
            let rest = items.skip(first);
            let second = batch_len(rest.len(), b);
            let both = batch_len(items.len(), (a + b) as usize);
            &&& items.take(first) + rest.take(second) == items.take(both)
            &&& rest.skip(second) == items.skip(both)
        }),
{
    let first = batch_len(items.len(), a);
    let rest = items.skip(first);
    let second = batch_len(rest.len(), b);
    let both = batch_len(items.len(), (a + b) as usize);
    assert(items.take(first) + rest.take(second) =~= items.take(both));
    assert(rest.skip(second) =~= items.skip(both));
}

} // verus!
