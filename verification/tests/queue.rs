use cvdbench::manifest::queue::{BoundedQueue, QueueClosed};
use cvdbench::state::pending::{peek_front, pop_if_front, push_back, remove};
use std::collections::VecDeque;

#[test]
fn push_within_capacity() {
    let mut q = BoundedQueue::<u32>::new(3);
    assert_eq!(q.push(1).unwrap(), None);
    assert_eq!(q.push(2).unwrap(), None);
    assert_eq!(q.push(3).unwrap(), None);
    assert_eq!(q.len(), 3);
}

#[test]
fn drain_up_to_returns_subset_in_order() {
    let mut q = BoundedQueue::<u32>::new(8);
    for i in 0..5u32 {
        assert_eq!(q.push(i).unwrap(), None);
    }
    let batch = q.drain_up_to(3);
    assert_eq!(batch, vec![0, 1, 2]);
    let batch = q.drain_up_to(10);
    assert_eq!(batch, vec![3, 4]);
    assert!(q.is_empty());
}

#[test]
fn drain_releases_capacity_for_push() {
    let mut q = BoundedQueue::<u32>::new(1);
    assert_eq!(q.push(0).unwrap(), None);
    assert_eq!(q.push(1).unwrap(), Some(1));
    assert_eq!(q.drain_up_to(1), vec![0]);
    assert_eq!(q.push(1).unwrap(), None);
}

#[test]
fn close_unblocks_pending_push_with_err() {
    let mut q = BoundedQueue::<u32>::new(1);
    assert_eq!(q.push(0).unwrap(), None);
    assert_eq!(q.push(1).unwrap(), Some(1));
    q.close();
    let res = q.push(1);
    assert!(res.is_err());
    assert_eq!(q.drain_up_to(2), vec![0]);
}

#[test]
fn two_batches_join_to_one() {
    let fill = || {
        let mut q = BoundedQueue::<u32>::new(8);
        for i in 0..7u32 {
            assert_eq!(q.push(i).unwrap(), None);
        }
        q
    };
    let mut split = fill();
    let mut joined = split.drain_up_to(2);
    joined.extend(split.drain_up_to(3));
    let mut whole = fill();
    assert_eq!(joined, whole.drain_up_to(5));
    assert_eq!(split.len(), whole.len());
}

#[test]
fn closed_queues_say_so() {
    let mut q = BoundedQueue::<u32>::new(2);
    assert_eq!(q.capacity(), 2);
    assert!(!q.is_closed());
    q.close();
    assert!(q.is_closed());
    assert_eq!(QueueClosed.message(), "queue closed");
}

#[test]
fn pop_if_front_only_pops_match() {
    let mut q = VecDeque::from(["a".to_owned(), "b".to_owned()]);
    assert!(!pop_if_front(&mut q, "b"));
    assert_eq!(q.len(), 2);
    assert!(pop_if_front(&mut q, "a"));
    assert_eq!(q.front(), Some(&"b".to_owned()));
}

#[test]
fn remove_non_front() {
    let mut q = VecDeque::from(["a".to_owned(), "b".to_owned(), "c".to_owned()]);
    assert!(remove(&mut q, "b"));
    assert_eq!(q, VecDeque::from(["a".to_owned(), "c".to_owned()]));
    assert!(!remove(&mut q, "z"));
}

#[test]
fn the_oldest_entry_is_in_front() {
    let mut q = VecDeque::new();
    assert_eq!(peek_front(&q), None);
    push_back(&mut q, "a".to_owned());
    push_back(&mut q, "b".to_owned());
    assert_eq!(peek_front(&q), Some(&"a".to_owned()));
    assert!(remove(&mut q, "a"));
    assert_eq!(peek_front(&q), Some(&"b".to_owned()));
    assert!(!pop_if_front(&mut VecDeque::new(), "a"));
}
