use cvdbench::events::subscriber::{
    last_word, EventReceiver, Sent, SubscriberRegistry, SUBSCRIBER_CAPACITY,
};
use cvdbench::pb;
use cvdbench::service::error::Code;
use tokio::sync::mpsc::error::TryRecvError;

fn dummy_event(seq: i64) -> pb::JobEvent {
    pb::JobEvent {
        job_id: "j1".into(),
        status: pb::JobStatus::Pending.to_i32(),
        worker_progress: vec![],
        aggregated: None,
        error: None,
        timestamp: 0,
        seq,
        kind: pb::EventKind::StatusChange.to_i32(),
        dirs_scanned: 0,
        files_scanned: 0,
        scan_duration_ms: 0,
    }
}

fn has_ended(rx: &mut EventReceiver) -> bool {
    matches!(rx.try_recv(), Err(TryRecvError::Disconnected))
}

#[test]
fn broadcast_reaches_all_subscribers() {
    let mut reg = SubscriberRegistry::new();
    let mut a = reg.subscribe("j1");
    let mut b = reg.subscribe("j1");
    reg.broadcast("j1", &dummy_event(1));
    let ea = a.try_recv().unwrap().unwrap();
    let eb = b.try_recv().unwrap().unwrap();
    assert_eq!(ea.seq, 1);
    assert_eq!(eb.seq, 1);
}

#[test]
fn dropped_receiver_is_evicted() {
    let mut reg = SubscriberRegistry::new();
    let a = reg.subscribe("j1");
    assert_eq!(reg.subscriber_count("j1"), 1);
    drop(a);
    reg.broadcast("j1", &dummy_event(1));
    assert_eq!(reg.subscriber_count("j1"), 0);
}

#[test]
fn terminate_closes_stream() {
    let mut reg = SubscriberRegistry::new();
    let mut a = reg.subscribe("j1");
    reg.terminate("j1");
    assert!(has_ended(&mut a));
}

#[test]
fn full_buffer_evicts_slow_watcher() {
    let mut reg = SubscriberRegistry::new();
    let mut a = reg.subscribe("j1");
    for seq in 0..(SUBSCRIBER_CAPACITY as i64) {
        reg.broadcast("j1", &dummy_event(seq));
    }
    assert_eq!(reg.subscriber_count("j1"), 1);
    reg.broadcast("j1", &dummy_event(SUBSCRIBER_CAPACITY as i64));
    assert_eq!(reg.subscriber_count("j1"), 0);
    for _ in 0..SUBSCRIBER_CAPACITY {
        let _ = a.try_recv().unwrap().unwrap();
    }
    match a.try_recv() {
        Err(_) => {}
        Ok(Err(s)) => assert_eq!(s.code(), Code::ResourceExhausted),
        Ok(Ok(e)) => panic!("did not expect another Ok event after eviction: seq={}", e.seq),
    }
}

#[test]
fn other_jobs_are_left_alone() {
    let mut reg = SubscriberRegistry::new();
    let mut a = reg.subscribe("j1");
    let mut b = reg.subscribe("j2");
    reg.broadcast("j1", &dummy_event(7));
    reg.terminate("j1");
    assert_eq!(a.try_recv().unwrap().unwrap(), dummy_event(7));
    assert!(has_ended(&mut a));
    assert!(matches!(b.try_recv(), Err(TryRecvError::Empty)));
    assert_eq!(reg.subscriber_count("j1"), 0);
    assert_eq!(reg.subscriber_count("j2"), 1);
}

#[test]
fn the_snapshot_comes_first() {
    let mut reg = SubscriberRegistry::new();
    let mut a = reg.subscribe_with_snapshot("j1", dummy_event(3));
    reg.broadcast("j1", &dummy_event(4));
    assert_eq!(a.try_recv().unwrap().unwrap().seq, 3);
    assert_eq!(a.try_recv().unwrap().unwrap().seq, 4);
    assert!(matches!(a.try_recv(), Err(TryRecvError::Empty)));
}

#[test]
fn who_keeps_reading_hears_each_event_once() {
    let mut reg = SubscriberRegistry::new();
    let mut a = reg.subscribe_with_snapshot("j1", dummy_event(0));
    let mut slow = reg.subscribe_with_snapshot("j1", dummy_event(0));
    assert_eq!(a.try_recv().unwrap().unwrap(), dummy_event(0));
    let last = 3 * SUBSCRIBER_CAPACITY as i64;
    for seq in 1..last {
        reg.broadcast("j1", &dummy_event(seq));
        assert_eq!(a.try_recv().unwrap().unwrap(), dummy_event(seq));
        assert!(matches!(a.try_recv(), Err(TryRecvError::Empty)));
    }
    assert_eq!(reg.subscriber_count("j1"), 1);
    for seq in 0..(SUBSCRIBER_CAPACITY as i64) {
        assert_eq!(slow.try_recv().unwrap().unwrap(), dummy_event(seq));
    }
    assert!(has_ended(&mut slow));
}

#[test]
fn only_full_channels_are_told_why_they_end() {
    assert!(last_word(Sent::Taken).is_none());
    assert!(last_word(Sent::Closed).is_none());
    let reason = last_word(Sent::Full).unwrap();
    assert_eq!(reason.code(), Code::ResourceExhausted);
    assert_eq!(reason.message, "watcher buffer overflowed; reconnect to resume");
}
