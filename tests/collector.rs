use stargazer::collector::{
    AMQPFactory, CollectorFactory, CollectorSet, DebugCollectorFactory, DestState, Destination, PublishExpanded,
    WakeAction, RETRY_DELAY_MS, RING_CAPACITY,
};

fn ev(n: usize) -> PublishExpanded {
    PublishExpanded { vtuber: "v".to_string(), topic: "t".to_string(), data: n.to_string() }
}

/// Drains a destination whose handle always accepts, returning what it delivered.
fn drain(d: &mut Destination<u8>, now: u64) -> Vec<PublishExpanded> {
    let mut out = Vec::new();
    loop {
        match d.on_wake(now) {
            WakeAction::Deliver(e) => {
                out.push(e.clone());
                if d.on_delivered(e, true, now).is_none() {
                    break;
                }
            }
            WakeAction::Idle => break,
            other => panic!("unexpected action {:?}", other),
        }
    }
    out
}

#[test]
fn first_publish_wakes_uninit_destination() {
    let mut d: Destination<u8> = Destination::new("debug".to_string());
    assert!(d.publish(ev(1)).0);
    assert_eq!(d.on_wake(0), WakeAction::Connect);
    assert_eq!(d.on_connected(Some(3), 0), Some(0));
    assert_eq!(d.state, DestState::Available(3));
    assert_eq!(drain(&mut d, 0), vec![ev(1)]);
    // Available and empty: the next publish wakes; a second one does not.
    assert!(d.publish(ev(2)).0);
    assert!(!d.publish(ev(3)).0);
    assert_eq!(d.pending_len(), 2);
}

#[test]
fn backoff_then_retry_delivers_in_order() {
    let mut d: Destination<u8> = Destination::new("amqp".to_string());
    d.publish(ev(1));
    d.publish(ev(2));
    d.publish(ev(3));
    assert_eq!(d.on_wake(1_000), WakeAction::Connect);
    assert_eq!(d.on_connected(None, 1_000), Some(RETRY_DELAY_MS));
    assert_eq!(d.state, DestState::Backoff(1_000 + RETRY_DELAY_MS));
    assert_eq!(d.on_wake(2_000), WakeAction::WakeIn(RETRY_DELAY_MS - 1_000));
    assert_eq!(d.on_wake(1_000 + RETRY_DELAY_MS), WakeAction::Connect);
    assert_eq!(d.on_connected(Some(1), 1_000 + RETRY_DELAY_MS), Some(0));
    assert_eq!(drain(&mut d, 20_000), vec![ev(1), ev(2), ev(3)]);
}

#[test]
fn failed_send_puts_event_back_in_front() {
    let mut d: Destination<u8> = Destination::new("amqp".to_string());
    d.publish(ev(1));
    d.publish(ev(2));
    d.on_connected(Some(1), 0);
    let e = match d.on_wake(0) {
        WakeAction::Deliver(e) => e,
        other => panic!("unexpected action {:?}", other),
    };
    assert_eq!(e, ev(1));
    assert_eq!(d.on_delivered(e, false, 500), Some(RETRY_DELAY_MS));
    assert_eq!(d.state, DestState::Backoff(500 + RETRY_DELAY_MS));
    assert_eq!(d.pending_len(), 2);
    assert_eq!(d.on_wake(500 + RETRY_DELAY_MS), WakeAction::Connect);
    d.on_connected(Some(2), 500 + RETRY_DELAY_MS);
    assert_eq!(drain(&mut d, 20_000), vec![ev(1), ev(2)]);
}

#[test]
fn overflow_drops_oldest_and_keeps_newest() {
    let mut d: Destination<u8> = Destination::new("amqp".to_string());
    d.on_connected(None, 0);
    for n in 0..RING_CAPACITY + 5 {
        let (wake, dropped) = d.publish(ev(n));
        assert!(!wake);
        assert_eq!(dropped, if n >= RING_CAPACITY { Some(ev(n - RING_CAPACITY)) } else { None });
        assert!(d.pending_len() <= RING_CAPACITY);
    }
    assert_eq!(d.pending_len(), RING_CAPACITY);
    d.on_connected(Some(1), RETRY_DELAY_MS);
    let got = drain(&mut d, RETRY_DELAY_MS);
    let want: Vec<PublishExpanded> = (5..RING_CAPACITY + 5).map(ev).collect();
    assert_eq!(got, want);
}

#[test]
fn retry_deadline_saturates() {
    let mut d: Destination<u8> = Destination::new("x".to_string());
    d.on_connected(None, u64::MAX - 1);
    assert_eq!(d.state, DestState::Backoff(u64::MAX));
}

#[test]
fn factory_identities() {
    let f = AMQPFactory::new("amqp://127.0.0.1:5673", "rmq");
    assert_eq!(f.uri, "amqp://127.0.0.1:5673");
    assert_eq!(f.exchange, "rmq");
    assert_eq!(f.ident(), "AMQP(uri=amqp://127.0.0.1:5673, exchange=rmq)");
    assert_eq!(DebugCollectorFactory.ident(), "debug");
    assert_eq!(CollectorFactory::Amqp(f.clone()).ident(), f.ident());
    assert_eq!(CollectorFactory::Debug(DebugCollectorFactory).ident(), "debug");
}

#[test]
fn fan_out_queues_everywhere_and_wakes_where_needed() {
    let factories = vec![
        CollectorFactory::Debug(DebugCollectorFactory),
        CollectorFactory::Amqp(AMQPFactory::new("amqp://x", "e")),
    ];
    let mut set: CollectorSet<u8> = CollectorSet::new(&factories);
    assert_eq!(set.find(&"debug".to_string()), Some(0));
    assert_eq!(set.find(&"AMQP(uri=amqp://x, exchange=e)".to_string()), Some(1));
    assert_eq!(set.find(&"nope".to_string()), None);
    // Both uninitialised: both wake.
    assert_eq!(set.publish(ev(1)), (vec![0, 1], vec![]));
    set.destinations[0].on_connected(Some(1), 0);
    set.destinations[1].on_connected(None, 0);
    // Debug is available but not empty, AMQP backs off: no wake.
    assert!(set.publish(ev(2)).0.is_empty());
    assert_eq!(set.destinations[0].pending_len(), 2);
    assert_eq!(set.destinations[1].pending_len(), 2);
    assert_eq!(drain(&mut set.destinations[0], 0), vec![ev(1), ev(2)]);
    // Debug is available and empty: it wakes.
    assert_eq!(set.publish(ev(3)), (vec![0], vec![]));
    let e = ev(9);
    assert_eq!(e.duplicate(), e);
}

#[test]
fn failed_send_on_full_queue_drops_oldest() {
    let mut d: Destination<u8> = Destination::new("x".to_string());
    d.on_connected(Some(1), 0);
    for n in 0..RING_CAPACITY {
        d.publish(ev(n));
    }
    let e = match d.on_wake(0) {
        WakeAction::Deliver(e) => e,
        other => panic!("unexpected {:?}", other),
    };
    // Another event arrives while the send is in flight; the queue is full again.
    d.publish(ev(RING_CAPACITY));
    assert_eq!(d.pending_len(), RING_CAPACITY);
    // The failed event is the oldest: on a full queue it is the one dropped.
    d.on_delivered(e, false, 0);
    assert_eq!(d.pending_len(), RING_CAPACITY);
    d.on_connected(Some(1), RETRY_DELAY_MS);
    let got = drain(&mut d, RETRY_DELAY_MS);
    let want: Vec<PublishExpanded> = (1..RING_CAPACITY + 1).map(ev).collect();
    assert_eq!(got, want);
}

#[test]
fn fan_out_reports_full_queues() {
    let factories = vec![CollectorFactory::Debug(DebugCollectorFactory)];
    let mut set: CollectorSet<u8> = CollectorSet::new(&factories);
    set.destinations[0].on_connected(None, 0);
    for n in 0..RING_CAPACITY {
        assert!(set.publish(ev(n)).1.is_empty());
    }
    assert_eq!(set.publish(ev(RING_CAPACITY)), (vec![], vec![0]));
}
