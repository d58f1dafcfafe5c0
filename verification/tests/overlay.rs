use spacechat::overlay::{Action, Event, Lifecycle, Overlay};

#[test]
fn subscribe_is_idempotent() {
    let mut o = Overlay::new(1, 0);
    assert!(o.subscribe(String::from("chat")));
    assert!(!o.subscribe(String::from("chat")));
    assert_eq!(o.topics.len(), 1);
    assert_eq!(o.topics[0], "chat");
    assert!(o.subscribe(String::from("news")));
    assert!(!o.subscribe(String::from("chat")));
    assert_eq!(o.topics.len(), 2);
}

#[test]
fn lifecycle_runs_from_first_event() {
    let mut o = Overlay::new(1, 0);
    assert_eq!(o.lifecycle, Lifecycle::Created);
    o.mark_listening();
    assert_eq!(o.lifecycle, Lifecycle::Listening);
    let a = o.handle_event(Event::Other);
    assert!(matches!(a, Action::Ignore));
    assert_eq!(o.lifecycle, Lifecycle::Running);
}

#[test]
fn dispatcher_adds_discovered_peer() {
    let mut o = Overlay::new(1, 0);
    o.mark_listening();
    let e = o.discovery_announce(2);
    let a = o.handle_event(e);
    assert!(matches!(a, Action::Ignore));
    assert_eq!(o.partial_view, vec![2]);
    // a repeated announcement adds nothing
    let e = o.discovery_announce(2);
    o.handle_event(e);
    assert_eq!(o.partial_view, vec![2]);
}

#[test]
fn stale_expiry_is_ignored_while_peer_visible() {
    // The discovery stream announces 9, expires 9, and announces 9 again
    // before the dispatcher has processed anything: the expiry must be
    // ignored because 9 is visible again at processing time.
    let mut o = Overlay::new(1, 0);
    o.mark_listening();
    let e1 = o.discovery_announce(9);
    let e2 = o.discovery_expire(9);
    let e3 = o.discovery_announce(9);
    o.handle_event(e1);
    o.handle_event(e2);
    assert_eq!(o.partial_view, vec![9]);
    o.handle_event(e3);
    assert_eq!(o.partial_view, vec![9]);
}

#[test]
fn expiry_removes_peer_no_longer_visible() {
    let mut o = Overlay::new(1, 0);
    o.mark_listening();
    let e1 = o.discovery_announce(9);
    o.handle_event(e1);
    assert_eq!(o.partial_view, vec![9]);
    let e2 = o.discovery_expire(9);
    o.handle_event(e2);
    assert!(o.partial_view.is_empty());
}

#[test]
fn message_event_only_logs() {
    let mut o = Overlay::new(1, 0);
    o.mark_listening();
    let e = o.discovery_announce(2);
    o.handle_event(e);
    let a = o.handle_event(Event::MessageReceived { source: 4, data: vec![104, 105] });
    match a {
        Action::LogMessage { source, data } => {
            assert_eq!(source, 4);
            assert_eq!(data, vec![104, 105]);
        }
        Action::Ignore => panic!("an inbound message must be logged"),
    }
    // no topology change, no rebroadcast
    assert_eq!(o.partial_view, vec![2]);
}

#[test]
fn broadcast_fans_out_once_per_peer() {
    // Three instances on one topic; A's partial view holds B and C.
    let mut a = Overlay::new(10, 0);
    let mut b = Overlay::new(20, 1);
    let mut c = Overlay::new(30, 2);
    a.subscribe(String::from("room"));
    b.subscribe(String::from("room"));
    c.subscribe(String::from("room"));
    a.mark_listening();
    b.mark_listening();
    c.mark_listening();
    let e = a.discovery_announce(20);
    a.handle_event(e);
    let e = a.discovery_announce(30);
    a.handle_event(e);
    a.record_peer_subscription(20, String::from("room"));
    a.record_peer_subscription(30, String::from("room"));

    let out = a.publish(&String::from("room"), &vec![104, 105]);
    assert_eq!(out.len(), 2);
    let mut targets: Vec<u64> = out.iter().map(|d| d.to).collect();
    targets.sort();
    assert_eq!(targets, vec![20, 30]);

    // exactly one decoded message event at B and at C, zero at A
    let mut at_b = 0;
    let mut at_c = 0;
    for d in out {
        assert_eq!(d.source, 10);
        let recipient = if d.to == 20 { &mut b } else { &mut c };
        let action = recipient.handle_event(Event::MessageReceived {
            source: d.source,
            data: d.data,
        });
        match action {
            Action::LogMessage { source, data } => {
                assert_eq!(source, 10);
                assert_eq!(data, vec![104, 105]);
                if d.to == 20 {
                    at_b += 1;
                } else {
                    at_c += 1;
                }
            }
            Action::Ignore => panic!("a delivery must decode to a message event"),
        }
    }
    assert_eq!(at_b, 1);
    assert_eq!(at_c, 1);
}

#[test]
fn publish_skips_local_peer_and_strangers() {
    let mut a = Overlay::new(10, 0);
    a.subscribe(String::from("room"));
    a.mark_listening();
    // the local peer itself announced, plus one peer subscribed to another
    // topic and one peer with no known subscription
    for p in [10u64, 20, 30] {
        let e = a.discovery_announce(p);
        a.handle_event(e);
    }
    a.record_peer_subscription(10, String::from("room"));
    a.record_peer_subscription(20, String::from("other"));
    let out = a.publish(&String::from("room"), &vec![1]);
    assert!(out.is_empty());
    // once 20 is known on the topic, it becomes the one flood target
    a.record_peer_subscription(20, String::from("room"));
    let out = a.publish(&String::from("room"), &vec![1]);
    assert_eq!(out.len(), 1);
    assert_eq!(out[0].to, 20);
    assert_eq!(out[0].source, 10);
    assert_eq!(out[0].data, vec![1]);
}

#[test]
fn repeated_subscription_causes_no_duplicate_delivery() {
    let mut a = Overlay::new(10, 0);
    a.subscribe(String::from("room"));
    a.mark_listening();
    let e = a.discovery_announce(20);
    a.handle_event(e);
    // peer 20's subscription arrives twice; it still gets one copy
    a.record_peer_subscription(20, String::from("room"));
    a.record_peer_subscription(20, String::from("room"));
    let out = a.publish(&String::from("room"), &vec![7]);
    assert_eq!(out.len(), 1);
    assert_eq!(out[0].to, 20);
}

#[test]
fn publish_with_empty_view_delivers_nothing() {
    // best-effort: no reachable peers is a silent no-op, not an error
    let mut a = Overlay::new(10, 0);
    a.subscribe(String::from("room"));
    let out = a.publish(&String::from("room"), &vec![]);
    assert!(out.is_empty());
}
