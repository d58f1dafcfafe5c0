use spacechat::manager::{JoinError, Manager, PostError, SetupOutcome};
use spacechat::overlay::Lifecycle;

#[test]
fn join_registers_a_listening_instance() {
    let mut m = Manager::new(7);
    let r = m.join_room(String::from("r1"), String::from("t1"), SetupOutcome::Ready);
    assert!(r.is_ok());
    let e = m.registry.lookup(&String::from("r1")).expect("room registered");
    assert_eq!(e.room_id, "r1");
    assert_eq!(e.topic, "t1");
    assert_eq!(e.overlay.local_peer, 7);
    assert_eq!(e.overlay.instance_id, 0);
    assert_eq!(e.overlay.lifecycle, Lifecycle::Listening);
    assert_eq!(e.overlay.topics, vec![String::from("t1")]);
    assert!(e.overlay.partial_view.is_empty());
}

#[test]
fn rejoin_replaces_entry() {
    // joining the same room twice leaves exactly one entry, the most recent
    let mut m = Manager::new(7);
    m.join_room(String::from("r1"), String::from("t1"), SetupOutcome::Ready).unwrap();
    m.join_room(String::from("r1"), String::from("t2"), SetupOutcome::Ready).unwrap();
    assert_eq!(m.registry.entries.len(), 1);
    let e = m.registry.lookup(&String::from("r1")).expect("room registered");
    assert_eq!(e.topic, "t2");
    assert_eq!(e.overlay.instance_id, 1);
}

#[test]
fn post_to_unknown_room_fails() {
    let mut m = Manager::new(7);
    m.join_room(String::from("r1"), String::from("t1"), SetupOutcome::Ready).unwrap();
    let r = m.post_message(&String::from("nope"), &vec![104, 105]);
    assert!(matches!(r, Err(PostError::RoomNotFound)));
    // nothing mutated
    assert_eq!(m.registry.entries.len(), 1);
    assert_eq!(m.registry.entries[0].room_id, "r1");
    assert_eq!(m.next_instance_id, 1);
}

#[test]
fn post_broadcasts_on_the_room_topic() {
    let mut m = Manager::new(7);
    m.join_room(String::from("r1"), String::from("t1"), SetupOutcome::Ready).unwrap();
    // the room's event loop discovered peer 42, subscribed to the topic
    let e = m.registry.entries[0].overlay.discovery_announce(42);
    m.registry.entries[0].overlay.handle_event(e);
    m.registry.entries[0].overlay.record_peer_subscription(42, String::from("t1"));
    let out = m.post_message(&String::from("r1"), &vec![1, 2, 3]).expect("room exists");
    assert_eq!(out.len(), 1);
    assert_eq!(out[0].to, 42);
    assert_eq!(out[0].source, 7);
    assert_eq!(out[0].data, vec![1, 2, 3]);
}

#[test]
fn join_reports_bind_failure_and_creates_nothing() {
    let mut m = Manager::new(7);
    let r = m.join_room(String::from("r1"), String::from("t1"), SetupOutcome::BindFailed);
    assert!(matches!(r, Err(JoinError::BindFailed)));
    assert!(m.registry.entries.is_empty());
    assert_eq!(m.next_instance_id, 0);
}

#[test]
fn join_reports_construction_failure_and_creates_nothing() {
    let mut m = Manager::new(7);
    let r = m.join_room(String::from("r1"), String::from("t1"), SetupOutcome::ConstructionFailed);
    assert!(matches!(r, Err(JoinError::ConstructionFailed)));
    assert!(m.registry.entries.is_empty());
    assert_eq!(m.next_instance_id, 0);
}

#[test]
fn failed_rejoin_keeps_previous_entry() {
    let mut m = Manager::new(7);
    m.join_room(String::from("r1"), String::from("t1"), SetupOutcome::Ready).unwrap();
    let r = m.join_room(String::from("r1"), String::from("t2"), SetupOutcome::BindFailed);
    assert!(r.is_err());
    let e = m.registry.lookup(&String::from("r1")).expect("room kept");
    assert_eq!(e.topic, "t1");
}

#[test]
fn fifty_distinct_rooms_join_without_collision() {
    let mut m = Manager::new(7);
    for i in 0..50u32 {
        let r = m.join_room(format!("room{}", i), format!("topic{}", i), SetupOutcome::Ready);
        assert!(r.is_ok());
    }
    assert_eq!(m.registry.entries.len(), 50);
    // a distinct, non-colliding overlay instance per room id
    let mut ids: Vec<u64> = m.registry.entries.iter().map(|e| e.overlay.instance_id).collect();
    ids.sort();
    ids.dedup();
    assert_eq!(ids.len(), 50);
    for i in 0..50u32 {
        let e = m.registry.lookup(&format!("room{}", i)).expect("room registered");
        assert_eq!(e.topic, format!("topic{}", i));
    }
}
