use openstorage::events::glob_match;
use openstorage::events::Event;
use openstorage::events::EventBus;
use openstorage::events::Filter;

#[test]
fn deliver_matching_events() {
    let mut bus = EventBus::new();
    let sub = bus.subscribe(Filter { pattern: "vault.*".into() }, None);
    let mut delivered: Vec<String> = Vec::new();
    for name in ["vault.unlocked", "repair.started", "vault.locked"] {
        let (_id, to) = bus.publish(Event::new(name));
        if to.contains(&sub.id) {
            delivered.push(name.to_string());
        }
    }
    assert_eq!(delivered, vec!["vault.unlocked".to_string(), "vault.locked".to_string()]);
}

#[test]
fn replay_from_since() {
    let mut bus = EventBus::new();
    let (id, _) = bus.publish(Event::new("write.quorum_acked"));
    let sub = bus.subscribe(Filter { pattern: "*".into() }, Some(id - 1));
    assert_eq!(sub.replay[0].event_id, id);
}

#[test]
fn glob_match_basic() {
    assert!(glob_match("*", "anything"));
    assert!(glob_match("vault.*", "vault.unlocked"));
    assert!(!glob_match("vault.*", "vaultlike"));
    assert!(!glob_match("vault.*", "share.created"));
    assert!(glob_match("share.created", "share.created"));
}

#[test]
fn the_history_is_bounded() {
    let mut bus = EventBus::with_capacity(2);
    for name in ["a", "b", "c"] {
        bus.publish(Event::new(name));
    }
    let sub = bus.subscribe(Filter { pattern: "*".into() }, Some(0));
    let names: Vec<&str> = sub.replay.iter().map(|e| e.name.as_str()).collect();
    assert_eq!(names, vec!["b", "c"]);
}

#[test]
fn no_room_means_no_history() {
    let mut bus = EventBus::with_capacity(0);
    bus.publish(Event::new("a"));
    bus.publish(Event::new("b"));
    assert!(bus.subscribe(Filter { pattern: "*".into() }, Some(0)).replay.is_empty());
}

#[test]
fn the_unsubscribed_get_nothing() {
    let mut bus = EventBus::new();
    let sub = bus.subscribe(Filter { pattern: "*".into() }, None);
    bus.unsubscribe(sub.id);
    assert!(bus.publish(Event::new("a")).1.is_empty());
}

#[test]
fn an_event_has_a_null_payload_at_first() {
    let e = Event::new("x");
    assert_eq!(e.payload, "null");
    assert_eq!(e.with_payload("{}".to_string()).payload, "{}");
}
