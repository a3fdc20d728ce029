use chat_relay::aggregator::{RemoveOutcome, UserAggregator};
use chat_relay::msg::{ChatMessage, OutboundEvent, SessionId};
use chat_relay::registry::Registry;

fn chars(s: &str) -> Vec<char> {
    s.chars().collect()
}

fn message(recipient: &str, sender: &str, text: &str, time_ms: i64) -> ChatMessage {
    ChatMessage {
        recipient: chars(recipient),
        sender: chars(sender),
        text: chars(text),
        time_ms,
    }
}

#[test]
fn get_or_insert_returns_one_id_per_name() {
    let mut registry = Registry::new();
    let alice = chars("alice");
    let first = registry.get_or_insert(&alice);
    let second = registry.get_or_insert(&alice);
    assert_eq!(first, second, "one name, one aggregator");
    let bob = registry.get_or_insert(&chars("bob"));
    assert_ne!(first, bob, "distinct names get distinct aggregators");
    assert_eq!(registry.list_users().len(), 2);
}

#[test]
fn route_finds_registered_recipient() {
    let mut registry = Registry::new();
    let bob = registry.get_or_insert(&chars("bob"));
    let routed = registry.route(&message("bob", "alice", "hi", 1));
    assert_eq!(routed, Some(bob));
}

#[test]
fn route_drops_unknown_recipient() {
    let mut registry = Registry::new();
    registry.get_or_insert(&chars("alice"));
    let routed = registry.route(&message("bob", "alice", "hi", 1));
    assert_eq!(routed, None, "a missing recipient drops the message, no error");
}

#[test]
fn remove_is_idempotent() {
    let mut registry = Registry::new();
    registry.get_or_insert(&chars("alice"));
    registry.remove(&chars("alice"));
    registry.remove(&chars("alice"));
    assert!(registry.list_users().is_empty());
}

#[test]
fn list_users_reports_current_names() {
    let mut registry = Registry::new();
    registry.get_or_insert(&chars("alice"));
    registry.get_or_insert(&chars("bob"));
    let names: Vec<String> = registry
        .list_users()
        .iter()
        .map(|n| n.iter().collect())
        .collect();
    assert_eq!(names, vec!["alice".to_string(), "bob".to_string()]);
}

#[test]
fn deliver_from_registry_reaches_every_session() {
    let mut agg = UserAggregator::new(chars("alice"));
    agg.add_session(SessionId(1));
    agg.add_session(SessionId(2));
    agg.add_session(SessionId(3));
    let (targets, event) = agg.deliver_from_registry(message("alice", "bob", "hi", 9));
    assert_eq!(targets, vec![SessionId(1), SessionId(2), SessionId(3)]);
    match event {
        OutboundEvent::Chat(m) => assert_eq!(m.text, chars("hi")),
        _ => panic!("a delivered message is wrapped as ChatMessage"),
    }
}

#[test]
fn deliver_from_session_excludes_the_source() {
    let mut agg = UserAggregator::new(chars("alice"));
    agg.add_session(SessionId(1));
    agg.add_session(SessionId(2));
    agg.add_session(SessionId(3));
    let plan = agg.deliver_from_session(SessionId(2), message("bob", "alice", "hi", 9));
    assert_eq!(plan.echo_targets, vec![SessionId(1), SessionId(3)]);
    match plan.echo {
        OutboundEvent::SyncEcho(m) => assert_eq!(m.text, chars("hi")),
        _ => panic!("the siblings get a SyncEcho"),
    }
    assert_eq!(plan.forward.recipient, chars("bob"));
}

#[test]
fn sole_session_gets_no_echo_of_its_own_message() {
    let mut agg = UserAggregator::new(chars("alice"));
    agg.add_session(SessionId(7));
    let plan = agg.deliver_from_session(SessionId(7), message("bob", "alice", "hi", 9));
    assert!(plan.echo_targets.is_empty());
}

#[test]
fn remove_session_outcomes() {
    let mut agg = UserAggregator::new(chars("alice"));
    agg.add_session(SessionId(1));
    agg.add_session(SessionId(2));
    assert_eq!(agg.remove_session(SessionId(9)), RemoveOutcome::NotFound);
    assert_eq!(agg.remove_session(SessionId(1)), RemoveOutcome::Removed);
    assert!(!agg.has_session(SessionId(1)));
    assert!(agg.has_session(SessionId(2)));
    assert_eq!(
        agg.remove_session(SessionId(2)),
        RemoveOutcome::TerminatedLast,
        "removing the last session terminates the aggregator"
    );
}

#[test]
fn contact_notifications_reach_every_session() {
    let mut agg = UserAggregator::new(chars("alice"));
    agg.add_session(SessionId(4));
    agg.add_session(SessionId(5));
    let (targets, event) = agg.notify_contact_added(chars("carol"));
    assert_eq!(targets, vec![SessionId(4), SessionId(5)]);
    match event {
        OutboundEvent::ContactAdded(n) => assert_eq!(n, chars("carol")),
        _ => panic!("arrival is announced as ContactAdded"),
    }
    let (targets, event) = agg.notify_contact_removed(chars("carol"));
    assert_eq!(targets, vec![SessionId(4), SessionId(5)]);
    match event {
        OutboundEvent::ContactRemoved(n) => assert_eq!(n, chars("carol")),
        _ => panic!("departure is announced as ContactRemoved"),
    }
}
