use chat_relay::aggregator::{RemoveOutcome, UserAggregator};
use chat_relay::bridge::{BridgeState, InboundDisposition, SessionBridge};
use chat_relay::codec::encode_message;
use chat_relay::msg::{ChatMessage, OutboundEvent, SessionId};
use chat_relay::registry::Registry;

fn chars(s: &str) -> Vec<char> {
    s.chars().collect()
}

fn text_of(v: &[char]) -> String {
    v.iter().collect()
}

fn message(recipient: &str, sender: &str, text: &str, time_ms: i64) -> ChatMessage {
    ChatMessage {
        recipient: chars(recipient),
        sender: chars(sender),
        text: chars(text),
        time_ms,
    }
}

/// Alice is connected twice; her first session sends to Bob. The
/// second session gets a sync echo; Bob's one session gets the
/// message.
#[test]
fn two_device_send_syncs_and_delivers() {
    let mut registry = Registry::new();
    let alice_id = registry.get_or_insert(&chars("alice"));
    let bob_id = registry.get_or_insert(&chars("bob"));

    let mut alice = UserAggregator::new(chars("alice"));
    let a1 = SessionId(1);
    let a2 = SessionId(2);
    alice.add_session(a1);
    alice.add_session(a2);

    let mut bob = UserAggregator::new(chars("bob"));
    let b1 = SessionId(1);
    bob.add_session(b1);

    let plan = alice.deliver_from_session(a1, message("bob", "alice", "hi", 3));
    assert_eq!(plan.echo_targets, vec![a2], "only the sibling session is echoed");
    match &plan.echo {
        OutboundEvent::SyncEcho(m) => assert_eq!(text_of(&m.text), "hi"),
        _ => panic!("siblings get a SynchronizeMessage"),
    }

    let routed = registry.route(&plan.forward);
    assert_eq!(routed, Some(bob_id));
    assert_ne!(routed, Some(alice_id));
    let (targets, event) = bob.deliver_from_registry(plan.forward);
    assert_eq!(targets, vec![b1]);
    match event {
        OutboundEvent::Chat(m) => assert_eq!(text_of(&m.text), "hi"),
        _ => panic!("the recipient gets a ChatMessage"),
    }
}

/// Alice's first session sends to Bob while Bob is not registered: the
/// sibling still gets the echo, the forward is silently dropped, and
/// nothing fails.
#[test]
fn send_to_absent_recipient_echoes_but_drops() {
    let mut registry = Registry::new();
    registry.get_or_insert(&chars("alice"));

    let mut alice = UserAggregator::new(chars("alice"));
    let a1 = SessionId(1);
    let a2 = SessionId(2);
    alice.add_session(a1);
    alice.add_session(a2);

    let plan = alice.deliver_from_session(a1, message("bob", "alice", "hi", 3));
    assert_eq!(plan.echo_targets, vec![a2]);
    assert_eq!(registry.route(&plan.forward), None, "no recipient: dropped, no error");
}

/// Alice's one session disconnects: she leaves the user list, and a
/// message addressed to her afterwards is dropped without error.
#[test]
fn disconnecting_last_session_unregisters_the_user() {
    let mut registry = Registry::new();
    registry.get_or_insert(&chars("alice"));
    registry.get_or_insert(&chars("bob"));

    let mut alice = UserAggregator::new(chars("alice"));
    let a1 = SessionId(1);
    alice.add_session(a1);

    let mut bridge = SessionBridge::new(a1);
    assert_eq!(bridge.state(), BridgeState::Open);
    let report = bridge.on_transport_close();
    assert!(report, "the first close reports the removal");

    assert_eq!(alice.remove_session(bridge.id()), RemoveOutcome::TerminatedLast);
    registry.remove(alice.name().as_slice());

    let names: Vec<String> = registry
        .list_users()
        .iter()
        .map(|n| n.iter().collect())
        .collect();
    assert_eq!(names, vec!["bob".to_string()], "alice is gone from the list");
    assert_eq!(registry.route(&message("alice", "bob", "hi", 4)), None);

    let second_report = bridge.on_transport_close();
    assert!(!second_report, "a closed bridge never reports again");
}

/// A bridge forwards well-formed frames under its own identity and
/// drops malformed ones without closing.
#[test]
fn bridge_decodes_and_survives_malformed_frames() {
    let bridge = SessionBridge::new(SessionId(11));
    let frame = encode_message(&message("bob", "alice", "hi", 5));
    match bridge.on_inbound_text(&frame) {
        InboundDisposition::Forward(m) => {
            assert_eq!(text_of(&m.recipient), "bob");
            assert_eq!(text_of(&m.text), "hi");
        },
        InboundDisposition::DropFrame => panic!("a well-formed frame is forwarded"),
    }
    match bridge.on_inbound_text(&chars("not json")) {
        InboundDisposition::Forward(_) => panic!("a malformed frame is dropped"),
        InboundDisposition::DropFrame => {},
    }
}

/// A bridge encodes every outbound event kind onto the wire.
#[test]
fn bridge_encodes_outbound_events() {
    let bridge = SessionBridge::new(SessionId(11));
    let wire = bridge.on_outbound_event(&OutboundEvent::SyncEcho(message("bob", "alice", "hi", 5)));
    assert_eq!(
        text_of(&wire),
        "{\"type\":\"SynchronizeMessage\",\"message\":{\"recipient\":\"bob\",\"sender\":\"alice\",\"text\":\"hi\",\"time\":5}}"
    );
}
