use chat_relay::codec::{decode_message, encode_event, encode_message};
use chat_relay::msg::{ChatMessage, OutboundEvent};

fn chars(s: &str) -> Vec<char> {
    s.chars().collect()
}

fn text_of(v: &[char]) -> String {
    v.iter().collect()
}

fn message(recipient: &str, sender: &str, text: &str, time_ms: i64) -> ChatMessage {
    ChatMessage {
        recipient: chars(recipient),
        sender: chars(sender),
        text: chars(text),
        time_ms,
    }
}

#[test]
fn encode_message_exact() {
    let m = message("bob", "alice", "hi", 1700000000123);
    let encoded = text_of(&encode_message(&m));
    assert_eq!(
        encoded,
        "{\"recipient\":\"bob\",\"sender\":\"alice\",\"text\":\"hi\",\"time\":1700000000123}"
    );
}

#[test]
fn encode_message_escapes_specials() {
    let m = message("bob", "alice", "say \"hi\"\\\n\tdone\r", 0);
    let encoded = text_of(&encode_message(&m));
    assert_eq!(
        encoded,
        "{\"recipient\":\"bob\",\"sender\":\"alice\",\"text\":\"say \\\"hi\\\"\\\\\\n\\tdone\\r\",\"time\":0}"
    );
}

#[test]
fn round_trip_plain() {
    let m = message("bob", "alice", "hello there", 1700000000123);
    let decoded = decode_message(&encode_message(&m)).expect("round trip must decode");
    assert_eq!(decoded.recipient, m.recipient);
    assert_eq!(decoded.sender, m.sender);
    assert_eq!(decoded.text, m.text);
    assert_eq!(decoded.time_ms, m.time_ms);
}

#[test]
fn round_trip_escapes_and_unicode() {
    let m = message("böb", "ålice", "quote \" backslash \\ tab \t newline \n end", -42);
    let decoded = decode_message(&encode_message(&m)).expect("round trip must decode");
    assert_eq!(decoded.recipient, m.recipient);
    assert_eq!(decoded.sender, m.sender);
    assert_eq!(decoded.text, m.text);
    assert_eq!(decoded.time_ms, m.time_ms);
}

#[test]
fn round_trip_extreme_timestamps() {
    for t in [i64::MIN, i64::MIN + 1, -1, 0, 1, i64::MAX - 1, i64::MAX] {
        let m = message("b", "a", "x", t);
        let decoded = decode_message(&encode_message(&m)).expect("round trip must decode");
        assert_eq!(decoded.time_ms, t, "timestamp must survive unchanged");
    }
}

#[test]
fn round_trip_empty_fields() {
    let m = message("", "", "", 7);
    let decoded = decode_message(&encode_message(&m)).expect("round trip must decode");
    assert_eq!(decoded.recipient, m.recipient);
    assert_eq!(decoded.sender, m.sender);
    assert_eq!(decoded.text, m.text);
    assert_eq!(decoded.time_ms, 7);
}

#[test]
fn decode_accepts_optional_escapes() {
    let frame = chars("{\"recipient\":\"b\",\"sender\":\"a\",\"text\":\"\\/\\b\\f\",\"time\":1}");
    let m = decode_message(&frame).expect("solidus and control shorthands decode");
    assert_eq!(text_of(&m.text), "/\u{8}\u{c}");
}

#[test]
fn decode_rejects_malformed() {
    let bad = [
        "",
        "{",
        "{\"recipient\":\"b\"}",
        "{\"recipient\":\"b\",\"sender\":\"a\",\"text\":\"x\",\"time\":}",
        "{\"recipient\":\"b\",\"sender\":\"a\",\"text\":\"x\",\"time\":12",
        "{\"recipient\":\"b\",\"sender\":\"a\",\"text\":\"x\",\"time\":12}x",
        "{\"recipient\":\"b\",\"sender\":\"a\",\"text\":\"x\",\"time\":12.5}",
        "{\"recipient\":\"b\",\"sender\":\"a\",\"text\":\"x\",\"time\":99999999999999999999}",
        "{\"recipient\":\"b\",\"sender\":\"a\",\"text\":\"unterminated",
        "{\"recipient\":\"b\",\"sender\":\"a\",\"text\":\"bad \\q escape\",\"time\":1}",
        "{\"sender\":\"a\",\"recipient\":\"b\",\"text\":\"x\",\"time\":1}",
    ];
    for frame in bad {
        assert!(
            decode_message(&chars(frame)).is_none(),
            "must reject malformed frame: {frame}"
        );
    }
}

#[test]
fn decode_rejects_out_of_range_timestamp() {
    let frame = chars("{\"recipient\":\"b\",\"sender\":\"a\",\"text\":\"x\",\"time\":9223372036854775808}");
    assert!(decode_message(&frame).is_none());
    let frame = chars("{\"recipient\":\"b\",\"sender\":\"a\",\"text\":\"x\",\"time\":-9223372036854775809}");
    assert!(decode_message(&frame).is_none());
}

#[test]
fn encode_event_exact() {
    let m = message("bob", "alice", "hi", 5);
    let chat = text_of(&encode_event(&OutboundEvent::Chat(m.clone())));
    assert_eq!(
        chat,
        "{\"type\":\"ChatMessage\",\"message\":{\"recipient\":\"bob\",\"sender\":\"alice\",\"text\":\"hi\",\"time\":5}}"
    );
    let sync = text_of(&encode_event(&OutboundEvent::SyncEcho(m)));
    assert_eq!(
        sync,
        "{\"type\":\"SynchronizeMessage\",\"message\":{\"recipient\":\"bob\",\"sender\":\"alice\",\"text\":\"hi\",\"time\":5}}"
    );
    let add = text_of(&encode_event(&OutboundEvent::ContactAdded(chars("carol"))));
    assert_eq!(add, "{\"type\":\"AddUser\",\"name\":\"carol\"}");
    let remove = text_of(&encode_event(&OutboundEvent::ContactRemoved(chars("carol"))));
    assert_eq!(remove, "{\"type\":\"RemoveUser\",\"name\":\"carol\"}");
}

#[test]
fn decode_interops_with_serde_json_output() {
    let mut obj = serde_json::Map::new();
    obj.insert(
        "recipient".to_string(),
        serde_json::Value::String("bob".to_string()),
    );
    obj.insert(
        "sender".to_string(),
        serde_json::Value::String("alice".to_string()),
    );
    obj.insert(
        "text".to_string(),
        serde_json::Value::String("hi \"friend\"".to_string()),
    );
    obj.insert(
        "time".to_string(),
        serde_json::Value::Number(serde_json::Number::from(1700000000123i64)),
    );
    let wire = serde_json::Value::Object(obj).to_string();
    let decoded = decode_message(&chars(&wire)).expect("serde_json output must decode");
    assert_eq!(text_of(&decoded.recipient), "bob");
    assert_eq!(text_of(&decoded.sender), "alice");
    assert_eq!(text_of(&decoded.text), "hi \"friend\"");
    assert_eq!(decoded.time_ms, 1700000000123);
}

#[test]
fn encoded_event_parses_as_json() {
    let m = message("bob", "alice", "tricky \"text\"\n", -1);
    let wire = text_of(&encode_event(&OutboundEvent::Chat(m)));
    let v: serde_json::Value = serde_json::from_str(&wire).expect("encoder must emit valid JSON");
    assert_eq!(v["type"].as_str(), Some("ChatMessage"));
    assert_eq!(v["message"]["recipient"].as_str(), Some("bob"));
    assert_eq!(v["message"]["sender"].as_str(), Some("alice"));
    assert_eq!(v["message"]["text"].as_str(), Some("tricky \"text\"\n"));
    assert_eq!(v["message"]["time"].as_i64(), Some(-1));
}
