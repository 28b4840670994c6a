use ensemble::bridge::protocol::{
    auth_token_matches, bridge_action, bridge_hello, bridge_ping, bridge_unset, get_address,
    get_auth_token, get_msg_id, get_origin, get_source, get_timestamp, MSG_BRIDGE_ACTION,
    MSG_BRIDGE_HELLO, MSG_BRIDGE_PING, MSG_BRIDGE_UNSET,
};
use ensemble::protocol::SignalType;
use ensemble::values::{FloatValue, Value};

fn float(x: f64) -> FloatValue {
    FloatValue::new(x.to_bits())
}

#[test]
fn bridge_hello_fields() {
    let msg = bridge_hello("abc-123", "test-bridge", None);
    assert_eq!(msg.msg_type, MSG_BRIDGE_HELLO);
    assert_eq!(get_origin(&msg), None); // hello has no origin
    assert_eq!(get_auth_token(&msg), None);
}

#[test]
fn bridge_hello_carries_its_token() {
    let msg = bridge_hello("abc-123", "test-bridge", Some("s3cret"));
    assert_eq!(get_auth_token(&msg), Some("s3cret".to_string()));
}

#[test]
fn bridge_action_fields() {
    let msg = bridge_action(
        "bridge-aaa",
        42,
        "/transport/bpm",
        SignalType::Param,
        float(10.5),
        Value::Float(float(120.0)),
    );
    assert_eq!(msg.msg_type, MSG_BRIDGE_ACTION);
    assert_eq!(get_origin(&msg), Some("bridge-aaa".to_string()));
    assert!(get_msg_id(&msg).is_some());
    assert_eq!(get_address(&msg), Some("/transport/bpm".to_string()));
    assert_eq!(get_source(&msg), 42);
    assert_eq!(get_timestamp(&msg), float(10.5));
}

#[test]
fn bridge_unset_fields() {
    let msg = bridge_unset("bridge-aaa", 9, "/transport/bpm");
    assert_eq!(msg.msg_type, MSG_BRIDGE_UNSET);
    assert_eq!(get_origin(&msg), Some("bridge-aaa".to_string()));
    assert!(get_msg_id(&msg).is_some());
    assert_eq!(get_address(&msg), Some("/transport/bpm".to_string()));
    assert_eq!(get_source(&msg), 9);
}

#[test]
fn msg_ids_are_unique() {
    let a = bridge_action("o", 1, "/x", SignalType::Event, float(0.0), Value::Null);
    let b = bridge_action("o", 1, "/x", SignalType::Event, float(0.0), Value::Null);
    assert_ne!(get_msg_id(&a), get_msg_id(&b));
}

#[test]
fn auth_token_matching() {
    // Auth disabled: anything is accepted.
    assert!(auth_token_matches(None, None));
    assert!(auth_token_matches(None, Some("anything")));
    // Configured token must be presented exactly.
    assert!(auth_token_matches(Some("s3cret"), Some("s3cret")));
    assert!(!auth_token_matches(Some("s3cret"), Some("s3creu")));
    assert!(!auth_token_matches(Some("s3cret"), None));
    assert!(!auth_token_matches(Some("s3cret"), Some("s3cret-longer")));
    assert!(!auth_token_matches(Some("s3cret-longer"), Some("s3cret")));
    assert!(!auth_token_matches(Some(""), Some("x")));
    assert!(auth_token_matches(Some(""), Some("")));
}

#[test]
fn bridge_ping_type() {
    let msg = bridge_ping(7);
    assert_eq!(msg.msg_type, MSG_BRIDGE_PING);
}
