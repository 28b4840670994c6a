use ensemble::bridge::config::MappingConfig;
use ensemble::bridge::forward::{
    build_outbound_bridge_action, forward_to_local, forward_to_remote, forward_unset_to_local,
    forward_unset_to_remote, forward_unset_with_id, outbound_bridge_action_with_id,
    signal_type_or_event,
};
use ensemble::bridge::mapping::MappingEngine;
use ensemble::bridge::protocol::{
    bridge_action_with_id, bridge_unset_with_id, get_action_payload, get_address, get_msg_id,
    get_origin, get_signal_type, get_source, get_timestamp, MSG_BRIDGE_ACTION, MSG_BRIDGE_UNSET,
};
use ensemble::protocol::{action_with_source, SignalType, MSG_ACTION, MSG_UNSET_PARAM};
use ensemble::values::{FloatValue, Value};

fn float(x: f64) -> FloatValue {
    FloatValue::new(x.to_bits())
}

fn engine(from: &str, to: &str, direction: &str) -> MappingEngine {
    MappingEngine::new(&[MappingConfig {
        from_pattern: from.to_string(),
        to_template: to.to_string(),
        direction: direction.to_string(),
        signal_filter: vec![],
    }])
}

#[test]
fn an_outbound_action_keeps_its_content() {
    let engine = engine("/track/{id}/**", "/mixer/{id}/**", "outbound");
    let action = action_with_source(
        7,
        "/track/3/volume",
        SignalType::Param,
        float(2.5),
        Value::Integer(9),
    );
    let msg = outbound_bridge_action_with_id(&action, &engine, "me", "id-1").unwrap();
    assert_eq!(msg.msg_type, MSG_BRIDGE_ACTION);
    assert_eq!(get_origin(&msg), Some("me".to_string()));
    assert_eq!(get_msg_id(&msg), Some("id-1".to_string()));
    assert_eq!(get_address(&msg), Some("/mixer/3/volume".to_string()));
    assert_eq!(get_signal_type(&msg), Some("param".to_string()));
    assert_eq!(get_source(&msg), 7);
    assert_eq!(get_timestamp(&msg), float(2.5));
    assert_eq!(get_action_payload(&msg), Value::Integer(9));
}

#[test]
fn unmapped_actions_are_not_forwarded() {
    let engine = engine("/track/**", "/mixer/**", "inbound");
    let action =
        action_with_source(7, "/track/3", SignalType::Event, float(0.0), Value::Null);
    assert!(build_outbound_bridge_action(&action, &engine, "me").is_none());
    assert!(forward_to_remote(&action, &engine, "me").is_none());
    assert!(forward_unset_to_remote("/track/3", &engine, "me").is_none());
}

#[test]
fn forwarded_actions_get_fresh_ids() {
    let engine = engine("/track/**", "/mixer/**", "outbound");
    let action =
        action_with_source(7, "/track/3", SignalType::Event, float(0.0), Value::Null);
    let a = forward_to_remote(&action, &engine, "me").unwrap();
    let b = forward_to_remote(&action, &engine, "me").unwrap();
    assert_eq!(get_msg_id(&a).unwrap().len(), 36);
    assert_ne!(get_msg_id(&a), get_msg_id(&b));
    let c = forward_unset_to_remote("/track/3", &engine, "me").unwrap();
    assert_eq!(get_msg_id(&c).unwrap().len(), 36);
}

#[test]
fn an_unset_is_mapped_like_an_action() {
    let engine = engine("/track/**", "/mixer/**", "outbound");
    let msg = forward_unset_with_id("/track/3", &engine, "me", "id-2").unwrap();
    assert_eq!(msg.msg_type, MSG_BRIDGE_UNSET);
    assert_eq!(get_address(&msg), Some("/mixer/3".to_string()));
    assert_eq!(get_msg_id(&msg), Some("id-2".to_string()));
}

#[test]
fn an_inbound_action_becomes_a_local_one() {
    let engine = engine("/mixer/**", "/track/**", "inbound");
    let msg = bridge_action_with_id(
        "you",
        "id-3",
        5,
        "/mixer/1/gain",
        SignalType::Stream,
        float(1.5),
        Value::Bool(true),
    );
    let local = forward_to_local(&msg, &engine).unwrap();
    assert_eq!(local.msg_type, MSG_ACTION);
    assert_eq!(get_address(&local), Some("/track/1/gain".to_string()));
    assert_eq!(get_signal_type(&local), Some("stream".to_string()));
    // The sending hub keeps another clock: the action is immediate here.
    assert_eq!(get_timestamp(&local), float(0.0));
    assert_eq!(get_source(&local), 5);
    assert_eq!(get_action_payload(&local), Value::Bool(true));
    assert_eq!(get_origin(&local), None);

    let unset = bridge_unset_with_id("you", "id-4", 5, "/mixer/1/gain");
    let local = forward_unset_to_local(&unset, &engine).unwrap();
    assert_eq!(local.msg_type, MSG_UNSET_PARAM);
    assert_eq!(get_address(&local), Some("/track/1/gain".to_string()));
}

#[test]
fn unknown_signal_types_count_as_events() {
    assert_eq!(signal_type_or_event("param"), SignalType::Param);
    assert_eq!(signal_type_or_event("stream"), SignalType::Stream);
    assert_eq!(signal_type_or_event("event"), SignalType::Event);
    assert_eq!(signal_type_or_event("other"), SignalType::Event);
}
