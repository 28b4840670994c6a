use ensemble::protocol::{
    action, action_with_source, clock_ping, clock_pong, disconnect, error, get_field, get_float,
    get_integer, get_string, get_value, hello, parse_signal_type, patch_manifest, payload_map,
    set_manifest, signal_type_to_str, subscribe, unset_param, unsubscribe, update_name, welcome,
    SignalType, WireMessage, ERR_INVALID_PATTERN, MSG_ACTION, MSG_CLOCK_PING, MSG_CLOCK_PONG,
    MSG_DISCONNECT, MSG_ERROR, MSG_HELLO, MSG_PATCH_MANIFEST, MSG_SET_MANIFEST, MSG_SUBSCRIBE,
    MSG_UNSET_PARAM, MSG_UNSUBSCRIBE, MSG_UPDATE_NAME, MSG_WELCOME,
};
use ensemble::values::{FloatValue, Value};

fn float(x: f64) -> FloatValue {
    FloatValue::new(x.to_bits())
}

#[test]
fn hello_message_structure() {
    let msg = hello("MIDI Bridge");
    assert_eq!(msg.msg_type, MSG_HELLO);
    if let Value::Dict(map) = &msg.payload {
        assert_eq!(get_integer(map, "protocol_version"), Some(1));
        assert_eq!(get_string(map, "name"), Some("MIDI Bridge".into()));
    } else {
        panic!("Expected Map payload");
    }
}

#[test]
fn welcome_message_structure() {
    let msg = welcome(42);
    assert_eq!(msg.msg_type, MSG_WELCOME);
    if let Value::Dict(map) = &msg.payload {
        assert_eq!(get_integer(map, "voice_id"), Some(42));
    } else {
        panic!("Expected Map payload");
    }
}

#[test]
fn subscribe_message_structure() {
    let msg = subscribe("/midi/**");
    assert_eq!(msg.msg_type, MSG_SUBSCRIBE);
    if let Value::Dict(map) = &msg.payload {
        assert_eq!(get_string(map, "pattern"), Some("/midi/**".into()));
    } else {
        panic!("Expected Map payload");
    }
}

#[test]
fn action_message_structure() {
    let msg = action(
        "/transport/bpm",
        SignalType::Param,
        float(10.5),
        Value::Float(float(120.0)),
    );
    assert_eq!(msg.msg_type, MSG_ACTION);
    if let Value::Dict(map) = &msg.payload {
        assert_eq!(get_string(map, "address"), Some("/transport/bpm".into()));
        assert_eq!(get_string(map, "signal_type"), Some("param".into()));
        assert_eq!(get_float(map, "timestamp"), Some(float(10.5)));
    } else {
        panic!("Expected Map payload");
    }
}

#[test]
fn error_message_structure() {
    let msg = error(ERR_INVALID_PATTERN, "Recursive wildcard must be final segment.");
    assert_eq!(msg.msg_type, MSG_ERROR);
    if let Value::Dict(map) = &msg.payload {
        assert_eq!(get_string(map, "code"), Some(ERR_INVALID_PATTERN.into()));
        assert_eq!(
            get_string(map, "message"),
            Some("Recursive wildcard must be final segment.".into())
        );
    } else {
        panic!("Expected Map payload");
    }
}

#[test]
fn disconnect_message_structure() {
    let msg = disconnect();
    assert_eq!(msg.msg_type, MSG_DISCONNECT);
    assert!(matches!(msg.payload, Value::Dict(_)));
}

#[test]
fn action_with_source_includes_source_field() {
    let msg = action_with_source(
        42,
        "/transport/bpm",
        SignalType::Param,
        float(10.5),
        Value::Float(float(120.0)),
    );
    assert_eq!(msg.msg_type, MSG_ACTION);
    if let Value::Dict(map) = &msg.payload {
        assert_eq!(get_integer(map, "source"), Some(42));
        assert_eq!(get_string(map, "address"), Some("/transport/bpm".into()));
        assert_eq!(get_string(map, "signal_type"), Some("param".into()));
        assert_eq!(get_float(map, "timestamp"), Some(float(10.5)));
    } else {
        panic!("Expected Map payload");
    }
}

#[test]
fn action_without_source_omits_source_field() {
    let msg = action(
        "/test",
        SignalType::Event,
        float(0.0),
        Value::Null,
    );
    if let Value::Dict(map) = &msg.payload {
        assert!(map.get("source").is_none());
        assert_eq!(get_string(map, "address"), Some("/test".into()));
    } else {
        panic!("Expected Map payload");
    }
}

#[test]
fn signal_names_read_back() {
    for signal in [SignalType::Param, SignalType::Event, SignalType::Stream] {
        assert_eq!(parse_signal_type(signal_type_to_str(signal)), Some(signal));
    }
    assert_eq!(parse_signal_type("Param"), None);
    assert_eq!(parse_signal_type(""), None);
}

#[test]
fn clock_messages_hold_their_fields() {
    let ping = clock_ping(7);
    assert_eq!(ping.msg_type, MSG_CLOCK_PING);
    assert_eq!(get_integer(&payload_map(&ping), "sequence"), Some(7));
    let pong = clock_pong(8, float(1.5));
    assert_eq!(pong.msg_type, MSG_CLOCK_PONG);
    assert_eq!(get_integer(&payload_map(&pong), "sequence"), Some(8));
    assert_eq!(get_float(&payload_map(&pong), "hub_time"), Some(float(1.5)));
}

#[test]
fn single_field_messages_hold_their_field() {
    let msg = unsubscribe("/a/*");
    assert_eq!(msg.msg_type, MSG_UNSUBSCRIBE);
    assert_eq!(get_string(&payload_map(&msg), "pattern"), Some("/a/*".to_string()));
    let msg = unset_param("/a/b");
    assert_eq!(msg.msg_type, MSG_UNSET_PARAM);
    assert_eq!(get_string(&payload_map(&msg), "address"), Some("/a/b".to_string()));
    let msg = update_name("Other");
    assert_eq!(msg.msg_type, MSG_UPDATE_NAME);
    assert_eq!(get_string(&payload_map(&msg), "name"), Some("Other".to_string()));
    let msg = set_manifest(Value::Integer(3));
    assert_eq!(msg.msg_type, MSG_SET_MANIFEST);
    assert_eq!(get_value(&payload_map(&msg), "manifest"), Some(Value::Integer(3)));
    let msg = patch_manifest(Value::Bool(true));
    assert_eq!(msg.msg_type, MSG_PATCH_MANIFEST);
    assert_eq!(get_value(&payload_map(&msg), "patch"), Some(Value::Bool(true)));
}

#[test]
fn fields_of_another_kind_are_absent() {
    let fields = payload_map(&action("/a", SignalType::Event, float(0.0), Value::Null));
    assert_eq!(get_integer(&fields, "address"), None);
    assert_eq!(get_float(&fields, "address"), None);
    assert_eq!(get_string(&fields, "timestamp"), None);
    assert_eq!(get_field(&fields, "payload"), Some(&Value::Null));
    assert_eq!(get_field(&fields, "source"), None);
    let odd = WireMessage::new("odd", Value::Integer(1));
    assert_eq!(payload_map(&odd).len(), 0);
}
