use ensemble::bridge::config::MappingConfig;
use ensemble::bridge::mapping::MappingEngine;
use ensemble::bridge::param_cache::ParamCache;
use ensemble::bridge::protocol;
use ensemble::protocol::{action_with_source, SignalType};
use ensemble::values::{FloatValue, Value};

fn float(x: f64) -> FloatValue {
    FloatValue::new(x.to_bits())
}

fn make_test_config(from: &str, to: &str) -> MappingConfig {
    MappingConfig {
        from_pattern: from.to_string(),
        to_template: to.to_string(),
        direction: "outbound".to_string(),
        signal_filter: vec![],
    }
}

#[test]
fn cache_stores_param() {
    let mut cache = ParamCache::new();
    let action = action_with_source(
        1,
        "/track/1/volume",
        SignalType::Param,
        float(10.0),
        Value::Float(float(0.5)),
    );
    cache.update(&action);
    assert_eq!(cache.len(), 1);
}

#[test]
fn cache_ignores_event() {
    let mut cache = ParamCache::new();
    let action = action_with_source(1, "/track/1/volume", SignalType::Event, float(10.0), Value::Null);
    cache.update(&action);
    assert_eq!(cache.len(), 0);
}

#[test]
fn remove_clears_param() {
    let mut cache = ParamCache::new();
    let action = action_with_source(
        1,
        "/track/1/volume",
        SignalType::Param,
        float(10.0),
        Value::Float(float(0.5)),
    );
    cache.update(&action);
    cache.remove("/track/1/volume");
    assert_eq!(cache.len(), 0);
}

#[test]
fn replay_sends_mapped_params() {
    let engine =
        MappingEngine::new(&[make_test_config("/track/{id}/volume", "/mixer/{id}/gain")]);
    let mut cache = ParamCache::new();
    cache.update(&action_with_source(
        1,
        "/track/1/volume",
        SignalType::Param,
        float(10.0),
        Value::Float(float(0.5)),
    ));

    let sent = cache.replay(&engine, "bridge-aaa");

    assert_eq!(sent.len(), 1);
    let msg = &sent[0];
    assert_eq!(msg.msg_type, protocol::MSG_BRIDGE_ACTION);
    assert_eq!(protocol::get_origin(msg), Some("bridge-aaa".to_string()));
    assert_eq!(
        protocol::get_address(msg),
        Some("/mixer/1/gain".to_string())
    );
    assert_eq!(protocol::get_signal_type(msg), Some("param".to_string()));
}

#[test]
fn replay_skips_unmapped_params() {
    let engine =
        MappingEngine::new(&[make_test_config("/track/{id}/volume", "/mixer/{id}/gain")]);
    let mut cache = ParamCache::new();
    cache.update(&action_with_source(
        1,
        "/other/value",
        SignalType::Param,
        float(10.0),
        Value::Float(float(0.5)),
    ));

    let sent = cache.replay(&engine, "bridge-aaa");

    assert!(sent.is_empty());
}

#[test]
fn replay_uses_latest_value() {
    let engine =
        MappingEngine::new(&[make_test_config("/track/{id}/volume", "/mixer/{id}/gain")]);
    let mut cache = ParamCache::new();
    cache.update(&action_with_source(
        1,
        "/track/1/volume",
        SignalType::Param,
        float(10.0),
        Value::Float(float(0.5)),
    ));
    cache.update(&action_with_source(
        2,
        "/track/1/volume",
        SignalType::Param,
        float(11.0),
        Value::Float(float(0.7)),
    ));

    let sent = cache.replay(&engine, "bridge-aaa");

    assert_eq!(sent.len(), 1);
    let msg = &sent[0];
    assert_eq!(protocol::get_source(msg), 2);
    assert_eq!(
        protocol::get_action_payload(msg),
        Value::Float(float(0.7))
    );
}
