use ensemble::bridge::config::MappingConfig;
use ensemble::bridge::hub_link::{
    handle_hub_message, handle_hub_message_with_id, HubSupervisor, LinkAction, LinkEvent,
};
use ensemble::bridge::mapping::MappingEngine;
use ensemble::bridge::param_cache::ParamCache;
use ensemble::bridge::protocol::{get_address, get_msg_id, MSG_BRIDGE_ACTION, MSG_BRIDGE_UNSET};
use ensemble::protocol::{action_with_source, unset_param, SignalType, WireMessage};
use ensemble::values::{FloatValue, Value};

fn engine() -> MappingEngine {
    MappingEngine::new(&[MappingConfig {
        from_pattern: "/track/**".to_string(),
        to_template: "/mixer/**".to_string(),
        direction: "outbound".to_string(),
        signal_filter: vec![],
    }])
}

fn param(address: &str) -> WireMessage {
    action_with_source(1, address, SignalType::Param, FloatValue::zero(), Value::Integer(1))
}

#[test]
fn an_unset_clears_the_cached_param() {
    let mut cache = ParamCache::new();
    let out =
        handle_hub_message_with_id(&param("/track/1"), &mut cache, &engine(), "me", "id-1")
            .unwrap();
    assert_eq!(out.msg_type, MSG_BRIDGE_ACTION);
    assert_eq!(get_address(&out), Some("/mixer/1".to_string()));
    assert_eq!(get_msg_id(&out), Some("id-1".to_string()));
    assert_eq!(cache.len(), 1);
    let out = handle_hub_message(&unset_param("/track/1"), &mut cache, &engine(), "me").unwrap();
    assert_eq!(out.msg_type, MSG_BRIDGE_UNSET);
    assert_eq!(get_msg_id(&out).unwrap().len(), 36);
    assert_eq!(cache.len(), 0);
}

#[test]
fn unmapped_params_are_cached_but_not_sent() {
    let mut cache = ParamCache::new();
    assert!(handle_hub_message(&param("/other"), &mut cache, &engine(), "me").is_none());
    assert_eq!(cache.len(), 1);
}

#[test]
fn the_supervisor_backs_off_and_announces_once() {
    let mut link = HubSupervisor::new();
    assert_eq!(link.step(LinkEvent::ConnectFailed), LinkAction::ConnectAfter(2));
    assert_eq!(link.step(LinkEvent::SubscribeFailed), LinkAction::ConnectAfter(4));
    assert_eq!(link.step(LinkEvent::Established), LinkAction::Serve { announce: true });
    assert_eq!(link.delay(), 0);
    link.step(LinkEvent::Disconnected);
    assert_eq!(link.step(LinkEvent::Established), LinkAction::Serve { announce: false });
    assert_eq!(link.step(LinkEvent::Shutdown), LinkAction::Stop);
}
