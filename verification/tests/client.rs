use ensemble::client::{
    connect_candidates, dispatch, is_action, read_welcome, sync_interval_ms, ClientEvent,
    HubError, LocalClock, WelcomeError, DEFAULT_HUB_PORT, MAX_PENDING_PINGS,
};
use ensemble::protocol::{
    action, clock_pong, disconnect, error, unset_param, welcome, SignalType, WireMessage,
};
use ensemble::text_map::TextMap;
use ensemble::values::{FloatValue, Value};

#[test]
fn pending_pings_are_bounded_with_oldest_evict() {
    let mut clock = LocalClock::new();

    // Record more pings than the cap allows.
    let total = MAX_PENDING_PINGS as u64 + 10;
    for seq in 0..total {
        clock.record_ping(seq, FloatValue::zero());
    }

    // The map stays at the cap, with the oldest sequences evicted and
    // the newest all retained.
    assert_eq!(clock.pending_count(), MAX_PENDING_PINGS);
    assert!(!clock.is_pending(0));
    assert!(!clock.is_pending(9));
    assert!(clock.is_pending(10));
    assert!(clock.is_pending(total - 1));
}

#[test]
fn a_pong_gives_back_when_its_ping_was_sent() {
    let mut clock = LocalClock::new();
    let sent = FloatValue::new(1.5f64.to_bits());
    let first = clock.next_sequence(sent);
    let second = clock.next_sequence(FloatValue::zero());
    assert_eq!((first, second), (0, 1));
    assert_eq!(clock.process_pong(first), Some(sent));
    assert_eq!(clock.process_pong(first), None);
    assert!(clock.is_pending(second));
    assert_eq!(clock.pending_count(), 1);
}

#[test]
fn a_welcome_gives_the_voice_id() {
    assert_eq!(read_welcome(&welcome(42)).ok(), Some(42));
    assert!(matches!(
        read_welcome(&disconnect()),
        Err(WelcomeError::NotWelcome(t)) if t == "disconnect"
    ));
    assert!(matches!(
        read_welcome(&WireMessage::new("welcome", Value::Null)),
        Err(WelcomeError::NotMap)
    ));
    assert!(matches!(
        read_welcome(&WireMessage::new("welcome", Value::Dict(TextMap::new()))),
        Err(WelcomeError::MissingVoiceId)
    ));
}

#[test]
fn the_port_file_comes_before_the_default_port() {
    assert_eq!(connect_candidates(Some(9000), true), vec![9000, DEFAULT_HUB_PORT]);
    assert_eq!(connect_candidates(Some(9000), false), vec![DEFAULT_HUB_PORT]);
    assert_eq!(connect_candidates(None, true), vec![DEFAULT_HUB_PORT]);
    assert_eq!(DEFAULT_HUB_PORT, 7331);
}

#[test]
fn messages_of_the_hub_are_sorted() {
    let zero = FloatValue::zero();
    let routed = action("/x", SignalType::Event, zero, Value::Null);
    assert!(is_action(&routed));
    assert!(matches!(dispatch(routed), ClientEvent::Deliver(_)));
    assert!(!is_action(&unset_param("/x")));
    assert!(matches!(dispatch(unset_param("/x")), ClientEvent::Deliver(_)));
    assert!(matches!(
        dispatch(clock_pong(5, zero)),
        ClientEvent::Pong { sequence: 5, .. }
    ));
    match dispatch(error("code", "text")) {
        ClientEvent::Failure(e) => assert_eq!(e.message_text(), "code: text"),
        other => panic!("{other:?}"),
    }
    assert!(matches!(dispatch(disconnect()), ClientEvent::Ignored));
}

#[test]
fn clocks_sync_quickly_at_first() {
    assert_eq!(sync_interval_ms(false), 200);
    assert_eq!(sync_interval_ms(true), 5000);
}

#[test]
fn a_hub_error_is_cloned_whole() {
    let e = HubError { code: "c".to_string(), message: "m".to_string() };
    assert_eq!(e.clone(), e);
    assert_eq!(e.message_text(), "c: m");
}
