use ensemble::bridge::config::{
    default_listen_addr, default_max_inbound, default_true, LocalConfig, MappingConfig,
};
use ensemble::bridge::loop_guard::{LoopGuard, SEEN_CAP};
use ensemble::bridge::mapping::MappingEngine;
use ensemble::bridge::protocol::{
    bridge_action_with_id, bridge_hello, bridge_ping, bridge_unset_with_id, constant_time_eq,
    get_address, get_auth_token, get_msg_id, get_origin,
};
use ensemble::bridge::session::{
    begin_handshake, complete_handshake, format_host_port, handle_inbound_message,
    parse_peer_hello, send_route, writer_step, HandshakeOutcome, HandshakeStart, HelloError,
    InboundOutcome, SendReport, SendRoute, WriterAction, WriterEvent, WriterPhase,
};
use ensemble::protocol::{SignalType, WireMessage};
use ensemble::values::{FloatValue, Value};

fn engine() -> MappingEngine {
    MappingEngine::new(&[MappingConfig {
        from_pattern: "/mixer/**".to_string(),
        to_template: "/track/**".to_string(),
        direction: "both".to_string(),
        signal_filter: vec![],
    }])
}

fn bridged(origin: &str, id: &str, address: &str, signal: SignalType) -> WireMessage {
    bridge_action_with_id(origin, id, 1, address, signal, FloatValue::zero(), Value::Null)
}

#[test]
fn own_messages_are_dropped() {
    let mut guard = LoopGuard::with_id("me".to_string());
    let msg = bridged("me", "id-1", "/mixer/1", SignalType::Event);
    assert!(matches!(
        handle_inbound_message(&msg, &mut guard, &engine()),
        InboundOutcome::Looped
    ));
}

#[test]
fn a_message_is_delivered_once() {
    let mut guard = LoopGuard::with_id("me".to_string());
    let msg = bridged("you", "id-1", "/mixer/1", SignalType::Event);
    match handle_inbound_message(&msg, &mut guard, &engine()) {
        InboundOutcome::Forward { reforward, to_hub } => {
            assert_eq!(get_origin(&reforward), Some("you".to_string()));
            assert_eq!(get_msg_id(&reforward), Some("id-1".to_string()));
            assert_eq!(get_address(&reforward), Some("/mixer/1".to_string()));
            assert_eq!(get_address(&to_hub.unwrap()), Some("/track/1".to_string()));
        }
        other => panic!("{other:?}"),
    }
    assert!(matches!(
        handle_inbound_message(&msg, &mut guard, &engine()),
        InboundOutcome::Duplicate
    ));
    let unset = bridge_unset_with_id("you", "id-1", 1, "/mixer/1");
    assert!(matches!(
        handle_inbound_message(&unset, &mut guard, &engine()),
        InboundOutcome::Duplicate
    ));
}

#[test]
fn unmapped_messages_are_still_passed_on() {
    let mut guard = LoopGuard::with_id("me".to_string());
    let msg = bridged("you", "id-1", "/other", SignalType::Event);
    assert!(matches!(
        handle_inbound_message(&msg, &mut guard, &engine()),
        InboundOutcome::Forward { to_hub: None, .. }
    ));
}

#[test]
fn other_messages_reach_nobody() {
    let mut guard = LoopGuard::with_id("me".to_string());
    assert!(matches!(
        handle_inbound_message(&bridge_ping(1), &mut guard, &engine()),
        InboundOutcome::Ignored
    ));
    let odd = WireMessage::new("odd", Value::Null);
    assert!(matches!(
        handle_inbound_message(&odd, &mut guard, &engine()),
        InboundOutcome::Unknown
    ));
}

#[test]
fn hello_identifies_the_peer() {
    let peer = parse_peer_hello(&bridge_hello("b-1", "studio", None)).unwrap();
    assert_eq!(peer.bridge_id, "b-1");
    assert_eq!(peer.name, "studio");
    assert!(matches!(
        parse_peer_hello(&bridge_ping(1)),
        Err(HelloError::NotHello(t)) if t == "bridge_ping"
    ));
    let flat = WireMessage::new("bridge_hello", Value::Null);
    assert!(matches!(parse_peer_hello(&flat), Err(HelloError::NotMap)));
}

#[test]
fn the_dialling_side_speaks_first() {
    match begin_handshake(false, "b-1", "studio", Some("s3cret")) {
        HandshakeStart::SendThenRead(m) => {
            assert_eq!(get_auth_token(&m), Some("s3cret".to_string()));
        }
        other => panic!("{other:?}"),
    }
    assert!(matches!(
        begin_handshake(true, "b-1", "studio", None),
        HandshakeStart::ReadFirst
    ));
}

#[test]
fn a_wrong_token_gets_no_reply() {
    let hello = bridge_hello("b-2", "stage", Some("wrong"));
    for inbound in [true, false] {
        assert!(matches!(
            complete_handshake(inbound, &hello, "b-1", "studio", Some("s3cret")),
            HandshakeOutcome::Unauthenticated
        ));
    }
    match complete_handshake(true, &hello, "b-1", "studio", None) {
        HandshakeOutcome::Complete { reply, peer } => {
            assert!(reply.is_some());
            assert_eq!(peer.unwrap().bridge_id, "b-2");
        }
        other => panic!("{other:?}"),
    }
    match complete_handshake(false, &hello, "b-1", "studio", Some("wrong")) {
        HandshakeOutcome::Complete { reply, .. } => assert!(reply.is_none()),
        other => panic!("{other:?}"),
    }
}

#[test]
fn only_streams_go_by_datagram() {
    let stream = bridged("you", "id", "/mixer/1", SignalType::Stream);
    let param = bridged("you", "id", "/mixer/1", SignalType::Param);
    let event = bridged("you", "id", "/mixer/1", SignalType::Event);
    assert_eq!(send_route(&stream), SendRoute::Datagram);
    assert_eq!(send_route(&param), SendRoute::Reliable);
    assert_eq!(send_route(&event), SendRoute::Reliable);
    assert_eq!(send_route(&bridge_ping(1)), SendRoute::Reliable);
}

#[test]
fn replay_comes_before_live_traffic() {
    let (phase, action) =
        writer_step(WriterPhase::Replaying, WriterEvent::Replay(bridge_ping(1)));
    assert_eq!(phase, WriterPhase::Replaying);
    assert!(matches!(action, WriterAction::Send(_, SendRoute::Reliable)));
    let (phase, action) = writer_step(phase, WriterEvent::ReplayDone);
    assert_eq!(phase, WriterPhase::Live);
    assert!(matches!(action, WriterAction::Wait));
    let (phase, action) = writer_step(phase, WriterEvent::Broadcast(bridge_ping(2)));
    assert_eq!(phase, WriterPhase::Live);
    assert!(matches!(action, WriterAction::Send(..)));
    let (phase, action) = writer_step(phase, WriterEvent::Lagged);
    assert_eq!(phase, WriterPhase::Live);
    assert!(matches!(action, WriterAction::Wait));
    let (phase, action) =
        writer_step(phase, WriterEvent::Reported(SendReport::DatagramDropped));
    assert_eq!(phase, WriterPhase::Live);
    assert!(matches!(action, WriterAction::Wait));
    let (phase, action) =
        writer_step(phase, WriterEvent::Reported(SendReport::ConnectionLost));
    assert_eq!(phase, WriterPhase::Finished);
    assert!(matches!(action, WriterAction::Finish));
}

#[test]
fn a_cancelled_writer_ends() {
    for phase in [WriterPhase::Replaying, WriterPhase::Live] {
        let (after, action) = writer_step(phase, WriterEvent::Cancelled);
        assert_eq!(after, WriterPhase::Finished);
        assert!(matches!(action, WriterAction::Finish));
    }
}

#[test]
fn ipv6_hosts_are_bracketed() {
    assert_eq!(format_host_port("example.org", 7332), "example.org:7332");
    assert_eq!(format_host_port("127.0.0.1", 1), "127.0.0.1:1");
    assert_eq!(format_host_port("::1", 7332), "[::1]:7332");
    assert_eq!(format_host_port("[::1]", 7332), "[::1]:7332");
}

#[test]
fn a_message_stays_known_through_a_full_window() {
    let mut guard = LoopGuard::with_id("me".to_string());
    let mapping = engine();
    let first = bridged("you", "first", "/mixer/1", SignalType::Event);
    handle_inbound_message(&first, &mut guard, &mapping);
    for i in 1..SEEN_CAP {
        let msg = bridged("you", &format!("id-{i}"), "/mixer/1", SignalType::Event);
        handle_inbound_message(&msg, &mut guard, &mapping);
    }
    assert!(matches!(
        handle_inbound_message(&first, &mut guard, &mapping),
        InboundOutcome::Duplicate
    ));
    let last = bridged("you", "last", "/mixer/1", SignalType::Event);
    handle_inbound_message(&last, &mut guard, &mapping);
    assert!(matches!(
        handle_inbound_message(&first, &mut guard, &mapping),
        InboundOutcome::Forward { .. }
    ));
}

#[test]
fn bytes_are_equal_only_if_all_are() {
    assert!(constant_time_eq(b"", b""));
    assert!(constant_time_eq(b"token", b"token"));
    assert!(!constant_time_eq(b"token", b"tokem"));
    assert!(!constant_time_eq(b"token", b"toke"));
}

#[test]
fn settings_left_out_have_defaults() {
    assert_eq!(default_listen_addr(), "0.0.0.0");
    assert_eq!(default_max_inbound(), 32);
    assert!(default_true());
    assert_eq!(LocalConfig::default().port, None);
}

#[test]
fn live_messages_during_the_replay_are_not_sent() {
    let mut phase = WriterPhase::Replaying;
    let mut sent = vec![];
    for event in [
        WriterEvent::Replay(bridge_ping(1)),
        WriterEvent::Broadcast(bridge_ping(2)),
        WriterEvent::Replay(bridge_ping(3)),
        WriterEvent::ReplayDone,
        WriterEvent::Replay(bridge_ping(4)),
        WriterEvent::Broadcast(bridge_ping(5)),
        WriterEvent::Closed,
        WriterEvent::Broadcast(bridge_ping(6)),
    ] {
        let (next, action) = writer_step(phase, event);
        phase = next;
        if let WriterAction::Send(m, _) = action {
            sent.push(m);
        }
    }
    assert_eq!(sent, vec![bridge_ping(1), bridge_ping(3), bridge_ping(5)]);
}
