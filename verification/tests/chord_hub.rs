use ensemble::chord::client::{action_message, client_hello, dispatch, welcome_id, ClientEvent};
use ensemble::chord::hub::{hello_of, HubState, HubStep};
use ensemble::chord::protocol::{Action, Message, Payload, SignalType, VoiceCapabilities};
use ensemble::values::FloatValue;

fn float(x: f64) -> FloatValue {
    FloatValue::new(x.to_bits())
}

fn voice(name: &str, subscriptions: &[&str]) -> VoiceCapabilities {
    VoiceCapabilities {
        name: name.to_string(),
        subscriptions: subscriptions.iter().map(|s| s.to_string()).collect(),
        is_bridge: false,
    }
}

fn act(address: &str) -> Action {
    Action {
        address: address.to_string(),
        signal_type: SignalType::Event,
        timestamp: float(0.0),
        payload: Payload::Empty,
    }
}

fn recipients(hub: &mut HubState, from: u32, address: &str) -> Vec<u32> {
    let msg = action_message(from, act(address));
    match hub.handle_message(from, msg, float(0.0), float(0.0)) {
        HubStep::Deliver { to, .. } => to,
        other => panic!("{other:?}"),
    }
}

#[test]
fn voices_get_ids_in_order() {
    let mut hub = HubState::new();
    assert_eq!(hub.register(voice("a", &[]), "peer"), 1);
    assert_eq!(hub.register(voice("b", &["/x", "/y/*"]), "peer"), 2);
    assert_eq!(hub.voice_count(), 2);
    assert_eq!(hub.voice_line(1), "  #2: \"b\" [/x, /y/*]");
}

#[test]
fn actions_go_to_matching_voices_but_never_back() {
    let mut hub = HubState::new();
    let a = hub.register(voice("a", &["/midi/*"]), "p");
    let b = hub.register(voice("b", &["/midi/*"]), "p");
    let c = hub.register(voice("c", &["/other"]), "p");
    let d = hub.register(voice("d", &["*", "/midi/note"]), "p");
    assert_eq!(recipients(&mut hub, a, "/midi/note"), vec![b, d]);
    assert_eq!(recipients(&mut hub, c, "/midi/note"), vec![a, b, d]);
    hub.remove(b);
    assert_eq!(recipients(&mut hub, c, "/midi/note"), vec![a, d]);
}

#[test]
fn subscriptions_can_change() {
    let mut hub = HubState::new();
    let a = hub.register(voice("a", &[]), "p");
    let b = hub.register(voice("b", &[]), "p");
    assert!(recipients(&mut hub, a, "/x").is_empty());
    let patterns = vec!["/x".to_string(), "/x".to_string()];
    hub.handle_message(b, Message::Subscribe { patterns }, float(0.0), float(0.0));
    assert_eq!(recipients(&mut hub, a, "/x"), vec![b]);
    let patterns = vec!["/x".to_string()];
    hub.handle_message(b, Message::Unsubscribe { patterns }, float(0.0), float(0.0));
    assert!(recipients(&mut hub, a, "/x").is_empty());
}

#[test]
fn clock_requests_are_answered() {
    let mut hub = HubState::new();
    let a = hub.register(voice("a", &[]), "p");
    let request = Message::ClockSyncRequest { voice_send_time: float(1.0) };
    match hub.handle_message(a, request, float(2.0), float(3.0)) {
        HubStep::Reply(Message::ClockSyncReply {
            voice_send_time,
            hub_receive_time,
            hub_send_time,
        }) => {
            assert_eq!(voice_send_time, float(1.0));
            assert_eq!(hub_receive_time, float(2.0));
            assert_eq!(hub_send_time, float(3.0));
        }
        other => panic!("{other:?}"),
    }
}

#[test]
fn goodbye_ends_a_connection() {
    let mut hub = HubState::new();
    let a = hub.register(voice("a", &["*"]), "p");
    let b = hub.register(voice("b", &[]), "p");
    assert!(matches!(
        hub.handle_message(a, Message::Goodbye, float(0.0), float(0.0)),
        HubStep::Ended
    ));
    hub.connection_closed(a);
    assert_eq!(hub.voice_count(), 1);
    assert!(recipients(&mut hub, b, "/x").is_empty());
    let odd = Message::Welcome { voice_id: 1, hub_time: float(0.0) };
    assert!(matches!(
        hub.handle_message(b, odd, float(0.0), float(0.0)),
        HubStep::Unexpected(_)
    ));
}

#[test]
fn the_log_shows_the_latest_first() {
    let mut hub = HubState::new();
    for i in 0..3 {
        hub.log(format!("event {i}"));
    }
    assert_eq!(hub.recent_events(2), vec!["event 2", "event 1"]);
    assert_eq!(hub.recent_events(9).len(), 3);
}

#[test]
fn the_client_says_hello_and_reads_the_welcome() {
    match client_hello("v", vec!["/a".to_string()]) {
        Message::Hello(c) => {
            assert_eq!(c.name, "v");
            assert_eq!(c.subscriptions, vec!["/a"]);
            assert!(!c.is_bridge);
        }
        other => panic!("{other:?}"),
    }
    assert_eq!(
        welcome_id(&Message::Welcome { voice_id: 7, hub_time: float(0.0) }),
        Some(7)
    );
    assert_eq!(welcome_id(&Message::Goodbye), None);
}

#[test]
fn the_client_sorts_what_it_receives() {
    assert!(matches!(
        dispatch(action_message(3, act("/x"))),
        ClientEvent::Routed { source: 3, .. }
    ));
    assert!(matches!(dispatch(Message::Goodbye), ClientEvent::Ignored));
    let reply = Message::ClockSyncReply {
        voice_send_time: float(1.0),
        hub_receive_time: float(2.0),
        hub_send_time: float(3.0),
    };
    assert!(matches!(dispatch(reply), ClientEvent::Clock { .. }));
}

#[test]
fn only_a_hello_introduces_a_voice() {
    assert_eq!(hello_of(Message::Hello(voice("a", &["/x"]))), Ok(voice("a", &["/x"])));
    assert_eq!(hello_of(Message::Goodbye), Err(Message::Goodbye));
}

#[test]
fn failures_are_logged_and_take_the_voice_out() {
    let mut hub = HubState::new();
    let a = hub.register(voice("a", &[]), "peer");
    let b = hub.register(voice("b", &[]), "peer");
    hub.read_failed(a, "broken");
    assert_eq!(hub.voice_count(), 1);
    assert_eq!(hub.recent_events(1), vec!["Voice 1: read error: broken"]);
    hub.welcome_failed(b, "gone");
    assert_eq!(hub.voice_count(), 0);
    assert_eq!(hub.recent_events(1), vec!["Voice 2: failed to send Welcome: gone"]);
}
