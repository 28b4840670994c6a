use ensemble::midi::bridge::{
    decode_input, parse_cancel_payload, parse_cc_payload, parse_play_payload, route_action,
    RouterOutcome,
};
use ensemble::midi::key_state::{KeyStateStore, MidiBytes};
use ensemble::protocol::{action, get_string, get_value, SignalType, WireMessage};
use ensemble::values::{FloatValue, Value};

fn float(x: f64) -> FloatValue {
    FloatValue::new(x.to_bits())
}

fn play_payload(channel: i64, note: i64, velocity: i64, duration: f64) -> Value {
    Value::Tuple(vec![
        Value::Integer(channel),
        Value::Integer(note),
        Value::Integer(velocity),
        Value::Float(float(duration)),
    ])
}

fn cancel_payload(channel: i64, note: i64) -> Value {
    Value::Tuple(vec![Value::Integer(channel), Value::Integer(note)])
}

fn cc_payload(channel: i64, cc: i64, val: i64) -> Value {
    Value::Tuple(vec![
        Value::Integer(channel),
        Value::Integer(cc),
        Value::Integer(val),
    ])
}

#[test]
fn play_accepts_valid_payload() {
    let (channel, note, velocity, duration) =
        parse_play_payload(&play_payload(0, 60, 100, 0.5)).unwrap();
    assert_eq!((channel, note, velocity), (0, 60, 100));
    assert!((f64::from_bits(duration.value()) - 0.5).abs() < f64::EPSILON);
}

#[test]
fn play_accepts_boundary_values() {
    assert!(parse_play_payload(&play_payload(15, 127, 127, 0.0)).is_some());
    assert!(parse_play_payload(&play_payload(0, 0, 0, 0.0)).is_some());
}

#[test]
fn play_rejects_out_of_range_channel() {
    assert!(parse_play_payload(&play_payload(16, 60, 100, 0.5)).is_none());
    assert!(parse_play_payload(&play_payload(-1, 60, 100, 0.5)).is_none());
    assert!(parse_play_payload(&play_payload(i64::MAX, 60, 100, 0.5)).is_none());
}

#[test]
fn play_rejects_out_of_range_note_and_velocity() {
    assert!(parse_play_payload(&play_payload(0, 128, 100, 0.5)).is_none());
    assert!(parse_play_payload(&play_payload(0, -1, 100, 0.5)).is_none());
    assert!(parse_play_payload(&play_payload(0, 60, 128, 0.5)).is_none());
    assert!(parse_play_payload(&play_payload(0, 60, -1, 0.5)).is_none());
}

#[test]
fn play_rejects_bad_duration() {
    // Negative durations would panic `Duration::from_secs_f64`.
    assert!(parse_play_payload(&play_payload(0, 60, 100, -0.5)).is_none());
    // Non-finite durations likewise.
    assert!(parse_play_payload(&play_payload(0, 60, 100, f64::NAN)).is_none());
    assert!(parse_play_payload(&play_payload(0, 60, 100, f64::INFINITY)).is_none());
    assert!(parse_play_payload(&play_payload(0, 60, 100, f64::NEG_INFINITY)).is_none());
}

#[test]
fn play_rejects_wrong_types_and_arity() {
    // Too few elements.
    assert!(parse_play_payload(&Value::Tuple(vec![
        Value::Integer(0),
        Value::Integer(60),
        Value::Integer(100),
    ]))
    .is_none());
    // Duration must be a Float.
    assert!(parse_play_payload(&Value::Tuple(vec![
        Value::Integer(0),
        Value::Integer(60),
        Value::Integer(100),
        Value::Integer(1),
    ]))
    .is_none());
    // Channel must be an Integer.
    assert!(parse_play_payload(&Value::Tuple(vec![
        Value::Float(float(0.0)),
        Value::Integer(60),
        Value::Integer(100),
        Value::Float(float(0.5)),
    ]))
    .is_none());
    // Not a tuple at all.
    assert!(parse_play_payload(&Value::Null).is_none());
}

#[test]
fn cancel_accepts_valid_payload() {
    assert_eq!(parse_cancel_payload(&cancel_payload(0, 60)), Some((0, 60)));
    assert_eq!(
        parse_cancel_payload(&cancel_payload(15, 127)),
        Some((15, 127))
    );
}

#[test]
fn cancel_rejects_out_of_range() {
    assert!(parse_cancel_payload(&cancel_payload(16, 60)).is_none());
    assert!(parse_cancel_payload(&cancel_payload(-1, 60)).is_none());
    assert!(parse_cancel_payload(&cancel_payload(0, 128)).is_none());
    assert!(parse_cancel_payload(&cancel_payload(0, -1)).is_none());
}

#[test]
fn cancel_rejects_wrong_arity() {
    assert!(parse_cancel_payload(&Value::Tuple(vec![Value::Integer(0)])).is_none());
    assert!(parse_cancel_payload(&Value::Null).is_none());
}

#[test]
fn cc_accepts_valid_payload() {
    assert_eq!(parse_cc_payload(&cc_payload(0, 7, 100)), Some((0, 7, 100)));
    assert_eq!(
        parse_cc_payload(&cc_payload(15, 127, 127)),
        Some((15, 127, 127))
    );
}

#[test]
fn cc_rejects_out_of_range() {
    assert!(parse_cc_payload(&cc_payload(16, 7, 100)).is_none());
    assert!(parse_cc_payload(&cc_payload(-1, 7, 100)).is_none());
    assert!(parse_cc_payload(&cc_payload(0, 128, 100)).is_none());
    assert!(parse_cc_payload(&cc_payload(0, -1, 100)).is_none());
    assert!(parse_cc_payload(&cc_payload(0, 7, 128)).is_none());
    assert!(parse_cc_payload(&cc_payload(0, 7, -1)).is_none());
}

#[test]
fn cc_rejects_wrong_types_and_arity() {
    assert!(
        parse_cc_payload(&Value::Tuple(vec![Value::Integer(0), Value::Integer(7),])).is_none()
    );
    assert!(parse_cc_payload(&Value::Tuple(vec![
        Value::Integer(0),
        Value::Integer(7),
        Value::String("100".into()),
    ]))
    .is_none());
    assert!(parse_cc_payload(&Value::Null).is_none());
}

fn play(channel: i64, note: i64, velocity: i64) -> WireMessage {
    action("/midi/play", SignalType::Event, float(0.0), play_payload(channel, note, velocity, 0.5))
}

#[test]
fn a_play_starts_a_note() {
    let mut store = KeyStateStore::new();
    match route_action(&play(1, 60, 100), &mut store) {
        RouterOutcome::NoteOn { bytes, event_id, channel, note, duration } => {
            assert_eq!(bytes, Some(MidiBytes([0x91, 60, 100])));
            assert_eq!((event_id, channel, note), (1, 1, 60));
            assert_eq!(duration, float(0.5));
        }
        other => panic!("{other:?}"),
    }
    assert_eq!(store.stop(1, 1, 60), Some(MidiBytes([0x81, 60, 0])));
    assert_eq!(store.stop(1, 1, 60), None);
}

#[test]
fn a_retrigger_moves_the_note_off() {
    let mut store = KeyStateStore::new();
    route_action(&play(0, 60, 100), &mut store);
    // The key is sounding: no second note-on, but a note-off of its own.
    match route_action(&play(0, 60, 90), &mut store) {
        RouterOutcome::NoteOn { bytes, event_id, channel, note, duration } => {
            assert_eq!(bytes, None);
            assert_eq!((event_id, channel, note), (2, 0, 60));
            assert_eq!(duration, float(0.5));
        }
        other => panic!("{other:?}"),
    }
    assert_eq!(store.stop(1, 0, 60), None);
    assert_eq!(store.stop(2, 0, 60), Some(MidiBytes([0x80, 60, 0])));
    assert_eq!(store.stop(2, 0, 60), None);
}

#[test]
fn a_cancel_drops_the_pending_note_off() {
    let mut store = KeyStateStore::new();
    route_action(&play(0, 60, 100), &mut store);
    let cancel =
        action("/midi/cancel", SignalType::Event, float(0.0), cancel_payload(0, 60));
    assert!(matches!(
        route_action(&cancel, &mut store),
        RouterOutcome::Cancelled { channel: 0, note: 60 }
    ));
    assert_eq!(store.stop(1, 0, 60), None);
}

#[test]
fn a_control_change_is_passed_on() {
    let mut store = KeyStateStore::new();
    let cc = action("/midi/cc", SignalType::Event, float(0.0), cc_payload(2, 7, 127));
    match route_action(&cc, &mut store) {
        RouterOutcome::ControlChange(bytes) => assert_eq!(bytes, MidiBytes([0xB2, 7, 127])),
        other => panic!("{other:?}"),
    }
}

#[test]
fn other_actions_do_nothing() {
    let mut store = KeyStateStore::new();
    let bad = action("/midi/play", SignalType::Event, float(0.0), Value::Null);
    assert!(matches!(route_action(&bad, &mut store), RouterOutcome::InvalidPayload));
    let unknown = action("/midi/other", SignalType::Event, float(0.0), Value::Null);
    assert!(matches!(route_action(&unknown, &mut store), RouterOutcome::Unhandled));
    let flat = WireMessage::new("action", Value::Null);
    assert!(matches!(route_action(&flat, &mut store), RouterOutcome::Skipped));
}

fn input(message: &[u8]) -> Option<(String, Value)> {
    decode_input(message).map(|m| match &m.payload {
        Value::Dict(map) => (
            get_string(map, "address").unwrap(),
            get_value(map, "payload").unwrap(),
        ),
        _ => panic!("no map"),
    })
}

fn numbers(items: &[i64]) -> Value {
    Value::Tuple(items.iter().map(|n| Value::Integer(*n)).collect())
}

#[test]
fn input_messages_become_actions() {
    assert_eq!(
        input(&[0x93, 60, 100]),
        Some(("/midi/in/note-on".to_string(), numbers(&[3, 60, 100])))
    );
    assert_eq!(
        input(&[0x93, 60, 0]),
        Some(("/midi/in/note-off".to_string(), numbers(&[3, 60])))
    );
    assert_eq!(
        input(&[0x83, 60, 64]),
        Some(("/midi/in/note-off".to_string(), numbers(&[3, 60])))
    );
    assert_eq!(
        input(&[0xB0, 7, 127]),
        Some(("/midi/in/cc".to_string(), numbers(&[0, 7, 127])))
    );
    assert_eq!(input(&[0xF8]), None);
    assert_eq!(input(&[0xE0, 1, 2]), None);
    assert_eq!(input(&[]), None);
}
