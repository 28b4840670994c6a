use ensemble::chord::midi::{
    decode_input, parse_cancel_payload, parse_cc_payload, parse_play_payload, route_action,
    RouterOutcome,
};
use ensemble::chord::protocol::{Action, Payload, SignalType, Value};
use ensemble::midi::key_state::{KeyStateStore, MidiBytes};
use ensemble::values::FloatValue;

fn ints(items: &[i32]) -> Vec<Value> {
    items.iter().map(|n| Value::I32(*n)).collect()
}

fn act(address: &str, payload: Payload) -> Action {
    Action {
        address: address.to_string(),
        signal_type: SignalType::Event,
        timestamp: FloatValue::zero(),
        payload,
    }
}

fn play_payload() -> Payload {
    let mut items = ints(&[1, 60, 100]);
    items.push(Value::F32(0.5f32.to_bits()));
    Payload::Tuple(items)
}

#[test]
fn chord_payloads_are_read() {
    assert_eq!(
        parse_play_payload(&play_payload()),
        Some((1, 60, 100, 0.5f32.to_bits()))
    );
    assert_eq!(parse_play_payload(&Payload::Tuple(ints(&[1, 60, 100, 1]))), None);
    assert_eq!(parse_cancel_payload(&Payload::Tuple(ints(&[1, 60]))), Some((1, 60)));
    assert_eq!(parse_cancel_payload(&Payload::Tuple(ints(&[1]))), None);
    assert_eq!(parse_cc_payload(&Payload::Tuple(ints(&[1, 7, 300]))), Some((1, 7, 44)));
    assert_eq!(parse_cc_payload(&Payload::Empty), None);
}

#[test]
fn chord_notes_are_scheduled() {
    let mut store = KeyStateStore::new();
    match route_action(&act("/midi/play", play_payload()), &mut store) {
        RouterOutcome::Play { bytes, event_id, channel, note, duration_bits } => {
            assert_eq!(bytes, Some(MidiBytes([0x91, 60, 100])));
            assert_eq!((event_id, channel, note), (1, 1, 60));
            assert_eq!(duration_bits, 0.5f32.to_bits());
        }
        other => panic!("{other:?}"),
    }
    let cancel = act("/midi/cancel", Payload::Tuple(ints(&[1, 60])));
    assert!(matches!(
        route_action(&cancel, &mut store),
        RouterOutcome::Cancelled { channel: 1, note: 60 }
    ));
    let cc = act("/midi/cc", Payload::Tuple(ints(&[0, 7, 1])));
    assert!(matches!(
        route_action(&cc, &mut store),
        RouterOutcome::ControlChange(MidiBytes([0xB0, 7, 1]))
    ));
    assert!(matches!(
        route_action(&act("/midi/play", Payload::Empty), &mut store),
        RouterOutcome::InvalidPayload
    ));
    assert!(matches!(
        route_action(&act("/other", Payload::Empty), &mut store),
        RouterOutcome::Unhandled
    ));
}

#[test]
fn chord_input_becomes_actions() {
    let on = decode_input(&[0x90, 60, 100]).unwrap();
    assert_eq!(on.address, "/midi/in/note-on");
    let off = decode_input(&[0x90, 60, 0]).unwrap();
    assert_eq!(off.address, "/midi/in/note-off");
    assert!(decode_input(&[0xF8]).is_none());
}
