use ensemble::demo::pitch::{midi_note_name, AppState, KeyEffect};
use ensemble::keys::KeyCode;
use ensemble::protocol::{
    action, get_string, get_value, unset_param, SignalType, WireMessage,
};
use ensemble::values::{FloatValue, Value};

fn fields(m: &WireMessage) -> (String, String, Value) {
    match &m.payload {
        Value::Dict(map) => (
            get_string(map, "address").unwrap(),
            get_string(map, "signal_type").unwrap(),
            get_value(map, "payload").unwrap(),
        ),
        _ => panic!("no map"),
    }
}

fn trigger() -> WireMessage {
    action("/demo/euclid/trigger", SignalType::Event, FloatValue::zero(), Value::Null)
}

#[test]
fn notes_have_names() {
    assert_eq!(midi_note_name(60), "C4");
    assert_eq!(midi_note_name(61), "C#4");
    assert_eq!(midi_note_name(69), "A4");
    assert_eq!(midi_note_name(127), "G9");
    assert_eq!(midi_note_name(0), "C-1");
    assert_eq!(midi_note_name(11), "B-1");
    assert_eq!(midi_note_name(-12), "C-2");
}

#[test]
fn triggers_cycle_through_the_pattern() {
    let mut state = AppState::new(7);
    let mut heard = Vec::new();
    for _ in 0..6 {
        let note = state.handle_message(&trigger()).unwrap();
        heard.push(note.pitch);
        assert_eq!(note.output_address, "/midi/play");
        assert_eq!((note.channel, note.velocity), (0, 100));
    }
    assert_eq!(heard, vec![60, 64, 67, 72, 60, 64]);
    assert_eq!(state.last_pitch, Some(64));
    assert_eq!(state.current_index, 2);
}

#[test]
fn only_events_at_the_trigger_address_count() {
    let mut state = AppState::new(7);
    let zero = FloatValue::zero();
    let param = action("/demo/euclid/trigger", SignalType::Param, zero, Value::Null);
    let other = action("/demo/euclid/bpm", SignalType::Event, zero, Value::Null);
    for msg in [param, other, unset_param("/demo/euclid/trigger"), WireMessage::new("x", Value::Null)] {
        assert!(state.handle_message(&msg).is_none());
    }
    assert_eq!(state.current_index, 0);
    state.pattern.clear();
    assert!(state.handle_message(&trigger()).is_none());
    assert_eq!(state.advance_pattern(), None);
}

#[test]
fn a_note_is_sent_as_a_tuple() {
    let mut state = AppState::new(7);
    let note = state.handle_message(&trigger()).unwrap();
    assert_eq!(
        fields(&note.message(FloatValue::zero())),
        (
            "/midi/play".to_string(),
            "event".to_string(),
            Value::Tuple(vec![
                Value::Integer(0),
                Value::Integer(60),
                Value::Integer(100),
                Value::Float(FloatValue::new(0.2f64.to_bits())),
            ])
        )
    );
}

#[test]
fn the_cycler_is_published() {
    let sent: Vec<(String, String, Value)> =
        AppState::new(7).publish_params().iter().map(fields).collect();
    let param = |address: &str, v: Value| (address.to_string(), "param".to_string(), v);
    assert_eq!(
        sent,
        vec![
            param(
                "/demo/pitch/pattern",
                Value::List([60, 64, 67, 72].iter().map(|n| Value::Integer(*n)).collect())
            ),
            param("/demo/pitch/trigger", Value::String("/demo/euclid/trigger".into())),
            param("/demo/pitch/output", Value::String("/midi/play".into())),
            param("/demo/pitch/channel", Value::Integer(0)),
            param("/demo/pitch/velocity", Value::Integer(100)),
            param(
                "/demo/pitch/duration",
                Value::Float(FloatValue::new(0.2f64.to_bits()))
            ),
        ]
    );
}

#[test]
fn keys_edit_the_pattern() {
    let mut state = AppState::new(7);
    // The pitch before the first one is the last one.
    assert_eq!(state.handle_input(KeyCode::Left), KeyEffect::Publish);
    assert_eq!(state.pattern, vec![60, 64, 67]);
    state.handle_input(KeyCode::Right);
    assert_eq!(state.pattern, vec![61, 60, 64, 67]);
    state.handle_input(KeyCode::Up);
    assert_eq!(state.pattern[0], 62);
    state.handle_input(KeyCode::Down);
    assert_eq!(state.pattern[0], 61);
    for _ in 0..4 {
        state.handle_input(KeyCode::Left);
    }
    assert!(state.pattern.is_empty());
    assert_eq!(state.handle_input(KeyCode::Left), KeyEffect::Nothing);
    assert_eq!(state.handle_input(KeyCode::Up), KeyEffect::Nothing);
    state.handle_input(KeyCode::Right);
    assert_eq!(state.pattern, vec![60]);
    state.pattern[0] = 127;
    state.handle_input(KeyCode::Up);
    assert_eq!(state.pattern, vec![127]);
    state.pattern[0] = 0;
    state.handle_input(KeyCode::Down);
    assert_eq!(state.pattern, vec![0]);
}

#[test]
fn the_index_stays_in_the_pattern() {
    let mut state = AppState::new(7);
    for _ in 0..3 {
        state.advance_pattern();
    }
    assert_eq!(state.current_index, 3);
    state.handle_input(KeyCode::Left);
    assert_eq!(state.pattern, vec![60, 64, 72]);
    assert_eq!(state.current_index, 0);
}

#[test]
fn channel_and_velocity_stay_in_range() {
    let mut state = AppState::new(7);
    state.handle_input(KeyCode::Char('c'));
    assert_eq!(state.channel, 0);
    for _ in 0..20 {
        state.handle_input(KeyCode::Char('C'));
        state.handle_input(KeyCode::Char('V'));
    }
    assert_eq!((state.channel, state.velocity), (15, 127));
    for _ in 0..20 {
        state.handle_input(KeyCode::Char('v'));
    }
    assert_eq!(state.velocity, 0);
    assert_eq!(
        state.handle_input(KeyCode::Char('D')),
        KeyEffect::ChangeDuration { up: true }
    );
    assert_eq!(
        state.handle_input(KeyCode::Char('d')),
        KeyEffect::ChangeDuration { up: false }
    );
    assert_eq!(state.handle_input(KeyCode::Char('Q')), KeyEffect::Nothing);
    assert!(state.should_quit);
}
