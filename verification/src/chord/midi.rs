//! The MIDI bridge of the Chord protocol.
use vstd::prelude::*;

use crate::chord::protocol::{Action, Payload, SignalType, Value};
use crate::midi::bridge;
use crate::midi::key_state;
use crate::midi::key_state::{KeyEvent, KeyStateStore, MidiBytes};
use crate::text;
use crate::values::FloatValue;

verus! {

/// The low byte of an integer value.
pub open spec fn low_byte(v: Value) -> Option<u8> {
    match v {
        Value::I32(n) => Some(n as u8),
        _ => None,
    }
}

/// The bits of a single-precision value.
pub open spec fn single_bits(v: Value) -> Option<u32> {
    match v {
        Value::F32(bits) => Some(bits),
        _ => None,
    }
}

/// Channel, note, velocity and the bits of the duration of a play payload.
pub open spec fn play_fields(payload: Payload) -> Option<(u8, u8, u8, u32)> {
    match payload {
        Payload::Tuple(values) => if values@.len() >= 4 {
            match (
                low_byte(values@[0]),
                low_byte(values@[1]),
                low_byte(values@[2]),
                single_bits(values@[3]),
            ) {
                (Some(channel), Some(note), Some(velocity), Some(duration)) => Some(
                    (channel, note, velocity, duration),
                ),
                _ => None,
            }
        } else {
            None
        },
        _ => None,
    }
}

/// Channel and note of a cancel payload.
pub open spec fn cancel_fields(payload: Payload) -> Option<(u8, u8)> {
    match payload {
        Payload::Tuple(values) => if values@.len() >= 2 {
            match (low_byte(values@[0]), low_byte(values@[1])) {
                (Some(channel), Some(note)) => Some((channel, note)),
                _ => None,
            }
        } else {
            None
        },
        _ => None,
    }
}

/// Channel, controller and value of a control change payload.
pub open spec fn cc_fields(payload: Payload) -> Option<(u8, u8, u8)> {
    match payload {
        Payload::Tuple(values) => if values@.len() >= 3 {
            match (low_byte(values@[0]), low_byte(values@[1]), low_byte(values@[2])) {
                (Some(channel), Some(cc), Some(value)) => Some((channel, cc, value)),
                _ => None,
            }
        } else {
            None
        },
        _ => None,
    }
}

fn byte_of(v: &Value) -> (r: Option<u8>)
    ensures
        r == low_byte(*v),
{
    match v {
        Value::I32(n) => Some(#[verifier::truncate] (*n as u8)),
        _ => None,
    }
}

/// Reads channel, note, velocity and the bits of the duration.
pub fn parse_play_payload(payload: &Payload) -> (r: Option<(u8, u8, u8, u32)>)
    ensures
        r == play_fields(*payload),
{
    match payload {
        Payload::Tuple(values) => {
            if values.len() < 4 {
                return None;
            }
            let duration: Option<u32> = match &values[3] {
                Value::F32(bits) => Some(*bits),
                _ => None,
            };
            match (byte_of(&values[0]), byte_of(&values[1]), byte_of(&values[2]), duration) {
                (Some(channel), Some(note), Some(velocity), Some(bits)) => Some(
                    (channel, note, velocity, bits),
                ),
                _ => None,
            }
        },
        _ => None,
    }
}

/// Reads channel and note.
pub fn parse_cancel_payload(payload: &Payload) -> (r: Option<(u8, u8)>)
    ensures
        r == cancel_fields(*payload),
{
    match payload {
        Payload::Tuple(values) => {
            if values.len() < 2 {
                return None;
            }
            match (byte_of(&values[0]), byte_of(&values[1])) {
                (Some(channel), Some(note)) => Some((channel, note)),
                _ => None,
            }
        },
        _ => None,
    }
}

/// Reads channel, controller and value.
pub fn parse_cc_payload(payload: &Payload) -> (r: Option<(u8, u8, u8)>)
    ensures
        r == cc_fields(*payload),
{
    match payload {
        Payload::Tuple(values) => {
            if values.len() < 3 {
                return None;
            }
            match (byte_of(&values[0]), byte_of(&values[1]), byte_of(&values[2])) {
                (Some(channel), Some(cc), Some(value)) => Some((channel, cc, value)),
                _ => None,
            }
        },
        _ => None,
    }
}

/// What to do for an action.
#[derive(Debug)]
pub enum RouterOutcome {
    /// Send the note-on where there is one, and try the note-off with this event id
    /// after the duration.
    Play { bytes: Option<MidiBytes>, event_id: u32, channel: u8, note: u8, duration_bits: u32 },
    /// The pending note-off of the key is cancelled.
    Cancelled { channel: u8, note: u8 },
    /// Send the control change.
    ControlChange(MidiBytes),
    /// The payload does not fit the address.
    InvalidPayload,
    /// The address is unknown.
    Unhandled,
}

/// The key that an action bumps.
pub open spec fn bumped_key(action: Action) -> Option<(u8, u8)> {
    if action.address@ == "/midi/play"@ {
        match play_fields(action.payload) {
            Some((channel, note, velocity, duration)) => Some((channel, note)),
            None => None,
        }
    } else if action.address@ == "/midi/cancel"@ {
        cancel_fields(action.payload)
    } else {
        None
    }
}

/// Decides on an action, and keeps the key states current. The key of a play or a
/// cancel has to be one of the 16 channels and 128 notes.
pub fn route_action(action: &Action, store: &mut KeyStateStore) -> (r: RouterOutcome)
    requires
        bumped_key(*action) matches Some((channel, note)) ==> key_state::in_range(channel, note),
    ensures
        match bumped_key(*action) {
            Some((channel, note)) => {
                let key = old(store).state(channel, note);
                let id = key_state::next_event(key.event_counter);
                &&& final(store).same_elsewhere(old(store), channel, note)
                &&& if action.address@ == "/midi/play"@ {
                    let fields = play_fields(action.payload)->0;
                    &&& final(store).state(channel, note) == key_state::after_event(
                        key,
                        KeyEvent::Play,
                    )
                    &&& r matches RouterOutcome::Play {
                        bytes,
                        event_id,
                        channel: c,
                        note: n,
                        duration_bits,
                    }
                    &&& key_state::sends(
                        bytes,
                        !key.key_on,
                        key_state::NOTE_ON | channel,
                        note,
                        fields.2,
                    )
                    &&& event_id == id && c == channel && n == note && duration_bits == fields.3
                } else {
                    &&& r == (RouterOutcome::Cancelled { channel, note })
                    &&& final(store).state(channel, note) == key_state::after_event(
                        key,
                        KeyEvent::Cancel,
                    )
                }
            },
            None => {
                &&& forall|c: u8, n: u8|
                    key_state::in_range(c, n) ==> #[trigger] final(store).state(c, n) == old(
                        store,
                    ).state(c, n)
                &&& if action.address@ == "/midi/play"@ || action.address@ == "/midi/cancel"@ {
                    r is InvalidPayload
                } else if action.address@ == "/midi/cc"@ {
                    match cc_fields(action.payload) {
                        Some((channel, cc, value)) => r matches RouterOutcome::ControlChange(bytes)
                            && bytes.0@ == seq![0xB0u8 | channel, cc, value],
                        None => r is InvalidPayload,
                    }
                } else {
                    r is Unhandled
                }
            },
        },
        r matches RouterOutcome::ControlChange(bytes) ==> cc_fields(action.payload) matches Some(
            (channel, cc, value),
        ) && (channel < 16 ==> input_of(bytes.0@) == Some(
            ("/midi/in/cc"@, seq![channel, cc, value]),
        )),
        r matches RouterOutcome::Play { bytes: Some(bytes), .. } ==> play_fields(
            action.payload,
        ) matches Some((channel, note, velocity, duration)) && (velocity > 0 ==> input_of(bytes.0@)
            == Some(("/midi/in/note-on"@, seq![channel, note, velocity]))),
{
    proof {
        if let Some((channel, cc, value)) = cc_fields(action.payload) {
            if channel < 16 {
                bridge::law_control_change_status(channel);
                law_input_is_read(channel, cc, value, 0);
            }
        }
        if let Some((channel, note, velocity, duration)) = play_fields(action.payload) {
            if channel < 16 {
                key_state::law_status_bytes(channel);
                law_input_is_read(channel, note, velocity, 0);
            }
        }
        reveal_strlit("/midi/play");
        reveal_strlit("/midi/cancel");
        reveal_strlit("/midi/cc");
        assert("/midi/play"@.len() == 10 && "/midi/cancel"@.len() == 12 && "/midi/cc"@.len() == 8);
    }
    if text::same(action.address.as_str(), "/midi/play") {
        match parse_play_payload(&action.payload) {
            Some((channel, note, velocity, duration_bits)) => {
                let ghost first = *store;
                let event_id = store.bump(channel, note);
                let ghost bumped = *store;
                let bytes = store.play(event_id, channel, note, velocity);
                proof {
                    store.lemma_same_elsewhere(&bumped, &first, channel, note);
                }
                RouterOutcome::Play { bytes, event_id, channel, note, duration_bits }
            },
            None => RouterOutcome::InvalidPayload,
        }
    } else if text::same(action.address.as_str(), "/midi/cancel") {
        match parse_cancel_payload(&action.payload) {
            Some((channel, note)) => {
                store.bump(channel, note);
                RouterOutcome::Cancelled { channel, note }
            },
            None => RouterOutcome::InvalidPayload,
        }
    } else if text::same(action.address.as_str(), "/midi/cc") {
        match parse_cc_payload(&action.payload) {
            Some((channel, cc, value)) => {
                let bytes = [0xB0u8 | channel, cc, value];
                assert(bytes@ =~= seq![0xB0u8 | channel, cc, value]);
                RouterOutcome::ControlChange(MidiBytes(bytes))
            },
            None => RouterOutcome::InvalidPayload,
        }
    } else {
        RouterOutcome::Unhandled
    }
}

/// Whether an action is the immediate event at an address with the given numbers.
pub open spec fn is_input_event(a: Action, address: Seq<char>, numbers: Seq<u8>) -> bool {
    &&& a.address@ == address
    &&& a.signal_type == SignalType::Event
    &&& a.timestamp.bits == 0
    &&& a.payload matches Payload::Tuple(values)
    &&& values@.len() == numbers.len()
    &&& forall|i: int|
        0 <= i < numbers.len() ==> #[trigger] values@[i] == Value::I32(numbers[i] as i32)
}

fn event_of_two(address: &str, a: u8, b: u8) -> (r: Action)
    ensures
        is_input_event(r, address@, seq![a, b]),
{
    let mut values: Vec<Value> = Vec::new();
    values.push(Value::I32(a as i32));
    values.push(Value::I32(b as i32));
    Action {
        address: address.to_owned(),
        signal_type: SignalType::Event,
        timestamp: FloatValue::zero(),
        payload: Payload::Tuple(values),
    }
}

fn event_of_three(address: &str, a: u8, b: u8, c: u8) -> (r: Action)
    ensures
        is_input_event(r, address@, seq![a, b, c]),
{
    let mut values: Vec<Value> = Vec::new();
    values.push(Value::I32(a as i32));
    values.push(Value::I32(b as i32));
    values.push(Value::I32(c as i32));
    Action {
        address: address.to_owned(),
        signal_type: SignalType::Event,
        timestamp: FloatValue::zero(),
        payload: Payload::Tuple(values),
    }
}

/// The address and the numbers of the action for a message of the MIDI input.
pub open spec fn input_of(message: Seq<u8>) -> Option<(Seq<char>, Seq<u8>)> {
    if message.len() < 2 {
        None
    } else {
        let status = message[0] & 0xF0;
        let channel = message[0] & 0x0F;
        if status == 0x90 && message.len() >= 3 && message[2] > 0 {
            Some(("/midi/in/note-on"@, seq![channel, message[1], message[2]]))
        } else if status == 0x80 || status == 0x90 {
            Some(("/midi/in/note-off"@, seq![channel, message[1]]))
        } else if status == 0xB0 && message.len() >= 3 {
            Some(("/midi/in/cc"@, seq![channel, message[1], message[2]]))
        } else {
            None
        }
    }
}

/// The action for a message of the MIDI input: note-on, note-off (a note-on with
/// velocity zero is one) or control change; none for anything else.
pub fn decode_input(message: &[u8]) -> (r: Option<Action>)
    ensures
        match r {
            Some(a) => input_of(message@) matches Some((address, numbers)) && is_input_event(
                a,
                address,
                numbers,
            ),
            None => input_of(message@) is None,
        },
        message@.len() < 2 ==> r is None,
        message@.len() >= 2 ==> ({
            let status = message@[0] & 0xF0;
            let channel = message@[0] & 0x0F;
            if status == 0x90 && message@.len() >= 3 && message@[2] > 0 {
                r matches Some(a) && is_input_event(
                    a,
                    "/midi/in/note-on"@,
                    seq![channel, message@[1], message@[2]],
                )
            } else if status == 0x80 || status == 0x90 {
                r matches Some(a) && is_input_event(
                    a,
                    "/midi/in/note-off"@,
                    seq![channel, message@[1]],
                )
            } else if status == 0xB0 && message@.len() >= 3 {
                r matches Some(a) && is_input_event(
                    a,
                    "/midi/in/cc"@,
                    seq![channel, message@[1], message@[2]],
                )
            } else {
                r is None
            }
        }),
{
    if message.len() < 2 {
        return None;
    }
    let status: u8 = message[0] & 0xF0;
    let channel: u8 = message[0] & 0x0F;
    if status == 0x90 && message.len() >= 3 && message[2] > 0 {
        Some(event_of_three("/midi/in/note-on", channel, message[1], message[2]))
    } else if status == 0x80 || status == 0x90 {
        Some(event_of_two("/midi/in/note-off", channel, message[1]))
    } else if status == 0xB0 && message.len() >= 3 {
        Some(event_of_three("/midi/in/cc", channel, message[1], message[2]))
    } else {
        None
    }
}

/// Notes and control changes of each channel are read with their channel and their numbers;
/// a note-on without velocity ends the note, and other messages are none.
pub proof fn law_input_is_read(channel: u8, a: u8, b: u8, status: u8)
    requires
        channel < 16,
        status % 16 == 0,
        status != 0x80,
        status != 0x90,
        status != 0xB0,
    ensures
        b > 0 ==> input_of(seq![(0x90 + channel) as u8, a, b]) == Some(
            ("/midi/in/note-on"@, seq![channel, a, b]),
        ),
        input_of(seq![(0x90 + channel) as u8, a, 0]) == Some(
            ("/midi/in/note-off"@, seq![channel, a]),
        ),
        input_of(seq![(0x80 + channel) as u8, a, b]) == Some(
            ("/midi/in/note-off"@, seq![channel, a]),
        ),
        input_of(seq![(0x80 + channel) as u8, a]) == Some(("/midi/in/note-off"@, seq![channel, a])),
        input_of(seq![(0xB0 + channel) as u8, a, b]) == Some(
            ("/midi/in/cc"@, seq![channel, a, b]),
        ),
        input_of(seq![(0xB0 + channel) as u8, a]) is None,
        input_of(seq![(status + channel) as u8, a, b]) is None,
        input_of(seq![status]) is None,
{
    lemma_status_and_channel(0x90, channel);
    lemma_status_and_channel(0x80, channel);
    lemma_status_and_channel(0xB0, channel);
    lemma_status_and_channel(status, channel);
}

proof fn lemma_status_and_channel(status: u8, channel: u8)
    requires
        channel < 16,
        status % 16 == 0,
    ensures
        status + channel <= 255,
        ((status + channel) as u8) & 0xF0 == status,
        ((status + channel) as u8) & 0x0F == channel,
{
    let sum = (status + channel) as u8;
    assert(sum & 0xF0 == status && sum & 0x0F == channel) by (bit_vector)
        requires
            sum == status + channel,
            channel < 16,
            status % 16 == 0,
    ;
}

/// The numbers of a payload are read in order: channel, note, velocity and duration of a
/// play, channel and note of a cancel, channel, controller and value of a control change.
pub proof fn law_payload_is_read_in_order(
    payload: Payload,
    values: Seq<Value>,
    a: u8,
    b: u8,
    c: u8,
    duration: u32,
)
    requires
        payload matches Payload::Tuple(v) && v@ == values,
    ensures
        values.len() >= 4 && values[0] == Value::I32(a as i32) && values[1] == Value::I32(b as i32)
            && values[2] == Value::I32(c as i32) && values[3] == Value::F32(duration)
            ==> play_fields(payload) == Some((a, b, c, duration)),
        values.len() >= 3 && values[0] == Value::I32(a as i32) && values[1] == Value::I32(b as i32)
            && values[2] == Value::I32(c as i32) ==> cc_fields(payload) == Some((a, b, c)),
        values.len() >= 2 && values[0] == Value::I32(a as i32) && values[1] == Value::I32(b as i32)
            ==> cancel_fields(payload) == Some((a, b)),
        values.len() < 4 ==> play_fields(payload) is None,
        values.len() < 3 ==> cc_fields(payload) is None,
        values.len() < 2 ==> cancel_fields(payload) is None,
{
}

/// A play and a cancel of a key bump that key, whatever else the play asks for; no other
/// address bumps a key.
pub proof fn law_key_of_an_action(
    play: Action,
    cancel: Action,
    channel: u8,
    note: u8,
    velocity: u8,
    duration: u32,
)
    requires
        play.address@ == "/midi/play"@,
        cancel.address@ == "/midi/cancel"@,
        play.payload matches Payload::Tuple(v) && v@ == seq![
            Value::I32(channel as i32),
            Value::I32(note as i32),
            Value::I32(velocity as i32),
            Value::F32(duration),
        ],
        cancel.payload matches Payload::Tuple(v) && v@ == seq![
            Value::I32(channel as i32),
            Value::I32(note as i32),
        ],
    ensures
        bumped_key(play) == Some((channel, note)),
        bumped_key(cancel) == Some((channel, note)),
        forall|address: String|
            address@ != "/midi/play"@ && address@ != "/midi/cancel"@ ==> #[trigger] bumped_key(
                Action { address, ..play },
            ) is None,
{
    reveal_strlit("/midi/play");
    reveal_strlit("/midi/cancel");
    assert("/midi/play"@.len() == 10 && "/midi/cancel"@.len() == 12);
    law_payload_is_read_in_order(
        play.payload,
        play.payload->Tuple_0@,
        channel,
        note,
        velocity,
        duration,
    );
    law_payload_is_read_in_order(
        cancel.payload,
        cancel.payload->Tuple_0@,
        channel,
        note,
        velocity,
        duration,
    );
}

/// The action for a MIDI message is immediate, and its numbers are read from its payload
/// as they were received.
pub proof fn law_received_numbers_are_read(a: Action, address: Seq<char>, x: u8, y: u8, z: u8)
    ensures
        is_input_event(a, address, seq![x, y, z]) ==> {
            &&& a.address@ == address
            &&& a.signal_type == SignalType::Event
            &&& a.timestamp == (FloatValue { bits: 0 })
            &&& cc_fields(a.payload) == Some((x, y, z))
        },
        is_input_event(a, address, seq![x, y]) ==> {
            &&& a.address@ == address
            &&& a.signal_type == SignalType::Event
            &&& a.timestamp == (FloatValue { bits: 0 })
            &&& cancel_fields(a.payload) == Some((x, y))
            &&& cc_fields(a.payload) is None
        },
{
    match a.payload {
        Payload::Tuple(values) => {
            if is_input_event(a, address, seq![x, y, z]) {
                assert(values@[0] == Value::I32(x as i32));
                assert(values@[1] == Value::I32(y as i32));
                assert(values@[2] == Value::I32(z as i32));
                law_payload_is_read_in_order(a.payload, values@, x, y, z, 0);
            }
            if is_input_event(a, address, seq![x, y]) {
                assert(values@[0] == Value::I32(x as i32));
                assert(values@[1] == Value::I32(y as i32));
                law_payload_is_read_in_order(a.payload, values@, x, y, z, 0);
            }
        },
        _ => {},
    }
}

} // verus!
