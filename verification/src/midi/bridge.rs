//! Actions to MIDI and MIDI to actions.
//!
//! All payloads are checked when they are read (channel 0 to 15; note,
//! controller and value 0 to 127; finite durations that are not negative), so
//! that no action can corrupt the MIDI stream.
use vstd::prelude::*;

use crate::midi::key_state;
use crate::midi::key_state::{KeyEvent, KeyStateStore, MidiBytes};
use crate::protocol;
use crate::protocol::{MessageModel, SignalType, WireMessage};
use crate::text;
use crate::values;
use crate::values::{FloatValue, Value, ValueModel};

verus! {

// ---------------------------------------------------------------------------
// Payloads
// ---------------------------------------------------------------------------

/// The integer that a value is, where it is one of at most `max` and not
/// negative.
pub open spec fn small_number(v: ValueModel, max: int) -> Option<u8> {
    match v {
        ValueModel::Integer(n) => if 0 <= n <= max {
            Some(n as u8)
        } else {
            None
        },
        _ => None,
    }
}

/// Whether the bits are those of a finite double that is not negative; the
/// negative zero is not negative.
pub open spec fn is_duration(f: FloatValue) -> bool {
    f.bits < 0x7FF0_0000_0000_0000 || f.bits == 0x8000_0000_0000_0000
}

/// The duration that a value is.
pub open spec fn duration_in(v: ValueModel) -> Option<FloatValue> {
    match v {
        ValueModel::Float(f) => if is_duration(f) {
            Some(f)
        } else {
            None
        },
        _ => None,
    }
}

/// The items of a tuple of at least `n` values.
pub open spec fn tuple_items(v: ValueModel, n: nat) -> Option<Seq<ValueModel>> {
    match v {
        ValueModel::Tuple(items) => if items.len() >= n {
            Some(items)
        } else {
            None
        },
        _ => None,
    }
}

/// Reads a MIDI channel. What is out of range is rejected, not truncated: it would
/// make another message of the status byte.
pub fn parse_channel(value: &Value) -> (r: Option<u8>)
    ensures
        r == small_number(value@, 15),
{
    match value {
        Value::Integer(v) => if 0 <= *v && *v <= 15 {
            Some(*v as u8)
        } else {
            None
        },
        _ => None,
    }
}

/// Reads a 7-bit MIDI data byte.
pub fn parse_data_byte(value: &Value) -> (r: Option<u8>)
    ensures
        r == small_number(value@, 127),
{
    match value {
        Value::Integer(v) => if 0 <= *v && *v <= 127 {
            Some(*v as u8)
        } else {
            None
        },
        _ => None,
    }
}

/// Reads a duration in seconds.
pub fn parse_duration(value: &Value) -> (r: Option<FloatValue>)
    ensures
        r == duration_in(value@),
{
    match value {
        Value::Float(f) => if f.bits < 0x7FF0_0000_0000_0000 || f.bits == 0x8000_0000_0000_0000 {
            Some(*f)
        } else {
            None
        },
        _ => None,
    }
}

/// Channel, note, velocity and duration of a play payload.
pub open spec fn play_fields(v: ValueModel) -> Option<(u8, u8, u8, FloatValue)> {
    match tuple_items(v, 4) {
        None => None,
        Some(items) => match (
            small_number(items[0], 15),
            small_number(items[1], 127),
            small_number(items[2], 127),
            duration_in(items[3]),
        ) {
            (Some(channel), Some(note), Some(velocity), Some(duration)) => Some(
                (channel, note, velocity, duration),
            ),
            _ => None,
        },
    }
}

/// Channel and note of a cancel payload.
pub open spec fn cancel_fields(v: ValueModel) -> Option<(u8, u8)> {
    match tuple_items(v, 2) {
        None => None,
        Some(items) => match (small_number(items[0], 15), small_number(items[1], 127)) {
            (Some(channel), Some(note)) => Some((channel, note)),
            _ => None,
        },
    }
}

/// Channel, controller and value of a control change payload.
pub open spec fn cc_fields(v: ValueModel) -> Option<(u8, u8, u8)> {
    match tuple_items(v, 3) {
        None => None,
        Some(items) => match (
            small_number(items[0], 15),
            small_number(items[1], 127),
            small_number(items[2], 127),
        ) {
            (Some(channel), Some(cc), Some(value)) => Some((channel, cc, value)),
            _ => None,
        },
    }
}

/// Reads channel, note, velocity and duration.
pub fn parse_play_payload(payload: &Value) -> (r: Option<(u8, u8, u8, FloatValue)>)
    ensures
        r == play_fields(payload@),
{
    match payload {
        Value::Tuple(items) => {
            assert(items@.len() == values::models(items@).len());
            if items.len() < 4 {
                return None;
            }
            match (
                parse_channel(&items[0]),
                parse_data_byte(&items[1]),
                parse_data_byte(&items[2]),
                parse_duration(&items[3]),
            ) {
                (Some(channel), Some(note), Some(velocity), Some(duration)) => Some(
                    (channel, note, velocity, duration),
                ),
                _ => None,
            }
        },
        _ => None,
    }
}

/// Reads channel and note.
pub fn parse_cancel_payload(payload: &Value) -> (r: Option<(u8, u8)>)
    ensures
        r == cancel_fields(payload@),
{
    match payload {
        Value::Tuple(items) => {
            assert(items@.len() == values::models(items@).len());
            if items.len() < 2 {
                return None;
            }
            match (parse_channel(&items[0]), parse_data_byte(&items[1])) {
                (Some(channel), Some(note)) => Some((channel, note)),
                _ => None,
            }
        },
        _ => None,
    }
}

/// Reads channel, controller and value.
pub fn parse_cc_payload(payload: &Value) -> (r: Option<(u8, u8, u8)>)
    ensures
        r == cc_fields(payload@),
{
    match payload {
        Value::Tuple(items) => {
            assert(items@.len() == values::models(items@).len());
            if items.len() < 3 {
                return None;
            }
            match (
                parse_channel(&items[0]),
                parse_data_byte(&items[1]),
                parse_data_byte(&items[2]),
            ) {
                (Some(channel), Some(cc), Some(value)) => Some((channel, cc, value)),
                _ => None,
            }
        },
        _ => None,
    }
}

// ---------------------------------------------------------------------------
// Actions to MIDI
// ---------------------------------------------------------------------------

/// What to do for an action of the hub.
#[derive(Debug)]
pub enum RouterOutcome {
    /// The message has no fields: nothing.
    Skipped,
    /// Send the note-on where there is one, and try the note-off with this event id
    /// after the duration.
    NoteOn { bytes: Option<MidiBytes>, event_id: u32, channel: u8, note: u8, duration: FloatValue },
    /// The pending note-off of the key is cancelled.
    Cancelled { channel: u8, note: u8 },
    /// Send the control change.
    ControlChange(MidiBytes),
    /// The payload does not fit the address.
    InvalidPayload,
    /// The address is unknown.
    Unhandled,
}

/// What an action asks for.
pub enum MidiRequest {
    Skip,
    Play(u8, u8, u8, FloatValue),
    Cancel(u8, u8),
    ControlChange(u8, u8, u8),
    Invalid,
    Unhandled,
}

/// What an action of the hub asks for.
pub open spec fn request(m: MessageModel) -> MidiRequest {
    if !(m.payload is Dict) {
        MidiRequest::Skip
    } else if protocol::action_address(m) == "/midi/play"@ {
        match play_fields(protocol::action_payload(m)) {
            Some((channel, note, velocity, duration)) => MidiRequest::Play(
                channel,
                note,
                velocity,
                duration,
            ),
            None => MidiRequest::Invalid,
        }
    } else if protocol::action_address(m) == "/midi/cancel"@ {
        match cancel_fields(protocol::action_payload(m)) {
            Some((channel, note)) => MidiRequest::Cancel(channel, note),
            None => MidiRequest::Invalid,
        }
    } else if protocol::action_address(m) == "/midi/cc"@ {
        match cc_fields(protocol::action_payload(m)) {
            Some((channel, cc, value)) => MidiRequest::ControlChange(channel, cc, value),
            None => MidiRequest::Invalid,
        }
    } else {
        MidiRequest::Unhandled
    }
}

/// Whether two stores agree on every key.
pub open spec fn same_keys(a: &KeyStateStore, b: &KeyStateStore) -> bool {
    forall|c: u8, n: u8| key_state::in_range(c, n) ==> #[trigger] a.state(c, n) == b.state(c, n)
}

/// Decides on an action of the hub, and keeps the key states current. A play
/// bumps the counter of its key, which drops a pending note-off, starts the note
/// unless the key is sounding, and has its own note-off after its duration.
pub fn route_action(msg: &WireMessage, store: &mut KeyStateStore) -> (r: RouterOutcome)
    ensures
        match request(msg@) {
            MidiRequest::Skip => r is Skipped && same_keys(final(store), old(store)),
            MidiRequest::Invalid => r is InvalidPayload && same_keys(final(store), old(store)),
            MidiRequest::Unhandled => r is Unhandled && same_keys(final(store), old(store)),
            MidiRequest::Play(channel, note, velocity, duration) => {
                let key = old(store).state(channel, note);
                let id = key_state::next_event(key.event_counter);
                &&& key_state::in_range(channel, note)
                &&& final(store).same_elsewhere(old(store), channel, note)
                &&& final(store).state(channel, note) == key_state::after_event(
                    key,
                    KeyEvent::Play,
                )
                &&& r matches RouterOutcome::NoteOn {
                    bytes,
                    event_id,
                    channel: c,
                    note: n,
                    duration: d,
                }
                &&& key_state::sends(
                    bytes,
                    !key.key_on,
                    key_state::NOTE_ON | channel,
                    note,
                    velocity,
                )
                &&& event_id == id && c == channel && n == note && d == duration
            },
            MidiRequest::Cancel(channel, note) => {
                let key = old(store).state(channel, note);
                &&& key_state::in_range(channel, note)
                &&& r == (RouterOutcome::Cancelled { channel, note })
                &&& final(store).same_elsewhere(old(store), channel, note)
                &&& final(store).state(channel, note) == key_state::after_event(
                    key,
                    KeyEvent::Cancel,
                )
            },
            MidiRequest::ControlChange(channel, cc, value) => {
                &&& r matches RouterOutcome::ControlChange(bytes)
                &&& bytes.0@ == seq![0xB0u8 | channel, cc, value]
                &&& same_keys(final(store), old(store))
            },
        },
        r matches RouterOutcome::ControlChange(bytes) ==> request(msg@) matches
            MidiRequest::ControlChange(channel, cc, value) && input_action(bytes.0@) == Some(
            input_event("/midi/in/cc"@, seq![channel, cc, value]),
        ),
        r matches RouterOutcome::NoteOn { bytes: Some(bytes), .. } ==> request(msg@) matches
            MidiRequest::Play(channel, note, velocity, duration) && (velocity > 0 ==> input_action(
            bytes.0@,
        ) == Some(input_event("/midi/in/note-on"@, seq![channel, note, velocity]))),
{
    proof {
        match request(msg@) {
            MidiRequest::ControlChange(channel, cc, value) => {
                law_control_change_reads_back(channel, cc, value);
            },
            MidiRequest::Play(channel, note, velocity, duration) => {
                if velocity > 0 {
                    law_note_on_reads_back(channel, note, velocity);
                }
            },
            _ => {},
        }
    }
    let map = match &msg.payload {
        Value::Dict(m) => m,
        _ => {
            return RouterOutcome::Skipped;
        },
    };
    let address = match protocol::get_string(map, "address") {
        Some(a) => a,
        None => String::new(),
    };
    let payload = match protocol::get_value(map, "payload") {
        Some(v) => v,
        None => Value::Null,
    };
    if text::same(address.as_str(), "/midi/play") {
        match parse_play_payload(&payload) {
            Some((channel, note, velocity, duration)) => {
                let ghost first = *store;
                let event_id = store.bump(channel, note);
                let ghost bumped = *store;
                let bytes = store.play(event_id, channel, note, velocity);
                proof {
                    store.lemma_same_elsewhere(&bumped, &first, channel, note);
                }
                RouterOutcome::NoteOn { bytes, event_id, channel, note, duration }
            },
            None => RouterOutcome::InvalidPayload,
        }
    } else if text::same(address.as_str(), "/midi/cancel") {
        match parse_cancel_payload(&payload) {
            Some((channel, note)) => {
                store.bump(channel, note);
                RouterOutcome::Cancelled { channel, note }
            },
            None => RouterOutcome::InvalidPayload,
        }
    } else if text::same(address.as_str(), "/midi/cc") {
        match parse_cc_payload(&payload) {
            Some((channel, cc, value)) => {
                let bytes = [0xB0u8 | channel, cc, value];
                assert(bytes@ =~= seq![0xB0u8 | channel, cc, value]);
                RouterOutcome::ControlChange(MidiBytes(bytes))
            },
            None => RouterOutcome::InvalidPayload,
        }
    } else {
        RouterOutcome::Unhandled
    }
}

// ---------------------------------------------------------------------------
// MIDI to actions
// ---------------------------------------------------------------------------

/// The tuple of the given numbers.
pub open spec fn number_tuple(s: Seq<u8>) -> ValueModel {
    ValueModel::Tuple(s.map_values(|b: u8| ValueModel::Integer(b as i64)))
}

/// The action for an event of the MIDI input; it is immediate.
pub open spec fn input_event(address: Seq<char>, numbers: Seq<u8>) -> MessageModel {
    protocol::action_message(
        address,
        SignalType::Event,
        FloatValue { bits: 0 },
        number_tuple(numbers),
    )
}

/// The action that stands for a message of the MIDI input: note-on, note-off (a
/// note-on with velocity zero is one) or control change. Anything else, and what
/// is too short, stands for nothing.
pub open spec fn input_action(message: Seq<u8>) -> Option<MessageModel> {
    if message.len() < 2 {
        None
    } else {
        let status = message[0] & 0xF0;
        let channel = message[0] & 0x0F;
        if status == 0x90 && message.len() >= 3 && message[2] > 0 {
            Some(input_event("/midi/in/note-on"@, seq![channel, message[1], message[2]]))
        } else if status == 0x80 || status == 0x90 {
            Some(input_event("/midi/in/note-off"@, seq![channel, message[1]]))
        } else if status == 0xB0 && message.len() >= 3 {
            Some(input_event("/midi/in/cc"@, seq![channel, message[1], message[2]]))
        } else {
            None
        }
    }
}

fn number(b: u8) -> (r: Value)
    ensures
        r@ == ValueModel::Integer(b as i64),
{
    Value::Integer(b as i64)
}

fn event_of_two(address: &str, a: u8, b: u8) -> (r: WireMessage)
    ensures
        r@ == input_event(address@, seq![a, b]),
{
    let mut items: Vec<Value> = Vec::new();
    items.push(number(a));
    items.push(number(b));
    assert(values::models(items@) =~= seq![a, b].map_values(
        |b: u8| ValueModel::Integer(b as i64),
    ));
    protocol::action(address, SignalType::Event, FloatValue::zero(), Value::Tuple(items))
}

fn event_of_three(address: &str, a: u8, b: u8, c: u8) -> (r: WireMessage)
    ensures
        r@ == input_event(address@, seq![a, b, c]),
{
    let mut items: Vec<Value> = Vec::new();
    items.push(number(a));
    items.push(number(b));
    items.push(number(c));
    assert(values::models(items@) =~= seq![a, b, c].map_values(
        |b: u8| ValueModel::Integer(b as i64),
    ));
    protocol::action(address, SignalType::Event, FloatValue::zero(), Value::Tuple(items))
}

/// The action for a message of the MIDI input.
pub fn decode_input(message: &[u8]) -> (r: Option<WireMessage>)
    ensures
        match r {
            Some(m) => input_action(message@) == Some(m@),
            None => input_action(message@) is None,
        },
{
    if message.len() < 2 {
        return None;
    }
    let status: u8 = message[0] & 0xF0;
    let channel: u8 = message[0] & 0x0F;
    if status == 0x90 && message.len() >= 3 && message[2] > 0 {
        Some(event_of_three("/midi/in/note-on", channel, message[1], message[2]))
    } else if status == 0x80 || status == 0x90 {
        Some(event_of_two("/midi/in/note-off", channel, message[1]))
    } else if status == 0xB0 && message.len() >= 3 {
        Some(event_of_three("/midi/in/cc", channel, message[1], message[2]))
    } else {
        None
    }
}

// ---------------------------------------------------------------------------
// Laws
// ---------------------------------------------------------------------------

/// Whatever a payload holds, what is read from it are MIDI numbers.
pub proof fn law_payloads_are_in_range(v: ValueModel)
    ensures
        play_fields(v) matches Some((channel, note, velocity, duration)) ==> channel < 16 && note
            < 128 && velocity < 128 && is_duration(duration),
        cancel_fields(v) matches Some((channel, note)) ==> channel < 16 && note < 128,
        cc_fields(v) matches Some((channel, cc, value)) ==> channel < 16 && cc < 128 && value < 128,
{
}

/// The messages that are sent are well-formed MIDI: a status byte of the right
/// kind and channel.
pub proof fn law_control_change_status(channel: u8)
    requires
        channel < 16,
    ensures
        (0xB0u8 | channel) == 0xB0 + channel,
{
    assert(channel < 16 ==> (0xB0u8 | channel) == 0xB0 + channel) by (bit_vector);
}

/// A note-on message is read back by the input as a note-on event of the same
/// channel, note and velocity, unless its velocity is zero.
pub proof fn law_note_on_reads_back(channel: u8, note: u8, velocity: u8)
    requires
        channel < 16,
        velocity > 0,
    ensures
        input_action(seq![key_state::NOTE_ON | channel, note, velocity]) == Some(
            input_event("/midi/in/note-on"@, seq![channel, note, velocity]),
        ),
{
    assert(channel < 16 ==> ((0x90u8 | channel) & 0xF0) == 0x90) by (bit_vector);
    assert(channel < 16 ==> ((0x90u8 | channel) & 0x0F) == channel) by (bit_vector);
}

/// A note-off message is read back by the input as a note-off event of the same
/// channel and note.
pub proof fn law_note_off_reads_back(channel: u8, note: u8)
    requires
        channel < 16,
    ensures
        input_action(seq![key_state::NOTE_OFF | channel, note, 0u8]) == Some(
            input_event("/midi/in/note-off"@, seq![channel, note]),
        ),
{
    assert(channel < 16 ==> ((0x80u8 | channel) & 0xF0) == 0x80) by (bit_vector);
    assert(channel < 16 ==> ((0x80u8 | channel) & 0x0F) == channel) by (bit_vector);
}

/// A control change is read back by the input as a control change event of the same
/// channel, controller and value.
pub proof fn law_control_change_reads_back(channel: u8, cc: u8, value: u8)
    requires
        channel < 16,
    ensures
        input_action(seq![0xB0u8 | channel, cc, value]) == Some(
            input_event("/midi/in/cc"@, seq![channel, cc, value]),
        ),
{
    assert(channel < 16 ==> ((0xB0u8 | channel) & 0xF0) == 0xB0) by (bit_vector);
    assert(channel < 16 ==> ((0xB0u8 | channel) & 0x0F) == channel) by (bit_vector);
}

/// The numbers of a payload are read in order, and accepted exactly if each is in its
/// range: channel, note, velocity and duration of a play, channel and note of a cancel,
/// channel, controller and value of a control change. What follows them does not matter.
pub proof fn law_payload_is_read_in_order(
    a: i64,
    b: i64,
    c: i64,
    duration: FloatValue,
    more: Seq<ValueModel>,
)
    ensures
        ({
            let numbers = seq![
                ValueModel::Integer(a),
                ValueModel::Integer(b),
                ValueModel::Integer(c),
            ];
            let play = ValueModel::Tuple(numbers.push(ValueModel::Float(duration)) + more);
            let cc = ValueModel::Tuple(numbers + more);
            let cancel = ValueModel::Tuple(numbers.take(2) + more);
            &&& play_fields(play) == (if 0 <= a < 16 && 0 <= b < 128 && 0 <= c < 128
                && is_duration(duration) {
                Some((a as u8, b as u8, c as u8, duration))
            } else {
                None
            })
            &&& cc_fields(cc) == (if 0 <= a < 16 && 0 <= b < 128 && 0 <= c < 128 {
                Some((a as u8, b as u8, c as u8))
            } else {
                None
            })
            &&& cancel_fields(cancel) == (if 0 <= a < 16 && 0 <= b < 128 {
                Some((a as u8, b as u8))
            } else {
                None
            })
        }),
{
    let numbers = seq![ValueModel::Integer(a), ValueModel::Integer(b), ValueModel::Integer(c)];
    let play = numbers.push(ValueModel::Float(duration)) + more;
    assert(play[0] == numbers[0] && play[1] == numbers[1] && play[2] == numbers[2]);
    let cc = numbers + more;
    assert(cc[0] == numbers[0] && cc[1] == numbers[1] && cc[2] == numbers[2]);
    let cancel = numbers.take(2) + more;
    assert(cancel[0] == numbers[0] && cancel[1] == numbers[1]);
}

/// A payload that is no tuple, or has too few items, is refused.
pub proof fn law_short_payloads_are_refused(items: Seq<ValueModel>, v: ValueModel)
    requires
        !(v is Tuple),
    ensures
        items.len() < 4 ==> play_fields(ValueModel::Tuple(items)) is None,
        items.len() < 3 ==> cc_fields(ValueModel::Tuple(items)) is None,
        items.len() < 2 ==> cancel_fields(ValueModel::Tuple(items)) is None,
        play_fields(v) is None,
        cc_fields(v) is None,
        cancel_fields(v) is None,
{
}

/// Of the doubles, those are durations that are finite and not negative: zero of either
/// sign, and the positive ones below infinity.
pub proof fn law_durations(bits: u64)
    ensures
        bits <= 0x7FEF_FFFF_FFFF_FFFF <==> is_duration(FloatValue { bits }) && bits
            != 0x8000_0000_0000_0000,
        is_duration(FloatValue { bits: 0x8000_0000_0000_0000 }),
{
}

/// An action at one of the three addresses asks for what its payload holds; at any other
/// address for nothing.
pub proof fn law_actions_ask_for_their_payload(
    address: Seq<char>,
    timestamp: FloatValue,
    payload: ValueModel,
)
    ensures
        ({
            let asked = request(
                protocol::action_message(address, SignalType::Event, timestamp, payload),
            );
            &&& address == "/midi/play"@ ==> match play_fields(payload) {
                Some((c, n, v, d)) => asked == MidiRequest::Play(c, n, v, d),
                None => asked is Invalid,
            }
            &&& address == "/midi/cancel"@ ==> match cancel_fields(payload) {
                Some((c, n)) => asked == MidiRequest::Cancel(c, n),
                None => asked is Invalid,
            }
            &&& address == "/midi/cc"@ ==> match cc_fields(payload) {
                Some((c, n, v)) => asked == MidiRequest::ControlChange(c, n, v),
                None => asked is Invalid,
            }
            &&& address != "/midi/play"@ && address != "/midi/cancel"@ && address != "/midi/cc"@
                ==> asked is Unhandled
        }),
{
    protocol::law_action_reads_back(address, SignalType::Event, timestamp, payload);
    reveal_strlit("/midi/play");
    reveal_strlit("/midi/cancel");
    reveal_strlit("/midi/cc");
    assert("/midi/play"@.len() == 10 && "/midi/cancel"@.len() == 12 && "/midi/cc"@.len() == 8);
}

/// What comes in can go out: the numbers of a control change that was received are those
/// of a control change to send, and the numbers of a note-off those of a cancel.
pub proof fn law_received_numbers_can_be_sent(channel: u8, a: u8, b: u8)
    requires
        channel < 16,
        a < 128,
        b < 128,
    ensures
        cc_fields(number_tuple(seq![channel, a, b])) == Some((channel, a, b)),
        cancel_fields(number_tuple(seq![channel, a])) == Some((channel, a)),
{
    let three = seq![channel, a, b].map_values(|b: u8| ValueModel::Integer(b as i64));
    assert(three[0] == ValueModel::Integer(channel as i64));
    assert(three[1] == ValueModel::Integer(a as i64));
    assert(three[2] == ValueModel::Integer(b as i64));
    let two = seq![channel, a].map_values(|b: u8| ValueModel::Integer(b as i64));
    assert(two[0] == ValueModel::Integer(channel as i64));
    assert(two[1] == ValueModel::Integer(a as i64));
}

/// A note-on without velocity is a note-off. A control change without a value, a message of
/// one byte and messages of other kinds stand for nothing.
pub proof fn law_other_input(channel: u8, note: u8, message: Seq<u8>)
    requires
        channel < 16,
    ensures
        input_action(seq![key_state::NOTE_ON | channel, note, 0u8]) == Some(
            input_event("/midi/in/note-off"@, seq![channel, note]),
        ),
        input_action(seq![0xB0u8 | channel, note]) is None,
        message.len() < 2 ==> input_action(message) is None,
        message.len() > 0 && message[0] < 0x80 ==> input_action(message) is None,
        message.len() > 0 && 0xA0 <= message[0] < 0xB0 ==> input_action(message) is None,
        message.len() > 0 && 0xC0 <= message[0] ==> input_action(message) is None,
{
    assert(channel < 16 ==> ((0x90u8 | channel) & 0xF0) == 0x90) by (bit_vector);
    assert(channel < 16 ==> ((0x90u8 | channel) & 0x0F) == channel) by (bit_vector);
    assert(channel < 16 ==> ((0xB0u8 | channel) & 0xF0) == 0xB0) by (bit_vector);
    if message.len() > 0 {
        let first = message[0];
        assert(first < 0x80 ==> (first & 0xF0) < 0x80) by (bit_vector);
        assert(0xA0 <= first < 0xB0 ==> (first & 0xF0) == 0xA0) by (bit_vector);
        assert(0xC0 <= first ==> (first & 0xF0) >= 0xC0) by (bit_vector);
    }
}

/// What a key sends is read back as what happened to it: a note-on with its channel, note
/// and velocity, a note-off with its channel and note. A key that does not fire sends
/// nothing.
pub proof fn law_key_sends_what_happened(r: Option<MidiBytes>, channel: u8, note: u8, velocity: u8)
    requires
        channel < 16,
        velocity > 0,
    ensures
        key_state::sends(r, true, key_state::NOTE_ON | channel, note, velocity) ==> (r matches Some(
            bytes,
        ) && input_action(bytes.0@) == Some(
            input_event("/midi/in/note-on"@, seq![channel, note, velocity]),
        )),
        key_state::sends(r, true, key_state::NOTE_OFF | channel, note, 0) ==> (r matches Some(bytes)
            && input_action(bytes.0@) == Some(
            input_event("/midi/in/note-off"@, seq![channel, note]),
        )),
        key_state::sends(r, false, key_state::NOTE_ON | channel, note, velocity) <==> r is None,
{
    law_note_on_reads_back(channel, note, velocity);
    law_note_off_reads_back(channel, note);
}

} // verus!
