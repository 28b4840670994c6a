//! Messages between bridges.
//!
//! They share the envelope and the encoding of the hub protocol, and have types
//! of their own.
use vstd::prelude::*;

use crate::bridge::ids;
use crate::bridge::mapping;
use crate::protocol;
use crate::protocol::{MessageModel, SignalType, VoiceId, WireMessage};
use crate::text;
use crate::values;
use crate::values::{FloatValue, Value, ValueModel};

verus! {

pub const MSG_BRIDGE_HELLO: &'static str = "bridge_hello";

pub const MSG_BRIDGE_SUBSCRIBE: &'static str = "bridge_subscribe";

pub const MSG_BRIDGE_ACTION: &'static str = "bridge_action";

pub const MSG_BRIDGE_UNSET: &'static str = "bridge_unset";

pub const MSG_BRIDGE_PING: &'static str = "bridge_ping";

pub const MSG_BRIDGE_PONG: &'static str = "bridge_pong";

// ---------------------------------------------------------------------------
// Builders
// ---------------------------------------------------------------------------

/// The `bridge_hello` message.
pub open spec fn bridge_hello_message(
    bridge_id: Seq<char>,
    name: Seq<char>,
    auth_token: Option<Seq<char>>,
) -> MessageModel {
    protocol::message_of(
        MSG_BRIDGE_HELLO@,
        values::with_text(
            Map::<Seq<char>, ValueModel>::empty().insert(
                "bridge_id"@,
                ValueModel::String(bridge_id),
            ).insert("name"@, ValueModel::String(name)),
            "auth_token"@,
            auth_token,
        ),
    )
}

/// Creates a bridge_hello message. A token is put in where there is one, so that
/// the peer can verify the shared secret.
pub fn bridge_hello(bridge_id: &str, name: &str, auth_token: Option<&str>) -> (r: WireMessage)
    ensures
        r@ == bridge_hello_message(bridge_id@, name@, mapping::opt_str(auth_token)),
{
    let mut m = values::new_map();
    values::set_field(&mut m, "bridge_id", Value::String(bridge_id.to_owned()));
    values::set_field(&mut m, "name", Value::String(name.to_owned()));
    if let Some(token) = auth_token {
        values::set_field(&mut m, "auth_token", Value::String(token.to_owned()));
    }
    WireMessage::new(MSG_BRIDGE_HELLO, Value::Dict(m))
}

/// The `bridge_subscribe` message.
pub open spec fn bridge_subscribe_message(pattern: Seq<char>) -> MessageModel {
    protocol::message_of(
        MSG_BRIDGE_SUBSCRIBE@,
        Map::<Seq<char>, ValueModel>::empty().insert("pattern"@, ValueModel::String(pattern)),
    )
}

/// Creates a bridge_subscribe message.
pub fn bridge_subscribe(pattern: &str) -> (r: WireMessage)
    ensures
        r@ == bridge_subscribe_message(pattern@),
{
    let mut m = values::new_map();
    values::set_field(&mut m, "pattern", Value::String(pattern.to_owned()));
    WireMessage::new(MSG_BRIDGE_SUBSCRIBE, Value::Dict(m))
}

/// The fields that every forwarded message has.
pub open spec fn forwarded_fields(
    origin: Seq<char>,
    msg_id: Seq<char>,
    source: VoiceId,
    address: Seq<char>,
) -> Map<Seq<char>, ValueModel> {
    Map::<Seq<char>, ValueModel>::empty().insert("origin"@, ValueModel::String(origin)).insert(
        "msg_id"@,
        ValueModel::String(msg_id),
    ).insert("source"@, ValueModel::Integer(source as i64)).insert(
        "address"@,
        ValueModel::String(address),
    )
}

/// The `bridge_action` message.
pub open spec fn bridge_action_message(
    origin: Seq<char>,
    msg_id: Seq<char>,
    source: VoiceId,
    address: Seq<char>,
    signal_type: SignalType,
    timestamp: FloatValue,
    payload: ValueModel,
) -> MessageModel {
    protocol::message_of(
        MSG_BRIDGE_ACTION@,
        forwarded_fields(origin, msg_id, source, address).insert(
            "signal_type"@,
            ValueModel::String(protocol::signal_text(signal_type)),
        ).insert("timestamp"@, ValueModel::Float(timestamp)).insert("payload"@, payload),
    )
}

/// Creates a bridge_action message with the given message id.
pub fn bridge_action_with_id(
    origin: &str,
    msg_id: &str,
    source: VoiceId,
    address: &str,
    signal_type: SignalType,
    timestamp: FloatValue,
    payload: Value,
) -> (r: WireMessage)
    ensures
        r@ == bridge_action_message(
            origin@,
            msg_id@,
            source,
            address@,
            signal_type,
            timestamp,
            payload@,
        ),
{
    let mut m = values::new_map();
    values::set_field(&mut m, "origin", Value::String(origin.to_owned()));
    values::set_field(&mut m, "msg_id", Value::String(msg_id.to_owned()));
    values::set_field(&mut m, "source", Value::Integer(source as i64));
    values::set_field(&mut m, "address", Value::String(address.to_owned()));
    values::set_field(
        &mut m,
        "signal_type",
        Value::String(protocol::signal_type_to_str(signal_type).to_owned()),
    );
    values::set_field(&mut m, "timestamp", Value::Float(timestamp));
    values::set_field(&mut m, "payload", payload);
    WireMessage::new(MSG_BRIDGE_ACTION, Value::Dict(m))
}

/// Creates a bridge_action message with an origin for loop prevention and a
/// fresh message id for duplicate suppression.
pub fn bridge_action(
    origin: &str,
    source: VoiceId,
    address: &str,
    signal_type: SignalType,
    timestamp: FloatValue,
    payload: Value,
) -> (r: WireMessage)
    ensures
        exists|msg_id: Seq<char>|
            ids::is_uuid_text(msg_id) && r@ == #[trigger] bridge_action_message(
                origin@,
                msg_id,
                source,
                address@,
                signal_type,
                timestamp,
                payload@,
            ),
{
    let msg_id = new_msg_id();
    bridge_action_with_id(origin, msg_id.as_str(), source, address, signal_type, timestamp, payload)
}

/// The `bridge_unset` message.
pub open spec fn bridge_unset_message(
    origin: Seq<char>,
    msg_id: Seq<char>,
    source: VoiceId,
    address: Seq<char>,
) -> MessageModel {
    protocol::message_of(MSG_BRIDGE_UNSET@, forwarded_fields(origin, msg_id, source, address))
}

/// Creates a bridge_unset message with the given message id.
pub fn bridge_unset_with_id(
    origin: &str,
    msg_id: &str,
    source: VoiceId,
    address: &str,
) -> (r: WireMessage)
    ensures
        r@ == bridge_unset_message(origin@, msg_id@, source, address@),
{
    let mut m = values::new_map();
    values::set_field(&mut m, "origin", Value::String(origin.to_owned()));
    values::set_field(&mut m, "msg_id", Value::String(msg_id.to_owned()));
    values::set_field(&mut m, "source", Value::Integer(source as i64));
    values::set_field(&mut m, "address", Value::String(address.to_owned()));
    WireMessage::new(MSG_BRIDGE_UNSET, Value::Dict(m))
}

/// Creates a bridge_unset message, which carries a param unset to the peers. It
/// has the same tags as a bridge action. The address is the mapped one.
pub fn bridge_unset(origin: &str, source: VoiceId, address: &str) -> (r: WireMessage)
    ensures
        exists|msg_id: Seq<char>|
            ids::is_uuid_text(msg_id) && r@ == #[trigger] bridge_unset_message(
                origin@,
                msg_id,
                source,
                address@,
            ),
{
    let msg_id = new_msg_id();
    bridge_unset_with_id(origin, msg_id.as_str(), source, address)
}

/// A fresh message id.
pub fn new_msg_id() -> (r: String)
    ensures
        ids::is_uuid_text(r@),
{
    ids::new_uuid()
}

/// The `bridge_ping` message.
pub open spec fn bridge_ping_message(sequence: u64) -> MessageModel {
    protocol::message_of(
        MSG_BRIDGE_PING@,
        Map::<Seq<char>, ValueModel>::empty().insert(
            "sequence"@,
            ValueModel::Integer(sequence as i64),
        ),
    )
}

/// Creates a bridge_ping message.
pub fn bridge_ping(sequence: u64) -> (r: WireMessage)
    ensures
        r@ == bridge_ping_message(sequence),
{
    let mut m = values::new_map();
    values::set_field(&mut m, "sequence", Value::Integer(sequence as i64));
    WireMessage::new(MSG_BRIDGE_PING, Value::Dict(m))
}

/// The `bridge_pong` message.
pub open spec fn bridge_pong_message(sequence: u64, timestamp: FloatValue) -> MessageModel {
    protocol::message_of(
        MSG_BRIDGE_PONG@,
        Map::<Seq<char>, ValueModel>::empty().insert(
            "sequence"@,
            ValueModel::Integer(sequence as i64),
        ).insert("timestamp"@, ValueModel::Float(timestamp)),
    )
}

/// Creates a bridge_pong message.
pub fn bridge_pong(sequence: u64, timestamp: FloatValue) -> (r: WireMessage)
    ensures
        r@ == bridge_pong_message(sequence, timestamp),
{
    let mut m = values::new_map();
    values::set_field(&mut m, "sequence", Value::Integer(sequence as i64));
    values::set_field(&mut m, "timestamp", Value::Float(timestamp));
    WireMessage::new(MSG_BRIDGE_PONG, Value::Dict(m))
}

// ---------------------------------------------------------------------------
// Reading messages
// ---------------------------------------------------------------------------

/// The text under `key` in the payload of a message.
pub open spec fn message_text(m: MessageModel, key: Seq<char>) -> Option<Seq<char>> {
    protocol::string_field(protocol::payload_fields(m), key)
}

/// The payload value that an action carries; null where there is none.
pub open spec fn message_payload(m: MessageModel) -> ValueModel {
    match protocol::value_field(protocol::payload_fields(m), "payload"@) {
        Some(v) => v,
        None => ValueModel::Null,
    }
}

/// The timestamp of an action; zero where there is none.
pub open spec fn message_timestamp(m: MessageModel) -> FloatValue {
    match protocol::float_field(protocol::payload_fields(m), "timestamp"@) {
        Some(t) => t,
        None => FloatValue { bits: 0 },
    }
}

/// The source voice of an action; zero where there is none.
pub open spec fn message_source(m: MessageModel) -> VoiceId {
    match protocol::integer_field(protocol::payload_fields(m), "source"@) {
        Some(n) => n as u64,
        None => 0,
    }
}

fn get_text(msg: &WireMessage, key: &str) -> (r: Option<String>)
    ensures
        text::opt_view(r) == message_text(msg@, key@),
{
    match &msg.payload {
        Value::Dict(m) => protocol::get_string(m, key),
        _ => None,
    }
}

/// The bridge that a message comes from.
pub fn get_origin(msg: &WireMessage) -> (r: Option<String>)
    ensures
        text::opt_view(r) == message_text(msg@, "origin"@),
{
    get_text(msg, "origin")
}

/// The id of a message.
pub fn get_msg_id(msg: &WireMessage) -> (r: Option<String>)
    ensures
        text::opt_view(r) == message_text(msg@, "msg_id"@),
{
    get_text(msg, "msg_id")
}

/// The address of a message.
pub fn get_address(msg: &WireMessage) -> (r: Option<String>)
    ensures
        text::opt_view(r) == message_text(msg@, "address"@),
{
    get_text(msg, "address")
}

/// The name of the signal type of an action.
pub fn get_signal_type(msg: &WireMessage) -> (r: Option<String>)
    ensures
        text::opt_view(r) == message_text(msg@, "signal_type"@),
{
    get_text(msg, "signal_type")
}

/// The payload value of an action; null where there is none.
pub fn get_action_payload(msg: &WireMessage) -> (r: Value)
    ensures
        r@ == message_payload(msg@),
{
    match &msg.payload {
        Value::Dict(m) => match protocol::get_value(m, "payload") {
            Some(v) => v,
            None => Value::Null,
        },
        _ => Value::Null,
    }
}

/// The timestamp of an action; zero where there is none.
pub fn get_timestamp(msg: &WireMessage) -> (r: FloatValue)
    ensures
        r == message_timestamp(msg@),
{
    match &msg.payload {
        Value::Dict(m) => match protocol::get_float(m, "timestamp") {
            Some(t) => t,
            None => FloatValue::zero(),
        },
        _ => FloatValue::zero(),
    }
}

/// The source voice of an action; zero where there is none.
pub fn get_source(msg: &WireMessage) -> (r: VoiceId)
    ensures
        r == message_source(msg@),
{
    match &msg.payload {
        Value::Dict(m) => match protocol::get_integer(m, "source") {
            Some(n) => n as u64,
            None => 0,
        },
        _ => 0,
    }
}

/// The token that a hello presents.
pub fn get_auth_token(msg: &WireMessage) -> (r: Option<String>)
    ensures
        text::opt_view(r) == message_text(msg@, "auth_token"@),
{
    get_text(msg, "auth_token")
}

// ---------------------------------------------------------------------------
// Authentication
// ---------------------------------------------------------------------------

/// Whether a presented token satisfies the expectation: without an expected
/// token anything does, otherwise only the identical one.
pub open spec fn token_accepted(expected: Option<Seq<char>>, presented: Option<Seq<char>>) -> bool {
    match expected {
        None => true,
        Some(e) => presented == Some(e),
    }
}

/// Checks a presented token against the configured one.
pub fn auth_token_matches(expected: Option<&str>, presented: Option<&str>) -> (r: bool)
    ensures
        r == token_accepted(mapping::opt_str(expected), mapping::opt_str(presented)),
{
    match expected {
        None => true,
        Some(e) => match presented {
            Some(p) => {
                proof {
                    vstd::utf8::encode_utf8_decode_utf8(e@);
                    vstd::utf8::encode_utf8_decode_utf8(p@);
                }
                constant_time_eq(e.as_bytes(), p.as_bytes())
            },
            None => false,
        },
    }
}

/// Equality of byte strings. The comparison scans the whole of the longer one,
/// so that the running time does not show where the first difference is.
pub fn constant_time_eq(a: &[u8], b: &[u8]) -> (r: bool)
    ensures
        r == (a@ == b@),
{
    let mut diff: u8 = if a.len() == b.len() {
        0
    } else {
        1
    };
    let max: usize = if a.len() < b.len() {
        b.len()
    } else {
        a.len()
    };
    let mut i: usize = 0;
    while i < max
        invariant
            i <= max,
            max == (if a@.len() < b@.len() {
                b@.len()
            } else {
                a@.len()
            }),
            diff == 0 <==> (a@.len() == b@.len() && forall|j: int| 0 <= j < i ==> a@[j] == b@[j]),
        decreases max - i,
    {
        let x: u8 = if i < a.len() {
            a[i]
        } else {
            0
        };
        let y: u8 = if i < b.len() {
            b[i]
        } else {
            0
        };
        let mixed: u8 = diff | (x ^ y);
        assert((diff | (x ^ y)) == 0 <==> (diff == 0 && x == y)) by (bit_vector);
        diff = mixed;
        i = i + 1;
    }
    assert(diff == 0 ==> a@ =~= b@);
    diff == 0
}

// ---------------------------------------------------------------------------
// Laws
// ---------------------------------------------------------------------------

/// The field names of forwarded messages are different names.
pub proof fn lemma_forwarded_keys()
    ensures
        "origin"@ != "msg_id"@,
        "origin"@ != "source"@,
        "origin"@ != "address"@,
        "origin"@ != "signal_type"@,
        "origin"@ != "timestamp"@,
        "origin"@ != "payload"@,
        "msg_id"@ != "source"@,
        "msg_id"@ != "address"@,
        "msg_id"@ != "signal_type"@,
        "msg_id"@ != "timestamp"@,
        "msg_id"@ != "payload"@,
{
    reveal_strlit("origin");
    reveal_strlit("msg_id");
    reveal_strlit("source");
    reveal_strlit("address");
    reveal_strlit("signal_type");
    reveal_strlit("timestamp");
    reveal_strlit("payload");
    assert("origin"@.len() == 6 && "msg_id"@.len() == 6 && "source"@.len() == 6 && "address"@.len()
        == 7 && "signal_type"@.len() == 11 && "timestamp"@.len() == 9 && "payload"@.len() == 7);
    assert("origin"@[0] != "msg_id"@[0]);
    assert("origin"@[0] != "source"@[0]);
    assert("msg_id"@[0] != "source"@[0]);
}

/// A bridge action holds what it was made of.
pub proof fn law_bridge_action_reads_back(
    origin: Seq<char>,
    msg_id: Seq<char>,
    source: VoiceId,
    address: Seq<char>,
    signal_type: SignalType,
    timestamp: FloatValue,
    payload: ValueModel,
)
    ensures
        ({
            let m = bridge_action_message(
                origin,
                msg_id,
                source,
                address,
                signal_type,
                timestamp,
                payload,
            );
            &&& message_text(m, "origin"@) == Some(origin)
            &&& message_text(m, "msg_id"@) == Some(msg_id)
            &&& message_text(m, "address"@) == Some(address)
            &&& message_text(m, "signal_type"@) == Some(protocol::signal_text(signal_type))
            &&& message_source(m) == source
            &&& message_timestamp(m) == timestamp
            &&& message_payload(m) == payload
        }),
{
    lemma_forwarded_keys();
    protocol::lemma_action_keys();
    protocol::lemma_id_round_trip(source);
}

/// A bridge unset holds what it was made of.
pub proof fn law_bridge_unset_reads_back(
    origin: Seq<char>,
    msg_id: Seq<char>,
    source: VoiceId,
    address: Seq<char>,
)
    ensures
        ({
            let m = bridge_unset_message(origin, msg_id, source, address);
            &&& message_text(m, "origin"@) == Some(origin)
            &&& message_text(m, "msg_id"@) == Some(msg_id)
            &&& message_text(m, "address"@) == Some(address)
            &&& message_source(m) == source
        }),
{
    lemma_forwarded_keys();
    protocol::lemma_action_keys();
    protocol::lemma_id_round_trip(source);
}

/// A hello presents exactly the token that it was made with, and has no origin.
pub proof fn law_bridge_hello_reads_back(
    bridge_id: Seq<char>,
    name: Seq<char>,
    auth_token: Option<Seq<char>>,
)
    ensures
        ({
            let m = bridge_hello_message(bridge_id, name, auth_token);
            &&& message_text(m, "bridge_id"@) == Some(bridge_id)
            &&& message_text(m, "name"@) == Some(name)
            &&& message_text(m, "auth_token"@) == auth_token
            &&& message_text(m, "origin"@) is None
        }),
{
    reveal_strlit("bridge_id");
    reveal_strlit("name");
    reveal_strlit("auth_token");
    reveal_strlit("origin");
    assert("bridge_id"@.len() == 9 && "name"@.len() == 4 && "auth_token"@.len() == 10
        && "origin"@.len() == 6);
}

/// The names of the message types between bridges.
pub proof fn law_message_names()
    ensures
        MSG_BRIDGE_HELLO@ == "bridge_hello"@,
        MSG_BRIDGE_SUBSCRIBE@ == "bridge_subscribe"@,
        MSG_BRIDGE_ACTION@ == "bridge_action"@,
        MSG_BRIDGE_UNSET@ == "bridge_unset"@,
        MSG_BRIDGE_PING@ == "bridge_ping"@,
        MSG_BRIDGE_PONG@ == "bridge_pong"@,
{
}

/// Pings, pongs and subscriptions between bridges hold what they were made of.
pub proof fn law_small_messages_read_back(sequence: u64, timestamp: FloatValue, pattern: Seq<char>)
    ensures
        protocol::integer_field(
            protocol::payload_fields(bridge_ping_message(sequence)),
            "sequence"@,
        ) matches Some(n) && n as u64 == sequence,
        protocol::integer_field(
            protocol::payload_fields(bridge_pong_message(sequence, timestamp)),
            "sequence"@,
        ) matches Some(n) && n as u64 == sequence,
        message_timestamp(bridge_pong_message(sequence, timestamp)) == timestamp,
        message_text(bridge_subscribe_message(pattern), "pattern"@) == Some(pattern),
        bridge_ping_message(sequence).msg_type == MSG_BRIDGE_PING@,
        bridge_pong_message(sequence, timestamp).msg_type == MSG_BRIDGE_PONG@,
        bridge_subscribe_message(pattern).msg_type == MSG_BRIDGE_SUBSCRIBE@,
{
    protocol::lemma_id_round_trip(sequence);
    reveal_strlit("sequence");
    reveal_strlit("timestamp");
    assert("sequence"@.len() != "timestamp"@.len());
}

/// What a message does not hold is read as nothing: no text, a null payload, the time zero
/// and the voice zero.
pub proof fn law_absent_fields_are_read_as_nothing(m: MessageModel, key: Seq<char>)
    requires
        !(m.payload is Dict),
    ensures
        message_text(m, key) is None,
        message_payload(m) == ValueModel::Null,
        message_timestamp(m).bits == 0,
        message_source(m) == 0,
{
}

} // verus!
