//! The wire protocol: message envelope, message types and their payloads.
//!
//! Every message is a [`WireMessage`]: a type name and a payload value. The
//! functions here build the messages of the protocol and read payload fields.
use vstd::prelude::*;

use crate::text;
use crate::text_map::TextMap;
use crate::values;
use crate::values::{FloatValue, Value, ValueModel};

verus! {

/// Current protocol version.
pub const PROTOCOL_VERSION: u32 = 1;

/// Identifier of a connected voice, assigned by the hub.
pub type VoiceId = u64;

// ---------------------------------------------------------------------------
// Message types
// ---------------------------------------------------------------------------

pub const MSG_HELLO: &'static str = "hello";

pub const MSG_WELCOME: &'static str = "welcome";

pub const MSG_DISCONNECT: &'static str = "disconnect";

pub const MSG_SUBSCRIBE: &'static str = "subscribe";

pub const MSG_UNSUBSCRIBE: &'static str = "unsubscribe";

pub const MSG_ACTION: &'static str = "action";

pub const MSG_UNSET_PARAM: &'static str = "unset_param";

pub const MSG_CLOCK_PING: &'static str = "clock_ping";

pub const MSG_CLOCK_PONG: &'static str = "clock_pong";

pub const MSG_ERROR: &'static str = "error";

pub const MSG_SET_MANIFEST: &'static str = "set_manifest";

pub const MSG_PATCH_MANIFEST: &'static str = "patch_manifest";

pub const MSG_UPDATE_NAME: &'static str = "update_name";

// ---------------------------------------------------------------------------
// Error codes
// ---------------------------------------------------------------------------

pub const ERR_UNSUPPORTED_PROTOCOL_VERSION: &'static str = "unsupported_protocol_version";

pub const ERR_INVALID_PATTERN: &'static str = "invalid_pattern";

pub const ERR_MALFORMED_MANIFEST: &'static str = "malformed_manifest";

pub const ERR_INVALID_MESSAGE: &'static str = "invalid_message";

pub const ERR_INTERNAL_ERROR: &'static str = "internal_error";

pub const ERR_RESERVED_NAMESPACE: &'static str = "reserved_namespace";

// ---------------------------------------------------------------------------
// Envelope
// ---------------------------------------------------------------------------

/// The self-describing envelope of all protocol messages.
#[derive(Debug)]
pub struct WireMessage {
    /// Message type (for example `hello` or `action`).
    pub msg_type: String,
    /// Payload; its structure depends on the message type.
    pub payload: Value,
}

/// What a message is, mathematically.
#[verifier::ext_equal]
pub struct MessageModel {
    pub msg_type: Seq<char>,
    pub payload: ValueModel,
}

impl View for WireMessage {
    type V = MessageModel;

    open spec fn view(&self) -> MessageModel {
        MessageModel { msg_type: self.msg_type@, payload: self.payload@ }
    }
}

impl WireMessage {
    /// A message with the given type and payload.
    pub fn new(msg_type: &str, payload: Value) -> (r: Self)
        ensures
            r@ == (MessageModel { msg_type: msg_type@, payload: payload@ }),
    {
        WireMessage { msg_type: msg_type.to_owned(), payload }
    }
}

impl Clone for WireMessage {
    fn clone(&self) -> (r: Self)
        ensures
            r@ == self@,
    {
        WireMessage { msg_type: self.msg_type.clone(), payload: self.payload.clone() }
    }
}

impl PartialEq for WireMessage {
    fn eq(&self, other: &Self) -> (r: bool) {
        text::same(self.msg_type.as_str(), other.msg_type.as_str()) && values::same_value(
            &self.payload,
            &other.payload,
        )
    }
}

impl vstd::std_specs::cmp::PartialEqSpecImpl for WireMessage {
    open spec fn obeys_eq_spec() -> bool {
        true
    }

    open spec fn eq_spec(&self, other: &Self) -> bool {
        self@ == other@
    }
}

/// The message of a type whose payload is a map of the given fields.
pub open spec fn message_of(msg_type: Seq<char>, fields: Map<Seq<char>, ValueModel>) -> MessageModel {
    MessageModel { msg_type, payload: ValueModel::Dict(fields) }
}

/// The payload fields of a message; none where the payload is no map.
pub open spec fn payload_fields(m: MessageModel) -> Map<Seq<char>, ValueModel> {
    match m.payload {
        ValueModel::Dict(f) => f,
        _ => Map::empty(),
    }
}

/// The payload of a message as a map; empty where the payload is no map.
pub fn payload_map(msg: &WireMessage) -> (r: TextMap<Value>)
    ensures
        values::fields(r) == payload_fields(msg@),
{
    match &msg.payload {
        Value::Dict(m) => values::clone_map(m),
        _ => values::new_map(),
    }
}

/// Whether a message has the given type.
pub fn is_type(msg: &WireMessage, msg_type: &str) -> (r: bool)
    ensures
        r == (msg@.msg_type == msg_type@),
{
    text::same(msg.msg_type.as_str(), msg_type)
}

// ---------------------------------------------------------------------------
// Signal types
// ---------------------------------------------------------------------------

/// Semantic signal type that determines how the hub handles an action.
#[derive(Debug, Clone, Copy, PartialEq, Eq, Structural)]
pub enum SignalType {
    /// Fire-and-forget, no state retained by the hub.
    Event,
    /// Stateful. The hub remembers the last value and replays it to late joiners.
    Param,
    /// High-rate best-effort data, dropped under congestion rather than queued.
    Stream,
}

/// The wire name of a signal type.
pub open spec fn signal_text(signal: SignalType) -> Seq<char> {
    match signal {
        SignalType::Event => "event"@,
        SignalType::Param => "param"@,
        SignalType::Stream => "stream"@,
    }
}

/// The signal type with the given wire name.
pub open spec fn signal_named(name: Seq<char>) -> Option<SignalType> {
    if name == "event"@ {
        Some(SignalType::Event)
    } else if name == "param"@ {
        Some(SignalType::Param)
    } else if name == "stream"@ {
        Some(SignalType::Stream)
    } else {
        None
    }
}

/// The wire name of a signal type.
pub fn signal_type_to_str(signal: SignalType) -> (r: &'static str)
    ensures
        r@ == signal_text(signal),
{
    match signal {
        SignalType::Event => "event",
        SignalType::Param => "param",
        SignalType::Stream => "stream",
    }
}

/// The signal type with the given wire name.
pub fn parse_signal_type(s: &str) -> (r: Option<SignalType>)
    ensures
        r == signal_named(s@),
{
    if text::same(s, "event") {
        Some(SignalType::Event)
    } else if text::same(s, "param") {
        Some(SignalType::Param)
    } else if text::same(s, "stream") {
        Some(SignalType::Stream)
    } else {
        None
    }
}

/// Reading the name of a signal type gives the signal type back.
pub proof fn law_signal_name_round_trip(signal: SignalType)
    ensures
        signal_named(signal_text(signal)) == Some(signal),
{
    reveal_strlit("event");
    reveal_strlit("param");
    reveal_strlit("stream");
    assert("event"@[0] != "param"@[0]);
    assert("stream"@.len() != "event"@.len());
    assert("stream"@.len() != "param"@.len());
}

// ---------------------------------------------------------------------------
// Payload structures
// ---------------------------------------------------------------------------

/// Payload of `hello`: establishes a protocol session.
#[derive(Debug, Clone, PartialEq)]
pub struct HelloPayload {
    pub protocol_version: u32,
    pub name: String,
}

/// Payload of `welcome`: assigns the voice id.
#[derive(Debug, Clone, PartialEq)]
pub struct WelcomePayload {
    pub voice_id: VoiceId,
}

/// Payload of `subscribe`: registers a subscription pattern.
#[derive(Debug, Clone, PartialEq)]
pub struct SubscribePayload {
    pub pattern: String,
}

/// Payload of `unsubscribe`: removes a subscription pattern.
#[derive(Debug, Clone, PartialEq)]
pub struct UnsubscribePayload {
    pub pattern: String,
}

/// Payload of `action`: application traffic.
#[derive(Debug, Clone, PartialEq)]
pub struct ActionPayload {
    /// The originating voice, set by the hub when it routes.
    pub source: Option<VoiceId>,
    pub address: String,
    pub signal_type: SignalType,
    pub timestamp: FloatValue,
    pub payload: Value,
}

/// Payload of `unset_param`: removes retained param state.
#[derive(Debug, Clone, PartialEq)]
pub struct UnsetParamPayload {
    pub address: String,
}

/// Payload of `clock_ping`: timing request of a client.
#[derive(Debug, Clone, PartialEq)]
pub struct ClockPingPayload {
    pub sequence: u64,
}

/// Payload of `clock_pong`: timing response of the hub.
#[derive(Debug, Clone, PartialEq)]
pub struct ClockPongPayload {
    pub sequence: u64,
    pub hub_time: FloatValue,
}

/// Payload of `error`: error notification of the hub.
#[derive(Debug, Clone, PartialEq)]
pub struct ErrorPayload {
    pub code: String,
    pub message: String,
}

/// Payload of `update_name`: renames a voice at run time.
#[derive(Debug, Clone, PartialEq)]
pub struct UpdateNamePayload {
    pub name: String,
}

/// Payload of `set_manifest`: replaces the manifest.
#[derive(Debug, Clone, PartialEq)]
pub struct SetManifestPayload {
    pub manifest: Value,
}

/// Payload of `patch_manifest`: updates parts of the manifest.
#[derive(Debug, Clone, PartialEq)]
pub struct PatchManifestPayload {
    pub patch: Value,
}

// ---------------------------------------------------------------------------
// Builders
// ---------------------------------------------------------------------------

/// The `hello` message.
pub open spec fn hello_message(name: Seq<char>) -> MessageModel {
    message_of(
        MSG_HELLO@,
        Map::<Seq<char>, ValueModel>::empty().insert(
            "protocol_version"@,
            ValueModel::Integer(PROTOCOL_VERSION as i64),
        ).insert(
            "name"@,
            ValueModel::String(name),
        ),
    )
}

/// Creates a hello message.
pub fn hello(name: &str) -> (r: WireMessage)
    ensures
        r@ == hello_message(name@),
{
    let mut m = values::new_map();
    values::set_field(&mut m, "protocol_version", Value::Integer(PROTOCOL_VERSION as i64));
    values::set_field(&mut m, "name", Value::String(name.to_owned()));
    WireMessage::new(MSG_HELLO, Value::Dict(m))
}

/// The `welcome` message.
pub open spec fn welcome_message(voice_id: VoiceId) -> MessageModel {
    message_of(
        MSG_WELCOME@,
        Map::<Seq<char>, ValueModel>::empty().insert(
            "voice_id"@,
            ValueModel::Integer(voice_id as i64),
        ),
    )
}

/// Creates a welcome message.
pub fn welcome(voice_id: VoiceId) -> (r: WireMessage)
    ensures
        r@ == welcome_message(voice_id),
{
    let mut m = values::new_map();
    values::set_field(&mut m, "voice_id", Value::Integer(voice_id as i64));
    WireMessage::new(MSG_WELCOME, Value::Dict(m))
}

/// The `disconnect` message.
pub open spec fn disconnect_message() -> MessageModel {
    message_of(
        MSG_DISCONNECT@,
        Map::<Seq<char>, ValueModel>::empty(),
    )
}

/// Creates a disconnect message.
pub fn disconnect() -> (r: WireMessage)
    ensures
        r@ == disconnect_message(),
{
    let m = values::new_map();
    WireMessage::new(MSG_DISCONNECT, Value::Dict(m))
}

/// The `subscribe` message.
pub open spec fn subscribe_message(pattern: Seq<char>) -> MessageModel {
    message_of(
        MSG_SUBSCRIBE@,
        Map::<Seq<char>, ValueModel>::empty().insert(
            "pattern"@,
            ValueModel::String(pattern),
        ),
    )
}

/// Creates a subscribe message.
pub fn subscribe(pattern: &str) -> (r: WireMessage)
    ensures
        r@ == subscribe_message(pattern@),
{
    let mut m = values::new_map();
    values::set_field(&mut m, "pattern", Value::String(pattern.to_owned()));
    WireMessage::new(MSG_SUBSCRIBE, Value::Dict(m))
}

/// The `unsubscribe` message.
pub open spec fn unsubscribe_message(pattern: Seq<char>) -> MessageModel {
    message_of(
        MSG_UNSUBSCRIBE@,
        Map::<Seq<char>, ValueModel>::empty().insert(
            "pattern"@,
            ValueModel::String(pattern),
        ),
    )
}

/// Creates an unsubscribe message.
pub fn unsubscribe(pattern: &str) -> (r: WireMessage)
    ensures
        r@ == unsubscribe_message(pattern@),
{
    let mut m = values::new_map();
    values::set_field(&mut m, "pattern", Value::String(pattern.to_owned()));
    WireMessage::new(MSG_UNSUBSCRIBE, Value::Dict(m))
}

/// The `action` message.
pub open spec fn action_message(address: Seq<char>, signal_type: SignalType, timestamp: FloatValue, payload: ValueModel) -> MessageModel {
    message_of(
        MSG_ACTION@,
        Map::<Seq<char>, ValueModel>::empty().insert(
            "address"@,
            ValueModel::String(address),
        ).insert(
            "signal_type"@,
            ValueModel::String(signal_text(signal_type)),
        ).insert(
            "timestamp"@,
            ValueModel::Float(timestamp),
        ).insert(
            "payload"@,
            payload,
        ),
    )
}

/// Creates an action message without source; the hub assigns it when it routes.
pub fn action(address: &str, signal_type: SignalType, timestamp: FloatValue, payload: Value) -> (r: WireMessage)
    ensures
        r@ == action_message(address@, signal_type, timestamp, payload@),
{
    let mut m = values::new_map();
    values::set_field(&mut m, "address", Value::String(address.to_owned()));
    values::set_field(&mut m, "signal_type", Value::String(signal_type_to_str(signal_type).to_owned()));
    values::set_field(&mut m, "timestamp", Value::Float(timestamp));
    values::set_field(&mut m, "payload", payload);
    WireMessage::new(MSG_ACTION, Value::Dict(m))
}

/// The `action` message.
pub open spec fn action_with_source_message(source: VoiceId, address: Seq<char>, signal_type: SignalType, timestamp: FloatValue, payload: ValueModel) -> MessageModel {
    message_of(
        MSG_ACTION@,
        Map::<Seq<char>, ValueModel>::empty().insert(
            "source"@,
            ValueModel::Integer(source as i64),
        ).insert(
            "address"@,
            ValueModel::String(address),
        ).insert(
            "signal_type"@,
            ValueModel::String(signal_text(signal_type)),
        ).insert(
            "timestamp"@,
            ValueModel::Float(timestamp),
        ).insert(
            "payload"@,
            payload,
        ),
    )
}

/// Creates an action message with an explicit source voice.
pub fn action_with_source(source: VoiceId, address: &str, signal_type: SignalType, timestamp: FloatValue, payload: Value) -> (r: WireMessage)
    ensures
        r@ == action_with_source_message(source, address@, signal_type, timestamp, payload@),
{
    let mut m = values::new_map();
    values::set_field(&mut m, "source", Value::Integer(source as i64));
    values::set_field(&mut m, "address", Value::String(address.to_owned()));
    values::set_field(&mut m, "signal_type", Value::String(signal_type_to_str(signal_type).to_owned()));
    values::set_field(&mut m, "timestamp", Value::Float(timestamp));
    values::set_field(&mut m, "payload", payload);
    WireMessage::new(MSG_ACTION, Value::Dict(m))
}

/// The `unset_param` message.
pub open spec fn unset_param_message(address: Seq<char>) -> MessageModel {
    message_of(
        MSG_UNSET_PARAM@,
        Map::<Seq<char>, ValueModel>::empty().insert(
            "address"@,
            ValueModel::String(address),
        ),
    )
}

/// Creates an unset_param message.
pub fn unset_param(address: &str) -> (r: WireMessage)
    ensures
        r@ == unset_param_message(address@),
{
    let mut m = values::new_map();
    values::set_field(&mut m, "address", Value::String(address.to_owned()));
    WireMessage::new(MSG_UNSET_PARAM, Value::Dict(m))
}

/// The `clock_ping` message.
pub open spec fn clock_ping_message(sequence: u64) -> MessageModel {
    message_of(
        MSG_CLOCK_PING@,
        Map::<Seq<char>, ValueModel>::empty().insert(
            "sequence"@,
            ValueModel::Integer(sequence as i64),
        ),
    )
}

/// Creates a clock_ping message.
pub fn clock_ping(sequence: u64) -> (r: WireMessage)
    ensures
        r@ == clock_ping_message(sequence),
{
    let mut m = values::new_map();
    values::set_field(&mut m, "sequence", Value::Integer(sequence as i64));
    WireMessage::new(MSG_CLOCK_PING, Value::Dict(m))
}

/// The `clock_pong` message.
pub open spec fn clock_pong_message(sequence: u64, hub_time: FloatValue) -> MessageModel {
    message_of(
        MSG_CLOCK_PONG@,
        Map::<Seq<char>, ValueModel>::empty().insert(
            "sequence"@,
            ValueModel::Integer(sequence as i64),
        ).insert(
            "hub_time"@,
            ValueModel::Float(hub_time),
        ),
    )
}

/// Creates a clock_pong message.
pub fn clock_pong(sequence: u64, hub_time: FloatValue) -> (r: WireMessage)
    ensures
        r@ == clock_pong_message(sequence, hub_time),
{
    let mut m = values::new_map();
    values::set_field(&mut m, "sequence", Value::Integer(sequence as i64));
    values::set_field(&mut m, "hub_time", Value::Float(hub_time));
    WireMessage::new(MSG_CLOCK_PONG, Value::Dict(m))
}

/// The `error` message.
pub open spec fn error_message(code: Seq<char>, message: Seq<char>) -> MessageModel {
    message_of(
        MSG_ERROR@,
        Map::<Seq<char>, ValueModel>::empty().insert(
            "code"@,
            ValueModel::String(code),
        ).insert(
            "message"@,
            ValueModel::String(message),
        ),
    )
}

/// Creates an error message.
pub fn error(code: &str, message: &str) -> (r: WireMessage)
    ensures
        r@ == error_message(code@, message@),
{
    let mut m = values::new_map();
    values::set_field(&mut m, "code", Value::String(code.to_owned()));
    values::set_field(&mut m, "message", Value::String(message.to_owned()));
    WireMessage::new(MSG_ERROR, Value::Dict(m))
}

/// The `update_name` message.
pub open spec fn update_name_message(name: Seq<char>) -> MessageModel {
    message_of(
        MSG_UPDATE_NAME@,
        Map::<Seq<char>, ValueModel>::empty().insert(
            "name"@,
            ValueModel::String(name),
        ),
    )
}

/// Creates an update_name message.
pub fn update_name(name: &str) -> (r: WireMessage)
    ensures
        r@ == update_name_message(name@),
{
    let mut m = values::new_map();
    values::set_field(&mut m, "name", Value::String(name.to_owned()));
    WireMessage::new(MSG_UPDATE_NAME, Value::Dict(m))
}

/// The `set_manifest` message.
pub open spec fn set_manifest_message(manifest: ValueModel) -> MessageModel {
    message_of(
        MSG_SET_MANIFEST@,
        Map::<Seq<char>, ValueModel>::empty().insert(
            "manifest"@,
            manifest,
        ),
    )
}

/// Creates a set_manifest message.
pub fn set_manifest(manifest: Value) -> (r: WireMessage)
    ensures
        r@ == set_manifest_message(manifest@),
{
    let mut m = values::new_map();
    values::set_field(&mut m, "manifest", manifest);
    WireMessage::new(MSG_SET_MANIFEST, Value::Dict(m))
}

/// The `patch_manifest` message.
pub open spec fn patch_manifest_message(patch: ValueModel) -> MessageModel {
    message_of(
        MSG_PATCH_MANIFEST@,
        Map::<Seq<char>, ValueModel>::empty().insert(
            "patch"@,
            patch,
        ),
    )
}

/// Creates a patch_manifest message.
pub fn patch_manifest(patch: Value) -> (r: WireMessage)
    ensures
        r@ == patch_manifest_message(patch@),
{
    let mut m = values::new_map();
    values::set_field(&mut m, "patch", patch);
    WireMessage::new(MSG_PATCH_MANIFEST, Value::Dict(m))
}

// ---------------------------------------------------------------------------
// Reading payload fields
// ---------------------------------------------------------------------------

/// The text under `key`, where there is one.
pub open spec fn string_field(f: Map<Seq<char>, ValueModel>, key: Seq<char>) -> Option<Seq<char>> {
    if f.dom().contains(key) {
        match f[key] {
            ValueModel::String(s) => Some(s),
            _ => None,
        }
    } else {
        None
    }
}

/// The integer under `key`, where there is one.
pub open spec fn integer_field(f: Map<Seq<char>, ValueModel>, key: Seq<char>) -> Option<i64> {
    if f.dom().contains(key) {
        match f[key] {
            ValueModel::Integer(n) => Some(n),
            _ => None,
        }
    } else {
        None
    }
}

/// The double under `key`, where there is one.
pub open spec fn float_field(f: Map<Seq<char>, ValueModel>, key: Seq<char>) -> Option<FloatValue> {
    if f.dom().contains(key) {
        match f[key] {
            ValueModel::Float(n) => Some(n),
            _ => None,
        }
    } else {
        None
    }
}

/// The value under `key`, where there is one.
pub open spec fn value_field(f: Map<Seq<char>, ValueModel>, key: Seq<char>) -> Option<ValueModel> {
    if f.dom().contains(key) {
        Some(f[key])
    } else {
        None
    }
}

/// The address of an action; empty where there is none.
pub open spec fn action_address(m: MessageModel) -> Seq<char> {
    match string_field(payload_fields(m), "address"@) {
        Some(a) => a,
        None => Seq::empty(),
    }
}

/// The payload value of an action; null where there is none.
pub open spec fn action_payload(m: MessageModel) -> ValueModel {
    match value_field(payload_fields(m), "payload"@) {
        Some(v) => v,
        None => ValueModel::Null,
    }
}

/// The field `key` of a map.
pub fn get_field<'a>(map: &'a TextMap<Value>, key: &str) -> (r: Option<&'a Value>)
    ensures
        match r {
            Some(v) => value_field(values::fields(*map), key@) == Some(v@),
            None => value_field(values::fields(*map), key@) is None,
        },
{
    values::field(map, key)
}

/// The text under `key`.
pub fn get_string(map: &TextMap<Value>, key: &str) -> (r: Option<String>)
    ensures
        text::opt_view(r) == string_field(values::fields(*map), key@),
{
    match values::field(map, key) {
        Some(Value::String(s)) => Some(s.clone()),
        _ => None,
    }
}

/// The integer under `key`.
pub fn get_integer(map: &TextMap<Value>, key: &str) -> (r: Option<i64>)
    ensures
        r == integer_field(values::fields(*map), key@),
{
    match values::field(map, key) {
        Some(Value::Integer(i)) => Some(*i),
        _ => None,
    }
}

/// The double under `key`.
pub fn get_float(map: &TextMap<Value>, key: &str) -> (r: Option<FloatValue>)
    ensures
        r == float_field(values::fields(*map), key@),
{
    match values::field(map, key) {
        Some(Value::Float(f)) => Some(*f),
        _ => None,
    }
}

/// The value under `key`.
pub fn get_value(map: &TextMap<Value>, key: &str) -> (r: Option<Value>)
    ensures
        match r {
            Some(v) => value_field(values::fields(*map), key@) == Some(v@),
            None => value_field(values::fields(*map), key@) is None,
        },
{
    match values::field(map, key) {
        Some(v) => Some(v.clone()),
        None => None,
    }
}

// ---------------------------------------------------------------------------
// Laws
// ---------------------------------------------------------------------------

/// The field names of an action are different names.
pub proof fn lemma_action_keys()
    ensures
        "source"@ != "address"@,
        "source"@ != "signal_type"@,
        "source"@ != "timestamp"@,
        "source"@ != "payload"@,
        "address"@ != "signal_type"@,
        "address"@ != "timestamp"@,
        "address"@ != "payload"@,
        "signal_type"@ != "timestamp"@,
        "signal_type"@ != "payload"@,
        "timestamp"@ != "payload"@,
{
    reveal_strlit("source");
    reveal_strlit("address");
    reveal_strlit("signal_type");
    reveal_strlit("timestamp");
    reveal_strlit("payload");
    assert("source"@.len() == 6 && "address"@.len() == 7 && "signal_type"@.len() == 11
        && "timestamp"@.len() == 9 && "payload"@.len() == 7);
    assert("address"@[0] != "payload"@[0]);
}

/// An action holds what it was made of, and no source.
pub proof fn law_action_reads_back(
    address: Seq<char>,
    signal_type: SignalType,
    timestamp: FloatValue,
    payload: ValueModel,
)
    ensures
        ({
            let m = action_message(address, signal_type, timestamp, payload);
            let f = payload_fields(m);
            &&& m.msg_type == MSG_ACTION@
            &&& string_field(f, "address"@) == Some(address)
            &&& string_field(f, "signal_type"@) == Some(signal_text(signal_type))
            &&& float_field(f, "timestamp"@) == Some(timestamp)
            &&& value_field(f, "payload"@) == Some(payload)
            &&& !f.dom().contains("source"@)
        }),
{
    lemma_action_keys();
}

/// A routed action holds what it was made of, its source among it.
pub proof fn law_action_with_source_reads_back(
    source: VoiceId,
    address: Seq<char>,
    signal_type: SignalType,
    timestamp: FloatValue,
    payload: ValueModel,
)
    ensures
        ({
            let m = action_with_source_message(source, address, signal_type, timestamp, payload);
            let f = payload_fields(m);
            &&& m.msg_type == MSG_ACTION@
            &&& integer_field(f, "source"@) matches Some(n) && n as u64 == source
            &&& string_field(f, "address"@) == Some(address)
            &&& string_field(f, "signal_type"@) == Some(signal_text(signal_type))
            &&& float_field(f, "timestamp"@) == Some(timestamp)
            &&& value_field(f, "payload"@) == Some(payload)
        }),
{
    lemma_action_keys();
    lemma_id_round_trip(source);
}

/// A 64-bit number survives the trip through a signed field.
pub proof fn lemma_id_round_trip(n: u64)
    ensures
        (n as i64) as u64 == n,
{
    assert((n as i64) as u64 == n) by (bit_vector);
}

/// Every voice id is read back from a welcome as it was sent.
pub proof fn law_welcome_reads_back(voice_id: VoiceId)
    ensures
        integer_field(payload_fields(welcome_message(voice_id)), "voice_id"@) matches Some(n)
            && n as u64 == voice_id,
{
    lemma_id_round_trip(voice_id);
}

/// A hello holds the protocol version and the name.
pub proof fn law_hello_reads_back(name: Seq<char>)
    ensures
        ({
            let f = payload_fields(hello_message(name));
            &&& integer_field(f, "protocol_version"@) == Some(PROTOCOL_VERSION as i64)
            &&& string_field(f, "name"@) == Some(name)
        }),
{
    reveal_strlit("protocol_version");
    reveal_strlit("name");
    assert("protocol_version"@.len() != "name"@.len());
}

/// A pong holds the sequence number of its ping and the hub time.
pub proof fn law_clock_pong_reads_back(sequence: u64, hub_time: FloatValue)
    ensures
        ({
            let f = payload_fields(clock_pong_message(sequence, hub_time));
            &&& integer_field(f, "sequence"@) matches Some(n) && n as u64 == sequence
            &&& float_field(f, "hub_time"@) == Some(hub_time)
        }),
{
    lemma_id_round_trip(sequence);
    reveal_strlit("sequence");
    reveal_strlit("hub_time");
    assert("sequence"@[0] != "hub_time"@[0]);
}

/// An error holds its code and its message.
pub proof fn law_error_reads_back(code: Seq<char>, message: Seq<char>)
    ensures
        ({
            let f = payload_fields(error_message(code, message));
            &&& string_field(f, "code"@) == Some(code)
            &&& string_field(f, "message"@) == Some(message)
        }),
{
    reveal_strlit("code");
    reveal_strlit("message");
    assert("code"@.len() != "message"@.len());
}

/// The names of the message types on the wire.
pub proof fn law_message_names()
    ensures
        MSG_HELLO@ == "hello"@,
        MSG_WELCOME@ == "welcome"@,
        MSG_DISCONNECT@ == "disconnect"@,
        MSG_SUBSCRIBE@ == "subscribe"@,
        MSG_UNSUBSCRIBE@ == "unsubscribe"@,
        MSG_ACTION@ == "action"@,
        MSG_UNSET_PARAM@ == "unset_param"@,
        MSG_CLOCK_PING@ == "clock_ping"@,
        MSG_CLOCK_PONG@ == "clock_pong"@,
        MSG_ERROR@ == "error"@,
        MSG_SET_MANIFEST@ == "set_manifest"@,
        MSG_PATCH_MANIFEST@ == "patch_manifest"@,
        MSG_UPDATE_NAME@ == "update_name"@,
        PROTOCOL_VERSION == 1,
{
}

/// The error codes on the wire.
pub proof fn law_error_codes()
    ensures
        ERR_UNSUPPORTED_PROTOCOL_VERSION@ == "unsupported_protocol_version"@,
        ERR_INVALID_PATTERN@ == "invalid_pattern"@,
        ERR_MALFORMED_MANIFEST@ == "malformed_manifest"@,
        ERR_INVALID_MESSAGE@ == "invalid_message"@,
        ERR_INTERNAL_ERROR@ == "internal_error"@,
        ERR_RESERVED_NAMESPACE@ == "reserved_namespace"@,
{
}

/// Messages with one field hold what they were made of, under the name of the field.
pub proof fn law_single_fields_read_back(s: Seq<char>, sequence: u64, v: ValueModel)
    ensures
        string_field(payload_fields(subscribe_message(s)), "pattern"@) == Some(s),
        string_field(payload_fields(unsubscribe_message(s)), "pattern"@) == Some(s),
        string_field(payload_fields(unset_param_message(s)), "address"@) == Some(s),
        string_field(payload_fields(update_name_message(s)), "name"@) == Some(s),
        integer_field(payload_fields(clock_ping_message(sequence)), "sequence"@) matches Some(n)
            && n as u64 == sequence,
        value_field(payload_fields(set_manifest_message(v)), "manifest"@) == Some(v),
        value_field(payload_fields(patch_manifest_message(v)), "patch"@) == Some(v),
        subscribe_message(s).msg_type == MSG_SUBSCRIBE@,
        unsubscribe_message(s).msg_type == MSG_UNSUBSCRIBE@,
        unset_param_message(s).msg_type == MSG_UNSET_PARAM@,
        update_name_message(s).msg_type == MSG_UPDATE_NAME@,
        clock_ping_message(sequence).msg_type == MSG_CLOCK_PING@,
        set_manifest_message(v).msg_type == MSG_SET_MANIFEST@,
        patch_manifest_message(v).msg_type == MSG_PATCH_MANIFEST@,
        disconnect_message().msg_type == MSG_DISCONNECT@,
        payload_fields(disconnect_message()) == Map::<Seq<char>, ValueModel>::empty(),
{
    lemma_id_round_trip(sequence);
}

/// A field is read as the kind that it is, and as no other.
pub proof fn law_fields_have_one_kind(
    f: Map<Seq<char>, ValueModel>,
    key: Seq<char>,
    other: Seq<char>,
    v: ValueModel,
)
    ensures
        ({
            let g = f.insert(key, v);
            &&& value_field(g, key) == Some(v)
            &&& string_field(g, key) is Some <==> v is String
            &&& integer_field(g, key) is Some <==> v is Integer
            &&& float_field(g, key) is Some <==> v is Float
            &&& string_field(g, key) matches Some(s) ==> v == ValueModel::String(s)
            &&& integer_field(g, key) matches Some(n) ==> v == ValueModel::Integer(n)
            &&& float_field(g, key) matches Some(x) ==> v == ValueModel::Float(x)
            &&& other != key ==> {
                &&& value_field(g, other) == value_field(f, other)
                &&& string_field(g, other) == string_field(f, other)
                &&& integer_field(g, other) == integer_field(f, other)
                &&& float_field(g, other) == float_field(f, other)
            }
        }),
        value_field(f.remove(key), key) is None,
        string_field(f.remove(key), key) is None,
{
}

} // verus!
