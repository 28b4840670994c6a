//! Messages between a Chord hub and its voices.
use vstd::prelude::*;

use crate::values::FloatValue;

verus! {

/// Semantic signal type that determines how the hub handles an action.
#[derive(Debug, Clone, Copy, PartialEq, Eq, Structural)]
pub enum SignalType {
    /// Fire-and-forget.
    Event,
    /// Stateful.
    Param,
    /// High-rate best-effort data.
    Stream,
}

/// A typed value of an action.
#[derive(Debug, PartialEq, Clone)]
pub enum Value {
    /// A single-precision float, held as its bit pattern.
    F32(u32),
    I32(i32),
    Bool(bool),
    String(String),
    Bytes(Vec<u8>),
}

/// The payload of an action.
#[derive(Debug, PartialEq, Clone)]
pub enum Payload {
    Single(Value),
    Tuple(Vec<Value>),
    /// No payload.
    Empty,
}

/// Something that happens: a note, a parameter change, a trigger.
#[derive(Debug, PartialEq, Clone)]
pub struct Action {
    /// Hierarchical address.
    pub address: String,
    /// How the hub treats the action.
    pub signal_type: SignalType,
    /// Hub time of delivery; zero is immediate.
    pub timestamp: FloatValue,
    /// The data that the action carries.
    pub payload: Payload,
}

/// What a voice declares when it connects.
#[derive(Debug, PartialEq, Clone)]
pub struct VoiceCapabilities {
    /// Human-readable name.
    pub name: String,
    /// Patterns that the voice subscribes to.
    pub subscriptions: Vec<String>,
    /// Whether the voice is a bridge.
    pub is_bridge: bool,
}

/// Identifier of a connected voice, assigned by the hub.
pub type VoiceId = u32;

/// A message between hub and voices.
#[derive(Debug, PartialEq, Clone)]
pub enum Message {
    /// A voice introduces itself.
    Hello(VoiceCapabilities),
    /// The hub answers a hello.
    Welcome { voice_id: VoiceId, hub_time: FloatValue },
    /// Either side disconnects.
    Goodbye,
    /// A voice asks for the time.
    ClockSyncRequest { voice_send_time: FloatValue },
    /// The hub tells the time.
    ClockSyncReply {
        voice_send_time: FloatValue,
        hub_receive_time: FloatValue,
        hub_send_time: FloatValue,
    },
    /// An action on its way through the hub.
    ActionMessage { source: VoiceId, action: Action },
    /// A voice subscribes to further patterns.
    Subscribe { patterns: Vec<String> },
    /// A voice gives up patterns.
    Unsubscribe { patterns: Vec<String> },
}

} // verus!
