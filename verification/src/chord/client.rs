//! The client side of a Chord connection.
use vstd::prelude::*;

use crate::chord::hub;
use crate::chord::protocol::{Action, Message, VoiceCapabilities, VoiceId};
use crate::values::FloatValue;

verus! {

/// The hello of a client.
pub fn client_hello(name: &str, subscriptions: Vec<String>) -> (r: Message)
    ensures
        r matches Message::Hello(caps) && caps.name@ == name@ && caps.subscriptions
            == subscriptions && !caps.is_bridge,
{
    Message::Hello(VoiceCapabilities { name: name.to_owned(), subscriptions, is_bridge: false })
}

/// The id that the hub's first message assigns; none where it is no welcome.
pub fn welcome_id(msg: &Message) -> (r: Option<VoiceId>)
    ensures
        r == (match *msg {
            Message::Welcome { voice_id, hub_time: _ } => Some(voice_id),
            _ => None,
        }),
{
    match msg {
        Message::Welcome { voice_id, hub_time: _ } => Some(*voice_id),
        _ => None,
    }
}

/// What a message of the hub means to a client.
#[derive(Debug)]
pub enum ClientEvent {
    /// A clock reading.
    Clock { voice_send_time: FloatValue, hub_receive_time: FloatValue, hub_send_time: FloatValue },
    /// An action for the application.
    Routed { source: VoiceId, action: Action },
    /// Nothing.
    Ignored,
}

/// What a message of the hub means to a client.
pub open spec fn meaning(msg: Message) -> ClientEvent {
    match msg {
        Message::ClockSyncReply { voice_send_time, hub_receive_time, hub_send_time } =>
            ClientEvent::Clock { voice_send_time, hub_receive_time, hub_send_time },
        Message::ActionMessage { source, action } => ClientEvent::Routed { source, action },
        _ => ClientEvent::Ignored,
    }
}

/// Sorts a message of the hub.
pub fn dispatch(msg: Message) -> (r: ClientEvent)
    ensures
        r == meaning(msg),
        r == (match msg {
            Message::ClockSyncReply { voice_send_time, hub_receive_time, hub_send_time } =>
                ClientEvent::Clock { voice_send_time, hub_receive_time, hub_send_time },
            Message::ActionMessage { source, action } => ClientEvent::Routed { source, action },
            _ => ClientEvent::Ignored,
        }),
{
    match msg {
        Message::ClockSyncReply { voice_send_time, hub_receive_time, hub_send_time } =>
            ClientEvent::Clock { voice_send_time, hub_receive_time, hub_send_time },
        Message::ActionMessage { source, action } => ClientEvent::Routed { source, action },
        _ => ClientEvent::Ignored,
    }
}

/// The message that carries an action of a voice to the hub.
pub fn action_message(voice_id: VoiceId, action: Action) -> (r: Message)
    ensures
        r == (Message::ActionMessage { source: voice_id, action }),
{
    Message::ActionMessage { source: voice_id, action }
}

/// The hub's answer to a clock request brings a client the time at which it asked, and the
/// times at which the hub got the question and answered it.
pub proof fn law_clock_request_is_answered(
    asked: FloatValue,
    received: FloatValue,
    sending: FloatValue,
)
    ensures
        hub::answer_to(
            Message::ClockSyncRequest { voice_send_time: asked },
            received,
            sending,
        ) matches Some(reply) && meaning(reply) == (ClientEvent::Clock {
            voice_send_time: asked,
            hub_receive_time: received,
            hub_send_time: sending,
        }),
{
}

/// An action of a voice reaches the others as that action of that voice.
pub proof fn law_action_reaches_the_application(
    named: VoiceId,
    voice_id: VoiceId,
    action: Action,
)
    ensures
        meaning(hub::stamped(Message::ActionMessage { source: named, action }, voice_id)) == (
        ClientEvent::Routed { source: voice_id, action }),
{
}

} // verus!
