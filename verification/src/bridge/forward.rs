//! Forwarding between the local hub and remote peers.
use vstd::prelude::*;

use crate::bridge::ids;
use crate::bridge::mapping;
use crate::bridge::mapping::{Direction, MappingEngine, RuleModel};
use crate::bridge::protocol as messages;
use crate::protocol;
use crate::protocol::{MessageModel, SignalType, WireMessage};
use crate::text;
use crate::values::FloatValue;

verus! {

/// The signal type of a name; what is neither `param` nor `stream` is an event.
pub open spec fn signal_or_event(name: Seq<char>) -> SignalType {
    if name == "param"@ {
        SignalType::Param
    } else if name == "stream"@ {
        SignalType::Stream
    } else {
        SignalType::Event
    }
}

/// The name of the signal type of a message; `event` where there is none.
pub open spec fn signal_name(m: MessageModel) -> Seq<char> {
    match messages::message_text(m, "signal_type"@) {
        Some(name) => name,
        None => "event"@,
    }
}

/// The signal type of a name; what is neither `param` nor `stream` is an event.
pub fn signal_type_or_event(name: &str) -> (r: SignalType)
    ensures
        r == signal_or_event(name@),
{
    if text::same(name, "param") {
        SignalType::Param
    } else if text::same(name, "stream") {
        SignalType::Stream
    } else {
        SignalType::Event
    }
}

/// The name of the signal type of a message; `event` where there is none.
pub fn signal_type_name(msg: &WireMessage) -> (r: String)
    ensures
        r@ == signal_name(msg@),
{
    match messages::get_signal_type(msg) {
        Some(name) => name,
        None => "event".to_owned(),
    }
}

/// What an optional message stands for.
pub open spec fn opt_message(m: Option<WireMessage>) -> Option<MessageModel> {
    match m {
        Some(x) => Some(x@),
        None => None,
    }
}

// ---------------------------------------------------------------------------
// Local hub to remote peers
// ---------------------------------------------------------------------------

/// The bridge action that stands for a hub action on the way to the peers; none
/// where no outbound rule maps its address.
pub open spec fn outbound_action(
    m: MessageModel,
    rules: Seq<RuleModel>,
    origin: Seq<char>,
    msg_id: Seq<char>,
) -> Option<MessageModel> {
    match messages::message_text(m, "address"@) {
        None => None,
        Some(address) => match mapping::mapping(
            rules,
            address,
            Direction::Outbound,
            Some(signal_name(m)),
        ) {
            None => None,
            Some(mapped) => Some(
                messages::bridge_action_message(
                    origin,
                    msg_id,
                    messages::message_source(m),
                    mapped,
                    signal_or_event(signal_name(m)),
                    messages::message_timestamp(m),
                    messages::message_payload(m),
                ),
            ),
        },
    }
}

/// The bridge action for a hub action, under the given message id.
pub fn outbound_bridge_action_with_id(
    action: &WireMessage,
    engine: &MappingEngine,
    origin: &str,
    msg_id: &str,
) -> (r: Option<WireMessage>)
    ensures
        opt_message(r) == outbound_action(action@, engine@, origin@, msg_id@),
{
    let address = match messages::get_address(action) {
        Some(a) => a,
        None => {
            return None;
        },
    };
    let name = signal_type_name(action);
    match engine.map(address.as_str(), Direction::Outbound, Some(name.as_str())) {
        Some(mapped) => Some(
            messages::bridge_action_with_id(
                origin,
                msg_id,
                messages::get_source(action),
                mapped.as_str(),
                signal_type_or_event(name.as_str()),
                messages::get_timestamp(action),
                messages::get_action_payload(action),
            ),
        ),
        None => None,
    }
}

/// The bridge action for a hub action, under a fresh message id. None where no
/// outbound rule maps the address.
pub fn build_outbound_bridge_action(
    action: &WireMessage,
    engine: &MappingEngine,
    origin: &str,
) -> (r: Option<WireMessage>)
    ensures
        exists|msg_id: Seq<char>|
            ids::is_uuid_text(msg_id) && opt_message(r) == #[trigger] outbound_action(
                action@,
                engine@,
                origin@,
                msg_id,
            ),
{
    let msg_id = messages::new_msg_id();
    outbound_bridge_action_with_id(action, engine, origin, msg_id.as_str())
}

/// What to broadcast to the peers for an action of the local hub.
pub fn forward_to_remote(action: &WireMessage, engine: &MappingEngine, origin: &str) -> (r: Option<
    WireMessage,
>)
    ensures
        exists|msg_id: Seq<char>|
            ids::is_uuid_text(msg_id) && opt_message(r) == #[trigger] outbound_action(
                action@,
                engine@,
                origin@,
                msg_id,
            ),
{
    build_outbound_bridge_action(action, engine, origin)
}

/// The bridge unset for a param unset of the local hub. To the signal filters an
/// unset is a param.
pub open spec fn outbound_unset(
    address: Seq<char>,
    rules: Seq<RuleModel>,
    origin: Seq<char>,
    msg_id: Seq<char>,
) -> Option<MessageModel> {
    match mapping::mapping(rules, address, Direction::Outbound, Some("param"@)) {
        None => None,
        Some(mapped) => Some(messages::bridge_unset_message(origin, msg_id, 0, mapped)),
    }
}

/// What to broadcast to the peers for a param unset of the local hub, under the
/// given message id.
pub fn forward_unset_with_id(
    address: &str,
    engine: &MappingEngine,
    origin: &str,
    msg_id: &str,
) -> (r: Option<WireMessage>)
    ensures
        opt_message(r) == outbound_unset(address@, engine@, origin@, msg_id@),
{
    match engine.map(address, Direction::Outbound, Some("param")) {
        Some(mapped) => Some(messages::bridge_unset_with_id(origin, msg_id, 0, mapped.as_str())),
        None => None,
    }
}

/// What to broadcast to the peers for a param unset of the local hub. None where
/// no outbound rule maps the address.
pub fn forward_unset_to_remote(address: &str, engine: &MappingEngine, origin: &str) -> (r: Option<
    WireMessage,
>)
    ensures
        exists|msg_id: Seq<char>|
            ids::is_uuid_text(msg_id) && opt_message(r) == #[trigger] outbound_unset(
                address@,
                engine@,
                origin@,
                msg_id,
            ),
{
    let msg_id = messages::new_msg_id();
    forward_unset_with_id(address, engine, origin, msg_id.as_str())
}

// ---------------------------------------------------------------------------
// Remote peers to local hub
// ---------------------------------------------------------------------------

/// The address of a message; empty where there is none.
pub open spec fn address_or_empty(m: MessageModel) -> Seq<char> {
    match messages::message_text(m, "address"@) {
        Some(a) => a,
        None => Seq::empty(),
    }
}

/// The hub action that stands for a bridge action; none where no inbound rule
/// maps its address. It is immediate: the timestamp on the wire belongs to the
/// clock of another hub.
pub open spec fn inbound_action(m: MessageModel, rules: Seq<RuleModel>) -> Option<MessageModel> {
    match mapping::mapping(
        rules,
        address_or_empty(m),
        Direction::Inbound,
        Some(signal_name(m)),
    ) {
        None => None,
        Some(mapped) => Some(
            protocol::action_with_source_message(
                messages::message_source(m),
                mapped,
                signal_or_event(signal_name(m)),
                FloatValue { bits: 0 },
                messages::message_payload(m),
            ),
        ),
    }
}

/// The hub unset that stands for a bridge unset.
pub open spec fn inbound_unset(m: MessageModel, rules: Seq<RuleModel>) -> Option<MessageModel> {
    match mapping::mapping(rules, address_or_empty(m), Direction::Inbound, Some("param"@)) {
        None => None,
        Some(mapped) => Some(protocol::unset_param_message(mapped)),
    }
}

/// The address of a message; empty where there is none.
pub fn address_of(msg: &WireMessage) -> (r: String)
    ensures
        r@ == address_or_empty(msg@),
{
    match messages::get_address(msg) {
        Some(a) => a,
        None => String::new(),
    }
}

/// What to send to the local hub for an action of a remote peer.
pub fn forward_to_local(bridge_msg: &WireMessage, engine: &MappingEngine) -> (r: Option<WireMessage>)
    ensures
        opt_message(r) == inbound_action(bridge_msg@, engine@),
{
    let address = address_of(bridge_msg);
    let name = signal_type_name(bridge_msg);
    match engine.map(address.as_str(), Direction::Inbound, Some(name.as_str())) {
        Some(mapped) => Some(
            protocol::action_with_source(
                messages::get_source(bridge_msg),
                mapped.as_str(),
                signal_type_or_event(name.as_str()),
                FloatValue::zero(),
                messages::get_action_payload(bridge_msg),
            ),
        ),
        None => None,
    }
}

/// What to send to the local hub for a param unset of a remote peer.
pub fn forward_unset_to_local(bridge_msg: &WireMessage, engine: &MappingEngine) -> (r: Option<
    WireMessage,
>)
    ensures
        opt_message(r) == inbound_unset(bridge_msg@, engine@),
{
    let address = address_of(bridge_msg);
    match engine.map(address.as_str(), Direction::Inbound, Some("param")) {
        Some(mapped) => Some(protocol::unset_param(mapped.as_str())),
        None => None,
    }
}

// ---------------------------------------------------------------------------
// Laws
// ---------------------------------------------------------------------------

/// A forwarded action keeps source, signal type, timestamp and payload, and is
/// tagged with the origin and the message id.
pub proof fn law_outbound_action_keeps_content(
    m: MessageModel,
    rules: Seq<RuleModel>,
    origin: Seq<char>,
    msg_id: Seq<char>,
)
    ensures
        outbound_action(m, rules, origin, msg_id) matches Some(out) ==> {
            &&& out.msg_type == messages::MSG_BRIDGE_ACTION@
            &&& messages::message_text(out, "origin"@) == Some(origin)
            &&& messages::message_text(out, "msg_id"@) == Some(msg_id)
            &&& messages::message_source(out) == messages::message_source(m)
            &&& messages::message_timestamp(out) == messages::message_timestamp(m)
            &&& messages::message_payload(out) == messages::message_payload(m)
            &&& signal_or_event(signal_name(out)) == signal_or_event(signal_name(m))
        },
{
    if let Some(out) = outbound_action(m, rules, origin, msg_id) {
        let address = messages::message_text(m, "address"@)->0;
        let mapped = mapping::mapping(
            rules,
            address,
            Direction::Outbound,
            Some(signal_name(m)),
        )->0;
        messages::law_bridge_action_reads_back(
            origin,
            msg_id,
            messages::message_source(m),
            mapped,
            signal_or_event(signal_name(m)),
            messages::message_timestamp(m),
            messages::message_payload(m),
        );
        reveal_strlit("event");
        reveal_strlit("param");
        reveal_strlit("stream");
        assert("event"@.len() == 5 && "param"@.len() == 5 && "stream"@.len() == 6);
        assert("event"@[0] != "param"@[0]);
    }
}

/// Through two bridges a message keeps its source, its signal type and its
/// payload, and reaches the far hub as immediate.
pub proof fn law_bridged_action_keeps_content(
    m: MessageModel,
    rules: Seq<RuleModel>,
    far_rules: Seq<RuleModel>,
    origin: Seq<char>,
    msg_id: Seq<char>,
)
    ensures
        outbound_action(m, rules, origin, msg_id) matches Some(out) ==> (inbound_action(
            out,
            far_rules,
        ) matches Some(delivered) ==> {
            &&& messages::message_source(delivered) == messages::message_source(m)
            &&& messages::message_payload(delivered) == messages::message_payload(m)
            &&& signal_or_event(signal_name(delivered)) == signal_or_event(signal_name(m))
            &&& messages::message_timestamp(delivered) == (FloatValue { bits: 0 })
        }),
{
    if let Some(out) = outbound_action(m, rules, origin, msg_id) {
        law_outbound_action_keeps_content(m, rules, origin, msg_id);
        if let Some(delivered) = inbound_action(out, far_rules) {
            let mapped = mapping::mapping(
                far_rules,
                address_or_empty(out),
                Direction::Inbound,
                Some(signal_name(out)),
            )->0;
            protocol::law_action_with_source_reads_back(
                messages::message_source(out),
                mapped,
                signal_or_event(signal_name(out)),
                FloatValue { bits: 0 },
                messages::message_payload(out),
            );
            reveal_strlit("event");
            reveal_strlit("param");
            reveal_strlit("stream");
            assert("event"@.len() == 5 && "param"@.len() == 5 && "stream"@.len() == 6);
            assert("event"@[0] != "param"@[0]);
        }
    }
}

/// An action goes out exactly where the rules map its address outbound for its signal
/// type, and under the address that they give.
pub proof fn law_outbound_action_is_mapped(
    m: MessageModel,
    rules: Seq<RuleModel>,
    origin: Seq<char>,
    msg_id: Seq<char>,
    address: Seq<char>,
    signal_type: Seq<char>,
)
    requires
        messages::message_text(m, "address"@) == Some(address),
        messages::message_text(m, "signal_type"@) == Some(signal_type),
    ensures
        ({
            let mapped = mapping::mapping(rules, address, Direction::Outbound, Some(signal_type));
            let out = outbound_action(m, rules, origin, msg_id);
            &&& out is Some <==> mapped is Some
            &&& out is Some ==> messages::message_text(out->0, "address"@) == mapped
        }),
{
    if let Some(mapped) = mapping::mapping(rules, address, Direction::Outbound, Some(signal_type)) {
        messages::law_bridge_action_reads_back(
            origin,
            msg_id,
            messages::message_source(m),
            mapped,
            signal_or_event(signal_type),
            messages::message_timestamp(m),
            messages::message_payload(m),
        );
    }
}

/// What comes from a peer reaches the hub exactly where the rules map its address inbound
/// for its signal type, and under the address that they give.
pub proof fn law_inbound_action_is_mapped(
    m: MessageModel,
    rules: Seq<RuleModel>,
    address: Seq<char>,
    signal_type: Seq<char>,
)
    requires
        messages::message_text(m, "address"@) == Some(address),
        messages::message_text(m, "signal_type"@) == Some(signal_type),
    ensures
        ({
            let mapped = mapping::mapping(rules, address, Direction::Inbound, Some(signal_type));
            let delivered = inbound_action(m, rules);
            &&& delivered is Some <==> mapped is Some
            &&& delivered is Some ==> delivered->0.msg_type == protocol::MSG_ACTION@
            &&& delivered is Some ==> messages::message_text(delivered->0, "address"@) == mapped
            &&& delivered is Some ==> messages::message_source(delivered->0)
                == messages::message_source(m)
            &&& delivered is Some ==> messages::message_payload(delivered->0)
                == messages::message_payload(m)
        }),
{
    if let Some(mapped) = mapping::mapping(rules, address, Direction::Inbound, Some(signal_type)) {
        protocol::law_action_with_source_reads_back(
            messages::message_source(m),
            mapped,
            signal_or_event(signal_type),
            FloatValue { bits: 0 },
            messages::message_payload(m),
        );
    }
}

/// A message without a signal type is forwarded like one that says it is an event.
pub proof fn law_untyped_message_is_an_event(a: MessageModel, b: MessageModel)
    requires
        messages::message_text(a, "signal_type"@) is None,
        messages::message_text(b, "signal_type"@) == Some("event"@),
        messages::message_text(a, "address"@) == messages::message_text(b, "address"@),
        messages::message_source(a) == messages::message_source(b),
        messages::message_timestamp(a) == messages::message_timestamp(b),
        messages::message_payload(a) == messages::message_payload(b),
    ensures
        forall|rules: Seq<RuleModel>, origin: Seq<char>, msg_id: Seq<char>|
            outbound_action(a, rules, origin, msg_id) == #[trigger] outbound_action(
                b,
                rules,
                origin,
                msg_id,
            ),
        forall|rules: Seq<RuleModel>|
            inbound_action(a, rules) == #[trigger] inbound_action(b, rules),
{
}

/// A message without an address does not go out.
pub proof fn law_message_without_address_stays(
    m: MessageModel,
    rules: Seq<RuleModel>,
    origin: Seq<char>,
    msg_id: Seq<char>,
)
    requires
        messages::message_text(m, "address"@) is None,
    ensures
        outbound_action(m, rules, origin, msg_id) is None,
{
}

/// An unset follows its param: it goes out where the param does, under the same address,
/// with the origin and the message id of the bridge and no source; and what comes from a
/// peer reaches the hub where the param does, under the same address.
pub proof fn law_unset_follows_its_param(
    m: MessageModel,
    unset: MessageModel,
    rules: Seq<RuleModel>,
    origin: Seq<char>,
    msg_id: Seq<char>,
    address: Seq<char>,
)
    requires
        messages::message_text(m, "address"@) == Some(address),
        messages::message_text(m, "signal_type"@) == Some("param"@),
        messages::message_text(unset, "address"@) == Some(address),
    ensures
        ({
            let param = outbound_action(m, rules, origin, msg_id);
            let gone = outbound_unset(address, rules, origin, msg_id);
            &&& gone is Some <==> param is Some
            &&& gone is Some ==> {
                &&& gone->0.msg_type == messages::MSG_BRIDGE_UNSET@
                &&& messages::message_text(gone->0, "address"@) == messages::message_text(
                    param->0,
                    "address"@,
                )
                &&& messages::message_text(gone->0, "origin"@) == Some(origin)
                &&& messages::message_text(gone->0, "msg_id"@) == Some(msg_id)
                &&& messages::message_source(gone->0) == 0
            }
        }),
        ({
            let param = inbound_action(m, rules);
            let gone = inbound_unset(unset, rules);
            &&& gone is Some <==> param is Some
            &&& gone is Some ==> {
                &&& gone->0.msg_type == protocol::MSG_UNSET_PARAM@
                &&& messages::message_text(gone->0, "address"@) == messages::message_text(
                    param->0,
                    "address"@,
                )
            }
        }),
{
    law_outbound_action_is_mapped(m, rules, origin, msg_id, address, "param"@);
    law_inbound_action_is_mapped(m, rules, address, "param"@);
    if let Some(mapped) = mapping::mapping(rules, address, Direction::Outbound, Some("param"@)) {
        messages::law_bridge_unset_reads_back(origin, msg_id, 0, mapped);
    }
    if let Some(mapped) = mapping::mapping(rules, address, Direction::Inbound, Some("param"@)) {
        assert(messages::message_text(protocol::unset_param_message(mapped), "address"@) == Some(
            mapped,
        ));
    }
}

/// Between two hubs whose bridges pass a subtree out and back in, an action arrives under
/// the address that it was sent to.
pub proof fn law_passthrough_delivers_to_the_same_address(
    m: MessageModel,
    near: Seq<char>,
    far: Seq<char>,
    origin: Seq<char>,
    msg_id: Seq<char>,
    address: Seq<char>,
)
    requires
        messages::message_text(m, "address"@) == Some(address),
        mapping::is_base(near),
        mapping::is_base(far),
        crate::routing::pattern_accepts(mapping::subtree(near), address),
        near.len() > 0 ==> address != near.push('/'),
    ensures
        ({
            let rules = mapping::passthrough_rules(near, far);
            outbound_action(m, rules, origin, msg_id) matches Some(out) && inbound_action(
                out,
                rules,
            ) matches Some(delivered) && messages::message_text(delivered, "address"@) == Some(
                address,
            ) && messages::message_payload(delivered) == messages::message_payload(m)
        }),
{
    let rules = mapping::passthrough_rules(near, far);
    let signal_type = signal_name(m);
    mapping::law_passthrough_round_trips(near, far, address, Some(signal_type));
    let there = mapping::mapping(rules, address, Direction::Outbound, Some(signal_type))->0;
    messages::law_bridge_action_reads_back(
        origin,
        msg_id,
        messages::message_source(m),
        there,
        signal_or_event(signal_type),
        messages::message_timestamp(m),
        messages::message_payload(m),
    );
    let out = outbound_action(m, rules, origin, msg_id)->0;
    let again = protocol::signal_text(signal_or_event(signal_type));
    mapping::law_passthrough_round_trips(near, far, address, Some(again));
    mapping::lemma_filterless(rules, there, Direction::Inbound, Some(again), Some(signal_type));
    law_inbound_action_is_mapped(out, rules, there, again);
}

/// The name of a signal type stands for that signal type, and any other name for an event.
pub proof fn law_signal_names(signal: SignalType, name: Seq<char>)
    ensures
        signal_or_event(protocol::signal_text(signal)) == signal,
        name != protocol::signal_text(SignalType::Param) && name != protocol::signal_text(
            SignalType::Stream,
        ) ==> signal_or_event(name) == SignalType::Event,
{
    protocol::law_signal_name_round_trip(signal);
    protocol::law_signal_name_round_trip(SignalType::Param);
    protocol::law_signal_name_round_trip(SignalType::Stream);
}

} // verus!
