//! A session with a remote peer: handshake, outbound and inbound messages.
//!
//! The functions here decide; whoever runs the connection performs what they
//! say and hands back what happened.
use vstd::prelude::*;

use crate::bridge::forward;
use crate::bridge::loop_guard;
use crate::bridge::loop_guard::LoopGuard;
use crate::bridge::mapping;
use crate::bridge::mapping::{MappingEngine, RuleModel};
use crate::bridge::protocol as messages;
use crate::protocol;
use crate::protocol::{MessageModel, WireMessage};
use crate::text;
use crate::values::Value;

verus! {

// ---------------------------------------------------------------------------
// Addresses
// ---------------------------------------------------------------------------

/// A host and a port, with brackets round a bare IPv6 literal.
pub open spec fn bracketed_host_port(host: Seq<char>, port: u16) -> Seq<char> {
    if host.contains(':') && host[0] != '[' {
        text::host_port(seq!['['] + host + seq![']'], port)
    } else {
        text::host_port(host, port)
    }
}

/// Formats a host and a port for parsing or resolution, with brackets round a
/// bare IPv6 literal.
pub fn format_host_port(host: &str, port: u16) -> (r: String)
    ensures
        r@ == bracketed_host_port(host@, port),
{
    let v = text::chars_of(host);
    if text::has_char(&v, ':') && v[0] != '[' {
        let mut out: Vec<char> = vec!['['];
        let mut rest = text::chars_of(host);
        out.append(&mut rest);
        out.push(']');
        assert(out@ =~= seq!['['] + host@ + seq![']']);
        let bracketed = text::string_of(&out);
        text::join_host_port(bracketed.as_str(), port)
    } else {
        text::join_host_port(host, port)
    }
}

// ---------------------------------------------------------------------------
// Handshake
// ---------------------------------------------------------------------------

/// Identity of a remote bridge.
#[derive(Debug, Clone)]
pub struct PeerInfo {
    /// Remote bridge id.
    pub bridge_id: String,
    /// Remote bridge name.
    pub name: String,
}

/// What a peer identity is, mathematically.
pub struct PeerModel {
    pub bridge_id: Seq<char>,
    pub name: Seq<char>,
}

impl View for PeerInfo {
    type V = PeerModel;

    open spec fn view(&self) -> PeerModel {
        PeerModel { bridge_id: self.bridge_id@, name: self.name@ }
    }
}

/// Why a hello is refused.
#[derive(Debug)]
pub enum HelloError {
    /// The message has another type, which is given.
    NotHello(String),
    /// The payload is no map.
    NotMap,
}

/// What a refusal is, mathematically.
pub enum HelloErrorModel {
    NotHello(Seq<char>),
    NotMap,
}

impl View for HelloError {
    type V = HelloErrorModel;

    open spec fn view(&self) -> HelloErrorModel {
        match *self {
            HelloError::NotHello(t) => HelloErrorModel::NotHello(t@),
            HelloError::NotMap => HelloErrorModel::NotMap,
        }
    }
}

/// The text, or `unknown` where there is none.
pub open spec fn or_unknown(s: Option<Seq<char>>) -> Seq<char> {
    match s {
        Some(t) => t,
        None => "unknown"@,
    }
}

/// The peer that a hello stands for.
pub open spec fn hello_peer(m: MessageModel) -> Result<PeerModel, HelloErrorModel> {
    if m.msg_type != messages::MSG_BRIDGE_HELLO@ {
        Err(HelloErrorModel::NotHello(m.msg_type))
    } else if !(m.payload is Dict) {
        Err(HelloErrorModel::NotMap)
    } else {
        Ok(
            PeerModel {
                bridge_id: or_unknown(messages::message_text(m, "bridge_id"@)),
                name: or_unknown(messages::message_text(m, "name"@)),
            },
        )
    }
}

/// What the reading of a hello stands for.
pub open spec fn peer_result(r: Result<PeerInfo, HelloError>) -> Result<
    PeerModel,
    HelloErrorModel,
> {
    match r {
        Ok(p) => Ok(p@),
        Err(e) => Err(e@),
    }
}

/// Reads the hello of a peer. A missing id or name is `unknown`.
pub fn parse_peer_hello(peer_hello: &WireMessage) -> (r: Result<PeerInfo, HelloError>)
    ensures
        peer_result(r) == hello_peer(peer_hello@),
{
    if !protocol::is_type(peer_hello, messages::MSG_BRIDGE_HELLO) {
        return Err(HelloError::NotHello(peer_hello.msg_type.clone()));
    }
    let payload = match &peer_hello.payload {
        Value::Dict(m) => m,
        _ => {
            return Err(HelloError::NotMap);
        },
    };
    let bridge_id = match protocol::get_string(payload, "bridge_id") {
        Some(s) => s,
        None => "unknown".to_owned(),
    };
    let name = match protocol::get_string(payload, "name") {
        Some(s) => s,
        None => "unknown".to_owned(),
    };
    Ok(PeerInfo { bridge_id, name })
}

/// How a handshake begins.
#[derive(Debug)]
pub enum HandshakeStart {
    /// Open a stream, send this hello, then read the peer's.
    SendThenRead(WireMessage),
    /// Accept the peer's stream and read its hello; send nothing yet.
    ReadFirst,
}

/// The hello that a side speaks first with: the dialling side does.
pub open spec fn first_hello(
    is_inbound: bool,
    id: Seq<char>,
    name: Seq<char>,
    token: Option<Seq<char>>,
) -> Option<MessageModel> {
    if is_inbound {
        None
    } else {
        Some(messages::bridge_hello_message(id, name, token))
    }
}

/// The hello that a side answers with, once the peer is accepted: the side that was dialled
/// does.
pub open spec fn reply_hello(
    is_inbound: bool,
    id: Seq<char>,
    name: Seq<char>,
    token: Option<Seq<char>>,
) -> Option<MessageModel> {
    if is_inbound {
        Some(messages::bridge_hello_message(id, name, token))
    } else {
        None
    }
}

/// Begins a handshake. The dialling side speaks first; the side that was dialled
/// waits, so that an unauthenticated peer learns nothing about it.
pub fn begin_handshake(
    is_inbound: bool,
    local_bridge_id: &str,
    local_name: &str,
    auth_token: Option<&str>,
) -> (r: HandshakeStart)
    ensures
        match r {
            HandshakeStart::SendThenRead(hello) => !is_inbound && hello@
                == messages::bridge_hello_message(
                local_bridge_id@,
                local_name@,
                mapping::opt_str(auth_token),
            ),
            HandshakeStart::ReadFirst => is_inbound,
        },
        (match r {
            HandshakeStart::SendThenRead(hello) => Some(hello@),
            HandshakeStart::ReadFirst => None::<MessageModel>,
        }) == first_hello(is_inbound, local_bridge_id@, local_name@, mapping::opt_str(auth_token)),
{
    if is_inbound {
        HandshakeStart::ReadFirst
    } else {
        HandshakeStart::SendThenRead(
            messages::bridge_hello(local_bridge_id, local_name, auth_token),
        )
    }
}

/// How a handshake goes on once the peer's hello was read.
#[derive(Debug)]
pub enum HandshakeOutcome {
    /// The token is wrong: close the connection, and send nothing.
    Unauthenticated,
    /// Send this hello where there is one; then the handshake is over, with this
    /// result.
    Complete { reply: Option<WireMessage>, peer: Result<PeerInfo, HelloError> },
}

/// Decides on the hello of a peer. The token is verified before anything is
/// sent; the side that was dialled then replies with its own hello.
pub fn complete_handshake(
    is_inbound: bool,
    peer_hello: &WireMessage,
    local_bridge_id: &str,
    local_name: &str,
    auth_token: Option<&str>,
) -> (r: HandshakeOutcome)
    ensures
        match r {
            HandshakeOutcome::Unauthenticated => !messages::token_accepted(
                mapping::opt_str(auth_token),
                messages::message_text(peer_hello@, "auth_token"@),
            ),
            HandshakeOutcome::Complete { reply, peer } => {
                &&& messages::token_accepted(
                    mapping::opt_str(auth_token),
                    messages::message_text(peer_hello@, "auth_token"@),
                )
                &&& forward::opt_message(reply) == (if is_inbound {
                    Some(
                        messages::bridge_hello_message(
                            local_bridge_id@,
                            local_name@,
                            mapping::opt_str(auth_token),
                        ),
                    )
                } else {
                    None
                })
                &&& peer_result(peer) == hello_peer(peer_hello@)
                &&& forward::opt_message(reply) == reply_hello(
                    is_inbound,
                    local_bridge_id@,
                    local_name@,
                    mapping::opt_str(auth_token),
                )
            },
        },
{
    let presented = messages::get_auth_token(peer_hello);
    let presented_str: Option<&str> = match &presented {
        Some(s) => Some(s.as_str()),
        None => None,
    };
    if !messages::auth_token_matches(auth_token, presented_str) {
        return HandshakeOutcome::Unauthenticated;
    }
    let reply = if is_inbound {
        Some(messages::bridge_hello(local_bridge_id, local_name, auth_token))
    } else {
        None
    };
    HandshakeOutcome::Complete { reply, peer: parse_peer_hello(peer_hello) }
}

// ---------------------------------------------------------------------------
// Outbound
// ---------------------------------------------------------------------------

/// How a message travels to the peer.
#[derive(Debug, Clone, Copy, PartialEq, Eq, Structural)]
pub enum SendRoute {
    /// Best-effort datagram.
    Datagram,
    /// Reliable stream.
    Reliable,
}

/// Stream signals travel as datagrams, everything else on the reliable stream.
pub fn send_route(msg: &WireMessage) -> (r: SendRoute)
    ensures
        r == (if forward::signal_name(msg@) == "stream"@ {
            SendRoute::Datagram
        } else {
            SendRoute::Reliable
        }),
{
    let name = forward::signal_type_name(msg);
    if text::same(name.as_str(), "stream") {
        SendRoute::Datagram
    } else {
        SendRoute::Reliable
    }
}

/// What became of a message that was to be sent.
#[derive(Debug, Clone, Copy, PartialEq, Eq, Structural)]
pub enum SendReport {
    /// It was sent.
    Sent,
    /// It could not be encoded as a datagram.
    EncodeFailed,
    /// The datagram was dropped for congestion, size or capability reasons.
    DatagramDropped,
    /// The connection was lost on a datagram.
    ConnectionLost,
    /// The reliable stream could not be written.
    StreamFailed,
}

/// Whether a session goes on after a send: only a failure of the connection ends
/// it; a lost datagram does not.
pub open spec fn survives(report: SendReport) -> bool {
    report != SendReport::ConnectionLost && report != SendReport::StreamFailed
}

/// Where the writer of a session stands.
#[derive(Debug, Clone, Copy, PartialEq, Eq, Structural)]
pub enum WriterPhase {
    /// Param state is replayed; live traffic waits.
    Replaying,
    /// Live traffic.
    Live,
    /// The send stream is closed.
    Finished,
}

/// What happens to the writer of a session.
#[derive(Debug)]
pub enum WriterEvent {
    /// The session is cancelled.
    Cancelled,
    /// The replay has a message.
    Replay(WireMessage),
    /// The replay is over.
    ReplayDone,
    /// Live traffic has a message.
    Broadcast(WireMessage),
    /// The writer was too slow, and missed live messages.
    Lagged,
    /// There will be no more live traffic.
    Closed,
    /// A message was handled.
    Reported(SendReport),
}

/// What the writer of a session does next.
#[derive(Debug)]
pub enum WriterAction {
    /// Wait for the next event.
    Wait,
    /// Send this message on this route.
    Send(WireMessage, SendRoute),
    /// Close the send stream.
    Finish,
}

/// The phase after an event. The replay is sent in full before live traffic.
pub open spec fn next_phase(phase: WriterPhase, event: WriterEvent) -> WriterPhase {
    match phase {
        WriterPhase::Finished => WriterPhase::Finished,
        WriterPhase::Replaying => match event {
            WriterEvent::Cancelled => WriterPhase::Finished,
            WriterEvent::ReplayDone => WriterPhase::Live,
            WriterEvent::Reported(report) => if survives(report) {
                WriterPhase::Replaying
            } else {
                WriterPhase::Finished
            },
            _ => WriterPhase::Replaying,
        },
        WriterPhase::Live => match event {
            WriterEvent::Cancelled => WriterPhase::Finished,
            WriterEvent::Closed => WriterPhase::Finished,
            WriterEvent::Reported(report) => if survives(report) {
                WriterPhase::Live
            } else {
                WriterPhase::Finished
            },
            _ => WriterPhase::Live,
        },
    }
}

/// The message that an event asks to send in a phase.
pub open spec fn message_to_send(phase: WriterPhase, event: WriterEvent) -> Option<MessageModel> {
    match (phase, event) {
        (WriterPhase::Replaying, WriterEvent::Replay(m)) => Some(m@),
        (WriterPhase::Live, WriterEvent::Broadcast(m)) => Some(m@),
        _ => None,
    }
}

/// Decides what the writer of a session does.
pub fn writer_step(phase: WriterPhase, event: WriterEvent) -> (r: (WriterPhase, WriterAction))
    ensures
        r.0 == next_phase(phase, event),
        match r.1 {
            WriterAction::Send(m, route) => message_to_send(phase, event) == Some(m@) && route == (
            if forward::signal_name(m@) == "stream"@ {
                SendRoute::Datagram
            } else {
                SendRoute::Reliable
            }),
            WriterAction::Finish => message_to_send(phase, event) is None && phase
                != WriterPhase::Finished && r.0 == WriterPhase::Finished,
            WriterAction::Wait => message_to_send(phase, event) is None && (phase
                == WriterPhase::Finished || r.0 != WriterPhase::Finished),
        },
{
    match phase {
        WriterPhase::Finished => (WriterPhase::Finished, WriterAction::Wait),
        WriterPhase::Replaying => match event {
            WriterEvent::Cancelled => (WriterPhase::Finished, WriterAction::Finish),
            WriterEvent::Replay(m) => {
                let route = send_route(&m);
                (WriterPhase::Replaying, WriterAction::Send(m, route))
            },
            WriterEvent::ReplayDone => (WriterPhase::Live, WriterAction::Wait),
            WriterEvent::Reported(report) => after_report(WriterPhase::Replaying, report),
            _ => (WriterPhase::Replaying, WriterAction::Wait),
        },
        WriterPhase::Live => match event {
            WriterEvent::Cancelled => (WriterPhase::Finished, WriterAction::Finish),
            WriterEvent::Broadcast(m) => {
                let route = send_route(&m);
                (WriterPhase::Live, WriterAction::Send(m, route))
            },
            WriterEvent::Closed => (WriterPhase::Finished, WriterAction::Finish),
            WriterEvent::Reported(report) => after_report(WriterPhase::Live, report),
            _ => (WriterPhase::Live, WriterAction::Wait),
        },
    }
}

fn after_report(phase: WriterPhase, report: SendReport) -> (r: (WriterPhase, WriterAction))
    ensures
        survives(report) ==> r == (phase, WriterAction::Wait),
        !survives(report) ==> r == (WriterPhase::Finished, WriterAction::Finish),
{
    match report {
        SendReport::ConnectionLost | SendReport::StreamFailed => (
            WriterPhase::Finished,
            WriterAction::Finish,
        ),
        _ => (phase, WriterAction::Wait),
    }
}

// ---------------------------------------------------------------------------
// Inbound
// ---------------------------------------------------------------------------

/// What to do with a message of a peer.
#[derive(Debug)]
pub enum InboundOutcome {
    /// It has looped back to its origin: drop it.
    Looped,
    /// It was seen before: drop it.
    Duplicate,
    /// Forward it unchanged to the peers, and send `to_hub`, where there is such
    /// a message, to the local hub.
    Forward { reforward: WireMessage, to_hub: Option<WireMessage> },
    /// A hello or a ping: nothing to do.
    Ignored,
    /// A message of an unknown type: nothing to do.
    Unknown,
}

/// What an outcome is, mathematically.
pub enum InboundModel {
    Looped,
    Duplicate,
    Forward { reforward: MessageModel, to_hub: Option<MessageModel> },
    Ignored,
    Unknown,
}

impl View for InboundOutcome {
    type V = InboundModel;

    open spec fn view(&self) -> InboundModel {
        match *self {
            InboundOutcome::Looped => InboundModel::Looped,
            InboundOutcome::Duplicate => InboundModel::Duplicate,
            InboundOutcome::Forward { reforward, to_hub } => InboundModel::Forward {
                reforward: reforward@,
                to_hub: forward::opt_message(to_hub),
            },
            InboundOutcome::Ignored => InboundModel::Ignored,
            InboundOutcome::Unknown => InboundModel::Unknown,
        }
    }
}

/// Whether a message is one that travels on from bridge to bridge.
pub open spec fn travels(m: MessageModel) -> bool {
    m.msg_type == messages::MSG_BRIDGE_ACTION@ || m.msg_type == messages::MSG_BRIDGE_UNSET@
}

/// Whether a message has looped back to the bridge `id`.
pub open spec fn looped(m: MessageModel, id: Seq<char>) -> bool {
    messages::message_text(m, "origin"@) == Some(id)
}

/// Whether a message is among those seen.
pub open spec fn repeated(m: MessageModel, seen: Seq<Seq<char>>) -> bool {
    messages::message_text(m, "msg_id"@) matches Some(msg_id) && seen.contains(msg_id)
}

/// What the bridge `id` does with a message of a peer, having seen the message
/// ids `seen`.
pub open spec fn inbound_outcome(
    m: MessageModel,
    id: Seq<char>,
    seen: Seq<Seq<char>>,
    rules: Seq<RuleModel>,
) -> InboundModel {
    if travels(m) {
        if looped(m, id) {
            InboundModel::Looped
        } else if repeated(m, seen) {
            InboundModel::Duplicate
        } else {
            InboundModel::Forward {
                reforward: m,
                to_hub: if m.msg_type == messages::MSG_BRIDGE_ACTION@ {
                    forward::inbound_action(m, rules)
                } else {
                    forward::inbound_unset(m, rules)
                },
            }
        }
    } else if m.msg_type == messages::MSG_BRIDGE_HELLO@ || m.msg_type
        == messages::MSG_BRIDGE_PING@ {
        InboundModel::Ignored
    } else {
        InboundModel::Unknown
    }
}

/// The message ids that the bridge `id` has seen after a message of a peer.
pub open spec fn seen_after(
    m: MessageModel,
    id: Seq<char>,
    seen: Seq<Seq<char>>,
) -> Seq<Seq<char>> {
    match messages::message_text(m, "msg_id"@) {
        Some(msg_id) => if travels(m) && !looped(m, id) {
            loop_guard::remember(seen, msg_id)
        } else {
            seen
        },
        None => seen,
    }
}

fn check_message(msg: &WireMessage, guard: &mut LoopGuard) -> (r: Option<InboundOutcome>)
    ensures
        final(guard).id() == old(guard).id(),
        final(guard).seen() == (match messages::message_text(msg@, "msg_id"@) {
            Some(msg_id) => if looped(msg@, old(guard).id()) {
                old(guard).seen()
            } else {
                loop_guard::remember(old(guard).seen(), msg_id)
            },
            None => old(guard).seen(),
        }),
        match r {
            Some(o) => (looped(msg@, old(guard).id()) && o@ == InboundModel::Looped) || (!looped(
                msg@,
                old(guard).id(),
            ) && repeated(msg@, old(guard).seen()) && o@ == InboundModel::Duplicate),
            None => !looped(msg@, old(guard).id()) && !repeated(msg@, old(guard).seen()),
        },
{
    if let Some(origin) = messages::get_origin(msg) {
        if guard.is_loop(origin.as_str()) {
            return Some(InboundOutcome::Looped);
        }
    }
    if let Some(msg_id) = messages::get_msg_id(msg) {
        if !guard.check_and_record(msg_id.as_str()) {
            return Some(InboundOutcome::Duplicate);
        }
    }
    None
}

/// Decides on a message of a peer: loops and duplicates are dropped; actions and
/// unsets are forwarded unchanged to the other peers, and, where an inbound rule
/// maps their address, brought to the local hub.
pub fn handle_inbound_message(
    msg: &WireMessage,
    guard: &mut LoopGuard,
    engine: &MappingEngine,
) -> (r: InboundOutcome)
    ensures
        r@ == inbound_outcome(msg@, old(guard).id(), old(guard).seen(), engine@),
        final(guard).seen() == seen_after(msg@, old(guard).id(), old(guard).seen()),
        final(guard).id() == old(guard).id(),
{
    proof {
        lemma_message_types();
    }
    let is_action = protocol::is_type(msg, messages::MSG_BRIDGE_ACTION);
    let is_unset = protocol::is_type(msg, messages::MSG_BRIDGE_UNSET);
    if is_action || is_unset {
        if let Some(dropped) = check_message(msg, guard) {
            return dropped;
        }
        let to_hub = if is_action {
            forward::forward_to_local(msg, engine)
        } else {
            forward::forward_unset_to_local(msg, engine)
        };
        return InboundOutcome::Forward { reforward: msg.clone(), to_hub };
    }
    if protocol::is_type(msg, messages::MSG_BRIDGE_HELLO) || protocol::is_type(
        msg,
        messages::MSG_BRIDGE_PING,
    ) {
        return InboundOutcome::Ignored;
    }
    InboundOutcome::Unknown
}

// ---------------------------------------------------------------------------
// Laws
// ---------------------------------------------------------------------------

/// The message types of bridges are different texts.
pub proof fn lemma_message_types()
    ensures
        messages::MSG_BRIDGE_ACTION@ != messages::MSG_BRIDGE_UNSET@,
        messages::MSG_BRIDGE_ACTION@ != messages::MSG_BRIDGE_HELLO@,
        messages::MSG_BRIDGE_ACTION@ != messages::MSG_BRIDGE_PING@,
        messages::MSG_BRIDGE_UNSET@ != messages::MSG_BRIDGE_HELLO@,
        messages::MSG_BRIDGE_UNSET@ != messages::MSG_BRIDGE_PING@,
        messages::MSG_BRIDGE_HELLO@ != messages::MSG_BRIDGE_PING@,
{
    reveal_strlit("bridge_action");
    reveal_strlit("bridge_unset");
    reveal_strlit("bridge_hello");
    reveal_strlit("bridge_ping");
    assert("bridge_action"@.len() == 13 && "bridge_unset"@.len() == 12 && "bridge_hello"@.len()
        == 12 && "bridge_ping"@.len() == 11);
    assert("bridge_unset"@[7] != "bridge_hello"@[7]);
}

/// A message never comes back to the bridge that it started from: neither the
/// hub nor the peers get it again.
pub proof fn law_own_messages_are_dropped(
    m: MessageModel,
    id: Seq<char>,
    seen: Seq<Seq<char>>,
    rules: Seq<RuleModel>,
)
    requires
        travels(m),
        messages::message_text(m, "origin"@) == Some(id),
    ensures
        inbound_outcome(m, id, seen, rules) == InboundModel::Looped,
        seen_after(m, id, seen) == seen,
{
}

/// A message with an id is processed at most once: a second sighting is dropped.
pub proof fn law_second_sighting_is_dropped(
    m: MessageModel,
    again: MessageModel,
    id: Seq<char>,
    seen: Seq<Seq<char>>,
    rules: Seq<RuleModel>,
)
    requires
        travels(m),
        travels(again),
        messages::message_text(m, "msg_id"@) is Some,
        messages::message_text(again, "msg_id"@) == messages::message_text(m, "msg_id"@),
        !looped(m, id),
    ensures
        !(inbound_outcome(again, id, seen_after(m, id, seen), rules) is Forward),
{
    loop_guard::law_recorded_is_duplicate(seen, messages::message_text(m, "msg_id"@)->0);
}

/// The message ids that the bridge `id` has seen after several messages of peers.
pub open spec fn seen_through(
    ms: Seq<MessageModel>,
    id: Seq<char>,
    seen: Seq<Seq<char>>,
) -> Seq<Seq<char>>
    decreases ms.len(),
{
    if ms.len() == 0 {
        seen
    } else {
        seen_after(ms.last(), id, seen_through(ms.drop_last(), id, seen))
    }
}

/// Messages of peers add at most one id each to those seen.
proof fn lemma_seen_through(ms: Seq<MessageModel>, id: Seq<char>, seen: Seq<Seq<char>>) -> (ids:
    Seq<Seq<char>>)
    ensures
        seen_through(ms, id, seen) == loop_guard::remember_all(seen, ids),
        ids.len() <= ms.len(),
    decreases ms.len(),
{
    if ms.len() == 0 {
        Seq::empty()
    } else {
        let ids = lemma_seen_through(ms.drop_last(), id, seen);
        let last = ms.last();
        match messages::message_text(last, "msg_id"@) {
            Some(msg_id) => if travels(last) && !looped(last, id) {
                assert(ids.push(msg_id).drop_last() =~= ids);
                ids.push(msg_id)
            } else {
                ids
            },
            None => ids,
        }
    }
}

proof fn lemma_seen_in_parts(
    first: Seq<MessageModel>,
    rest: Seq<MessageModel>,
    id: Seq<char>,
    seen: Seq<Seq<char>>,
)
    ensures
        seen_through(first + rest, id, seen) == seen_through(
            rest,
            id,
            seen_through(first, id, seen),
        ),
    decreases rest.len(),
{
    let all = first + rest;
    if rest.len() == 0 {
        assert(all =~= first);
    } else {
        lemma_seen_in_parts(first, rest.drop_last(), id, seen);
        assert(all.drop_last() =~= first + rest.drop_last());
        assert(all.last() == rest.last());
    }
}

proof fn lemma_seen_is_bounded(ms: Seq<MessageModel>, id: Seq<char>, seen: Seq<Seq<char>>)
    requires
        seen.len() <= loop_guard::SEEN_CAP,
    ensures
        seen_through(ms, id, seen).len() <= loop_guard::SEEN_CAP,
    decreases ms.len(),
{
    if ms.len() > 0 {
        lemma_seen_is_bounded(ms.drop_last(), id, seen);
    }
}

/// Of the messages that peers bring, by whatever ways, a bridge forwards one with
/// a given id at most once, as long as fewer than `SEEN_CAP` messages lie between
/// two sightings.
pub proof fn law_message_is_forwarded_once(
    ms: Seq<MessageModel>,
    id: Seq<char>,
    seen: Seq<Seq<char>>,
    rules: Seq<RuleModel>,
    i: int,
    j: int,
)
    requires
        seen.len() <= loop_guard::SEEN_CAP,
        0 <= i < j < ms.len(),
        j - i <= loop_guard::SEEN_CAP,
        messages::message_text(ms[i], "msg_id"@) is Some,
        messages::message_text(ms[j], "msg_id"@) == messages::message_text(ms[i], "msg_id"@),
        inbound_outcome(ms[i], id, seen_through(ms.take(i), id, seen), rules) is Forward,
    ensures
        !(inbound_outcome(ms[j], id, seen_through(ms.take(j), id, seen), rules) is Forward),
{
    let msg_id = messages::message_text(ms[i], "msg_id"@)->0;
    let before = seen_through(ms.take(i), id, seen);
    let after = seen_through(ms.take(i + 1), id, seen);
    let between = ms.subrange(i + 1, j);
    lemma_seen_is_bounded(ms.take(i), id, seen);
    assert(ms.take(i + 1).drop_last() =~= ms.take(i));
    assert(after == loop_guard::remember(before, msg_id));
    assert(ms.take(i + 1) + between =~= ms.take(j));
    lemma_seen_in_parts(ms.take(i + 1), between, id, seen);
    let ids = lemma_seen_through(between, id, after);
    loop_guard::law_new_id_stays_known(before, msg_id, ids);
}

/// A message that is new to a bridge and did not start from it travels on: the
/// other peers get it as it came, so that the next bridge finds the same origin
/// and the same id.
pub proof fn law_first_sighting_travels_on(
    m: MessageModel,
    id: Seq<char>,
    seen: Seq<Seq<char>>,
    rules: Seq<RuleModel>,
)
    requires
        travels(m),
        !looped(m, id),
        !repeated(m, seen),
    ensures
        inbound_outcome(m, id, seen, rules) matches InboundModel::Forward { reforward, .. }
            && reforward == m,
{
}

/// What is forwarded to other peers is the message as it came, with its origin
/// and its id.
pub proof fn law_reforwarded_unchanged(
    m: MessageModel,
    id: Seq<char>,
    seen: Seq<Seq<char>>,
    rules: Seq<RuleModel>,
)
    ensures
        inbound_outcome(m, id, seen, rules) matches InboundModel::Forward { reforward, .. }
            ==> reforward == m,
{
}

/// Where a token is expected, a peer is accepted exactly when its hello presents
/// that token.
pub proof fn law_wrong_token_is_rejected(
    expected: Seq<char>,
    peer_id: Seq<char>,
    peer_name: Seq<char>,
    presented: Option<Seq<char>>,
)
    ensures
        messages::token_accepted(
            Some(expected),
            messages::message_text(
                messages::bridge_hello_message(peer_id, peer_name, presented),
                "auth_token"@,
            ),
        ) <==> presented == Some(expected),
{
    messages::law_bridge_hello_reads_back(peer_id, peer_name, presented);
}

/// Reading a hello gives the identity that it was made with.
pub proof fn law_hello_identifies_the_peer(
    bridge_id: Seq<char>,
    name: Seq<char>,
    auth_token: Option<Seq<char>>,
)
    ensures
        hello_peer(messages::bridge_hello_message(bridge_id, name, auth_token)) == Ok::<
            PeerModel,
            HelloErrorModel,
        >(PeerModel { bridge_id, name }),
{
    messages::law_bridge_hello_reads_back(bridge_id, name, auth_token);
}

/// The phase after several events.
pub open spec fn phase_after(phase: WriterPhase, events: Seq<WriterEvent>) -> WriterPhase
    decreases events.len(),
{
    if events.len() == 0 {
        phase
    } else {
        next_phase(phase_after(phase, events.drop_last()), events.last())
    }
}

/// The messages that are sent in the course of several events, in order.
pub open spec fn sent(phase: WriterPhase, events: Seq<WriterEvent>) -> Seq<MessageModel>
    decreases events.len(),
{
    if events.len() == 0 {
        Seq::empty()
    } else {
        let earlier = sent(phase, events.drop_last());
        match message_to_send(phase_after(phase, events.drop_last()), events.last()) {
            Some(m) => earlier.push(m),
            None => earlier,
        }
    }
}

/// The messages that the replay has, in order.
pub open spec fn replay_messages(events: Seq<WriterEvent>) -> Seq<MessageModel>
    decreases events.len(),
{
    if events.len() == 0 {
        Seq::empty()
    } else {
        match events.last() {
            WriterEvent::Replay(m) => replay_messages(events.drop_last()).push(m@),
            _ => replay_messages(events.drop_last()),
        }
    }
}

/// The messages that live traffic has, in order.
pub open spec fn live_messages(events: Seq<WriterEvent>) -> Seq<MessageModel>
    decreases events.len(),
{
    if events.len() == 0 {
        Seq::empty()
    } else {
        match events.last() {
            WriterEvent::Broadcast(m) => live_messages(events.drop_last()).push(m@),
            _ => live_messages(events.drop_last()),
        }
    }
}

/// What follows a number of events goes on from the phase that they lead to.
proof fn lemma_events_in_parts(phase: WriterPhase, a: Seq<WriterEvent>, b: Seq<WriterEvent>)
    ensures
        phase_after(phase, a + b) == phase_after(phase_after(phase, a), b),
        sent(phase, a + b) == sent(phase, a) + sent(phase_after(phase, a), b),
    decreases b.len(),
{
    if b.len() == 0 {
        assert(a + b =~= a);
    } else {
        lemma_events_in_parts(phase, a, b.drop_last());
        assert((a + b).drop_last() =~= a + b.drop_last());
        assert((a + b).last() == b.last());
    }
}

proof fn lemma_replaying(events: Seq<WriterEvent>)
    requires
        forall|i: int| 0 <= i < events.len() ==> !(#[trigger] events[i] is ReplayDone),
    ensures
        phase_after(WriterPhase::Replaying, events) != WriterPhase::Live,
        sent(WriterPhase::Replaying, events).is_prefix_of(replay_messages(events)),
        phase_after(WriterPhase::Replaying, events) == WriterPhase::Replaying ==> sent(
            WriterPhase::Replaying,
            events,
        ) == replay_messages(events),
    decreases events.len(),
{
    if events.len() > 0 {
        let init = events.drop_last();
        assert forall|i: int| 0 <= i < init.len() implies !(#[trigger] init[i] is ReplayDone) by {
            assert(init[i] == events[i]);
        }
        lemma_replaying(init);
        assert(!(events[events.len() - 1] is ReplayDone));
    }
}

proof fn lemma_live(events: Seq<WriterEvent>)
    ensures
        phase_after(WriterPhase::Live, events) != WriterPhase::Replaying,
        sent(WriterPhase::Live, events).is_prefix_of(live_messages(events)),
        phase_after(WriterPhase::Live, events) == WriterPhase::Live ==> sent(
            WriterPhase::Live,
            events,
        ) == live_messages(events),
    decreases events.len(),
{
    if events.len() > 0 {
        lemma_live(events.drop_last());
    }
}

proof fn lemma_finished(events: Seq<WriterEvent>)
    ensures
        phase_after(WriterPhase::Finished, events) == WriterPhase::Finished,
        sent(WriterPhase::Finished, events).len() == 0,
    decreases events.len(),
{
    if events.len() > 0 {
        lemma_finished(events.drop_last());
    }
}

/// Replay comes before live traffic, over a whole session: what is sent is a part of
/// the replay from its start, followed by a part of the live messages from when the
/// replay was over, and live messages are sent only after the whole replay.
pub proof fn law_replay_precedes_live_traffic(
    replaying: Seq<WriterEvent>,
    live: Seq<WriterEvent>,
)
    requires
        forall|i: int| 0 <= i < replaying.len() ==> !(#[trigger] replaying[i] is ReplayDone),
    ensures
        sent(WriterPhase::Replaying, replaying).is_prefix_of(replay_messages(replaying)),
        ({
            let first = sent(WriterPhase::Replaying, replaying);
            let all = sent(
                WriterPhase::Replaying,
                replaying.push(WriterEvent::ReplayDone) + live,
            );
            &&& first.is_prefix_of(all)
            &&& all.skip(first.len() as int).is_prefix_of(live_messages(live))
            &&& all.len() > first.len() ==> first == replay_messages(replaying)
        }),
{
    let start = WriterPhase::Replaying;
    let done = replaying.push(WriterEvent::ReplayDone);
    lemma_replaying(replaying);
    assert(done.drop_last() =~= replaying);
    assert(sent(start, done) == sent(start, replaying));
    lemma_events_in_parts(start, done, live);
    let rest = sent(phase_after(start, done), live);
    if phase_after(start, replaying) == WriterPhase::Replaying {
        lemma_live(live);
    } else {
        lemma_finished(live);
    }
    assert((sent(start, replaying) + rest).skip(sent(start, replaying).len() as int) =~= rest);
}

/// Whether a writer lives through an event: it is neither cancelled nor cut off from live
/// traffic, and no send found the connection broken. Datagrams that are lost, messages
/// that cannot be encoded and missed live traffic do not end it.
pub open spec fn is_harmless(event: WriterEvent) -> bool {
    match event {
        WriterEvent::Cancelled => false,
        WriterEvent::Closed => false,
        WriterEvent::Reported(SendReport::ConnectionLost) => false,
        WriterEvent::Reported(SendReport::StreamFailed) => false,
        _ => true,
    }
}

proof fn lemma_harmless_replay(events: Seq<WriterEvent>)
    requires
        forall|i: int|
            0 <= i < events.len() ==> is_harmless(#[trigger] events[i]) && !(
            events[i] is ReplayDone),
    ensures
        phase_after(WriterPhase::Replaying, events) == WriterPhase::Replaying,
    decreases events.len(),
{
    if events.len() > 0 {
        let init = events.drop_last();
        assert forall|i: int| 0 <= i < init.len() implies is_harmless(#[trigger] init[i]) && !(
        init[i] is ReplayDone) by {
            assert(init[i] == events[i]);
        }
        lemma_harmless_replay(init);
        assert(is_harmless(events[events.len() - 1]) && !(events[events.len() - 1] is ReplayDone));
    }
}

proof fn lemma_harmless_live(events: Seq<WriterEvent>)
    requires
        forall|i: int| 0 <= i < events.len() ==> is_harmless(#[trigger] events[i]),
    ensures
        phase_after(WriterPhase::Live, events) == WriterPhase::Live,
    decreases events.len(),
{
    if events.len() > 0 {
        let init = events.drop_last();
        assert forall|i: int| 0 <= i < init.len() implies is_harmless(#[trigger] init[i]) by {
            assert(init[i] == events[i]);
        }
        lemma_harmless_live(init);
        assert(is_harmless(events[events.len() - 1]));
    }
}

/// As long as nothing ends the session, everything is sent: the whole replay, then all
/// live messages that come after it, in order.
pub proof fn law_nothing_is_left_out(replaying: Seq<WriterEvent>, live: Seq<WriterEvent>)
    requires
        forall|i: int|
            0 <= i < replaying.len() ==> is_harmless(#[trigger] replaying[i]) && !(
            replaying[i] is ReplayDone),
        forall|i: int| 0 <= i < live.len() ==> is_harmless(#[trigger] live[i]),
    ensures
        sent(WriterPhase::Replaying, replaying.push(WriterEvent::ReplayDone) + live)
            == replay_messages(replaying) + live_messages(live),
        phase_after(WriterPhase::Replaying, replaying.push(WriterEvent::ReplayDone) + live)
            == WriterPhase::Live,
{
    let done = replaying.push(WriterEvent::ReplayDone);
    lemma_harmless_replay(replaying);
    lemma_harmless_live(live);
    lemma_replaying(replaying);
    lemma_live(live);
    assert(done.drop_last() =~= replaying);
    lemma_events_in_parts(WriterPhase::Replaying, done, live);
}

/// A broken connection or a cancelled session ends the writer in every phase, and the
/// end of live traffic ends it once it is live; after the end nothing is sent.
pub proof fn law_the_end_is_final(phase: WriterPhase, event: WriterEvent, later: Seq<WriterEvent>)
    requires
        !is_harmless(event),
        event is Closed ==> phase == WriterPhase::Live,
    ensures
        next_phase(phase, event) == WriterPhase::Finished,
        message_to_send(phase, event) is None,
        sent(next_phase(phase, event), later).len() == 0,
{
    lemma_finished(later);
}

/// A new action of a peer reaches the hub exactly where the rules map its address, under
/// the address that they give; a new unset does where they map the param.
pub proof fn law_new_message_reaches_the_hub(
    m: MessageModel,
    id: Seq<char>,
    seen: Seq<Seq<char>>,
    rules: Seq<RuleModel>,
    address: Seq<char>,
    signal_type: Seq<char>,
)
    requires
        travels(m),
        !looped(m, id),
        !repeated(m, seen),
        messages::message_text(m, "address"@) == Some(address),
        if m.msg_type == messages::MSG_BRIDGE_UNSET@ {
            signal_type == "param"@
        } else {
            messages::message_text(m, "signal_type"@) == Some(signal_type)
        },
    ensures
        inbound_outcome(m, id, seen, rules) matches InboundModel::Forward { to_hub, .. } && {
            let mapped = mapping::mapping(
                rules,
                address,
                mapping::Direction::Inbound,
                Some(signal_type),
            );
            &&& to_hub is Some <==> mapped is Some
            &&& to_hub is Some ==> messages::message_text(to_hub->0, "address"@) == mapped
            &&& to_hub is Some ==> to_hub->0.msg_type == (if m.msg_type
                == messages::MSG_BRIDGE_UNSET@ {
                protocol::MSG_UNSET_PARAM@
            } else {
                protocol::MSG_ACTION@
            })
        },
{
    lemma_message_types();
    if m.msg_type == messages::MSG_BRIDGE_ACTION@ {
        forward::law_inbound_action_is_mapped(m, rules, address, signal_type);
    } else if let Some(mapped) = mapping::mapping(
        rules,
        address,
        mapping::Direction::Inbound,
        Some(signal_type),
    ) {
        assert(messages::message_text(protocol::unset_param_message(mapped), "address"@) == Some(
            mapped,
        ));
    }
}

/// Messages without an id are never taken for duplicates, and leave what was seen as it
/// is.
pub proof fn law_message_without_id_is_no_duplicate(
    m: MessageModel,
    id: Seq<char>,
    seen: Seq<Seq<char>>,
    rules: Seq<RuleModel>,
)
    requires
        travels(m),
        messages::message_text(m, "msg_id"@) is None,
        messages::message_text(m, "origin"@) != Some(id),
    ensures
        inbound_outcome(m, id, seen, rules) is Forward,
        seen_after(m, id, seen) == seen,
{
}

/// Only actions and unsets of bridges are forwarded or remembered.
pub proof fn law_other_messages_do_nothing(
    m: MessageModel,
    id: Seq<char>,
    seen: Seq<Seq<char>>,
    rules: Seq<RuleModel>,
)
    requires
        m.msg_type != messages::MSG_BRIDGE_ACTION@,
        m.msg_type != messages::MSG_BRIDGE_UNSET@,
    ensures
        inbound_outcome(m, id, seen, rules) is Ignored || inbound_outcome(m, id, seen, rules) is Unknown,
        seen_after(m, id, seen) == seen,
        inbound_outcome(m, id, seen, rules) is Ignored <==> m.msg_type
            == messages::MSG_BRIDGE_HELLO@ || m.msg_type == messages::MSG_BRIDGE_PING@,
{
}

/// Without a configured token every peer is accepted.
pub proof fn law_no_token_accepts_all(presented: Option<Seq<char>>)
    ensures
        messages::token_accepted(None, presented),
{
}

/// A message of another type is no hello, whatever it holds.
pub proof fn law_other_messages_are_no_hello(m: MessageModel)
    ensures
        m.msg_type != messages::MSG_BRIDGE_HELLO@ ==> hello_peer(m) == Err::<
            PeerModel,
            HelloErrorModel,
        >(HelloErrorModel::NotHello(m.msg_type)),
        m.msg_type == messages::MSG_BRIDGE_HELLO@ ==> (hello_peer(m) is Ok <==> m.payload is Dict),
        hello_peer(m) is Ok ==> {
            let peer = hello_peer(m)->Ok_0;
            &&& messages::message_text(m, "bridge_id"@) matches Some(t) ==> peer.bridge_id == t
            &&& messages::message_text(m, "name"@) matches Some(t) ==> peer.name == t
        },
{
}

/// A host with its port ends in a colon and the port. A bare IPv6 literal is the same with
/// or without its brackets, and a host without a colon stays as it is.
pub proof fn law_host_and_port(host: Seq<char>, port: u16)
    ensures
        ({
            let tail = seq![':'] + text::decimal(port as nat);
            &&& !host.contains(':') ==> bracketed_host_port(host, port) == host + tail
            &&& host.len() > 0 && host[0] == '[' ==> bracketed_host_port(host, port) == host + tail
            &&& host.contains(':') && host[0] != '[' ==> {
                &&& bracketed_host_port(host, port) == seq!['['] + host + seq![']'] + tail
                &&& bracketed_host_port(host, port) == bracketed_host_port(
                    seq!['['] + host + seq![']'],
                    port,
                )
            }
        }),
{
    let tail = seq![':'] + text::decimal(port as nat);
    assert(host.push(':') + text::decimal(port as nat) =~= host + tail);
    let wrapped = seq!['['] + host + seq![']'];
    assert(wrapped.push(':') + text::decimal(port as nat) =~= wrapped + tail);
}

/// Each side sends one hello: the dialling side first, the other in reply. It presents the
/// side's token, so that bridges that share a token accept each other, and identifies the
/// side.
pub proof fn law_both_sides_say_hello(
    is_inbound: bool,
    id: Seq<char>,
    name: Seq<char>,
    token: Option<Seq<char>>,
)
    ensures
        first_hello(is_inbound, id, name, token) is Some <==> !is_inbound,
        reply_hello(is_inbound, id, name, token) is Some <==> is_inbound,
        first_hello(is_inbound, id, name, token) matches Some(m) ==> {
            &&& messages::token_accepted(token, messages::message_text(m, "auth_token"@))
            &&& hello_peer(m) == Ok::<PeerModel, HelloErrorModel>(PeerModel { bridge_id: id, name })
        },
        reply_hello(is_inbound, id, name, token) matches Some(m) ==> {
            &&& messages::token_accepted(token, messages::message_text(m, "auth_token"@))
            &&& hello_peer(m) == Ok::<PeerModel, HelloErrorModel>(PeerModel { bridge_id: id, name })
        },
{
    messages::law_bridge_hello_reads_back(id, name, token);
    law_hello_identifies_the_peer(id, name, token);
}

} // verus!
