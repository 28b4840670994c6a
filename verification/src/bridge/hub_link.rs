//! The link between the bridge and its local hub.
use vstd::prelude::*;

use crate::bridge::forward;
use crate::bridge::ids;
use crate::bridge::mapping::{MappingEngine, RuleModel};
use crate::bridge::param_cache;
use crate::bridge::param_cache::ParamCache;
use crate::bridge::peers;
use crate::bridge::protocol as messages;
use crate::protocol;
use crate::protocol::{MessageModel, WireMessage};

verus! {

// ---------------------------------------------------------------------------
// Supervision
// ---------------------------------------------------------------------------

/// Where the supervision of the hub connection stands.
#[derive(Debug, Clone, Copy, PartialEq, Eq, Structural)]
pub struct HubSupervisor {
    /// Attempts that failed since the last connection.
    pub attempt: u32,
    /// Whether the hub was reached before.
    pub announced: bool,
}

/// What happens to the hub connection.
#[derive(Debug, Clone, Copy, PartialEq, Eq, Structural)]
pub enum LinkEvent {
    /// The hub could not be reached.
    ConnectFailed,
    /// The subscriptions could not be made.
    SubscribeFailed,
    /// The hub is connected and the subscriptions are made.
    Established,
    /// The hub has closed the connection.
    Disconnected,
    /// The bridge shuts down.
    Shutdown,
}

/// What the supervision does next.
#[derive(Debug, Clone, Copy, PartialEq, Eq, Structural)]
pub enum LinkAction {
    /// Wait this many seconds, then connect.
    ConnectAfter(u64),
    /// Publish the sender, and announce that the bridge is ready if asked to.
    Serve { announce: bool },
    /// End.
    Stop,
}

/// The count of failed attempts after one more.
pub open spec fn one_more(attempt: u32) -> u32 {
    if attempt == u32::MAX {
        attempt
    } else {
        (attempt + 1) as u32
    }
}

/// The supervision after an event. Attempts are not limited: a hub that restarts
/// is found again.
pub open spec fn supervised(s: HubSupervisor, event: LinkEvent) -> HubSupervisor {
    match event {
        LinkEvent::ConnectFailed | LinkEvent::SubscribeFailed | LinkEvent::Disconnected =>
            HubSupervisor { attempt: one_more(s.attempt), ..s },
        LinkEvent::Established => HubSupervisor { attempt: 0, announced: true },
        LinkEvent::Shutdown => s,
    }
}

/// What the supervision does on an event.
pub open spec fn link_action(s: HubSupervisor, event: LinkEvent) -> LinkAction {
    match event {
        LinkEvent::ConnectFailed | LinkEvent::SubscribeFailed | LinkEvent::Disconnected =>
            LinkAction::ConnectAfter(peers::backoff_seconds(one_more(s.attempt)) as u64),
        LinkEvent::Established => LinkAction::Serve { announce: !s.announced },
        LinkEvent::Shutdown => LinkAction::Stop,
    }
}

impl HubSupervisor {
    /// The supervision of a hub that was not yet reached.
    pub fn new() -> (r: Self)
        ensures
            r == (HubSupervisor { attempt: 0, announced: false }),
    {
        HubSupervisor { attempt: 0, announced: false }
    }

    /// How long to wait before the next attempt, in seconds; the first one is
    /// made at once.
    pub fn delay(&self) -> (r: u64)
        ensures
            r == (if self.attempt == 0 {
                0
            } else {
                peers::backoff_seconds(self.attempt)
            }),
    {
        if self.attempt == 0 {
            0
        } else {
            peers::backoff_delay(self.attempt)
        }
    }

    /// Takes an event into account, and says what to do.
    pub fn step(&mut self, event: LinkEvent) -> (r: LinkAction)
        ensures
            *final(self) == supervised(*old(self), event),
            r == link_action(*old(self), event),
            r == (match event {
                LinkEvent::ConnectFailed | LinkEvent::SubscribeFailed | LinkEvent::Disconnected =>
                    LinkAction::ConnectAfter(
                    peers::backoff_seconds(final(self).attempt) as u64,
                ),
                LinkEvent::Established => LinkAction::Serve { announce: !old(self).announced },
                LinkEvent::Shutdown => LinkAction::Stop,
            }),
    {
        match event {
            LinkEvent::ConnectFailed | LinkEvent::SubscribeFailed | LinkEvent::Disconnected => {
                self.attempt = self.attempt.saturating_add(1);
                LinkAction::ConnectAfter(self.delay())
            },
            LinkEvent::Established => {
                let announce = !self.announced;
                self.attempt = 0;
                self.announced = true;
                LinkAction::Serve { announce }
            },
            LinkEvent::Shutdown => LinkAction::Stop,
        }
    }
}

// ---------------------------------------------------------------------------
// Messages of the hub
// ---------------------------------------------------------------------------

/// The param cache after a message of the hub.
pub open spec fn cache_after(cache: Map<Seq<char>, MessageModel>, m: MessageModel) -> Map<
    Seq<char>,
    MessageModel,
> {
    if m.msg_type == protocol::MSG_UNSET_PARAM@ {
        match messages::message_text(m, "address"@) {
            Some(address) => cache.remove(address),
            None => cache,
        }
    } else if m.msg_type == protocol::MSG_ACTION@ {
        param_cache::updated(cache, m)
    } else {
        cache
    }
}

/// What is broadcast to the peers for a message of the hub.
pub open spec fn broadcast_for(
    m: MessageModel,
    rules: Seq<RuleModel>,
    origin: Seq<char>,
    msg_id: Seq<char>,
) -> Option<MessageModel> {
    if m.msg_type == protocol::MSG_UNSET_PARAM@ {
        match messages::message_text(m, "address"@) {
            Some(address) => forward::outbound_unset(address, rules, origin, msg_id),
            None => None,
        }
    } else if m.msg_type == protocol::MSG_ACTION@ {
        forward::outbound_action(m, rules, origin, msg_id)
    } else {
        None
    }
}

/// Takes a message of the hub into account under the given message id: keeps the
/// param cache current, and says what to broadcast to the peers.
pub fn handle_hub_message_with_id(
    msg: &WireMessage,
    cache: &mut ParamCache,
    engine: &MappingEngine,
    origin: &str,
    msg_id: &str,
) -> (r: Option<WireMessage>)
    ensures
        final(cache)@ == cache_after(old(cache)@, msg@),
        forward::opt_message(r) == broadcast_for(msg@, engine@, origin@, msg_id@),
{
    proof {
        reveal_strlit("unset_param");
        reveal_strlit("action");
        assert(protocol::MSG_UNSET_PARAM@.len() != protocol::MSG_ACTION@.len());
    }
    if protocol::is_type(msg, protocol::MSG_UNSET_PARAM) {
        match messages::get_address(msg) {
            Some(address) => {
                cache.remove(address.as_str());
                forward::forward_unset_with_id(address.as_str(), engine, origin, msg_id)
            },
            None => None,
        }
    } else if protocol::is_type(msg, protocol::MSG_ACTION) {
        cache.update(msg);
        forward::outbound_bridge_action_with_id(msg, engine, origin, msg_id)
    } else {
        None
    }
}

/// Takes a message of the hub into account: keeps the param cache current, and
/// says what to broadcast to the peers.
pub fn handle_hub_message(
    msg: &WireMessage,
    cache: &mut ParamCache,
    engine: &MappingEngine,
    origin: &str,
) -> (r: Option<WireMessage>)
    ensures
        final(cache)@ == cache_after(old(cache)@, msg@),
        exists|msg_id: Seq<char>|
            ids::is_uuid_text(msg_id) && forward::opt_message(r) == #[trigger] broadcast_for(
                msg@,
                engine@,
                origin@,
                msg_id,
            ),
{
    let msg_id = messages::new_msg_id();
    handle_hub_message_with_id(msg, cache, engine, origin, msg_id.as_str())
}

// ---------------------------------------------------------------------------
// Laws
// ---------------------------------------------------------------------------

/// An unset on the hub takes the param out of what later peers are told.
pub proof fn law_unset_clears_the_cache(cache: Map<Seq<char>, MessageModel>, address: Seq<char>)
    ensures
        !cache_after(cache, protocol::unset_param_message(address)).dom().contains(address),
{
    assert(messages::message_text(protocol::unset_param_message(address), "address"@) == Some(
        address,
    ));
}

/// The bridge is announced once, on the first connection: from then on it counts as
/// announced, whatever happens.
pub proof fn law_announced_once(s: HubSupervisor, event: LinkEvent)
    ensures
        supervised(s, LinkEvent::Established).announced,
        s.announced ==> supervised(s, event).announced,
{
}

/// A connection starts the backoff over.
pub proof fn law_connection_resets_backoff(s: HubSupervisor)
    ensures
        supervised(supervised(s, LinkEvent::Established), LinkEvent::Disconnected).attempt == 1,
{
}

/// The attempts of a run of failures are counted one by one, whatever failed.
pub proof fn law_failures_are_counted(s: HubSupervisor, event: LinkEvent)
    requires
        event is ConnectFailed || event is SubscribeFailed || event is Disconnected,
    ensures
        s.attempt < u32::MAX ==> supervised(s, event).attempt == s.attempt + 1,
        s.attempt == u32::MAX ==> supervised(s, event) == s,
        supervised(s, event).announced == s.announced,
        supervised(s, LinkEvent::Shutdown) == s,
{
}

/// An action of the hub goes to the peers and, if it is a param, into what later peers
/// are told; an unset takes the param out and goes to the peers where the param would.
/// Messages of other types do neither.
pub proof fn law_hub_messages_are_bridged(
    cache: Map<Seq<char>, MessageModel>,
    m: MessageModel,
    unset: MessageModel,
    rules: Seq<RuleModel>,
    origin: Seq<char>,
    msg_id: Seq<char>,
    address: Seq<char>,
)
    requires
        m.msg_type == protocol::MSG_ACTION@,
        messages::message_text(m, "address"@) == Some(address),
        messages::message_text(m, "signal_type"@) == Some("param"@),
        unset.msg_type == protocol::MSG_UNSET_PARAM@,
        messages::message_text(unset, "address"@) == Some(address),
    ensures
        cache_after(cache, m).dom().contains(address),
        cache_after(cache, m)[address] == m,
        cache_after(cache_after(cache, m), unset) == cache.remove(address),
        broadcast_for(m, rules, origin, msg_id) is Some <==> broadcast_for(
            unset,
            rules,
            origin,
            msg_id,
        ) is Some,
        broadcast_for(m, rules, origin, msg_id) is Some ==> messages::message_text(
            broadcast_for(m, rules, origin, msg_id)->0,
            "address"@,
        ) == messages::message_text(broadcast_for(unset, rules, origin, msg_id)->0, "address"@),
{
    reveal_strlit("unset_param");
    reveal_strlit("action");
    assert(protocol::MSG_UNSET_PARAM@.len() != protocol::MSG_ACTION@.len());
    forward::law_unset_follows_its_param(m, unset, rules, origin, msg_id, address);
    assert(cache_after(cache_after(cache, m), unset) =~= cache.remove(address));
}

/// Messages of the hub of other types change nothing and go nowhere.
pub proof fn law_other_hub_messages_do_nothing(
    cache: Map<Seq<char>, MessageModel>,
    m: MessageModel,
    rules: Seq<RuleModel>,
    origin: Seq<char>,
    msg_id: Seq<char>,
)
    requires
        m.msg_type != protocol::MSG_ACTION@,
        m.msg_type != protocol::MSG_UNSET_PARAM@,
    ensures
        cache_after(cache, m) == cache,
        broadcast_for(m, rules, origin, msg_id) is None,
{
}

/// The supervision after a number of failures in a row.
pub open spec fn after_failures(s: HubSupervisor, n: nat) -> HubSupervisor
    decreases n,
{
    if n == 0 {
        s
    } else {
        supervised(after_failures(s, (n - 1) as nat), LinkEvent::Disconnected)
    }
}

/// After a connection the waits are two, four, eight and sixteen seconds, then thirty
/// seconds each time.
pub proof fn law_waits_grow(s: HubSupervisor, n: nat)
    requires
        n < u32::MAX,
    ensures
        ({
            let connected = supervised(s, LinkEvent::Established);
            let failed = link_action(after_failures(connected, n), LinkEvent::ConnectFailed);
            failed == LinkAction::ConnectAfter(
                if n == 0 {
                    2
                } else if n == 1 {
                    4
                } else if n == 2 {
                    8
                } else if n == 3 {
                    16
                } else {
                    30
                },
            )
        }),
{
    lemma_after_failures(supervised(s, LinkEvent::Established), n);
    vstd::arithmetic::power2::lemma2_to64();
}

proof fn lemma_after_failures(s: HubSupervisor, n: nat)
    requires
        s.attempt + n <= u32::MAX,
    ensures
        after_failures(s, n).attempt == s.attempt + n,
    decreases n,
{
    if n > 0 {
        lemma_after_failures(s, (n - 1) as nat);
    }
}

/// The bridge is announced on the first connection and on no later one; every connection
/// is served, and only a shutdown ends the supervision.
pub proof fn law_connections_are_served(s: HubSupervisor, event: LinkEvent)
    ensures
        link_action(s, LinkEvent::Established) == (LinkAction::Serve { announce: !s.announced }),
        link_action(supervised(s, LinkEvent::Established), LinkEvent::Established) == (
        LinkAction::Serve { announce: false }),
        link_action(s, event) is Stop <==> event is Shutdown,
        link_action(s, event) is Serve <==> event is Established,
{
}

} // verus!
