//! Cache of param state, for replay to newly connected peers.
//!
//! The local hub replays current params to a voice that subscribes. The bridge
//! keeps them, and all later updates, to replay them to peers that connect.
use vstd::prelude::*;

use crate::bridge::forward;
use crate::bridge::ids;
use crate::bridge::mapping;
use crate::bridge::mapping::{Direction, MappingEngine, RuleModel};
use crate::bridge::protocol as messages;
use crate::protocol::{MessageModel, SignalType, WireMessage};
use crate::text;
use crate::text_map::TextMap;

verus! {

/// The latest param action per address.
#[derive(Debug)]
pub struct ParamCache {
    inner: TextMap<WireMessage>,
}

/// What the messages of a map stand for.
pub open spec fn message_values(m: Map<Seq<char>, WireMessage>) -> Map<Seq<char>, MessageModel> {
    m.map_values(|w: WireMessage| w@)
}

impl View for ParamCache {
    type V = Map<Seq<char>, MessageModel>;

    closed spec fn view(&self) -> Map<Seq<char>, MessageModel> {
        message_values(self.inner@)
    }
}

/// The cache after an action of the hub: a param with an address is stored under
/// it, anything else is ignored.
pub open spec fn updated(cache: Map<Seq<char>, MessageModel>, action: MessageModel) -> Map<
    Seq<char>,
    MessageModel,
> {
    match messages::message_text(action, "address"@) {
        Some(address) => if messages::message_text(action, "signal_type"@) == Some("param"@) {
            cache.insert(address, action)
        } else {
            cache
        },
        None => cache,
    }
}

/// Whether the messages are what the cached params become for a peer, in the
/// order of the addresses `keys`; a param that no outbound rule maps is left out.
pub open spec fn is_replay(
    out: Seq<MessageModel>,
    keys: Seq<Seq<char>>,
    cache: Map<Seq<char>, MessageModel>,
    rules: Seq<RuleModel>,
    origin: Seq<char>,
) -> bool
    decreases keys.len(),
{
    if keys.len() == 0 {
        out.len() == 0
    } else {
        let action = cache[keys.last()];
        exists|msg_id: Seq<char>|
            ids::is_uuid_text(msg_id) && match #[trigger] forward::outbound_action(
                action,
                rules,
                origin,
                msg_id,
            ) {
                Some(m) => out.len() > 0 && out.last() == m && is_replay(
                    out.drop_last(),
                    keys.drop_last(),
                    cache,
                    rules,
                    origin,
                ),
                None => is_replay(out, keys.drop_last(), cache, rules, origin),
            }
    }
}

/// What each message of a list stands for.
pub open spec fn message_views(s: Seq<WireMessage>) -> Seq<MessageModel> {
    s.map_values(|w: WireMessage| w@)
}

impl ParamCache {
    /// The cached addresses in ascending order.
    pub closed spec fn addresses(&self) -> Seq<Seq<char>> {
        self.inner.keys()
    }

    /// An empty cache.
    pub fn new() -> (r: Self)
        ensures
            r@ == Map::<Seq<char>, MessageModel>::empty(),
    {
        let r = ParamCache { inner: TextMap::new() };
        assert(r@ =~= Map::<Seq<char>, MessageModel>::empty());
        r
    }

    /// The number of cached params.
    pub fn len(&self) -> (r: usize)
        ensures
            r == self@.dom().len(),
    {
        assert(self@.dom() =~= self.inner@.dom());
        self.inner.len()
    }

    /// Takes an action of the hub into account. Only params are stored.
    pub fn update(&mut self, action: &WireMessage)
        ensures
            final(self)@ == updated(old(self)@, action@),
    {
        if let Some(signal_type) = messages::get_signal_type(action) {
            if text::same(signal_type.as_str(), "param") {
                if let Some(address) = messages::get_address(action) {
                    let ghost start = self@;
                    let ghost key = address@;
                    self.inner.insert(address, action.clone());
                    assert(self@ =~= start.insert(key, action@));
                }
            }
        }
    }

    /// Forgets the param of an address.
    pub fn remove(&mut self, address: &str)
        ensures
            final(self)@ == old(self)@.remove(address@),
    {
        let ghost start = self@;
        self.inner.remove(address);
        assert(self@ =~= start.remove(address@));
    }

    /// The messages that bring a peer up to date, with this bridge as origin. The
    /// addresses are those of the cache, each once.
    pub fn replay(&self, engine: &MappingEngine, origin: &str) -> (r: Vec<WireMessage>)
        ensures
            is_replay(message_views(r@), self.addresses(), self@, engine@, origin@),
            forall|k: Seq<char>| #[trigger]
                self.addresses().contains(k) <==> self@.dom().contains(k),
            forall|i: int, j: int|
                0 <= i < j < self.addresses().len() ==> text::before(
                    #[trigger] self.addresses()[i],
                    #[trigger] self.addresses()[j],
                ),
            is_cache(self@) ==> r@.len() == mapped_among(self.addresses(), engine@).len(),
            is_cache(self@) ==> forall|k: Seq<char>| #[trigger]
                self@.dom().contains(k) && mapped_param(engine@, k) is Some ==> exists|i: int|
                    0 <= i < r@.len() && tells(
                        (#[trigger] r@[i])@,
                        self@[k],
                        mapped_param(engine@, k)->0,
                        origin@,
                    ),
    {
        let keys = self.inner.sorted_keys();
        let ghost all = self.addresses();
        assert(self@.dom() =~= self.inner@.dom());
        let mut out: Vec<WireMessage> = Vec::new();
        let mut i: usize = 0;
        assert(message_views(out@).len() == 0);
        while i < keys.len()
            invariant
                i <= keys@.len(),
                all == self.addresses(),
                all == text::views(keys@),
                self@.dom() == self.inner@.dom(),
                is_replay(message_views(out@), all.take(i as int), self@, engine@, origin@),
            decreases keys@.len() - i,
        {
            let action = self.inner.value_at(i);
            let ghost next = all.take(i as int + 1);
            assert(next.drop_last() =~= all.take(i as int));
            assert(self@[next.last()] == action@);
            let ghost start = out@;
            let made = forward::build_outbound_bridge_action(action, engine, origin);
            if let Some(m) = made {
                out.push(m);
                assert(message_views(out@) =~= message_views(start).push(m@));
                assert(message_views(out@).drop_last() =~= message_views(start));
            }
            i = i + 1;
        }
        assert(all.take(all.len() as int) =~= all);
        proof {
            let told = message_views(out@);
            assert forall|i: int| 0 <= i < all.len() implies self@.dom().contains(
                #[trigger] all[i],
            ) by {
                assert(all.contains(all[i]));
            }
            assert forall|i: int, j: int| 0 <= i < j < all.len() implies #[trigger] all[i]
                != #[trigger] all[j] by {
                assert(text::before(all[i], all[j]));
                text::lemma_before_irreflexive(all[i]);
            }
            if is_cache(self@) {
                law_replay_tells_each_once(told, all, self@, engine@, origin@);
                assert forall|k: Seq<char>| #[trigger]
                    self@.dom().contains(k) && mapped_param(engine@, k) is Some implies exists|
                    i: int,
                |
                    0 <= i < out@.len() && tells(
                        (#[trigger] out@[i])@,
                        self@[k],
                        mapped_param(engine@, k)->0,
                        origin@,
                    ) by {
                    law_replay_is_complete(told, all, self@, engine@, origin@, k);
                    let i = choose|i: int|
                        0 <= i < told.len() && tells(
                            #[trigger] told[i],
                            self@[k],
                            mapped_param(engine@, k)->0,
                            origin@,
                        );
                    assert(tells(out@[i]@, self@[k], mapped_param(engine@, k)->0, origin@));
                }
            }
        }
        out
    }
}

impl Default for ParamCache {
    fn default() -> (r: Self)
        ensures
            r@ == Map::<Seq<char>, MessageModel>::empty(),
    {
        ParamCache::new()
    }
}

// ---------------------------------------------------------------------------
// Laws
// ---------------------------------------------------------------------------

/// Of the params of an address the cache holds the latest.
pub proof fn law_latest_param_wins(
    cache: Map<Seq<char>, MessageModel>,
    first: MessageModel,
    second: MessageModel,
)
    requires
        messages::message_text(second, "signal_type"@) == Some("param"@),
        messages::message_text(first, "address"@) == messages::message_text(second, "address"@),
    ensures
        updated(updated(cache, first), second) == updated(cache, second),
{
    assert(updated(updated(cache, first), second) =~= updated(cache, second));
}

/// Removing a param forgets what was stored for its address.
pub proof fn law_remove_undoes_update(
    cache: Map<Seq<char>, MessageModel>,
    action: MessageModel,
    address: Seq<char>,
)
    requires
        messages::message_text(action, "address"@) == Some(address),
    ensures
        updated(cache, action).remove(address) == cache.remove(address),
{
    assert(updated(cache, action).remove(address) =~= cache.remove(address));
}

/// What is no param leaves the cache alone.
pub proof fn law_only_params_are_cached(cache: Map<Seq<char>, MessageModel>, action: MessageModel)
    requires
        messages::message_text(action, "signal_type"@) != Some("param"@),
    ensures
        updated(cache, action) == cache,
{
}

/// A replay has at most one message per cached address.
pub proof fn law_replay_is_bounded(
    out: Seq<MessageModel>,
    keys: Seq<Seq<char>>,
    cache: Map<Seq<char>, MessageModel>,
    rules: Seq<RuleModel>,
    origin: Seq<char>,
)
    requires
        is_replay(out, keys, cache, rules, origin),
    ensures
        out.len() <= keys.len(),
    decreases keys.len(),
{
    if keys.len() > 0 {
        let action = cache[keys.last()];
        let msg_id = choose|msg_id: Seq<char>|
            ids::is_uuid_text(msg_id) && match #[trigger] forward::outbound_action(
                action,
                rules,
                origin,
                msg_id,
            ) {
                Some(m) => out.len() > 0 && out.last() == m && is_replay(
                    out.drop_last(),
                    keys.drop_last(),
                    cache,
                    rules,
                    origin,
                ),
                None => is_replay(out, keys.drop_last(), cache, rules, origin),
            };
        if forward::outbound_action(action, rules, origin, msg_id) is Some {
            law_replay_is_bounded(out.drop_last(), keys.drop_last(), cache, rules, origin);
        } else {
            law_replay_is_bounded(out, keys.drop_last(), cache, rules, origin);
        }
    }
}

/// Whether a map is a cache of params: each message is a param under its own address.
pub open spec fn is_cache(cache: Map<Seq<char>, MessageModel>) -> bool {
    forall|k: Seq<char>| #[trigger]
        cache.dom().contains(k) ==> messages::message_text(cache[k], "address"@) == Some(k)
            && messages::message_text(cache[k], "signal_type"@) == Some("param"@)
}

/// From an empty cache on, every action of the hub and every removal keeps a cache of
/// params, each under its own address.
pub proof fn law_params_are_cached_under_their_address(
    cache: Map<Seq<char>, MessageModel>,
    action: MessageModel,
    address: Seq<char>,
)
    requires
        is_cache(cache),
    ensures
        is_cache(Map::empty()),
        is_cache(updated(cache, action)),
        is_cache(cache.remove(address)),
{
}

/// A param of the hub is in the cache from then on, as it came, and leaves the params
/// of other addresses alone.
pub proof fn law_a_param_is_cached(
    cache: Map<Seq<char>, MessageModel>,
    action: MessageModel,
    address: Seq<char>,
    other: Seq<char>,
)
    requires
        messages::message_text(action, "address"@) == Some(address),
        messages::message_text(action, "signal_type"@) == Some("param"@),
        other != address,
    ensures
        updated(cache, action).dom().contains(address),
        updated(cache, action)[address] == action,
        updated(cache, action).dom().contains(other) == cache.dom().contains(other),
        updated(cache, action)[other] == cache[other],
{
}

/// The address that the rules map the param of an address to.
pub open spec fn mapped_param(rules: Seq<RuleModel>, address: Seq<char>) -> Option<Seq<char>> {
    mapping::mapping(rules, address, Direction::Outbound, Some("param"@))
}

/// Whether a message is what a peer is told of a cached param.
pub open spec fn tells(
    out: MessageModel,
    param: MessageModel,
    mapped: Seq<char>,
    origin: Seq<char>,
) -> bool {
    &&& out.msg_type == messages::MSG_BRIDGE_ACTION@
    &&& messages::message_text(out, "address"@) == Some(mapped)
    &&& messages::message_text(out, "signal_type"@) == Some("param"@)
    &&& messages::message_text(out, "origin"@) == Some(origin)
    &&& messages::message_payload(out) == messages::message_payload(param)
    &&& messages::message_source(out) == messages::message_source(param)
    &&& messages::message_timestamp(out) == messages::message_timestamp(param)
}

/// What an outbound action says of a cached param.
proof fn lemma_outbound_param(
    param: MessageModel,
    address: Seq<char>,
    rules: Seq<RuleModel>,
    origin: Seq<char>,
    msg_id: Seq<char>,
)
    requires
        messages::message_text(param, "address"@) == Some(address),
        messages::message_text(param, "signal_type"@) == Some("param"@),
    ensures
        match forward::outbound_action(param, rules, origin, msg_id) {
            Some(out) => mapped_param(rules, address) matches Some(mapped) && tells(
                out,
                param,
                mapped,
                origin,
            ),
            None => mapped_param(rules, address) is None,
        },
{
    if let Some(mapped) = mapped_param(rules, address) {
        messages::law_bridge_action_reads_back(
            origin,
            msg_id,
            messages::message_source(param),
            mapped,
            SignalType::Param,
            messages::message_timestamp(param),
            messages::message_payload(param),
        );
    }
}

/// A replay is complete: for every cached param that an outbound rule maps, the peer is
/// told its payload under the mapped address.
pub proof fn law_replay_is_complete(
    out: Seq<MessageModel>,
    keys: Seq<Seq<char>>,
    cache: Map<Seq<char>, MessageModel>,
    rules: Seq<RuleModel>,
    origin: Seq<char>,
    address: Seq<char>,
)
    requires
        is_replay(out, keys, cache, rules, origin),
        is_cache(cache),
        forall|i: int| 0 <= i < keys.len() ==> cache.dom().contains(#[trigger] keys[i]),
        keys.contains(address),
        mapped_param(rules, address) is Some,
    ensures
        exists|i: int|
            0 <= i < out.len() && tells(
                #[trigger] out[i],
                cache[address],
                mapped_param(rules, address)->0,
                origin,
            ),
    decreases keys.len(),
{
    let key = keys.last();
    let init = keys.drop_last();
    assert(cache.dom().contains(keys[keys.len() - 1]));
    assert forall|i: int| 0 <= i < init.len() implies cache.dom().contains(#[trigger] init[i]) by {
        assert(init[i] == keys[i]);
    }
    let msg_id = lemma_replay_step(out, keys, cache, rules, origin);
    lemma_outbound_param(cache[key], key, rules, origin, msg_id);
    let mapped = mapped_param(rules, address)->0;
    if address == key {
        assert(tells(out[out.len() - 1], cache[address], mapped, origin));
    } else {
        let at = choose|i: int| 0 <= i < keys.len() && keys[i] == address;
        assert(init[at] == address);
        if mapped_param(rules, key) is Some {
            law_replay_is_complete(out.drop_last(), init, cache, rules, origin, address);
            let i = choose|i: int|
                0 <= i < out.drop_last().len() && tells(
                    #[trigger] out.drop_last()[i],
                    cache[address],
                    mapped,
                    origin,
                );
            assert(tells(out[i], cache[address], mapped, origin));
        } else {
            law_replay_is_complete(out, init, cache, rules, origin, address);
        }
    }
}

/// The last step of a replay: what the param of the last address became.
proof fn lemma_replay_step(
    out: Seq<MessageModel>,
    keys: Seq<Seq<char>>,
    cache: Map<Seq<char>, MessageModel>,
    rules: Seq<RuleModel>,
    origin: Seq<char>,
) -> (msg_id: Seq<char>)
    requires
        is_replay(out, keys, cache, rules, origin),
        keys.len() > 0,
    ensures
        match forward::outbound_action(cache[keys.last()], rules, origin, msg_id) {
            Some(m) => out.len() > 0 && out.last() == m && is_replay(
                out.drop_last(),
                keys.drop_last(),
                cache,
                rules,
                origin,
            ),
            None => is_replay(out, keys.drop_last(), cache, rules, origin),
        },
{
    choose|msg_id: Seq<char>|
        ids::is_uuid_text(msg_id) && match #[trigger] forward::outbound_action(
            cache[keys.last()],
            rules,
            origin,
            msg_id,
        ) {
            Some(m) => out.len() > 0 && out.last() == m && is_replay(
                out.drop_last(),
                keys.drop_last(),
                cache,
                rules,
                origin,
            ),
            None => is_replay(out, keys.drop_last(), cache, rules, origin),
        }
}

/// The addresses among the given ones whose params an outbound rule maps.
pub open spec fn mapped_among(keys: Seq<Seq<char>>, rules: Seq<RuleModel>) -> Set<Seq<char>> {
    keys.to_set().filter(|k: Seq<char>| mapped_param(rules, k) is Some)
}

/// A replay has as many messages as there are cached addresses that an outbound rule
/// maps.
pub proof fn law_replay_tells_each_once(
    out: Seq<MessageModel>,
    keys: Seq<Seq<char>>,
    cache: Map<Seq<char>, MessageModel>,
    rules: Seq<RuleModel>,
    origin: Seq<char>,
)
    requires
        is_replay(out, keys, cache, rules, origin),
        is_cache(cache),
        forall|i: int| 0 <= i < keys.len() ==> cache.dom().contains(#[trigger] keys[i]),
        forall|i: int, j: int| 0 <= i < j < keys.len() ==> #[trigger] keys[i] != #[trigger] keys[j],
    ensures
        mapped_among(keys, rules).finite(),
        out.len() == mapped_among(keys, rules).len(),
    decreases keys.len(),
{
    let all = mapped_among(keys, rules);
    if keys.len() == 0 {
        assert(all =~= Set::empty());
    } else {
        let key = keys.last();
        let init = keys.drop_last();
        assert(cache.dom().contains(keys[keys.len() - 1]));
        assert forall|i: int| 0 <= i < init.len() implies cache.dom().contains(
            #[trigger] init[i],
        ) by {
            assert(init[i] == keys[i]);
        }
        assert forall|i: int, j: int| 0 <= i < j < init.len() implies #[trigger] init[i]
            != #[trigger] init[j] by {
            assert(init[i] == keys[i] && init[j] == keys[j]);
        }
        let msg_id = lemma_replay_step(out, keys, cache, rules, origin);
        lemma_outbound_param(cache[key], key, rules, origin, msg_id);
        let earlier = mapped_among(init, rules);
        assert forall|k: Seq<char>| #[trigger] keys.contains(k) <==> init.contains(k) || k == key by {
            if keys.contains(k) {
                let i = choose|i: int| 0 <= i < keys.len() && keys[i] == k;
                if i < init.len() {
                    assert(init[i] == k);
                }
            }
            if init.contains(k) {
                let i = choose|i: int| 0 <= i < init.len() && init[i] == k;
                assert(keys[i] == k);
            }
            assert(keys[keys.len() - 1] == key);
        }
        if init.contains(key) {
            let i = choose|i: int| 0 <= i < init.len() && init[i] == key;
            assert(keys[i] == keys[keys.len() - 1]);
        }
        if mapped_param(rules, key) is Some {
            law_replay_tells_each_once(out.drop_last(), init, cache, rules, origin);
            assert(all =~= earlier.insert(key));
            assert(!earlier.contains(key));
        } else {
            law_replay_tells_each_once(out, init, cache, rules, origin);
            assert(all =~= earlier);
        }
    }
}

} // verus!
