//! Life cycle of remote peers.
//!
//! The manager keeps track of the active session of each remote bridge, settles
//! duplicate connections, and decides when a configured peer is dialled again.
//! Whoever runs the connections performs what it says.
use vstd::prelude::*;

use crate::bridge::config::PeerConfig;
use crate::text;
use crate::text_map::TextMap;

verus! {

// ---------------------------------------------------------------------------
// Duplicate connections
// ---------------------------------------------------------------------------

/// What to do with a new session to a bridge.
#[derive(Debug, Clone, Copy, PartialEq, Eq, Structural)]
pub enum SessionDecision {
    /// There is no active session to this bridge: run this one.
    Admit,
    /// An equivalent or preferred session is active: close this one.
    Reject,
    /// This session is preferred over the active one: replace it.
    Replace,
}

/// The rule that settles duplicate connections. When two bridges dial each
/// other, the one with the lower id keeps its outbound session and the one with
/// the higher id the corresponding inbound one. Of two sessions of the same kind
/// the later is rejected.
pub open spec fn decision(
    local_id: Seq<char>,
    remote_id: Seq<char>,
    new_is_inbound: bool,
    existing_is_inbound: Option<bool>,
) -> SessionDecision {
    match existing_is_inbound {
        None => SessionDecision::Admit,
        Some(existing) => if existing != new_is_inbound && new_is_inbound == text::before(
            remote_id,
            local_id,
        ) {
            SessionDecision::Replace
        } else {
            SessionDecision::Reject
        },
    }
}

/// Settles duplicate connections.
pub fn decide_session(
    local_id: &str,
    remote_id: &str,
    new_is_inbound: bool,
    existing_is_inbound: Option<bool>,
) -> (r: SessionDecision)
    ensures
        r == decision(local_id@, remote_id@, new_is_inbound, existing_is_inbound),
{
    let existing = match existing_is_inbound {
        None => {
            return SessionDecision::Admit;
        },
        Some(existing) => existing,
    };
    if existing == new_is_inbound {
        return SessionDecision::Reject;
    }
    let prefer_inbound = text::less(remote_id, local_id);
    if new_is_inbound == prefer_inbound {
        SessionDecision::Replace
    } else {
        SessionDecision::Reject
    }
}

// ---------------------------------------------------------------------------
// Backoff
// ---------------------------------------------------------------------------

/// The delay before a connection attempt, in seconds: it doubles with every
/// attempt, from one second, and is at most thirty.
pub open spec fn backoff_seconds(attempt: u32) -> nat {
    if attempt < 5 {
        vstd::arithmetic::power2::pow2(attempt as nat)
    } else {
        30
    }
}

/// The delay before a connection attempt, in seconds.
pub fn backoff_delay(attempt: u32) -> (r: u64)
    ensures
        r == backoff_seconds(attempt),
{
    proof {
        vstd::arithmetic::power2::lemma2_to64();
    }
    if attempt == 0 {
        1
    } else if attempt == 1 {
        2
    } else if attempt == 2 {
        4
    } else if attempt == 3 {
        8
    } else if attempt == 4 {
        16
    } else {
        30
    }
}

// ---------------------------------------------------------------------------
// Inbound connections
// ---------------------------------------------------------------------------

/// The number of open inbound connections, and how many there may be.
#[derive(Debug)]
pub struct InboundGauge {
    pub open: usize,
    pub max: usize,
}

impl InboundGauge {
    /// No open connections.
    pub fn new(max: usize) -> (r: Self)
        ensures
            r.open == 0,
            r.max == max,
    {
        InboundGauge { open: 0, max }
    }

    /// Takes a slot for a new connection, where there is one. Without one the
    /// connection is to be closed.
    pub fn take_slot(&mut self) -> (r: bool)
        ensures
            r == (old(self).open < old(self).max),
            final(self).open == old(self).open + (if r {
                1int
            } else {
                0int
            }),
            final(self).max == old(self).max,
            old(self).open <= old(self).max ==> final(self).open <= final(self).max,
    {
        if self.open < self.max {
            self.open = self.open + 1;
            true
        } else {
            false
        }
    }
}

/// A slot of the gauge that a session holds, where it is inbound.
#[derive(Debug)]
pub struct InboundGaugeGuard {
    pub counted: bool,
}

impl InboundGaugeGuard {
    /// The slot of a session; only inbound sessions are counted.
    pub fn new(counted: bool) -> (r: Self)
        ensures
            r.counted == counted,
    {
        InboundGaugeGuard { counted }
    }

    /// Gives the slot back.
    pub fn release(self, gauge: &mut InboundGauge)
        requires
            self.counted ==> old(gauge).open > 0,
        ensures
            final(gauge).open == old(gauge).open - (if self.counted {
                1int
            } else {
                0int
            }),
            final(gauge).max == old(gauge).max,
    {
        if self.counted {
            gauge.open = gauge.open - 1;
        }
    }
}

// ---------------------------------------------------------------------------
// Manager
// ---------------------------------------------------------------------------

/// A session that is registered as the active one of a remote bridge.
#[derive(Debug)]
pub struct ActiveSession {
    /// Unique number of the registration.
    pub entry_id: u64,
    /// Whether the session is inbound.
    pub is_inbound: bool,
    /// Key of the configured peer, for outbound sessions.
    pub config_key: Option<String>,
}

/// What a session is, mathematically.
pub struct SessionModel {
    pub entry_id: u64,
    pub is_inbound: bool,
    pub config_key: Option<Seq<char>>,
}

impl View for ActiveSession {
    type V = SessionModel;

    open spec fn view(&self) -> SessionModel {
        SessionModel {
            entry_id: self.entry_id,
            is_inbound: self.is_inbound,
            config_key: text::opt_view(self.config_key),
        }
    }
}

/// The state of the manager, mathematically.
#[verifier::ext_equal]
pub struct ManagerModel {
    /// The active session of each remote bridge.
    pub active: Map<Seq<char>, SessionModel>,
    /// Keys of configured peers that are not dialled while another session to the
    /// same bridge is active, by remote bridge.
    pub suppressed: Map<Seq<char>, Seq<char>>,
    /// Failed attempts by key.
    pub attempts: Map<Seq<char>, u32>,
    /// Number of the next registration.
    pub next_entry_id: u64,
}

/// The key of a configured peer.
pub open spec fn config_key(c: PeerConfig) -> Seq<char> {
    text::host_port(c.host@, c.port)
}

/// The position of the first configured peer with the given key.
pub open spec fn config_index(configs: Seq<PeerConfig>, key: Seq<char>) -> Option<int>
    decreases configs.len(),
{
    if configs.len() == 0 {
        None
    } else {
        match config_index(configs.drop_last(), key) {
            Some(i) => Some(i),
            None => if config_key(configs.last()) == key {
                Some(configs.len() - 1)
            } else {
                None
            },
        }
    }
}

/// What became of a new session.
#[derive(Debug, Clone, Copy, PartialEq, Eq, Structural)]
pub enum SessionOutcome {
    /// It is active.
    Admitted,
    /// It is active in place of the session with this number, which is to be
    /// cancelled.
    Replaced { entry_id: u64, is_inbound: bool },
    /// It is to be closed.
    Rejected,
}

/// The suppressed keys with one more, where there is one.
pub open spec fn with_suppressed(
    suppressed: Map<Seq<char>, Seq<char>>,
    remote_id: Seq<char>,
    key: Option<Seq<char>>,
) -> Map<Seq<char>, Seq<char>> {
    match key {
        Some(k) => suppressed.insert(remote_id, k),
        None => suppressed,
    }
}

/// The kind of the active session of a bridge.
pub open spec fn active_kind(m: ManagerModel, remote_id: Seq<char>) -> Option<bool> {
    if m.active.dom().contains(remote_id) {
        Some(m.active[remote_id].is_inbound)
    } else {
        None
    }
}

/// Whether two states agree on what they hold for a bridge.
pub open spec fn same_for(m1: ManagerModel, m2: ManagerModel, id: Seq<char>) -> bool {
    &&& m1.active.dom().contains(id) == m2.active.dom().contains(id)
    &&& m1.active.dom().contains(id) ==> m1.active[id] == m2.active[id]
    &&& m1.suppressed.dom().contains(id) == m2.suppressed.dom().contains(id)
    &&& m1.suppressed.dom().contains(id) ==> m1.suppressed[id] == m2.suppressed[id]
}

/// What becomes of a new session to a bridge.
pub open spec fn registered_outcome(
    m: ManagerModel,
    local_id: Seq<char>,
    remote_id: Seq<char>,
    is_inbound: bool,
) -> SessionOutcome {
    match decision(local_id, remote_id, is_inbound, active_kind(m, remote_id)) {
        SessionDecision::Admit => SessionOutcome::Admitted,
        SessionDecision::Replace => SessionOutcome::Replaced {
            entry_id: m.active[remote_id].entry_id,
            is_inbound: m.active[remote_id].is_inbound,
        },
        SessionDecision::Reject => SessionOutcome::Rejected,
    }
}

/// The state after a new session to a bridge. A session that loses is not dialled
/// again while the other one is active.
pub open spec fn registered(
    m: ManagerModel,
    local_id: Seq<char>,
    remote_id: Seq<char>,
    is_inbound: bool,
    key: Option<Seq<char>>,
) -> ManagerModel {
    let entry = SessionModel { entry_id: m.next_entry_id, is_inbound, config_key: key };
    let next = (m.next_entry_id + 1) as u64;
    match decision(local_id, remote_id, is_inbound, active_kind(m, remote_id)) {
        SessionDecision::Admit => ManagerModel {
            active: m.active.insert(remote_id, entry),
            next_entry_id: next,
            ..m
        },
        SessionDecision::Replace => ManagerModel {
            active: m.active.insert(remote_id, entry),
            suppressed: with_suppressed(
                m.suppressed,
                remote_id,
                m.active[remote_id].config_key,
            ),
            next_entry_id: next,
            ..m
        },
        SessionDecision::Reject => ManagerModel {
            suppressed: with_suppressed(m.suppressed, remote_id, key),
            next_entry_id: next,
            ..m
        },
    }
}

/// Whether the active session of a bridge is the one with the given number.
pub open spec fn is_current(m: ManagerModel, remote_id: Seq<char>, entry_id: u64) -> bool {
    m.active.dom().contains(remote_id) && m.active[remote_id].entry_id == entry_id
}

/// The state after a session has ended: it is removed only if it is still the
/// active one, and an inbound one lifts the suppression of its bridge.
pub open spec fn finished(
    m: ManagerModel,
    remote_id: Seq<char>,
    entry_id: u64,
    is_inbound: bool,
) -> ManagerModel {
    if is_current(m, remote_id, entry_id) {
        ManagerModel {
            active: m.active.remove(remote_id),
            suppressed: if is_inbound {
                m.suppressed.remove(remote_id)
            } else {
                m.suppressed
            },
            ..m
        }
    } else {
        m
    }
}

/// The configured peer to dial again when a session has ended: the one that was
/// suppressed in favour of an inbound session, if it reconnects.
pub open spec fn resumed(
    m: ManagerModel,
    configs: Seq<PeerConfig>,
    remote_id: Seq<char>,
    entry_id: u64,
    is_inbound: bool,
) -> Option<int> {
    if is_current(m, remote_id, entry_id) && is_inbound && m.suppressed.dom().contains(
        remote_id,
    ) {
        match config_index(configs, m.suppressed[remote_id]) {
            Some(i) => if configs[i].reconnect {
                Some(i)
            } else {
                None
            },
            None => None,
        }
    } else {
        None
    }
}

/// Whether param state is replayed to a peer: always to inbound ones, which have no
/// key, and to configured ones as configured.
pub open spec fn replays_params(configs: Seq<PeerConfig>, key: Option<Seq<char>>) -> bool {
    match key {
        None => true,
        Some(k) => exists|i: int|
            0 <= i < configs.len() && config_key(#[trigger] configs[i]) == k
                && configs[i].replay_params,
    }
}

/// What happens to a peer.
#[derive(Debug)]
pub enum PeerEvent {
    /// An outbound session completed its handshake.
    Connected { config_key: String },
    /// A session or an attempt has ended.
    SessionEnded { config_key: Option<String> },
}

/// A configured peer to dial, and how many attempts went before.
#[derive(Debug, Clone, Copy, PartialEq, Eq, Structural)]
pub struct Dial {
    pub config: usize,
    pub attempt: u32,
}

/// Whether a key is suppressed.
pub open spec fn is_suppressed(m: ManagerModel, key: Seq<char>) -> bool {
    exists|remote_id: Seq<char>| #[trigger]
        m.suppressed.dom().contains(remote_id) && m.suppressed[remote_id] == key
}

/// The next attempt of a key.
pub open spec fn next_attempt(m: ManagerModel, key: Seq<char>) -> u32 {
    if !m.attempts.dom().contains(key) {
        1
    } else if m.attempts[key] == u32::MAX {
        u32::MAX
    } else {
        (m.attempts[key] + 1) as u32
    }
}

/// What to dial when the session of a key has ended.
pub open spec fn redial(m: ManagerModel, configs: Seq<PeerConfig>, key: Seq<char>) -> Option<int> {
    if is_suppressed(m, key) {
        None
    } else {
        match config_index(configs, key) {
            Some(i) => if configs[i].reconnect {
                Some(i)
            } else {
                None
            },
            None => None,
        }
    }
}

/// Keeps track of the sessions with remote peers.
#[derive(Debug)]
pub struct PeerManager {
    local_id: String,
    configs: Vec<PeerConfig>,
    active: TextMap<ActiveSession>,
    suppressed: TextMap<String>,
    attempts: TextMap<u32>,
    next_entry_id: u64,
}

impl View for PeerManager {
    type V = ManagerModel;

    closed spec fn view(&self) -> ManagerModel {
        ManagerModel {
            active: self.active@.map_values(|s: ActiveSession| s@),
            suppressed: self.suppressed@.map_values(|s: String| s@),
            attempts: self.attempts@,
            next_entry_id: self.next_entry_id,
        }
    }
}

/// Every registration number in use is one that was given out.
pub open spec fn entries_fresh(m: ManagerModel) -> bool {
    forall|k: Seq<char>| #[trigger]
        m.active.dom().contains(k) ==> m.active[k].entry_id < m.next_entry_id
}

impl PeerManager {
    /// The id of this bridge.
    pub closed spec fn id(&self) -> Seq<char> {
        self.local_id@
    }

    /// The configured peers.
    pub closed spec fn configs(&self) -> Seq<PeerConfig> {
        self.configs@
    }

    /// A manager without sessions.
    pub fn new(local_id: String, configs: Vec<PeerConfig>) -> (r: Self)
        ensures
            r.id() == local_id@,
            r.configs() == configs@,
            r@ == (ManagerModel {
                active: Map::empty(),
                suppressed: Map::empty(),
                attempts: Map::empty(),
                next_entry_id: 0,
            }),
            entries_fresh(r@),
    {
        let r = PeerManager {
            local_id,
            configs,
            active: TextMap::new(),
            suppressed: TextMap::new(),
            attempts: TextMap::new(),
            next_entry_id: 0,
        };
        assert(r@ =~= (ManagerModel {
            active: Map::empty(),
            suppressed: Map::empty(),
            attempts: Map::empty(),
            next_entry_id: 0,
        }));
        r
    }

    /// A configured peer.
    pub fn config(&self, i: usize) -> (r: &PeerConfig)
        requires
            i < self.configs().len(),
        ensures
            *r == self.configs()[i as int],
    {
        &self.configs[i]
    }

    /// The number of configured peers.
    pub fn config_count(&self) -> (r: usize)
        ensures
            r == self.configs().len(),
    {
        self.configs.len()
    }

    /// The key of a configured peer.
    pub fn key_of(&self, i: usize) -> (r: String)
        requires
            i < self.configs().len(),
        ensures
            r@ == config_key(self.configs()[i as int]),
    {
        text::join_host_port(self.configs[i].host.as_str(), self.configs[i].port)
    }

    fn find_config(&self, key: &str) -> (r: Option<usize>)
        ensures
            match r {
                Some(i) => config_index(self.configs(), key@) == Some(i as int) && i
                    < self.configs().len(),
                None => config_index(self.configs(), key@) is None,
            },
    {
        let mut i: usize = 0;
        let ghost all = self.configs();
        assert(all.take(0) =~= Seq::empty());
        while i < self.configs.len()
            invariant
                i <= self.configs@.len(),
                all == self.configs(),
                config_index(all.take(i as int), key@) is None,
            decreases self.configs@.len() - i,
        {
            assert(all.take(i as int + 1).drop_last() =~= all.take(i as int));
            let k = self.key_of(i);
            if text::same(k.as_str(), key) {
                proof {
                    lemma_index_stays(all, key@, i as int + 1);
                }
                return Some(i);
            }
            i = i + 1;
        }
        assert(all.take(all.len() as int) =~= all);
        None
    }

    /// Registers a session whose handshake is complete. Gives back its number and
    /// what became of it.
    pub fn register(
        &mut self,
        remote_id: &str,
        is_inbound: bool,
        key: Option<String>,
    ) -> (r: (u64, SessionOutcome))
        requires
            old(self)@.next_entry_id < u64::MAX,
        ensures
            r.0 == old(self)@.next_entry_id,
            r.1 == registered_outcome(old(self)@, old(self).id(), remote_id@, is_inbound),
            final(self)@ == registered(
                old(self)@,
                old(self).id(),
                remote_id@,
                is_inbound,
                text::opt_view(key),
            ),
            final(self).id() == old(self).id(),
            final(self).configs() == old(self).configs(),
            entries_fresh(old(self)@) ==> entries_fresh(final(self)@),
    {
        let ghost start = self@;
        let ghost id = self.id();
        let ghost key_view = text::opt_view(key);
        let entry_id: u64 = self.next_entry_id;
        self.next_entry_id = entry_id + 1;
        let existing: Option<bool> = match self.active.get(remote_id) {
            Some(s) => Some(s.is_inbound),
            None => None,
        };
        assert(existing == active_kind(start, remote_id@));
        let ghost entry = SessionModel { entry_id, is_inbound, config_key: key_view };
        let outcome = match decide_session(
            self.local_id.as_str(),
            remote_id,
            is_inbound,
            existing,
        ) {
            SessionDecision::Admit => {
                self.active.insert(
                    remote_id.to_owned(),
                    ActiveSession { entry_id, is_inbound, config_key: key },
                );
                assert(self@.active =~= start.active.insert(remote_id@, entry));
                SessionOutcome::Admitted
            },
            SessionDecision::Replace => {
                let old_session = self.active.remove(remote_id);
                self.active.insert(
                    remote_id.to_owned(),
                    ActiveSession { entry_id, is_inbound, config_key: key },
                );
                assert(self@.active =~= start.active.insert(remote_id@, entry));
                match old_session {
                    Some(s) => {
                        assert(s@ == start.active[remote_id@]);
                        if let Some(k) = s.config_key {
                            self.suppressed.insert(remote_id.to_owned(), k);
                            assert(self@.suppressed =~= start.suppressed.insert(remote_id@, k@));
                        }
                        SessionOutcome::Replaced { entry_id: s.entry_id, is_inbound: s.is_inbound }
                    },
                    None => SessionOutcome::Admitted,
                }
            },
            SessionDecision::Reject => {
                if let Some(k) = key {
                    self.suppressed.insert(remote_id.to_owned(), k);
                    assert(self@.suppressed =~= start.suppressed.insert(remote_id@, k@));
                }
                SessionOutcome::Rejected
            },
        };
        assert(self@ =~= registered(start, id, remote_id@, is_inbound, key_view));
        (entry_id, outcome)
    }

    /// Takes out a session that has ended, unless another one has replaced it
    /// meanwhile. Gives back the configured peer to dial again, where there is one.
    pub fn session_finished(&mut self, remote_id: &str, entry_id: u64, is_inbound: bool) -> (r:
        Option<Dial>)
        ensures
            final(self)@ == finished(old(self)@, remote_id@, entry_id, is_inbound),
            match r {
                Some(dial) => resumed(
                    old(self)@,
                    old(self).configs(),
                    remote_id@,
                    entry_id,
                    is_inbound,
                ) == Some(dial.config as int) && dial.attempt == 0 && dial.config < old(
                    self,
                ).configs().len(),
                None => resumed(
                    old(self)@,
                    old(self).configs(),
                    remote_id@,
                    entry_id,
                    is_inbound,
                ) is None,
            },
            final(self).id() == old(self).id(),
            final(self).configs() == old(self).configs(),
            entries_fresh(old(self)@) ==> entries_fresh(final(self)@),
    {
        let ghost start = self@;
        let ours = match self.active.get(remote_id) {
            Some(s) => s.entry_id == entry_id,
            None => false,
        };
        assert(ours == is_current(start, remote_id@, entry_id));
        if !ours {
            return None;
        }
        self.active.remove(remote_id);
        assert(self@.active =~= start.active.remove(remote_id@));
        if !is_inbound {
            assert(self@ =~= finished(start, remote_id@, entry_id, is_inbound));
            return None;
        }
        let key = self.suppressed.remove(remote_id);
        assert(self@.suppressed =~= start.suppressed.remove(remote_id@));
        assert(self@ =~= finished(start, remote_id@, entry_id, is_inbound));
        match key {
            Some(k) => {
                assert(k@ == start.suppressed[remote_id@]);
                match self.find_config(k.as_str()) {
                    Some(i) => if self.configs[i].reconnect {
                        Some(Dial { config: i, attempt: 0 })
                    } else {
                        None
                    },
                    None => None,
                }
            },
            None => None,
        }
    }

    fn suppresses(&self, key: &str) -> (r: bool)
        ensures
            r == is_suppressed(self@, key@),
    {
        let keys = self.suppressed.sorted_keys();
        let mut i: usize = 0;
        while i < keys.len()
            invariant
                i <= keys@.len(),
                text::views(keys@) == self.suppressed.keys(),
                keys@.len() == self.suppressed.keys().len(),
                forall|k: Seq<char>| #[trigger]
                    self.suppressed.keys().contains(k) <==> self.suppressed@.dom().contains(k),
                forall|j: int|
                    0 <= j < i ==> self@.suppressed[#[trigger] self.suppressed.keys()[j]] != key@,
            decreases keys@.len() - i,
        {
            let v = self.suppressed.value_at(i);
            assert(self@.suppressed.dom().contains(self.suppressed.keys()[i as int]));
            assert(self@.suppressed[self.suppressed.keys()[i as int]] == v@);
            if text::same(v.as_str(), key) {
                return true;
            }
            i = i + 1;
        }
        assert forall|remote_id: Seq<char>| #[trigger]
            self@.suppressed.dom().contains(remote_id) implies self@.suppressed[remote_id]
            != key@ by {
            assert(self.suppressed.keys().contains(remote_id));
            let j = choose|j: int|
                0 <= j < self.suppressed.keys().len() && self.suppressed.keys()[j] == remote_id;
        }
        false
    }

    /// Takes an event into account. Gives back the configured peer to dial, where
    /// there is one.
    pub fn handle_event(&mut self, event: PeerEvent) -> (r: Option<Dial>)
        ensures
            match event {
                PeerEvent::Connected { config_key } => {
                    &&& r is None
                    &&& final(self)@ == (ManagerModel {
                        attempts: old(self)@.attempts.insert(config_key@, 0),
                        ..old(self)@
                    })
                },
                PeerEvent::SessionEnded { config_key: Some(key) } => match redial(
                    old(self)@,
                    old(self).configs(),
                    key@,
                ) {
                    Some(i) => {
                        &&& r matches Some(dial)
                        &&& dial.config == i
                        &&& i < old(self).configs().len()
                        &&& dial.attempt == next_attempt(old(self)@, key@)
                        &&& final(self)@ == (ManagerModel {
                            attempts: old(self)@.attempts.insert(
                                key@,
                                next_attempt(old(self)@, key@),
                            ),
                            ..old(self)@
                        })
                    },
                    None => r is None && final(self)@ == old(self)@,
                },
                PeerEvent::SessionEnded { config_key: None } => r is None && final(self)@ == old(
                    self,
                )@,
            },
            final(self).id() == old(self).id(),
            final(self).configs() == old(self).configs(),
            entries_fresh(old(self)@) ==> entries_fresh(final(self)@),
    {
        match event {
            PeerEvent::Connected { config_key } => {
                self.attempts.insert(config_key, 0);
                None
            },
            PeerEvent::SessionEnded { config_key: Some(key) } => {
                if self.suppresses(key.as_str()) {
                    return None;
                }
                match self.find_config(key.as_str()) {
                    Some(i) => {
                        if !self.configs[i].reconnect {
                            return None;
                        }
                        let attempt: u32 = match self.attempts.get(key.as_str()) {
                            Some(n) => n.saturating_add(1),
                            None => 1,
                        };
                        assert(attempt == next_attempt(old(self)@, key@));
                        self.attempts.insert(key, attempt);
                        Some(Dial { config: i, attempt })
                    },
                    None => None,
                }
            },
            PeerEvent::SessionEnded { config_key: None } => None,
        }
    }

    /// Whether param state is replayed to a peer: always to inbound ones, and to
    /// configured ones as configured.
    pub fn should_replay_params(&self, key: &Option<String>) -> (r: bool)
        ensures
            r == replays_params(self.configs(), text::opt_view(*key)),
    {
        match key {
            None => true,
            Some(k) => {
                let mut i: usize = 0;
                while i < self.configs.len()
                    invariant
                        i <= self.configs@.len(),
                        *key == Some(*k),
                        forall|j: int|
                            0 <= j < i ==> !(config_key(#[trigger] self.configs()[j]) == k@
                                && self.configs()[j].replay_params),
                    decreases self.configs@.len() - i,
                {
                    let own = self.key_of(i);
                    if self.configs[i].replay_params && text::same(own.as_str(), k.as_str()) {
                        assert(config_key(self.configs()[i as int]) == k@);
                        return true;
                    }
                    i = i + 1;
                }
                false
            },
        }
    }
}

/// The first peer with a key stays the first when more peers follow.
proof fn lemma_index_stays(configs: Seq<PeerConfig>, key: Seq<char>, n: int)
    requires
        0 <= n <= configs.len(),
        config_index(configs.take(n), key) is Some,
    ensures
        config_index(configs, key) == config_index(configs.take(n), key),
    decreases configs.len() - n,
{
    if n < configs.len() {
        assert(configs.take(n + 1).drop_last() =~= configs.take(n));
        lemma_index_stays(configs, key, n + 1);
    } else {
        assert(configs.take(n) =~= configs);
    }
}

// ---------------------------------------------------------------------------
// Laws
// ---------------------------------------------------------------------------

/// Of the two ways in which an inbound and an outbound session can collide,
/// exactly one is a replacement.
pub proof fn law_one_collision_replaces(local_id: Seq<char>, remote_id: Seq<char>)
    ensures
        (decision(local_id, remote_id, true, Some(false)) == SessionDecision::Replace) != (decision(
            local_id,
            remote_id,
            false,
            Some(true),
        ) == SessionDecision::Replace),
{
}

/// The kind of the session that is active after two sessions to one bridge.
pub open spec fn settled_kind(
    local_id: Seq<char>,
    remote_id: Seq<char>,
    first_is_inbound: bool,
    second_is_inbound: bool,
) -> bool {
    if decision(local_id, remote_id, second_is_inbound, Some(first_is_inbound))
        == SessionDecision::Replace {
        second_is_inbound
    } else {
        first_is_inbound
    }
}

/// When two bridges dial each other, both keep the same connection, in whatever
/// order the two connections reach each of them: what one side keeps as outbound
/// the other keeps as inbound.
pub proof fn law_mutual_dial_settles_on_one_connection(
    a: Seq<char>,
    b: Seq<char>,
    a_first_inbound: bool,
    b_first_inbound: bool,
)
    requires
        a != b,
    ensures
        settled_kind(a, b, a_first_inbound, !a_first_inbound) != settled_kind(
            b,
            a,
            b_first_inbound,
            !b_first_inbound,
        ),
{
    text::lemma_before_total(a, b);
}

/// The delay is between one and thirty seconds and never shrinks as attempts
/// fail.
pub proof fn law_backoff_bounds(attempt: u32, later: u32)
    requires
        attempt <= later,
    ensures
        1 <= backoff_seconds(attempt) <= 30,
        backoff_seconds(attempt) <= backoff_seconds(later),
{
    vstd::arithmetic::power2::lemma2_to64();
}

/// The clean-up of a replaced session leaves its replacement alone.
pub proof fn law_stale_cleanup_keeps_replacement(
    m: ManagerModel,
    local_id: Seq<char>,
    remote_id: Seq<char>,
    is_inbound: bool,
    key: Option<Seq<char>>,
)
    requires
        entries_fresh(m),
        m.next_entry_id < u64::MAX,
        registered_outcome(m, local_id, remote_id, is_inbound) is Replaced,
    ensures
        ({
            let old_session = m.active[remote_id];
            let after = registered(m, local_id, remote_id, is_inbound, key);
            finished(after, remote_id, old_session.entry_id, old_session.is_inbound) == after
        }),
{
    assert(m.active.dom().contains(remote_id));
}

/// Neither the start nor the end of a session changes anything for other bridges.
pub proof fn law_bridges_are_independent(
    m: ManagerModel,
    local_id: Seq<char>,
    remote_id: Seq<char>,
    is_inbound: bool,
    key: Option<Seq<char>>,
    entry_id: u64,
    other: Seq<char>,
)
    requires
        other != remote_id,
    ensures
        same_for(registered(m, local_id, remote_id, is_inbound, key), m, other),
        same_for(finished(m, remote_id, entry_id, is_inbound), m, other),
{
}

/// A rejected outbound session is not dialled again while the session that won is
/// active, and is dialled again once that one, being inbound, has ended.
pub proof fn law_rejected_dial_resumes(
    m: ManagerModel,
    configs: Seq<PeerConfig>,
    local_id: Seq<char>,
    remote_id: Seq<char>,
    key: Seq<char>,
)
    requires
        m.active.dom().contains(remote_id),
        m.active[remote_id].is_inbound,
        registered_outcome(m, local_id, remote_id, false) == SessionOutcome::Rejected,
        config_index(configs, key) matches Some(i) && configs[i].reconnect,
    ensures
        ({
            let after = registered(m, local_id, remote_id, false, Some(key));
            &&& redial(after, configs, key) is None
            &&& resumed(
                after,
                configs,
                remote_id,
                after.active[remote_id].entry_id,
                true,
            ) == config_index(configs, key)
        }),
{
    let after = registered(m, local_id, remote_id, false, Some(key));
    assert(after.suppressed.dom().contains(remote_id));
    assert(after.suppressed[remote_id] == key);
}

/// When an inbound and an outbound session to one bridge meet, in whatever order, the side
/// with the lower id keeps the outbound one and the side with the higher id the inbound
/// one.
pub proof fn law_lower_id_keeps_its_dial(
    local_id: Seq<char>,
    remote_id: Seq<char>,
    first_is_inbound: bool,
)
    requires
        local_id != remote_id,
    ensures
        text::before(local_id, remote_id) ==> !settled_kind(
            local_id,
            remote_id,
            first_is_inbound,
            !first_is_inbound,
        ),
        text::before(remote_id, local_id) ==> settled_kind(
            local_id,
            remote_id,
            first_is_inbound,
            !first_is_inbound,
        ),
{
    text::lemma_before_total(local_id, remote_id);
}

/// After a session was registered its bridge has an active session. It is the new one
/// where that was admitted or replaces the other, under the number that was next; a
/// rejected one leaves the active session as it was.
pub proof fn law_registration_decides_the_active_session(
    m: ManagerModel,
    local_id: Seq<char>,
    remote_id: Seq<char>,
    is_inbound: bool,
    key: Option<Seq<char>>,
)
    requires
        m.next_entry_id < u64::MAX,
    ensures
        ({
            let after = registered(m, local_id, remote_id, is_inbound, key);
            let entry = SessionModel { entry_id: m.next_entry_id, is_inbound, config_key: key };
            &&& after.active.dom().contains(remote_id)
            &&& after.next_entry_id == m.next_entry_id + 1
            &&& after.attempts == m.attempts
            &&& match registered_outcome(m, local_id, remote_id, is_inbound) {
                SessionOutcome::Admitted => !m.active.dom().contains(remote_id)
                    && after.active[remote_id] == entry && after.suppressed == m.suppressed,
                SessionOutcome::Replaced { entry_id, is_inbound: was_inbound } => {
                    &&& is_current(m, remote_id, entry_id)
                    &&& was_inbound == m.active[remote_id].is_inbound
                    &&& was_inbound != is_inbound
                    &&& after.active[remote_id] == entry
                },
                SessionOutcome::Rejected => m.active.dom().contains(remote_id) && after.active
                    == m.active,
            }
        }),
        !m.active.dom().contains(remote_id) ==> registered_outcome(
            m,
            local_id,
            remote_id,
            is_inbound,
        ) == SessionOutcome::Admitted,
        m.active.dom().contains(remote_id) && m.active[remote_id].is_inbound == is_inbound
            ==> registered_outcome(m, local_id, remote_id, is_inbound) == SessionOutcome::Rejected,
{
    let after = registered(m, local_id, remote_id, is_inbound, key);
    if registered_outcome(m, local_id, remote_id, is_inbound) is Rejected {
        assert(m.active.dom().contains(remote_id));
    }
}

/// The end of the only session to a bridge undoes its start: the bridge has no active
/// session, and all others have theirs.
pub proof fn law_end_undoes_admission(
    m: ManagerModel,
    local_id: Seq<char>,
    remote_id: Seq<char>,
    is_inbound: bool,
    key: Option<Seq<char>>,
)
    requires
        m.next_entry_id < u64::MAX,
        !m.active.dom().contains(remote_id),
    ensures
        ({
            let after = registered(m, local_id, remote_id, is_inbound, key);
            finished(after, remote_id, m.next_entry_id, is_inbound).active == m.active
        }),
{
    let after = registered(m, local_id, remote_id, is_inbound, key);
    assert(finished(after, remote_id, m.next_entry_id, is_inbound).active =~= m.active);
}

/// An outbound session that an inbound one replaces is not dialled again while that one is
/// active, and is dialled again once it has ended.
pub proof fn law_replaced_dial_resumes(
    m: ManagerModel,
    configs: Seq<PeerConfig>,
    local_id: Seq<char>,
    remote_id: Seq<char>,
    key: Seq<char>,
)
    requires
        m.next_entry_id < u64::MAX,
        m.active.dom().contains(remote_id),
        !m.active[remote_id].is_inbound,
        m.active[remote_id].config_key == Some(key),
        registered_outcome(m, local_id, remote_id, true) is Replaced,
        config_index(configs, key) matches Some(i) && configs[i].reconnect,
    ensures
        ({
            let after = registered(m, local_id, remote_id, true, None);
            &&& redial(after, configs, key) is None
            &&& resumed(after, configs, remote_id, m.next_entry_id, true) == config_index(
                configs,
                key,
            )
            &&& !finished(after, remote_id, m.next_entry_id, true).suppressed.dom().contains(
                remote_id,
            )
        }),
{
    let after = registered(m, local_id, remote_id, true, None);
    assert(after.suppressed.dom().contains(remote_id));
    assert(after.suppressed[remote_id] == key);
}

/// A key stands for the first configured peer that has it.
pub proof fn law_key_is_the_first_with_it(configs: Seq<PeerConfig>, key: Seq<char>)
    ensures
        match config_index(configs, key) {
            Some(i) => 0 <= i < configs.len() && config_key(configs[i]) == key && forall|j: int|
                0 <= j < i ==> config_key(#[trigger] configs[j]) != key,
            None => forall|j: int|
                0 <= j < configs.len() ==> config_key(#[trigger] configs[j]) != key,
        },
    decreases configs.len(),
{
    if configs.len() > 0 {
        let init = configs.drop_last();
        law_key_is_the_first_with_it(init, key);
        assert(configs[configs.len() - 1] == configs.last());
        match config_index(init, key) {
            Some(i) => {
                assert(configs[i] == init[i]);
                assert forall|j: int| 0 <= j < i implies config_key(#[trigger] configs[j])
                    != key by {
                    assert(configs[j] == init[j]);
                }
            },
            None => {
                assert forall|j: int| 0 <= j < init.len() implies config_key(
                    #[trigger] configs[j],
                ) != key by {
                    assert(configs[j] == init[j]);
                }
            },
        }
    }
}

/// A configured peer is dialled again when its session has ended, as long as nothing is
/// suppressed, if and only if it is to reconnect; a suppressed one is not.
pub proof fn law_ended_session_is_redialled(
    m: ManagerModel,
    configs: Seq<PeerConfig>,
    i: int,
)
    requires
        0 <= i < configs.len(),
        forall|j: int|
            0 <= j < i ==> config_key(#[trigger] configs[j]) != config_key(configs[i]),
    ensures
        (forall|remote_id: Seq<char>|
            !(#[trigger] m.suppressed.dom().contains(remote_id))) ==> redial(
            m,
            configs,
            config_key(configs[i]),
        ) == (if configs[i].reconnect {
            Some(i)
        } else {
            None
        }),
        forall|remote_id: Seq<char>| #[trigger]
            m.suppressed.dom().contains(remote_id) && m.suppressed[remote_id] == config_key(
                configs[i],
            ) ==> redial(m, configs, config_key(configs[i])) is None,
{
    law_key_is_the_first_with_it(configs, config_key(configs[i]));
    let k = config_index(configs, config_key(configs[i]));
    if k is Some && k->0 > i {
        assert(config_key(configs[i]) != config_key(configs[i]));
    }
}

/// Every failure counts one attempt more, from one after a connection or at the start, and
/// the attempts of other keys stay.
pub proof fn law_attempts_are_counted(m: ManagerModel, key: Seq<char>, other: Seq<char>)
    ensures
        !m.attempts.dom().contains(key) ==> next_attempt(m, key) == 1,
        next_attempt(
            ManagerModel { attempts: m.attempts.insert(key, 0), ..m },
            key,
        ) == 1,
        next_attempt(m, key) < u32::MAX ==> next_attempt(
            ManagerModel { attempts: m.attempts.insert(key, next_attempt(m, key)), ..m },
            key,
        ) == next_attempt(m, key) + 1,
        other != key ==> next_attempt(
            ManagerModel { attempts: m.attempts.insert(key, next_attempt(m, key)), ..m },
            other,
        ) == next_attempt(m, other),
{
}

/// The delay is one second at first, doubles with every attempt while it is under sixteen
/// seconds, and is thirty seconds from then on.
pub proof fn law_backoff_doubles(attempt: u32)
    ensures
        backoff_seconds(0) == 1,
        attempt < 4 ==> backoff_seconds((attempt + 1) as u32) == 2 * backoff_seconds(attempt),
        backoff_seconds(attempt) < 16 <==> attempt < 4,
        attempt >= 5 ==> backoff_seconds(attempt) == 30,
{
    vstd::arithmetic::power2::lemma2_to64();
}

/// Param state goes to every inbound peer, and to a configured one exactly if it is
/// configured so.
pub proof fn law_params_go_where_configured(configs: Seq<PeerConfig>, i: int)
    requires
        0 <= i < configs.len(),
        forall|j: int|
            0 <= j < configs.len() && j != i ==> config_key(#[trigger] configs[j]) != config_key(
                configs[i],
            ),
    ensures
        replays_params(configs, None),
        replays_params(configs, Some(config_key(configs[i]))) == configs[i].replay_params,
{
    if configs[i].replay_params {
        assert(config_key(configs[i]) == config_key(configs[i]));
    }
}

} // verus!
