//! The client side of a hub connection: handshake, clock pings, and what the
//! messages of the hub mean.
use vstd::prelude::*;

use crate::protocol;
use crate::protocol::{MessageModel, VoiceId, WireMessage};
use crate::values::{FloatValue, Value};

verus! {

/// Hub port where discovery finds none.
pub const DEFAULT_HUB_PORT: u16 = 7331;

/// How many clock pings may await their pong.
pub const MAX_PENDING_PINGS: usize = 64;

/// How many errors of the hub are kept for the application.
pub const MAX_PENDING_ERRORS: usize = 64;

// ---------------------------------------------------------------------------
// Errors of the hub
// ---------------------------------------------------------------------------

/// An error that the hub reports.
#[derive(Debug, PartialEq, Eq)]
pub struct HubError {
    /// Machine-readable code.
    pub code: String,
    /// Human-readable description.
    pub message: String,
}

impl Clone for HubError {
    fn clone(&self) -> (r: Self)
        ensures
            r.code@ == self.code@,
            r.message@ == self.message@,
    {
        HubError { code: self.code.clone(), message: self.message.clone() }
    }
}

impl HubError {
    /// The error as a text: the code, a colon and the description.
    pub fn message_text(&self) -> (r: String)
        ensures
            r@ == self.code@ + ": "@ + self.message@,
    {
        self.code.clone().concat(": ").concat(self.message.as_str())
    }
}

// ---------------------------------------------------------------------------
// Clock pings
// ---------------------------------------------------------------------------

/// A clock ping that awaits its pong.
#[derive(Debug, Clone, Copy, PartialEq, Eq, Structural)]
pub struct Ping {
    /// Sequence number.
    pub sequence: u64,
    /// Local time at which it was sent.
    pub sent: FloatValue,
}

/// No two pings have the same sequence number.
pub open spec fn distinct_pings(s: Seq<Ping>) -> bool {
    forall|i: int, j: int|
        0 <= i < j < s.len() ==> (#[trigger] s[i]).sequence != (#[trigger] s[j]).sequence
}

/// The times at which the pings were sent, by sequence number.
pub open spec fn ping_map(s: Seq<Ping>) -> Map<u64, FloatValue>
    decreases s.len(),
{
    if s.len() == 0 {
        Map::empty()
    } else {
        ping_map(s.drop_last()).insert(s.last().sequence, s.last().sent)
    }
}

proof fn lemma_ping_map(s: Seq<Ping>)
    requires
        distinct_pings(s),
    ensures
        forall|i: int|
            0 <= i < s.len() ==> ping_map(s).dom().contains((#[trigger] s[i]).sequence)
                && ping_map(s)[s[i].sequence] == s[i].sent,
        forall|k: u64| #[trigger]
            ping_map(s).dom().contains(k) ==> exists|i: int|
                0 <= i < s.len() && (#[trigger] s[i]).sequence == k,
        ping_map(s).dom().finite(),
        ping_map(s).dom().len() == s.len(),
    decreases s.len(),
{
    if s.len() > 0 {
        let init = s.drop_last();
        assert(distinct_pings(init)) by {
            assert forall|i: int, j: int| 0 <= i < j < init.len() implies (#[trigger] init[i]).sequence
                != (#[trigger] init[j]).sequence by {
                assert(s[i].sequence != s[j].sequence);
            }
        }
        lemma_ping_map(init);
        assert forall|i: int| 0 <= i < s.len() implies ping_map(s).dom().contains(
            (#[trigger] s[i]).sequence,
        ) && ping_map(s)[s[i].sequence] == s[i].sent by {
            if i < s.len() - 1 {
                assert(init[i] == s[i]);
                assert(s[i].sequence != s[s.len() - 1].sequence);
            }
        }
        assert forall|k: u64| #[trigger] ping_map(s).dom().contains(k) implies exists|i: int|
            0 <= i < s.len() && (#[trigger] s[i]).sequence == k by {
            if k == s.last().sequence {
                assert(s[s.len() - 1].sequence == k);
            } else {
                assert(ping_map(init).dom().contains(k));
                let i = choose|i: int| 0 <= i < init.len() && (#[trigger] init[i]).sequence == k;
                assert(s[i].sequence == k);
            }
        }
        if ping_map(init).dom().contains(s.last().sequence) {
            let i = choose|i: int|
                0 <= i < init.len() && (#[trigger] init[i]).sequence == s.last().sequence;
            assert(s[i].sequence == s[s.len() - 1].sequence);
        }
    }
}

proof fn lemma_ping_removed(s: Seq<Ping>, i: int)
    requires
        distinct_pings(s),
        0 <= i < s.len(),
    ensures
        distinct_pings(s.remove(i)),
        ping_map(s.remove(i)) == ping_map(s).remove(s[i].sequence),
{
    let t = s.remove(i);
    assert forall|a: int, b: int| 0 <= a < b < t.len() implies (#[trigger] t[a]).sequence != (
    #[trigger] t[b]).sequence by {
        let oa = if a < i {
            a
        } else {
            a + 1
        };
        let ob = if b < i {
            b
        } else {
            b + 1
        };
        assert(t[a] == s[oa]);
        assert(t[b] == s[ob]);
    }
    lemma_ping_map(s);
    lemma_ping_map(t);
    let m = ping_map(s).remove(s[i].sequence);
    assert forall|k: u64| ping_map(t).dom().contains(k) == m.dom().contains(k) by {
        if ping_map(t).dom().contains(k) {
            let j = choose|j: int| 0 <= j < t.len() && (#[trigger] t[j]).sequence == k;
            let o = if j < i {
                j
            } else {
                j + 1
            };
            assert(t[j] == s[o]);
        }
        if m.dom().contains(k) {
            let j = choose|j: int| 0 <= j < s.len() && (#[trigger] s[j]).sequence == k;
            let o = if j < i {
                j
            } else {
                j - 1
            };
            assert(t[o] == s[j]);
        }
    }
    assert forall|k: u64| m.dom().contains(k) implies ping_map(t)[k] == m[k] by {
        let j = choose|j: int| 0 <= j < s.len() && (#[trigger] s[j]).sequence == k;
        let o = if j < i {
            j
        } else {
            j - 1
        };
        assert(t[o] == s[j]);
    }
    assert(ping_map(t) =~= m);
}

/// Whether `k` is the smallest key of a map.
pub open spec fn is_oldest(m: Map<u64, FloatValue>, k: u64) -> bool {
    m.dom().contains(k) && forall|j: u64| #[trigger] m.dom().contains(j) ==> k <= j
}

/// The pending pings with room for one more: at capacity the oldest is given up.
pub open spec fn with_room(m: Map<u64, FloatValue>, after: Map<u64, FloatValue>) -> bool {
    if m.dom().len() >= MAX_PENDING_PINGS {
        exists|k: u64| #[trigger] is_oldest(m, k) && after == m.remove(k)
    } else {
        after == m
    }
}

/// Whether the pending pings after one more was sent are `after`.
pub open spec fn ping_recorded(
    m: Map<u64, FloatValue>,
    sequence: u64,
    now: FloatValue,
    after: Map<u64, FloatValue>,
) -> bool {
    exists|room: Map<u64, FloatValue>| #[trigger]
        with_room(m, room) && after == room.insert(sequence, now)
}

/// The clock pings of a connection.
#[derive(Debug)]
pub struct LocalClock {
    next_sequence: u64,
    pending: Vec<Ping>,
}

impl LocalClock {
    #[verifier::type_invariant]
    spec fn inv(&self) -> bool {
        distinct_pings(self.pending@) && self.pending@.len() <= MAX_PENDING_PINGS
    }

    /// The sequence number of the next ping.
    pub closed spec fn next(&self) -> u64 {
        self.next_sequence
    }

    /// The pings that await their pong, with the times at which they were sent.
    pub closed spec fn pending(&self) -> Map<u64, FloatValue> {
        ping_map(self.pending@)
    }

    /// A connection without pings.
    pub fn new() -> (r: Self)
        ensures
            r.next() == 0,
            r.pending() == Map::<u64, FloatValue>::empty(),
    {
        LocalClock { next_sequence: 0, pending: Vec::new() }
    }

    /// The number of pings that await their pong.
    pub fn pending_count(&self) -> (r: usize)
        ensures
            r == self.pending().dom().len(),
            r <= MAX_PENDING_PINGS,
    {
        proof {
            use_type_invariant(self);
            lemma_ping_map(self.pending@);
        }
        self.pending.len()
    }

    /// Whether a ping awaits its pong.
    pub fn is_pending(&self, sequence: u64) -> (r: bool)
        ensures
            r == self.pending().dom().contains(sequence),
    {
        proof {
            use_type_invariant(self);
            lemma_ping_map(self.pending@);
        }
        find_ping(&self.pending, sequence).is_some()
    }

    /// Records when a ping was sent. So that they do not grow without limit when
    /// pongs stop arriving, the oldest pending ping is given up at capacity.
    pub fn record_ping(&mut self, sequence: u64, now: FloatValue)
        ensures
            ping_recorded(old(self).pending(), sequence, now, final(self).pending()),
            final(self).next() == old(self).next(),
    {
        proof {
            use_type_invariant(&*self);
            lemma_ping_map(self.pending@);
        }
        let ghost start = self.pending();
        let mut pings: Vec<Ping> = Vec::new();
        std::mem::swap(&mut pings, &mut self.pending);
        let ghost first = pings@;
        if pings.len() >= MAX_PENDING_PINGS {
            let oldest = oldest_ping(&pings);
            proof {
                lemma_ping_removed(first, oldest as int);
                assert(is_oldest(start, first[oldest as int].sequence)) by {
                    assert forall|j: u64| #[trigger] start.dom().contains(j) implies first[oldest as int].sequence
                        <= j by {
                        let i = choose|i: int| 0 <= i < first.len() && (#[trigger] first[i]).sequence == j;
                    }
                }
            }
            pings.remove(oldest);
        }
        let ghost room = pings@;
        assert(with_room(start, ping_map(room)));
        proof {
            lemma_ping_map(room);
        }
        if let Some(i) = find_ping(&pings, sequence) {
            proof {
                lemma_ping_removed(room, i as int);
            }
            pings.remove(i);
        }
        let ghost free = pings@;
        let ghost ping = Ping { sequence, sent: now };
        pings.push(Ping { sequence, sent: now });
        proof {
            assert(pings@.drop_last() =~= free);
            assert(ping_map(pings@) =~= ping_map(room).insert(sequence, now));
            assert(distinct_pings(pings@)) by {
                lemma_ping_map(free);
                let t = pings@;
                assert forall|a: int, b: int| 0 <= a < b < t.len() implies (#[trigger] t[a]).sequence
                    != (#[trigger] t[b]).sequence by {
                    assert(t[a] == free[a]);
                    if b < free.len() {
                        assert(t[b] == free[b]);
                    } else {
                        assert(ping_map(free).dom().contains(free[a].sequence));
                        assert(!ping_map(free).dom().contains(sequence));
                    }
                }
            }
        }
        self.pending = pings;
    }

    /// The sequence number of a new ping, recorded as sent now.
    pub fn next_sequence(&mut self, now: FloatValue) -> (r: u64)
        requires
            old(self).next() < u64::MAX,
        ensures
            r == old(self).next(),
            final(self).next() == r + 1,
            ping_recorded(old(self).pending(), r, now, final(self).pending()),
    {
        proof {
            use_type_invariant(&*self);
        }
        let sequence: u64 = self.next_sequence;
        self.next_sequence = sequence + 1;
        self.record_ping(sequence, now);
        sequence
    }

    /// Takes out the ping that a pong answers, and gives back when it was sent.
    /// None for a pong without a pending ping.
    pub fn process_pong(&mut self, sequence: u64) -> (r: Option<FloatValue>)
        ensures
            r == (if old(self).pending().dom().contains(sequence) {
                Some(old(self).pending()[sequence])
            } else {
                None
            }),
            final(self).pending() == old(self).pending().remove(sequence),
            final(self).next() == old(self).next(),
    {
        proof {
            use_type_invariant(&*self);
            lemma_ping_map(self.pending@);
        }
        let ghost start = self.pending();
        let mut pings: Vec<Ping> = Vec::new();
        std::mem::swap(&mut pings, &mut self.pending);
        match find_ping(&pings, sequence) {
            Some(i) => {
                proof {
                    lemma_ping_removed(pings@, i as int);
                }
                let ping = pings.remove(i);
                self.pending = pings;
                Some(ping.sent)
            },
            None => {
                self.pending = pings;
                assert(start.remove(sequence) =~= start);
                None
            },
        }
    }
}

fn find_ping(pings: &Vec<Ping>, sequence: u64) -> (r: Option<usize>)
    requires
        distinct_pings(pings@),
    ensures
        match r {
            Some(i) => i < pings@.len() && pings@[i as int].sequence == sequence && ping_map(
                pings@,
            ).dom().contains(sequence) && ping_map(pings@)[sequence] == pings@[i as int].sent,
            None => !ping_map(pings@).dom().contains(sequence),
        },
{
    proof {
        lemma_ping_map(pings@);
    }
    let mut i: usize = 0;
    while i < pings.len()
        invariant
            i <= pings@.len(),
            forall|j: int| 0 <= j < i ==> (#[trigger] pings@[j]).sequence != sequence,
            forall|j: int|
                0 <= j < pings@.len() ==> ping_map(pings@).dom().contains(
                    (#[trigger] pings@[j]).sequence,
                ) && ping_map(pings@)[pings@[j].sequence] == pings@[j].sent,
        decreases pings@.len() - i,
    {
        if pings[i].sequence == sequence {
            return Some(i);
        }
        i = i + 1;
    }
    None
}

fn oldest_ping(pings: &Vec<Ping>) -> (r: usize)
    requires
        pings@.len() > 0,
    ensures
        r < pings@.len(),
        forall|j: int|
            0 <= j < pings@.len() ==> pings@[r as int].sequence <= (#[trigger] pings@[j]).sequence,
{
    let mut best: usize = 0;
    let mut i: usize = 1;
    while i < pings.len()
        invariant
            1 <= i <= pings@.len(),
            best < i,
            forall|j: int|
                0 <= j < i ==> pings@[best as int].sequence <= (#[trigger] pings@[j]).sequence,
        decreases pings@.len() - i,
    {
        if pings[i].sequence < pings[best].sequence {
            best = i;
        }
        i = i + 1;
    }
    best
}

/// How long to wait between two clock pings, in milliseconds: short until the
/// clock is in sync.
pub fn sync_interval_ms(synced: bool) -> (r: u64)
    ensures
        r == (if synced {
            5000u64
        } else {
            200u64
        }),
{
    if synced {
        5000
    } else {
        200
    }
}

// ---------------------------------------------------------------------------
// Handshake
// ---------------------------------------------------------------------------

/// Why the first message of the hub is refused.
#[derive(Debug)]
pub enum WelcomeError {
    /// It has another type, which is given.
    NotWelcome(String),
    /// The payload is no map.
    NotMap,
    /// There is no voice id.
    MissingVoiceId,
}

/// Reads the voice id from the first message of the hub.
pub fn read_welcome(msg: &WireMessage) -> (r: Result<VoiceId, WelcomeError>)
    ensures
        match r {
            Ok(id) => msg@.msg_type == protocol::MSG_WELCOME@ && (protocol::integer_field(
                protocol::payload_fields(msg@),
                "voice_id"@,
            ) matches Some(n) && id == n as u64),
            Err(WelcomeError::NotWelcome(t)) => msg@.msg_type != protocol::MSG_WELCOME@ && t@
                == msg@.msg_type,
            Err(WelcomeError::NotMap) => msg@.msg_type == protocol::MSG_WELCOME@ && !(
            msg@.payload is Dict),
            Err(WelcomeError::MissingVoiceId) => msg@.msg_type == protocol::MSG_WELCOME@
                && msg@.payload is Dict && protocol::integer_field(
                protocol::payload_fields(msg@),
                "voice_id"@,
            ) is None,
        },
{
    if !protocol::is_type(msg, protocol::MSG_WELCOME) {
        return Err(WelcomeError::NotWelcome(msg.msg_type.clone()));
    }
    match &msg.payload {
        Value::Dict(m) => match protocol::get_integer(m, "voice_id") {
            Some(n) => Ok(n as u64),
            None => Err(WelcomeError::MissingVoiceId),
        },
        _ => Err(WelcomeError::NotMap),
    }
}

/// Whether a message may be sent as an action.
pub fn is_action(msg: &WireMessage) -> (r: bool)
    ensures
        r == (msg@.msg_type == protocol::MSG_ACTION@),
{
    protocol::is_type(msg, protocol::MSG_ACTION)
}

/// The ports to try, in order: the one of the port file, where there is a file and
/// somebody listens there, then the default one.
pub fn connect_candidates(port_file: Option<u16>, is_bound: bool) -> (r: Vec<u16>)
    ensures
        r@ == (match port_file {
            Some(port) => if is_bound {
                seq![port, DEFAULT_HUB_PORT]
            } else {
                seq![DEFAULT_HUB_PORT]
            },
            None => seq![DEFAULT_HUB_PORT],
        }),
{
    let mut out: Vec<u16> = Vec::new();
    if let Some(port) = port_file {
        if is_bound {
            out.push(port);
        }
    }
    out.push(DEFAULT_HUB_PORT);
    assert(out@ =~= (match port_file {
        Some(port) => if is_bound {
            seq![port, DEFAULT_HUB_PORT]
        } else {
            seq![DEFAULT_HUB_PORT]
        },
        None => seq![DEFAULT_HUB_PORT],
    }));
    out
}

// ---------------------------------------------------------------------------
// Messages of the hub
// ---------------------------------------------------------------------------

/// What a message of the hub means to a client.
#[derive(Debug)]
pub enum ClientEvent {
    /// The answer to a clock ping.
    Pong { sequence: u64, hub_time: FloatValue },
    /// An action or an unset, for the application.
    Deliver(WireMessage),
    /// An error, for the application.
    Failure(HubError),
    /// Nothing.
    Ignored,
}

/// The text, or the empty one where there is none.
pub open spec fn or_empty(s: Option<Seq<char>>) -> Seq<char> {
    match s {
        Some(t) => t,
        None => Seq::empty(),
    }
}

/// What a message of the hub means to a client, mathematically.
pub enum EventModel {
    Pong { sequence: u64, hub_time: FloatValue },
    Deliver(MessageModel),
    Failure { code: Seq<char>, message: Seq<char> },
    Ignored,
}

impl View for ClientEvent {
    type V = EventModel;

    open spec fn view(&self) -> EventModel {
        match *self {
            ClientEvent::Pong { sequence, hub_time } => EventModel::Pong { sequence, hub_time },
            ClientEvent::Deliver(m) => EventModel::Deliver(m@),
            ClientEvent::Failure(e) => EventModel::Failure { code: e.code@, message: e.message@ },
            ClientEvent::Ignored => EventModel::Ignored,
        }
    }
}

/// What a message of the hub means to a client.
pub open spec fn event_of(m: MessageModel) -> EventModel {
    let f = protocol::payload_fields(m);
    if m.msg_type == protocol::MSG_CLOCK_PONG@ && m.payload is Dict {
        EventModel::Pong {
            sequence: match protocol::integer_field(f, "sequence"@) {
                Some(n) => n as u64,
                None => 0,
            },
            hub_time: match protocol::float_field(f, "hub_time"@) {
                Some(t) => t,
                None => FloatValue { bits: 0 },
            },
        }
    } else if m.msg_type == protocol::MSG_ACTION@ || m.msg_type == protocol::MSG_UNSET_PARAM@ {
        EventModel::Deliver(m)
    } else if m.msg_type == protocol::MSG_ERROR@ && m.payload is Dict {
        EventModel::Failure {
            code: or_empty(protocol::string_field(f, "code"@)),
            message: or_empty(protocol::string_field(f, "message"@)),
        }
    } else {
        EventModel::Ignored
    }
}

/// Sorts a message of the hub.
pub fn dispatch(msg: WireMessage) -> (r: ClientEvent)
    ensures
        r@ == event_of(msg@),
        ({
            let f = protocol::payload_fields(msg@);
            if msg@.msg_type == protocol::MSG_CLOCK_PONG@ && msg@.payload is Dict {
                r == (ClientEvent::Pong {
                    sequence: (match protocol::integer_field(f, "sequence"@) {
                        Some(n) => n as u64,
                        None => 0,
                    }),
                    hub_time: (match protocol::float_field(f, "hub_time"@) {
                        Some(t) => t,
                        None => FloatValue { bits: 0 },
                    }),
                })
            } else if msg@.msg_type == protocol::MSG_ACTION@ || msg@.msg_type
                == protocol::MSG_UNSET_PARAM@ {
                r == ClientEvent::Deliver(msg)
            } else if msg@.msg_type == protocol::MSG_ERROR@ && msg@.payload is Dict {
                r matches ClientEvent::Failure(e) && e.code@ == or_empty(
                    protocol::string_field(f, "code"@),
                ) && e.message@ == or_empty(protocol::string_field(f, "message"@))
            } else {
                r is Ignored
            }
        }),
{
    proof {
        lemma_hub_message_types();
    }
    if protocol::is_type(&msg, protocol::MSG_CLOCK_PONG) {
        match &msg.payload {
            Value::Dict(m) => {
                let sequence: u64 = match protocol::get_integer(m, "sequence") {
                    Some(n) => n as u64,
                    None => 0,
                };
                let hub_time = match protocol::get_float(m, "hub_time") {
                    Some(t) => t,
                    None => FloatValue::zero(),
                };
                ClientEvent::Pong { sequence, hub_time }
            },
            _ => ClientEvent::Ignored,
        }
    } else if protocol::is_type(&msg, protocol::MSG_ACTION) || protocol::is_type(
        &msg,
        protocol::MSG_UNSET_PARAM,
    ) {
        ClientEvent::Deliver(msg)
    } else if protocol::is_type(&msg, protocol::MSG_ERROR) {
        match &msg.payload {
            Value::Dict(m) => {
                let code = match protocol::get_string(m, "code") {
                    Some(s) => s,
                    None => String::new(),
                };
                let message = match protocol::get_string(m, "message") {
                    Some(s) => s,
                    None => String::new(),
                };
                ClientEvent::Failure(HubError { code, message })
            },
            _ => ClientEvent::Ignored,
        }
    } else {
        ClientEvent::Ignored
    }
}

proof fn lemma_hub_message_types()
    ensures
        protocol::MSG_CLOCK_PONG@ != protocol::MSG_ACTION@,
        protocol::MSG_CLOCK_PONG@ != protocol::MSG_UNSET_PARAM@,
        protocol::MSG_CLOCK_PONG@ != protocol::MSG_ERROR@,
        protocol::MSG_ACTION@ != protocol::MSG_ERROR@,
        protocol::MSG_UNSET_PARAM@ != protocol::MSG_ERROR@,
{
    reveal_strlit("clock_pong");
    reveal_strlit("action");
    reveal_strlit("unset_param");
    reveal_strlit("error");
    assert("clock_pong"@.len() == 10 && "action"@.len() == 6 && "unset_param"@.len() == 11
        && "error"@.len() == 5);
}

// ---------------------------------------------------------------------------
// Laws
// ---------------------------------------------------------------------------

/// The pending pings stay bounded, the newest is among them, and only the oldest
/// is ever given up.
pub proof fn law_pending_pings_bounded(
    m: Map<u64, FloatValue>,
    sequence: u64,
    now: FloatValue,
    after: Map<u64, FloatValue>,
)
    requires
        m.dom().finite(),
        m.dom().len() <= MAX_PENDING_PINGS,
        ping_recorded(m, sequence, now, after),
    ensures
        after.dom().finite(),
        after.dom().len() <= MAX_PENDING_PINGS,
        after.dom().contains(sequence),
        after[sequence] == now,
        forall|k: u64|
            m.dom().contains(k) && !is_oldest(m, k) ==> #[trigger] after.dom().contains(k),
{
    let room = choose|room: Map<u64, FloatValue>| #[trigger]
        with_room(m, room) && after == room.insert(sequence, now);
    if m.dom().len() >= MAX_PENDING_PINGS {
        let k = choose|k: u64| #[trigger] is_oldest(m, k) && room == m.remove(k);
        assert(room.dom() =~= m.dom().remove(k));
    }
    assert(after.dom() =~= room.dom().insert(sequence));
}

/// A client reads back the id that the hub welcomes it with.
pub proof fn law_welcome_is_read(voice_id: VoiceId)
    ensures
        ({
            let m = protocol::welcome_message(voice_id);
            &&& m.msg_type == protocol::MSG_WELCOME@
            &&& protocol::integer_field(protocol::payload_fields(m), "voice_id"@) matches Some(n)
                && n as u64 == voice_id
        }),
{
    protocol::law_welcome_reads_back(voice_id);
}

/// A pong undoes its ping: with room for it, the pings that were pending before are pending
/// again, and the time at which it was sent is known.
pub proof fn law_pong_undoes_its_ping(
    m: Map<u64, FloatValue>,
    sequence: u64,
    now: FloatValue,
    after: Map<u64, FloatValue>,
)
    requires
        m.dom().len() < MAX_PENDING_PINGS,
        !m.dom().contains(sequence),
        ping_recorded(m, sequence, now, after),
    ensures
        after.dom().contains(sequence),
        after[sequence] == now,
        after.remove(sequence) == m,
{
    assert(after.remove(sequence) =~= m);
}

/// Where the pings are at their limit, a new one costs the one with the smallest number,
/// and no other.
pub proof fn law_oldest_ping_is_given_up(
    m: Map<u64, FloatValue>,
    sequence: u64,
    now: FloatValue,
    after: Map<u64, FloatValue>,
    oldest: u64,
)
    requires
        m.dom().finite(),
        m.dom().len() == MAX_PENDING_PINGS,
        ping_recorded(m, sequence, now, after),
        is_oldest(m, oldest),
        sequence != oldest,
    ensures
        !after.dom().contains(oldest),
        forall|k: u64|
            m.dom().contains(k) && k != oldest && k != sequence ==> #[trigger] after.dom().contains(k)
                && after[k] == m[k],
{
    let room = choose|room: Map<u64, FloatValue>| #[trigger]
        with_room(m, room) && after == room.insert(sequence, now);
    let k = choose|k: u64| #[trigger] is_oldest(m, k) && room == m.remove(k);
    assert(m.dom().contains(k) && m.dom().contains(oldest));
    assert(k == oldest);
}

/// A pong is read with the sequence number and the time that the hub put into it, an error
/// with its code and its text, and actions and unsets are delivered as they came.
pub proof fn law_hub_messages_are_read(
    sequence: u64,
    hub_time: FloatValue,
    code: Seq<char>,
    text: Seq<char>,
    m: MessageModel,
)
    ensures
        event_of(protocol::clock_pong_message(sequence, hub_time)) == (EventModel::Pong {
            sequence,
            hub_time,
        }),
        event_of(protocol::error_message(code, text)) == (EventModel::Failure {
            code,
            message: text,
        }),
        m.msg_type == protocol::MSG_ACTION@ || m.msg_type == protocol::MSG_UNSET_PARAM@ ==> event_of(
            m,
        ) == EventModel::Deliver(m),
        m.msg_type != protocol::MSG_ACTION@ && m.msg_type != protocol::MSG_UNSET_PARAM@
            && m.msg_type != protocol::MSG_ERROR@ && m.msg_type != protocol::MSG_CLOCK_PONG@
            ==> event_of(m) is Ignored,
{
    lemma_hub_message_types();
    protocol::law_clock_pong_reads_back(sequence, hub_time);
    protocol::law_error_reads_back(code, text);
}

/// How many pings may be pending, how many errors are kept, and where a hub is looked for.
pub proof fn law_client_limits()
    ensures
        MAX_PENDING_PINGS == 64,
        MAX_PENDING_ERRORS == 64,
        DEFAULT_HUB_PORT == 7331,
{
}

} // verus!
