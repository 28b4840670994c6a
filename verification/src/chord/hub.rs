//! The Chord hub: which voices there are, and where messages go.
use vstd::prelude::*;

use crate::chord::pattern;
use crate::chord::protocol::{Message, VoiceCapabilities, VoiceId};
use crate::text;
use crate::values::FloatValue;

verus! {

/// How many events the log keeps.
pub const LOG_CAP: usize = 100;

/// A connected voice.
#[derive(Debug)]
pub struct ConnectedVoice {
    pub id: VoiceId,
    pub capabilities: VoiceCapabilities,
}

/// What a voice is, mathematically.
#[verifier::ext_equal]
pub struct VoiceModel {
    pub id: VoiceId,
    pub name: Seq<char>,
    pub subscriptions: Seq<Seq<char>>,
    pub is_bridge: bool,
}

impl View for ConnectedVoice {
    type V = VoiceModel;

    open spec fn view(&self) -> VoiceModel {
        VoiceModel {
            id: self.id,
            name: self.capabilities.name@,
            subscriptions: text::views(self.capabilities.subscriptions@),
            is_bridge: self.capabilities.is_bridge,
        }
    }
}

/// What each voice of a list stands for.
pub open spec fn voice_views(s: Seq<ConnectedVoice>) -> Seq<VoiceModel> {
    s.map_values(|v: ConnectedVoice| v@)
}

/// The state of the hub, mathematically.
#[verifier::ext_equal]
pub struct HubModel {
    /// The id of the next voice.
    pub next_voice_id: VoiceId,
    /// The connected voices, in the order in which they came.
    pub voices: Seq<VoiceModel>,
    /// The latest events, oldest first.
    pub log: Seq<Seq<char>>,
}

/// No two voices have the same id, and all ids were given out.
pub open spec fn ids_valid(m: HubModel) -> bool {
    &&& forall|i: int, j: int|
        0 <= i < j < m.voices.len() ==> (#[trigger] m.voices[i]).id != (#[trigger] m.voices[j]).id
    &&& forall|i: int| 0 <= i < m.voices.len() ==> (#[trigger] m.voices[i]).id < m.next_voice_id
    &&& m.log.len() <= LOG_CAP
}

/// The log with one more event. At capacity the oldest goes.
pub open spec fn logged(log: Seq<Seq<char>>, event: Seq<char>) -> Seq<Seq<char>> {
    if log.len() >= LOG_CAP {
        log.skip(1).push(event)
    } else {
        log.push(event)
    }
}

/// The voices without those of an id.
pub open spec fn without(voices: Seq<VoiceModel>, id: VoiceId) -> Seq<VoiceModel>
    decreases voices.len(),
{
    if voices.len() == 0 {
        Seq::empty()
    } else if voices.last().id == id {
        without(voices.drop_last(), id)
    } else {
        without(voices.drop_last(), id).push(voices.last())
    }
}

/// The ids of the voices, the sender excepted, that subscribe to an address.
pub open spec fn recipients(
    voices: Seq<VoiceModel>,
    sender: VoiceId,
    address: Seq<char>,
) -> Seq<VoiceId>
    decreases voices.len(),
{
    if voices.len() == 0 {
        Seq::empty()
    } else {
        let init = recipients(voices.drop_last(), sender, address);
        let v = voices.last();
        if v.id != sender && pattern::any_matches(v.subscriptions, address) {
            init.push(v.id)
        } else {
            init
        }
    }
}

/// The patterns that are not among `gone`.
pub open spec fn remaining(patterns: Seq<Seq<char>>, gone: Seq<Seq<char>>) -> Seq<Seq<char>>
    decreases patterns.len(),
{
    if patterns.len() == 0 {
        Seq::empty()
    } else {
        let init = remaining(patterns.drop_last(), gone);
        if gone.contains(patterns.last()) {
            init
        } else {
            init.push(patterns.last())
        }
    }
}

/// The voices with the subscriptions of one of them replaced.
pub open spec fn with_subscriptions(
    voices: Seq<VoiceModel>,
    id: VoiceId,
    f: spec_fn(Seq<Seq<char>>) -> Seq<Seq<char>>,
) -> Seq<VoiceModel> {
    voices.map_values(
        |v: VoiceModel|
            if v.id == id {
                VoiceModel { subscriptions: f(v.subscriptions), ..v }
            } else {
                v
            },
    )
}

/// `Voice`, the id, and the given text.
pub open spec fn voice_event(id: VoiceId, rest: Seq<char>) -> Seq<char> {
    "Voice "@ + text::decimal(id as nat) + rest
}

fn voice_text(id: VoiceId, rest: &str) -> (r: String)
    ensures
        r@ == voice_event(id, rest@),
{
    let digits = text::number_string(id as u64);
    "Voice ".to_owned().concat(digits.as_str()).concat(rest)
}

/// A message as it is delivered: an action carries the voice that sent it, whatever voice
/// it named.
pub open spec fn stamped(msg: Message, voice_id: VoiceId) -> Message {
    match msg {
        Message::ActionMessage { source: _, action } => Message::ActionMessage {
            source: voice_id,
            action,
        },
        _ => msg,
    }
}

/// The answer of the hub to a message of a voice, where it has one.
pub open spec fn answer_to(msg: Message, received: FloatValue, sending: FloatValue) -> Option<
    Message,
> {
    match msg {
        Message::ClockSyncRequest { voice_send_time } => Some(
            Message::ClockSyncReply {
                voice_send_time,
                hub_receive_time: received,
                hub_send_time: sending,
            },
        ),
        _ => None,
    }
}

/// What the hub does for a message of a voice.
#[derive(Debug)]
pub enum HubStep {
    /// Send this to the voice itself.
    Reply(Message),
    /// Send this to these voices.
    Deliver { to: Vec<VoiceId>, message: Message },
    /// Nothing.
    Nothing,
    /// The voice has gone.
    Ended,
    /// The message is one that voices do not send; it is given back.
    Unexpected(Message),
}

/// The state of the hub.
#[derive(Debug)]
pub struct HubState {
    next_voice_id: VoiceId,
    voices: Vec<ConnectedVoice>,
    event_log: Vec<String>,
}

impl View for HubState {
    type V = HubModel;

    closed spec fn view(&self) -> HubModel {
        HubModel {
            next_voice_id: self.next_voice_id,
            voices: voice_views(self.voices@),
            log: text::views(self.event_log@),
        }
    }
}

impl HubState {
    /// A hub without voices. The first id is one.
    pub fn new() -> (r: Self)
        ensures
            r@ == (HubModel { next_voice_id: 1, voices: Seq::empty(), log: Seq::empty() }),
            ids_valid(r@),
    {
        let r = HubState { next_voice_id: 1, voices: Vec::new(), event_log: Vec::new() };
        assert(r@ =~= (HubModel { next_voice_id: 1, voices: Seq::empty(), log: Seq::empty() }));
        r
    }

    /// Adds an event to the log, which keeps the latest.
    pub fn log(&mut self, msg: String)
        ensures
            final(self)@ == (HubModel { log: logged(old(self)@.log, msg@), ..old(self)@ }),
            ids_valid(old(self)@) ==> ids_valid(final(self)@),
    {
        let ghost start = self@;
        if self.event_log.len() >= LOG_CAP {
            self.event_log.remove(0);
            assert(self@.log =~= start.log.skip(1));
        }
        let ghost kept = self@.log;
        self.event_log.push(msg);
        assert(self@.log =~= kept.push(msg@));
        assert(self@ =~= (HubModel { log: logged(start.log, msg@), ..start }));
    }

    /// The number of connected voices.
    pub fn voice_count(&self) -> (r: usize)
        ensures
            r == self@.voices.len(),
    {
        self.voices.len()
    }

    /// The latest events, latest first, at most `n`.
    pub fn recent_events(&self, n: usize) -> (r: Vec<String>)
        ensures
            r@.len() == (if self@.log.len() < n {
                self@.log.len()
            } else {
                n as nat
            }),
            forall|i: int|
                0 <= i < r@.len() ==> (#[trigger] r@[i])@ == self@.log[self@.log.len() - 1 - i],
    {
        let mut out: Vec<String> = Vec::new();
        let total: usize = self.event_log.len();
        let count: usize = if total < n {
            total
        } else {
            n
        };
        let mut i: usize = 0;
        while i < count
            invariant
                i <= count <= total,
                total == self.event_log@.len(),
                out@.len() == i,
                forall|j: int|
                    0 <= j < i ==> (#[trigger] out@[j])@ == self@.log[total - 1 - j],
            decreases count - i,
        {
            out.push(self.event_log[total - 1 - i].clone());
            i = i + 1;
        }
        out
    }

    /// How a voice is listed: its id, its name and its subscriptions.
    pub fn voice_line(&self, i: usize) -> (r: String)
        requires
            i < self@.voices.len(),
        ensures
            r@ == "  #"@ + text::decimal(self@.voices[i as int].id as nat) + ": \""@
                + self@.voices[i as int].name + "\" ["@ + text::join_text(
                self@.voices[i as int].subscriptions,
                ", "@,
            ) + "]"@,
    {
        let v = &self.voices[i];
        let digits = text::number_string(v.id as u64);
        let subs = text::join_str(&v.capabilities.subscriptions, ", ");
        "  #".to_owned().concat(digits.as_str()).concat(": \"").concat(
            v.capabilities.name.as_str(),
        ).concat("\" [").concat(subs.as_str()).concat("]")
    }

    /// Registers a voice that has said hello, and gives back its id.
    pub fn register(&mut self, hello: VoiceCapabilities, peer: &str) -> (r: VoiceId)
        requires
            old(self)@.next_voice_id < u32::MAX,
        ensures
            r == old(self)@.next_voice_id,
            final(self)@ == (HubModel {
                next_voice_id: (r + 1) as u32,
                voices: old(self)@.voices.push(
                    (ConnectedVoice { id: r, capabilities: hello })@,
                ),
                log: logged(
                    old(self)@.log,
                    voice_event(
                        r,
                        " connected: \""@ + hello.name@ + "\" from "@ + peer@,
                    ),
                ),
            }),
            ids_valid(old(self)@) ==> ids_valid(final(self)@),
    {
        let ghost start = self@;
        let voice_id: VoiceId = self.next_voice_id;
        self.next_voice_id = voice_id + 1;
        let rest = " connected: \"".to_owned().concat(hello.name.as_str()).concat(
            "\" from ",
        ).concat(peer);
        let event = voice_text(voice_id, rest.as_str());
        let ghost voice = ConnectedVoice { id: voice_id, capabilities: hello };
        self.voices.push(ConnectedVoice { id: voice_id, capabilities: hello });
        assert(self@.voices =~= start.voices.push(voice@));
        self.log(event);
        voice_id
    }

    /// Takes a voice out.
    pub fn remove(&mut self, voice_id: VoiceId)
        ensures
            final(self)@ == (HubModel {
                voices: without(old(self)@.voices, voice_id),
                ..old(self)@
            }),
            ids_valid(old(self)@) ==> ids_valid(final(self)@),
    {
        let ghost start = self@;
        let mut kept: Vec<ConnectedVoice> = Vec::new();
        let mut all: Vec<ConnectedVoice> = Vec::new();
        std::mem::swap(&mut all, &mut self.voices);
        let ghost total = all@;
        let n: usize = all.len();
        let mut i: usize = 0;
        assert(voice_views(total).take(0) =~= Seq::empty());
        assert(voice_views(kept@) =~= Seq::<VoiceModel>::empty());
        assert(all@ =~= total.skip(0));
        while i < n
            invariant
                i <= n,
                n == total.len(),
                all@ == total.skip(i as int),
                voice_views(kept@) == without(voice_views(total).take(i as int), voice_id),
            decreases n - i,
        {
            assert(voice_views(total).take(i as int + 1).drop_last() =~= voice_views(total).take(
                i as int,
            ));
            let v = all.remove(0);
            assert(v == total[i as int]);
            assert(all@ =~= total.skip(i as int + 1));
            if v.id != voice_id {
                let ghost before = kept@;
                kept.push(v);
                assert(voice_views(kept@) =~= voice_views(before).push(v@));
            }
            i = i + 1;
        }
        assert(voice_views(total).take(n as int) =~= voice_views(total));
        self.voices = kept;
        proof {
            lemma_without(start.voices, voice_id);
        }
        assert(self@ =~= (HubModel { voices: without(start.voices, voice_id), ..start }));
    }

    fn recipients_of(&self, sender: VoiceId, address: &str) -> (r: Vec<VoiceId>)
        ensures
            r@ == recipients(self@.voices, sender, address@),
    {
        let mut out: Vec<VoiceId> = Vec::new();
        let mut i: usize = 0;
        let ghost all = self@.voices;
        assert(all.take(0) =~= Seq::empty());
        while i < self.voices.len()
            invariant
                i <= self.voices@.len(),
                all == self@.voices,
                out@ == recipients(all.take(i as int), sender, address@),
            decreases self.voices@.len() - i,
        {
            assert(all.take(i as int + 1).drop_last() =~= all.take(i as int));
            assert(all[i as int] == self.voices@[i as int]@);
            let v = &self.voices[i];
            if v.id != sender && pattern::matches_any(&v.capabilities.subscriptions, address) {
                out.push(v.id);
            }
            i = i + 1;
        }
        assert(all.take(all.len() as int) =~= all);
        out
    }

    fn find(&self, voice_id: VoiceId) -> (r: Option<usize>)
        ensures
            match r {
                Some(i) => i < self@.voices.len() && self@.voices[i as int].id == voice_id,
                None => forall|i: int|
                    0 <= i < self@.voices.len() ==> (#[trigger] self@.voices[i]).id != voice_id,
            },
    {
        let mut i: usize = 0;
        while i < self.voices.len()
            invariant
                i <= self.voices@.len(),
                forall|j: int| 0 <= j < i ==> (#[trigger] self@.voices[j]).id != voice_id,
            decreases self.voices@.len() - i,
        {
            assert(self@.voices[i as int] == self.voices@[i as int]@);
            if self.voices[i].id == voice_id {
                return Some(i);
            }
            i = i + 1;
        }
        None
    }

    fn subscribe(&mut self, voice_id: VoiceId, patterns: Vec<String>)
        requires
            ids_valid(old(self)@),
        ensures
            final(self)@ == (HubModel {
                voices: with_subscriptions(
                    old(self)@.voices,
                    voice_id,
                    |s: Seq<Seq<char>>| s + text::views(patterns@),
                ),
                ..old(self)@
            }),
    {
        let ghost start = self@;
        let ghost f = |s: Seq<Seq<char>>| s + text::views(patterns@);
        let ghost more = patterns@;
        match self.find(voice_id) {
            Some(i) => {
                let mut patterns = patterns;
                let ghost before = self.voices@;
                self.voices[i].capabilities.subscriptions.append(&mut patterns);
                assert(self@.voices[i as int] == self.voices@[i as int]@);
                assert(text::views(self.voices@[i as int].capabilities.subscriptions@) =~= text::views(
                    before[i as int].capabilities.subscriptions@,
                ) + text::views(more));
                assert(self@.voices =~= with_subscriptions(start.voices, voice_id, f));
            },
            None => {
                assert(self@.voices =~= with_subscriptions(start.voices, voice_id, f));
            },
        }
    }

    fn unsubscribe(&mut self, voice_id: VoiceId, patterns: &Vec<String>)
        requires
            ids_valid(old(self)@),
        ensures
            final(self)@ == (HubModel {
                voices: with_subscriptions(
                    old(self)@.voices,
                    voice_id,
                    |s: Seq<Seq<char>>| remaining(s, text::views(patterns@)),
                ),
                ..old(self)@
            }),
    {
        let ghost start = self@;
        let ghost f = |s: Seq<Seq<char>>| remaining(s, text::views(patterns@));
        match self.find(voice_id) {
            Some(i) => {
                let ghost before = self.voices@;
                let kept = remaining_patterns(
                    &self.voices[i].capabilities.subscriptions,
                    patterns,
                );
                self.voices[i].capabilities.subscriptions = kept;
                assert(self@.voices[i as int] == self.voices@[i as int]@);
                assert(self@.voices =~= with_subscriptions(start.voices, voice_id, f));
            },
            None => {
                assert(self@.voices =~= with_subscriptions(start.voices, voice_id, f));
            },
        }
    }

    /// Takes a message of a voice into account and says what to send. `received`
    /// and `sending` are the hub times at which it came and is answered.
    pub fn handle_message(
        &mut self,
        voice_id: VoiceId,
        msg: Message,
        received: FloatValue,
        sending: FloatValue,
    ) -> (r: HubStep)
        requires
            ids_valid(old(self)@),
        ensures
            ids_valid(final(self)@),
            r matches HubStep::Reply(reply) ==> answer_to(msg, received, sending) == Some(reply),
            answer_to(msg, received, sending) is Some ==> r is Reply,
            match msg {
                Message::ClockSyncRequest { voice_send_time } => {
                    &&& r == HubStep::Reply(
                        Message::ClockSyncReply {
                            voice_send_time,
                            hub_receive_time: received,
                            hub_send_time: sending,
                        },
                    )
                    &&& final(self)@ == old(self)@
                },
                Message::ActionMessage { source: _, action } => {
                    &&& r matches HubStep::Deliver { to, message }
                    &&& to@ == recipients(old(self)@.voices, voice_id, action.address@)
                    &&& message == (Message::ActionMessage { source: voice_id, action })
                    &&& message == stamped(msg, voice_id)
                    &&& final(self)@ == old(self)@
                },
                Message::Subscribe { patterns } => {
                    &&& r == HubStep::Nothing
                    &&& final(self)@ == (HubModel {
                        voices: with_subscriptions(
                            old(self)@.voices,
                            voice_id,
                            |s: Seq<Seq<char>>| s + text::views(patterns@),
                        ),
                        ..old(self)@
                    })
                },
                Message::Unsubscribe { patterns } => {
                    &&& r == HubStep::Nothing
                    &&& final(self)@ == (HubModel {
                        voices: with_subscriptions(
                            old(self)@.voices,
                            voice_id,
                            |s: Seq<Seq<char>>| remaining(s, text::views(patterns@)),
                        ),
                        ..old(self)@
                    })
                },
                Message::Goodbye => {
                    &&& r == HubStep::Ended
                    &&& final(self)@ == (HubModel {
                        voices: without(old(self)@.voices, voice_id),
                        log: logged(
                            old(self)@.log,
                            voice_event(voice_id, " disconnected (Goodbye)"@),
                        ),
                        ..old(self)@
                    })
                },
                _ => r == HubStep::Unexpected(msg) && final(self)@ == old(self)@,
            },
    {
        match msg {
            Message::ClockSyncRequest { voice_send_time } => HubStep::Reply(
                Message::ClockSyncReply {
                    voice_send_time,
                    hub_receive_time: received,
                    hub_send_time: sending,
                },
            ),
            Message::ActionMessage { source: _, action } => {
                let to = self.recipients_of(voice_id, action.address.as_str());
                HubStep::Deliver {
                    to,
                    message: Message::ActionMessage { source: voice_id, action },
                }
            },
            Message::Subscribe { patterns } => {
                self.subscribe(voice_id, patterns);
                HubStep::Nothing
            },
            Message::Unsubscribe { patterns } => {
                self.unsubscribe(voice_id, &patterns);
                HubStep::Nothing
            },
            Message::Goodbye => {
                self.log(voice_text(voice_id, " disconnected (Goodbye)"));
                self.remove(voice_id);
                HubStep::Ended
            },
            other => HubStep::Unexpected(other),
        }
    }

    /// Takes into account that reading from a voice failed, with the text of the error.
    pub fn read_failed(&mut self, voice_id: VoiceId, error: &str)
        ensures
            final(self)@ == (HubModel {
                voices: without(old(self)@.voices, voice_id),
                log: logged(old(self)@.log, voice_event(voice_id, ": read error: "@ + error@)),
                ..old(self)@
            }),
            ids_valid(old(self)@) ==> ids_valid(final(self)@),
    {
        let mut what = ": read error: ".to_owned();
        what.append(error);
        self.log(voice_text(voice_id, what.as_str()));
        self.remove(voice_id);
    }

    /// Takes into account that the welcome could not be sent to a voice, with the text
    /// of the error.
    pub fn welcome_failed(&mut self, voice_id: VoiceId, error: &str)
        ensures
            final(self)@ == (HubModel {
                voices: without(old(self)@.voices, voice_id),
                log: logged(
                    old(self)@.log,
                    voice_event(voice_id, ": failed to send Welcome: "@ + error@),
                ),
                ..old(self)@
            }),
            ids_valid(old(self)@) ==> ids_valid(final(self)@),
    {
        let mut what = ": failed to send Welcome: ".to_owned();
        what.append(error);
        self.log(voice_text(voice_id, what.as_str()));
        self.remove(voice_id);
    }

    /// Takes into account that the connection of a voice was closed.
    pub fn connection_closed(&mut self, voice_id: VoiceId)
        ensures
            final(self)@ == (HubModel {
                voices: without(old(self)@.voices, voice_id),
                log: logged(
                    old(self)@.log,
                    voice_event(voice_id, " disconnected (connection closed)"@),
                ),
                ..old(self)@
            }),
            ids_valid(old(self)@) ==> ids_valid(final(self)@),
    {
        self.log(voice_text(voice_id, " disconnected (connection closed)"));
        self.remove(voice_id);
    }
}

/// The capabilities that the first message of a voice states. Any message but a hello
/// is refused, and given back.
pub fn hello_of(msg: Message) -> (r: Result<VoiceCapabilities, Message>)
    ensures
        r == (match msg {
            Message::Hello(capabilities) => Ok::<VoiceCapabilities, Message>(capabilities),
            _ => Err::<VoiceCapabilities, Message>(msg),
        }),
{
    match msg {
        Message::Hello(capabilities) => Ok(capabilities),
        other => Err(other),
    }
}

fn remaining_patterns(patterns: &Vec<String>, gone: &Vec<String>) -> (r: Vec<String>)
    ensures
        text::views(r@) == remaining(text::views(patterns@), text::views(gone@)),
{
    let mut out: Vec<String> = Vec::new();
    let mut i: usize = 0;
    let ghost all = text::views(patterns@);
    assert(all.take(0) =~= Seq::empty());
    assert(text::views(out@) =~= Seq::<Seq<char>>::empty());
    while i < patterns.len()
        invariant
            i <= patterns@.len(),
            all == text::views(patterns@),
            text::views(out@) == remaining(all.take(i as int), text::views(gone@)),
        decreases patterns@.len() - i,
    {
        assert(all.take(i as int + 1).drop_last() =~= all.take(i as int));
        assert(all[i as int] == patterns@[i as int]@);
        if !text::list_contains(gone, patterns[i].as_str()) {
            let ghost before = out@;
            out.push(patterns[i].clone());
            assert(text::views(out@) =~= text::views(before).push(all[i as int]));
        }
        i = i + 1;
    }
    assert(all.take(all.len() as int) =~= all);
    out
}

// ---------------------------------------------------------------------------
// Laws
// ---------------------------------------------------------------------------

proof fn lemma_without(voices: Seq<VoiceModel>, id: VoiceId)
    ensures
        without(voices, id).len() <= voices.len(),
        forall|k: int|
            0 <= k < without(voices, id).len() ==> (#[trigger] without(voices, id)[k]).id != id
                && exists|i: int| 0 <= i < voices.len() && voices[i] == without(voices, id)[k],
        (forall|i: int, j: int|
            0 <= i < j < voices.len() ==> (#[trigger] voices[i]).id != (#[trigger] voices[j]).id)
            ==> (forall|i: int, j: int|
            0 <= i < j < without(voices, id).len() ==> (#[trigger] without(voices, id)[i]).id != (
            #[trigger] without(voices, id)[j]).id),
    decreases voices.len(),
{
    if voices.len() > 0 {
        let init = voices.drop_last();
        lemma_without(init, id);
        let w = without(init, id);
        let all = without(voices, id);
        assert forall|k: int| 0 <= k < all.len() implies (#[trigger] all[k]).id != id && exists|
            i: int,
        | 0 <= i < voices.len() && voices[i] == all[k] by {
            if k < w.len() {
                assert(all[k] == w[k]);
                let i = choose|i: int| 0 <= i < init.len() && init[i] == w[k];
                assert(voices[i] == all[k]);
            } else {
                assert(voices[voices.len() - 1] == all[k]);
            }
        }
        if forall|i: int, j: int|
            0 <= i < j < voices.len() ==> (#[trigger] voices[i]).id != (#[trigger] voices[j]).id {
            assert forall|i: int, j: int| 0 <= i < j < init.len() implies (#[trigger] init[i]).id
                != (#[trigger] init[j]).id by {
                assert(voices[i].id != voices[j].id);
            }
            assert forall|i: int, j: int| 0 <= i < j < all.len() implies (#[trigger] all[i]).id != (
            #[trigger] all[j]).id by {
                assert(all[i] == w[i]);
                if j < w.len() {
                    assert(all[j] == w[j]);
                } else {
                    let k = choose|k: int| 0 <= k < init.len() && init[k] == w[i];
                    assert(voices[k].id != voices[voices.len() - 1].id);
                }
            }
        }
    }
}

/// An action reaches exactly the voices, other than its sender, that subscribe to
/// its address.
pub proof fn law_recipients(
    voices: Seq<VoiceModel>,
    sender: VoiceId,
    address: Seq<char>,
    id: VoiceId,
)
    ensures
        recipients(voices, sender, address).contains(id) <==> id != sender && exists|i: int|
            0 <= i < voices.len() && (#[trigger] voices[i]).id == id && pattern::any_matches(
                voices[i].subscriptions,
                address,
            ),
    decreases voices.len(),
{
    if voices.len() > 0 {
        let init = voices.drop_last();
        let all = recipients(voices, sender, address);
        let before = recipients(init, sender, address);
        law_recipients(init, sender, address, id);
        let v = voices.last();
        if before.contains(id) {
            let k = choose|k: int| 0 <= k < before.len() && before[k] == id;
            assert(all[k] == id);
            let i = choose|i: int|
                0 <= i < init.len() && (#[trigger] init[i]).id == id && pattern::any_matches(
                    init[i].subscriptions,
                    address,
                );
            assert(voices[i].id == id);
        }
        if v.id != sender && pattern::any_matches(v.subscriptions, address) {
            assert(all[all.len() - 1] == v.id);
            assert(voices[voices.len() - 1].id == v.id);
        }
        if all.contains(id) && !before.contains(id) {
            let k = choose|k: int| 0 <= k < all.len() && all[k] == id;
            if k < before.len() {
                assert(before[k] == id);
            }
        }
        if id != sender && exists|i: int|
            0 <= i < voices.len() && (#[trigger] voices[i]).id == id && pattern::any_matches(
                voices[i].subscriptions,
                address,
            ) {
            let i = choose|i: int|
                0 <= i < voices.len() && (#[trigger] voices[i]).id == id && pattern::any_matches(
                    voices[i].subscriptions,
                    address,
                );
            if i < init.len() {
                assert(init[i].id == id);
            }
        }
    }
}

/// A voice never gets its own action back.
pub proof fn law_no_echo(voices: Seq<VoiceModel>, sender: VoiceId, address: Seq<char>)
    ensures
        !recipients(voices, sender, address).contains(sender),
{
    law_recipients(voices, sender, address, sender);
}

/// After a voice has gone, nothing is delivered to it.
pub proof fn law_gone_voice_gets_nothing(
    voices: Seq<VoiceModel>,
    gone: VoiceId,
    sender: VoiceId,
    address: Seq<char>,
)
    ensures
        !recipients(without(voices, gone), sender, address).contains(gone),
{
    law_recipients(without(voices, gone), sender, address, gone);
    lemma_without(voices, gone);
}

/// Unsubscribing takes out every occurrence of a pattern, and nothing else.
pub proof fn law_unsubscribe_removes_all(
    patterns: Seq<Seq<char>>,
    gone: Seq<Seq<char>>,
    p: Seq<char>,
)
    ensures
        remaining(patterns, gone).contains(p) <==> patterns.contains(p) && !gone.contains(p),
    decreases patterns.len(),
{
    if patterns.len() > 0 {
        let init = patterns.drop_last();
        let before = remaining(init, gone);
        let all = remaining(patterns, gone);
        law_unsubscribe_removes_all(init, gone, p);
        if before.contains(p) {
            let k = choose|k: int| 0 <= k < before.len() && before[k] == p;
            assert(all[k] == p);
        }
        if init.contains(p) {
            let k = choose|k: int| 0 <= k < init.len() && init[k] == p;
            assert(patterns[k] == p);
        }
        if patterns.contains(p) && !init.contains(p) {
            let k = choose|k: int| 0 <= k < patterns.len() && patterns[k] == p;
            if k < init.len() {
                assert(init[k] == p);
            }
        }
        if !gone.contains(patterns.last()) {
            assert(all[all.len() - 1] == patterns.last());
            assert(patterns[patterns.len() - 1] == patterns.last());
        }
        if all.contains(p) && !before.contains(p) {
            let k = choose|k: int| 0 <= k < all.len() && all[k] == p;
            if k < before.len() {
                assert(before[k] == p);
            }
        }
    } else {
        assert(!patterns.contains(p));
    }
}

/// Recipients come in the order in which the voices connected.
pub proof fn law_recipients_keep_the_order(
    a: Seq<VoiceModel>,
    b: Seq<VoiceModel>,
    sender: VoiceId,
    address: Seq<char>,
)
    ensures
        recipients(a + b, sender, address) == recipients(a, sender, address) + recipients(
            b,
            sender,
            address,
        ),
    decreases b.len(),
{
    if b.len() == 0 {
        assert(a + b =~= a);
        assert(recipients(a, sender, address) + recipients(b, sender, address) =~= recipients(
            a,
            sender,
            address,
        ));
    } else {
        assert((a + b).drop_last() =~= a + b.drop_last());
        assert((a + b).last() == b.last());
        law_recipients_keep_the_order(a, b.drop_last(), sender, address);
        assert(recipients(a + b, sender, address) =~= recipients(a, sender, address) + recipients(
            b,
            sender,
            address,
        ));
    }
}

/// A voice that has gone is taken out, all others stay in their order, and an action
/// reaches each of them as before.
pub proof fn law_others_stay(
    voices: Seq<VoiceModel>,
    gone: VoiceId,
    sender: VoiceId,
    address: Seq<char>,
    id: VoiceId,
)
    requires
        id != gone,
    ensures
        recipients(without(voices, gone), sender, address).contains(id) <==> recipients(
            voices,
            sender,
            address,
        ).contains(id),
        (forall|i: int| 0 <= i < voices.len() ==> (#[trigger] voices[i]).id != gone) ==> without(
            voices,
            gone,
        ) == voices,
    decreases voices.len(),
{
    law_recipients(without(voices, gone), sender, address, id);
    law_recipients(voices, sender, address, id);
    lemma_without(voices, gone);
    let kept = without(voices, gone);
    if recipients(voices, sender, address).contains(id) {
        let i = choose|i: int|
            0 <= i < voices.len() && (#[trigger] voices[i]).id == id && pattern::any_matches(
                voices[i].subscriptions,
                address,
            );
        let k = lemma_kept(voices, gone, i);
        assert(kept[k].id == id);
    }
    if recipients(kept, sender, address).contains(id) {
        let k = choose|k: int|
            0 <= k < kept.len() && (#[trigger] kept[k]).id == id && pattern::any_matches(
                kept[k].subscriptions,
                address,
            );
        let i = choose|i: int| 0 <= i < voices.len() && voices[i] == kept[k];
        assert(voices[i].id == id);
    }
    if forall|i: int| 0 <= i < voices.len() ==> (#[trigger] voices[i]).id != gone {
        lemma_none_gone(voices, gone);
    }
}

proof fn lemma_kept(voices: Seq<VoiceModel>, gone: VoiceId, i: int) -> (k: int)
    requires
        0 <= i < voices.len(),
        voices[i].id != gone,
    ensures
        0 <= k < without(voices, gone).len(),
        without(voices, gone)[k] == voices[i],
    decreases voices.len(),
{
    let init = voices.drop_last();
    if i == voices.len() - 1 {
        without(voices, gone).len() - 1
    } else {
        assert(init[i] == voices[i]);
        let k = lemma_kept(init, gone, i);
        assert(without(voices, gone)[k] == without(init, gone)[k]);
        k
    }
}

proof fn lemma_none_gone(voices: Seq<VoiceModel>, gone: VoiceId)
    requires
        forall|i: int| 0 <= i < voices.len() ==> (#[trigger] voices[i]).id != gone,
    ensures
        without(voices, gone) == voices,
    decreases voices.len(),
{
    if voices.len() > 0 {
        let init = voices.drop_last();
        assert forall|i: int| 0 <= i < init.len() implies (#[trigger] init[i]).id != gone by {
            assert(init[i] == voices[i]);
        }
        lemma_none_gone(init, gone);
        assert(voices[voices.len() - 1].id != gone);
        assert(voices =~= init.push(voices.last()));
    }
}

/// A voice that subscribes to further patterns gets what one of them accepts and all that
/// it got before; nothing changes for other voices.
pub proof fn law_subscriptions_add_up(
    voices: Seq<VoiceModel>,
    id: VoiceId,
    patterns: Seq<Seq<char>>,
    sender: VoiceId,
    address: Seq<char>,
    other: VoiceId,
)
    requires
        id != sender,
        exists|i: int| 0 <= i < voices.len() && (#[trigger] voices[i]).id == id,
    ensures
        ({
            let after = with_subscriptions(voices, id, |s: Seq<Seq<char>>| s + patterns);
            &&& recipients(after, sender, address).contains(id) <==> recipients(
                voices,
                sender,
                address,
            ).contains(id) || pattern::any_matches(patterns, address)
            &&& other != id ==> (recipients(after, sender, address).contains(other) <==> recipients(
                voices,
                sender,
                address,
            ).contains(other))
        }),
{
    let f = |s: Seq<Seq<char>>| s + patterns;
    let after = with_subscriptions(voices, id, f);
    law_recipients(after, sender, address, id);
    law_recipients(voices, sender, address, id);
    law_recipients(after, sender, address, other);
    law_recipients(voices, sender, address, other);
    assert forall|i: int| 0 <= i < voices.len() implies (#[trigger] after[i]).id == voices[i].id && (
    voices[i].id == id ==> (pattern::any_matches(after[i].subscriptions, address)
        <==> pattern::any_matches(voices[i].subscriptions, address) || pattern::any_matches(
        patterns,
        address,
    ))) && (voices[i].id != id ==> after[i] == voices[i]) by {
        let s = voices[i].subscriptions;
        if voices[i].id == id {
            lemma_any_of_both(s, patterns, address);
        }
    }
    assert forall|i: int| 0 <= i < voices.len() implies (#[trigger] voices[i]).id == after[i].id by {}
    if recipients(after, sender, address).contains(id) {
        let i = choose|i: int|
            0 <= i < after.len() && (#[trigger] after[i]).id == id && pattern::any_matches(
                after[i].subscriptions,
                address,
            );
        assert(voices[i].id == id);
    }
    if pattern::any_matches(patterns, address) {
        let i = choose|i: int| 0 <= i < voices.len() && (#[trigger] voices[i]).id == id;
        assert(after[i].id == id);
    }
    if recipients(voices, sender, address).contains(id) {
        let i = choose|i: int|
            0 <= i < voices.len() && (#[trigger] voices[i]).id == id && pattern::any_matches(
                voices[i].subscriptions,
                address,
            );
        assert(after[i].id == id);
    }
    if other != id {
        if recipients(after, sender, address).contains(other) {
            let i = choose|i: int|
                0 <= i < after.len() && (#[trigger] after[i]).id == other && pattern::any_matches(
                    after[i].subscriptions,
                    address,
                );
            assert(voices[i].id == other);
        }
        if recipients(voices, sender, address).contains(other) {
            let i = choose|i: int|
                0 <= i < voices.len() && (#[trigger] voices[i]).id == other && pattern::any_matches(
                    voices[i].subscriptions,
                    address,
                );
            assert(after[i].id == other);
        }
    }
}

proof fn lemma_any_of_both(a: Seq<Seq<char>>, b: Seq<Seq<char>>, address: Seq<char>)
    ensures
        pattern::any_matches(a + b, address) <==> pattern::any_matches(a, address)
            || pattern::any_matches(b, address),
{
    let all = a + b;
    if pattern::any_matches(all, address) {
        let i = choose|i: int|
            0 <= i < all.len() && pattern::pattern_matches(#[trigger] all[i], address);
        if i < a.len() {
            assert(a[i] == all[i]);
        } else {
            assert(b[i - a.len()] == all[i]);
        }
    }
    if pattern::any_matches(a, address) {
        let i = choose|i: int|
            0 <= i < a.len() && pattern::pattern_matches(#[trigger] a[i], address);
        assert(all[i] == a[i]);
    }
    if pattern::any_matches(b, address) {
        let i = choose|i: int|
            0 <= i < b.len() && pattern::pattern_matches(#[trigger] b[i], address);
        assert(all[a.len() + i] == b[i]);
    }
}

/// Unsubscribing keeps the other patterns in their order, each as often as before.
pub proof fn law_unsubscribe_keeps_the_order(
    a: Seq<Seq<char>>,
    b: Seq<Seq<char>>,
    gone: Seq<Seq<char>>,
)
    ensures
        remaining(a + b, gone) == remaining(a, gone) + remaining(b, gone),
        remaining(a, Seq::empty()) == a,
    decreases a.len() + b.len(),
{
    if b.len() == 0 {
        assert(a + b =~= a);
        assert(remaining(a, gone) + remaining(b, gone) =~= remaining(a, gone));
        if a.len() > 0 {
            law_unsubscribe_keeps_the_order(a.drop_last(), b, gone);
            assert(a =~= a.drop_last().push(a.last()));
        } else {
            assert(a =~= Seq::empty());
        }
    } else {
        assert((a + b).drop_last() =~= a + b.drop_last());
        assert((a + b).last() == b.last());
        law_unsubscribe_keeps_the_order(a, b.drop_last(), gone);
        assert(remaining(a + b, gone) =~= remaining(a, gone) + remaining(b, gone));
    }
}

/// The log ends with the latest event, keeps those before it in their order, and drops the
/// oldest alone where it is full.
pub proof fn law_log_keeps_the_latest(log: Seq<Seq<char>>, event: Seq<char>)
    requires
        log.len() <= LOG_CAP,
    ensures
        LOG_CAP == 100,
        logged(log, event).len() <= LOG_CAP,
        logged(log, event).last() == event,
        log.len() < LOG_CAP ==> logged(log, event).drop_last() == log,
        log.len() == LOG_CAP ==> logged(log, event).drop_last() == log.drop_first(),
{
    if log.len() < LOG_CAP {
        assert(logged(log, event).drop_last() =~= log);
    } else {
        assert(logged(log, event).drop_last() =~= log.drop_first());
    }
}

/// A delivered action names its true sender, and is otherwise the action that was sent.
pub proof fn law_delivered_action_names_its_sender(msg: Message, voice_id: VoiceId)
    requires
        msg is ActionMessage,
    ensures
        stamped(msg, voice_id)->ActionMessage_source == voice_id,
        stamped(msg, voice_id)->ActionMessage_action == msg->ActionMessage_action,
        stamped(msg, voice_id) is ActionMessage,
{
}

} // verus!
