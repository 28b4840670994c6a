//! MIDI key state with event counters, which make retriggering and cancelling
//! safe.
//!
//! Each pair of channel and note has an event counter. A new play or cancel
//! bumps it. A pending note-off fires only while its event id is the current
//! count; otherwise a newer event has superseded it.
use vstd::prelude::*;

verus! {

pub const NOTE_ON: u8 = 0x90;

pub const NOTE_OFF: u8 = 0x80;

/// A raw three-byte MIDI message.
#[derive(Debug, PartialEq, Eq)]
pub struct MidiBytes(pub [u8; 3]);

/// The event id that follows another; the counter wraps round.
pub open spec fn next_event(counter: u32) -> u32 {
    if counter == u32::MAX {
        0
    } else {
        (counter + 1) as u32
    }
}

/// State of a single pair of channel and note.
#[derive(Debug, Clone, Copy, PartialEq, Eq, Structural)]
pub struct KeyState {
    /// Event counter.
    pub event_counter: u32,
    /// Whether the key is sounding.
    pub key_on: bool,
}

/// Whether a note-on with the given event id fires.
pub open spec fn plays(key: KeyState, event_id: u32) -> bool {
    key.event_counter == event_id && !key.key_on
}

/// Whether a note-off with the given event id fires.
pub open spec fn stops(key: KeyState, event_id: u32) -> bool {
    key.event_counter == event_id && key.key_on
}

/// Whether the result is the given message, or nothing.
pub open spec fn sends(r: Option<MidiBytes>, fires: bool, a: u8, b: u8, c: u8) -> bool {
    match r {
        Some(m) => fires && m.0@ == seq![a, b, c],
        None => !fires,
    }
}

/// What can happen to a key.
pub enum KeyEvent {
    /// A play: it bumps the counter, and the key sounds.
    Play,
    /// A cancel: it bumps the counter.
    Cancel,
    /// A note-off that was due, with its event id.
    Stop(u32),
}

/// The state of a key after an event.
pub open spec fn after_event(key: KeyState, event: KeyEvent) -> KeyState {
    match event {
        KeyEvent::Play => KeyState {
            event_counter: next_event(key.event_counter),
            key_on: true,
        },
        KeyEvent::Cancel => KeyState { event_counter: next_event(key.event_counter), ..key },
        KeyEvent::Stop(event_id) => KeyState {
            key_on: key.key_on && !stops(key, event_id),
            ..key
        },
    }
}

/// The state of a key after several events.
pub open spec fn after_events(key: KeyState, events: Seq<KeyEvent>) -> KeyState
    decreases events.len(),
{
    if events.len() == 0 {
        key
    } else {
        after_event(after_events(key, events.drop_last()), events.last())
    }
}

/// How many of the events bump the counter.
pub open spec fn bumps_in(events: Seq<KeyEvent>) -> nat
    decreases events.len(),
{
    if events.len() == 0 {
        0
    } else {
        bumps_in(events.drop_last()) + if events.last() is Stop {
            0nat
        } else {
            1nat
        }
    }
}

impl KeyState {
    /// A silent key.
    pub fn new() -> (r: Self)
        ensures
            r == (KeyState { event_counter: 0, key_on: false }),
    {
        KeyState { event_counter: 0, key_on: false }
    }

    /// Bumps the counter and gives back the new event id.
    pub fn bump(&mut self) -> (r: u32)
        ensures
            r == next_event(old(self).event_counter),
            *final(self) == (KeyState { event_counter: r, ..*old(self) }),
    {
        self.event_counter = self.event_counter.wrapping_add(1);
        self.event_counter
    }

    /// The current event id.
    pub fn current(&self) -> (r: u32)
        ensures
            r == self.event_counter,
    {
        self.event_counter
    }

    /// Tries to play: succeeds if the event id is current and the key is off.
    pub fn play(&mut self, event_id: u32, channel: u8, note: u8, velocity: u8) -> (r: Option<
        MidiBytes,
    >)
        ensures
            sends(r, plays(*old(self), event_id), NOTE_ON | channel, note, velocity),
            *final(self) == (KeyState {
                key_on: old(self).key_on || plays(*old(self), event_id),
                ..*old(self)
            }),
    {
        if self.event_counter == event_id && !self.key_on {
            self.key_on = true;
            let bytes = [NOTE_ON | channel, note, velocity];
            assert(bytes@ =~= seq![NOTE_ON | channel, note, velocity]);
            Some(MidiBytes(bytes))
        } else {
            None
        }
    }

    /// Tries to stop: succeeds if the event id is current and the key is on.
    pub fn stop(&mut self, event_id: u32, channel: u8, note: u8) -> (r: Option<MidiBytes>)
        ensures
            sends(r, stops(*old(self), event_id), NOTE_OFF | channel, note, 0),
            *final(self) == after_event(*old(self), KeyEvent::Stop(event_id)),
    {
        if self.event_counter == event_id && self.key_on {
            self.key_on = false;
            let bytes = [NOTE_OFF | channel, note, 0u8];
            assert(bytes@ =~= seq![NOTE_OFF | channel, note, 0u8]);
            Some(MidiBytes(bytes))
        } else {
            None
        }
    }
}

/// The key states of all 16 MIDI channels and 128 notes.
#[derive(Debug)]
pub struct KeyStateStore {
    keys: Vec<KeyState>,
}

/// Whether a channel and a note are MIDI numbers.
pub open spec fn in_range(channel: u8, note: u8) -> bool {
    channel < 16 && note < 128
}

impl KeyStateStore {
    #[verifier::type_invariant]
    spec fn inv(&self) -> bool {
        self.keys@.len() == 2048
    }

    /// The state of a key.
    pub closed spec fn state(&self, channel: u8, note: u8) -> KeyState {
        self.keys@[channel * 128 + note]
    }

    /// Whether only the given key may differ between two stores.
    pub open spec fn same_elsewhere(&self, other: &Self, channel: u8, note: u8) -> bool {
        forall|c: u8, n: u8|
            in_range(c, n) && (c != channel || n != note) ==> #[trigger] self.state(c, n)
                == other.state(c, n)
    }

    /// What two steps leave alone both, they leave alone together.
    pub proof fn lemma_same_elsewhere(&self, middle: &Self, first: &Self, channel: u8, note: u8)
        requires
            self.same_elsewhere(middle, channel, note),
            middle.same_elsewhere(first, channel, note),
        ensures
            self.same_elsewhere(first, channel, note),
    {
        assert forall|c: u8, n: u8|
            in_range(c, n) && (c != channel || n != note) implies #[trigger] self.state(c, n)
            == first.state(c, n) by {
            assert(middle.state(c, n) == first.state(c, n));
        }
    }

    /// A store of silent keys.
    pub fn new() -> (r: Self)
        ensures
            forall|c: u8, n: u8|
                in_range(c, n) ==> #[trigger] r.state(c, n) == (KeyState {
                    event_counter: 0,
                    key_on: false,
                }),
    {
        let mut keys: Vec<KeyState> = Vec::new();
        let mut i: usize = 0;
        while i < 2048
            invariant
                i <= 2048,
                keys@.len() == i,
                forall|j: int|
                    0 <= j < i ==> #[trigger] keys@[j] == (KeyState {
                        event_counter: 0,
                        key_on: false,
                    }),
            decreases 2048 - i,
        {
            keys.push(KeyState::new());
            i = i + 1;
        }
        KeyStateStore { keys }
    }

    fn key(&self, channel: u8, note: u8) -> (r: KeyState)
        requires
            in_range(channel, note),
        ensures
            r == self.state(channel, note),
    {
        proof {
            use_type_invariant(self);
        }
        self.keys[(channel as usize) * 128 + (note as usize)]
    }

    fn set_key(&mut self, channel: u8, note: u8, key: KeyState)
        requires
            in_range(channel, note),
        ensures
            final(self).state(channel, note) == key,
            final(self).same_elsewhere(old(self), channel, note),
    {
        proof {
            use_type_invariant(&*self);
        }
        let i: usize = (channel as usize) * 128 + (note as usize);
        self.keys[i] = key;
    }

    /// Bumps the counter of a key and gives back the new event id. To be called
    /// for each new play or cancel.
    pub fn bump(&mut self, channel: u8, note: u8) -> (r: u32)
        requires
            in_range(channel, note),
        ensures
            r == next_event(old(self).state(channel, note).event_counter),
            final(self).state(channel, note) == (KeyState {
                event_counter: r,
                ..old(self).state(channel, note)
            }),
            final(self).same_elsewhere(old(self), channel, note),
    {
        let mut key = self.key(channel, note);
        let r = key.bump();
        self.set_key(channel, note, key);
        r
    }

    /// The current event id of a key.
    pub fn current(&mut self, channel: u8, note: u8) -> (r: u32)
        requires
            in_range(channel, note),
        ensures
            r == old(self).state(channel, note).event_counter,
            *final(self) == *old(self),
    {
        self.key(channel, note).current()
    }

    /// Tries a note-on.
    pub fn play(&mut self, event_id: u32, channel: u8, note: u8, velocity: u8) -> (r: Option<
        MidiBytes,
    >)
        requires
            in_range(channel, note),
        ensures
            sends(
                r,
                plays(old(self).state(channel, note), event_id),
                NOTE_ON | channel,
                note,
                velocity,
            ),
            final(self).state(channel, note) == (KeyState {
                key_on: old(self).state(channel, note).key_on || plays(
                    old(self).state(channel, note),
                    event_id,
                ),
                ..old(self).state(channel, note)
            }),
            final(self).same_elsewhere(old(self), channel, note),
    {
        let mut key = self.key(channel, note);
        let r = key.play(event_id, channel, note, velocity);
        self.set_key(channel, note, key);
        r
    }

    /// Tries a note-off.
    pub fn stop(&mut self, event_id: u32, channel: u8, note: u8) -> (r: Option<MidiBytes>)
        requires
            in_range(channel, note),
        ensures
            sends(
                r,
                stops(old(self).state(channel, note), event_id),
                NOTE_OFF | channel,
                note,
                0,
            ),
            final(self).state(channel, note) == after_event(
                old(self).state(channel, note),
                KeyEvent::Stop(event_id),
            ),
            final(self).same_elsewhere(old(self), channel, note),
    {
        let mut key = self.key(channel, note);
        let r = key.stop(event_id, channel, note);
        self.set_key(channel, note, key);
        r
    }
}

// ---------------------------------------------------------------------------
// Laws
// ---------------------------------------------------------------------------

/// The event id after a number of bumps.
pub open spec fn event_after(counter: u32, bumps: nat) -> u32
    decreases bumps,
{
    if bumps == 0 {
        counter
    } else {
        next_event(event_after(counter, (bumps - 1) as nat))
    }
}

proof fn lemma_event_after(counter: u32, bumps: nat)
    ensures
        event_after(counter, bumps) == (counter + bumps) % 0x1_0000_0000,
    decreases bumps,
{
    if bumps > 0 {
        lemma_event_after(counter, (bumps - 1) as nat);
    }
}

proof fn lemma_counter_after_events(key: KeyState, events: Seq<KeyEvent>)
    ensures
        after_events(key, events).event_counter == event_after(key.event_counter, bumps_in(events)),
    decreases events.len(),
{
    if events.len() > 0 {
        lemma_counter_after_events(key, events.drop_last());
    }
}

/// A play gets its note-off: its event id stops the note, whether it started the
/// note or found it sounding, as long as no later play or cancel of the key came.
/// What may come between are note-offs of earlier plays: they stop nothing.
pub proof fn law_play_gets_its_note_off(key: KeyState, between: Seq<KeyEvent>)
    requires
        forall|i: int|
            0 <= i < between.len() ==> (#[trigger] between[i] matches KeyEvent::Stop(event_id)
                && event_id != next_event(key.event_counter)),
    ensures
        stops(
            after_events(after_event(key, KeyEvent::Play), between),
            next_event(key.event_counter),
        ),
    decreases between.len(),
{
    if between.len() > 0 {
        assert forall|i: int| 0 <= i < between.drop_last().len() implies (
        #[trigger] between.drop_last()[i] matches KeyEvent::Stop(event_id) && event_id
            != next_event(key.event_counter)) by {
            assert(between.drop_last()[i] == between[i]);
        }
        law_play_gets_its_note_off(key, between.drop_last());
        assert(between.last() == between[between.len() - 1]);
    }
}

/// A retrigger or a cancel drops the pending note-off: once a later play or cancel
/// of the key came, its event id stops nothing, up to the full turn of the counter.
pub proof fn law_superseded_note_off_is_dropped(key: KeyState, between: Seq<KeyEvent>)
    requires
        0 < bumps_in(between) < 0x1_0000_0000,
    ensures
        !stops(after_events(key, between), key.event_counter),
{
    lemma_counter_after_events(key, between);
    lemma_event_after(key.event_counter, bumps_in(between));
}

/// A note that was played stops with the same event id, once.
pub proof fn law_play_then_stop(key: KeyState, event_id: u32)
    requires
        plays(key, event_id),
    ensures
        ({
            let sounding = KeyState { key_on: true, ..key };
            let silent = KeyState { key_on: false, ..key };
            &&& stops(sounding, event_id)
            &&& !stops(silent, event_id)
            &&& !plays(sounding, event_id)
        }),
{
}

/// The status byte of a channel keeps its kind and its channel.
pub proof fn law_status_bytes(channel: u8)
    requires
        channel < 16,
    ensures
        (NOTE_ON | channel) == 0x90 + channel,
        (NOTE_OFF | channel) == 0x80 + channel,
{
    assert(channel < 16 ==> (0x90u8 | channel) == 0x90 + channel) by (bit_vector);
    assert(channel < 16 ==> (0x80u8 | channel) == 0x80 + channel) by (bit_vector);
}

/// A play makes the key sound, and a cancel leaves it as it is; each gives the key an event
/// id that it did not have.
pub proof fn law_play_and_cancel_are_new_events(key: KeyState)
    ensures
        after_event(key, KeyEvent::Play).key_on,
        after_event(key, KeyEvent::Cancel).key_on == key.key_on,
        after_event(key, KeyEvent::Play).event_counter != key.event_counter,
        after_event(key, KeyEvent::Cancel).event_counter == after_event(
            key,
            KeyEvent::Play,
        ).event_counter,
{
}

/// A note-off silences a sounding key exactly if its event id is the current one, and
/// keeps the event id.
pub proof fn law_current_note_off_silences(key: KeyState, event_id: u32)
    ensures
        after_event(key, KeyEvent::Stop(event_id)).event_counter == key.event_counter,
        event_id == key.event_counter ==> !after_event(key, KeyEvent::Stop(event_id)).key_on,
        event_id != key.event_counter ==> after_event(key, KeyEvent::Stop(event_id)) == key,
        key.key_on ==> (stops(key, event_id) <==> event_id == key.event_counter),
        !key.key_on ==> !stops(key, event_id),
        !key.key_on ==> (plays(key, event_id) <==> event_id == key.event_counter),
        key.key_on ==> !plays(key, event_id),
{
}

} // verus!
