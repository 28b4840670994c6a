//! Pitch pattern cycler: a voice that answers trigger events with MIDI notes.
use vstd::arithmetic::div_mod;
use vstd::prelude::*;

use crate::demo::euclidean;
use crate::demo::euclidean::SchedulerState;
use crate::keys::KeyCode;
use crate::midi::bridge as midi;
use crate::protocol;
use crate::protocol::SignalType;
use crate::protocol::VoiceId;
use crate::protocol::WireMessage;
use crate::text;
use crate::values;
use crate::values::FloatValue;
use crate::values::Value;
use crate::values::ValueModel;

verus! {

/// The bits of 0.2, the note duration at the start.
pub const DEFAULT_DURATION_BITS: u64 = 0x3FC9_9999_9999_999A;

/// What the interface and the event listener share.
#[derive(Debug)]
pub struct AppState {
    /// Our assigned voice ID (for display).
    pub voice_id: VoiceId,
    /// Pitch pattern (MIDI note numbers).
    pub pattern: Vec<i64>,
    /// Current index into the pattern.
    pub current_index: usize,
    /// Last pitch played (for display).
    pub last_pitch: Option<i64>,
    /// Trigger input address.
    pub trigger_address: String,
    /// MIDI output address.
    pub output_address: String,
    /// MIDI channel (0-15).
    pub channel: i64,
    /// MIDI velocity (0-127).
    pub velocity: i64,
    /// Note duration in seconds.
    pub duration: FloatValue,
    /// Whether the interface should quit.
    pub should_quit: bool,
}

/// The state with its addresses and its pattern as sequences.
#[verifier::ext_equal]
pub struct AppModel {
    pub voice_id: VoiceId,
    pub pattern: Seq<i64>,
    pub current_index: int,
    pub last_pitch: Option<i64>,
    pub trigger_address: Seq<char>,
    pub output_address: Seq<char>,
    pub channel: i64,
    pub velocity: i64,
    pub duration: FloatValue,
    pub should_quit: bool,
}

impl View for AppState {
    type V = AppModel;

    open spec fn view(&self) -> AppModel {
        AppModel {
            voice_id: self.voice_id,
            pattern: self.pattern@,
            current_index: self.current_index as int,
            last_pitch: self.last_pitch,
            trigger_address: self.trigger_address@,
            output_address: self.output_address@,
            channel: self.channel,
            velocity: self.velocity,
            duration: self.duration,
            should_quit: self.should_quit,
        }
    }
}

impl AppModel {
    /// Whether the index points to a pitch, where there is one.
    pub open spec fn index_fits(self) -> bool {
        self.pattern.len() > 0 ==> 0 <= self.current_index < self.pattern.len()
    }

    /// Whether the index points into the pattern, or is 0 where that is empty,
    /// no pitch is negative, and channel and velocity are in their ranges.
    pub open spec fn valid(self) -> bool {
        &&& 0 <= self.current_index
        &&& self.pattern.len() == 0 ==> self.current_index == 0
        &&& self.pattern.len() > 0 ==> self.current_index < self.pattern.len()
        &&& forall|i: int| 0 <= i < self.pattern.len() ==> #[trigger] self.pattern[i] >= 0
        &&& 0 <= self.channel <= 15
        &&& 0 <= self.velocity <= 127
    }
}

/// A MIDI note to be sent.
#[derive(Debug)]
pub struct Note {
    pub output_address: String,
    pub channel: i64,
    pub pitch: i64,
    pub velocity: i64,
    pub duration: FloatValue,
}

/// What a note is, mathematically.
#[verifier::ext_equal]
pub struct NoteModel {
    pub output_address: Seq<char>,
    pub channel: i64,
    pub pitch: i64,
    pub velocity: i64,
    pub duration: FloatValue,
}

impl View for Note {
    type V = NoteModel;

    open spec fn view(&self) -> NoteModel {
        NoteModel {
            output_address: self.output_address@,
            channel: self.channel,
            pitch: self.pitch,
            velocity: self.velocity,
            duration: self.duration,
        }
    }
}

/// The note that the next trigger calls for.
pub open spec fn next_note(s: AppModel) -> NoteModel {
    NoteModel {
        output_address: s.output_address,
        channel: s.channel,
        pitch: s.pattern[s.current_index],
        velocity: s.velocity,
        duration: s.duration,
    }
}

/// What a key press calls for besides the change of the state.
#[derive(Clone, Copy, Debug, PartialEq, Eq, Structural)]
pub enum KeyEffect {
    Nothing,
    /// The params are to be published.
    Publish,
    /// The duration goes up or down by 0.05, between 0.01 and 5.0; then the
    /// params are to be published.
    ChangeDuration { up: bool },
}

/// The pitches as values.
pub open spec fn pitch_values(pattern: Seq<i64>) -> Seq<ValueModel> {
    Seq::new(pattern.len(), |i: int| ValueModel::Integer(pattern[i]))
}

/// The params of the cycler as messages. They take effect at once: their
/// timestamp is zero.
pub open spec fn param_messages(s: AppModel) -> Seq<protocol::MessageModel> {
    let now = FloatValue { bits: 0 };
    seq![
        protocol::action_message(
            "/demo/pitch/pattern"@,
            SignalType::Param,
            now,
            ValueModel::List(pitch_values(s.pattern)),
        ),
        protocol::action_message(
            "/demo/pitch/trigger"@,
            SignalType::Param,
            now,
            ValueModel::String(s.trigger_address),
        ),
        protocol::action_message(
            "/demo/pitch/output"@,
            SignalType::Param,
            now,
            ValueModel::String(s.output_address),
        ),
        protocol::action_message(
            "/demo/pitch/channel"@,
            SignalType::Param,
            now,
            ValueModel::Integer(s.channel),
        ),
        protocol::action_message(
            "/demo/pitch/velocity"@,
            SignalType::Param,
            now,
            ValueModel::Integer(s.velocity),
        ),
        protocol::action_message(
            "/demo/pitch/duration"@,
            SignalType::Param,
            now,
            ValueModel::Float(s.duration),
        ),
    ]
}

/// The state after the next pitch was taken.
pub open spec fn advanced(s: AppModel) -> AppModel {
    if s.pattern.len() == 0 {
        s
    } else {
        AppModel {
            last_pitch: Some(s.pattern[s.current_index]),
            current_index: (s.current_index + 1) % (s.pattern.len() as int),
            ..s
        }
    }
}

/// A text field of a message, empty where it is missing.
pub open spec fn text_or_empty(m: protocol::MessageModel, key: Seq<char>) -> Seq<char> {
    match m.payload {
        ValueModel::Dict(f) => match protocol::string_field(f, key) {
            Some(s) => s,
            None => Seq::empty(),
        },
        _ => Seq::empty(),
    }
}

/// Whether a message is a trigger event at the trigger address.
pub open spec fn is_trigger(s: AppModel, m: protocol::MessageModel) -> bool {
    &&& m.payload is Dict
    &&& text_or_empty(m, "address"@) == s.trigger_address
    &&& text_or_empty(m, "signal_type"@) == "event"@
}

/// The names of the notes of an octave.
pub open spec fn note_letter(n: int) -> Seq<char> {
    if n == 0 {
        "C"@
    } else if n == 1 {
        "C#"@
    } else if n == 2 {
        "D"@
    } else if n == 3 {
        "D#"@
    } else if n == 4 {
        "E"@
    } else if n == 5 {
        "F"@
    } else if n == 6 {
        "F#"@
    } else if n == 7 {
        "G"@
    } else if n == 8 {
        "G#"@
    } else if n == 9 {
        "A"@
    } else if n == 10 {
        "A#"@
    } else {
        "B"@
    }
}

/// The name of a MIDI note: its letter and its octave, where note 60 is C4.
pub open spec fn note_name(note: int) -> Seq<char> {
    note_letter(note % 12) + text::signed_decimal(note / 12 - 1)
}

/// MIDI note number to note name (for example 60 to "C4").
pub fn midi_note_name(note: i64) -> (r: String)
    requires
        note >= 0 || note as int % 12 == 0,
    ensures
        r@ == note_name(note as int),
{
    let octave: i64 = if note >= 0 {
        note / 12 - 1
    } else {
        -((-note) / 12) - 1
    };
    let n: i64 = if note >= 0 {
        note % 12
    } else {
        0
    };
    let letter = if n == 0 {
        "C"
    } else if n == 1 {
        "C#"
    } else if n == 2 {
        "D"
    } else if n == 3 {
        "D#"
    } else if n == 4 {
        "E"
    } else if n == 5 {
        "F"
    } else if n == 6 {
        "F#"
    } else if n == 7 {
        "G"
    } else if n == 8 {
        "G#"
    } else if n == 9 {
        "A"
    } else if n == 10 {
        "A#"
    } else {
        "B"
    };
    let mut out = letter.to_owned();
    let digits = text::signed_string(octave);
    out.append(digits.as_str());
    out
}

/// The index of the pitch before the current one, wrapping around.
pub open spec fn index_before(s: AppModel) -> int {
    if s.current_index > 0 {
        s.current_index - 1
    } else {
        s.pattern.len() - 1
    }
}

/// The state after a key press, and what the key calls for.
pub open spec fn after_key(s: AppModel, key: KeyCode) -> (AppModel, KeyEffect) {
    let empty = s.pattern.len() == 0;
    let pitch = s.pattern[s.current_index];
    match key {
        KeyCode::Left => if empty {
            (s, KeyEffect::Nothing)
        } else {
            let rest = s.pattern.remove(index_before(s));
            (
                AppModel {
                    pattern: rest,
                    current_index: if s.current_index >= rest.len() && rest.len() > 0 {
                        0
                    } else {
                        s.current_index
                    },
                    ..s
                },
                KeyEffect::Publish,
            )
        },
        KeyCode::Right => {
            let added = if empty {
                60i64
            } else {
                (pitch + 1) as i64
            };
            (
                AppModel { pattern: s.pattern.insert(s.current_index, added), ..s },
                KeyEffect::Publish,
            )
        },
        KeyCode::Up => if empty {
            (s, KeyEffect::Nothing)
        } else {
            let raised = if pitch + 1 > 127 {
                127i64
            } else {
                (pitch + 1) as i64
            };
            (
                AppModel { pattern: s.pattern.update(s.current_index, raised), ..s },
                KeyEffect::Publish,
            )
        },
        KeyCode::Down => if empty {
            (s, KeyEffect::Nothing)
        } else {
            let lowered = if pitch - 1 < 0 {
                0i64
            } else {
                (pitch - 1) as i64
            };
            (
                AppModel { pattern: s.pattern.update(s.current_index, lowered), ..s },
                KeyEffect::Publish,
            )
        },
        KeyCode::Char(c) => if c == 'q' || c == 'Q' {
            (AppModel { should_quit: true, ..s }, KeyEffect::Nothing)
        } else if c == 'C' {
            (
                AppModel {
                    channel: if s.channel + 1 > 15 {
                        15
                    } else {
                        (s.channel + 1) as i64
                    },
                    ..s
                },
                KeyEffect::Publish,
            )
        } else if c == 'c' {
            (
                AppModel {
                    channel: if s.channel - 1 < 0 {
                        0
                    } else {
                        (s.channel - 1) as i64
                    },
                    ..s
                },
                KeyEffect::Publish,
            )
        } else if c == 'V' {
            (
                AppModel {
                    velocity: if s.velocity + 10 > 127 {
                        127
                    } else {
                        (s.velocity + 10) as i64
                    },
                    ..s
                },
                KeyEffect::Publish,
            )
        } else if c == 'v' {
            (
                AppModel {
                    velocity: if s.velocity - 10 < 0 {
                        0
                    } else {
                        (s.velocity - 10) as i64
                    },
                    ..s
                },
                KeyEffect::Publish,
            )
        } else if c == 'D' {
            (s, KeyEffect::ChangeDuration { up: true })
        } else if c == 'd' {
            (s, KeyEffect::ChangeDuration { up: false })
        } else {
            (s, KeyEffect::Nothing)
        },
        _ => (s, KeyEffect::Nothing),
    }
}

/// Whether a key can be handled: the pitch that it needs is there, and one that is
/// raised without a limit can be.
pub open spec fn key_applies(s: AppModel, key: KeyCode) -> bool {
    match key {
        KeyCode::Left => s.pattern.len() > 0 ==> 0 <= s.current_index <= s.pattern.len(),
        KeyCode::Right => if s.pattern.len() == 0 {
            s.current_index == 0
        } else {
            s.index_fits() && s.pattern[s.current_index] < i64::MAX
        },
        KeyCode::Up | KeyCode::Down => s.index_fits(),
        _ => true,
    }
}

/// A number raised by a step, at most to a limit.
fn raised(n: i64, step: i64, limit: i64) -> (r: i64)
    requires
        0 <= step <= limit,
    ensures
        r == (if n + step > limit {
            limit as int
        } else {
            n + step
        }),
{
    if n > limit - step {
        limit
    } else {
        n + step
    }
}

/// A number lowered by a step, at most to zero.
fn lowered(n: i64, step: i64) -> (r: i64)
    requires
        0 <= step,
    ensures
        r == (if n - step < 0 {
            0
        } else {
            n - step
        }),
{
    if n < step {
        0
    } else {
        n - step
    }
}

impl AppState {
    /// A new state with default values.
    pub fn new(voice_id: VoiceId) -> (r: Self)
        ensures
            r@.valid(),
            r@ == (AppModel {
                voice_id,
                pattern: seq![60i64, 64i64, 67i64, 72i64],
                current_index: 0,
                last_pitch: None,
                trigger_address: "/demo/euclid/trigger"@,
                output_address: "/midi/play"@,
                channel: 0,
                velocity: 100,
                duration: FloatValue { bits: DEFAULT_DURATION_BITS },
                should_quit: false,
            }),
    {
        let mut pattern: Vec<i64> = Vec::new();
        pattern.push(60);
        pattern.push(64);
        pattern.push(67);
        pattern.push(72);
        AppState {
            voice_id,
            pattern,
            current_index: 0,
            last_pitch: None,
            trigger_address: "/demo/euclid/trigger".to_owned(),
            output_address: "/midi/play".to_owned(),
            channel: 0,
            velocity: 100,
            duration: FloatValue::new(DEFAULT_DURATION_BITS),
            should_quit: false,
        }
    }

    /// The messages that publish all current params. They have timestamp 0.0:
    /// they are interactive edits and must never be scheduled into the future.
    pub fn publish_params(&self) -> (r: Vec<WireMessage>)
        ensures
            r@.map_values(|m: WireMessage| m@) == param_messages(self@),
    {
        let now = FloatValue::zero();
        let mut pitches: Vec<Value> = Vec::new();
        let mut i: usize = 0;
        while i < self.pattern.len()
            invariant
                i <= self.pattern@.len(),
                pitches@.len() == i,
                forall|j: int|
                    0 <= j < i ==> values::model(#[trigger] pitches@[j]) == ValueModel::Integer(
                        self.pattern@[j],
                    ),
            decreases self.pattern@.len() - i,
        {
            pitches.push(Value::Integer(self.pattern[i]));
            i = i + 1;
        }
        assert(values::models(pitches@) =~= pitch_values(self.pattern@));
        let mut out: Vec<WireMessage> = Vec::new();
        out.push(
            protocol::action(
                "/demo/pitch/pattern",
                SignalType::Param,
                now,
                Value::List(pitches),
            ),
        );
        out.push(
            protocol::action(
                "/demo/pitch/trigger",
                SignalType::Param,
                now,
                Value::String(self.trigger_address.as_str().to_owned()),
            ),
        );
        out.push(
            protocol::action(
                "/demo/pitch/output",
                SignalType::Param,
                now,
                Value::String(self.output_address.as_str().to_owned()),
            ),
        );
        out.push(
            protocol::action(
                "/demo/pitch/channel",
                SignalType::Param,
                now,
                Value::Integer(self.channel),
            ),
        );
        out.push(
            protocol::action(
                "/demo/pitch/velocity",
                SignalType::Param,
                now,
                Value::Integer(self.velocity),
            ),
        );
        out.push(
            protocol::action(
                "/demo/pitch/duration",
                SignalType::Param,
                now,
                Value::Float(self.duration),
            ),
        );
        assert(out@.map_values(|m: WireMessage| m@) =~= param_messages(self@));
        out
    }

    /// Advances to the next pitch of the pattern and returns the current one.
    /// `None` when the pattern is empty.
    pub fn advance_pattern(&mut self) -> (r: Option<i64>)
        requires
            old(self)@.index_fits(),
        ensures
            final(self)@ == advanced(old(self)@),
            final(self)@.index_fits(),
            old(self)@.valid() ==> final(self)@.valid(),
            r == (if old(self)@.pattern.len() == 0 {
                None::<i64>
            } else {
                Some(old(self)@.pattern[old(self)@.current_index])
            }),
    {
        if self.pattern.len() == 0 {
            return None;
        }
        let pitch: i64 = self.pattern[self.current_index];
        self.last_pitch = Some(pitch);
        let n: usize = self.pattern.len();
        if self.current_index == n - 1 {
            self.current_index = 0;
        } else {
            self.current_index = self.current_index + 1;
        }
        proof {
            let at = old(self)@.current_index + 1;
            if at < n {
                div_mod::lemma_small_mod(at as nat, n as nat);
            } else {
                div_mod::lemma_mod_self_0(n as int);
            }
        }
        Some(pitch)
    }

    /// Answers a message: a trigger event at the trigger address advances the
    /// pattern and calls for a note.
    pub fn handle_message(&mut self, msg: &WireMessage) -> (r: Option<Note>)
        requires
            old(self)@.index_fits(),
        ensures
            final(self)@.index_fits(),
            old(self)@.valid() ==> final(self)@.valid(),
            is_trigger(old(self)@, msg@) ==> final(self)@ == advanced(old(self)@),
            !is_trigger(old(self)@, msg@) ==> *final(self) == *old(self),
            match r {
                Some(note) => {
                    let s = old(self)@;
                    &&& is_trigger(s, msg@) && s.pattern.len() > 0
                    &&& note@ == next_note(s)
                    &&& note.output_address@ == s.output_address
                    &&& note.channel == s.channel
                    &&& note.pitch == s.pattern[s.current_index]
                    &&& note.velocity == s.velocity
                    &&& note.duration == s.duration
                },
                None => !is_trigger(old(self)@, msg@) || old(self)@.pattern.len() == 0,
            },
    {
        let (address, signal_type) = match &msg.payload {
            Value::Dict(m) => {
                let address = match protocol::get_string(m, "address") {
                    Some(s) => s,
                    None => String::new(),
                };
                let signal_type = match protocol::get_string(m, "signal_type") {
                    Some(s) => s,
                    None => String::new(),
                };
                (address, signal_type)
            },
            _ => {
                return None;
            },
        };
        assert(address@ == text_or_empty(msg@, "address"@));
        assert(signal_type@ == text_or_empty(msg@, "signal_type"@));
        if text::same(address.as_str(), self.trigger_address.as_str()) && text::same(
            signal_type.as_str(),
            "event",
        ) {
            match self.advance_pattern() {
                Some(pitch) => Some(
                    Note {
                        output_address: self.output_address.as_str().to_owned(),
                        channel: self.channel,
                        pitch,
                        velocity: self.velocity,
                        duration: self.duration,
                    },
                ),
                None => None,
            }
        } else {
            None
        }
    }

    /// Handles a key press.
    pub fn handle_input(&mut self, key: KeyCode) -> (r: KeyEffect)
        requires
            key_applies(old(self)@, key),
        ensures
            (final(self)@, r) == after_key(old(self)@, key),
            old(self)@.valid() ==> final(self)@.valid(),
    {
        match key {
            KeyCode::Left => {
                if self.pattern.len() == 0 {
                    return KeyEffect::Nothing;
                }
                let at: usize = if self.current_index > 0 {
                    self.current_index - 1
                } else {
                    self.pattern.len() - 1
                };
                self.pattern.remove(at);
                if self.current_index >= self.pattern.len() && self.pattern.len() > 0 {
                    self.current_index = 0;
                }
                KeyEffect::Publish
            },
            KeyCode::Right => {
                let added: i64 = if self.pattern.len() == 0 {
                    60
                } else {
                    self.pattern[self.current_index] + 1
                };
                self.pattern.insert(self.current_index, added);
                KeyEffect::Publish
            },
            KeyCode::Up => {
                if self.pattern.len() == 0 {
                    return KeyEffect::Nothing;
                }
                let pitch: i64 = self.pattern[self.current_index];
                self.pattern.set(self.current_index, raised(pitch, 1, 127));
                KeyEffect::Publish
            },
            KeyCode::Down => {
                if self.pattern.len() == 0 {
                    return KeyEffect::Nothing;
                }
                let pitch: i64 = self.pattern[self.current_index];
                self.pattern.set(self.current_index, lowered(pitch, 1));
                KeyEffect::Publish
            },
            KeyCode::Char(c) => {
                if c == 'q' || c == 'Q' {
                    self.should_quit = true;
                    KeyEffect::Nothing
                } else if c == 'C' {
                    self.channel = raised(self.channel, 1, 15);
                    KeyEffect::Publish
                } else if c == 'c' {
                    self.channel = lowered(self.channel, 1);
                    KeyEffect::Publish
                } else if c == 'V' {
                    self.velocity = raised(self.velocity, 10, 127);
                    KeyEffect::Publish
                } else if c == 'v' {
                    self.velocity = lowered(self.velocity, 10);
                    KeyEffect::Publish
                } else if c == 'D' {
                    KeyEffect::ChangeDuration { up: true }
                } else if c == 'd' {
                    KeyEffect::ChangeDuration { up: false }
                } else {
                    KeyEffect::Nothing
                }
            },
            _ => KeyEffect::Nothing,
        }
    }
}

/// The message that plays a note.
pub open spec fn note_message(
    output_address: Seq<char>,
    channel: i64,
    pitch: i64,
    velocity: i64,
    duration: FloatValue,
    now: FloatValue,
) -> protocol::MessageModel {
    protocol::action_message(
        output_address,
        SignalType::Event,
        now,
        ValueModel::Tuple(
            seq![
                ValueModel::Integer(channel),
                ValueModel::Integer(pitch),
                ValueModel::Integer(velocity),
                ValueModel::Float(duration),
            ],
        ),
    )
}

impl Note {
    /// The event that plays the note: channel, pitch, velocity and duration as a
    /// tuple.
    pub fn message(&self, now: FloatValue) -> (r: WireMessage)
        ensures
            r@ == note_message(
                self.output_address@,
                self.channel,
                self.pitch,
                self.velocity,
                self.duration,
                now,
            ),
    {
        let mut items: Vec<Value> = Vec::new();
        items.push(Value::Integer(self.channel));
        items.push(Value::Integer(self.pitch));
        items.push(Value::Integer(self.velocity));
        items.push(Value::Float(self.duration));
        assert(values::models(items@) =~= seq![
            ValueModel::Integer(self.channel),
            ValueModel::Integer(self.pitch),
            ValueModel::Integer(self.velocity),
            ValueModel::Float(self.duration),
        ]);
        protocol::action(
            self.output_address.as_str(),
            SignalType::Event,
            now,
            Value::Tuple(items),
        )
    }
}

/// The state after `n` triggers.
pub open spec fn after_triggers(s: AppModel, n: nat) -> AppModel
    decreases n,
{
    if n == 0 {
        s
    } else {
        advanced(after_triggers(s, (n - 1) as nat))
    }
}

/// The pattern is cycled through: after `n` triggers the index stands `n` pitches
/// further, wrapping around, and the pattern is as it was.
pub proof fn law_triggers_cycle(s: AppModel, n: nat)
    requires
        s.index_fits(),
        s.pattern.len() > 0,
    ensures
        after_triggers(s, n).pattern == s.pattern,
        after_triggers(s, n).current_index == (s.current_index + n) % (s.pattern.len() as int),
        after_triggers(s, s.pattern.len()).current_index == s.current_index,
    decreases n,
{
    lemma_triggers(s, n);
    lemma_triggers(s, s.pattern.len());
    let m = s.pattern.len() as int;
    div_mod::lemma_mod_add_multiples_vanish(s.current_index, m);
    div_mod::lemma_small_mod(s.current_index as nat, m as nat);
}

proof fn lemma_triggers(s: AppModel, n: nat)
    requires
        s.index_fits(),
        s.pattern.len() > 0,
    ensures
        after_triggers(s, n).pattern == s.pattern,
        after_triggers(s, n).current_index == (s.current_index + n) % (s.pattern.len() as int),
    decreases n,
{
    let m = s.pattern.len() as int;
    if n == 0 {
        div_mod::lemma_small_mod(s.current_index as nat, m as nat);
    } else {
        lemma_triggers(s, (n - 1) as nat);
        div_mod::lemma_add_mod_noop(s.current_index + n - 1, 1, m);
        let before = after_triggers(s, (n - 1) as nat).current_index;
        div_mod::lemma_add_mod_noop(before, 1, m);
        div_mod::lemma_mod_twice(s.current_index + n - 1, m);
    }
}

/// Twelve notes up is the same note one octave higher.
pub proof fn law_octaves_repeat(note: int)
    ensures
        note_name(note + 12) == note_letter(note % 12) + text::signed_decimal(note / 12),
{
}

/// The pitches are heard in the order of the pattern, over and over: the last pitch after
/// `n` more triggers is the one `n` places further.
pub proof fn law_pitches_are_heard_in_order(s: AppModel, n: nat)
    requires
        s.index_fits(),
        s.pattern.len() > 0,
    ensures
        after_triggers(s, n + 1).last_pitch == Some(
            s.pattern[(s.current_index + n) % (s.pattern.len() as int)],
        ),
{
    lemma_triggers(s, n);
}

/// A trigger changes nothing but the place in the pattern and the last pitch, and nothing at
/// all where the pattern is empty.
pub proof fn law_trigger_leaves_the_rest(s: AppModel)
    ensures
        advanced(s) == (AppModel {
            current_index: advanced(s).current_index,
            last_pitch: advanced(s).last_pitch,
            ..s
        }),
        s.pattern.len() == 0 ==> advanced(s) == s,
{
}

/// An event at the trigger address is a trigger; a param there is none, nor is an event
/// elsewhere.
pub proof fn law_triggers(
    s: AppModel,
    address: Seq<char>,
    signal_type: SignalType,
    timestamp: FloatValue,
    payload: ValueModel,
)
    ensures
        is_trigger(s, protocol::action_message(address, signal_type, timestamp, payload)) <==> address
            == s.trigger_address && signal_type == SignalType::Event,
{
    protocol::law_action_reads_back(address, signal_type, timestamp, payload);
    protocol::law_signal_name_round_trip(signal_type);
    protocol::law_signal_name_round_trip(SignalType::Event);
}

/// The letters of an octave: seven of them in the order of the alphabet from C, with A after
/// G, and between them the sharps of C, D, F, G and A.
pub proof fn law_scale()
    ensures
        note_letter(0) == seq!['C'],
        note_letter(2) == seq!['D'],
        note_letter(4) == seq!['E'],
        note_letter(5) == seq!['F'],
        note_letter(7) == seq!['G'],
        note_letter(9) == seq!['A'],
        note_letter(11) == seq!['B'],
        note_letter(1) == note_letter(0).push('#'),
        note_letter(3) == note_letter(2).push('#'),
        note_letter(6) == note_letter(5).push('#'),
        note_letter(8) == note_letter(7).push('#'),
        note_letter(10) == note_letter(9).push('#'),
{
    reveal_strlit("C");
    reveal_strlit("C#");
    reveal_strlit("D");
    reveal_strlit("D#");
    reveal_strlit("E");
    reveal_strlit("F");
    reveal_strlit("F#");
    reveal_strlit("G");
    reveal_strlit("G#");
    reveal_strlit("A");
    reveal_strlit("A#");
    reveal_strlit("B");
    assert(note_letter(0) =~= seq!['C']);
    assert(note_letter(1) =~= note_letter(0).push('#'));
    assert(note_letter(2) =~= seq!['D']);
    assert(note_letter(3) =~= note_letter(2).push('#'));
    assert(note_letter(4) =~= seq!['E']);
    assert(note_letter(5) =~= seq!['F']);
    assert(note_letter(6) =~= note_letter(5).push('#'));
    assert(note_letter(7) =~= seq!['G']);
    assert(note_letter(8) =~= note_letter(7).push('#'));
    assert(note_letter(9) =~= seq!['A']);
    assert(note_letter(10) =~= note_letter(9).push('#'));
    assert(note_letter(11) =~= seq!['B']);
}

/// Note `n` of octave `o` is written as its letter and the octave; octave 4 begins with note
/// 60.
pub proof fn law_note_is_letter_and_octave(o: nat, n: nat)
    requires
        n < 12,
    ensures
        note_name(60int + n) == note_letter(n as int) + seq!['4'],
        note_name(12int * (o + 1) + n) == note_letter(n as int) + text::decimal(o),
        note_name(n as int) == note_letter(n as int) + seq!['-', '1'],
{
    assert(text::digit_char(4) == '4');
    assert(text::decimal(4) =~= seq!['4']);
    assert(text::digit_char(1) == '1');
    assert(text::decimal(1) =~= seq!['1']);
    assert(text::signed_decimal(-1) =~= seq!['-', '1']);
}

/// Up and Down undo each other between the lowest and the highest note, and stop there; so
/// do the keys for channel and velocity.
pub proof fn law_opposite_keys_undo(s: AppModel)
    requires
        s.valid(),
        s.pattern.len() > 0,
    ensures
        0 <= s.pattern[s.current_index] < 127 ==> after_key(
            after_key(s, KeyCode::Up).0,
            KeyCode::Down,
        ).0 == s,
        s.pattern[s.current_index] == 127 ==> after_key(s, KeyCode::Up).0 == s,
        s.pattern[s.current_index] == 0 ==> after_key(s, KeyCode::Down).0 == s,
        s.pattern[s.current_index] < 127 ==> after_key(s, KeyCode::Up).0.pattern[s.current_index]
            == s.pattern[s.current_index] + 1,
        s.channel < 15 ==> after_key(after_key(s, KeyCode::Char('C')).0, KeyCode::Char('c')).0 == s,
        s.channel < 15 ==> after_key(s, KeyCode::Char('C')).0.channel == s.channel + 1,
        s.channel == 15 ==> after_key(s, KeyCode::Char('C')).0 == s,
        s.channel == 0 ==> after_key(s, KeyCode::Char('c')).0 == s,
        s.velocity <= 117 ==> after_key(after_key(s, KeyCode::Char('V')).0, KeyCode::Char('v')).0
            == s,
        s.velocity <= 117 ==> after_key(s, KeyCode::Char('V')).0.velocity == s.velocity + 10,
        s.velocity > 117 ==> after_key(s, KeyCode::Char('V')).0.velocity == 127,
        s.velocity < 10 ==> after_key(s, KeyCode::Char('v')).0.velocity == 0,
{
    let at = s.current_index;
    if s.pattern[at] < 127 {
        let up = after_key(s, KeyCode::Up).0;
        let back = after_key(up, KeyCode::Down).0;
        assert(back.pattern =~= s.pattern);
        assert(back =~= s);
    }
    if s.pattern[at] == 127 {
        assert(after_key(s, KeyCode::Up).0.pattern =~= s.pattern);
    }
    if s.pattern[at] == 0 {
        assert(after_key(s, KeyCode::Down).0.pattern =~= s.pattern);
    }
}

/// Right puts one pitch in front of the current one, a semitone above it, or C4 into an
/// empty pattern; the others stay in their order.
pub proof fn law_right_inserts(s: AppModel)
    requires
        s.valid(),
        s.pattern.len() > 0 ==> s.pattern[s.current_index] < i64::MAX,
    ensures
        ({
            let after = after_key(s, KeyCode::Right).0;
            &&& after.pattern.len() == s.pattern.len() + 1
            &&& after.pattern.remove(s.current_index) == s.pattern
            &&& after.current_index == s.current_index
            &&& s.pattern.len() > 0 ==> after.pattern[s.current_index]
                == s.pattern[s.current_index] + 1
            &&& s.pattern.len() == 0 ==> after.pattern[0] == 60
        }),
{
    let after = after_key(s, KeyCode::Right).0;
    assert(after.pattern.remove(s.current_index) =~= s.pattern);
}

/// Left takes out the pitch that was played last, which is the last of the pattern where
/// the current one is the first; the others stay in their order.
pub proof fn law_left_removes(s: AppModel)
    requires
        s.valid(),
        s.pattern.len() > 0,
    ensures
        ({
            let after = after_key(s, KeyCode::Left).0;
            let at = s.current_index;
            &&& at > 0 ==> after.pattern == s.pattern.take(at - 1) + s.pattern.skip(at)
            &&& at == 0 ==> after.pattern == s.pattern.drop_last()
            &&& after.pattern.len() == s.pattern.len() - 1
            &&& after.valid()
        }),
{
    let after = after_key(s, KeyCode::Left).0;
    let at = s.current_index;
    if at > 0 {
        assert(after.pattern =~= s.pattern.take(at - 1) + s.pattern.skip(at));
    } else {
        assert(after.pattern =~= s.pattern.drop_last());
    }
}

/// What the cycler sends, the MIDI bridge plays: the message of a note asks it for that
/// channel, pitch, velocity and duration.
pub proof fn law_notes_can_be_played(
    channel: i64,
    pitch: i64,
    velocity: i64,
    duration: FloatValue,
    now: FloatValue,
)
    requires
        0 <= channel < 16,
        0 <= pitch < 128,
        0 <= velocity < 128,
        midi::is_duration(duration),
    ensures
        midi::request(
            note_message("/midi/play"@, channel, pitch, velocity, duration, now),
        ) == midi::MidiRequest::Play(channel as u8, pitch as u8, velocity as u8, duration),
{
    let numbers = seq![
        ValueModel::Integer(channel),
        ValueModel::Integer(pitch),
        ValueModel::Integer(velocity),
    ];
    let items = seq![
        ValueModel::Integer(channel),
        ValueModel::Integer(pitch),
        ValueModel::Integer(velocity),
        ValueModel::Float(duration),
    ];
    assert(numbers.push(ValueModel::Float(duration)) + Seq::<ValueModel>::empty() =~= items);
    midi::law_payload_is_read_in_order(channel, pitch, velocity, duration, Seq::empty());
    midi::law_actions_ask_for_their_payload("/midi/play"@, now, ValueModel::Tuple(items));
}

/// The published params hold the settings of the cycler, as immediate params.
pub proof fn law_params_hold_the_settings(s: AppModel, i: int)
    requires
        0 <= i < 6,
    ensures
        param_messages(s).len() == 6,
        ({
            let f = protocol::payload_fields(param_messages(s)[i]);
            &&& param_messages(s)[i].msg_type == protocol::MSG_ACTION@
            &&& protocol::string_field(f, "signal_type"@) == Some("param"@)
            &&& protocol::float_field(f, "timestamp"@) == Some(FloatValue { bits: 0 })
            &&& protocol::string_field(f, "address"@) == Some(
                if i == 0 {
                    "/demo/pitch/pattern"@
                } else if i == 1 {
                    "/demo/pitch/trigger"@
                } else if i == 2 {
                    "/demo/pitch/output"@
                } else if i == 3 {
                    "/demo/pitch/channel"@
                } else if i == 4 {
                    "/demo/pitch/velocity"@
                } else {
                    "/demo/pitch/duration"@
                },
            )
            &&& i == 0 ==> (protocol::value_field(f, "payload"@) matches Some(
                ValueModel::List(items),
            ) && items.len() == s.pattern.len() && forall|j: int|
                0 <= j < items.len() ==> #[trigger] items[j] == ValueModel::Integer(s.pattern[j]))
            &&& i > 0 ==> protocol::value_field(f, "payload"@) == Some(
                if i == 1 {
                    ValueModel::String(s.trigger_address)
                } else if i == 2 {
                    ValueModel::String(s.output_address)
                } else if i == 3 {
                    ValueModel::Integer(s.channel)
                } else if i == 4 {
                    ValueModel::Integer(s.velocity)
                } else {
                    ValueModel::Float(s.duration)
                },
            )
        }),
{
    protocol::lemma_action_keys();
}

/// A note has the settings of the cycler at the time, and the pitch that then counts as the
/// last one.
pub proof fn law_note_has_the_settings(
    s: AppModel,
    address: Seq<char>,
    channel: i64,
    velocity: i64,
    duration: FloatValue,
)
    requires
        s.index_fits(),
        s.pattern.len() > 0,
    ensures
        next_note(
            AppModel { output_address: address, channel, velocity, duration, ..s },
        ) == (NoteModel {
            output_address: address,
            channel,
            pitch: advanced(s).last_pitch->0,
            velocity,
            duration,
        }),
        advanced(s).last_pitch is Some,
{
}

/// The rhythm generator triggers the cycler exactly if it sends to the address that the
/// cycler listens at.
pub proof fn law_generator_triggers_the_cycler(
    s: AppModel,
    generator: SchedulerState,
    now: FloatValue,
)
    ensures
        is_trigger(s, euclidean::trigger_message(generator, now)) <==> generator.output_address@
            == s.trigger_address,
{
    law_triggers(s, generator.output_address@, SignalType::Event, now, ValueModel::Null);
}

} // verus!
