//! Euclidean rhythm generator: a voice that sends trigger events.
//!
//! A Euclidean rhythm distributes `hits` as evenly as possible across `steps`.
use vstd::arithmetic::div_mod;
use vstd::prelude::*;

use crate::keys::KeyCode;
use crate::protocol;
use crate::protocol::SignalType;
use crate::protocol::WireMessage;
use crate::text;
use crate::values::FloatValue;
use crate::values::Value;
use crate::values::ValueModel;

verus! {

// ---------------------------------------------------------------------------
// The rhythm
// ---------------------------------------------------------------------------

/// How many hits fall on the first `k` steps of the rhythm that repeats forever.
pub open spec fn hits_before(steps: nat, hits: nat, k: nat) -> nat {
    k * hits / steps
}

/// Whether step `k` of the rhythm that repeats forever is a hit.
pub open spec fn is_hit(steps: nat, hits: nat, k: nat) -> bool {
    hits_before(steps, hits, k + 1) > hits_before(steps, hits, k)
}

/// One bar of the rhythm, rotated to the left.
pub open spec fn bar(steps: nat, hits: nat, rotation: nat) -> Seq<bool> {
    Seq::new(steps, |i: int| is_hit(steps, hits, ((i + rotation) % (steps as int)) as nat))
}

/// How many elements are true.
pub open spec fn count(s: Seq<bool>) -> nat
    decreases s.len(),
{
    if s.len() == 0 {
        0
    } else {
        count(s.drop_last()) + (if s.last() {
            1nat
        } else {
            0nat
        })
    }
}

/// A step adds `hits` to what is left over; a hit comes out when a whole bar is
/// reached.
proof fn lemma_step(steps: nat, hits: nat, k: nat)
    requires
        steps > 0,
        hits <= steps,
    ensures
        0 <= (k * hits) % steps < steps,
        is_hit(steps, hits, k) == ((k * hits) % steps + hits >= steps),
        hits_before(steps, hits, k + 1) == hits_before(steps, hits, k) + (if is_hit(
            steps,
            hits,
            k,
        ) {
            1nat
        } else {
            0nat
        }),
        ((k + 1) * hits) % steps == (if is_hit(steps, hits, k) {
            (k * hits) % steps + hits - steps
        } else {
            ((k * hits) % steps + hits) as int
        }),
{
    let q = (k * hits) / steps;
    let r = (k * hits) % steps;
    let n = steps as int;
    div_mod::lemma_fundamental_div_mod((k * hits) as int, n);
    assert((k + 1) * hits == k * hits + hits) by (nonlinear_arith);
    if r + hits >= steps {
        assert((q + 1) * n == n * q + n) by (nonlinear_arith);
        div_mod::lemma_fundamental_div_mod_converse(((k + 1) * hits) as int, n, (q + 1) as int, r + hits - steps);
    } else {
        assert(q * n == n * q) by (nonlinear_arith);
        div_mod::lemma_fundamental_div_mod_converse(((k + 1) * hits) as int, n, q as int, (r + hits) as int);
    }
}

/// Each further bar brings the same hits again.
proof fn lemma_periodic(steps: nat, hits: nat, k: nat, bars: nat)
    requires
        steps > 0,
    ensures
        hits_before(steps, hits, k + bars * steps) == hits_before(steps, hits, k) + bars * hits,
{
    let n = steps as int;
    let q = (k * hits) / steps;
    let r = (k * hits) % steps;
    div_mod::lemma_fundamental_div_mod((k * hits) as int, n);
    assert((k + bars * steps) * hits == (q + bars * hits) * n + r) by (nonlinear_arith)
        requires
            k * hits == n * q + r,
            n == steps,
    ;
    div_mod::lemma_fundamental_div_mod_converse(
        ((k + bars * steps) * hits) as int,
        n,
        (q + bars * hits) as int,
        r as int,
    );
}

/// Step `i` of a rotated bar is step `i + rotation` of the repeating rhythm.
proof fn lemma_bar_step(steps: nat, hits: nat, rotation: nat, i: nat)
    requires
        i < steps,
    ensures
        bar(steps, hits, rotation)[i as int] == is_hit(steps, hits, i + rotation),
{
    let n = steps as int;
    let k = i + rotation;
    let q = (k / steps) as nat;
    let r = (k % steps) as nat;
    div_mod::lemma_fundamental_div_mod(k as int, n);
    assert(k == r + q * steps) by (nonlinear_arith)
        requires
            k == n * q + r,
            n == steps,
    ;
    lemma_periodic(steps, hits, r, q);
    lemma_periodic(steps, hits, r + 1, q);
    assert(r + 1 + q * steps == k + 1);
}

/// A stretch of a bar that goes on from its start when it reaches its end.
pub open spec fn stretch(b: Seq<bool>, from: nat, length: nat) -> Seq<bool> {
    Seq::new(length, |i: int| b[(from + i) % (b.len() as int)])
}

/// The share of the hits that falls on `length` steps, rounded up.
pub open spec fn hits_at_most(steps: nat, hits: nat, length: nat) -> nat {
    ((length * hits + steps - 1) / (steps as int)) as nat
}

/// The hits of a stretch are those before its end less those before its start.
proof fn lemma_stretch_count(steps: nat, hits: nat, rotation: nat, from: nat, length: nat)
    requires
        steps > 0,
        hits <= steps,
    ensures
        count(stretch(bar(steps, hits, rotation), from, length)) == hits_before(
            steps,
            hits,
            from + length + rotation,
        ) - hits_before(steps, hits, from + rotation),
    decreases length,
{
    let b = bar(steps, hits, rotation);
    let s = stretch(b, from, length);
    if length > 0 {
        let init = (length - 1) as nat;
        lemma_stretch_count(steps, hits, rotation, from, init);
        assert(s.drop_last() =~= stretch(b, from, init));
        let n = steps as int;
        let k = from + init;
        let q = (k / steps) as nat;
        let r = (k % steps) as nat;
        div_mod::lemma_fundamental_div_mod(k as int, n);
        lemma_bar_step(steps, hits, rotation, r);
        assert(s.last() == b[r as int]);
        assert(k + rotation == r + rotation + q * steps) by (nonlinear_arith)
            requires
                k == n * q + r,
                n == steps,
        ;
        lemma_periodic(steps, hits, r + rotation, q);
        lemma_periodic(steps, hits, r + rotation + 1, q);
        assert(r + rotation + 1 + q * steps == k + rotation + 1);
        lemma_step(steps, hits, k + rotation);
        assert(from + length + rotation == k + rotation + 1);
    }
}

/// A bar holds exactly `hits` hits, however it is rotated.
pub proof fn law_bar_has_its_hits(steps: nat, hits: nat, rotation: nat)
    requires
        steps > 0,
        hits <= steps,
    ensures
        bar(steps, hits, rotation).len() == steps,
        count(bar(steps, hits, rotation)) == hits,
{
    let b = bar(steps, hits, rotation);
    lemma_stretch_count(steps, hits, rotation, 0, steps);
    assert forall|i: int| 0 <= i < steps implies #[trigger] stretch(b, 0, steps)[i] == b[i] by {
        div_mod::lemma_small_mod(i as nat, steps);
    }
    assert(stretch(b, 0, steps) =~= b);
    lemma_periodic(steps, hits, rotation, 1);
}

/// The hits are spread as evenly as possible: every stretch of a bar, also one that
/// goes on from the start of the bar, holds its share of the hits, rounded down or
/// up, so that two stretches of one length differ by at most one hit.
pub proof fn law_hits_are_even(steps: nat, hits: nat, rotation: nat, from: nat, length: nat)
    requires
        steps > 0,
        hits <= steps,
    ensures
        hits_before(steps, hits, length) <= count(
            stretch(bar(steps, hits, rotation), from, length),
        ) <= hits_at_most(steps, hits, length),
        hits_at_most(steps, hits, length) <= hits_before(steps, hits, length) + 1,
{
    lemma_stretch_count(steps, hits, rotation, from, length);
    let n = steps as int;
    let a = from + rotation;
    let qa = hits_before(steps, hits, a);
    let ra = (a * hits) % steps;
    let qw = hits_before(steps, hits, length);
    let rw = (length * hits) % steps;
    div_mod::lemma_fundamental_div_mod((a * hits) as int, n);
    div_mod::lemma_fundamental_div_mod((length * hits) as int, n);
    assert((a + length) * hits == a * hits + length * hits) by (nonlinear_arith);
    assert(from + length + rotation == a + length);
    assert((qw + 1) * n == n * qw + n) by (nonlinear_arith);
    assert(qw * n == n * qw) by (nonlinear_arith);
    if rw == 0 {
        div_mod::lemma_fundamental_div_mod_converse(length * hits + n - 1, n, qw as int, n - 1);
    } else {
        div_mod::lemma_fundamental_div_mod_converse(
            length * hits + n - 1,
            n,
            (qw + 1) as int,
            rw - 1,
        );
    }
    if ra + rw < steps {
        assert((qa + qw) * n == n * qa + n * qw) by (nonlinear_arith);
        div_mod::lemma_fundamental_div_mod_converse(
            ((a + length) * hits) as int,
            n,
            (qa + qw) as int,
            (ra + rw) as int,
        );
    } else {
        assert((qa + qw + 1) * n == n * qa + n * qw + n) by (nonlinear_arith);
        div_mod::lemma_fundamental_div_mod_converse(
            ((a + length) * hits) as int,
            n,
            (qa + qw + 1) as int,
            ra + rw - steps,
        );
    }
}

/// Rotation moves the steps round: a bar rotated by `rotation` begins where the
/// plain bar has arrived after that many steps, and a rotation by whole bars
/// changes nothing.
pub proof fn law_rotation_is_cyclic(steps: nat, hits: nat, rotation: nat, bars: nat)
    requires
        steps > 0,
    ensures
        forall|i: int|
            0 <= i < steps ==> #[trigger] bar(steps, hits, rotation)[i] == bar(steps, hits, 0)[(i
                + rotation) % (steps as int)],
        bar(steps, hits, rotation + bars * steps) == bar(steps, hits, rotation),
{
    let n = steps as int;
    assert forall|i: int| 0 <= i < steps implies #[trigger] bar(steps, hits, rotation)[i] == bar(
        steps,
        hits,
        0,
    )[(i + rotation) % n] by {
        div_mod::lemma_small_mod(((i + rotation) % n) as nat, steps);
    }
    assert forall|i: int| 0 <= i < steps implies #[trigger] bar(
        steps,
        hits,
        rotation + bars * steps,
    )[i] == bar(steps, hits, rotation)[i] by {
        assert(n * bars + (i + rotation) == i + (rotation + bars * steps)) by (nonlinear_arith)
            requires
                n == steps,
        ;
        lemma_mod_add_multiples(i + rotation, bars as int, n);
    }
    assert(bar(steps, hits, rotation + bars * steps) =~= bar(steps, hits, rotation));
}

proof fn lemma_mod_add_multiples(x: int, bars: int, n: int)
    requires
        n > 0,
        bars >= 0,
    ensures
        (n * bars + x) % n == x % n,
    decreases bars,
{
    if bars > 0 {
        lemma_mod_add_multiples(x, bars - 1, n);
        assert(n * bars + x == n + (n * (bars - 1) + x)) by (nonlinear_arith);
        div_mod::lemma_mod_add_multiples_vanish(n * (bars - 1) + x, n);
    } else {
        assert(n * bars == 0) by (nonlinear_arith)
            requires
                bars == 0,
        ;
    }
}

/// Generates a Euclidean rhythm: `hits` distributed as evenly as possible across
/// `steps`, rotated to the left by `rotation`.
pub fn euclidean(steps: usize, hits: usize, rotation: usize) -> (r: Vec<bool>)
    requires
        steps > 0,
        hits <= steps,
    ensures
        r@ == bar(steps as nat, hits as nat, rotation as nat),
{
    let mut plain: Vec<bool> = Vec::new();
    let mut acc: usize = 0;
    let mut k: usize = 0;
    assert(0 * (hits as nat) % (steps as nat) == 0) by (nonlinear_arith)
        requires
            steps > 0,
    ;
    while k < steps
        invariant
            steps > 0,
            hits <= steps,
            k <= steps,
            acc == ((k as nat) * (hits as nat)) % (steps as nat),
            acc < steps,
            plain@.len() == k,
            forall|j: int|
                0 <= j < k ==> #[trigger] plain@[j] == is_hit(
                    steps as nat,
                    hits as nat,
                    j as nat,
                ),
        decreases steps - k,
    {
        proof {
            lemma_step(steps as nat, hits as nat, k as nat);
        }
        if acc >= steps - hits {
            plain.push(true);
            acc = acc - (steps - hits);
        } else {
            plain.push(false);
            acc = acc + hits;
        }
        k = k + 1;
    }
    let rot: usize = rotation % steps;
    let mut out: Vec<bool> = Vec::new();
    let mut i: usize = 0;
    while i < steps
        invariant
            steps > 0,
            i <= steps,
            rot == rotation as int % (steps as int),
            rot < steps,
            plain@.len() == steps,
            forall|j: int|
                0 <= j < steps ==> #[trigger] plain@[j] == is_hit(
                    steps as nat,
                    hits as nat,
                    j as nat,
                ),
            out@.len() == i,
            forall|j: int|
                0 <= j < i ==> #[trigger] out@[j] == bar(
                    steps as nat,
                    hits as nat,
                    rotation as nat,
                )[j],
        decreases steps - i,
    {
        let at: usize = if i >= steps - rot {
            i - (steps - rot)
        } else {
            i + rot
        };
        proof {
            let n = steps as int;
            div_mod::lemma_add_mod_noop_right(i as int, rotation as int, n);
            if i >= steps - rot {
                div_mod::lemma_mod_add_multiples_vanish(at as int, n);
                assert(i + rot == n + at);
            }
            div_mod::lemma_small_mod(at as nat, steps as nat);
            assert(at == (i + rotation) % n);
            assert(plain@[at as int] == is_hit(steps as nat, hits as nat, at as nat));
        }
        out.push(plain[at]);
        i = i + 1;
    }
    assert(out@ =~= bar(steps as nat, hits as nat, rotation as nat));
    out
}

// ---------------------------------------------------------------------------
// The scheduler
// ---------------------------------------------------------------------------

/// The params and the step counter of the scheduler.
#[derive(Debug, Clone)]
pub struct SchedulerState {
    /// Tempo in beats per minute.
    pub bpm: FloatValue,
    /// Number of steps per bar.
    pub steps: usize,
    /// Number of hits per bar.
    pub hits: usize,
    /// Rotation offset.
    pub rotation: usize,
    /// Output address of trigger events.
    pub output_address: String,
    /// Current step position (0..steps).
    pub current_step: usize,
}

/// The bits of 120.0, the tempo at the start.
pub const DEFAULT_BPM_BITS: u64 = 0x405E_0000_0000_0000;

impl SchedulerState {
    /// Whether the params describe a rhythm and the step lies in its bar.
    pub open spec fn valid(self) -> bool {
        0 < self.steps && self.hits <= self.steps && self.current_step < self.steps
    }

    /// A new scheduler state with default values.
    pub fn new() -> (r: Self)
        ensures
            r.valid(),
            r.bpm.bits == DEFAULT_BPM_BITS,
            r.steps == 16,
            r.hits == 4,
            r.rotation == 0,
            r.output_address@ == "/demo/euclid/trigger"@,
            r.current_step == 0,
    {
        SchedulerState {
            bpm: FloatValue::new(DEFAULT_BPM_BITS),
            steps: 16,
            hits: 4,
            rotation: 0,
            output_address: "/demo/euclid/trigger".to_owned(),
            current_step: 0,
        }
    }

    /// Advances to the next step, wrapping around at the end of the bar.
    pub fn advance(&mut self)
        requires
            old(self).steps > 0,
            old(self).current_step < usize::MAX,
        ensures
            *final(self) == (SchedulerState {
                current_step: ((old(self).current_step + 1) % (old(self).steps as int)) as usize,
                ..*old(self)
            }),
            final(self).current_step < final(self).steps,
            old(self).valid() ==> final(self).valid(),
    {
        self.current_step = (self.current_step + 1) % self.steps;
    }

    /// Sets the number of steps per bar. The hits and the current step are kept
    /// within the new bar.
    pub fn set_steps(&mut self, steps: usize)
        requires
            steps > 0,
        ensures
            *final(self) == resized(*old(self), steps),
            old(self).valid() ==> final(self).valid(),
    {
        self.steps = steps;
        if self.hits > steps {
            self.hits = steps;
        }
        if self.current_step >= steps {
            self.current_step = 0;
        }
    }
}

/// The state with another number of steps per bar: no more hits than steps, and
/// a step outside the new bar starts it again.
pub open spec fn resized(s: SchedulerState, steps: usize) -> SchedulerState {
    SchedulerState {
        steps,
        hits: if s.hits > steps {
            steps
        } else {
            s.hits
        },
        current_step: if s.current_step >= steps {
            0
        } else {
            s.current_step
        },
        ..s
    }
}

/// What the interface and the scheduler share.
#[derive(Debug)]
pub struct AppState {
    /// The params and the step counter.
    pub scheduler: SchedulerState,
    /// Whether the scheduler is running.
    pub running: bool,
    /// Whether the scheduler is paused. It stays alive, so resuming is always
    /// possible.
    pub paused: bool,
    /// Whether the interface should quit.
    pub should_quit: bool,
}

/// What one turn of the scheduler loop calls for.
#[derive(Clone, Copy, Debug, PartialEq, Eq, Structural)]
pub enum Tick {
    /// The scheduler ends.
    Stop,
    /// Nothing is sent at this step.
    Rest,
    /// A trigger event is sent at this step.
    Trigger,
}

/// What a key press calls for besides the change of the state.
#[derive(Clone, Copy, Debug, PartialEq, Eq, Structural)]
pub enum KeyEffect {
    Nothing,
    /// The params are to be published.
    Publish,
    /// The tempo goes up or down by 1, or by 10 where `large`, between 20 and
    /// 300; then the params are to be published.
    ChangeTempo { up: bool, large: bool },
}

/// The params of a scheduler as messages.
pub open spec fn param_messages(s: SchedulerState, now: FloatValue) -> Seq<
    protocol::MessageModel,
> {
    seq![
        protocol::action_message(
            "/demo/euclid/bpm"@,
            SignalType::Param,
            now,
            ValueModel::Float(s.bpm),
        ),
        protocol::action_message(
            "/demo/euclid/steps"@,
            SignalType::Param,
            now,
            ValueModel::Integer(s.steps as i64),
        ),
        protocol::action_message(
            "/demo/euclid/hits"@,
            SignalType::Param,
            now,
            ValueModel::Integer(s.hits as i64),
        ),
        protocol::action_message(
            "/demo/euclid/rotation"@,
            SignalType::Param,
            now,
            ValueModel::Integer(s.rotation as i64),
        ),
        protocol::action_message(
            "/demo/euclid/output"@,
            SignalType::Param,
            now,
            ValueModel::String(s.output_address@),
        ),
    ]
}

/// The state after a key press, and what the key calls for.
pub open spec fn after_key(s: AppState, key: KeyCode, shift: bool) -> (AppState, KeyEffect) {
    let c = s.scheduler;
    match key {
        KeyCode::Char(k) => if k == 'q' || k == 'Q' {
            (AppState { should_quit: true, ..s }, KeyEffect::Nothing)
        } else if k == 'b' || k == 'B' {
            (s, KeyEffect::ChangeTempo { up: k == 'B', large: shift })
        } else if k == ' ' {
            (AppState { paused: !s.paused, ..s }, KeyEffect::Nothing)
        } else {
            (s, KeyEffect::Nothing)
        },
        KeyCode::Left => if !shift && c.steps > 1 {
            (AppState { scheduler: resized(c, (c.steps - 1) as usize), ..s }, KeyEffect::Publish)
        } else if shift && c.rotation > 0 {
            (
                AppState {
                    scheduler: SchedulerState { rotation: (c.rotation - 1) as usize, ..c },
                    ..s
                },
                KeyEffect::Publish,
            )
        } else {
            (s, KeyEffect::Nothing)
        },
        KeyCode::Right => if !shift && c.steps < 64 {
            (AppState { scheduler: resized(c, (c.steps + 1) as usize), ..s }, KeyEffect::Publish)
        } else if shift {
            (
                AppState {
                    scheduler: SchedulerState { rotation: (c.rotation + 1) as usize, ..c },
                    ..s
                },
                KeyEffect::Publish,
            )
        } else {
            (s, KeyEffect::Nothing)
        },
        KeyCode::Up => if c.hits < c.steps {
            (
                AppState { scheduler: SchedulerState { hits: (c.hits + 1) as usize, ..c }, ..s },
                KeyEffect::Publish,
            )
        } else {
            (s, KeyEffect::Nothing)
        },
        KeyCode::Down => if c.hits > 0 {
            (
                AppState { scheduler: SchedulerState { hits: (c.hits - 1) as usize, ..c }, ..s },
                KeyEffect::Publish,
            )
        } else {
            (s, KeyEffect::Nothing)
        },
        _ => (s, KeyEffect::Nothing),
    }
}

/// The bar of the current params.
pub open spec fn rhythm(s: SchedulerState) -> Seq<bool> {
    bar(s.steps as nat, s.hits as nat, s.rotation as nat)
}

/// One turn of the scheduler loop: the state after it, and what it calls for.
pub open spec fn ticked(s: AppState) -> (AppState, Tick) {
    let c = s.scheduler;
    if !s.running {
        (s, Tick::Stop)
    } else if s.paused {
        (s, Tick::Rest)
    } else {
        (
            AppState {
                scheduler: SchedulerState {
                    current_step: ((c.current_step + 1) % (c.steps as int)) as usize,
                    ..c
                },
                ..s
            },
            if rhythm(c)[c.current_step as int] {
                Tick::Trigger
            } else {
                Tick::Rest
            },
        )
    }
}

/// The trigger event for the output address.
pub open spec fn trigger_message(s: SchedulerState, now: FloatValue) -> protocol::MessageModel {
    protocol::action_message(s.output_address@, SignalType::Event, now, ValueModel::Null)
}

/// The line under the pattern.
pub open spec fn step_line(s: SchedulerState) -> Seq<char> {
    "Step: "@ + text::decimal((s.current_step + 1) as nat) + "/"@ + text::decimal(s.steps as nat)
        + " | Rotation: "@ + text::decimal(s.rotation as nat)
}

impl AppState {
    /// The state at the start.
    pub fn new() -> (r: Self)
        ensures
            r.scheduler.valid(),
            r.running,
            !r.paused,
            !r.should_quit,
            r.scheduler.bpm.bits == DEFAULT_BPM_BITS,
            r.scheduler.steps == 16,
            r.scheduler.hits == 4,
            r.scheduler.rotation == 0,
            r.scheduler.output_address@ == "/demo/euclid/trigger"@,
            r.scheduler.current_step == 0,
    {
        AppState {
            scheduler: SchedulerState::new(),
            running: true,
            paused: false,
            should_quit: false,
        }
    }

    /// The pattern of the current params.
    pub fn pattern(&self) -> (r: Vec<bool>)
        requires
            self.scheduler.valid(),
        ensures
            r@ == bar(
                self.scheduler.steps as nat,
                self.scheduler.hits as nat,
                self.scheduler.rotation as nat,
            ),
            r@ == rhythm(self.scheduler),
    {
        euclidean(self.scheduler.steps, self.scheduler.hits, self.scheduler.rotation)
    }

    /// The messages that publish all current params.
    pub fn publish_params(&self, now: FloatValue) -> (r: Vec<WireMessage>)
        ensures
            r@.map_values(|m: WireMessage| m@) == param_messages(self.scheduler, now),
    {
        let s = &self.scheduler;
        let mut out: Vec<WireMessage> = Vec::new();
        out.push(
            protocol::action("/demo/euclid/bpm", SignalType::Param, now, Value::Float(s.bpm)),
        );
        out.push(
            protocol::action(
                "/demo/euclid/steps",
                SignalType::Param,
                now,
                Value::Integer(s.steps as i64),
            ),
        );
        out.push(
            protocol::action(
                "/demo/euclid/hits",
                SignalType::Param,
                now,
                Value::Integer(s.hits as i64),
            ),
        );
        out.push(
            protocol::action(
                "/demo/euclid/rotation",
                SignalType::Param,
                now,
                Value::Integer(s.rotation as i64),
            ),
        );
        out.push(
            protocol::action(
                "/demo/euclid/output",
                SignalType::Param,
                now,
                Value::String(s.output_address.as_str().to_owned()),
            ),
        );
        assert(out@.map_values(|m: WireMessage| m@) =~= param_messages(*s, now));
        out
    }

    /// The trigger event for the output address.
    pub fn send_trigger(&self, now: FloatValue) -> (r: WireMessage)
        ensures
            r@ == protocol::action_message(
                self.scheduler.output_address@,
                SignalType::Event,
                now,
                ValueModel::Null,
            ),
            r@ == trigger_message(self.scheduler, now),
    {
        protocol::action(
            self.scheduler.output_address.as_str(),
            SignalType::Event,
            now,
            Value::Null,
        )
    }

    /// One turn of the scheduler loop: what the current step calls for. The step
    /// counter moves on unless the scheduler has ended or is paused.
    pub fn tick(&mut self) -> (r: Tick)
        requires
            old(self).scheduler.valid(),
        ensures
            final(self).scheduler.valid(),
            (*final(self), r) == ticked(*old(self)),
            !old(self).running ==> r == Tick::Stop && *final(self) == *old(self),
            old(self).running && old(self).paused ==> r == Tick::Rest && *final(self) == *old(self),
            old(self).running && !old(self).paused ==> {
                let c = old(self).scheduler;
                &&& r == (if bar(
                    c.steps as nat,
                    c.hits as nat,
                    c.rotation as nat,
                )[c.current_step as int] {
                    Tick::Trigger
                } else {
                    Tick::Rest
                })
                &&& *final(self) == (AppState {
                    scheduler: SchedulerState {
                        current_step: ((c.current_step + 1) % (c.steps as int)) as usize,
                        ..c
                    },
                    ..*old(self)
                })
            },
    {
        if !self.running {
            return Tick::Stop;
        }
        if self.paused {
            return Tick::Rest;
        }
        let pattern = self.pattern();
        let hit = pattern[self.scheduler.current_step];
        self.scheduler.advance();
        if hit {
            Tick::Trigger
        } else {
            Tick::Rest
        }
    }

    /// Handles a key press.
    pub fn handle_input(&mut self, key: KeyCode, shift: bool) -> (r: KeyEffect)
        requires
            shift && key == KeyCode::Right ==> old(self).scheduler.rotation < usize::MAX,
        ensures
            (*final(self), r) == after_key(*old(self), key, shift),
    {
        match key {
            KeyCode::Char(k) => {
                if k == 'q' || k == 'Q' {
                    self.should_quit = true;
                    KeyEffect::Nothing
                } else if k == 'b' || k == 'B' {
                    KeyEffect::ChangeTempo { up: k == 'B', large: shift }
                } else if k == ' ' {
                    self.paused = !self.paused;
                    KeyEffect::Nothing
                } else {
                    KeyEffect::Nothing
                }
            },
            KeyCode::Left => {
                if !shift {
                    if self.scheduler.steps > 1 {
                        let steps: usize = self.scheduler.steps - 1;
                        self.scheduler.set_steps(steps);
                        KeyEffect::Publish
                    } else {
                        KeyEffect::Nothing
                    }
                } else if self.scheduler.rotation > 0 {
                    self.scheduler.rotation = self.scheduler.rotation - 1;
                    KeyEffect::Publish
                } else {
                    KeyEffect::Nothing
                }
            },
            KeyCode::Right => {
                if !shift {
                    if self.scheduler.steps < 64 {
                        let steps: usize = self.scheduler.steps + 1;
                        self.scheduler.set_steps(steps);
                        KeyEffect::Publish
                    } else {
                        KeyEffect::Nothing
                    }
                } else {
                    self.scheduler.rotation = self.scheduler.rotation + 1;
                    KeyEffect::Publish
                }
            },
            KeyCode::Up => {
                if self.scheduler.hits < self.scheduler.steps {
                    self.scheduler.hits = self.scheduler.hits + 1;
                    KeyEffect::Publish
                } else {
                    KeyEffect::Nothing
                }
            },
            KeyCode::Down => {
                if self.scheduler.hits > 0 {
                    self.scheduler.hits = self.scheduler.hits - 1;
                    KeyEffect::Publish
                } else {
                    KeyEffect::Nothing
                }
            },
            _ => KeyEffect::Nothing,
        }
    }

    /// The line under the pattern: where the scheduler is.
    pub fn step_info(&self) -> (r: String)
        requires
            self.scheduler.current_step < usize::MAX,
        ensures
            r@ == step_line(self.scheduler),
    {
        let s = &self.scheduler;
        let at: usize = s.current_step + 1;
        let mut out = "Step: ".to_owned();
        let n = text::number_string(at as u64);
        out.append(n.as_str());
        out.append("/");
        let n = text::number_string(s.steps as u64);
        out.append(n.as_str());
        out.append(" | Rotation: ");
        let n = text::number_string(s.rotation as u64);
        out.append(n.as_str());
        out
    }
}

/// No key leads out of the rhythms that can be played: there are always a step,
/// no more hits than steps, and a current step inside the bar.
pub proof fn law_keys_keep_the_rhythm_valid(s: AppState, key: KeyCode, shift: bool)
    requires
        s.scheduler.valid(),
        s.scheduler.rotation < usize::MAX,
    ensures
        after_key(s, key, shift).0.scheduler.valid(),
        after_key(s, key, shift).0.scheduler.steps <= 64 || s.scheduler.steps > 64,
{
}

/// The space bar pauses and resumes: pressed twice it changes nothing.
pub proof fn law_pause_twice_is_nothing(s: AppState, shift: bool)
    ensures
        after_key(after_key(s, KeyCode::Char(' '), shift).0, KeyCode::Char(' '), shift).0 == s,
{
}

/// A bar that is not rotated begins with the longest rest: its first `k` steps hold their
/// share of the hits rounded down, and with a hit at all its last step is one.
pub proof fn law_plain_bar_fills_up(steps: nat, hits: nat, k: nat)
    requires
        0 < steps,
        hits <= steps,
        k <= steps,
    ensures
        ({
            let n = count(bar(steps, hits, 0).take(k as int));
            n * steps <= k * hits < (n + 1) * steps
        }),
        hits > 0 ==> bar(steps, hits, 0)[steps - 1],
{
    let b = bar(steps, hits, 0);
    lemma_stretch_count(steps, hits, 0, 0, k);
    assert forall|i: int| 0 <= i < k implies #[trigger] stretch(b, 0, k)[i] == b.take(
        k as int,
    )[i] by {
        div_mod::lemma_small_mod(i as nat, steps);
    }
    assert(stretch(b, 0, k) =~= b.take(k as int));
    assert(hits_before(steps, hits, 0) == 0) by {
        assert(0 * hits == 0);
        div_mod::lemma_basic_div(0, steps as int);
    }
    let n = hits_before(steps, hits, k);
    div_mod::lemma_fundamental_div_mod((k * hits) as int, steps as int);
    assert(n * steps <= k * hits < (n + 1) * steps) by (nonlinear_arith)
        requires
            k * hits == steps * n + (k * hits) % steps,
            0 <= (k * hits) % steps < steps,
    ;
    if hits > 0 {
        let last = (steps - 1) as nat;
        lemma_bar_step(steps, hits, 0, last);
        lemma_periodic(steps, hits, 0, 1);
        assert(1 * steps == steps && 1 * hits == hits);
        lemma_step(steps, hits, last);
        div_mod::lemma_fundamental_div_mod((last * hits) as int, steps as int);
        assert(last * hits == steps * hits - hits) by (nonlinear_arith)
            requires
                last == steps - 1,
        ;
        let q = hits_before(steps, hits, last);
        assert(q < hits) by (nonlinear_arith)
            requires
                steps * q + (last * hits) % steps == steps * hits - hits,
                0 <= (last * hits) % steps,
                hits > 0,
                steps > 0,
        ;
    }
}

/// All steps are hits where there are as many hits as steps, and none without hits.
pub proof fn law_full_and_empty_bars(steps: nat, rotation: nat, i: int)
    requires
        0 <= i < steps,
    ensures
        bar(steps, steps, rotation)[i],
        !bar(steps, 0, rotation)[i],
{
    let k = ((i + rotation) % (steps as int)) as nat;
    lemma_step(steps, steps, k);
    lemma_step(steps, 0, k);
}

/// Keys that change a number up and down undo each other, as long as the number can
/// change.
pub proof fn law_opposite_keys_undo(s: AppState)
    requires
        s.scheduler.valid(),
        s.scheduler.rotation < usize::MAX,
    ensures
        s.scheduler.hits < s.scheduler.steps ==> after_key(
            after_key(s, KeyCode::Up, false).0,
            KeyCode::Down,
            false,
        ).0 == s,
        s.scheduler.hits > 0 ==> after_key(
            after_key(s, KeyCode::Down, false).0,
            KeyCode::Up,
            false,
        ).0 == s,
        after_key(after_key(s, KeyCode::Right, true).0, KeyCode::Left, true).0 == s,
        s.scheduler.steps < 64 ==> after_key(
            after_key(s, KeyCode::Right, false).0,
            KeyCode::Left,
            false,
        ).0 == s,
        s.scheduler.hits < s.scheduler.steps ==> after_key(s, KeyCode::Up, false).0.scheduler.hits
            == s.scheduler.hits + 1,
        s.scheduler.steps < 64 ==> after_key(s, KeyCode::Right, false).0.scheduler.steps
            == s.scheduler.steps + 1,
        after_key(s, KeyCode::Right, true).0.scheduler.rotation == s.scheduler.rotation + 1,
{
}

/// A bar that is made shorter keeps its hits and its step as far as they fit.
pub proof fn law_resized_bar_keeps_what_fits(s: SchedulerState, steps: usize)
    requires
        steps > 0,
    ensures
        resized(s, steps).steps == steps,
        resized(s, steps).hits <= steps,
        resized(s, steps).current_step < steps,
        s.hits <= steps ==> resized(s, steps).hits == s.hits,
        s.hits > steps ==> resized(s, steps).hits == steps,
        s.current_step < steps ==> resized(s, steps).current_step == s.current_step,
        s.current_step >= steps ==> resized(s, steps).current_step == 0,
        resized(s, steps).bpm == s.bpm,
        resized(s, steps).rotation == s.rotation,
        resized(s, steps).output_address == s.output_address,
{
}

/// A change of the rhythm is published, the tempo keys leave it to the tempo, and the keys
/// that change nothing publish nothing.
pub proof fn law_changes_are_published(s: AppState, key: KeyCode, shift: bool)
    ensures
        after_key(s, key, shift).0.scheduler != s.scheduler ==> after_key(s, key, shift).1
            == KeyEffect::Publish,
        after_key(s, KeyCode::Char('B'), shift) == (
            s,
            KeyEffect::ChangeTempo { up: true, large: shift },
        ),
        after_key(s, KeyCode::Char('b'), shift) == (
            s,
            KeyEffect::ChangeTempo { up: false, large: shift },
        ),
        after_key(s, key, shift).0.should_quit != s.should_quit ==> key == KeyCode::Char('q') || key
            == KeyCode::Char('Q'),
        after_key(s, KeyCode::Char('q'), shift).0.should_quit,
        after_key(s, KeyCode::Char('Q'), shift).0.should_quit,
{
}

/// The published params hold the numbers of the rhythm, as params with the given time.
pub proof fn law_params_hold_the_rhythm(s: SchedulerState, now: FloatValue, i: int)
    requires
        0 <= i < 5,
    ensures
        param_messages(s, now).len() == 5,
        ({
            let f = protocol::payload_fields(param_messages(s, now)[i]);
            &&& param_messages(s, now)[i].msg_type == protocol::MSG_ACTION@
            &&& protocol::string_field(f, "signal_type"@) == Some("param"@)
            &&& protocol::float_field(f, "timestamp"@) == Some(now)
            &&& protocol::string_field(f, "address"@) == Some(
                if i == 0 {
                    "/demo/euclid/bpm"@
                } else if i == 1 {
                    "/demo/euclid/steps"@
                } else if i == 2 {
                    "/demo/euclid/hits"@
                } else if i == 3 {
                    "/demo/euclid/rotation"@
                } else {
                    "/demo/euclid/output"@
                },
            )
            &&& protocol::value_field(f, "payload"@) == Some(
                if i == 0 {
                    ValueModel::Float(s.bpm)
                } else if i == 1 {
                    ValueModel::Integer(s.steps as i64)
                } else if i == 2 {
                    ValueModel::Integer(s.hits as i64)
                } else if i == 3 {
                    ValueModel::Integer(s.rotation as i64)
                } else {
                    ValueModel::String(s.output_address@)
                },
            )
        }),
{
    protocol::lemma_action_keys();
}

/// A further rotation makes each step what the next one was.
pub proof fn law_rotation_brings_the_next_step(s: SchedulerState, i: int)
    requires
        s.valid(),
        s.rotation < usize::MAX,
        0 <= i < s.steps,
    ensures
        rhythm(SchedulerState { rotation: (s.rotation + 1) as usize, ..s })[i] == rhythm(s)[(i + 1)
            % (s.steps as int)],
        rhythm(s).len() == s.steps,
{
    let n = s.steps as nat;
    let r = s.rotation as nat;
    let next = ((i + 1) % (n as int)) as nat;
    lemma_bar_step(n, s.hits as nat, r + 1, i as nat);
    lemma_bar_step(n, s.hits as nat, r, next);
    if i + 1 < n {
        div_mod::lemma_small_mod((i + 1) as nat, n);
    } else {
        div_mod::lemma_mod_self_0(n as int);
        lemma_periodic(n, s.hits as nat, r, 1);
        lemma_periodic(n, s.hits as nat, r + 1, 1);
        assert(1 * n == n);
        assert(r + n == i + (r + 1));
    }
}

/// The scheduler after a number of turns.
pub open spec fn after_ticks(s: AppState, n: nat) -> AppState
    decreases n,
{
    if n == 0 {
        s
    } else {
        ticked(after_ticks(s, (n - 1) as nat)).0
    }
}

/// Which of a number of turns triggered.
pub open spec fn triggered(s: AppState, n: nat) -> Seq<bool>
    decreases n,
{
    if n == 0 {
        Seq::empty()
    } else {
        let earlier = (n - 1) as nat;
        triggered(s, earlier).push(ticked(after_ticks(s, earlier)).1 == Tick::Trigger)
    }
}

/// Over a bar from its start the scheduler triggers exactly on the hits of the rhythm, and
/// is back at the start.
pub proof fn law_scheduler_plays_the_bar(s: AppState)
    requires
        s.scheduler.valid(),
        s.running,
        !s.paused,
        s.scheduler.current_step == 0,
    ensures
        triggered(s, s.scheduler.steps as nat) == rhythm(s.scheduler),
        count(triggered(s, s.scheduler.steps as nat)) == s.scheduler.hits,
        after_ticks(s, s.scheduler.steps as nat) == s,
{
    let n = s.scheduler.steps as nat;
    lemma_ticks(s, n);
    assert(triggered(s, n) =~= rhythm(s.scheduler));
    law_bar_has_its_hits(n, s.scheduler.hits as nat, s.scheduler.rotation as nat);
    div_mod::lemma_mod_self_0(n as int);
}

proof fn lemma_ticks(s: AppState, n: nat)
    requires
        s.scheduler.valid(),
        s.running,
        !s.paused,
        s.scheduler.current_step == 0,
        n <= s.scheduler.steps,
    ensures
        after_ticks(s, n) == (AppState {
            scheduler: SchedulerState {
                current_step: (n % (s.scheduler.steps as nat)) as usize,
                ..s.scheduler
            },
            ..s
        }),
        triggered(s, n) == rhythm(s.scheduler).take(n as int),
    decreases n,
{
    let steps = s.scheduler.steps as nat;
    if n == 0 {
        div_mod::lemma_small_mod(0, steps);
        assert(triggered(s, n) =~= rhythm(s.scheduler).take(0));
    } else {
        let m = (n - 1) as nat;
        lemma_ticks(s, m);
        div_mod::lemma_small_mod(m, steps);
        let all = rhythm(s.scheduler);
        assert(all.take(n as int) =~= all.take(m as int).push(all[m as int]));
    }
}

/// A scheduler that was stopped or paused stays where it is and triggers nothing.
pub proof fn law_paused_scheduler_rests(s: AppState)
    ensures
        !s.running ==> ticked(s) == (s, Tick::Stop),
        s.running && s.paused ==> ticked(s) == (s, Tick::Rest),
        ticked(s).1 == Tick::Stop <==> !s.running,
{
}

/// The line under the pattern counts steps from one, and shows the number of steps and the
/// rotation.
pub proof fn law_step_line(s: SchedulerState)
    ensures
        step_line(s) == "Step: "@ + text::decimal((s.current_step + 1) as nat) + "/"@ + text::decimal(
            s.steps as nat,
        ) + " | Rotation: "@ + text::decimal(s.rotation as nat),
{
}

} // verus!
