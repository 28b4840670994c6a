//! Loop prevention by origin tags and duplicate suppression.
//!
//! Each bridge has a unique id and stamps it on every outbound action as the
//! origin; an inbound action with the bridge's own origin has looped back and is
//! dropped. Actions are forwarded to other peers with their origin preserved, so
//! a message can also reach a bridge twice by different paths. Every message
//! carries a unique id, and the guard remembers the ids that it saw last, so
//! that a message is processed at most once.
use std::collections::VecDeque;

use vstd::prelude::*;

use crate::bridge::ids;
use crate::text;

verus! {

/// How many message ids are remembered. The oldest are forgotten first.
pub const SEEN_CAP: usize = 4096;

/// The message ids seen last, oldest first.
#[derive(Debug)]
pub struct SeenSet {
    order: VecDeque<String>,
}

/// No id is listed twice.
pub open spec fn all_distinct(s: Seq<Seq<char>>) -> bool {
    forall|i: int, j: int| 0 <= i < j < s.len() ==> #[trigger] s[i] != #[trigger] s[j]
}

/// The remembered ids after a message id was seen: a known one changes nothing,
/// a new one is added and, at capacity, pushes the oldest out.
pub open spec fn remember(seen: Seq<Seq<char>>, id: Seq<char>) -> Seq<Seq<char>> {
    if seen.contains(id) {
        seen
    } else if seen.len() < SEEN_CAP {
        seen.push(id)
    } else {
        seen.skip(1).push(id)
    }
}

/// The remembered ids after a list of message ids was seen.
pub open spec fn remember_all(seen: Seq<Seq<char>>, ids: Seq<Seq<char>>) -> Seq<Seq<char>>
    decreases ids.len(),
{
    if ids.len() == 0 {
        seen
    } else {
        remember(remember_all(seen, ids.drop_last()), ids.last())
    }
}

impl View for SeenSet {
    type V = Seq<Seq<char>>;

    closed spec fn view(&self) -> Seq<Seq<char>> {
        text::views(self.order@)
    }
}

impl SeenSet {
    #[verifier::type_invariant]
    spec fn inv(&self) -> bool {
        self.order@.len() <= SEEN_CAP && all_distinct(text::views(self.order@))
    }

    /// Nothing seen.
    pub fn new() -> (r: Self)
        ensures
            r@ == Seq::<Seq<char>>::empty(),
    {
        let r = SeenSet { order: VecDeque::new() };
        assert(r@ =~= Seq::<Seq<char>>::empty());
        r
    }

    fn contains(&self, id: &str) -> (r: bool)
        ensures
            r == self@.contains(id@),
    {
        let mut i: usize = 0;
        while i < self.order.len()
            invariant
                i <= self.order@.len(),
                forall|j: int| 0 <= j < i ==> #[trigger] self.order@[j]@ != id@,
            decreases self.order@.len() - i,
        {
            if text::same(self.order[i].as_str(), id) {
                assert(self@[i as int] == id@);
                return true;
            }
            i = i + 1;
        }
        assert forall|j: int| 0 <= j < self@.len() implies self@[j] != id@ by {
            assert(self@[j] == self.order@[j]@);
        }
        false
    }

    /// Remembers an id, and tells whether it is new.
    pub fn record(&mut self, id: &str) -> (r: bool)
        ensures
            r == !old(self)@.contains(id@),
            final(self)@ == remember(old(self)@, id@),
            final(self)@.len() <= SEEN_CAP,
            all_distinct(final(self)@),
    {
        proof {
            use_type_invariant(&*self);
        }
        if self.contains(id) {
            return false;
        }
        let ghost start = self@;
        let mut order: VecDeque<String> = VecDeque::new();
        std::mem::swap(&mut order, &mut self.order);
        let ghost first = order@;
        if order.len() >= SEEN_CAP {
            order.pop_front();
            assert(text::views(order@) =~= start.skip(1));
        } else {
            assert(text::views(order@) =~= start);
        }
        let ghost kept = order@;
        order.push_back(id.to_owned());
        assert(text::views(order@) =~= text::views(kept).push(id@));
        assert(all_distinct(text::views(order@))) by {
            let s = text::views(order@);
            assert forall|i: int, j: int| 0 <= i < j < s.len() implies #[trigger] s[i]
                != #[trigger] s[j] by {
                let shift: int = if start.len() < SEEN_CAP {
                    0
                } else {
                    1
                };
                assert(s[i] == start[i + shift]);
                if j < s.len() - 1 {
                    assert(s[j] == start[j + shift]);
                } else {
                    assert(start.contains(start[i + shift]));
                }
            }
        }
        self.order = order;
        true
    }
}

/// Loop prevention of a bridge.
#[derive(Debug)]
pub struct LoopGuard {
    bridge_id: String,
    seen: SeenSet,
}

impl LoopGuard {
    /// The id of the bridge.
    pub closed spec fn id(&self) -> Seq<char> {
        self.bridge_id@
    }

    /// The remembered message ids, oldest first.
    pub closed spec fn seen(&self) -> Seq<Seq<char>> {
        self.seen@
    }

    /// A guard with a random bridge id.
    pub fn new() -> (r: Self)
        ensures
            ids::is_uuid_text(r.id()),
            r.seen() == Seq::<Seq<char>>::empty(),
    {
        LoopGuard::with_id(ids::new_uuid())
    }

    /// A guard with the given bridge id.
    pub fn with_id(bridge_id: String) -> (r: Self)
        ensures
            r.id() == bridge_id@,
            r.seen() == Seq::<Seq<char>>::empty(),
    {
        LoopGuard { bridge_id, seen: SeenSet::new() }
    }

    /// The id of the bridge.
    pub fn bridge_id(&self) -> (r: &str)
        ensures
            r@ == self.id(),
    {
        self.bridge_id.as_str()
    }

    /// Whether an inbound action has looped back: its origin is this bridge.
    pub fn is_loop(&self, origin: &str) -> (r: bool)
        ensures
            r == (origin@ == self.id()),
    {
        text::same(origin, self.bridge_id.as_str())
    }

    /// Records a message id. True on the first sighting, false for a duplicate,
    /// which is to be dropped.
    pub fn check_and_record(&mut self, msg_id: &str) -> (r: bool)
        ensures
            r == !old(self).seen().contains(msg_id@),
            final(self).seen() == remember(old(self).seen(), msg_id@),
            final(self).id() == old(self).id(),
            final(self).seen().len() <= SEEN_CAP,
            all_distinct(final(self).seen()),
    {
        self.seen.record(msg_id)
    }
}

impl Default for LoopGuard {
    fn default() -> (r: Self)
        ensures
            ids::is_uuid_text(r.id()),
            r.seen() == Seq::<Seq<char>>::empty(),
    {
        LoopGuard::new()
    }
}

// ---------------------------------------------------------------------------
// Laws
// ---------------------------------------------------------------------------

/// What was recorded is a duplicate from then on.
pub proof fn law_recorded_is_duplicate(seen: Seq<Seq<char>>, id: Seq<char>)
    ensures
        remember(seen, id).contains(id),
        remember(remember(seen, id), id) == remember(seen, id),
{
    let after = remember(seen, id);
    if !seen.contains(id) {
        assert(after[after.len() - 1] == id);
    }
}

proof fn lemma_position(seen: Seq<Seq<char>>, id: Seq<char>, ids: Seq<Seq<char>>) -> (p: int)
    requires
        seen.len() <= SEEN_CAP,
        seen.len() > 0 && seen.last() == id,
        ids.len() < SEEN_CAP,
    ensures
        0 <= p < remember_all(seen, ids).len(),
        remember_all(seen, ids)[p] == id,
        remember_all(seen, ids).len() - p <= ids.len() + 1,
        remember_all(seen, ids).len() <= SEEN_CAP,
    decreases ids.len(),
{
    if ids.len() == 0 {
        seen.len() - 1
    } else {
        let p = lemma_position(seen, id, ids.drop_last());
        let before = remember_all(seen, ids.drop_last());
        let after = remember_all(seen, ids);
        if before.contains(ids.last()) {
            p
        } else if before.len() < SEEN_CAP {
            assert(after[p] == before[p]);
            p
        } else {
            assert(after[p - 1] == before[p]);
            p - 1
        }
    }
}

/// A message is processed at most once among any `SEEN_CAP` messages: after a new
/// id was recorded, it is still known after fewer than `SEEN_CAP` further ids.
pub proof fn law_new_id_stays_known(
    seen: Seq<Seq<char>>,
    id: Seq<char>,
    ids: Seq<Seq<char>>,
)
    requires
        seen.len() <= SEEN_CAP,
        !seen.contains(id),
        ids.len() < SEEN_CAP,
    ensures
        remember_all(remember(seen, id), ids).contains(id),
{
    let p = lemma_position(remember(seen, id), id, ids);
    assert(remember_all(remember(seen, id), ids)[p] == id);
}

/// At capacity a new id pushes exactly the oldest one out.
pub proof fn law_oldest_is_evicted(seen: Seq<Seq<char>>, id: Seq<char>)
    requires
        seen.len() == SEEN_CAP,
        all_distinct(seen),
        !seen.contains(id),
    ensures
        !remember(seen, id).contains(seen[0]),
        forall|i: int| 0 < i < seen.len() ==> remember(seen, id).contains(#[trigger] seen[i]),
        remember(seen, id).len() == SEEN_CAP,
{
    let after = remember(seen, id);
    assert(seen.contains(seen[0]));
    if after.contains(seen[0]) {
        let i = choose|i: int| 0 <= i < after.len() && after[i] == seen[0];
        if i < after.len() - 1 {
            assert(after[i] == seen[i + 1]);
        }
    }
    assert forall|i: int| 0 < i < seen.len() implies after.contains(#[trigger] seen[i]) by {
        assert(after[i - 1] == seen[i]);
    }
}

/// A known id changes nothing, not even the order in which ids are forgotten.
pub proof fn law_known_id_changes_nothing(seen: Seq<Seq<char>>, id: Seq<char>)
    requires
        seen.contains(id),
    ensures
        remember(seen, id) == seen,
{
}

/// Different ids are remembered in the order in which they came: the latest 4096 of them,
/// whatever was seen before.
pub proof fn law_latest_ids_are_remembered(ids: Seq<Seq<char>>)
    requires
        all_distinct(ids),
    ensures
        ids.len() <= 4096 ==> remember_all(Seq::empty(), ids) == ids,
        ids.len() > 4096 ==> remember_all(Seq::empty(), ids) == ids.skip(ids.len() - 4096),
    decreases ids.len(),
{
    if ids.len() > 0 {
        let init = ids.drop_last();
        let last = ids.last();
        assert(all_distinct(init)) by {
            assert forall|i: int, j: int| 0 <= i < j < init.len() implies #[trigger] init[i]
                != #[trigger] init[j] by {
                assert(ids[i] != ids[j]);
            }
        }
        law_latest_ids_are_remembered(init);
        let before = remember_all(Seq::empty(), init);
        let skipped: int = if init.len() <= 4096 {
            0
        } else {
            init.len() - 4096
        };
        assert(before =~= init.skip(skipped));
        if before.contains(last) {
            let i = choose|i: int| 0 <= i < before.len() && before[i] == last;
            assert(before[i] == ids[i + skipped]);
            assert(ids[i + skipped] != ids[ids.len() - 1]);
        }
        if init.len() < 4096 {
            assert(remember_all(Seq::empty(), ids) =~= ids);
        } else {
            assert(remember_all(Seq::empty(), ids) =~= ids.skip(ids.len() - 4096));
        }
    } else {
        assert(ids =~= Seq::empty());
    }
}

} // verus!
