//! A map with string keys, kept in the order of its keys.
use vstd::prelude::*;

use crate::text;

verus! {

/// A map from strings to `V`. The entries are held in ascending key order, each
/// key once.
#[derive(Debug)]
pub struct TextMap<V> {
    pub(crate) entries: Vec<(String, V)>,
}

/// Every key comes before all keys that follow it.
pub open spec fn ascending<V>(s: Seq<(String, V)>) -> bool {
    forall|i: int, j: int| 0 <= i < j < s.len() ==> text::before(#[trigger] s[i].0@, #[trigger] s[j].0@)
}

/// No two entries have the same key.
pub open spec fn distinct<V>(s: Seq<(String, V)>) -> bool {
    forall|i: int, j: int| 0 <= i < j < s.len() ==> #[trigger] s[i].0@ != #[trigger] s[j].0@
}

/// The map that a list of entries stands for.
pub open spec fn entries_map<V>(s: Seq<(String, V)>) -> Map<Seq<char>, V>
    decreases s.len(),
{
    if s.len() == 0 {
        Map::empty()
    } else {
        entries_map(s.drop_last()).insert(s.last().0@, s.last().1)
    }
}

/// The keys of a list of entries.
pub open spec fn entry_keys<V>(s: Seq<(String, V)>) -> Seq<Seq<char>> {
    s.map_values(|e: (String, V)| e.0@)
}

/// Ascending keys are distinct.
pub proof fn lemma_ascending_distinct<V>(s: Seq<(String, V)>)
    requires
        ascending(s),
    ensures
        distinct(s),
{
    assert forall|i: int, j: int| 0 <= i < j < s.len() implies #[trigger] s[i].0@
        != #[trigger] s[j].0@ by {
        if s[i].0@ == s[j].0@ {
            text::lemma_before_irreflexive(s[i].0@);
        }
    }
}

/// What a list of entries with distinct keys maps to what.
pub proof fn lemma_entries_map<V>(s: Seq<(String, V)>)
    requires
        distinct(s),
    ensures
        forall|i: int| 0 <= i < s.len() ==> entries_map(s).dom().contains(#[trigger] s[i].0@),
        forall|i: int| 0 <= i < s.len() ==> entries_map(s)[#[trigger] s[i].0@] == s[i].1,
        forall|k: Seq<char>| #[trigger]
            entries_map(s).dom().contains(k) ==> exists|i: int|
                0 <= i < s.len() && #[trigger] s[i].0@ == k,
        entries_map(s).dom().finite(),
        entries_map(s).dom().len() == s.len(),
    decreases s.len(),
{
    if s.len() > 0 {
        let init = s.drop_last();
        assert(distinct(init));
        lemma_entries_map(init);
        assert forall|i: int| 0 <= i < s.len() implies entries_map(s).dom().contains(
            #[trigger] s[i].0@,
        ) && entries_map(s)[s[i].0@] == s[i].1 by {
            if i < s.len() - 1 {
                assert(init[i] == s[i]);
                assert(init[i].0@ != s[s.len() - 1].0@);
            }
        }
        assert forall|k: Seq<char>| #[trigger]
            entries_map(s).dom().contains(k) implies exists|i: int|
            0 <= i < s.len() && #[trigger] s[i].0@ == k by {
            if k == s.last().0@ {
                assert(s[s.len() - 1].0@ == k);
            } else {
                assert(entries_map(init).dom().contains(k));
                let i = choose|i: int| 0 <= i < init.len() && #[trigger] init[i].0@ == k;
                assert(s[i].0@ == k);
            }
        }
        if entries_map(init).dom().contains(s.last().0@) {
            let i = choose|i: int| 0 <= i < init.len() && #[trigger] init[i].0@ == s.last().0@;
            assert(s[i].0@ == s[s.len() - 1].0@);
        }
    }
}

/// `s` with the entry `e` put at position `i`, in place of the entry there where
/// that one has the same key.
pub open spec fn put_at<V>(s: Seq<(String, V)>, i: int, e: (String, V)) -> Seq<(String, V)> {
    if i < s.len() && s[i].0@ == e.0@ {
        s.remove(i).insert(i, e)
    } else {
        s.insert(i, e)
    }
}

/// Putting an entry where its key belongs keeps the order and sets the key.
pub proof fn lemma_put_at<V>(s: Seq<(String, V)>, i: int, e: (String, V))
    requires
        ascending(s),
        0 <= i <= s.len(),
        forall|j: int| 0 <= j < i ==> text::before(#[trigger] s[j].0@, e.0@),
        i < s.len() ==> !text::before(s[i].0@, e.0@),
    ensures
        ascending(put_at(s, i, e)),
        entries_map(put_at(s, i, e)) == entries_map(s).insert(e.0@, e.1),
{
    let t = put_at(s, i, e);
    let replaced = i < s.len() && s[i].0@ == e.0@;
    let shift: int = if replaced {
        0
    } else {
        1
    };
    assert forall|j: int| i < j < t.len() implies text::before(e.0@, #[trigger] t[j].0@) by {
        let o = j - shift;
        assert(t[j] == s[o]);
        if replaced {
            assert(text::before(s[i].0@, s[o].0@));
        } else {
            text::lemma_before_total(s[i].0@, e.0@);
            if o > i {
                assert(text::before(s[i].0@, s[o].0@));
                text::lemma_before_transitive(e.0@, s[i].0@, s[o].0@);
            }
        }
    }
    assert forall|a: int, b: int| 0 <= a < b < t.len() implies text::before(
        #[trigger] t[a].0@,
        #[trigger] t[b].0@,
    ) by {
        let oa = if a < i {
            a
        } else {
            a - shift
        };
        let ob = if b < i {
            b
        } else {
            b - shift
        };
        if a != i && b != i {
            assert(t[a] == s[oa]);
            assert(t[b] == s[ob]);
        } else if b == i {
            assert(t[a] == s[a]);
        }
    }
    lemma_ascending_distinct(s);
    lemma_ascending_distinct(t);
    lemma_entries_map(s);
    lemma_entries_map(t);
    let m = entries_map(s).insert(e.0@, e.1);
    assert(t[i] == e);
    assert forall|k: Seq<char>| entries_map(t).dom().contains(k) == m.dom().contains(k) by {
        if entries_map(t).dom().contains(k) {
            let j = choose|j: int| 0 <= j < t.len() && #[trigger] t[j].0@ == k;
            if j != i {
                let o = if j < i {
                    j
                } else {
                    j - shift
                };
                assert(t[j] == s[o]);
                assert(entries_map(s).dom().contains(s[o].0@));
            }
        }
        if entries_map(s).dom().contains(k) && k != e.0@ {
            let j = choose|j: int| 0 <= j < s.len() && #[trigger] s[j].0@ == k;
            let o = if j < i {
                j
            } else {
                j + shift
            };
            assert(t[o] == s[j]);
            assert(entries_map(t).dom().contains(t[o].0@));
        }
        assert(entries_map(t).dom().contains(t[i].0@));
    }
    assert forall|k: Seq<char>| m.dom().contains(k) implies entries_map(t)[k] == m[k] by {
        assert(entries_map(t)[t[i].0@] == t[i].1);
        if k != e.0@ {
            let j = choose|j: int| 0 <= j < s.len() && #[trigger] s[j].0@ == k;
            let o = if j < i {
                j
            } else {
                j + shift
            };
            assert(t[o] == s[j]);
            assert(entries_map(t)[t[o].0@] == t[o].1);
            assert(entries_map(s)[s[j].0@] == s[j].1);
        }
    }
    assert(entries_map(t) =~= m);
}

/// Taking an entry out removes its key.
pub proof fn lemma_remove_at<V>(s: Seq<(String, V)>, i: int)
    requires
        ascending(s),
        0 <= i < s.len(),
    ensures
        ascending(s.remove(i)),
        entries_map(s.remove(i)) == entries_map(s).remove(s[i].0@),
{
    let t = s.remove(i);
    lemma_ascending_distinct(s);
    assert(ascending(t));
    lemma_ascending_distinct(t);
    lemma_entries_map(s);
    lemma_entries_map(t);
    let m = entries_map(s).remove(s[i].0@);
    assert forall|k: Seq<char>| entries_map(t).dom().contains(k) == m.dom().contains(k) by {
        if entries_map(t).dom().contains(k) {
            let j = choose|j: int| 0 <= j < t.len() && #[trigger] t[j].0@ == k;
            let o = if j < i {
                j
            } else {
                j + 1
            };
            assert(t[j] == s[o]);
            assert(entries_map(s).dom().contains(s[o].0@));
            assert(s[o].0@ != s[i].0@);
        }
        if m.dom().contains(k) {
            let j = choose|j: int| 0 <= j < s.len() && #[trigger] s[j].0@ == k;
            let o = if j < i {
                j
            } else {
                j - 1
            };
            assert(t[o] == s[j]);
            assert(entries_map(t).dom().contains(t[o].0@));
        }
    }
    assert forall|k: Seq<char>| m.dom().contains(k) implies entries_map(t)[k] == m[k] by {
        let j = choose|j: int| 0 <= j < s.len() && #[trigger] s[j].0@ == k;
        let o = if j < i {
            j
        } else {
            j - 1
        };
        assert(t[o] == s[j]);
        assert(entries_map(t)[t[o].0@] == t[o].1);
        assert(entries_map(s)[s[j].0@] == s[j].1);
    }
    assert(entries_map(t) =~= m);
}

impl<V> View for TextMap<V> {
    type V = Map<Seq<char>, V>;

    closed spec fn view(&self) -> Map<Seq<char>, V> {
        entries_map(self.entries@)
    }
}

/// A map is made of its entries.
pub(crate) proof fn lemma_view_entries<V>(m: TextMap<V>)
    ensures
        m@ == entries_map(m.entries@),
        m.keys() == entry_keys(m.entries@),
{
}

/// The map with the given entries.
pub(crate) fn from_entries<V>(entries: Vec<(String, V)>) -> (r: TextMap<V>)
    requires
        ascending(entries@),
    ensures
        r.entries@ == entries@,
{
    TextMap { entries }
}

impl<V> TextMap<V> {
    #[verifier::type_invariant]
    pub(crate) open spec fn inv(&self) -> bool {
        ascending(self.entries@)
    }

    /// The keys in ascending order.
    pub closed spec fn keys(&self) -> Seq<Seq<char>> {
        entry_keys(self.entries@)
    }

    /// A map without entries.
    pub fn new() -> (r: Self)
        ensures
            r@ == Map::<Seq<char>, V>::empty(),
            r.keys() == Seq::<Seq<char>>::empty(),
    {
        let r = TextMap { entries: Vec::new() };
        assert(r.keys() =~= Seq::<Seq<char>>::empty());
        r
    }

    /// The number of entries.
    pub fn len(&self) -> (r: usize)
        ensures
            r == self@.dom().len(),
            r == self.keys().len(),
            self@.dom().finite(),
    {
        proof {
            use_type_invariant(self);
            lemma_ascending_distinct(self.entries@);
            lemma_entries_map(self.entries@);
        }
        self.entries.len()
    }

    /// The value under `key`.
    pub fn get(&self, key: &str) -> (r: Option<&V>)
        ensures
            match r {
                Some(v) => self@.dom().contains(key@) && *v == self@[key@],
                None => !self@.dom().contains(key@),
            },
    {
        proof {
            use_type_invariant(self);
            lemma_ascending_distinct(self.entries@);
            lemma_entries_map(self.entries@);
        }
        let mut i: usize = 0;
        while i < self.entries.len()
            invariant
                i <= self.entries@.len(),
                forall|j: int| 0 <= j < i ==> #[trigger] self.entries@[j].0@ != key@,
                forall|j: int|
                    0 <= j < self.entries@.len() ==> self@.dom().contains(
                        #[trigger] self.entries@[j].0@,
                    ) && self@[self.entries@[j].0@] == self.entries@[j].1,
            decreases self.entries@.len() - i,
        {
            if text::same(self.entries[i].0.as_str(), key) {
                return Some(&self.entries[i].1);
            }
            i = i + 1;
        }
        None
    }

    /// Sets the value under `key`.
    pub fn insert(&mut self, key: String, value: V)
        ensures
            final(self)@ == old(self)@.insert(key@, value),
    {
        proof {
            use_type_invariant(&*self);
            lemma_ascending_distinct(self.entries@);
            lemma_entries_map(self.entries@);
        }
        let mut i: usize = 0;
        while i < self.entries.len() && text::less(self.entries[i].0.as_str(), key.as_str())
            invariant
                i <= self.entries@.len(),
                forall|j: int| 0 <= j < i ==> text::before(#[trigger] self.entries@[j].0@, key@),
            decreases self.entries@.len() - i,
        {
            i = i + 1;
        }
        let ghost entry = (key, value);
        let ghost at = i as int;
        let ghost start = self.entries@;
        let present = i < self.entries.len() && text::same(self.entries[i].0.as_str(), key.as_str());
        proof {
            lemma_put_at(start, at, entry);
        }
        let mut entries: Vec<(String, V)> = Vec::new();
        std::mem::swap(&mut entries, &mut self.entries);
        if present {
            entries.remove(i);
        }
        entries.insert(i, (key, value));
        assert(entries@ == put_at(start, at, entry));
        self.entries = entries;
    }

    /// Takes the entry under `key` out and gives back its value.
    pub fn remove(&mut self, key: &str) -> (r: Option<V>)
        ensures
            final(self)@ == old(self)@.remove(key@),
            match r {
                Some(v) => old(self)@.dom().contains(key@) && v == old(self)@[key@],
                None => !old(self)@.dom().contains(key@),
            },
    {
        proof {
            use_type_invariant(&*self);
            lemma_ascending_distinct(self.entries@);
            lemma_entries_map(self.entries@);
        }
        let ghost start = self.entries@;
        let mut i: usize = 0;
        while i < self.entries.len()
            invariant
                i <= self.entries@.len(),
                self.entries@ == start,
                self@ == old(self)@,
                old(self)@ == entries_map(start),
                ascending(start),
                forall|j: int| 0 <= j < i ==> #[trigger] self.entries@[j].0@ != key@,
                forall|j: int|
                    0 <= j < start.len() ==> entries_map(start).dom().contains(
                        #[trigger] start[j].0@,
                    ) && entries_map(start)[start[j].0@] == start[j].1,
            decreases self.entries@.len() - i,
        {
            if text::same(self.entries[i].0.as_str(), key) {
                proof {
                    lemma_remove_at(start, i as int);
                }
                let mut entries: Vec<(String, V)> = Vec::new();
                std::mem::swap(&mut entries, &mut self.entries);
                let entry = entries.remove(i);
                self.entries = entries;
                return Some(entry.1);
            }
            i = i + 1;
        }
        assert(old(self)@.remove(key@) =~= old(self)@);
        None
    }

    /// The key at a position of the ascending order.
    pub fn key_at(&self, i: usize) -> (r: &String)
        requires
            i < self.keys().len(),
        ensures
            r@ == self.keys()[i as int],
            self@.dom().contains(r@),
    {
        proof {
            use_type_invariant(self);
            lemma_ascending_distinct(self.entries@);
            lemma_entries_map(self.entries@);
        }
        &self.entries[i].0
    }

    /// The value at a position of the ascending order of keys.
    pub fn value_at(&self, i: usize) -> (r: &V)
        requires
            i < self.keys().len(),
        ensures
            self@.dom().contains(self.keys()[i as int]),
            *r == self@[self.keys()[i as int]],
    {
        proof {
            use_type_invariant(self);
            lemma_ascending_distinct(self.entries@);
            lemma_entries_map(self.entries@);
            assert(self.keys()[i as int] == self.entries@[i as int].0@);
        }
        &self.entries[i].1
    }

    /// The keys are those of the map, each once, in ascending order.
    pub fn sorted_keys(&self) -> (r: Vec<String>)
        ensures
            text::views(r@) == self.keys(),
            forall|i: int, j: int|
                0 <= i < j < self.keys().len() ==> text::before(
                    #[trigger] self.keys()[i],
                    #[trigger] self.keys()[j],
                ),
            forall|k: Seq<char>| #[trigger] self.keys().contains(k) <==> self@.dom().contains(k),
    {
        proof {
            use_type_invariant(self);
            lemma_ascending_distinct(self.entries@);
            lemma_entries_map(self.entries@);
        }
        let mut out: Vec<String> = Vec::new();
        let mut i: usize = 0;
        while i < self.entries.len()
            invariant
                i <= self.entries@.len(),
                out@.len() == i,
                forall|j: int| 0 <= j < i ==> out@[j]@ == #[trigger] self.entries@[j].0@,
            decreases self.entries@.len() - i,
        {
            out.push(self.entries[i].0.clone());
            i = i + 1;
        }
        assert(text::views(out@) =~= self.keys());
        assert forall|k: Seq<char>| #[trigger] self.keys().contains(k) <==> self@.dom().contains(k) by {
            if self.keys().contains(k) {
                let j = choose|j: int| 0 <= j < self.keys().len() && self.keys()[j] == k;
                assert(self.entries@[j].0@ == k);
            }
            if self@.dom().contains(k) {
                let j = choose|j: int| 0 <= j < self.entries@.len() && #[trigger] self.entries@[j].0@ == k;
                assert(self.keys()[j] == k);
            }
        }
        out
    }
}

} // verus!
