//! Character-level text helpers.
//!
//! A string is modelled by the sequence of its characters. Everything that the
//! rest of the crate needs from strings (splitting, joining, replacing,
//! comparing, reading and writing numbers) is stated and proved here over that
//! model.
use vstd::prelude::*;

verus! {

/// `String::push` appends the given character to the end of the string.
pub assume_specification[ std::string::String::push ](s: &mut std::string::String, c: char)
    ensures
        final(s)@ == old(s)@.push(c),
;

/// The characters of each string of a list.
pub open spec fn views(v: Seq<String>) -> Seq<Seq<char>> {
    v.map_values(|s: String| s@)
}

/// The characters of a string, as a vector.
pub fn chars_of(s: &str) -> (r: Vec<char>)
    ensures
        r@ == s@,
{
    let mut out: Vec<char> = Vec::new();
    for c in it: s.chars()
        invariant
            it.seq() == s@,
            out@ == s@.take(it.index() as int),
    {
        out.push(c);
    }
    assert(s@.take(s@.len() as int) == s@);
    out
}

/// The string made of the given characters.
pub fn string_of(v: &[char]) -> (r: String)
    ensures
        r@ == v@,
{
    let mut out = String::new();
    let mut i: usize = 0;
    while i < v.len()
        invariant
            i <= v@.len(),
            out@ == v@.take(i as int),
        decreases v@.len() - i,
    {
        out.push(v[i]);
        i = i + 1;
        assert(out@ =~= v@.take(i as int));
    }
    assert(v@.take(v@.len() as int) == v@);
    out
}

/// The string made of the characters from `from` up to `to`.
pub fn string_between(v: &Vec<char>, from: usize, to: usize) -> (r: String)
    requires
        from <= to <= v@.len(),
    ensures
        r@ == v@.subrange(from as int, to as int),
{
    let mut out = String::new();
    let mut i: usize = from;
    while i < to
        invariant
            from <= i <= to <= v@.len(),
            out@ == v@.subrange(from as int, i as int),
        decreases to - i,
    {
        out.push(v[i]);
        i = i + 1;
        assert(out@ =~= v@.subrange(from as int, i as int));
    }
    out
}

/// Whether two strings hold the same characters.
pub fn same(a: &str, b: &str) -> (r: bool)
    ensures
        r == (a@ == b@),
{
    let x = chars_of(a);
    let y = chars_of(b);
    same_chars(&x, &y)
}

/// Whether two character vectors are equal.
pub fn same_chars(x: &Vec<char>, y: &Vec<char>) -> (r: bool)
    ensures
        r == (x@ == y@),
{
    if x.len() != y.len() {
        return false;
    }
    let mut i: usize = 0;
    while i < x.len()
        invariant
            i <= x@.len(),
            x@.len() == y@.len(),
            forall|j: int| 0 <= j < i ==> x@[j] == y@[j],
        decreases x@.len() - i,
    {
        if x[i] != y[i] {
            return false;
        }
        i = i + 1;
    }
    assert(x@ =~= y@);
    true
}

/// A list of copies of the given strings.
pub fn clone_strings(v: &Vec<String>) -> (r: Vec<String>)
    ensures
        views(r@) == views(v@),
{
    let mut out: Vec<String> = Vec::new();
    let mut i: usize = 0;
    while i < v.len()
        invariant
            i <= v@.len(),
            out@.len() == i,
            forall|j: int| 0 <= j < i ==> out@[j]@ == v@[j]@,
        decreases v@.len() - i,
    {
        out.push(v[i].clone());
        i = i + 1;
    }
    assert(views(out@) =~= views(v@));
    out
}

/// A copy of an optional string.
pub fn clone_opt(v: &Option<String>) -> (r: Option<String>)
    ensures
        opt_view(r) == opt_view(*v),
{
    match v {
        Some(s) => Some(s.clone()),
        None => None,
    }
}

/// The characters of an optional string.
pub open spec fn opt_view(v: Option<String>) -> Option<Seq<char>> {
    match v {
        Some(s) => Some(s@),
        None => None,
    }
}

/// The position of the first string of the list that equals `key`.
pub fn position_of(v: &Vec<String>, key: &str) -> (r: Option<usize>)
    ensures
        match r {
            Some(i) => i < v@.len() && v@[i as int]@ == key@ && forall|j: int|
                0 <= j < i ==> #[trigger] v@[j]@ != key@,
            None => !views(v@).contains(key@),
        },
{
    let mut i: usize = 0;
    while i < v.len()
        invariant
            i <= v@.len(),
            forall|j: int| 0 <= j < i ==> #[trigger] v@[j]@ != key@,
        decreases v@.len() - i,
    {
        if same(v[i].as_str(), key) {
            return Some(i);
        }
        i = i + 1;
    }
    assert forall|j: int| 0 <= j < views(v@).len() implies views(v@)[j] != key@ by {
        assert(views(v@)[j] == v@[j]@);
    }
    None
}

/// Whether a list of strings holds `key`.
pub fn list_contains(v: &Vec<String>, key: &str) -> (r: bool)
    ensures
        r == views(v@).contains(key@),
{
    match position_of(v, key) {
        Some(i) => {
            assert(views(v@)[i as int] == key@);
            true
        },
        None => false,
    }
}

// ---------------------------------------------------------------------------
// Order
// ---------------------------------------------------------------------------

/// Lexicographic order of character sequences, the order that `str` has.
pub open spec fn before(a: Seq<char>, b: Seq<char>) -> bool
    decreases a.len(),
{
    if b.len() == 0 {
        false
    } else if a.len() == 0 {
        true
    } else if a[0] != b[0] {
        a[0] < b[0]
    } else {
        before(a.skip(1), b.skip(1))
    }
}

/// No sequence comes before itself.
pub proof fn lemma_before_irreflexive(a: Seq<char>)
    ensures
        !before(a, a),
    decreases a.len(),
{
    if a.len() > 0 {
        lemma_before_irreflexive(a.skip(1));
    }
}

/// The order is transitive.
pub proof fn lemma_before_transitive(a: Seq<char>, b: Seq<char>, c: Seq<char>)
    requires
        before(a, b),
        before(b, c),
    ensures
        before(a, c),
    decreases a.len(),
{
    if a.len() > 0 && b.len() > 0 && c.len() > 0 && a[0] == b[0] && b[0] == c[0] {
        lemma_before_transitive(a.skip(1), b.skip(1), c.skip(1));
    }
}

/// Of two different sequences exactly one comes before the other.
pub proof fn lemma_before_total(a: Seq<char>, b: Seq<char>)
    requires
        a != b,
    ensures
        before(a, b) != before(b, a),
    decreases a.len(),
{
    if a.len() > 0 && b.len() > 0 && a[0] == b[0] {
        if a.skip(1) == b.skip(1) {
            assert(a =~= seq![a[0]] + a.skip(1));
            assert(b =~= seq![b[0]] + b.skip(1));
        }
        lemma_before_total(a.skip(1), b.skip(1));
    } else if a.len() == 0 && b.len() == 0 {
        assert(a =~= b);
    }
}

/// Whether `a` comes before `b` in the order of strings.
pub fn less(a: &str, b: &str) -> (r: bool)
    ensures
        r == before(a@, b@),
{
    let x = chars_of(a);
    let y = chars_of(b);
    let mut i: usize = 0;
    assert(x@.skip(0) =~= x@);
    assert(y@.skip(0) =~= y@);
    while i < x.len() && i < y.len()
        invariant
            i <= x@.len(),
            i <= y@.len(),
            x@ == a@,
            y@ == b@,
            before(a@, b@) == before(x@.skip(i as int), y@.skip(i as int)),
        decreases x@.len() - i,
    {
        if x[i] != y[i] {
            return x[i] < y[i];
        }
        assert(x@.skip(i as int).skip(1) =~= x@.skip(i as int + 1));
        assert(y@.skip(i as int).skip(1) =~= y@.skip(i as int + 1));
        i = i + 1;
    }
    i < y.len()
}

// ---------------------------------------------------------------------------
// Searching
// ---------------------------------------------------------------------------

/// Whether the characters include `c`.
pub fn has_char(v: &Vec<char>, c: char) -> (r: bool)
    ensures
        r == v@.contains(c),
{
    let mut i: usize = 0;
    while i < v.len()
        invariant
            i <= v@.len(),
            forall|j: int| 0 <= j < i ==> v@[j] != c,
        decreases v@.len() - i,
    {
        if v[i] == c {
            assert(v@.contains(c));
            return true;
        }
        i = i + 1;
    }
    false
}

/// How often `c` occurs.
pub open spec fn occurrences(s: Seq<char>, c: char) -> nat
    decreases s.len(),
{
    if s.len() == 0 {
        0
    } else {
        occurrences(s.drop_last(), c) + (if s.last() == c {
            1nat
        } else {
            0nat
        })
    }
}

/// How often `c` occurs.
pub fn count_char(v: &Vec<char>, c: char) -> (r: usize)
    ensures
        r == occurrences(v@, c),
{
    let mut i: usize = 0;
    let mut n: usize = 0;
    assert(v@.take(0) =~= Seq::empty());
    while i < v.len()
        invariant
            i <= v@.len(),
            n <= i,
            n == occurrences(v@.take(i as int), c),
        decreases v@.len() - i,
    {
        assert(v@.take(i as int + 1).drop_last() =~= v@.take(i as int));
        if v[i] == c {
            n = n + 1;
        }
        i = i + 1;
    }
    assert(v@.take(v@.len() as int) =~= v@);
    n
}

/// Whether `s` holds `pat` at position `at`.
pub open spec fn occurs_at(s: Seq<char>, pat: Seq<char>, at: int) -> bool {
    0 <= at && at + pat.len() <= s.len() && s.subrange(at, at + pat.len()) == pat
}

/// Whether `pat` occurs somewhere in `s`.
pub open spec fn has_substring(s: Seq<char>, pat: Seq<char>) -> bool {
    exists|at: int| occurs_at(s, pat, at)
}

/// Whether `pat` stands in `s` at position `at`.
pub fn at_position(s: &Vec<char>, pat: &Vec<char>, at: usize) -> (r: bool)
    requires
        at <= s@.len(),
    ensures
        r == occurs_at(s@, pat@, at as int),
{
    let n: usize = s.len();
    if pat.len() > n - at {
        return false;
    }
    let mut i: usize = 0;
    while i < pat.len()
        invariant
            i <= pat@.len(),
            n == s@.len(),
            at + pat@.len() <= n,
            forall|j: int| 0 <= j < i ==> s@[at + j] == pat@[j],
        decreases pat@.len() - i,
    {
        if s[at + i] != pat[i] {
            assert(s@.subrange(at as int, at + pat@.len())[i as int] != pat@[i as int]);
            return false;
        }
        i = i + 1;
    }
    assert(s@.subrange(at as int, at + pat@.len()) =~= pat@);
    true
}

/// Whether `pat` occurs somewhere in `s`.
pub fn contains_str(s: &Vec<char>, pat: &Vec<char>) -> (r: bool)
    ensures
        r == has_substring(s@, pat@),
{
    let mut i: usize = 0;
    while i <= s.len()
        invariant
            i <= s@.len() + 1,
            forall|j: int| 0 <= j < i ==> !occurs_at(s@, pat@, j),
        decreases s@.len() + 1 - i,
    {
        if at_position(s, pat, i) {
            return true;
        }
        if i == s.len() {
            return false;
        }
        i = i + 1;
    }
    false
}

/// Whether `s` begins with `prefix`.
pub open spec fn has_prefix(s: Seq<char>, prefix: Seq<char>) -> bool {
    prefix.len() <= s.len() && s.take(prefix.len() as int) == prefix
}

/// Whether `s` begins with `prefix`.
pub fn starts_with(s: &Vec<char>, prefix: &Vec<char>) -> (r: bool)
    ensures
        r == has_prefix(s@, prefix@),
{
    assert(prefix@.len() <= s@.len() ==> s@.subrange(0, prefix@.len() as int) =~= s@.take(
        prefix@.len() as int,
    ));
    at_position(s, prefix, 0)
}

// ---------------------------------------------------------------------------
// Splitting and joining
// ---------------------------------------------------------------------------

/// The pieces of `s` between occurrences of `sep`. There is always at least one.
pub open spec fn split_on(s: Seq<char>, sep: char) -> Seq<Seq<char>>
    decreases s.len(),
{
    if s.len() == 0 {
        seq![Seq::empty()]
    } else {
        let p = split_on(s.drop_last(), sep);
        if s.last() == sep {
            p.push(Seq::empty())
        } else {
            p.drop_last().push(p.last().push(s.last()))
        }
    }
}

/// The pieces in order, with `sep` between them.
pub open spec fn join_with(pieces: Seq<Seq<char>>, sep: char) -> Seq<char>
    decreases pieces.len(),
{
    if pieces.len() == 0 {
        Seq::empty()
    } else if pieces.len() == 1 {
        pieces[0]
    } else {
        join_with(pieces.drop_last(), sep).push(sep) + pieces.last()
    }
}

/// Splitting gives at least one piece.
pub proof fn lemma_split_nonempty(s: Seq<char>, sep: char)
    ensures
        split_on(s, sep).len() >= 1,
    decreases s.len(),
{
    if s.len() > 0 {
        lemma_split_nonempty(s.drop_last(), sep);
    }
}

/// Joining the pieces of a split gives the text back, and no piece holds the
/// separator.
pub proof fn lemma_join_split(s: Seq<char>, sep: char)
    ensures
        split_on(s, sep).len() >= 1,
        join_with(split_on(s, sep), sep) == s,
        forall|i: int| 0 <= i < split_on(s, sep).len() ==> !(#[trigger] split_on(s, sep)[i]).contains(sep),
    decreases s.len(),
{
    let pieces = split_on(s, sep);
    if s.len() == 0 {
        assert(pieces[0] =~= s);
    } else {
        let p = split_on(s.drop_last(), sep);
        lemma_join_split(s.drop_last(), sep);
        if s.last() == sep {
            assert(pieces.drop_last() =~= p);
            assert(join_with(pieces, sep) =~= s);
        } else {
            assert(pieces.drop_last() =~= p.drop_last());
            assert(join_with(pieces, sep) =~= join_with(p, sep).push(s.last()));
            assert(join_with(pieces, sep) =~= s);
            assert forall|i: int| 0 <= i < pieces.len() implies !(#[trigger] pieces[i]).contains(
                sep,
            ) by {
                if i < p.len() - 1 {
                    assert(pieces[i] == p[i]);
                } else {
                    assert(pieces[i] == p.last().push(s.last()));
                    assert(p[p.len() - 1] == p.last());
                    if pieces[i].contains(sep) {
                        let k = choose|k: int| 0 <= k < pieces[i].len() && pieces[i][k] == sep;
                        if k < p.last().len() {
                            assert(p.last()[k] == sep);
                            assert(p.last().contains(sep));
                        }
                    }
                }
            }
        }
    }
}

/// A text without the separator is one piece.
pub proof fn lemma_split_single(s: Seq<char>, sep: char)
    requires
        !s.contains(sep),
    ensures
        split_on(s, sep) == seq![s],
    decreases s.len(),
{
    if s.len() > 0 {
        assert forall|c: char| s.drop_last().contains(c) implies s.contains(c) by {
            let k = choose|k: int| 0 <= k < s.drop_last().len() && s.drop_last()[k] == c;
            assert(s[k] == c);
        }
        assert(s.contains(s.last())) by {
            assert(s[s.len() - 1] == s.last());
        }
        lemma_split_single(s.drop_last(), sep);
        assert(s.drop_last().push(s.last()) =~= s);
        assert(split_on(s, sep) =~= seq![s]);
    } else {
        assert(split_on(s, sep)[0] =~= s);
        assert(split_on(s, sep) =~= seq![s]);
    }
}

/// Splitting at a separator: the pieces before it, then those after it.
pub proof fn lemma_split_concat(a: Seq<char>, sep: char, b: Seq<char>)
    ensures
        split_on(a.push(sep) + b, sep) == split_on(a, sep) + split_on(b, sep),
    decreases b.len(),
{
    let s = a.push(sep) + b;
    lemma_split_nonempty(a, sep);
    lemma_split_nonempty(b, sep);
    if b.len() == 0 {
        assert(s.drop_last() =~= a);
        assert(split_on(s, sep) =~= split_on(a, sep) + split_on(b, sep));
    } else {
        assert(s.drop_last() =~= a.push(sep) + b.drop_last());
        assert(s.last() == b.last());
        lemma_split_concat(a, sep, b.drop_last());
        lemma_split_nonempty(b.drop_last(), sep);
        let pa = split_on(a, sep);
        let pb = split_on(b.drop_last(), sep);
        assert((pa + pb).last() == pb.last());
        assert(split_on(s, sep) =~= pa + split_on(b, sep));
    }
}

/// Splitting a joined list of separator-free pieces gives the list back.
pub proof fn lemma_split_join(pieces: Seq<Seq<char>>, sep: char)
    requires
        pieces.len() >= 1,
        forall|i: int| 0 <= i < pieces.len() ==> !(#[trigger] pieces[i]).contains(sep),
    ensures
        split_on(join_with(pieces, sep), sep) == pieces,
    decreases pieces.len(),
{
    if pieces.len() == 1 {
        lemma_split_single(pieces[0], sep);
        assert(pieces =~= seq![pieces[0]]);
    } else {
        let init = pieces.drop_last();
        assert forall|i: int| 0 <= i < init.len() implies !(#[trigger] init[i]).contains(sep) by {
            assert(init[i] == pieces[i]);
        }
        lemma_split_join(init, sep);
        lemma_split_concat(join_with(init, sep), sep, pieces.last());
        assert(!pieces[pieces.len() - 1].contains(sep));
        lemma_split_single(pieces.last(), sep);
        assert(pieces =~= init + seq![pieces.last()]);
    }
}

/// The pieces of the characters from `from` on, between occurrences of `sep`.
pub fn split(v: &Vec<char>, from: usize, sep: char) -> (r: Vec<String>)
    requires
        from <= v@.len(),
    ensures
        views(r@) == split_on(v@.skip(from as int), sep),
        r@.len() == split_on(v@.skip(from as int), sep).len(),
        r@.len() >= 1,
{
    let ghost s = v@.skip(from as int);
    let mut out: Vec<String> = Vec::new();
    let mut cur = String::new();
    let mut i: usize = from;
    assert(s.take(0) =~= Seq::empty());
    assert(split_on(s.take(0), sep) =~= views(out@).push(cur@));
    while i < v.len()
        invariant
            from <= i <= v@.len(),
            s == v@.skip(from as int),
            views(out@).push(cur@) == split_on(s.take(i - from), sep),
        decreases v@.len() - i,
    {
        let ghost p = split_on(s.take(i - from), sep);
        assert(s.take(i - from + 1).drop_last() =~= s.take(i - from));
        assert(s.take(i - from + 1).last() == v@[i as int]);
        assert(p.drop_last() =~= views(out@));
        assert(p.last() == cur@);
        if v[i] == sep {
            let ghost before_push = out@;
            out.push(cur);
            cur = String::new();
            assert(views(out@) =~= views(before_push).push(p.last()));
            assert(views(out@) =~= p);
        } else {
            cur.push(v[i]);
        }
        i = i + 1;
        assert(views(out@).push(cur@) =~= split_on(s.take(i - from), sep));
    }
    assert(s.take(s.len() as int) =~= s);
    let ghost before_push = out@;
    let ghost last = cur@;
    out.push(cur);
    assert(views(out@) =~= views(before_push).push(last));
    out
}

/// The pieces in order, with `sep` between them.
pub fn join(pieces: &Vec<String>, sep: char) -> (r: String)
    ensures
        r@ == join_with(views(pieces@), sep),
{
    let mut out = String::new();
    let mut i: usize = 0;
    assert(views(pieces@).take(0) =~= Seq::empty());
    while i < pieces.len()
        invariant
            i <= pieces@.len(),
            out@ == join_with(views(pieces@).take(i as int), sep),
        decreases pieces@.len() - i,
    {
        let ghost next = views(pieces@).take(i as int + 1);
        assert(next.drop_last() =~= views(pieces@).take(i as int));
        assert(next.last() == pieces@[i as int]@);
        if i > 0 {
            out.push(sep);
        }
        let ghost start = out@;
        out.append(pieces[i].as_str());
        if i == 0 {
            assert(out@ =~= next[0]);
        }
        i = i + 1;
    }
    assert(views(pieces@).take(pieces@.len() as int) =~= views(pieces@));
    out
}

/// The pieces in order, with the text `sep` between them.
pub open spec fn join_text(pieces: Seq<Seq<char>>, sep: Seq<char>) -> Seq<char>
    decreases pieces.len(),
{
    if pieces.len() == 0 {
        Seq::empty()
    } else if pieces.len() == 1 {
        pieces[0]
    } else {
        join_text(pieces.drop_last(), sep) + sep + pieces.last()
    }
}

/// The pieces in order, with the text `sep` between them.
pub fn join_str(pieces: &Vec<String>, sep: &str) -> (r: String)
    ensures
        r@ == join_text(views(pieces@), sep@),
{
    let mut out = String::new();
    let mut i: usize = 0;
    assert(views(pieces@).take(0) =~= Seq::empty());
    while i < pieces.len()
        invariant
            i <= pieces@.len(),
            out@ == join_text(views(pieces@).take(i as int), sep@),
        decreases pieces@.len() - i,
    {
        let ghost next = views(pieces@).take(i as int + 1);
        assert(next.drop_last() =~= views(pieces@).take(i as int));
        assert(next.last() == pieces@[i as int]@);
        if i > 0 {
            out.append(sep);
        }
        out.append(pieces[i].as_str());
        if i == 0 {
            assert(out@ =~= next[0]);
        }
        i = i + 1;
    }
    assert(views(pieces@).take(pieces@.len() as int) =~= views(pieces@));
    out
}

// ---------------------------------------------------------------------------
// Replacing
// ---------------------------------------------------------------------------

/// `s` with every occurrence of `pat`, found from the left and without overlap,
/// replaced by `with`. An empty `pat` occurs nowhere.
pub open spec fn replace_all(s: Seq<char>, pat: Seq<char>, with: Seq<char>) -> Seq<char>
    decreases s.len(),
{
    if pat.len() == 0 || s.len() < pat.len() {
        s
    } else if s.take(pat.len() as int) == pat {
        with + replace_all(s.skip(pat.len() as int), pat, with)
    } else {
        seq![s[0]] + replace_all(s.skip(1), pat, with)
    }
}

/// `s` with every occurrence of `pat` replaced by `with`.
pub fn replace(s: &Vec<char>, pat: &Vec<char>, with: &Vec<char>) -> (r: Vec<char>)
    requires
        pat@.len() > 0,
    ensures
        r@ == replace_all(s@, pat@, with@),
{
    let mut out: Vec<char> = Vec::new();
    let mut i: usize = 0;
    assert(s@.skip(0) =~= s@);
    while i < s.len() && pat.len() <= s.len() - i
        invariant
            i <= s@.len(),
            pat@.len() > 0,
            replace_all(s@, pat@, with@) == out@ + replace_all(s@.skip(i as int), pat@, with@),
        decreases s@.len() - i,
    {
        let ghost rest = s@.skip(i as int);
        assert(rest.take(pat@.len() as int) =~= s@.subrange(i as int, i + pat@.len()));
        if at_position(s, pat, i) {
            let mut k: usize = 0;
            let ghost start = out@;
            while k < with.len()
                invariant
                    k <= with@.len(),
                    out@ == start + with@.take(k as int),
                decreases with@.len() - k,
            {
                out.push(with[k]);
                k = k + 1;
                assert(out@ =~= start + with@.take(k as int));
            }
            assert(with@.take(with@.len() as int) =~= with@);
            assert(rest.skip(pat@.len() as int) =~= s@.skip(i + pat@.len()));
            i = i + pat.len();
            assert(replace_all(s@, pat@, with@) =~= out@ + replace_all(
                s@.skip(i as int),
                pat@,
                with@,
            ));
        } else {
            assert(rest.skip(1) =~= s@.skip(i + 1));
            out.push(s[i]);
            i = i + 1;
            assert(replace_all(s@, pat@, with@) =~= out@ + replace_all(
                s@.skip(i as int),
                pat@,
                with@,
            ));
        }
    }
    let ghost start = out@;
    let ghost from = i as int;
    while i < s.len()
        invariant
            0 <= from <= i <= s@.len(),
            out@ == start + s@.subrange(from, i as int),
        decreases s@.len() - i,
    {
        out.push(s[i]);
        i = i + 1;
        assert(out@ =~= start + s@.subrange(from, i as int));
    }
    assert(s@.subrange(from, s@.len() as int) =~= s@.skip(from));
    out
}

// ---------------------------------------------------------------------------
// Numbers
// ---------------------------------------------------------------------------

/// The character of a decimal digit.
pub open spec fn digit_char(d: nat) -> char {
    (48 + d) as char
}

/// The decimal digits of a number, without leading zeros.
pub open spec fn decimal(n: nat) -> Seq<char>
    decreases n,
{
    if n < 10 {
        seq![digit_char(n)]
    } else {
        decimal(n / 10).push(digit_char(n % 10))
    }
}

/// Whether a character is a decimal digit.
pub open spec fn is_digit(c: char) -> bool {
    '0' <= c && c <= '9'
}

/// The number that a sequence of decimal digits stands for.
pub open spec fn digits_value(s: Seq<char>) -> nat
    decreases s.len(),
{
    if s.len() == 0 {
        0
    } else {
        digits_value(s.drop_last()) * 10 + (s.last() as nat - 48) as nat
    }
}

/// Whether all characters are decimal digits.
pub open spec fn all_digits(s: Seq<char>) -> bool {
    forall|i: int| 0 <= i < s.len() ==> is_digit(#[trigger] s[i])
}

/// The number that a text stands for, where it is a number of at most `max`: an
/// optional plus sign and at least one decimal digit.
pub open spec fn number_text(s: Seq<char>, max: nat) -> Option<nat> {
    let d = if s.len() > 0 && s[0] == '+' {
        s.skip(1)
    } else {
        s
    };
    if d.len() == 0 || !all_digits(d) || digits_value(d) > max {
        None
    } else {
        Some(digits_value(d))
    }
}

/// The decimal digits of a number.
pub fn decimal_of(n: u64) -> (r: Vec<char>)
    ensures
        r@ == decimal(n as nat),
    decreases n,
{
    if n < 10 {
        let c: char = (48u8 + (n as u8)) as char;
        let v: Vec<char> = vec![c];
        assert(v@ =~= decimal(n as nat));
        v
    } else {
        let mut v = decimal_of(n / 10);
        let d: u8 = (n % 10) as u8;
        let c: char = (48u8 + d) as char;
        v.push(c);
        v
    }
}

/// The text of a number.
pub fn number_string(n: u64) -> (r: String)
    ensures
        r@ == decimal(n as nat),
{
    let v = decimal_of(n);
    string_of(&v)
}

/// The text of a number that may be negative.
pub open spec fn signed_decimal(n: int) -> Seq<char> {
    if n < 0 {
        seq!['-'] + decimal((-n) as nat)
    } else {
        decimal(n as nat)
    }
}

/// The text of a number that may be negative.
pub fn signed_string(n: i64) -> (r: String)
    ensures
        r@ == signed_decimal(n as int),
{
    if n < 0 {
        let mut out = String::new();
        out.push('-');
        let size: i128 = -(n as i128);
        let digits = number_string(size as u64);
        out.append(digits.as_str());
        assert(out@ =~= signed_decimal(n as int));
        out
    } else {
        number_string(n as u64)
    }
}

/// The first digits of a number do not exceed it.
proof fn lemma_digits_grow(s: Seq<char>, i: int)
    requires
        0 <= i <= s.len(),
    ensures
        digits_value(s.take(i)) <= digits_value(s),
    decreases s.len() - i,
{
    if i < s.len() {
        lemma_digits_grow(s, i + 1);
        assert(s.take(i + 1).drop_last() =~= s.take(i));
    } else {
        assert(s.take(i) =~= s);
    }
}

/// The number that a text stands for, where it is one of at most `max`.
pub fn parse_number(v: &Vec<char>, max: u64) -> (r: Option<u64>)
    ensures
        match r {
            Some(n) => number_text(v@, max as nat) == Some(n as nat),
            None => number_text(v@, max as nat) is None,
        },
{
    let from: usize = if v.len() > 0 && v[0] == '+' {
        1
    } else {
        0
    };
    let ghost d = v@.skip(from as int);
    assert(from == 0 ==> d =~= v@);
    if from == v.len() {
        return None;
    }
    let mut n: u64 = 0;
    let mut i: usize = from;
    assert(d.take(0) =~= Seq::empty());
    while i < v.len()
        invariant
            from <= i <= v@.len(),
            d == v@.skip(from as int),
            n <= max,
            n == digits_value(d.take(i - from)),
            number_text(v@, max as nat) == (if !all_digits(d) || digits_value(d) > max {
                None::<nat>
            } else {
                Some(digits_value(d))
            }),
            forall|j: int| 0 <= j < i - from ==> is_digit(#[trigger] d[j]),
        decreases v@.len() - i,
    {
        let c = v[i];
        assert(d[i - from] == c);
        if c < '0' || c > '9' {
            assert(!is_digit(d[i - from]));
            return None;
        }
        assert(d.take(i - from + 1).drop_last() =~= d.take(i - from));
        let digit: u32 = (c as u32) - 48;
        let next: u128 = (n as u128) * 10 + (digit as u128);
        assert(next == digits_value(d.take(i - from + 1)));
        if next > max as u128 {
            proof {
                lemma_digits_grow(d, i - from + 1);
            }
            return None;
        }
        n = next as u64;
        i = i + 1;
    }
    assert(d.take(d.len() as int) =~= d);
    Some(n)
}

/// Reading the digits of a number gives the number back.
pub proof fn law_number_round_trip(n: nat, max: nat)
    requires
        n <= max,
    ensures
        number_text(decimal(n), max) == Some(n),
{
    lemma_decimal_digits(n);
}

proof fn lemma_decimal_digits(n: nat)
    ensures
        decimal(n).len() >= 1,
        all_digits(decimal(n)),
        digits_value(decimal(n)) == n,
        decimal(n)[0] != '+',
    decreases n,
{
    if n >= 10 {
        lemma_decimal_digits(n / 10);
        let init = decimal(n / 10);
        assert(decimal(n).drop_last() =~= init);
        assert(decimal(n)[0] == init[0]);
        assert(is_digit(digit_char(n % 10)));
    } else {
        let s = decimal(n);
        assert(s.drop_last() =~= Seq::empty());
        assert(digits_value(s.drop_last()) == 0);
        assert(is_digit(digit_char(n)));
        assert(is_digit(s[0]));
    }
}

/// The text of a host and a port.
pub open spec fn host_port(host: Seq<char>, port: u16) -> Seq<char> {
    host.push(':') + decimal(port as nat)
}

/// The text of a host and a port.
pub fn join_host_port(host: &str, port: u16) -> (r: String)
    ensures
        r@ == host_port(host@, port),
{
    let mut out = host.to_owned();
    out.push(':');
    let digits = number_string(port as u64);
    out.append(digits.as_str());
    out
}

// ---------------------------------------------------------------------------
// Blank space
// ---------------------------------------------------------------------------

/// Whether a character has the Unicode property `White_Space`.
pub open spec fn is_blank(c: char) -> bool {
    let n = c as u32;
    (9 <= n && n <= 13) || n == 32 || n == 0x85 || n == 0xA0 || n == 0x1680 || (0x2000 <= n && n
        <= 0x200A) || n == 0x2028 || n == 0x2029 || n == 0x202F || n == 0x205F || n == 0x3000
}

fn blank(c: char) -> (r: bool)
    ensures
        r == is_blank(c),
{
    let n: u32 = c as u32;
    (9 <= n && n <= 13) || n == 32 || n == 0x85 || n == 0xA0 || n == 0x1680 || (0x2000 <= n && n
        <= 0x200A) || n == 0x2028 || n == 0x2029 || n == 0x202F || n == 0x205F || n == 0x3000
}

/// The text without the blank characters at its start.
pub open spec fn trim_start_of(s: Seq<char>) -> Seq<char>
    decreases s.len(),
{
    if s.len() > 0 && is_blank(s[0]) {
        trim_start_of(s.skip(1))
    } else {
        s
    }
}

/// The text without the blank characters at its end.
pub open spec fn trim_end_of(s: Seq<char>) -> Seq<char>
    decreases s.len(),
{
    if s.len() > 0 && is_blank(s.last()) {
        trim_end_of(s.drop_last())
    } else {
        s
    }
}

/// The text without the blank characters at its start and its end.
pub open spec fn trimmed(s: Seq<char>) -> Seq<char> {
    trim_end_of(trim_start_of(s))
}

/// The text without the blank characters at its start and its end.
pub fn trim(v: &Vec<char>) -> (r: Vec<char>)
    ensures
        r@ == trimmed(v@),
{
    let mut from: usize = 0;
    assert(v@.skip(0) =~= v@);
    while from < v.len() && blank(v[from])
        invariant
            from <= v@.len(),
            trim_start_of(v@) == trim_start_of(v@.skip(from as int)),
        decreases v@.len() - from,
    {
        assert(v@.skip(from as int).skip(1) =~= v@.skip(from as int + 1));
        from = from + 1;
    }
    let ghost s = v@.skip(from as int);
    let mut to: usize = v.len();
    assert(v@.subrange(from as int, to as int) =~= s);
    while to > from && blank(v[to - 1])
        invariant
            from <= to <= v@.len(),
            trim_end_of(s) == trim_end_of(v@.subrange(from as int, to as int)),
        decreases to,
    {
        assert(v@.subrange(from as int, to as int).drop_last() =~= v@.subrange(
            from as int,
            to - 1,
        ));
        to = to - 1;
    }
    let mut out: Vec<char> = Vec::new();
    let mut i: usize = from;
    while i < to
        invariant
            from <= i <= to <= v@.len(),
            out@ == v@.subrange(from as int, i as int),
        decreases to - i,
    {
        out.push(v[i]);
        i = i + 1;
        assert(out@ =~= v@.subrange(from as int, i as int));
    }
    out
}

/// How many characters come before the first blank one.
pub open spec fn word_length(s: Seq<char>) -> nat
    decreases s.len(),
{
    if s.len() == 0 || is_blank(s[0]) {
        0
    } else {
        1 + word_length(s.skip(1))
    }
}

/// The word that a text begins with ends inside the text.
pub proof fn lemma_word_length(s: Seq<char>)
    ensures
        word_length(s) <= s.len(),
    decreases s.len(),
{
    if s.len() > 0 && !is_blank(s[0]) {
        lemma_word_length(s.skip(1));
    }
}

/// Taking blank characters away makes a text no longer.
pub proof fn lemma_trim_start_length(s: Seq<char>)
    ensures
        trim_start_of(s).len() <= s.len(),
        trim_start_of(s).len() > 0 ==> !is_blank(trim_start_of(s)[0]),
    decreases s.len(),
{
    if s.len() > 0 && is_blank(s[0]) {
        lemma_trim_start_length(s.skip(1));
    }
}

/// The words of a text: its longest pieces without blank characters.
pub open spec fn words(s: Seq<char>) -> Seq<Seq<char>>
    decreases s.len(),
{
    let t = trim_start_of(s);
    let n = word_length(t) as int;
    if t.len() == 0 {
        Seq::empty()
    } else {
        proof {
            lemma_trim_start_length(s);
            lemma_word_length(t);
        }
        seq![t.take(n)] + words(t.skip(n))
    }
}

/// The words of a text.
pub fn split_words(v: &Vec<char>) -> (r: Vec<String>)
    ensures
        views(r@) == words(v@),
        r@.len() == words(v@).len(),
{
    let mut out: Vec<String> = Vec::new();
    let mut at: usize = 0;
    assert(v@.skip(0) =~= v@);
    assert(views(out@) + words(v@) =~= words(v@));
    while at < v.len()
        invariant
            at <= v@.len(),
            words(v@) == views(out@) + words(v@.skip(at as int)),
        decreases v@.len() - at,
    {
        let ghost s = v@.skip(at as int);
        let begin: usize = at;
        while at < v.len() && blank(v[at])
            invariant
                begin <= at <= v@.len(),
                s == v@.skip(begin as int),
                trim_start_of(s) == trim_start_of(v@.skip(at as int)),
            decreases v@.len() - at,
        {
            assert(v@.skip(at as int).skip(1) =~= v@.skip(at as int + 1));
            at = at + 1;
        }
        let ghost t = v@.skip(at as int);
        assert(t == trim_start_of(s));
        let from: usize = at;
        while at < v.len() && !blank(v[at])
            invariant
                from <= at <= v@.len(),
                word_length(v@.skip(from as int)) == at - from + word_length(v@.skip(at as int)),
            decreases v@.len() - at,
        {
            assert(v@.skip(at as int).skip(1) =~= v@.skip(at as int + 1));
            at = at + 1;
        }
        assert(word_length(v@.skip(at as int)) == 0);
        let ghost n = word_length(t) as int;
        assert(n == at - from);
        assert(t.skip(n) =~= v@.skip(at as int));
        if from < at {
            let word = string_between(v, from, at);
            assert(word@ =~= t.take(n));
            let ghost earlier = out@;
            out.push(word);
            assert(views(out@) =~= views(earlier).push(t.take(n)));
            assert(views(out@) + words(t.skip(n)) =~= views(earlier) + (seq![t.take(n)] + words(
                t.skip(n),
            )));
        } else {
            assert(v@.skip(at as int).len() == 0);
            assert(words(s) =~= Seq::empty());
            assert(words(v@.skip(at as int)) =~= Seq::empty());
        }
    }
    assert(trim_start_of(v@.skip(at as int)).len() == 0);
    assert(words(v@.skip(at as int)) =~= Seq::empty());
    assert(words(v@) =~= views(out@));
    out
}

/// A line end behind the digits of a number is blank space.
pub proof fn lemma_trimmed_number(n: nat, tail: Seq<char>)
    requires
        forall|i: int| 0 <= i < tail.len() ==> is_blank(#[trigger] tail[i]),
    ensures
        trimmed(decimal(n) + tail) == decimal(n),
    decreases tail.len(),
{
    lemma_decimal_digits(n);
    let s = decimal(n) + tail;
    assert(is_digit(decimal(n)[0]));
    assert(s[0] == decimal(n)[0]);
    assert(trim_start_of(s) == s);
    if tail.len() > 0 {
        assert(s.drop_last() =~= decimal(n) + tail.drop_last());
        assert(s.last() == tail[tail.len() - 1]);
        assert forall|i: int| 0 <= i < tail.drop_last().len() implies is_blank(
            #[trigger] tail.drop_last()[i],
        ) by {
            assert(tail.drop_last()[i] == tail[i]);
        }
        lemma_trimmed_number(n, tail.drop_last());
        assert((decimal(n) + tail.drop_last())[0] == decimal(n)[0]);
    } else {
        assert(s =~= decimal(n));
        assert(is_digit(s[s.len() - 1]));
    }
}

/// Where two sequences first differ, the smaller character comes first, and a sequence
/// comes before every longer one that begins with it.
pub proof fn law_first_difference_decides(
    common: Seq<char>,
    a: Seq<char>,
    b: Seq<char>,
)
    ensures
        before(common + a, common + b) == before(a, b),
        a.len() > 0 && b.len() > 0 && a[0] < b[0] ==> before(common + a, common + b) && !before(
            common + b,
            common + a,
        ),
        b.len() > 0 ==> before(common, common + b),
    decreases common.len(),
{
    if common.len() == 0 {
        assert(common + a =~= a);
        assert(common + b =~= b);
    } else {
        assert((common + a).skip(1) =~= common.skip(1) + a);
        assert((common + b).skip(1) =~= common.skip(1) + b);
        law_first_difference_decides(common.skip(1), a, b);
    }
}

/// Text in which the pattern does not occur stays as it is.
pub proof fn law_absent_pattern_is_not_replaced(s: Seq<char>, pat: Seq<char>, with: Seq<char>)
    requires
        !has_substring(s, pat),
    ensures
        replace_all(s, pat, with) == s,
    decreases s.len(),
{
    if pat.len() > 0 && s.len() >= pat.len() {
        if s.take(pat.len() as int) == pat {
            assert(s.subrange(0, pat.len() as int) =~= pat);
            assert(occurs_at(s, pat, 0));
        }
        let rest = s.skip(1);
        if has_substring(rest, pat) {
            let at = choose|at: int| occurs_at(rest, pat, at);
            assert(s.subrange(at + 1, at + 1 + pat.len()) =~= rest.subrange(at, at + pat.len()));
            assert(occurs_at(s, pat, at + 1));
        }
        law_absent_pattern_is_not_replaced(rest, pat, with);
        assert(seq![s[0]] + rest =~= s);
    }
}

/// The first occurrence of the pattern is replaced, and what follows it is replaced on its
/// own.
pub proof fn law_first_occurrence_is_replaced(
    s: Seq<char>,
    pat: Seq<char>,
    with: Seq<char>,
    at: int,
)
    requires
        pat.len() > 0,
        occurs_at(s, pat, at),
        forall|i: int| 0 <= i < at ==> !occurs_at(s, pat, i),
    ensures
        replace_all(s, pat, with) == s.take(at) + with + replace_all(
            s.skip(at + pat.len()),
            pat,
            with,
        ),
    decreases at,
{
    assert(s.take(pat.len() as int) =~= s.subrange(0, pat.len() as int));
    if at == 0 {
        assert(s.take(0) + with =~= with);
    } else {
        assert(!occurs_at(s, pat, 0));
        let rest = s.skip(1);
        assert(rest.subrange(at - 1, at - 1 + pat.len()) =~= s.subrange(at, at + pat.len()));
        assert forall|i: int| 0 <= i < at - 1 implies !occurs_at(rest, pat, i) by {
            assert(!occurs_at(s, pat, i + 1));
            if i + pat.len() <= rest.len() {
                assert(rest.subrange(i, i + pat.len()) =~= s.subrange(i + 1, i + 1 + pat.len()));
            }
        }
        law_first_occurrence_is_replaced(rest, pat, with, at - 1);
        assert(rest.skip(at - 1 + pat.len()) =~= s.skip(at + pat.len()));
        let tail = replace_all(s.skip(at + pat.len()), pat, with);
        assert(seq![s[0]] + (rest.take(at - 1) + with + tail) =~= s.take(at) + with + tail);
    }
}

/// Trimming takes blank characters off both ends and nothing else: what is left neither
/// begins nor ends with one.
pub proof fn law_trim_takes_the_blank_ends(s: Seq<char>) -> (r: (Seq<char>, Seq<char>))
    ensures
        s == r.0 + trimmed(s) + r.1,
        forall|i: int| 0 <= i < r.0.len() ==> is_blank(#[trigger] r.0[i]),
        forall|i: int| 0 <= i < r.1.len() ==> is_blank(#[trigger] r.1[i]),
        trimmed(s).len() > 0 ==> !is_blank(trimmed(s)[0]) && !is_blank(trimmed(s).last()),
{
    let front = lemma_trim_start(s);
    let back = lemma_trim_end(trim_start_of(s));
    lemma_trim_start_length(s);
    assert(s =~= front + trimmed(s) + back);
    if trimmed(s).len() > 0 {
        assert(trim_start_of(s)[0] == trimmed(s)[0]);
    }
    (front, back)
}

proof fn lemma_trim_start(s: Seq<char>) -> (front: Seq<char>)
    ensures
        s == front + trim_start_of(s),
        forall|i: int| 0 <= i < front.len() ==> is_blank(#[trigger] front[i]),
    decreases s.len(),
{
    if s.len() > 0 && is_blank(s[0]) {
        let front = lemma_trim_start(s.skip(1));
        let all = seq![s[0]] + front;
        assert(s =~= seq![s[0]] + s.skip(1));
        assert(s =~= all + trim_start_of(s));
        all
    } else {
        assert(s =~= Seq::<char>::empty() + s);
        Seq::empty()
    }
}

proof fn lemma_trim_end(s: Seq<char>) -> (back: Seq<char>)
    ensures
        s == trim_end_of(s) + back,
        forall|i: int| 0 <= i < back.len() ==> is_blank(#[trigger] back[i]),
        trim_end_of(s).len() > 0 ==> !is_blank(trim_end_of(s).last()),
    decreases s.len(),
{
    if s.len() > 0 && is_blank(s.last()) {
        let back = lemma_trim_end(s.drop_last());
        let all = back.push(s.last());
        assert(s =~= s.drop_last().push(s.last()));
        assert(s =~= trim_end_of(s) + all);
        all
    } else {
        assert(s =~= s + Seq::<char>::empty());
        Seq::empty()
    }
}

/// Two texts with a blank character between them have the words of the one, then the words
/// of the other; a text without blank characters is one word.
pub proof fn law_words_are_parted_by_blanks(a: Seq<char>, blank: char, b: Seq<char>)
    requires
        a.len() > 0,
        forall|i: int| 0 <= i < a.len() ==> !is_blank(#[trigger] a[i]),
        is_blank(blank),
    ensures
        words(a) == seq![a],
        words(a.push(blank) + b) == seq![a] + words(b),
        words(seq![blank] + b) == words(b),
{
    lemma_whole_word(a, Seq::empty());
    lemma_whole_word(a, seq![blank] + b);
    assert(a + Seq::<char>::empty() =~= a);
    assert(a.push(blank) + b =~= a + (seq![blank] + b));
    let s = a.push(blank) + b;
    assert(s[0] == a[0]);
    assert(s.take(a.len() as int) =~= a);
    assert(s.skip(a.len() as int) =~= seq![blank] + b);
    assert(a.take(a.len() as int) =~= a);
    assert(a.skip(a.len() as int) =~= Seq::empty());
    assert(trim_start_of(Seq::<char>::empty()) =~= Seq::empty());
    assert(words(Seq::empty()) =~= Seq::empty());
    let t = seq![blank] + b;
    assert(t.skip(1) =~= b);
    assert(trim_start_of(t) == trim_start_of(b));
    assert(words(t) == words(b));
    assert(words(a) =~= seq![a]);
}

proof fn lemma_whole_word(a: Seq<char>, rest: Seq<char>)
    requires
        forall|i: int| 0 <= i < a.len() ==> !is_blank(#[trigger] a[i]),
        rest.len() > 0 ==> is_blank(rest[0]),
    ensures
        word_length(a + rest) == a.len(),
    decreases a.len(),
{
    if a.len() == 0 {
        assert(a + rest =~= rest);
    } else {
        assert((a + rest)[0] == a[0]);
        assert((a + rest).skip(1) =~= a.skip(1) + rest);
        assert forall|i: int| 0 <= i < a.skip(1).len() implies !is_blank(
            #[trigger] a.skip(1)[i],
        ) by {
            assert(a.skip(1)[i] == a[i + 1]);
        }
        lemma_whole_word(a.skip(1), rest);
    }
}

/// The characters that text is commonly spaced with are blank; what is printed is not.
pub proof fn law_common_blanks(c: char)
    ensures
        c == ' ' || c == '\t' || c == '\n' || c == '\r' ==> is_blank(c),
        '!' <= c && c <= '~' ==> !is_blank(c),
{
}

/// Reading a number skips a plus sign and leading zeros, and refuses anything else that is
/// no digit.
pub proof fn law_number_spellings(n: nat, max: nat, s: Seq<char>, i: int)
    requires
        n <= max,
        0 <= i < s.len(),
        !is_digit(s[i]),
        i > 0 || s[0] != '+',
    ensures
        number_text(seq!['+'] + decimal(n), max) == Some(n),
        number_text(seq!['0'] + decimal(n), max) == Some(n),
        number_text(s, max) is None,
        number_text(Seq::empty(), max) is None,
        forall|small: nat| small < n ==> #[trigger] number_text(decimal(n), small) is None,
{
    lemma_decimal_digits(n);
    let plus = seq!['+'] + decimal(n);
    assert(plus.skip(1) =~= decimal(n));
    let zero = seq!['0'] + decimal(n);
    lemma_leading_zero(decimal(n));
    assert forall|j: int| 0 <= j < zero.len() implies is_digit(#[trigger] zero[j]) by {
        if j > 0 {
            assert(zero[j] == decimal(n)[j - 1]);
        }
    }
    if s[0] == '+' {
        assert(s.skip(1)[i - 1] == s[i]);
    }
}

proof fn lemma_leading_zero(s: Seq<char>)
    ensures
        digits_value(seq!['0'] + s) == digits_value(s),
    decreases s.len(),
{
    let z = seq!['0'] + s;
    if s.len() == 0 {
        assert(z.drop_last() =~= Seq::empty());
        assert(digits_value(z.drop_last()) == 0);
    } else {
        assert(z.drop_last() =~= seq!['0'] + s.drop_last());
        lemma_leading_zero(s.drop_last());
    }
}

/// The digits of a number are not blank.
pub proof fn lemma_decimal_is_a_word(n: nat)
    ensures
        decimal(n).len() > 0,
        forall|i: int| 0 <= i < decimal(n).len() ==> !is_blank(#[trigger] decimal(n)[i]),
{
    lemma_decimal_digits(n);
    assert forall|i: int| 0 <= i < decimal(n).len() implies !is_blank(#[trigger] decimal(n)[i]) by {
        assert(is_digit(decimal(n)[i]));
    }
}

/// A text begins with another exactly if it is that text and something behind it.
pub proof fn law_prefix_and_rest(s: Seq<char>, prefix: Seq<char>, rest: Seq<char>)
    ensures
        has_prefix(prefix + rest, prefix),
        has_prefix(s, prefix) ==> s == prefix + s.skip(prefix.len() as int),
        s.len() < prefix.len() ==> !has_prefix(s, prefix),
        has_prefix(s, Seq::empty()),
{
    assert((prefix + rest).take(prefix.len() as int) =~= prefix);
    assert(s.take(0) =~= Seq::empty());
    if has_prefix(s, prefix) {
        assert(s =~= s.take(prefix.len() as int) + s.skip(prefix.len() as int));
    }
}

/// The occurrences of a character in two texts are those in the one and in the other; a
/// character occurs once in itself, and in no other character.
pub proof fn law_occurrences_add_up(a: Seq<char>, b: Seq<char>, c: char, d: char)
    ensures
        occurrences(a + b, c) == occurrences(a, c) + occurrences(b, c),
        occurrences(seq![c], c) == 1,
        c != d ==> occurrences(seq![d], c) == 0,
        occurrences(Seq::empty(), c) == 0,
    decreases b.len(),
{
    reveal_with_fuel(occurrences, 2);
    assert(seq![c].drop_last() =~= Seq::empty());
    assert(seq![d].drop_last() =~= Seq::empty());
    if b.len() == 0 {
        assert(a + b =~= a);
    } else {
        law_occurrences_add_up(a, b.drop_last(), c, d);
        assert((a + b).drop_last() =~= a + b.drop_last());
        assert((a + b).last() == b.last());
    }
}

/// A piece behind others is joined to them with the separator between them; a single piece
/// stands for itself, and none for the empty text.
pub proof fn law_pieces_are_joined_in_order(pieces: Seq<Seq<char>>, last: Seq<char>, sep: Seq<char>)
    ensures
        join_text(Seq::empty(), sep) == Seq::<char>::empty(),
        join_text(seq![last], sep) == last,
        pieces.len() > 0 ==> join_text(pieces.push(last), sep) == join_text(pieces, sep) + sep
            + last,
{
    assert(pieces.push(last).drop_last() =~= pieces);
}

/// The text of a negative number is that of the positive one behind a minus sign, and a
/// number that is not negative has no sign.
pub proof fn law_negative_numbers_have_a_sign(n: nat)
    ensures
        n > 0 ==> signed_decimal(-(n as int)) == seq!['-'] + signed_decimal(n as int),
        signed_decimal(n as int) == decimal(n),
{
}

} // verus!
