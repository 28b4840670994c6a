//! Address patterns of subscriptions, with a trailing wildcard.
use vstd::prelude::*;

use crate::text;

verus! {

/// Whether a pattern accepts an address: `*` and `/*` accept everything, a
/// pattern that ends in `*` every address that begins with what stands before it,
/// and any other pattern itself alone.
pub open spec fn pattern_matches(pattern: Seq<char>, address: Seq<char>) -> bool {
    if pattern == seq!['*'] || pattern == seq!['/', '*'] {
        true
    } else if pattern.len() > 0 && pattern.last() == '*' {
        text::has_prefix(address, pattern.drop_last())
    } else {
        pattern == address
    }
}

/// Whether one of the patterns accepts an address.
pub open spec fn any_matches(patterns: Seq<Seq<char>>, address: Seq<char>) -> bool {
    exists|i: int| 0 <= i < patterns.len() && pattern_matches(#[trigger] patterns[i], address)
}

/// Whether an address matches any of the given patterns.
pub fn matches_any(patterns: &[String], address: &str) -> (r: bool)
    ensures
        r == any_matches(text::views(patterns@), address@),
{
    let mut i: usize = 0;
    while i < patterns.len()
        invariant
            i <= patterns@.len(),
            forall|j: int|
                0 <= j < i ==> !pattern_matches(#[trigger] text::views(patterns@)[j], address@),
        decreases patterns@.len() - i,
    {
        assert(text::views(patterns@)[i as int] == patterns@[i as int]@);
        if matches_pattern(patterns[i].as_str(), address) {
            return true;
        }
        i = i + 1;
    }
    false
}

/// Matches a pattern against an address.
pub fn matches_pattern(pattern: &str, address: &str) -> (r: bool)
    ensures
        r == pattern_matches(pattern@, address@),
{
    let mut p = text::chars_of(pattern);
    let a = text::chars_of(address);
    if p.len() == 1 && p[0] == '*' {
        assert(p@ =~= seq!['*']);
        return true;
    }
    if p.len() == 2 && p[0] == '/' && p[1] == '*' {
        assert(p@ =~= seq!['/', '*']);
        return true;
    }
    if p.len() > 0 && p[p.len() - 1] == '*' {
        p.pop();
        assert(p@ =~= pattern@.drop_last());
        text::starts_with(&a, &p)
    } else {
        text::same_chars(&p, &a)
    }
}

/// What a pattern with a trailing wildcard accepts it accepts with any
/// continuation too.
pub proof fn law_wildcard_accepts_continuations(
    pattern: Seq<char>,
    address: Seq<char>,
    more: Seq<char>,
)
    requires
        pattern.len() > 0,
        pattern.last() == '*',
        pattern_matches(pattern, address),
    ensures
        pattern_matches(pattern, address + more),
{
    let prefix = pattern.drop_last();
    if text::has_prefix(address, prefix) {
        assert((address + more).take(prefix.len() as int) =~= address.take(prefix.len() as int));
    }
}

/// A pattern without a trailing wildcard accepts exactly itself.
pub proof fn law_plain_pattern_accepts_itself(pattern: Seq<char>, address: Seq<char>)
    requires
        pattern.len() == 0 || pattern.last() != '*',
    ensures
        pattern_matches(pattern, address) <==> address == pattern,
{
}

/// A text followed by `*` accepts exactly the addresses that begin with the text; `*` and
/// `/*` accept every address.
pub proof fn law_wildcard_accepts_its_prefix(
    prefix: Seq<char>,
    address: Seq<char>,
    more: Seq<char>,
)
    ensures
        pattern_matches(seq!['*'], address),
        pattern_matches(seq!['/', '*'], address),
        pattern_matches(prefix.push('*'), prefix + more),
        prefix.len() > 0 && prefix != seq!['/'] && pattern_matches(prefix.push('*'), address)
            ==> address.len() >= prefix.len() && forall|i: int|
            0 <= i < prefix.len() ==> #[trigger] address[i] == prefix[i],
{
    let p = prefix.push('*');
    assert(p.drop_last() =~= prefix);
    assert((prefix + more).take(prefix.len() as int) =~= prefix);
    if prefix.len() > 0 && prefix != seq!['/'] {
        if p == seq!['/', '*'] {
            assert(prefix =~= seq!['/']);
        }
        if pattern_matches(p, address) {
            assert forall|i: int| 0 <= i < prefix.len() implies #[trigger] address[i]
                == prefix[i] by {
                assert(address.take(prefix.len() as int)[i] == address[i]);
            }
        }
    }
}

/// An address matches a list of patterns exactly if it matches one of them: an empty list
/// matches nothing, and a further pattern adds what it matches, wherever it stands.
pub proof fn law_one_pattern_suffices(
    front: Seq<Seq<char>>,
    pattern: Seq<char>,
    back: Seq<Seq<char>>,
    address: Seq<char>,
)
    ensures
        !any_matches(Seq::empty(), address),
        any_matches(front + seq![pattern] + back, address) <==> pattern_matches(pattern, address)
            || any_matches(front + back, address),
{
    let all = front + seq![pattern] + back;
    let less = front + back;
    let n = front.len() as int;
    assert(all[n] == pattern);
    if any_matches(all, address) {
        let i = choose|i: int| 0 <= i < all.len() && pattern_matches(#[trigger] all[i], address);
        if i < n {
            assert(less[i] == all[i]);
        } else if i > n {
            assert(less[i - 1] == all[i]);
        }
    }
    if any_matches(less, address) {
        let i = choose|i: int| 0 <= i < less.len() && pattern_matches(#[trigger] less[i], address);
        if i < n {
            assert(all[i] == less[i]);
        } else {
            assert(all[i + 1] == less[i]);
        }
    }
}

} // verus!
