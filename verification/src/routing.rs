//! Segment-based address patterns.
//!
//! A pattern is a `/`-separated list of segments: a literal, the wildcard `*`
//! for exactly one segment, a named capture `{name}` for exactly one segment,
//! and, in last place only, the recursive wildcard `**` for zero or more
//! segments. Everything else that looks like pattern syntax is rejected when the
//! pattern is parsed.
use vstd::prelude::*;

use crate::text;
use crate::text_map::TextMap;

verus! {

// ---------------------------------------------------------------------------
// Segments and errors
// ---------------------------------------------------------------------------

/// A single segment of a parsed pattern.
#[derive(Debug, PartialEq, Eq)]
pub enum Segment {
    /// A literal segment.
    Exact(String),
    /// `*`: exactly one segment.
    Wildcard,
    /// `**`: zero or more remaining segments.
    RecursiveWildcard,
    /// `{name}`: exactly one segment, captured under a name.
    Capture(String),
}

/// What a segment is, mathematically.
pub enum SegmentModel {
    Exact(Seq<char>),
    Wildcard,
    RecursiveWildcard,
    Capture(Seq<char>),
}

impl View for Segment {
    type V = SegmentModel;

    open spec fn view(&self) -> SegmentModel {
        match *self {
            Segment::Exact(s) => SegmentModel::Exact(s@),
            Segment::Wildcard => SegmentModel::Wildcard,
            Segment::RecursiveWildcard => SegmentModel::RecursiveWildcard,
            Segment::Capture(s) => SegmentModel::Capture(s@),
        }
    }
}

/// Why a pattern is invalid.
#[derive(Debug, Clone, PartialEq, Eq)]
pub enum PatternError {
    /// The pattern was empty or did not begin with `/`.
    InvalidAddress,
    /// `**` appeared in a position other than the final segment.
    RecursiveWildcardNotFinal,
    /// A capture name was empty: `{}`.
    EmptyCaptureName,
    /// A capture name contained a forbidden character (`/`, `{`, `}`, `*`), or
    /// the braces do not enclose the segment.
    InvalidCaptureName(String),
    /// A segment contained a character class `[...]`.
    CharacterClassNotSupported,
    /// A segment contained alternation `{a,b}`.
    AlternationNotSupported,
    /// A typed capture like `{id:int}` was used.
    TypedCaptureNotSupported,
    /// A recursive capture like `{path**}` was used.
    RecursiveCaptureNotSupported,
    /// A segment contained regex syntax.
    RegexNotSupported,
    /// Negative matching (`!...`) was used.
    NegativeMatchingNotSupported,
    /// Nested braces in a capture name.
    NestedBraces,
}

/// What a pattern error is, mathematically.
pub enum PatternErrorModel {
    InvalidAddress,
    RecursiveWildcardNotFinal,
    EmptyCaptureName,
    InvalidCaptureName(Seq<char>),
    CharacterClassNotSupported,
    AlternationNotSupported,
    TypedCaptureNotSupported,
    RecursiveCaptureNotSupported,
    RegexNotSupported,
    NegativeMatchingNotSupported,
    NestedBraces,
}

impl View for PatternError {
    type V = PatternErrorModel;

    open spec fn view(&self) -> PatternErrorModel {
        match *self {
            PatternError::InvalidAddress => PatternErrorModel::InvalidAddress,
            PatternError::RecursiveWildcardNotFinal => PatternErrorModel::RecursiveWildcardNotFinal,
            PatternError::EmptyCaptureName => PatternErrorModel::EmptyCaptureName,
            PatternError::InvalidCaptureName(s) => PatternErrorModel::InvalidCaptureName(s@),
            PatternError::CharacterClassNotSupported => PatternErrorModel::CharacterClassNotSupported,
            PatternError::AlternationNotSupported => PatternErrorModel::AlternationNotSupported,
            PatternError::TypedCaptureNotSupported => PatternErrorModel::TypedCaptureNotSupported,
            PatternError::RecursiveCaptureNotSupported => PatternErrorModel::RecursiveCaptureNotSupported,
            PatternError::RegexNotSupported => PatternErrorModel::RegexNotSupported,
            PatternError::NegativeMatchingNotSupported => PatternErrorModel::NegativeMatchingNotSupported,
            PatternError::NestedBraces => PatternErrorModel::NestedBraces,
        }
    }
}

/// The text that describes an error.
pub open spec fn error_text(e: PatternErrorModel) -> Seq<char> {
    match e {
        PatternErrorModel::InvalidAddress => "pattern must start with '/'"@,
        PatternErrorModel::RecursiveWildcardNotFinal => "'**' must be the final segment of a pattern"@,
        PatternErrorModel::EmptyCaptureName => "capture name must not be empty"@,
        PatternErrorModel::InvalidCaptureName(name) => "capture name contains forbidden characters: '"@
            + name + "'"@,
        PatternErrorModel::CharacterClassNotSupported => "character classes are not supported in routing v1"@,
        PatternErrorModel::AlternationNotSupported => "alternation is not supported in routing v1"@,
        PatternErrorModel::TypedCaptureNotSupported => "typed captures are not supported in routing v1"@,
        PatternErrorModel::RecursiveCaptureNotSupported => "recursive captures are not supported in routing v1"@,
        PatternErrorModel::RegexNotSupported => "regular expressions are not supported in routing v1"@,
        PatternErrorModel::NegativeMatchingNotSupported => "negative matching is not supported in routing v1"@,
        PatternErrorModel::NestedBraces => "nested braces in capture name"@,
    }
}

impl PatternError {
    /// The text that describes the error.
    pub fn message(&self) -> (r: String)
        ensures
            r@ == error_text(self@),
    {
        match self {
            PatternError::InvalidAddress => "pattern must start with '/'".to_owned(),
            PatternError::RecursiveWildcardNotFinal => "'**' must be the final segment of a pattern".to_owned(),
            PatternError::EmptyCaptureName => "capture name must not be empty".to_owned(),
            PatternError::InvalidCaptureName(name) => {
                let head = "capture name contains forbidden characters: '".to_owned();
                head.concat(name.as_str()).concat("'")
            },
            PatternError::CharacterClassNotSupported => "character classes are not supported in routing v1".to_owned(),
            PatternError::AlternationNotSupported => "alternation is not supported in routing v1".to_owned(),
            PatternError::TypedCaptureNotSupported => "typed captures are not supported in routing v1".to_owned(),
            PatternError::RecursiveCaptureNotSupported => "recursive captures are not supported in routing v1".to_owned(),
            PatternError::RegexNotSupported => "regular expressions are not supported in routing v1".to_owned(),
            PatternError::NegativeMatchingNotSupported => "negative matching is not supported in routing v1".to_owned(),
            PatternError::NestedBraces => "nested braces in capture name".to_owned(),
        }
    }
}

// ---------------------------------------------------------------------------
// What parsing means
// ---------------------------------------------------------------------------

/// `**`.
pub open spec fn double_star() -> Seq<char> {
    seq!['*', '*']
}

/// What a segment that holds braces stands for.
pub open spec fn capture_model(raw: Seq<char>) -> Result<SegmentModel, PatternErrorModel> {
    if text::occurrences(raw, '{') > 1 || text::occurrences(raw, '}') > 1 {
        Err(PatternErrorModel::NestedBraces)
    } else if raw.len() == 0 || raw[0] != '{' || raw.last() != '}' {
        if raw.contains(',') {
            Err(PatternErrorModel::AlternationNotSupported)
        } else {
            Err(PatternErrorModel::InvalidCaptureName(raw))
        }
    } else {
        let name = raw.subrange(1, raw.len() - 1);
        if name.len() == 0 {
            Err(PatternErrorModel::EmptyCaptureName)
        } else if name.contains(':') {
            Err(PatternErrorModel::TypedCaptureNotSupported)
        } else if text::has_substring(name, double_star()) {
            Err(PatternErrorModel::RecursiveCaptureNotSupported)
        } else if name.contains('/') || name.contains('{') || name.contains('}') || name.contains(
            '*',
        ) {
            Err(PatternErrorModel::InvalidCaptureName(name))
        } else if name.contains(',') {
            Err(PatternErrorModel::AlternationNotSupported)
        } else {
            Ok(SegmentModel::Capture(name))
        }
    }
}

/// Whether a segment holds a character that only regular expressions use.
pub open spec fn looks_like_regex(raw: Seq<char>) -> bool {
    raw.contains('+') || raw.contains('?') || raw.contains('(') || raw.contains(')')
        || raw.contains('^') || raw.contains('$') || raw.contains('.')
}

/// What the raw text of a segment stands for.
pub open spec fn segment_model(raw: Seq<char>, is_last: bool) -> Result<
    SegmentModel,
    PatternErrorModel,
> {
    if raw.contains('[') || raw.contains(']') {
        Err(PatternErrorModel::CharacterClassNotSupported)
    } else if raw.len() > 0 && raw[0] == '!' {
        Err(PatternErrorModel::NegativeMatchingNotSupported)
    } else if looks_like_regex(raw) {
        Err(PatternErrorModel::RegexNotSupported)
    } else if raw == double_star() {
        if is_last {
            Ok(SegmentModel::RecursiveWildcard)
        } else {
            Err(PatternErrorModel::RecursiveWildcardNotFinal)
        }
    } else if raw == seq!['*'] {
        Ok(SegmentModel::Wildcard)
    } else if (raw.len() > 0 && raw[0] == '{') || raw.contains('}') {
        capture_model(raw)
    } else {
        Ok(SegmentModel::Exact(raw))
    }
}

/// What the first `n` raw segments stand for; the first error wins.
pub open spec fn segments_upto(raws: Seq<Seq<char>>, n: nat) -> Result<
    Seq<SegmentModel>,
    PatternErrorModel,
>
    decreases n,
{
    if n == 0 {
        Ok(Seq::empty())
    } else {
        match segments_upto(raws, (n - 1) as nat) {
            Err(e) => Err(e),
            Ok(segs) => match segment_model(raws[n - 1], n == raws.len()) {
                Err(e) => Err(e),
                Ok(seg) => Ok(segs.push(seg)),
            },
        }
    }
}

/// The segments of an address; an address begins with `/`.
pub open spec fn address_segments(address: Seq<char>) -> Option<Seq<Seq<char>>> {
    if address.len() > 0 && address[0] == '/' {
        Some(text::split_on(address.skip(1), '/'))
    } else {
        None
    }
}

/// What a pattern text stands for.
pub open spec fn pattern_model(source: Seq<char>) -> Result<Seq<SegmentModel>, PatternErrorModel> {
    match address_segments(source) {
        None => Err(PatternErrorModel::InvalidAddress),
        Some(raws) => segments_upto(raws, raws.len()),
    }
}

/// The segments of a valid pattern text.
pub open spec fn pattern_segments(source: Seq<char>) -> Seq<SegmentModel> {
    match pattern_model(source) {
        Ok(segs) => segs,
        Err(_) => Seq::empty(),
    }
}

// ---------------------------------------------------------------------------
// What matching means
// ---------------------------------------------------------------------------

/// Whether the pattern ends in `**`.
pub open spec fn is_recursive(segs: Seq<SegmentModel>) -> bool {
    segs.len() > 0 && segs.last() is RecursiveWildcard
}

/// How many segments stand for exactly one address segment each.
pub open spec fn fixed_len(segs: Seq<SegmentModel>) -> nat {
    if is_recursive(segs) {
        (segs.len() - 1) as nat
    } else {
        segs.len()
    }
}

/// Whether a segment accepts an address segment.
pub open spec fn segment_accepts(seg: SegmentModel, piece: Seq<char>) -> bool {
    match seg {
        SegmentModel::Exact(s) => s == piece,
        _ => true,
    }
}

/// Whether the segments of a pattern accept the segments of an address.
pub open spec fn accepts(segs: Seq<SegmentModel>, pieces: Seq<Seq<char>>) -> bool {
    &&& if is_recursive(segs) {
        pieces.len() >= fixed_len(segs)
    } else {
        pieces.len() == segs.len()
    }
    &&& forall|i: int|
        0 <= i < fixed_len(segs) ==> segment_accepts(#[trigger] segs[i], pieces[i])
}

/// What the first `n` segments capture; of equal names the last counts.
pub open spec fn captured(segs: Seq<SegmentModel>, pieces: Seq<Seq<char>>, n: nat) -> Map<
    Seq<char>,
    Seq<char>,
>
    decreases n,
{
    if n == 0 {
        Map::empty()
    } else {
        let m = captured(segs, pieces, (n - 1) as nat);
        match segs[n - 1] {
            SegmentModel::Capture(name) => m.insert(name, pieces[n - 1]),
            _ => m,
        }
    }
}

/// How far matching gets from segment `n` on: to the first segment that is `**`,
/// that has no address segment, or that does not accept it.
pub open spec fn matched_from(segs: Seq<SegmentModel>, pieces: Seq<Seq<char>>, n: nat) -> nat
    decreases segs.len() - n,
{
    if n < segs.len() && n < pieces.len() && !(segs[n as int] is RecursiveWildcard)
        && segment_accepts(segs[n as int], pieces[n as int]) {
        matched_from(segs, pieces, n + 1)
    } else {
        n
    }
}

/// Whether the pattern accepts the address.
pub open spec fn pattern_accepts(source: Seq<char>, address: Seq<char>) -> bool {
    match address_segments(address) {
        None => false,
        Some(pieces) => accepts(pattern_segments(source), pieces),
    }
}

/// What the pattern captures from an address that it accepts.
pub open spec fn pattern_captures(source: Seq<char>, address: Seq<char>) -> Map<
    Seq<char>,
    Seq<char>,
> {
    let segs = pattern_segments(source);
    captured(segs, text::split_on(address.skip(1), '/'), fixed_len(segs))
}

/// The address segments that a trailing `**` takes up; none without one.
pub open spec fn pattern_suffix(source: Seq<char>, address: Seq<char>) -> Seq<Seq<char>> {
    let segs = pattern_segments(source);
    if is_recursive(segs) {
        text::split_on(address.skip(1), '/').skip(fixed_len(segs) as int)
    } else {
        Seq::empty()
    }
}

// ---------------------------------------------------------------------------
// Captures
// ---------------------------------------------------------------------------

/// Named captures of a matched address. All values are text.
#[derive(Debug)]
pub struct CaptureSet {
    inner: TextMap<String>,
}

/// Whether `names` lists the keys of the map in ascending order, each once.
pub open spec fn enumerates(names: Seq<Seq<char>>, m: Map<Seq<char>, Seq<char>>) -> bool {
    &&& forall|i: int, j: int|
        0 <= i < j < names.len() ==> text::before(#[trigger] names[i], #[trigger] names[j])
    &&& forall|k: Seq<char>| #[trigger] names.contains(k) <==> m.dom().contains(k)
}

/// The texts of a map of strings.
pub open spec fn text_values(m: Map<Seq<char>, String>) -> Map<Seq<char>, Seq<char>> {
    m.map_values(|s: String| s@)
}

impl View for CaptureSet {
    type V = Map<Seq<char>, Seq<char>>;

    closed spec fn view(&self) -> Map<Seq<char>, Seq<char>> {
        text_values(self.inner@)
    }
}

impl Default for CaptureSet {
    fn default() -> (r: Self)
        ensures
            r@ == Map::<Seq<char>, Seq<char>>::empty(),
    {
        let r = CaptureSet { inner: TextMap::new() };
        assert(r@ =~= Map::<Seq<char>, Seq<char>>::empty());
        r
    }
}

impl Clone for CaptureSet {
    fn clone(&self) -> (r: Self)
        ensures
            r@ == self@,
    {
        let mut out: TextMap<String> = TextMap::new();
        let pairs = self.iter();
        let ghost names = self.names();
        let mut i: usize = 0;
        while i < pairs.len()
            invariant
                i <= pairs@.len(),
                pairs@.len() == names.len(),
                enumerates(names, self@),
                forall|j: int|
                    0 <= j < pairs@.len() ==> (#[trigger] pairs@[j]).0@ == names[j] && pairs@[j].1@
                        == self@[names[j]],
                forall|k: Seq<char>| #[trigger]
                    text_values(out@).dom().contains(k) <==> exists|j: int|
                        0 <= j < i && #[trigger] names[j] == k,
                forall|k: Seq<char>| #[trigger]
                    text_values(out@).dom().contains(k) ==> text_values(out@)[k] == self@[k],
            decreases pairs@.len() - i,
        {
            let ghost earlier = text_values(out@);
            let ghost key = pairs@[i as int].0@;
            out.insert(pairs[i].0.to_owned(), pairs[i].1.to_owned());
            assert(key == names[i as int]);
            assert(text_values(out@) =~= earlier.insert(key, self@[key]));
            i = i + 1;
        }
        let r = CaptureSet { inner: out };
        assert forall|k: Seq<char>| #[trigger] r@.dom().contains(k) <==> self@.dom().contains(
            k,
        ) by {
            assert(names.contains(k) <==> self@.dom().contains(k));
        }
        assert(r@ =~= self@);
        r
    }
}

impl PartialEq for CaptureSet {
    fn eq(&self, other: &Self) -> (r: bool) {
        let x = self.iter();
        let y = other.iter();
        if x.len() != y.len() {
            assert(self@ != other@);
            return false;
        }
        let mut i: usize = 0;
        while i < x.len()
            invariant
                i <= x@.len(),
                x@.len() == y@.len(),
                x@.len() == self.names().len(),
                self@.dom().finite(),
                other@.dom().finite(),
                self@.dom().len() == other@.dom().len(),
                enumerates(self.names(), self@),
                forall|j: int|
                    0 <= j < x@.len() ==> (#[trigger] x@[j]).0@ == self.names()[j] && x@[j].1@
                        == self@[self.names()[j]],
                forall|j: int|
                    0 <= j < i ==> other@.dom().contains(#[trigger] self.names()[j])
                        && other@[self.names()[j]] == self@[self.names()[j]],
            decreases x@.len() - i,
        {
            assert(x@[i as int].0@ == self.names()[i as int]);
            assert(self.names().contains(self.names()[i as int]));
            match other.get(x[i].0) {
                Some(v) => {
                    if !text::same(v, x[i].1) {
                        return false;
                    }
                },
                None => {
                    return false;
                },
            }
            i = i + 1;
        }
        proof {
            assert forall|k: Seq<char>| #[trigger]
                self@.dom().contains(k) implies other@.dom().contains(k) && other@[k]
                == self@[k] by {
                assert(self.names().contains(k));
                let j = choose|j: int| 0 <= j < self.names().len() && self.names()[j] == k;
                assert(self.names()[j] == k);
            }
            assert(self@.dom().subset_of(other@.dom()));
            vstd::set_lib::lemma_subset_equality(self@.dom(), other@.dom());
            assert(self@ =~= other@);
        }
        true
    }
}

impl vstd::std_specs::cmp::PartialEqSpecImpl for CaptureSet {
    open spec fn obeys_eq_spec() -> bool {
        true
    }

    open spec fn eq_spec(&self, other: &Self) -> bool {
        self@ == other@
    }
}

impl Eq for CaptureSet {

}

impl CaptureSet {
    /// The captured names in ascending order.
    pub closed spec fn names(&self) -> Seq<Seq<char>> {
        self.inner.keys()
    }

    /// The captured value of a name.
    pub fn get(&self, name: &str) -> (r: Option<&str>)
        ensures
            match r {
                Some(v) => self@.dom().contains(name@) && v@ == self@[name@],
                None => !self@.dom().contains(name@),
            },
    {
        match self.inner.get(name) {
            Some(v) => Some(v.as_str()),
            None => None,
        }
    }

    /// All captured name-value pairs, each name once, in ascending order of the
    /// names.
    pub fn iter(&self) -> (r: Vec<(&str, &str)>)
        ensures
            enumerates(self.names(), self@),
            r@.len() == self.names().len(),
            r@.len() == self@.dom().len(),
            self@.dom().finite(),
            forall|i: int|
                0 <= i < r@.len() ==> (#[trigger] r@[i]).0@ == self.names()[i] && r@[i].1@
                    == self@[self.names()[i]],
    {
        proof {
            use_type_invariant(&self.inner);
            crate::text_map::lemma_ascending_distinct(self.inner.entries@);
            crate::text_map::lemma_entries_map(self.inner.entries@);
            crate::text_map::lemma_view_entries(self.inner);
            assert(self@.dom() =~= self.inner@.dom());
        }
        let mut out: Vec<(&str, &str)> = Vec::new();
        let mut i: usize = 0;
        while i < self.inner.entries.len()
            invariant
                i <= self.inner.entries@.len(),
                out@.len() == i,
                forall|j: int|
                    0 <= j < i ==> (#[trigger] out@[j]).0@ == self.inner.entries@[j].0@
                        && out@[j].1@ == self.inner.entries@[j].1@,
            decreases self.inner.entries@.len() - i,
        {
            out.push((self.inner.entries[i].0.as_str(), self.inner.entries[i].1.as_str()));
            i = i + 1;
        }
        assert forall|j: int| 0 <= j < out@.len() implies (#[trigger] out@[j]).0@ == self.names()[j]
            && out@[j].1@ == self@[self.names()[j]] by {
            assert(self.inner@.dom().contains(self.inner.entries@[j].0@));
        }
        assert forall|k: Seq<char>| #[trigger] self.names().contains(k) <==> self@.dom().contains(
            k,
        ) by {
            if self.names().contains(k) {
                let j = choose|j: int| 0 <= j < self.names().len() && self.names()[j] == k;
                assert(self.inner.entries@[j].0@ == k);
            }
            if self@.dom().contains(k) {
                let j = choose|j: int|
                    0 <= j < self.inner.entries@.len() && #[trigger] self.inner.entries@[j].0@ == k;
                assert(self.names()[j] == k);
            }
        }
        assert forall|i: int, j: int| 0 <= i < j < self.names().len() implies text::before(
            #[trigger] self.names()[i],
            #[trigger] self.names()[j],
        ) by {
            assert(text::before(self.inner.entries@[i].0@, self.inner.entries@[j].0@));
        }
        out
    }

    /// The number of captures.
    pub fn len(&self) -> (r: usize)
        ensures
            r == self@.dom().len(),
            self@.dom().finite(),
    {
        assert(self@.dom() =~= self.inner@.dom());
        self.inner.len()
    }

    /// Whether there are no captures.
    pub fn is_empty(&self) -> (r: bool)
        ensures
            r == (self@ == Map::<Seq<char>, Seq<char>>::empty()),
    {
        assert(self@.dom() =~= self.inner@.dom());
        let r = self.inner.len() == 0;
        if r {
            assert(self@ =~= Map::<Seq<char>, Seq<char>>::empty());
        }
        r
    }
}

// ---------------------------------------------------------------------------
// Patterns
// ---------------------------------------------------------------------------

/// A parsed, valid pattern. It never changes after it was parsed.
#[derive(Debug, PartialEq, Eq)]
pub struct Pattern {
    source: String,
    segments: Vec<Segment>,
}

/// What a list of segments stands for.
pub open spec fn segment_views(s: Seq<Segment>) -> Seq<SegmentModel> {
    s.map_values(|seg: Segment| seg@)
}

impl View for Pattern {
    type V = Seq<char>;

    closed spec fn view(&self) -> Seq<char> {
        self.source@
    }
}

/// What a parse result stands for.
pub open spec fn segment_result(r: Result<Segment, PatternError>) -> Result<
    SegmentModel,
    PatternErrorModel,
> {
    match r {
        Ok(s) => Ok(s@),
        Err(e) => Err(e@),
    }
}

fn parse_segment(raw: &String, is_last: bool) -> (r: Result<Segment, PatternError>)
    ensures
        segment_result(r) == segment_model(raw@, is_last),
{
    let v = text::chars_of(raw.as_str());
    if text::has_char(&v, '[') || text::has_char(&v, ']') {
        return Err(PatternError::CharacterClassNotSupported);
    }
    if v.len() > 0 && v[0] == '!' {
        return Err(PatternError::NegativeMatchingNotSupported);
    }
    if text::has_char(&v, '+') || text::has_char(&v, '?') || text::has_char(&v, '(')
        || text::has_char(&v, ')') || text::has_char(&v, '^') || text::has_char(&v, '$')
        || text::has_char(&v, '.') {
        return Err(PatternError::RegexNotSupported);
    }
    if v.len() == 2 && v[0] == '*' && v[1] == '*' {
        assert(v@ =~= double_star());
        if is_last {
            return Ok(Segment::RecursiveWildcard);
        }
        return Err(PatternError::RecursiveWildcardNotFinal);
    }
    if v.len() == 1 && v[0] == '*' {
        assert(v@ =~= seq!['*']);
        return Ok(Segment::Wildcard);
    }
    if (v.len() > 0 && v[0] == '{') || text::has_char(&v, '}') {
        return Pattern::parse_capture_segment(raw.as_str());
    }
    Ok(Segment::Exact(raw.clone()))
}

impl Pattern {
    #[verifier::type_invariant]
    spec fn inv(&self) -> bool {
        pattern_model(self.source@) == Ok::<Seq<SegmentModel>, PatternErrorModel>(
            segment_views(self.segments@),
        )
    }

    /// Parses a pattern.
    pub fn parse(pattern: &str) -> (r: Result<Pattern, PatternError>)
        ensures
            match r {
                Ok(p) => p@ == pattern@ && pattern_model(pattern@) is Ok,
                Err(e) => pattern_model(pattern@) == Err::<Seq<SegmentModel>, PatternErrorModel>(e@),
            },
    {
        let v = text::chars_of(pattern);
        if v.len() == 0 || v[0] != '/' {
            return Err(PatternError::InvalidAddress);
        }
        let raws = text::split(&v, 1, '/');
        let ghost pieces = text::views(raws@);
        let mut segments: Vec<Segment> = Vec::new();
        let mut i: usize = 0;
        assert(segment_views(segments@) =~= Seq::<SegmentModel>::empty());
        while i < raws.len()
            invariant
                i <= raws@.len(),
                pieces == text::views(raws@),
                pieces.len() == raws@.len(),
                pattern_model(pattern@) == segments_upto(pieces, pieces.len()),
                segments_upto(pieces, i as nat) == Ok::<Seq<SegmentModel>, PatternErrorModel>(
                    segment_views(segments@),
                ),
            decreases raws@.len() - i,
        {
            assert(pieces[i as int] == raws@[i as int]@);
            let ghost start = segments@;
            match parse_segment(&raws[i], i == raws.len() - 1) {
                Ok(seg) => {
                    segments.push(seg);
                    assert(segment_views(segments@) =~= segment_views(start).push(seg@));
                },
                Err(e) => {
                    proof {
                        lemma_error_stays(pieces, (i + 1) as nat, pieces.len());
                    }
                    return Err(e);
                },
            }
            i = i + 1;
        }
        Ok(Pattern { source: pattern.to_owned(), segments })
    }

    /// Parses a segment that holds braces.
    pub fn parse_capture_segment(raw: &str) -> (r: Result<Segment, PatternError>)
        ensures
            segment_result(r) == capture_model(raw@),
    {
        let v = text::chars_of(raw);
        if text::count_char(&v, '{') > 1 || text::count_char(&v, '}') > 1 {
            return Err(PatternError::NestedBraces);
        }
        if v.len() == 0 || v[0] != '{' || v[v.len() - 1] != '}' {
            if text::has_char(&v, ',') {
                return Err(PatternError::AlternationNotSupported);
            }
            return Err(PatternError::InvalidCaptureName(raw.to_owned()));
        }
        assert(v.len() >= 2);
        let name = text::string_between(&v, 1, v.len() - 1);
        let n = text::chars_of(name.as_str());
        if n.len() == 0 {
            return Err(PatternError::EmptyCaptureName);
        }
        if text::has_char(&n, ':') {
            return Err(PatternError::TypedCaptureNotSupported);
        }
        let stars: Vec<char> = vec!['*', '*'];
        assert(stars@ =~= double_star());
        if text::contains_str(&n, &stars) {
            return Err(PatternError::RecursiveCaptureNotSupported);
        }
        if text::has_char(&n, '/') || text::has_char(&n, '{') || text::has_char(&n, '}')
            || text::has_char(&n, '*') {
            return Err(PatternError::InvalidCaptureName(name));
        }
        if text::has_char(&n, ',') {
            return Err(PatternError::AlternationNotSupported);
        }
        Ok(Segment::Capture(name))
    }

    /// Matches the segments of a pattern against those of an address, and adds
    /// what they capture.
    pub fn match_segments(
        pattern: &Vec<Segment>,
        address: &Vec<String>,
        captures: &mut TextMap<String>,
    ) -> (r: bool)
        requires
            recursive_only_last(segment_views(pattern@)),
        ensures
            r == accepts(segment_views(pattern@), text::views(address@)),
            r ==> text_values(final(captures)@) == text_values(
                old(captures)@,
            ).union_prefer_right(
                captured(
                    segment_views(pattern@),
                    text::views(address@),
                    fixed_len(segment_views(pattern@)),
                ),
            ),
            !r ==> text_values(final(captures)@) == text_values(
                old(captures)@,
            ).union_prefer_right(
                captured(
                    segment_views(pattern@),
                    text::views(address@),
                    matched_from(segment_views(pattern@), text::views(address@), 0),
                ),
            ),
    {
        let ghost segs = segment_views(pattern@);
        let ghost pieces = text::views(address@);
        let mut i: usize = 0;
        let ghost first = text_values(captures@);
        assert(first =~= first.union_prefer_right(captured(segs, pieces, 0)));
        while i < pattern.len()
            invariant
                i <= pattern@.len(),
                i <= address@.len(),
                i <= fixed_len(segs),
                segs == segment_views(pattern@),
                pieces == text::views(address@),
                recursive_only_last(segs),
                first == text_values(old(captures)@),
                matched_from(segs, pieces, 0) == matched_from(segs, pieces, i as nat),
                text_values(captures@) == first.union_prefer_right(
                    captured(segs, pieces, i as nat),
                ),
                forall|j: int| 0 <= j < i ==> segment_accepts(#[trigger] segs[j], pieces[j]),
            decreases pattern@.len() - i,
        {
            assert(segs[i as int] == pattern@[i as int]@);
            match &pattern[i] {
                Segment::Exact(expected) => {
                    if i >= address.len() {
                        return false;
                    }
                    assert(pieces[i as int] == address@[i as int]@);
                    if !text::same(address[i].as_str(), expected.as_str()) {
                        assert(!segment_accepts(segs[i as int], pieces[i as int]));
                        return false;
                    }
                },
                Segment::Wildcard => {
                    if i >= address.len() {
                        return false;
                    }
                },
                Segment::Capture(name) => {
                    if i >= address.len() {
                        return false;
                    }
                    assert(pieces[i as int] == address@[i as int]@);
                    let ghost start = captures@;
                    captures.insert(name.clone(), address[i].clone());
                    assert(text_values(captures@) =~= text_values(start).insert(
                        name@,
                        pieces[i as int],
                    ));
                    assert(text_values(captures@) =~= first.union_prefer_right(
                        captured(segs, pieces, (i + 1) as nat),
                    ));
                },
                Segment::RecursiveWildcard => {
                    return true;
                },
            }
            i = i + 1;
        }
        i == address.len()
    }

    /// Matches an address, and gives back what is captured.
    pub fn matches(&self, address: &str) -> (r: Option<CaptureSet>)
        ensures
            match r {
                Some(c) => pattern_accepts(self@, address@) && c@ == pattern_captures(
                    self@,
                    address@,
                ),
                None => !pattern_accepts(self@, address@),
            },
    {
        match self.match_with_suffix(address) {
            Some((captures, _)) => Some(captures),
            None => None,
        }
    }

    /// Matches an address, and gives back what is captured and the segments that
    /// a trailing `**` takes up.
    pub fn match_with_suffix(&self, address: &str) -> (r: Option<(CaptureSet, Vec<String>)>)
        ensures
            match r {
                Some(m) => pattern_accepts(self@, address@) && m.0@ == pattern_captures(
                    self@,
                    address@,
                ) && text::views(m.1@) == pattern_suffix(self@, address@),
                None => !pattern_accepts(self@, address@),
            },
    {
        proof {
            use_type_invariant(self);
            lemma_recursive_only_last(self.source@);
        }
        let v = text::chars_of(address);
        if v.len() == 0 || v[0] != '/' {
            return None;
        }
        let pieces = text::split(&v, 1, '/');
        let mut captures: TextMap<String> = TextMap::new();
        if !Self::match_segments(&self.segments, &pieces, &mut captures) {
            return None;
        }
        let ghost segs = segment_views(self.segments@);
        let ghost all = text::views(pieces@);
        assert(text_values(captures@) =~= captured(segs, all, fixed_len(segs)));
        let mut suffix: Vec<String> = Vec::new();
        let n: usize = self.segments.len();
        assert(n > 0 ==> segs.last() == self.segments@[n - 1]@);
        if n > 0 && matches!(self.segments[n - 1], Segment::RecursiveWildcard) {
            let mut i: usize = n - 1;
            assert(text::views(suffix@) =~= all.subrange(n - 1, i as int));
            while i < pieces.len()
                invariant
                    n >= 1,
                    n - 1 <= i <= pieces@.len(),
                    all == text::views(pieces@),
                    text::views(suffix@) == all.subrange(n - 1, i as int),
                decreases pieces@.len() - i,
            {
                let ghost start = suffix@;
                suffix.push(pieces[i].clone());
                assert(text::views(suffix@) =~= text::views(start).push(all[i as int]));
                i = i + 1;
                assert(text::views(suffix@) =~= all.subrange(n - 1, i as int));
            }
            assert(all.subrange(n - 1, all.len() as int) =~= all.skip(n - 1));
        } else {
            assert(text::views(suffix@) =~= Seq::<Seq<char>>::empty());
        }
        Some((CaptureSet { inner: captures }, suffix))
    }

    /// The text that the pattern was parsed from.
    pub fn source(&self) -> (r: &str)
        ensures
            r@ == self@,
    {
        self.source.as_str()
    }
}

impl Clone for Pattern {
    fn clone(&self) -> (r: Self)
        ensures
            r@ == self@,
    {
        proof {
            use_type_invariant(self);
        }
        let mut segments: Vec<Segment> = Vec::new();
        let mut i: usize = 0;
        while i < self.segments.len()
            invariant
                i <= self.segments@.len(),
                segments@.len() == i,
                forall|j: int| 0 <= j < i ==> (#[trigger] segments@[j])@ == self.segments@[j]@,
            decreases self.segments@.len() - i,
        {
            let seg = match &self.segments[i] {
                Segment::Exact(s) => Segment::Exact(s.clone()),
                Segment::Wildcard => Segment::Wildcard,
                Segment::RecursiveWildcard => Segment::RecursiveWildcard,
                Segment::Capture(s) => Segment::Capture(s.clone()),
            };
            segments.push(seg);
            i = i + 1;
        }
        assert(segment_views(segments@) =~= segment_views(self.segments@));
        Pattern { source: self.source.clone(), segments }
    }
}

/// The texts of a list of patterns.
pub open spec fn sources(patterns: Seq<Pattern>) -> Seq<Seq<char>> {
    patterns.map_values(|p: Pattern| p@)
}

/// Whether one of the patterns accepts the address.
pub open spec fn any_accepts(patterns: Seq<Seq<char>>, address: Seq<char>) -> bool {
    exists|i: int| 0 <= i < patterns.len() && pattern_accepts(#[trigger] patterns[i], address)
}

/// Whether an address matches any of the given patterns.
pub fn matches_any(patterns: &[Pattern], address: &str) -> (r: bool)
    ensures
        r == any_accepts(sources(patterns@), address@),
{
    let mut i: usize = 0;
    while i < patterns.len()
        invariant
            i <= patterns@.len(),
            forall|j: int|
                0 <= j < i ==> !pattern_accepts(#[trigger] sources(patterns@)[j], address@),
        decreases patterns@.len() - i,
    {
        assert(sources(patterns@)[i as int] == patterns@[i as int]@);
        if patterns[i].matches(address).is_some() {
            return true;
        }
        i = i + 1;
    }
    false
}

// ---------------------------------------------------------------------------
// Laws
// ---------------------------------------------------------------------------

/// `**` stands in last place only.
pub open spec fn recursive_only_last(segs: Seq<SegmentModel>) -> bool {
    forall|i: int| 0 <= i < segs.len() - 1 ==> !(#[trigger] segs[i] is RecursiveWildcard)
}

/// Once a segment is in error, so is every longer prefix.
proof fn lemma_error_stays(raws: Seq<Seq<char>>, n: nat, m: nat)
    requires
        n <= m,
        segments_upto(raws, n) is Err,
    ensures
        segments_upto(raws, m) == segments_upto(raws, n),
    decreases m - n,
{
    if n < m {
        lemma_error_stays(raws, n, (m - 1) as nat);
    }
}

/// Each segment of a valid prefix is what its raw text stands for.
pub proof fn lemma_segments_upto(raws: Seq<Seq<char>>, n: nat)
    requires
        n <= raws.len(),
        segments_upto(raws, n) is Ok,
    ensures
        segments_upto(raws, n)->Ok_0.len() == n,
        forall|i: int|
            0 <= i < n ==> segment_model(raws[i], i + 1 == raws.len()) == Ok::<
                SegmentModel,
                PatternErrorModel,
            >(#[trigger] segments_upto(raws, n)->Ok_0[i]),
    decreases n,
{
    if n > 0 {
        lemma_segments_upto(raws, (n - 1) as nat);
        let segs = segments_upto(raws, n)->Ok_0;
        let init = segments_upto(raws, (n - 1) as nat)->Ok_0;
        assert forall|i: int| 0 <= i < n implies segment_model(raws[i], i + 1 == raws.len()) == Ok::<
            SegmentModel,
            PatternErrorModel,
        >(#[trigger] segs[i]) by {
            if i < n - 1 {
                assert(segs[i] == init[i]);
            }
        }
    }
}

/// A pattern is valid exactly when it begins with `/` and each of its segments is
/// valid; it then has one segment for each raw one.
pub proof fn law_valid_iff_segments_valid(source: Seq<char>)
    ensures
        pattern_model(source) is Ok <==> {
            &&& address_segments(source) matches Some(raws)
            &&& forall|i: int|
                0 <= i < raws.len() ==> segment_model(#[trigger] raws[i], i + 1 == raws.len()) is Ok
        },
        pattern_model(source) is Ok ==> pattern_segments(source).len()
            == address_segments(source)->0.len(),
{
    if let Some(raws) = address_segments(source) {
        if pattern_model(source) is Ok {
            lemma_segments_upto(raws, raws.len());
            assert forall|i: int| 0 <= i < raws.len() implies segment_model(
                #[trigger] raws[i],
                i + 1 == raws.len(),
            ) is Ok by {
                assert(segment_model(raws[i], i + 1 == raws.len()) == Ok::<
                    SegmentModel,
                    PatternErrorModel,
                >(segments_upto(raws, raws.len())->Ok_0[i]));
            }
        }
        if forall|i: int|
            0 <= i < raws.len() ==> segment_model(#[trigger] raws[i], i + 1 == raws.len()) is Ok {
            lemma_all_valid(raws, raws.len());
        }
    }
}

/// Valid raw segments make a valid prefix.
pub proof fn lemma_all_valid(raws: Seq<Seq<char>>, n: nat)
    requires
        n <= raws.len(),
        forall|i: int|
            0 <= i < n ==> segment_model(#[trigger] raws[i], i + 1 == raws.len()) is Ok,
    ensures
        segments_upto(raws, n) is Ok,
    decreases n,
{
    if n > 0 {
        lemma_all_valid(raws, (n - 1) as nat);
        assert(segment_model(raws[n - 1], n == raws.len()) is Ok);
    }
}

/// In a valid pattern `**` is the final segment or does not occur.
pub proof fn lemma_recursive_only_last(source: Seq<char>)
    ensures
        recursive_only_last(pattern_segments(source)),
{
    if let Some(raws) = address_segments(source) {
        if pattern_model(source) is Ok {
            lemma_segments_upto(raws, raws.len());
            let segs = pattern_segments(source);
            assert forall|i: int| 0 <= i < segs.len() - 1 implies !(
            #[trigger] segs[i] is RecursiveWildcard) by {
                assert(segment_model(raws[i], false) == Ok::<SegmentModel, PatternErrorModel>(
                    segs[i],
                ));
            }
        }
    }
}

/// A pattern of literal segments alone accepts exactly its own text.
pub proof fn law_exact_pattern_matches_itself(source: Seq<char>, address: Seq<char>)
    requires
        pattern_model(source) is Ok,
        forall|i: int|
            0 <= i < pattern_segments(source).len() ==> #[trigger] pattern_segments(
                source,
            )[i] is Exact,
    ensures
        pattern_accepts(source, address) <==> address == source,
{
    let segs = pattern_segments(source);
    let raws = text::split_on(source.skip(1), '/');
    lemma_segments_upto(raws, raws.len());
    assert(!is_recursive(segs));
    assert forall|i: int| 0 <= i < segs.len() implies #[trigger] segs[i] == SegmentModel::Exact(
        raws[i],
    ) by {
        assert(segment_model(raws[i], i + 1 == raws.len()) == Ok::<SegmentModel, PatternErrorModel>(
            segs[i],
        ));
        assert(segs[i] is Exact);
    }
    if pattern_accepts(source, address) {
        let pieces = text::split_on(address.skip(1), '/');
        assert forall|i: int| 0 <= i < raws.len() implies raws[i] == pieces[i] by {
            assert(segment_accepts(segs[i], pieces[i]));
        }
        assert(raws =~= pieces);
        text::lemma_join_split(source.skip(1), '/');
        text::lemma_join_split(address.skip(1), '/');
        assert(source =~= seq!['/'] + source.skip(1));
        assert(address =~= seq!['/'] + address.skip(1));
    }
}

/// A pattern without `**` accepts only addresses of as many segments as it has.
pub proof fn law_fixed_pattern_fixes_length(source: Seq<char>, address: Seq<char>)
    requires
        !is_recursive(pattern_segments(source)),
        pattern_accepts(source, address),
    ensures
        address_segments(address) matches Some(pieces) && pieces.len() == pattern_segments(
            source,
        ).len(),
{
}

/// What a pattern with a trailing `**` accepts it accepts with any further
/// segments too, and captures the same.
pub proof fn law_recursive_accepts_subtree(
    source: Seq<char>,
    address: Seq<char>,
    further: Seq<char>,
)
    requires
        is_recursive(pattern_segments(source)),
        pattern_accepts(source, address),
    ensures
        pattern_accepts(source, address.push('/') + further),
        pattern_captures(source, address.push('/') + further) == pattern_captures(source, address),
        pattern_suffix(source, address.push('/') + further) == pattern_suffix(source, address)
            + text::split_on(further, '/'),
{
    let longer = address.push('/') + further;
    let segs = pattern_segments(source);
    let pieces = text::split_on(address.skip(1), '/');
    assert(longer.skip(1) =~= address.skip(1).push('/') + further);
    text::lemma_split_concat(address.skip(1), '/', further);
    let more = text::split_on(longer.skip(1), '/');
    assert(more == pieces + text::split_on(further, '/'));
    lemma_captured_prefix(segs, pieces, more, fixed_len(segs));
    assert(more.skip(fixed_len(segs) as int) =~= pieces.skip(fixed_len(segs) as int)
        + text::split_on(further, '/'));
}

proof fn lemma_captured_prefix(
    segs: Seq<SegmentModel>,
    a: Seq<Seq<char>>,
    b: Seq<Seq<char>>,
    n: nat,
)
    requires
        n <= a.len(),
        n <= b.len(),
        forall|i: int| 0 <= i < n ==> a[i] == b[i],
    ensures
        captured(segs, a, n) == captured(segs, b, n),
    decreases n,
{
    if n > 0 {
        lemma_captured_prefix(segs, a, b, (n - 1) as nat);
    }
}

/// A name is captured exactly when the pattern has a capture of that name, and
/// every captured value is a segment of the address.
pub proof fn law_captures_are_the_named_segments(
    segs: Seq<SegmentModel>,
    pieces: Seq<Seq<char>>,
    n: nat,
    name: Seq<char>,
)
    requires
        n <= segs.len(),
        n <= pieces.len(),
    ensures
        captured(segs, pieces, n).dom().contains(name) <==> exists|i: int|
            0 <= i < n && #[trigger] segs[i] == SegmentModel::Capture(name),
        captured(segs, pieces, n).dom().contains(name) ==> exists|i: int|
            0 <= i < n && #[trigger] segs[i] == SegmentModel::Capture(name) && captured(
                segs,
                pieces,
                n,
            )[name] == pieces[i],
    decreases n,
{
    if n > 0 {
        law_captures_are_the_named_segments(segs, pieces, (n - 1) as nat, name);
        if segs[n - 1] == SegmentModel::Capture(name) {
            assert(segs[n - 1] == SegmentModel::Capture(name));
        } else if captured(segs, pieces, n).dom().contains(name) {
            let i = choose|i: int|
                0 <= i < n - 1 && #[trigger] segs[i] == SegmentModel::Capture(name) && captured(
                    segs,
                    pieces,
                    (n - 1) as nat,
                )[name] == pieces[i];
            assert(segs[i] == SegmentModel::Capture(name));
        }
    }
}

/// Whether a raw segment is plain text: it holds no character with a meaning of its
/// own, and does not begin with `!`.
pub open spec fn is_plain(raw: Seq<char>) -> bool {
    &&& forall|i: int|
        0 <= i < raw.len() ==> {
            let c = #[trigger] raw[i];
            &&& c != '[' && c != ']' && c != '{' && c != '}' && c != '*'
            &&& c != '+' && c != '?' && c != '(' && c != ')' && c != '^' && c != '$' && c != '.'
        }
    &&& raw.len() > 0 ==> raw[0] != '!'
}

/// Plain text stands for the literal segment of the same text, wherever it stands.
pub proof fn law_plain_segment_is_literal(raw: Seq<char>, is_last: bool)
    requires
        is_plain(raw),
    ensures
        segment_model(raw, is_last) == Ok::<SegmentModel, PatternErrorModel>(
            SegmentModel::Exact(raw),
        ),
{
    if raw == double_star() || raw == seq!['*'] {
        assert(raw[0] == '*');
    }
}

/// Every pattern that begins with `/` and is made of plain text parses, and accepts its
/// own text and nothing else.
pub proof fn law_plain_pattern_accepts_itself(source: Seq<char>, address: Seq<char>)
    requires
        source.len() > 0,
        source[0] == '/',
        forall|i: int|
            0 <= i < text::split_on(source.skip(1), '/').len() ==> is_plain(
                #[trigger] text::split_on(source.skip(1), '/')[i],
            ),
    ensures
        pattern_model(source) is Ok,
        pattern_accepts(source, address) <==> address == source,
{
    let raws = text::split_on(source.skip(1), '/');
    assert forall|i: int| 0 <= i < raws.len() implies segment_model(
        #[trigger] raws[i],
        i + 1 == raws.len(),
    ) is Ok by {
        law_plain_segment_is_literal(raws[i], i + 1 == raws.len());
    }
    lemma_all_valid(raws, raws.len());
    lemma_segments_upto(raws, raws.len());
    let segs = pattern_segments(source);
    assert forall|i: int| 0 <= i < segs.len() implies #[trigger] segs[i] is Exact by {
        law_plain_segment_is_literal(raws[i], i + 1 == raws.len());
        assert(segment_model(raws[i], i + 1 == raws.len()) == Ok::<SegmentModel, PatternErrorModel>(
            segs[i],
        ));
    }
    law_exact_pattern_matches_itself(source, address);
}

proof fn lemma_no_occurrences(s: Seq<char>, c: char)
    requires
        forall|i: int| 0 <= i < s.len() ==> s[i] != c,
    ensures
        text::occurrences(s, c) == 0,
    decreases s.len(),
{
    if s.len() > 0 {
        lemma_no_occurrences(s.drop_last(), c);
    }
}

/// `*` is a wildcard, `**` a recursive one that must be final, and `{name}` a capture
/// of that name, where the name is plain text without `/`, `:` and `,`.
pub proof fn law_special_segments(name: Seq<char>, is_last: bool)
    requires
        name.len() > 0,
        is_plain(name),
        forall|i: int|
            0 <= i < name.len() ==> #[trigger] name[i] != '/' && name[i] != ':' && name[i] != ',',
    ensures
        segment_model(seq!['*'], is_last) == Ok::<SegmentModel, PatternErrorModel>(
            SegmentModel::Wildcard,
        ),
        segment_model(seq!['*', '*'], true) == Ok::<SegmentModel, PatternErrorModel>(
            SegmentModel::RecursiveWildcard,
        ),
        segment_model(seq!['*', '*'], false) == Err::<SegmentModel, PatternErrorModel>(
            PatternErrorModel::RecursiveWildcardNotFinal,
        ),
        segment_model(seq!['{'] + name + seq!['}'], is_last) == Ok::<
            SegmentModel,
            PatternErrorModel,
        >(SegmentModel::Capture(name)),
{
    let raw = seq!['{'] + name + seq!['}'];
    assert(seq!['*'] != double_star()) by {
        assert(seq!['*'].len() != double_star().len());
    }
    assert(raw.drop_last() =~= seq!['{'] + name);
    assert forall|i: int| 0 <= i < raw.len() implies {
        let c = #[trigger] raw[i];
        c == '{' && i == 0 || c == '}' && i == raw.len() - 1 || (0 < i < raw.len() - 1 && c
            == name[i - 1])
    } by {}
    assert(raw != double_star() && raw != seq!['*']) by {
        assert(raw[0] == '{');
    }
    assert(raw.subrange(1, raw.len() - 1) =~= name);
    let open = seq!['{'] + name;
    lemma_one_at_start(name, '{');
    lemma_no_occurrences(name, '}');
    lemma_no_occurrences(open, '}');
    assert(raw.last() == '}' && raw[0] == '{');
    assert(text::occurrences(raw, '{') == 1);
    assert(text::occurrences(raw, '}') == 1);
    if text::has_substring(name, double_star()) {
        let at = choose|at: int| text::occurs_at(name, double_star(), at);
        assert(name.subrange(at, at + 2)[0] == name[at]);
        assert(double_star()[0] == '*');
    }
}

proof fn lemma_one_at_start(s: Seq<char>, c: char)
    requires
        forall|i: int| 0 <= i < s.len() ==> s[i] != c,
    ensures
        text::occurrences(seq![c] + s, c) == 1,
    decreases s.len(),
{
    let t = seq![c] + s;
    if s.len() == 0 {
        assert(t.drop_last() =~= Seq::empty());
        assert(text::occurrences(t.drop_last(), c) == 0);
    } else {
        assert(t.drop_last() =~= seq![c] + s.drop_last());
        lemma_one_at_start(s.drop_last(), c);
    }
}

/// What is rejected, and with which error. The first that holds decides.
pub proof fn law_rejected_segments(raw: Seq<char>, is_last: bool, i: int)
    requires
        0 <= i < raw.len(),
    ensures
        raw[i] == '[' || raw[i] == ']' ==> segment_model(raw, is_last) == Err::<
            SegmentModel,
            PatternErrorModel,
        >(PatternErrorModel::CharacterClassNotSupported),
        raw[0] == '!' && !raw.contains('[') && !raw.contains(']') ==> segment_model(raw, is_last)
            == Err::<SegmentModel, PatternErrorModel>(
            PatternErrorModel::NegativeMatchingNotSupported,
        ),
        raw[0] != '!' && !raw.contains('[') && !raw.contains(']') && (raw[i] == '+' || raw[i] == '?'
            || raw[i] == '(' || raw[i] == ')' || raw[i] == '^' || raw[i] == '$' || raw[i] == '.')
            ==> segment_model(raw, is_last) == Err::<SegmentModel, PatternErrorModel>(
            PatternErrorModel::RegexNotSupported,
        ),
{
}

/// What matching means, segment by segment: there are enough address segments, as many
/// as the pattern has or, under a trailing `**`, at least as many as stand before it,
/// and each literal segment equals its address segment.
pub proof fn law_literals_decide(segs: Seq<SegmentModel>, pieces: Seq<Seq<char>>)
    requires
        segs.len() > 0,
        forall|i: int| 0 <= i < segs.len() - 1 ==> !(#[trigger] segs[i] is RecursiveWildcard),
    ensures
        segs.last() is RecursiveWildcard ==> (accepts(segs, pieces) <==> (pieces.len() >= segs.len()
            - 1 && forall|i: int|
            0 <= i < segs.len() && #[trigger] segs[i] is Exact ==> segs[i] == SegmentModel::Exact(
                pieces[i],
            ))),
        !(segs.last() is RecursiveWildcard) ==> (accepts(segs, pieces) <==> (pieces.len()
            == segs.len() && forall|i: int|
            0 <= i < segs.len() && #[trigger] segs[i] is Exact ==> segs[i] == SegmentModel::Exact(
                pieces[i],
            ))),
{
}

/// Of captures with the same name the last counts.
pub proof fn law_last_capture_counts(
    segs: Seq<SegmentModel>,
    pieces: Seq<Seq<char>>,
    n: nat,
    i: int,
    name: Seq<char>,
)
    requires
        0 <= i < n,
        segs[i] == SegmentModel::Capture(name),
        forall|j: int| i < j < n ==> #[trigger] segs[j] != SegmentModel::Capture(name),
    ensures
        captured(segs, pieces, n).dom().contains(name),
        captured(segs, pieces, n)[name] == pieces[i],
    decreases n,
{
    if i < n - 1 {
        law_last_capture_counts(segs, pieces, (n - 1) as nat, i, name);
        assert(segs[n - 1] != SegmentModel::Capture(name));
    }
}

/// A segment that only contains a star, or a brace behind its start that is not closed, is
/// literal: stars stand for segments alone.
pub proof fn law_embedded_star_is_literal(raw: Seq<char>, is_last: bool)
    requires
        raw != seq!['*'],
        raw != seq!['*', '*'],
        raw.len() > 0 ==> raw[0] != '!' && raw[0] != '{',
        forall|i: int|
            0 <= i < raw.len() ==> {
                let c = #[trigger] raw[i];
                &&& c != '[' && c != ']' && c != '}'
                &&& c != '+' && c != '?' && c != '(' && c != ')' && c != '^' && c != '$' && c != '.'
            },
    ensures
        segment_model(raw, is_last) == Ok::<SegmentModel, PatternErrorModel>(
            SegmentModel::Exact(raw),
        ),
{
}

/// A pattern is in error with the first of its segments that is.
pub proof fn law_first_error_counts(source: Seq<char>, i: int, e: PatternErrorModel)
    requires
        address_segments(source) matches Some(raws) && {
            &&& 0 <= i < raws.len()
            &&& segment_model(raws[i], i + 1 == raws.len()) == Err::<
                SegmentModel,
                PatternErrorModel,
            >(e)
            &&& forall|j: int|
                0 <= j < i ==> segment_model(#[trigger] raws[j], j + 1 == raws.len()) is Ok
        },
    ensures
        pattern_model(source) == Err::<Seq<SegmentModel>, PatternErrorModel>(e),
{
    let raws = address_segments(source)->0;
    lemma_all_valid(raws, i as nat);
    lemma_error_stays(raws, (i + 1) as nat, raws.len());
}

/// Braces that do not make a capture are errors: an empty name, a type behind a colon, a
/// choice, and a segment that the braces do not enclose.
pub proof fn law_bad_captures(a: Seq<char>, b: Seq<char>, is_last: bool)
    requires
        a.len() > 0,
        b.len() > 0,
        is_plain(a),
        is_plain(b),
        forall|i: int|
            0 <= i < a.len() ==> #[trigger] a[i] != '/' && a[i] != ':' && a[i] != ',',
        forall|i: int|
            0 <= i < b.len() ==> #[trigger] b[i] != '/' && b[i] != ':' && b[i] != ',',
        b[0] != '!',
    ensures
        segment_model(seq!['{', '}'], is_last) == Err::<SegmentModel, PatternErrorModel>(
            PatternErrorModel::EmptyCaptureName,
        ),
        segment_model(seq!['{'] + (a + seq![':'] + b) + seq!['}'], is_last) == Err::<
            SegmentModel,
            PatternErrorModel,
        >(PatternErrorModel::TypedCaptureNotSupported),
        segment_model(seq!['{'] + (a + seq![','] + b) + seq!['}'], is_last) == Err::<
            SegmentModel,
            PatternErrorModel,
        >(PatternErrorModel::AlternationNotSupported),
        segment_model(seq!['{'] + a, is_last) == Err::<SegmentModel, PatternErrorModel>(
            PatternErrorModel::InvalidCaptureName(seq!['{'] + a),
        ),
{
    lemma_braced(Seq::empty(), is_last);
    assert(seq!['{'] + Seq::<char>::empty() + seq!['}'] =~= seq!['{', '}']);
    let typed = a + seq![':'] + b;
    assert forall|i: int| 0 <= i < typed.len() implies {
        let c = #[trigger] typed[i];
        c == ':' || (i < a.len() && c == a[i]) || (i > a.len() && c == b[i - a.len() - 1])
    } by {}
    assert(typed[a.len() as int] == ':');
    lemma_braced(typed, is_last);
    let choice = a + seq![','] + b;
    assert forall|i: int| 0 <= i < choice.len() implies {
        let c = #[trigger] choice[i];
        c == ',' || (i < a.len() && c == a[i]) || (i > a.len() && c == b[i - a.len() - 1])
    } by {}
    assert(choice[a.len() as int] == ',');
    lemma_braced(choice, is_last);
    lemma_no_double_star(choice);
    let open = seq!['{'] + a;
    assert forall|i: int| 0 <= i < open.len() implies {
        let c = #[trigger] open[i];
        i == 0 && c == '{' || i > 0 && c == a[i - 1]
    } by {}
    lemma_one_at_start(a, '{');
    lemma_no_occurrences(open, '}');
    assert(open[0] == '{');
    assert(open.last() == a[a.len() - 1]);
}

proof fn lemma_no_double_star(s: Seq<char>)
    requires
        forall|i: int| 0 <= i < s.len() ==> s[i] != '*',
    ensures
        !text::has_substring(s, double_star()),
{
    if text::has_substring(s, double_star()) {
        let at = choose|at: int| text::occurs_at(s, double_star(), at);
        assert(s.subrange(at, at + 2)[0] == s[at]);
        assert(double_star()[0] == '*');
    }
}

/// A text in braces is read by the rules for capture names.
proof fn lemma_braced(name: Seq<char>, is_last: bool)
    requires
        forall|i: int|
            0 <= i < name.len() ==> {
                let c = #[trigger] name[i];
                &&& c != '[' && c != ']' && c != '{' && c != '}' && c != '*'
                &&& c != '+' && c != '?' && c != '(' && c != ')' && c != '^' && c != '$' && c != '.'
            },
    ensures
        ({
            let raw = seq!['{'] + name + seq!['}'];
            &&& segment_model(raw, is_last) == capture_model(raw)
            &&& text::occurrences(raw, '{') == 1
            &&& text::occurrences(raw, '}') == 1
            &&& raw[0] == '{'
            &&& raw.last() == '}'
            &&& raw.subrange(1, raw.len() - 1) == name
        }),
{
    let raw = seq!['{'] + name + seq!['}'];
    assert(raw.drop_last() =~= seq!['{'] + name);
    assert forall|i: int| 0 <= i < raw.len() implies {
        let c = #[trigger] raw[i];
        c == '{' && i == 0 || c == '}' && i == raw.len() - 1 || (0 < i < raw.len() - 1 && c
            == name[i - 1])
    } by {}
    assert(raw != double_star() && raw != seq!['*']) by {
        assert(raw[0] == '{');
    }
    assert(raw.subrange(1, raw.len() - 1) =~= name);
    lemma_one_at_start(name, '{');
    lemma_no_occurrences(name, '}');
    lemma_no_occurrences(seq!['{'] + name, '}');
}

/// An address matches a list of patterns exactly if one of them accepts it: no pattern
/// accepts nothing, and a further pattern adds what it accepts, wherever it stands.
pub proof fn law_one_pattern_suffices(
    front: Seq<Seq<char>>,
    pattern: Seq<char>,
    back: Seq<Seq<char>>,
    address: Seq<char>,
)
    ensures
        !any_accepts(Seq::empty(), address),
        any_accepts(front + seq![pattern] + back, address) <==> pattern_accepts(pattern, address)
            || any_accepts(front + back, address),
{
    let all = front + seq![pattern] + back;
    let less = front + back;
    let n = front.len() as int;
    assert(all[n] == pattern);
    if any_accepts(all, address) {
        let i = choose|i: int| 0 <= i < all.len() && pattern_accepts(#[trigger] all[i], address);
        if i < n {
            assert(less[i] == all[i]);
        } else if i > n {
            assert(less[i - 1] == all[i]);
        }
    }
    if any_accepts(less, address) {
        let i = choose|i: int| 0 <= i < less.len() && pattern_accepts(#[trigger] less[i], address);
        if i < n {
            assert(all[i] == less[i]);
        } else {
            assert(all[i + 1] == less[i]);
        }
    }
}

/// The text of an error on a pattern feature says that the feature is not supported, and
/// that of a bad capture name ends with the name in quotes.
pub proof fn law_error_texts(name: Seq<char>)
    ensures
        "are not supported in routing v1"@.is_suffix_of(
            error_text(PatternErrorModel::CharacterClassNotSupported),
        ),
        "is not supported in routing v1"@.is_suffix_of(
            error_text(PatternErrorModel::AlternationNotSupported),
        ),
        "are not supported in routing v1"@.is_suffix_of(
            error_text(PatternErrorModel::TypedCaptureNotSupported),
        ),
        "are not supported in routing v1"@.is_suffix_of(
            error_text(PatternErrorModel::RecursiveCaptureNotSupported),
        ),
        "are not supported in routing v1"@.is_suffix_of(
            error_text(PatternErrorModel::RegexNotSupported),
        ),
        "is not supported in routing v1"@.is_suffix_of(
            error_text(PatternErrorModel::NegativeMatchingNotSupported),
        ),
        (seq!['\''] + name + seq!['\'']).is_suffix_of(
            error_text(PatternErrorModel::InvalidCaptureName(name)),
        ),
{
    reveal_strlit("are not supported in routing v1");
    reveal_strlit("is not supported in routing v1");
    reveal_strlit("character classes are not supported in routing v1");
    reveal_strlit("alternation is not supported in routing v1");
    reveal_strlit("typed captures are not supported in routing v1");
    reveal_strlit("recursive captures are not supported in routing v1");
    reveal_strlit("regular expressions are not supported in routing v1");
    reveal_strlit("negative matching is not supported in routing v1");
    reveal_strlit("capture name contains forbidden characters: '");
    reveal_strlit("'");
    let s = error_text(PatternErrorModel::InvalidCaptureName(name));
    let end = seq!['\''] + name + seq!['\''];
    assert(s.subrange(s.len() - end.len(), s.len() as int) =~= end);
}

} // verus!
