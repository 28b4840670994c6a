//! Address mapping between local and remote hubs.
//!
//! Rules translate addresses with patterns, capture substitution and `**`
//! passthrough.
use vstd::prelude::*;

use crate::bridge::config::MappingConfig;
use crate::routing;
use crate::routing::{CaptureSet, Pattern};
use crate::text;

verus! {

/// Direction that a mapping rule applies to.
#[derive(Debug, Clone, Copy, PartialEq, Eq, Structural)]
pub enum Direction {
    /// Local hub to remote peer.
    Outbound,
    /// Remote peer to local hub.
    Inbound,
    /// Both directions.
    Both,
}

/// The direction with the given name.
pub open spec fn direction_named(s: Seq<char>) -> Option<Direction> {
    if s == "outbound"@ {
        Some(Direction::Outbound)
    } else if s == "inbound"@ {
        Some(Direction::Inbound)
    } else if s == "both"@ {
        Some(Direction::Both)
    } else {
        None
    }
}

impl Direction {
    /// The direction with the given name.
    pub fn parse(s: &str) -> (r: Option<Self>)
        ensures
            r == direction_named(s@),
    {
        if text::same(s, "outbound") {
            Some(Direction::Outbound)
        } else if text::same(s, "inbound") {
            Some(Direction::Inbound)
        } else if text::same(s, "both") {
            Some(Direction::Both)
        } else {
            None
        }
    }

    /// Whether this direction includes outbound.
    pub fn includes_outbound(self) -> (r: bool)
        ensures
            r == (self != Direction::Inbound),
    {
        match self {
            Direction::Inbound => false,
            _ => true,
        }
    }

    /// Whether this direction includes inbound.
    pub fn includes_inbound(self) -> (r: bool)
        ensures
            r == (self != Direction::Outbound),
    {
        match self {
            Direction::Outbound => false,
            _ => true,
        }
    }
}

/// A compiled mapping rule.
#[derive(Debug)]
pub struct MappingRule {
    /// Pattern to match against.
    pub pattern: Pattern,
    /// Template of the output address.
    pub to_template: String,
    /// Direction that the rule applies to.
    pub direction: Direction,
    /// Signal type filter; empty for all types.
    pub signal_filter: Vec<String>,
}

/// What a rule is, mathematically.
#[verifier::ext_equal]
pub struct RuleModel {
    pub pattern: Seq<char>,
    pub to_template: Seq<char>,
    pub direction: Direction,
    pub signal_filter: Seq<Seq<char>>,
}

impl View for MappingRule {
    type V = RuleModel;

    open spec fn view(&self) -> RuleModel {
        RuleModel {
            pattern: self.pattern@,
            to_template: self.to_template@,
            direction: self.direction,
            signal_filter: text::views(self.signal_filter@),
        }
    }
}

/// What each rule of a list stands for.
pub open spec fn rule_views(s: Seq<MappingRule>) -> Seq<RuleModel> {
    s.map_values(|r: MappingRule| r@)
}

/// The rule that a configuration stands for; none where its direction or its
/// pattern is invalid.
pub open spec fn compiled_rule(cfg: MappingConfig) -> Option<RuleModel> {
    match direction_named(cfg.direction@) {
        None => None,
        Some(direction) => if routing::pattern_model(cfg.from_pattern@) is Ok {
            Some(
                RuleModel {
                    pattern: cfg.from_pattern@,
                    to_template: cfg.to_template@,
                    direction,
                    signal_filter: text::views(cfg.signal_filter@),
                },
            )
        } else {
            None
        },
    }
}

/// The valid rules among the configurations, in order.
pub open spec fn compiled_rules(configs: Seq<MappingConfig>) -> Seq<RuleModel>
    decreases configs.len(),
{
    if configs.len() == 0 {
        Seq::empty()
    } else {
        let init = compiled_rules(configs.drop_last());
        match compiled_rule(configs.last()) {
            Some(rule) => init.push(rule),
            None => init,
        }
    }
}

// ---------------------------------------------------------------------------
// Templates
// ---------------------------------------------------------------------------

/// The placeholder of a capture.
pub open spec fn placeholder(name: Seq<char>) -> Seq<char> {
    seq!['{'] + name + seq!['}']
}

/// The template with the placeholders of the first `n` names replaced one after
/// the other.
pub open spec fn substituted(
    template: Seq<char>,
    names: Seq<Seq<char>>,
    captures: Map<Seq<char>, Seq<char>>,
    n: nat,
) -> Seq<char>
    decreases n,
{
    if n == 0 {
        template
    } else {
        text::replace_all(
            substituted(template, names, captures, (n - 1) as nat),
            placeholder(names[n - 1]),
            captures[names[n - 1]],
        )
    }
}

/// The text without a trailing slash, unless it is the slash alone.
pub open spec fn without_trailing_slash(s: Seq<char>) -> Seq<char> {
    if s.len() > 1 && s.last() == '/' {
        s.drop_last()
    } else {
        s
    }
}

/// The template with captures and `**` replaced. Where `**` stands for nothing,
/// the slash that it leaves behind goes too.
pub open spec fn expanded(
    template: Seq<char>,
    names: Seq<Seq<char>>,
    captures: Map<Seq<char>, Seq<char>>,
    suffix: Seq<Seq<char>>,
) -> Seq<char> {
    let named = substituted(template, names, captures, names.len());
    if text::has_substring(template, routing::double_star()) {
        let joined = text::join_with(suffix, '/');
        let passed = text::replace_all(named, routing::double_star(), joined);
        if joined.len() == 0 {
            without_trailing_slash(passed)
        } else {
            passed
        }
    } else {
        named
    }
}

/// Applies a template: `{name}` becomes the captured value, name by name in
/// ascending order, and `**` the segments of the suffix.
pub fn apply_template(template: &str, captures: &CaptureSet, suffix: &Vec<String>) -> (r: String)
    ensures
        routing::enumerates(captures.names(), captures@),
        r@ == expanded(template@, captures.names(), captures@, text::views(suffix@)),
{
    let source = text::chars_of(template);
    let mut result = text::chars_of(template);
    let pairs = captures.iter();
    let ghost names = captures.names();
    let mut i: usize = 0;
    while i < pairs.len()
        invariant
            i <= pairs@.len(),
            names == captures.names(),
            pairs@.len() == names.len(),
            forall|j: int|
                0 <= j < pairs@.len() ==> (#[trigger] pairs@[j]).0@ == names[j] && pairs@[j].1@
                    == captures@[names[j]],
            result@ == substituted(template@, names, captures@, i as nat),
        decreases pairs@.len() - i,
    {
        let (name, value) = pairs[i];
        let mut hole: Vec<char> = vec!['{'];
        let mut n = text::chars_of(name);
        hole.append(&mut n);
        hole.push('}');
        assert(hole@ =~= placeholder(names[i as int]));
        let with = text::chars_of(value);
        result = text::replace(&result, &hole, &with);
        i = i + 1;
    }
    let stars: Vec<char> = vec!['*', '*'];
    assert(stars@ =~= routing::double_star());
    if text::contains_str(&source, &stars) {
        let joined = text::join(suffix, '/');
        let with = text::chars_of(joined.as_str());
        result = text::replace(&result, &stars, &with);
        if with.len() == 0 && result.len() > 1 && result[result.len() - 1] == '/' {
            result.pop();
        }
    }
    text::string_of(&result)
}

// ---------------------------------------------------------------------------
// Engine
// ---------------------------------------------------------------------------

/// Engine that applies mapping rules to addresses.
#[derive(Debug)]
pub struct MappingEngine {
    rules: Vec<MappingRule>,
}

impl View for MappingEngine {
    type V = Seq<RuleModel>;

    closed spec fn view(&self) -> Seq<RuleModel> {
        rule_views(self.rules@)
    }
}

/// Whether a rule holds for a query. A query names the direction of travel;
/// `Both` describes rules only.
pub open spec fn rule_applies(
    rule: RuleModel,
    address: Seq<char>,
    direction: Direction,
    signal_type: Option<Seq<char>>,
) -> bool {
    &&& match direction {
        Direction::Outbound => rule.direction != Direction::Inbound,
        Direction::Inbound => rule.direction != Direction::Outbound,
        Direction::Both => false,
    }
    &&& match signal_type {
        Some(t) => rule.signal_filter.len() == 0 || rule.signal_filter.contains(t),
        None => true,
    }
    &&& routing::pattern_accepts(rule.pattern, address)
}

/// Whether `result` is the address that a rule makes of `address`.
pub open spec fn rule_result(rule: RuleModel, address: Seq<char>, result: Seq<char>) -> bool {
    exists|names: Seq<Seq<char>>|
        routing::enumerates(names, routing::pattern_captures(rule.pattern, address)) && result
            == #[trigger] expanded(
            rule.to_template,
            names,
            routing::pattern_captures(rule.pattern, address),
            routing::pattern_suffix(rule.pattern, address),
        )
}

/// Whether `result` is what the rules make of a query: the first rule that
/// applies decides, and without one there is no result.
pub open spec fn maps_to(
    rules: Seq<RuleModel>,
    address: Seq<char>,
    direction: Direction,
    signal_type: Option<Seq<char>>,
    result: Option<Seq<char>>,
) -> bool {
    match result {
        Some(mapped) => exists|i: int|
            0 <= i < rules.len() && rule_applies(#[trigger] rules[i], address, direction, signal_type)
                && rule_result(rules[i], address, mapped) && forall|j: int|
                0 <= j < i ==> !rule_applies(#[trigger] rules[j], address, direction, signal_type),
        None => forall|i: int|
            0 <= i < rules.len() ==> !rule_applies(
                #[trigger] rules[i],
                address,
                direction,
                signal_type,
            ),
    }
}

/// What the rules make of a query: the one result that `maps_to` admits.
pub open spec fn mapping(
    rules: Seq<RuleModel>,
    address: Seq<char>,
    direction: Direction,
    signal_type: Option<Seq<char>>,
) -> Option<Seq<char>> {
    choose|result: Option<Seq<char>>|
        maps_to(rules, address, direction, signal_type, result)
}

/// The characters of an optional text.
pub open spec fn opt_str(s: Option<&str>) -> Option<Seq<char>> {
    match s {
        Some(t) => Some(t@),
        None => None,
    }
}

/// The patterns of the rules that apply outbound, in order.
pub open spec fn outbound_sources(rules: Seq<RuleModel>) -> Seq<Seq<char>>
    decreases rules.len(),
{
    if rules.len() == 0 {
        Seq::empty()
    } else {
        let init = outbound_sources(rules.drop_last());
        if rules.last().direction != Direction::Inbound {
            init.push(rules.last().pattern)
        } else {
            init
        }
    }
}

/// The texts of a list of pattern references.
pub open spec fn ref_sources(patterns: Seq<&Pattern>) -> Seq<Seq<char>> {
    patterns.map_values(|p: &Pattern| p@)
}

impl MappingEngine {
    /// An engine for the given rules. Rules with an invalid direction or pattern
    /// are skipped.
    pub fn new(configs: &[MappingConfig]) -> (r: Self)
        ensures
            r@ == compiled_rules(configs@),
    {
        let mut rules: Vec<MappingRule> = Vec::new();
        let mut i: usize = 0;
        assert(configs@.take(0) =~= Seq::empty());
        assert(rule_views(rules@) =~= Seq::<RuleModel>::empty());
        while i < configs.len()
            invariant
                i <= configs@.len(),
                rule_views(rules@) == compiled_rules(configs@.take(i as int)),
            decreases configs@.len() - i,
        {
            assert(configs@.take(i as int + 1).drop_last() =~= configs@.take(i as int));
            let cfg = &configs[i];
            if let Some(direction) = Direction::parse(cfg.direction.as_str()) {
                if let Ok(pattern) = Pattern::parse(cfg.from_pattern.as_str()) {
                    let ghost start = rules@;
                    let rule = MappingRule {
                        pattern,
                        to_template: cfg.to_template.clone(),
                        direction,
                        signal_filter: text::clone_strings(&cfg.signal_filter),
                    };
                    rules.push(rule);
                    assert(rule_views(rules@) =~= rule_views(start).push(rule@));
                }
            }
            i = i + 1;
        }
        assert(configs@.take(configs@.len() as int) =~= configs@);
        MappingEngine { rules }
    }

    /// Maps an address in the given direction. The first rule that applies
    /// decides. Without a signal type, the signal filters are skipped.
    pub fn map(
        &self,
        address: &str,
        direction: Direction,
        signal_type: Option<&str>,
    ) -> (r: Option<String>)
        ensures
            maps_to(self@, address@, direction, opt_str(signal_type), text::opt_view(r)),
            text::opt_view(r) == mapping(self@, address@, direction, opt_str(signal_type)),
    {
        let r = self.first_match(address, direction, signal_type);
        proof {
            law_mapping_is_a_function(
                self@,
                address@,
                direction,
                opt_str(signal_type),
                text::opt_view(r),
                mapping(self@, address@, direction, opt_str(signal_type)),
            );
        }
        r
    }

    fn first_match(
        &self,
        address: &str,
        direction: Direction,
        signal_type: Option<&str>,
    ) -> (r: Option<String>)
        ensures
            maps_to(self@, address@, direction, opt_str(signal_type), text::opt_view(r)),
    {
        let mut i: usize = 0;
        while i < self.rules.len()
            invariant
                i <= self.rules@.len(),
                forall|j: int|
                    0 <= j < i ==> !rule_applies(
                        #[trigger] self@[j],
                        address@,
                        direction,
                        opt_str(signal_type),
                    ),
            decreases self.rules@.len() - i,
        {
            let rule = &self.rules[i];
            assert(self@[i as int] == rule@);
            let in_direction = match direction {
                Direction::Outbound => rule.direction.includes_outbound(),
                Direction::Inbound => rule.direction.includes_inbound(),
                Direction::Both => false,
            };
            let admitted = match signal_type {
                Some(t) => rule.signal_filter.len() == 0 || text::list_contains(
                    &rule.signal_filter,
                    t,
                ),
                None => true,
            };
            if in_direction && admitted {
                if let Some((captures, suffix)) = rule.pattern.match_with_suffix(address) {
                    let result = apply_template(rule.to_template.as_str(), &captures, &suffix);
                    assert(result@ == expanded(
                        rule@.to_template,
                        captures.names(),
                        routing::pattern_captures(rule@.pattern, address@),
                        routing::pattern_suffix(rule@.pattern, address@),
                    ));
                    assert(rule_result(self@[i as int], address@, result@));
                    assert(rule_applies(self@[i as int], address@, direction, opt_str(signal_type)));
                    return Some(result);
                }
            }
            i = i + 1;
        }
        None
    }

    /// The patterns to subscribe to on the local hub.
    pub fn outbound_patterns(&self) -> (r: Vec<&Pattern>)
        ensures
            ref_sources(r@) == outbound_sources(self@),
    {
        let mut out: Vec<&Pattern> = Vec::new();
        let mut i: usize = 0;
        assert(self@.take(0) =~= Seq::empty());
        assert(ref_sources(out@) =~= Seq::<Seq<char>>::empty());
        while i < self.rules.len()
            invariant
                i <= self.rules@.len(),
                ref_sources(out@) == outbound_sources(self@.take(i as int)),
            decreases self.rules@.len() - i,
        {
            assert(self@.take(i as int + 1).drop_last() =~= self@.take(i as int));
            assert(self@.take(i as int + 1).last() == self.rules@[i as int]@);
            if self.rules[i].direction.includes_outbound() {
                let ghost start = out@;
                out.push(&self.rules[i].pattern);
                assert(ref_sources(out@) =~= ref_sources(start).push(self.rules@[i as int].pattern@));
            }
            i = i + 1;
        }
        assert(self@.take(self@.len() as int) =~= self@);
        out
    }
}

// ---------------------------------------------------------------------------
// Laws
// ---------------------------------------------------------------------------

/// A query without a direction of travel has no result.
pub proof fn law_both_query_maps_to_nothing(
    rules: Seq<RuleModel>,
    address: Seq<char>,
    signal_type: Option<Seq<char>>,
    result: Option<Seq<char>>,
)
    requires
        maps_to(rules, address, Direction::Both, signal_type, result),
    ensures
        result is None,
{
}

/// Two ascending lists with the same members are equal.
proof fn lemma_enumeration_unique(
    a: Seq<Seq<char>>,
    b: Seq<Seq<char>>,
    m: Map<Seq<char>, Seq<char>>,
)
    requires
        routing::enumerates(a, m),
        routing::enumerates(b, m),
    ensures
        a == b,
    decreases a.len(),
{
    if a.len() == 0 {
        if b.len() > 0 {
            assert(b.contains(b[0]));
            assert(a.contains(b[0]));
        }
        assert(a =~= b);
    } else {
        assert(a.contains(a[0]));
        assert(b.contains(a[0]));
        let x = a.last();
        let y = b.last();
        assert(a.contains(a[a.len() - 1]));
        assert(b.contains(b[b.len() - 1]));
        assert(b.contains(x));
        assert(a.contains(y));
        let i = choose|i: int| 0 <= i < b.len() && b[i] == x;
        let j = choose|j: int| 0 <= j < a.len() && a[j] == y;
        if x != y {
            assert(text::before(b[i], b[b.len() - 1]));
            assert(text::before(a[j], a[a.len() - 1]));
            text::lemma_before_total(x, y);
        }
        let rest = m.remove(x);
        assert forall|k: Seq<char>| #[trigger] a.drop_last().contains(k) <==> rest.dom().contains(
            k,
        ) by {
            lemma_drop_last_contains(a, k);
        }
        assert forall|k: Seq<char>| #[trigger] b.drop_last().contains(k) <==> rest.dom().contains(
            k,
        ) by {
            lemma_drop_last_contains(b, k);
        }
        lemma_enumeration_unique(a.drop_last(), b.drop_last(), rest);
        assert(a =~= a.drop_last().push(x));
        assert(b =~= b.drop_last().push(y));
    }
}

proof fn lemma_drop_last_contains(a: Seq<Seq<char>>, k: Seq<char>)
    requires
        a.len() > 0,
        forall|i: int, j: int|
            0 <= i < j < a.len() ==> text::before(#[trigger] a[i], #[trigger] a[j]),
    ensures
        a.drop_last().contains(k) <==> (a.contains(k) && k != a.last()),
{
    if a.drop_last().contains(k) {
        let i = choose|i: int| 0 <= i < a.drop_last().len() && a.drop_last()[i] == k;
        assert(a[i] == k);
        assert(text::before(a[i], a[a.len() - 1]));
        text::lemma_before_irreflexive(k);
    }
    if a.contains(k) && k != a.last() {
        let i = choose|i: int| 0 <= i < a.len() && a[i] == k;
        assert(a.drop_last()[i] == k);
    }
}

/// A query has one result.
pub proof fn law_mapping_is_a_function(
    rules: Seq<RuleModel>,
    address: Seq<char>,
    direction: Direction,
    signal_type: Option<Seq<char>>,
    a: Option<Seq<char>>,
    b: Option<Seq<char>>,
)
    requires
        maps_to(rules, address, direction, signal_type, a),
        maps_to(rules, address, direction, signal_type, b),
    ensures
        a == b,
{
    if a is Some && b is Some {
        let i = choose|i: int|
            0 <= i < rules.len() && rule_applies(#[trigger] rules[i], address, direction, signal_type)
                && rule_result(rules[i], address, a->0) && forall|j: int|
                0 <= j < i ==> !rule_applies(#[trigger] rules[j], address, direction, signal_type);
        let k = choose|i: int|
            0 <= i < rules.len() && rule_applies(#[trigger] rules[i], address, direction, signal_type)
                && rule_result(rules[i], address, b->0) && forall|j: int|
                0 <= j < i ==> !rule_applies(#[trigger] rules[j], address, direction, signal_type);
        assert(i == k);
        let rule = rules[i];
        let captures = routing::pattern_captures(rule.pattern, address);
        let suffix = routing::pattern_suffix(rule.pattern, address);
        let na = choose|names: Seq<Seq<char>>|
            routing::enumerates(names, captures) && a->0 == #[trigger] expanded(
                rule.to_template,
                names,
                captures,
                suffix,
            );
        let nb = choose|names: Seq<Seq<char>>|
            routing::enumerates(names, captures) && b->0 == #[trigger] expanded(
                rule.to_template,
                names,
                captures,
                suffix,
            );
        lemma_enumeration_unique(na, nb, captures);
    }
}

/// Where an earlier rule applies, later rules do not matter.
pub proof fn law_first_match_wins(
    rules: Seq<RuleModel>,
    more: Seq<RuleModel>,
    address: Seq<char>,
    direction: Direction,
    signal_type: Option<Seq<char>>,
    result: Seq<char>,
)
    requires
        maps_to(rules, address, direction, signal_type, Some(result)),
    ensures
        maps_to(rules + more, address, direction, signal_type, Some(result)),
{
    let all = rules + more;
    let i = choose|i: int|
        0 <= i < rules.len() && rule_applies(#[trigger] rules[i], address, direction, signal_type)
            && rule_result(rules[i], address, result) && forall|j: int|
            0 <= j < i ==> !rule_applies(#[trigger] rules[j], address, direction, signal_type);
    assert(all[i] == rules[i]);
    assert forall|j: int| 0 <= j < i implies !rule_applies(
        #[trigger] all[j],
        address,
        direction,
        signal_type,
    ) by {
        assert(all[j] == rules[j]);
    }
}

/// Whether a text can stand before `/**` in a passthrough rule: it is empty, or a
/// pattern of literal segments in which `**` does not occur.
pub open spec fn is_base(base: Seq<char>) -> bool {
    base.len() == 0 || {
        &&& routing::pattern_model(base) is Ok
        &&& forall|i: int|
            0 <= i < routing::pattern_segments(base).len()
                ==> #[trigger] routing::pattern_segments(base)[i] is Exact
        &&& !text::has_substring(base, routing::double_star())
    }
}

/// The base with everything below it.
pub open spec fn subtree(base: Seq<char>) -> Seq<char> {
    base.push('/') + routing::double_star()
}

/// The address of `rest` below a base.
pub open spec fn below(base: Seq<char>, rest: Seq<char>) -> Seq<char> {
    if base.len() > 0 && rest.len() == 0 {
        base
    } else {
        base.push('/') + rest
    }
}

/// A pair of rules that pass the subtree of one base out as that of another, and
/// back in.
pub open spec fn passthrough_rules(near: Seq<char>, far: Seq<char>) -> Seq<RuleModel> {
    seq![
        RuleModel {
            pattern: subtree(near),
            to_template: subtree(far),
            direction: Direction::Outbound,
            signal_filter: Seq::empty(),
        },
        RuleModel {
            pattern: subtree(far),
            to_template: subtree(near),
            direction: Direction::Inbound,
            signal_filter: Seq::empty(),
        },
    ]
}

/// The literal segments of a base.
spec fn base_pieces(base: Seq<char>) -> Seq<Seq<char>> {
    if base.len() == 0 {
        Seq::empty()
    } else {
        text::split_on(base.skip(1), '/')
    }
}

/// The pattern of a subtree has the literal segments of its base, then `**`.
proof fn lemma_subtree_segments(base: Seq<char>)
    requires
        is_base(base),
    ensures
        base.len() > 0 ==> base[0] == '/',
        routing::pattern_segments(subtree(base)) == base_pieces(base).map_values(
            |s: Seq<char>| routing::SegmentModel::Exact(s),
        ).push(routing::SegmentModel::RecursiveWildcard),
{
    let stars = routing::double_star();
    let source = subtree(base);
    let pieces = base_pieces(base);
    let raws = text::split_on(source.skip(1), '/');
    assert(!stars.contains('/'));
    text::lemma_split_single(stars, '/');
    if base.len() > 0 {
        assert(source.skip(1) =~= base.skip(1).push('/') + stars);
        text::lemma_split_concat(base.skip(1), '/', stars);
        routing::lemma_segments_upto(pieces, pieces.len());
    } else {
        assert(source.skip(1) =~= stars);
    }
    assert(raws =~= pieces.push(stars));
    let exact = pieces.map_values(|s: Seq<char>| routing::SegmentModel::Exact(s));
    assert forall|i: int| 0 <= i < pieces.len() implies routing::segment_model(
        #[trigger] raws[i],
        false,
    ) == Ok::<routing::SegmentModel, routing::PatternErrorModel>(
        routing::SegmentModel::Exact(pieces[i]),
    ) by {
        let segs = routing::pattern_segments(base);
        assert(routing::segment_model(pieces[i], i + 1 == pieces.len()) == Ok::<
            routing::SegmentModel,
            routing::PatternErrorModel,
        >(segs[i]));
        assert(segs[i] is Exact);
    }
    assert(routing::segment_model(stars, true) == Ok::<
        routing::SegmentModel,
        routing::PatternErrorModel,
    >(routing::SegmentModel::RecursiveWildcard));
    assert forall|i: int| 0 <= i < raws.len() implies routing::segment_model(
        #[trigger] raws[i],
        i + 1 == raws.len(),
    ) is Ok by {}
    routing::lemma_all_valid(raws, raws.len());
    routing::lemma_segments_upto(raws, raws.len());
    let segs = routing::pattern_segments(source);
    assert forall|i: int| 0 <= i < segs.len() implies #[trigger] segs[i] == exact.push(
        routing::SegmentModel::RecursiveWildcard,
    )[i] by {
        assert(routing::segment_model(raws[i], i + 1 == raws.len()) == Ok::<
            routing::SegmentModel,
            routing::PatternErrorModel,
        >(segs[i]));
    }
    assert(segs =~= exact.push(routing::SegmentModel::RecursiveWildcard));
}

/// Replacing `**` in the text of a subtree puts `with` below the base.
proof fn lemma_replace_in_subtree(base: Seq<char>, with: Seq<char>)
    requires
        !text::has_substring(base, routing::double_star()),
    ensures
        text::replace_all(subtree(base), routing::double_star(), with) == base.push('/') + with,
    decreases base.len(),
{
    let stars = routing::double_star();
    let s = subtree(base);
    if base.len() == 0 {
        assert(s.take(2)[0] == '/');
        assert(s.skip(1) =~= stars);
        assert(stars.take(2) =~= stars);
        assert(stars.skip(2) =~= Seq::empty());
        assert(text::replace_all(Seq::empty(), stars, with) =~= Seq::empty());
        assert(text::replace_all(stars, stars, with) =~= with);
    } else {
        if s.take(2) == stars {
            assert(s[0] == s.take(2)[0] && s[1] == s.take(2)[1]);
            assert(base.len() >= 2);
            assert(base.subrange(0, 2) =~= stars);
            assert(text::occurs_at(base, stars, 0));
        }
        let rest = base.skip(1);
        if text::has_substring(rest, stars) {
            let at = choose|at: int| text::occurs_at(rest, stars, at);
            assert(base.subrange(at + 1, at + 3) =~= rest.subrange(at, at + 2));
            assert(text::occurs_at(base, stars, at + 1));
        }
        lemma_replace_in_subtree(rest, with);
        assert(s.skip(1) =~= subtree(rest));
    }
    assert(text::replace_all(s, stars, with) =~= base.push('/') + with);
}

/// Literal segments capture nothing.
proof fn lemma_nothing_captured(
    segs: Seq<routing::SegmentModel>,
    pieces: Seq<Seq<char>>,
    n: nat,
)
    requires
        n <= segs.len(),
        forall|i: int| 0 <= i < n ==> #[trigger] segs[i] is Exact,
    ensures
        routing::captured(segs, pieces, n) == Map::<Seq<char>, Seq<char>>::empty(),
    decreases n,
{
    if n > 0 {
        lemma_nothing_captured(segs, pieces, (n - 1) as nat);
        assert(segs[n - 1] is Exact);
    }
}

/// What a subtree takes up from an address, as a text.
spec fn rest_of(base: Seq<char>, address: Seq<char>) -> Seq<char> {
    text::join_with(routing::pattern_suffix(subtree(base), address), '/')
}

/// A passthrough rule puts what its subtree takes up below the other base.
proof fn lemma_passthrough_result(rule: RuleModel, from: Seq<char>, to: Seq<char>, address: Seq<char>)
    requires
        is_base(from),
        is_base(to),
        rule.pattern == subtree(from),
        rule.to_template == subtree(to),
    ensures
        rule_result(rule, address, below(to, rest_of(from, address))),
{
    lemma_subtree_segments(from);
    let segs = routing::pattern_segments(subtree(from));
    let captures = routing::pattern_captures(subtree(from), address);
    lemma_nothing_captured(
        segs,
        text::split_on(address.skip(1), '/'),
        routing::fixed_len(segs),
    );
    let names = Seq::<Seq<char>>::empty();
    assert(routing::enumerates(names, captures));
    let stars = routing::double_star();
    assert(subtree(to).subrange(to.len() as int + 1, to.len() as int + 3) =~= stars);
    assert(text::occurs_at(subtree(to), stars, to.len() as int + 1));
    if to.len() == 0 {
        assert(!text::has_substring(to, stars));
    }
    let suffix = routing::pattern_suffix(subtree(from), address);
    let joined = rest_of(from, address);
    lemma_replace_in_subtree(to, joined);
    let passed = to.push('/') + joined;
    if joined.len() == 0 {
        assert(passed =~= to.push('/'));
        assert(passed.drop_last() =~= to);
    }
    assert(expanded(subtree(to), names, captures, suffix) == below(to, joined));
}

/// An address below a base is in its subtree, and what is taken up of it is what
/// was put below the base.
proof fn lemma_below_is_taken_up(base: Seq<char>, rest: Seq<char>)
    requires
        is_base(base),
    ensures
        routing::pattern_accepts(subtree(base), below(base, rest)),
        rest_of(base, below(base, rest)) == rest,
{
    lemma_subtree_segments(base);
    let address = below(base, rest);
    let segs = routing::pattern_segments(subtree(base));
    let pieces = base_pieces(base);
    let all = text::split_on(address.skip(1), '/');
    text::lemma_join_split(rest, '/');
    if base.len() == 0 {
        assert(address.skip(1) =~= rest);
        assert(all.skip(0) =~= all);
    } else if rest.len() == 0 {
        assert(all == pieces);
        assert(all.skip(pieces.len() as int) =~= Seq::<Seq<char>>::empty());
        assert(rest =~= Seq::<char>::empty());
    } else {
        assert(address.skip(1) =~= base.skip(1).push('/') + rest);
        text::lemma_split_concat(base.skip(1), '/', rest);
        assert(all.skip(pieces.len() as int) =~= text::split_on(rest, '/'));
    }
    assert forall|i: int| 0 <= i < routing::fixed_len(segs) implies routing::segment_accepts(
        #[trigger] segs[i],
        all[i],
    ) by {
        assert(segs[i] == routing::SegmentModel::Exact(pieces[i]));
        assert(all[i] == pieces[i]);
    }
}

/// An address in the subtree of a base is what it takes up, below the base, unless it
/// is the base with a slash at its end.
proof fn lemma_taken_up_from_below(base: Seq<char>, address: Seq<char>)
    requires
        is_base(base),
        routing::pattern_accepts(subtree(base), address),
        base.len() > 0 ==> address != base.push('/'),
    ensures
        below(base, rest_of(base, address)) == address,
{
    lemma_subtree_segments(base);
    let segs = routing::pattern_segments(subtree(base));
    let pieces = base_pieces(base);
    let all = text::split_on(address.skip(1), '/');
    let suffix = all.skip(pieces.len() as int);
    let rest = rest_of(base, address);
    text::lemma_join_split(address.skip(1), '/');
    assert(address =~= seq!['/'] + address.skip(1));
    assert forall|i: int| 0 <= i < pieces.len() implies #[trigger] all[i] == pieces[i] by {
        assert(routing::segment_accepts(segs[i], all[i]));
        assert(segs[i] == routing::SegmentModel::Exact(pieces[i]));
    }
    assert(all =~= pieces + suffix);
    if base.len() == 0 {
        assert(suffix =~= all);
        assert(base.push('/') + rest =~= address);
    } else {
        text::lemma_join_split(base.skip(1), '/');
        assert(base =~= seq!['/'] + base.skip(1));
        if suffix.len() == 0 {
            assert(all =~= pieces);
            assert(address == base);
        } else {
            assert forall|i: int| 0 <= i < suffix.len() implies !(#[trigger] suffix[i]).contains(
                '/',
            ) by {
                assert(suffix[i] == all[i + pieces.len()]);
            }
            text::lemma_split_join(suffix, '/');
            text::lemma_split_concat(base.skip(1), '/', rest);
            let again = base.skip(1).push('/') + rest;
            text::lemma_join_split(again, '/');
            assert(again == address.skip(1));
            assert(address =~= base.push('/') + rest);
            if rest.len() == 0 {
                assert(address =~= base.push('/'));
            }
        }
    }
}

/// Passthrough round-trips: what a rule makes of an address, the rule of the way back
/// makes into the address again. The one exception is a base with a slash at its
/// end: the slash is dropped on the way.
pub proof fn law_passthrough_round_trips(
    near: Seq<char>,
    far: Seq<char>,
    address: Seq<char>,
    signal_type: Option<Seq<char>>,
)
    requires
        is_base(near),
        is_base(far),
        routing::pattern_accepts(subtree(near), address),
        near.len() > 0 ==> address != near.push('/'),
    ensures
        mapping(passthrough_rules(near, far), address, Direction::Outbound, signal_type) matches Some(
            there,
        ) && mapping(passthrough_rules(near, far), there, Direction::Inbound, signal_type) == Some(
            address,
        ),
{
    let rules = passthrough_rules(near, far);
    let rest = rest_of(near, address);
    let there = below(far, rest);
    assert(maps_to(rules, address, Direction::Outbound, signal_type, Some(there))) by {
        lemma_passthrough_result(rules[0], near, far, address);
        assert(rule_applies(rules[0], address, Direction::Outbound, signal_type));
    }
    assert(maps_to(rules, there, Direction::Inbound, signal_type, Some(address))) by {
        lemma_taken_up_from_below(near, address);
        lemma_below_is_taken_up(far, rest);
        lemma_passthrough_result(rules[1], far, near, there);
        assert(!rule_applies(rules[0], there, Direction::Inbound, signal_type));
        assert(rule_applies(rules[1], there, Direction::Inbound, signal_type));
    }
    lemma_mapping_is(rules, address, Direction::Outbound, signal_type, Some(there));
    lemma_mapping_is(rules, there, Direction::Inbound, signal_type, Some(address));
}

/// A part of a template: literal text, the placeholder of a capture, or `**`.
pub enum Part {
    Literal(Seq<char>),
    Hole(Seq<char>),
    Rest,
}

/// Whether a text holds no brace and no star.
pub open spec fn is_bare(s: Seq<char>) -> bool {
    forall|i: int| 0 <= i < s.len() ==> #[trigger] s[i] != '{' && s[i] != '}' && s[i] != '*'
}

/// Whether the literal text and the names of a part hold no brace and no star.
pub open spec fn is_bare_part(p: Part) -> bool {
    match p {
        Part::Literal(s) => is_bare(s),
        Part::Hole(name) => is_bare(name),
        Part::Rest => true,
    }
}

/// Whether that holds of all parts.
pub open spec fn are_bare(parts: Seq<Part>) -> bool {
    forall|i: int| 0 <= i < parts.len() ==> is_bare_part(#[trigger] parts[i])
}

/// How a part is written in a template.
pub open spec fn part_text(p: Part) -> Seq<char> {
    match p {
        Part::Literal(s) => s,
        Part::Hole(name) => seq!['{'] + name + seq!['}'],
        Part::Rest => seq!['*', '*'],
    }
}

/// The template that the parts make.
pub open spec fn template_text(parts: Seq<Part>) -> Seq<char>
    decreases parts.len(),
{
    if parts.len() == 0 {
        Seq::empty()
    } else {
        part_text(parts[0]) + template_text(parts.skip(1))
    }
}

/// What stands for a part in the mapped address.
pub open spec fn part_value(
    p: Part,
    captures: Map<Seq<char>, Seq<char>>,
    rest: Seq<char>,
) -> Seq<char> {
    match p {
        Part::Literal(s) => s,
        Part::Hole(name) => captures[name],
        Part::Rest => rest,
    }
}

/// The parts one after the other, each placeholder with the value that was captured
/// under its own name, and `**` with the rest.
pub open spec fn filled(
    parts: Seq<Part>,
    captures: Map<Seq<char>, Seq<char>>,
    rest: Seq<char>,
) -> Seq<char>
    decreases parts.len(),
{
    if parts.len() == 0 {
        Seq::empty()
    } else {
        part_value(parts[0], captures, rest) + filled(parts.skip(1), captures, rest)
    }
}

/// Text without the first character of what is replaced stays as it is.
proof fn lemma_replace_after(lit: Seq<char>, s: Seq<char>, pat: Seq<char>, with: Seq<char>)
    requires
        pat.len() > 0,
        forall|i: int| 0 <= i < lit.len() ==> lit[i] != pat[0],
    ensures
        text::replace_all(lit + s, pat, with) == lit + text::replace_all(s, pat, with),
    decreases lit.len(),
{
    let t = lit + s;
    if lit.len() == 0 {
        assert(t =~= s);
        assert(lit + text::replace_all(s, pat, with) =~= text::replace_all(s, pat, with));
    } else if t.len() >= pat.len() {
        assert(t.take(pat.len() as int)[0] == lit[0]);
        assert(t.skip(1) =~= lit.skip(1) + s);
        lemma_replace_after(lit.skip(1), s, pat, with);
        assert(seq![t[0]] + (lit.skip(1) + text::replace_all(s, pat, with)) =~= lit
            + text::replace_all(s, pat, with));
    }
}

/// The parts with the placeholder of a name filled in.
spec fn with_hole_filled(parts: Seq<Part>, name: Seq<char>, value: Seq<char>) -> Seq<Part> {
    parts.map_values(
        |p: Part|
            if p == Part::Hole(name) {
                Part::Literal(value)
            } else {
                p
            },
    )
}

/// Replacing the placeholder of a name fills in that name and no other.
proof fn lemma_replace_hole(parts: Seq<Part>, name: Seq<char>, value: Seq<char>)
    requires
        are_bare(parts),
        is_bare(name),
    ensures
        text::replace_all(template_text(parts), placeholder(name), value) == template_text(
            with_hole_filled(parts, name, value),
        ),
    decreases parts.len(),
{
    let pat = placeholder(name);
    let t = template_text(parts);
    let after = with_hole_filled(parts, name, value);
    if parts.len() == 0 {
        assert(text::replace_all(t, pat, value) =~= t);
        assert(after =~= parts);
    } else {
        let first = parts[0];
        let rest = parts.skip(1);
        let r = template_text(rest);
        assert forall|i: int| 0 <= i < rest.len() implies is_bare_part(#[trigger] rest[i]) by {
            assert(rest[i] == parts[i + 1]);
        }
        lemma_replace_hole(rest, name, value);
        assert(after.skip(1) =~= with_hole_filled(rest, name, value));
        assert(is_bare_part(first));
        assert(pat[0] == '{');
        match first {
            Part::Literal(s) => {
                lemma_replace_after(s, r, pat, value);
            },
            Part::Rest => {
                lemma_replace_after(seq!['*', '*'], r, pat, value);
            },
            Part::Hole(n) => {
                if n == name {
                    assert(t.take(pat.len() as int) =~= pat);
                    assert(t.skip(pat.len() as int) =~= r);
                } else {
                    let tail = n + seq!['}'];
                    if t.len() >= pat.len() && t.take(pat.len() as int) == pat {
                        let k = t.take(pat.len() as int);
                        assert forall|i: int| 0 <= i < pat.len() implies #[trigger] t[i]
                            == pat[i] by {
                            assert(k[i] == t[i]);
                        }
                        if n.len() < name.len() {
                            assert(t[n.len() as int + 1] == '}');
                            assert(pat[n.len() as int + 1] == name[n.len() as int]);
                        } else if n.len() > name.len() {
                            assert(pat[name.len() as int + 1] == '}');
                            assert(t[name.len() as int + 1] == n[name.len() as int]);
                        } else {
                            assert forall|i: int| 0 <= i < n.len() implies n[i] == name[i] by {
                                assert(t[i + 1] == n[i]);
                                assert(pat[i + 1] == name[i]);
                            }
                            assert(n =~= name);
                        }
                    }
                    if t.len() >= pat.len() {
                        assert(t.skip(1) =~= tail + r);
                        lemma_replace_after(tail, r, pat, value);
                        assert(seq![t[0]] + (tail + text::replace_all(r, pat, value)) =~= part_text(
                            first,
                        ) + text::replace_all(r, pat, value));
                    }
                }
            },
        }
    }
}

/// The parts with the first `n` names filled in.
spec fn with_names_filled(
    parts: Seq<Part>,
    names: Seq<Seq<char>>,
    captures: Map<Seq<char>, Seq<char>>,
    n: nat,
) -> Seq<Part>
    decreases n,
{
    if n == 0 {
        parts
    } else {
        with_hole_filled(
            with_names_filled(parts, names, captures, (n - 1) as nat),
            names[n - 1],
            captures[names[n - 1]],
        )
    }
}

proof fn lemma_substituted_parts(
    parts: Seq<Part>,
    names: Seq<Seq<char>>,
    captures: Map<Seq<char>, Seq<char>>,
    n: nat,
)
    requires
        are_bare(parts),
        n <= names.len(),
        forall|i: int|
            0 <= i < names.len() ==> is_bare(#[trigger] names[i]) && is_bare(captures[names[i]]),
    ensures
        substituted(template_text(parts), names, captures, n) == template_text(
            with_names_filled(parts, names, captures, n),
        ),
        are_bare(with_names_filled(parts, names, captures, n)),
        with_names_filled(parts, names, captures, n).len() == parts.len(),
        forall|i: int|
            0 <= i < parts.len() ==> #[trigger] with_names_filled(parts, names, captures, n)[i] == (
            if parts[i] is Hole && names.take(n as int).contains(parts[i]->Hole_0) {
                Part::Literal(captures[parts[i]->Hole_0])
            } else {
                parts[i]
            }),
    decreases n,
{
    let after = with_names_filled(parts, names, captures, n);
    if n > 0 {
        let m = (n - 1) as nat;
        let before = with_names_filled(parts, names, captures, m);
        let name = names[n - 1];
        lemma_substituted_parts(parts, names, captures, m);
        assert(is_bare(names[n - 1]));
        lemma_replace_hole(before, name, captures[name]);
        assert forall|i: int| 0 <= i < parts.len() implies #[trigger] after[i] == (if parts[i] is Hole
            && names.take(n as int).contains(parts[i]->Hole_0) {
            Part::Literal(captures[parts[i]->Hole_0])
        } else {
            parts[i]
        }) by {
            assert(before[i] == with_names_filled(parts, names, captures, m)[i]);
            if parts[i] is Hole {
                let h = parts[i]->Hole_0;
                if names.take(m as int).contains(h) {
                    let j = choose|j: int| 0 <= j < m && names.take(m as int)[j] == h;
                    assert(names.take(n as int)[j] == h);
                }
                if names.take(n as int).contains(h) {
                    let j = choose|j: int| 0 <= j < n && names.take(n as int)[j] == h;
                    if j < m {
                        assert(names.take(m as int)[j] == h);
                    }
                }
                assert(names.take(n as int)[n - 1] == name);
            }
        }
        assert forall|i: int| 0 <= i < after.len() implies is_bare_part(#[trigger] after[i]) by {
            assert(is_bare_part(before[i]));
        }
    } else {
        assert(names.take(0) =~= Seq::empty());
    }
}

/// Replacing `**` where no placeholder is left fills in the rest.
proof fn lemma_replace_rest(
    parts: Seq<Part>,
    captures: Map<Seq<char>, Seq<char>>,
    rest: Seq<char>,
)
    requires
        are_bare(parts),
        forall|i: int| 0 <= i < parts.len() ==> !(#[trigger] parts[i] is Hole),
    ensures
        text::replace_all(template_text(parts), routing::double_star(), rest) == filled(
            parts,
            captures,
            rest,
        ),
    decreases parts.len(),
{
    let pat = routing::double_star();
    let t = template_text(parts);
    if parts.len() > 0 {
        let tail = parts.skip(1);
        let r = template_text(tail);
        assert forall|i: int| 0 <= i < tail.len() implies is_bare_part(#[trigger] tail[i]) && !(
        tail[i] is Hole) by {
            assert(tail[i] == parts[i + 1]);
        }
        lemma_replace_rest(tail, captures, rest);
        assert(is_bare_part(parts[0]) && !(parts[0] is Hole));
        match parts[0] {
            Part::Literal(s) => {
                lemma_replace_after(s, r, pat, rest);
            },
            _ => {
                assert(t.take(2) =~= pat);
                assert(t.skip(2) =~= r);
            },
        }
    } else {
        assert(text::replace_all(t, pat, rest) =~= t);
    }
}

/// Without `**` the parts are filled whatever the rest.
proof fn lemma_filled_without_rest(parts: Seq<Part>, captures: Map<Seq<char>, Seq<char>>, rest: Seq<char>)
    requires
        are_bare(parts),
        forall|i: int| 0 <= i < parts.len() ==> #[trigger] parts[i] is Literal,
    ensures
        template_text(parts) == filled(parts, captures, rest),
    decreases parts.len(),
{
    if parts.len() > 0 {
        let tail = parts.skip(1);
        assert forall|i: int| 0 <= i < tail.len() implies is_bare_part(#[trigger] tail[i])
            && tail[i] is Literal by {
            assert(tail[i] == parts[i + 1]);
        }
        lemma_filled_without_rest(tail, captures, rest);
        assert(parts[0] is Literal);
    }
}

/// Filling in the captures first makes no difference to what the parts stand for.
proof fn lemma_filled_parts(
    parts: Seq<Part>,
    after: Seq<Part>,
    captures: Map<Seq<char>, Seq<char>>,
    rest: Seq<char>,
)
    requires
        after.len() == parts.len(),
        forall|i: int|
            0 <= i < parts.len() ==> part_value(#[trigger] after[i], captures, rest) == part_value(
                parts[i],
                captures,
                rest,
            ),
    ensures
        filled(after, captures, rest) == filled(parts, captures, rest),
    decreases parts.len(),
{
    if parts.len() > 0 {
        assert forall|i: int| 0 <= i < parts.skip(1).len() implies part_value(
            #[trigger] after.skip(1)[i],
            captures,
            rest,
        ) == part_value(parts.skip(1)[i], captures, rest) by {
            assert(after.skip(1)[i] == after[i + 1]);
        }
        lemma_filled_parts(parts.skip(1), after.skip(1), captures, rest);
        assert(part_value(after[0], captures, rest) == part_value(parts[0], captures, rest));
    }
}

/// `**` occurs in a template exactly where it is one of the parts.
proof fn lemma_stars_are_parts(parts: Seq<Part>)
    requires
        are_bare(parts),
    ensures
        text::has_substring(template_text(parts), routing::double_star()) <==> exists|i: int|
            0 <= i < parts.len() && #[trigger] parts[i] is Rest,
    decreases parts.len(),
{
    let stars = routing::double_star();
    let t = template_text(parts);
    if parts.len() > 0 {
        let tail = parts.skip(1);
        let r = template_text(tail);
        let head = part_text(parts[0]);
        assert forall|i: int| 0 <= i < tail.len() implies is_bare_part(#[trigger] tail[i]) by {
            assert(tail[i] == parts[i + 1]);
        }
        assert(is_bare_part(parts[0]));
        lemma_stars_are_parts(tail);
        if exists|i: int| 0 <= i < parts.len() && #[trigger] parts[i] is Rest {
            let i = choose|i: int| 0 <= i < parts.len() && #[trigger] parts[i] is Rest;
            if i == 0 {
                assert(t.subrange(0, 2) =~= stars);
                assert(text::occurs_at(t, stars, 0));
            } else {
                assert(tail[i - 1] is Rest);
                let at = choose|at: int| text::occurs_at(r, stars, at);
                let there = at + head.len();
                assert(t.subrange(there, there + 2) =~= r.subrange(at, at + 2));
                assert(text::occurs_at(t, stars, there));
            }
        }
        if text::has_substring(t, stars) && !(parts[0] is Rest) {
            let at = choose|at: int| text::occurs_at(t, stars, at);
            assert(t.subrange(at, at + 2)[0] == t[at]);
            assert(t[at] == '*');
            if at < head.len() {
                assert(head[at] == '*');
                if parts[0] is Hole {
                    let n = parts[0]->Hole_0;
                    assert(0 < at < head.len() - 1);
                    assert(n[at - 1] == '*');
                }
            } else {
                let here = at - head.len();
                assert(r.subrange(here, here + 2) =~= t.subrange(at, at + 2));
                assert(text::occurs_at(r, stars, here));
                let i = choose|i: int| 0 <= i < tail.len() && #[trigger] tail[i] is Rest;
                assert(parts[i + 1] is Rest);
            }
        }
    } else if text::has_substring(t, stars) {
        let at = choose|at: int| text::occurs_at(t, stars, at);
    }
}

/// A template becomes its own text with every placeholder replaced by the value that
/// was captured under that same name, and `**` by the segments of the suffix. Only
/// where `**` stands for nothing, a slash at the end is dropped, unless it is all.
pub proof fn law_template_is_filled(
    parts: Seq<Part>,
    names: Seq<Seq<char>>,
    captures: Map<Seq<char>, Seq<char>>,
    suffix: Seq<Seq<char>>,
)
    requires
        are_bare(parts),
        routing::enumerates(names, captures),
        forall|name: Seq<char>| #[trigger]
            captures.dom().contains(name) ==> is_bare(name) && is_bare(captures[name]),
        forall|i: int|
            0 <= i < parts.len() && #[trigger] parts[i] is Hole ==> captures.dom().contains(
                parts[i]->Hole_0,
            ),
    ensures
        ({
            let rest = text::join_with(suffix, '/');
            let whole = filled(parts, captures, rest);
            let result = expanded(template_text(parts), names, captures, suffix);
            let passes = exists|i: int| 0 <= i < parts.len() && #[trigger] parts[i] is Rest;
            if passes && rest.len() == 0 && whole.len() > 1 && whole.last() == '/' {
                result.push('/') == whole
            } else {
                result == whole
            }
        }),
{
    let rest = text::join_with(suffix, '/');
    let whole = filled(parts, captures, rest);
    assert forall|i: int| 0 <= i < names.len() implies is_bare(#[trigger] names[i]) && is_bare(
        captures[names[i]],
    ) by {
        assert(names.contains(names[i]));
    }
    lemma_substituted_parts(parts, names, captures, names.len());
    assert(names.take(names.len() as int) =~= names);
    let after = with_names_filled(parts, names, captures, names.len());
    assert forall|i: int| 0 <= i < parts.len() implies !(#[trigger] after[i] is Hole) && part_value(
        after[i],
        captures,
        rest,
    ) == part_value(parts[i], captures, rest) && (after[i] is Rest <==> parts[i] is Rest) by {
        if parts[i] is Hole {
            assert(captures.dom().contains(parts[i]->Hole_0));
            assert(names.contains(parts[i]->Hole_0));
        }
    }
    lemma_filled_parts(parts, after, captures, rest);
    lemma_stars_are_parts(parts);
    if exists|i: int| 0 <= i < parts.len() && #[trigger] parts[i] is Rest {
        lemma_replace_rest(after, captures, rest);
        if whole.len() > 1 && whole.last() == '/' {
            assert(whole.drop_last().push('/') =~= whole);
        }
    } else {
        assert forall|i: int| 0 <= i < after.len() implies #[trigger] after[i] is Literal by {
            assert(!(parts[i] is Rest));
        }
        lemma_filled_without_rest(after, captures, rest);
    }
}

/// The name of a capture holds no brace and no star.
proof fn lemma_capture_names_are_bare(source: Seq<char>, address: Seq<char>, name: Seq<char>)
    requires
        routing::pattern_accepts(source, address),
        routing::pattern_captures(source, address).dom().contains(name),
    ensures
        is_bare(name),
{
    let segs = routing::pattern_segments(source);
    let pieces = text::split_on(address.skip(1), '/');
    routing::law_captures_are_the_named_segments(segs, pieces, routing::fixed_len(segs), name);
    let i = choose|i: int|
        0 <= i < routing::fixed_len(segs) && #[trigger] segs[i] == routing::SegmentModel::Capture(
            name,
        );
    let raws = text::split_on(source.skip(1), '/');
    routing::lemma_segments_upto(raws, raws.len());
    assert(routing::segment_model(raws[i], i + 1 == raws.len()) == Ok::<
        routing::SegmentModel,
        routing::PatternErrorModel,
    >(segs[i]));
    assert(!name.contains('{') && !name.contains('}') && !name.contains('*'));
}

/// What a rule makes of an address is its template, with each placeholder replaced by
/// the address segment that the pattern captured under that same name.
pub proof fn law_rule_fills_its_template(
    rule: RuleModel,
    parts: Seq<Part>,
    address: Seq<char>,
    result: Seq<char>,
)
    requires
        rule.to_template == template_text(parts),
        are_bare(parts),
        forall|i: int| 0 <= i < parts.len() ==> !(#[trigger] parts[i] is Rest),
        routing::pattern_accepts(rule.pattern, address),
        is_bare(address),
        forall|i: int|
            0 <= i < parts.len() && #[trigger] parts[i] is Hole ==> routing::pattern_captures(
                rule.pattern,
                address,
            ).dom().contains(parts[i]->Hole_0),
        rule_result(rule, address, result),
    ensures
        result == filled(
            parts,
            routing::pattern_captures(rule.pattern, address),
            Seq::empty(),
        ),
{
    let captures = routing::pattern_captures(rule.pattern, address);
    let suffix = routing::pattern_suffix(rule.pattern, address);
    let names = choose|names: Seq<Seq<char>>|
        routing::enumerates(names, captures) && result == #[trigger] expanded(
            rule.to_template,
            names,
            captures,
            suffix,
        );
    assert forall|name: Seq<char>| #[trigger] captures.dom().contains(name) implies is_bare(name)
        && is_bare(captures[name]) by {
        lemma_capture_names_are_bare(rule.pattern, address, name);
        lemma_captured_value_is_bare(rule.pattern, address, name);
    }
    law_template_is_filled(parts, names, captures, suffix);
    lemma_filled_ignores_rest(parts, captures, text::join_with(suffix, '/'));
}

proof fn lemma_filled_ignores_rest(
    parts: Seq<Part>,
    captures: Map<Seq<char>, Seq<char>>,
    rest: Seq<char>,
)
    requires
        forall|i: int| 0 <= i < parts.len() ==> !(#[trigger] parts[i] is Rest),
    ensures
        filled(parts, captures, rest) == filled(parts, captures, Seq::empty()),
    decreases parts.len(),
{
    if parts.len() > 0 {
        assert forall|i: int| 0 <= i < parts.skip(1).len() implies !(#[trigger] parts.skip(
            1,
        )[i] is Rest) by {
            assert(parts.skip(1)[i] == parts[i + 1]);
        }
        lemma_filled_ignores_rest(parts.skip(1), captures, rest);
        assert(!(parts[0] is Rest));
    }
}

/// The pieces of a text without braces and stars hold none.
proof fn lemma_pieces_are_bare(s: Seq<char>)
    requires
        is_bare(s),
    ensures
        forall|i: int|
            0 <= i < text::split_on(s, '/').len() ==> is_bare(#[trigger] text::split_on(s, '/')[i]),
    decreases s.len(),
{
    if s.len() > 0 {
        assert(is_bare(s.drop_last()));
        lemma_pieces_are_bare(s.drop_last());
        text::lemma_split_nonempty(s.drop_last(), '/');
        let p = text::split_on(s.drop_last(), '/');
        let pieces = text::split_on(s, '/');
        assert forall|i: int| 0 <= i < pieces.len() implies is_bare(#[trigger] pieces[i]) by {
            if s.last() == '/' {
                if i < p.len() {
                    assert(pieces[i] == p[i]);
                }
            } else if i < p.len() - 1 {
                assert(pieces[i] == p[i]);
            } else {
                assert(is_bare(p[p.len() - 1]));
                assert(s[s.len() - 1] == s.last());
                assert(pieces[i] == p.last().push(s.last()));
            }
        }
    }
}

proof fn lemma_captured_value_is_bare(source: Seq<char>, address: Seq<char>, name: Seq<char>)
    requires
        is_bare(address),
        routing::pattern_accepts(source, address),
        routing::pattern_captures(source, address).dom().contains(name),
    ensures
        is_bare(routing::pattern_captures(source, address)[name]),
{
    let segs = routing::pattern_segments(source);
    let pieces = text::split_on(address.skip(1), '/');
    assert(is_bare(address.skip(1)));
    lemma_pieces_are_bare(address.skip(1));
    routing::law_captures_are_the_named_segments(segs, pieces, routing::fixed_len(segs), name);
}

/// Whether a pattern is made of literal segments without braces and stars and of
/// captures with distinct names.
pub open spec fn is_template_pattern(source: Seq<char>) -> bool {
    let segs = routing::pattern_segments(source);
    &&& routing::pattern_model(source) is Ok
    &&& forall|i: int|
        0 <= i < segs.len() ==> match #[trigger] segs[i] {
            routing::SegmentModel::Exact(s) => is_bare(s),
            routing::SegmentModel::Capture(_) => true,
            _ => false,
        }
    &&& forall|i: int, j: int|
        0 <= i < j < segs.len() && segs[i] is Capture ==> #[trigger] segs[i] != #[trigger] segs[j]
}

/// The part of a template that a segment is written as.
spec fn part_of(seg: routing::SegmentModel) -> Part {
    match seg {
        routing::SegmentModel::Exact(s) => Part::Literal(s),
        routing::SegmentModel::Capture(name) => Part::Hole(name),
        _ => Part::Rest,
    }
}

/// The parts of the first `n` segments, each with its slash.
spec fn parts_upto(segs: Seq<routing::SegmentModel>, n: nat) -> Seq<Part>
    decreases n,
{
    if n == 0 {
        Seq::empty()
    } else {
        parts_upto(segs, (n - 1) as nat) + seq![
            Part::Literal(seq!['/']),
            part_of(segs[n - 1]),
        ]
    }
}

proof fn lemma_two_texts(a: Seq<Part>, b: Seq<Part>, captures: Map<Seq<char>, Seq<char>>)
    ensures
        template_text(a + b) == template_text(a) + template_text(b),
        filled(a + b, captures, Seq::empty()) == filled(a, captures, Seq::empty()) + filled(
            b,
            captures,
            Seq::empty(),
        ),
    decreases a.len(),
{
    if a.len() == 0 {
        assert(a + b =~= b);
        assert(template_text(a) + template_text(b) =~= template_text(b));
        assert(filled(a, captures, Seq::empty()) + filled(b, captures, Seq::empty()) =~= filled(
            b,
            captures,
            Seq::empty(),
        ));
    } else {
        assert((a + b).skip(1) =~= a.skip(1) + b);
        lemma_two_texts(a.skip(1), b, captures);
        assert(template_text(a + b) =~= template_text(a) + template_text(b));
        assert(filled(a + b, captures, Seq::empty()) =~= filled(a, captures, Seq::empty())
            + filled(b, captures, Seq::empty()));
    }
}

/// The parts of the segments spell the raw pattern, and filled in they spell the
/// address.
proof fn lemma_parts_spell(
    segs: Seq<routing::SegmentModel>,
    raws: Seq<Seq<char>>,
    pieces: Seq<Seq<char>>,
    captures: Map<Seq<char>, Seq<char>>,
    n: nat,
)
    requires
        n <= segs.len(),
        n <= raws.len(),
        n <= pieces.len(),
        forall|i: int|
            0 <= i < n ==> part_text(part_of(#[trigger] segs[i])) == raws[i] && part_value(
                part_of(segs[i]),
                captures,
                Seq::empty(),
            ) == pieces[i],
    ensures
        n > 0 ==> template_text(parts_upto(segs, n)) == seq!['/'] + text::join_with(
            raws.take(n as int),
            '/',
        ),
        n > 0 ==> filled(parts_upto(segs, n), captures, Seq::empty()) == seq!['/']
            + text::join_with(pieces.take(n as int), '/'),
        parts_upto(segs, n).len() == 2 * n,
        forall|i: int|
            0 <= i < 2 * n ==> #[trigger] parts_upto(segs, n)[i] == Part::Literal(seq!['/']) || (
            exists|j: int| 0 <= j < n && parts_upto(segs, n)[i] == part_of(#[trigger] segs[j])),
    decreases n,
{
    if n > 0 {
        let m = (n - 1) as nat;
        lemma_parts_spell(segs, raws, pieces, captures, m);
        let before = parts_upto(segs, m);
        let last = seq![Part::Literal(seq!['/']), part_of(segs[n - 1])];
        lemma_two_texts(before, last, captures);
        assert(last.skip(1) =~= seq![part_of(segs[n - 1])]);
        assert(last.skip(1).skip(1) =~= Seq::empty());
        reveal_with_fuel(template_text, 3);
        reveal_with_fuel(filled, 3);
        assert(template_text(last) =~= seq!['/'] + raws[n - 1]);
        assert(filled(last, captures, Seq::empty()) =~= seq!['/'] + pieces[n - 1]);
        assert(raws.take(n as int).drop_last() =~= raws.take(m as int));
        assert(pieces.take(n as int).drop_last() =~= pieces.take(m as int));
        if m == 0 {
            assert(template_text(before) + template_text(last) =~= template_text(last));
            assert(filled(before, captures, Seq::empty()) + filled(last, captures, Seq::empty())
                =~= filled(last, captures, Seq::empty()));
        } else {
            assert(template_text(before) + template_text(last) =~= seq!['/'] + text::join_with(
                raws.take(n as int),
                '/',
            ));
            assert(filled(before, captures, Seq::empty()) + filled(last, captures, Seq::empty())
                =~= seq!['/'] + text::join_with(pieces.take(n as int), '/'));
        }
        let all = parts_upto(segs, n);
        assert forall|i: int| 0 <= i < 2 * n implies #[trigger] all[i] == Part::Literal(seq!['/'])
            || (exists|j: int| 0 <= j < n && all[i] == part_of(#[trigger] segs[j])) by {
            if i < 2 * m {
                assert(all[i] == before[i]);
            } else if i == 2 * m + 1 {
                assert(all[i] == part_of(segs[n - 1]));
            }
        }
    }
}

/// A rule whose template is its own pattern maps every address that it accepts to that
/// address itself, whichever way the address travels.
pub proof fn law_own_pattern_maps_to_itself(
    rule: RuleModel,
    address: Seq<char>,
    direction: Direction,
    signal_type: Option<Seq<char>>,
    result: Option<Seq<char>>,
)
    requires
        is_template_pattern(rule.pattern),
        rule.to_template == rule.pattern,
        routing::pattern_accepts(rule.pattern, address),
        is_bare(address),
        rule.direction == Direction::Both || rule.direction == direction,
        direction != Direction::Both,
        signal_type is None || rule.signal_filter.len() == 0,
        maps_to(seq![rule], address, direction, signal_type, result),
    ensures
        result == Some(address),
{
    let rules = seq![rule];
    assert(rule_applies(rules[0], address, direction, signal_type));
    let out = result->0;
    assert(rule_result(rule, address, out));
    let source = rule.pattern;
    let segs = routing::pattern_segments(source);
    let raws = text::split_on(source.skip(1), '/');
    let pieces = text::split_on(address.skip(1), '/');
    let captures = routing::pattern_captures(source, address);
    text::lemma_join_split(source.skip(1), '/');
    text::lemma_join_split(address.skip(1), '/');
    routing::lemma_segments_upto(raws, raws.len());
    assert(!routing::is_recursive(segs)) by {
        if segs.len() > 0 {
            assert(segs.last() == segs[segs.len() - 1]);
        }
    }
    assert forall|i: int| 0 <= i < segs.len() implies is_bare_part(part_of(#[trigger] segs[i]))
        && !(part_of(segs[i]) is Rest) && part_text(part_of(segs[i])) == raws[i] && part_value(
        part_of(segs[i]),
        captures,
        Seq::empty(),
    ) == pieces[i] && (segs[i] is Capture ==> captures.dom().contains(segs[i]->Capture_0)) by {
        assert(routing::segment_model(raws[i], i + 1 == raws.len()) == Ok::<
            routing::SegmentModel,
            routing::PatternErrorModel,
        >(segs[i]));
        assert(routing::segment_accepts(segs[i], pieces[i]));
        if segs[i] is Capture {
            let name = segs[i]->Capture_0;
            assert(segs[i] == routing::SegmentModel::Capture(name));
            routing::law_captures_are_the_named_segments(segs, pieces, segs.len(), name);
            let j = choose|j: int|
                0 <= j < segs.len() && #[trigger] segs[j] == routing::SegmentModel::Capture(name)
                    && captures[name] == pieces[j];
            assert(i == j);
            assert(seq!['{'] + name + seq!['}'] =~= raws[i]);
            lemma_capture_names_are_bare(source, address, name);
        }
    }
    let n = segs.len();
    lemma_parts_spell(segs, raws, pieces, captures, n);
    let parts = parts_upto(segs, n);
    assert(raws.take(n as int) =~= raws);
    assert(pieces.take(n as int) =~= pieces);
    assert(source =~= seq!['/'] + source.skip(1));
    assert(address =~= seq!['/'] + address.skip(1));
    assert forall|i: int| 0 <= i < parts.len() implies is_bare_part(#[trigger] parts[i]) && !(
    parts[i] is Rest) && (parts[i] is Hole ==> captures.dom().contains(parts[i]->Hole_0)) by {
        if parts[i] != Part::Literal(seq!['/']) {
            let j = choose|j: int| 0 <= j < n && parts[i] == part_of(#[trigger] segs[j]);
            assert(is_bare_part(part_of(segs[j])));
        }
    }
    law_rule_fills_its_template(rule, parts, address, out);
}

/// Whether a list of names is in ascending order.
spec fn is_ascending(s: Seq<Seq<char>>) -> bool {
    forall|i: int, j: int| 0 <= i < j < s.len() ==> text::before(#[trigger] s[i], #[trigger] s[j])
}

/// An ascending list with one more name in its place.
proof fn lemma_insert_name(s: Seq<Seq<char>>, k: Seq<char>) -> (r: Seq<Seq<char>>)
    requires
        is_ascending(s),
        !s.contains(k),
    ensures
        is_ascending(r),
        forall|x: Seq<char>| #[trigger] r.contains(x) <==> s.contains(x) || x == k,
    decreases s.len(),
{
    if s.len() == 0 || text::before(s.last(), k) {
        let r = s.push(k);
        assert forall|i: int, j: int| 0 <= i < j < r.len() implies text::before(
            #[trigger] r[i],
            #[trigger] r[j],
        ) by {
            if j == s.len() && i < s.len() - 1 {
                text::lemma_before_transitive(s[i], s[s.len() - 1], k);
            }
        }
        assert forall|x: Seq<char>| #[trigger] r.contains(x) <==> s.contains(x) || x == k by {
            if s.contains(x) {
                let i = choose|i: int| 0 <= i < s.len() && s[i] == x;
                assert(r[i] == x);
            }
            assert(r[s.len() as int] == k);
        }
        r
    } else {
        let init = s.drop_last();
        assert(s.contains(s[s.len() - 1]));
        text::lemma_before_total(s.last(), k);
        assert(!init.contains(k)) by {
            if init.contains(k) {
                let i = choose|i: int| 0 <= i < init.len() && init[i] == k;
                assert(s[i] == k);
            }
        }
        let head = lemma_insert_name(init, k);
        let r = head.push(s.last());
        assert forall|i: int, j: int| 0 <= i < j < r.len() implies text::before(
            #[trigger] r[i],
            #[trigger] r[j],
        ) by {
            if j == head.len() {
                assert(head.contains(head[i]));
                if head[i] != k {
                    let p = choose|p: int| 0 <= p < init.len() && init[p] == head[i];
                    assert(text::before(s[p], s[s.len() - 1]));
                }
            }
        }
        assert forall|x: Seq<char>| #[trigger] r.contains(x) <==> s.contains(x) || x == k by {
            if s.contains(x) {
                let i = choose|i: int| 0 <= i < s.len() && s[i] == x;
                if i < s.len() - 1 {
                    assert(init[i] == x);
                    assert(head.contains(x));
                }
            }
            if r.contains(x) {
                let i = choose|i: int| 0 <= i < r.len() && r[i] == x;
                if i < head.len() {
                    assert(head.contains(x));
                    if x != k {
                        let p = choose|p: int| 0 <= p < init.len() && init[p] == x;
                        assert(s[p] == x);
                    }
                }
            }
            if s.contains(x) || x == k {
                if x == s.last() {
                    assert(r[head.len() as int] == x);
                } else {
                    assert(head.contains(x));
                    let i = choose|i: int| 0 <= i < head.len() && head[i] == x;
                    assert(r[i] == x);
                }
            }
        }
        r
    }
}

/// The captured names can be listed.
proof fn lemma_captures_are_listed(
    segs: Seq<routing::SegmentModel>,
    pieces: Seq<Seq<char>>,
    n: nat,
) -> (names: Seq<Seq<char>>)
    ensures
        routing::enumerates(names, routing::captured(segs, pieces, n)),
    decreases n,
{
    if n == 0 {
        Seq::empty()
    } else {
        let names = lemma_captures_are_listed(segs, pieces, (n - 1) as nat);
        let m = routing::captured(segs, pieces, (n - 1) as nat);
        match segs[n - 1] {
            routing::SegmentModel::Capture(name) => {
                if m.dom().contains(name) {
                    names
                } else {
                    assert(is_ascending(names));
                    lemma_insert_name(names, name)
                }
            },
            _ => names,
        }
    }
}

/// Every query has a result.
pub proof fn law_every_query_has_a_result(
    rules: Seq<RuleModel>,
    address: Seq<char>,
    direction: Direction,
    signal_type: Option<Seq<char>>,
)
    ensures
        maps_to(
            rules,
            address,
            direction,
            signal_type,
            mapping(rules, address, direction, signal_type),
        ),
    decreases rules.len(),
{
    let result = lemma_some_result(rules, address, direction, signal_type);
}

proof fn lemma_some_result(
    rules: Seq<RuleModel>,
    address: Seq<char>,
    direction: Direction,
    signal_type: Option<Seq<char>>,
) -> (result: Option<Seq<char>>)
    ensures
        maps_to(rules, address, direction, signal_type, result),
    decreases rules.len(),
{
    if rules.len() == 0 {
        None
    } else {
        let init = rules.drop_last();
        let before = lemma_some_result(init, address, direction, signal_type);
        assert(rules =~= init + seq![rules.last()]);
        if before is Some {
            law_first_match_wins(
                init,
                seq![rules.last()],
                address,
                direction,
                signal_type,
                before->0,
            );
            before
        } else {
            let rule = rules.last();
            assert forall|j: int| 0 <= j < rules.len() - 1 implies !rule_applies(
                #[trigger] rules[j],
                address,
                direction,
                signal_type,
            ) by {
                assert(init[j] == rules[j]);
            }
            assert(rules[rules.len() - 1] == rule);
            if rule_applies(rule, address, direction, signal_type) {
                let segs = routing::pattern_segments(rule.pattern);
                let names = lemma_captures_are_listed(
                    segs,
                    text::split_on(address.skip(1), '/'),
                    routing::fixed_len(segs),
                );
                let out = expanded(
                    rule.to_template,
                    names,
                    routing::pattern_captures(rule.pattern, address),
                    routing::pattern_suffix(rule.pattern, address),
                );
                assert(rule_result(rule, address, out));
                Some(out)
            } else {
                None
            }
        }
    }
}

/// What a query gives is what it maps to.
proof fn lemma_mapping_is(
    rules: Seq<RuleModel>,
    address: Seq<char>,
    direction: Direction,
    signal_type: Option<Seq<char>>,
    result: Option<Seq<char>>,
)
    requires
        maps_to(rules, address, direction, signal_type, result),
    ensures
        mapping(rules, address, direction, signal_type) == result,
{
    law_mapping_is_a_function(
        rules,
        address,
        direction,
        signal_type,
        result,
        mapping(rules, address, direction, signal_type),
    );
}

/// Rules are tried in order: those of the second list only count where none of the
/// first gives a result.
pub proof fn law_rules_are_tried_in_order(
    first: Seq<RuleModel>,
    rest: Seq<RuleModel>,
    address: Seq<char>,
    direction: Direction,
    signal_type: Option<Seq<char>>,
)
    ensures
        mapping(first + rest, address, direction, signal_type) == match mapping(
            first,
            address,
            direction,
            signal_type,
        ) {
            Some(mapped) => Some(mapped),
            None => mapping(rest, address, direction, signal_type),
        },
{
    law_every_query_has_a_result(first, address, direction, signal_type);
    law_every_query_has_a_result(rest, address, direction, signal_type);
    let all = first + rest;
    let a = mapping(first, address, direction, signal_type);
    let b = mapping(rest, address, direction, signal_type);
    if a is Some {
        law_first_match_wins(first, rest, address, direction, signal_type, a->0);
        lemma_mapping_is(all, address, direction, signal_type, a);
    } else {
        assert forall|j: int| 0 <= j < first.len() implies !rule_applies(
            #[trigger] all[j],
            address,
            direction,
            signal_type,
        ) by {
            assert(all[j] == first[j]);
        }
        if b is Some {
            let i = choose|i: int|
                0 <= i < rest.len() && rule_applies(
                    #[trigger] rest[i],
                    address,
                    direction,
                    signal_type,
                ) && rule_result(rest[i], address, b->0) && forall|j: int|
                    0 <= j < i ==> !rule_applies(#[trigger] rest[j], address, direction, signal_type);
            let at = first.len() + i;
            assert(all[at] == rest[i]);
            assert forall|j: int| 0 <= j < at implies !rule_applies(
                #[trigger] all[j],
                address,
                direction,
                signal_type,
            ) by {
                if j >= first.len() {
                    assert(all[j] == rest[j - first.len()]);
                }
            }
            assert(maps_to(all, address, direction, signal_type, b));
        } else {
            assert forall|j: int| 0 <= j < all.len() implies !rule_applies(
                #[trigger] all[j],
                address,
                direction,
                signal_type,
            ) by {
                if j >= first.len() {
                    assert(all[j] == rest[j - first.len()]);
                }
            }
            assert(maps_to(all, address, direction, signal_type, b));
        }
        lemma_mapping_is(all, address, direction, signal_type, b);
    }
}

/// What one rule gives depends on whether it applies, and then on its pattern and its
/// template alone.
proof fn lemma_one_rule(
    a: RuleModel,
    b: RuleModel,
    address: Seq<char>,
    direction: Direction,
    s: Option<Seq<char>>,
    t: Option<Seq<char>>,
)
    requires
        a.pattern == b.pattern,
        a.to_template == b.to_template,
        rule_applies(a, address, direction, s) == rule_applies(b, address, direction, t),
    ensures
        mapping(seq![a], address, direction, s) == mapping(seq![b], address, direction, t),
        mapping(seq![a], address, direction, s) is Some == rule_applies(a, address, direction, s),
{
    law_every_query_has_a_result(seq![a], address, direction, s);
    let r = mapping(seq![a], address, direction, s);
    assert(seq![a][0] == a && seq![b][0] == b);
    if r is Some {
        assert(rule_result(seq![b][0], address, r->0));
    }
    assert(maps_to(seq![b], address, direction, t, r));
    lemma_mapping_is(seq![b], address, direction, t, r);
}

/// A rule of both directions acts on a query like one of the direction of the query, and
/// a rule of the other direction gives nothing.
pub proof fn law_direction_of_a_rule(
    rule: RuleModel,
    address: Seq<char>,
    signal_type: Option<Seq<char>>,
)
    ensures
        ({
            let out = RuleModel { direction: Direction::Outbound, ..rule };
            let back = RuleModel { direction: Direction::Inbound, ..rule };
            let both = RuleModel { direction: Direction::Both, ..rule };
            &&& mapping(seq![both], address, Direction::Outbound, signal_type) == mapping(
                seq![out],
                address,
                Direction::Outbound,
                signal_type,
            )
            &&& mapping(seq![both], address, Direction::Inbound, signal_type) == mapping(
                seq![back],
                address,
                Direction::Inbound,
                signal_type,
            )
            &&& mapping(seq![out], address, Direction::Outbound, signal_type) == mapping(
                seq![back],
                address,
                Direction::Inbound,
                signal_type,
            )
            &&& mapping(seq![back], address, Direction::Outbound, signal_type) is None
            &&& mapping(seq![out], address, Direction::Inbound, signal_type) is None
        }),
{
    let out = RuleModel { direction: Direction::Outbound, ..rule };
    let back = RuleModel { direction: Direction::Inbound, ..rule };
    let both = RuleModel { direction: Direction::Both, ..rule };
    lemma_one_rule(both, out, address, Direction::Outbound, signal_type, signal_type);
    lemma_one_rule(both, back, address, Direction::Inbound, signal_type, signal_type);
    lemma_one_rule(back, back, address, Direction::Outbound, signal_type, signal_type);
    lemma_one_rule(out, out, address, Direction::Inbound, signal_type, signal_type);
    law_every_query_has_a_result(seq![both], address, Direction::Outbound, signal_type);
    let r = mapping(seq![both], address, Direction::Outbound, signal_type);
    assert(seq![both][0] == both);
    if r is Some {
        assert(rule_result(seq![both][0], address, r->0));
    }
    assert(maps_to(seq![both], address, Direction::Inbound, signal_type, r));
    lemma_mapping_is(seq![both], address, Direction::Inbound, signal_type, r);
}

/// A filter lets the signal types pass that it lists. An empty one lets all pass, and a
/// query without a signal type passes every filter.
pub proof fn law_filter_of_a_rule(
    rule: RuleModel,
    address: Seq<char>,
    direction: Direction,
    signal_type: Seq<char>,
)
    ensures
        ({
            let open = RuleModel { signal_filter: Seq::empty(), ..rule };
            let passed = mapping(seq![open], address, direction, Some(signal_type));
            &&& mapping(seq![rule], address, direction, None) == passed
            &&& mapping(seq![rule], address, direction, Some(signal_type)) == (
            if rule.signal_filter.len() == 0 || rule.signal_filter.contains(signal_type) {
                passed
            } else {
                None
            })
        }),
{
    let open = RuleModel { signal_filter: Seq::empty(), ..rule };
    lemma_one_rule(rule, open, address, direction, None, Some(signal_type));
    lemma_one_rule(rule, rule, address, direction, Some(signal_type), Some(signal_type));
    if rule.signal_filter.len() == 0 || rule.signal_filter.contains(signal_type) {
        lemma_one_rule(rule, open, address, direction, Some(signal_type), Some(signal_type));
    }
}

/// A rule without a filter maps exactly the addresses that its pattern accepts.
pub proof fn law_pattern_of_a_rule(
    rule: RuleModel,
    address: Seq<char>,
    direction: Direction,
    signal_type: Option<Seq<char>>,
)
    requires
        rule.signal_filter.len() == 0,
        direction != Direction::Both,
        rule.direction == direction || rule.direction == Direction::Both,
    ensures
        mapping(seq![rule], address, direction, signal_type) is Some <==> routing::pattern_accepts(
            rule.pattern,
            address,
        ),
{
    lemma_one_rule(rule, rule, address, direction, signal_type, signal_type);
}

/// Configurations are compiled one by one, in order.
pub proof fn law_configurations_are_compiled_in_order(
    a: Seq<MappingConfig>,
    b: Seq<MappingConfig>,
)
    ensures
        compiled_rules(a + b) == compiled_rules(a) + compiled_rules(b),
    decreases b.len(),
{
    if b.len() == 0 {
        assert(a + b =~= a);
        assert(compiled_rules(a) + compiled_rules(b) =~= compiled_rules(a));
    } else {
        assert((a + b).drop_last() =~= a + b.drop_last());
        assert((a + b).last() == b.last());
        law_configurations_are_compiled_in_order(a, b.drop_last());
        assert(compiled_rules(a + b) =~= compiled_rules(a) + compiled_rules(b));
    }
}

/// A configuration with a known direction and a valid pattern is one rule, with the
/// pattern, the template and the filter of the configuration; any other is none.
pub proof fn law_configuration_is_one_rule(cfg: MappingConfig)
    ensures
        cfg.direction@ == "outbound"@ || cfg.direction@ == "inbound"@ || cfg.direction@ == "both"@
            ==> (compiled_rules(seq![cfg]).len() == 1 <==> routing::pattern_model(
            cfg.from_pattern@,
        ) is Ok),
        compiled_rules(seq![cfg]).len() <= 1,
        compiled_rules(seq![cfg]).len() == 1 ==> {
            let rule = compiled_rules(seq![cfg])[0];
            &&& rule.pattern == cfg.from_pattern@
            &&& rule.to_template == cfg.to_template@
            &&& rule.signal_filter == text::views(cfg.signal_filter@)
            &&& cfg.direction@ == match rule.direction {
                Direction::Outbound => "outbound"@,
                Direction::Inbound => "inbound"@,
                Direction::Both => "both"@,
            }
        },
{
    assert(seq![cfg].drop_last() =~= Seq::empty());
    assert(compiled_rules(seq![cfg].drop_last()) =~= Seq::empty());
}

/// The bridge asks the hub for what it can send out: an address that is mapped outbound
/// is accepted by one of the patterns subscribed to, and without filters every address
/// that one of them accepts is mapped.
pub proof fn law_subscriptions_cover_what_goes_out(
    rules: Seq<RuleModel>,
    address: Seq<char>,
    signal_type: Option<Seq<char>>,
)
    ensures
        mapping(rules, address, Direction::Outbound, signal_type) is Some ==> exists|i: int|
            0 <= i < outbound_sources(rules).len() && routing::pattern_accepts(
                #[trigger] outbound_sources(rules)[i],
                address,
            ),
        (signal_type is None || forall|i: int|
            0 <= i < rules.len() ==> (#[trigger] rules[i]).signal_filter.len() == 0) && (exists|i:
            int|
            0 <= i < outbound_sources(rules).len() && routing::pattern_accepts(
                #[trigger] outbound_sources(rules)[i],
                address,
            )) ==> mapping(rules, address, Direction::Outbound, signal_type) is Some,
    decreases rules.len(),
{
    law_every_query_has_a_result(rules, address, Direction::Outbound, signal_type);
    let sources = outbound_sources(rules);
    if rules.len() > 0 {
        let init = rules.drop_last();
        let last = rules.last();
        let before = outbound_sources(init);
        law_subscriptions_cover_what_goes_out(init, address, signal_type);
        assert(rules =~= init + seq![last]);
        law_rules_are_tried_in_order(
            init,
            seq![last],
            address,
            Direction::Outbound,
            signal_type,
        );
        lemma_one_rule(last, last, address, Direction::Outbound, signal_type, signal_type);
        assert(rules[rules.len() - 1] == last);
        assert forall|i: int| 0 <= i < before.len() implies before[i] == #[trigger] sources[i] by {}
        if mapping(init, address, Direction::Outbound, signal_type) is Some {
            let i = choose|i: int|
                0 <= i < before.len() && routing::pattern_accepts(#[trigger] before[i], address);
            assert(routing::pattern_accepts(sources[i], address));
        } else if mapping(seq![last], address, Direction::Outbound, signal_type) is Some {
            assert(routing::pattern_accepts(sources[before.len() as int], address));
        }
        if signal_type is None || forall|i: int|
            0 <= i < rules.len() ==> (#[trigger] rules[i]).signal_filter.len() == 0 {
            assert(signal_type is None || last.signal_filter.len() == 0);
            assert forall|i: int| 0 <= i < init.len() implies (signal_type is None || (
            #[trigger] init[i]).signal_filter.len() == 0) by {
                assert(init[i] == rules[i]);
            }
            if exists|i: int|
                0 <= i < sources.len() && routing::pattern_accepts(#[trigger] sources[i], address) {
                let i = choose|i: int|
                    0 <= i < sources.len() && routing::pattern_accepts(
                        #[trigger] sources[i],
                        address,
                    );
                if i < before.len() {
                    assert(routing::pattern_accepts(before[i], address));
                }
            }
        }
    }
}

/// Where no rule has a filter, the signal type of a query does not matter.
pub proof fn lemma_filterless(
    rules: Seq<RuleModel>,
    address: Seq<char>,
    direction: Direction,
    s: Option<Seq<char>>,
    t: Option<Seq<char>>,
)
    requires
        forall|i: int| 0 <= i < rules.len() ==> (#[trigger] rules[i]).signal_filter.len() == 0,
    ensures
        mapping(rules, address, direction, s) == mapping(rules, address, direction, t),
{
    law_every_query_has_a_result(rules, address, direction, s);
    let r = mapping(rules, address, direction, s);
    assert forall|i: int| 0 <= i < rules.len() implies rule_applies(
        #[trigger] rules[i],
        address,
        direction,
        s,
    ) == rule_applies(rules[i], address, direction, t) by {}
    assert(maps_to(rules, address, direction, t, r));
    lemma_mapping_is(rules, address, direction, t, r);
}

/// The subtree of a base holds the base itself.
pub proof fn lemma_base_is_in_its_subtree(base: Seq<char>)
    requires
        base.len() > 0,
        is_base(base),
    ensures
        routing::pattern_accepts(subtree(base), base),
        routing::is_recursive(routing::pattern_segments(subtree(base))),
{
    lemma_below_is_taken_up(base, Seq::empty());
    lemma_subtree_segments(base);
}

} // verus!
