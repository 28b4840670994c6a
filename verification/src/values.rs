//! The value model of action payloads.
//!
//! Ten kinds of value describe what a payload means, whatever the wire format:
//! null, booleans, 64-bit integers, IEEE 754 doubles, text, binary data, tuples,
//! lists, maps with text keys, and binary data tagged with a type name.
use vstd::prelude::*;

use crate::text;
use crate::text_map;
use crate::text_map::TextMap;

verus! {

/// An IEEE 754 double, held as its bit pattern.
///
/// Two values are equal when their bits are: a NaN equals itself, and the two
/// zeros differ.
#[derive(Clone, Copy, Debug, PartialEq, Eq, Structural, Hash)]
pub struct FloatValue {
    pub bits: u64,
}

impl FloatValue {
    /// The value with the given bit pattern.
    pub fn new(bits: u64) -> (r: Self)
        ensures
            r.bits == bits,
    {
        FloatValue { bits }
    }

    /// The bit pattern.
    pub fn value(self) -> (r: u64)
        ensures
            r == self.bits,
    {
        self.bits
    }

    /// The double zero.
    pub fn zero() -> (r: Self)
        ensures
            r.bits == 0,
    {
        FloatValue { bits: 0 }
    }
}

/// A value of the Ensemble type system. Values may be nested arbitrarily.
#[derive(Debug)]
pub enum Value {
    /// Explicit null value. Does not remove param state.
    Null,
    /// Boolean value.
    Bool(bool),
    /// Signed 64-bit integer.
    Integer(i64),
    /// IEEE 754 double. NaN and the infinities are permitted.
    Float(FloatValue),
    /// Text.
    String(String),
    /// Opaque sequence of bytes.
    Binary(Vec<u8>),
    /// Ordered collection with fixed positional meaning.
    Tuple(Vec<Value>),
    /// Ordered collection of variable length.
    List(Vec<Value>),
    /// Associative collection with text keys.
    Dict(TextMap<Value>),
    /// Binary data with an application-defined tag.
    TypedBinary { tag: String, data: Vec<u8> },
}

/// What a value is, mathematically.
#[verifier::ext_equal]
pub enum ValueModel {
    Null,
    Bool(bool),
    Integer(i64),
    Float(FloatValue),
    String(Seq<char>),
    Binary(Seq<u8>),
    Tuple(Seq<ValueModel>),
    List(Seq<ValueModel>),
    Dict(Map<Seq<char>, ValueModel>),
    TypedBinary { tag: Seq<char>, data: Seq<u8> },
}

/// What a value stands for.
pub open spec fn model(v: Value) -> ValueModel
    decreases v,
{
    match v {
        Value::Null => ValueModel::Null,
        Value::Bool(b) => ValueModel::Bool(b),
        Value::Integer(n) => ValueModel::Integer(n),
        Value::Float(f) => ValueModel::Float(f),
        Value::String(s) => ValueModel::String(s@),
        Value::Binary(b) => ValueModel::Binary(b@),
        Value::Tuple(items) => ValueModel::Tuple(models(items@)),
        Value::List(items) => ValueModel::List(models(items@)),
        Value::Dict(m) => ValueModel::Dict(fields(m)),
        Value::TypedBinary { tag, data } => ValueModel::TypedBinary { tag: tag@, data: data@ },
    }
}

/// What each value of a list stands for.
pub open spec fn models(s: Seq<Value>) -> Seq<ValueModel>
    decreases s,
{
    Seq::new(
        s.len(),
        |i: int|
            if 0 <= i < s.len() {
                model(s[i])
            } else {
                ValueModel::Null
            },
    )
}

/// What the fields of a map of values stand for.
pub closed spec fn fields(m: TextMap<Value>) -> Map<Seq<char>, ValueModel>
    decreases m,
{
    entries_model(m.entries@)
}

spec fn entries_model(s: Seq<(String, Value)>) -> Map<Seq<char>, ValueModel>
    decreases s,
{
    if s.len() == 0 {
        Map::empty()
    } else {
        entries_model(s.drop_last()).insert(s.last().0@, model(s.last().1))
    }
}

impl View for Value {
    type V = ValueModel;

    open spec fn view(&self) -> ValueModel {
        model(*self)
    }
}

proof fn lemma_entries_model(s: Seq<(String, Value)>)
    ensures
        entries_model(s).dom() == text_map::entries_map(s).dom(),
        forall|k: Seq<char>| #[trigger]
            text_map::entries_map(s).dom().contains(k) ==> entries_model(s)[k] == model(text_map::entries_map(s)[k]),
    decreases s.len(),
{
    if s.len() > 0 {
        lemma_entries_model(s.drop_last());
    }
    assert(entries_model(s).dom() =~= text_map::entries_map(s).dom());
}

/// The fields are those of the map, each with what its value stands for.
pub proof fn lemma_fields(m: TextMap<Value>)
    ensures
        fields(m).dom() == m@.dom(),
        forall|k: Seq<char>| #[trigger] m@.dom().contains(k) ==> fields(m)[k] == m@[k]@,
{
    lemma_entries_model(m.entries@);
    text_map::lemma_view_entries(m);
}

/// A map without fields.
pub fn new_map() -> (r: TextMap<Value>)
    ensures
        fields(r) == Map::<Seq<char>, ValueModel>::empty(),
{
    let r: TextMap<Value> = TextMap::new();
    proof {
        lemma_fields(r);
    }
    assert(fields(r) =~= Map::<Seq<char>, ValueModel>::empty());
    r
}

/// The value of the field `key`.
pub fn field<'a>(m: &'a TextMap<Value>, key: &str) -> (r: Option<&'a Value>)
    ensures
        match r {
            Some(v) => fields(*m).dom().contains(key@) && v@ == fields(*m)[key@],
            None => !fields(*m).dom().contains(key@),
        },
{
    proof {
        lemma_fields(*m);
    }
    m.get(key)
}

/// Sets the field `key`.
pub fn set_field(m: &mut TextMap<Value>, key: &str, v: Value)
    ensures
        fields(*final(m)) == fields(*old(m)).insert(key@, v@),
{
    proof {
        lemma_fields(*m);
    }
    let ghost start = *m;
    let ghost value = v;
    m.insert(key.to_owned(), v);
    proof {
        lemma_fields(*m);
        assert(fields(*m) =~= fields(start).insert(key@, value@));
    }
}

/// The fields with `key` set to a text, where there is one.
pub open spec fn with_text(
    f: Map<Seq<char>, ValueModel>,
    key: Seq<char>,
    v: Option<Seq<char>>,
) -> Map<Seq<char>, ValueModel> {
    match v {
        Some(s) => f.insert(key, ValueModel::String(s)),
        None => f,
    }
}

/// Sets the field `key` to a text, where there is one.
pub fn set_text(m: &mut TextMap<Value>, key: &str, v: &Option<String>)
    ensures
        fields(*final(m)) == with_text(fields(*old(m)), key@, text::opt_view(*v)),
{
    match v {
        Some(s) => set_field(m, key, Value::String(s.clone())),
        None => {},
    }
}

/// A copy of a byte vector.
pub fn clone_bytes(v: &Vec<u8>) -> (r: Vec<u8>)
    ensures
        r@ == v@,
{
    let mut out: Vec<u8> = Vec::new();
    let mut i: usize = 0;
    while i < v.len()
        invariant
            i <= v@.len(),
            out@ == v@.take(i as int),
        decreases v@.len() - i,
    {
        out.push(v[i]);
        i = i + 1;
        assert(out@ =~= v@.take(i as int));
    }
    assert(v@.take(v@.len() as int) =~= v@);
    out
}

/// Whether two byte vectors are equal.
pub fn same_bytes(x: &Vec<u8>, y: &Vec<u8>) -> (r: bool)
    ensures
        r == (x@ == y@),
{
    if x.len() != y.len() {
        return false;
    }
    let mut i: usize = 0;
    while i < x.len()
        invariant
            i <= x@.len(),
            x@.len() == y@.len(),
            forall|j: int| 0 <= j < i ==> x@[j] == y@[j],
        decreases x@.len() - i,
    {
        if x[i] != y[i] {
            return false;
        }
        i = i + 1;
    }
    assert(x@ =~= y@);
    true
}

/// A copy of a value.
pub fn clone_value(v: &Value) -> (r: Value)
    ensures
        r@ == v@,
    decreases v,
{
    match v {
        Value::Null => Value::Null,
        Value::Bool(b) => Value::Bool(*b),
        Value::Integer(n) => Value::Integer(*n),
        Value::Float(f) => Value::Float(*f),
        Value::String(s) => Value::String(s.clone()),
        Value::Binary(b) => Value::Binary(clone_bytes(b)),
        Value::Tuple(items) => Value::Tuple(clone_values(items)),
        Value::List(items) => Value::List(clone_values(items)),
        Value::Dict(m) => Value::Dict(clone_map(m)),
        Value::TypedBinary { tag, data } => Value::TypedBinary {
            tag: tag.clone(),
            data: clone_bytes(data),
        },
    }
}

/// Copies of the values of a list.
pub fn clone_values(items: &Vec<Value>) -> (r: Vec<Value>)
    ensures
        models(r@) == models(items@),
    decreases items,
{
    let mut out: Vec<Value> = Vec::new();
    let mut i: usize = 0;
    while i < items.len()
        invariant
            i <= items@.len(),
            out@.len() == i,
            forall|j: int| 0 <= j < i ==> model(#[trigger] out@[j]) == model(items@[j]),
        decreases items@.len() - i,
    {
        assert(decreases_to!(items => items@[i as int]));
        let v = clone_value(&items[i]);
        out.push(v);
        i = i + 1;
    }
    assert(models(out@) =~= models(items@));
    out
}

/// A copy of a map of values.
pub fn clone_map(m: &TextMap<Value>) -> (r: TextMap<Value>)
    ensures
        fields(r) == fields(*m),
        r.keys() == m.keys(),
    decreases m,
{
    let mut out: Vec<(String, Value)> = Vec::new();
    let mut i: usize = 0;
    let ghost s = m.entries@;
    while i < m.entries.len()
        invariant
            i <= m.entries@.len(),
            out@.len() == i,
            s == m.entries@,
            forall|j: int| 0 <= j < i ==> (#[trigger] out@[j]).0@ == s[j].0@,
            forall|j: int| 0 <= j < i ==> model((#[trigger] out@[j]).1) == model(s[j].1),
        decreases m.entries@.len() - i,
    {
        assert(decreases_to!(m => m.entries));
        assert(decreases_to!(m.entries => m.entries@));
        assert(decreases_to!(m.entries@ => m.entries@[i as int]));
        assert(decreases_to!(m.entries@[i as int] => m.entries@[i as int].1));
        let v = clone_value(&m.entries[i].1);
        out.push((m.entries[i].0.clone(), v));
        i = i + 1;
    }
    proof {
        lemma_same_entries(out@, s);
        use_type_invariant(m);
        text_map::lemma_view_entries(*m);
    }
    let r = text_map::from_entries(out);
    proof {
        text_map::lemma_view_entries(r);
        assert(r.keys() =~= m.keys());
    }
    r
}

proof fn lemma_same_entries(a: Seq<(String, Value)>, b: Seq<(String, Value)>)
    requires
        a.len() == b.len(),
        forall|j: int| 0 <= j < a.len() ==> (#[trigger] a[j]).0@ == b[j].0@,
        forall|j: int| 0 <= j < a.len() ==> model((#[trigger] a[j]).1) == model(b[j].1),
    ensures
        entries_model(a) == entries_model(b),
    decreases a.len(),
{
    if a.len() > 0 {
        lemma_same_entries(a.drop_last(), b.drop_last());
    }
}

impl Clone for Value {
    fn clone(&self) -> (r: Self)
        ensures
            r@ == self@,
    {
        clone_value(self)
    }
}

/// Whether two values are the same.
pub fn same_value(a: &Value, b: &Value) -> (r: bool)
    ensures
        r == (a@ == b@),
    decreases a,
{
    match (a, b) {
        (Value::Null, Value::Null) => true,
        (Value::Bool(x), Value::Bool(y)) => *x == *y,
        (Value::Integer(x), Value::Integer(y)) => *x == *y,
        (Value::Float(x), Value::Float(y)) => x.bits == y.bits,
        (Value::String(x), Value::String(y)) => text::same(x.as_str(), y.as_str()),
        (Value::Binary(x), Value::Binary(y)) => same_bytes(x, y),
        (Value::Tuple(x), Value::Tuple(y)) => same_values(x, y),
        (Value::List(x), Value::List(y)) => same_values(x, y),
        (Value::Dict(x), Value::Dict(y)) => same_map(x, y),
        (
            Value::TypedBinary { tag: t, data: d },
            Value::TypedBinary { tag: u, data: e },
        ) => text::same(t.as_str(), u.as_str()) && same_bytes(d, e),
        _ => false,
    }
}

/// Whether two lists hold the same values.
pub fn same_values(x: &Vec<Value>, y: &Vec<Value>) -> (r: bool)
    ensures
        r == (models(x@) == models(y@)),
    decreases x,
{
    if x.len() != y.len() {
        assert(models(x@).len() != models(y@).len());
        return false;
    }
    let mut i: usize = 0;
    while i < x.len()
        invariant
            i <= x@.len(),
            x@.len() == y@.len(),
            forall|j: int| 0 <= j < i ==> model(#[trigger] x@[j]) == model(y@[j]),
        decreases x@.len() - i,
    {
        assert(decreases_to!(x => x@[i as int]));
        if !same_value(&x[i], &y[i]) {
            assert(models(x@)[i as int] != models(y@)[i as int]);
            return false;
        }
        i = i + 1;
    }
    assert(models(x@) =~= models(y@));
    true
}

/// Whether two maps have the same fields.
pub fn same_map(x: &TextMap<Value>, y: &TextMap<Value>) -> (r: bool)
    ensures
        r == (fields(*x) == fields(*y)),
    decreases x,
{
    proof {
        lemma_fields(*x);
        lemma_fields(*y);
        text_map::lemma_view_entries(*x);
        use_type_invariant(x);
        text_map::lemma_ascending_distinct(x.entries@);
        text_map::lemma_entries_map(x.entries@);
    }
    if x.len() != y.len() {
        return false;
    }
    let mut i: usize = 0;
    while i < x.entries.len()
        invariant
            i <= x.entries@.len(),
            fields(*x).dom() == x@.dom(),
            fields(*y).dom() == y@.dom(),
            forall|k: Seq<char>| #[trigger] x@.dom().contains(k) ==> fields(*x)[k] == x@[k]@,
            forall|j: int|
                0 <= j < x.entries@.len() ==> x@.dom().contains(#[trigger] x.entries@[j].0@)
                    && x@[x.entries@[j].0@] == x.entries@[j].1,
            forall|j: int|
                0 <= j < i ==> fields(*y).dom().contains(#[trigger] x.entries@[j].0@) && fields(
                    *y,
                )[x.entries@[j].0@] == fields(*x)[x.entries@[j].0@],
        decreases x.entries@.len() - i,
    {
        assert(decreases_to!(x => x.entries));
        assert(decreases_to!(x.entries => x.entries@));
        assert(decreases_to!(x.entries@ => x.entries@[i as int]));
        assert(decreases_to!(x.entries@[i as int] => x.entries@[i as int].1));
        let ghost k = x.entries@[i as int].0@;
        assert(fields(*x).dom().contains(k));
        match field(y, x.entries[i].0.as_str()) {
            Some(v) => {
                if !same_value(&x.entries[i].1, v) {
                    return false;
                }
            },
            None => {
                return false;
            },
        }
        i = i + 1;
    }
    proof {
        assert forall|k: Seq<char>| fields(*x).dom().contains(k) implies fields(*y).dom().contains(
            k,
        ) && fields(*y)[k] == fields(*x)[k] by {
            let j = choose|j: int| 0 <= j < x.entries@.len() && #[trigger] x.entries@[j].0@ == k;
        }
        vstd::set_lib::lemma_subset_equality(fields(*x).dom(), fields(*y).dom());
        assert(fields(*x) =~= fields(*y));
    }
    true
}

impl PartialEq for Value {
    fn eq(&self, other: &Self) -> (r: bool) {
        same_value(self, other)
    }
}

impl vstd::std_specs::cmp::PartialEqSpecImpl for Value {
    open spec fn obeys_eq_spec() -> bool {
        true
    }

    open spec fn eq_spec(&self, other: &Self) -> bool {
        self@ == other@
    }
}

} // verus!
