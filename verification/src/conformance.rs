//! Conformance fixtures: YAML documents read as values of the protocol.
use serde_yaml::Value as Parsed;
use vstd::prelude::*;

use crate::manifest;
use crate::manifest::VoiceManifest;
use crate::text;
use crate::text_map::TextMap;
use crate::values;
use crate::values::FloatValue;
use crate::values::Value;
use crate::values::ValueModel;

verus! {

/// A node of a YAML document.
#[derive(Debug)]
pub enum YamlNode {
    Null,
    Bool(bool),
    /// A number, as the integer and as the double that it can be read as.
    Number { integer: Option<i64>, double: Option<FloatValue> },
    Text(String),
    Sequence(Vec<YamlNode>),
    Mapping(Vec<YamlEntry>),
    /// A node with a tag of its own.
    Tagged(Box<YamlNode>),
}

/// An entry of a YAML mapping.
#[derive(Debug)]
pub struct YamlEntry {
    pub key: YamlNode,
    pub value: YamlNode,
}

/// What a node is, mathematically.
#[verifier::ext_equal]
pub enum YamlModel {
    Null,
    Bool(bool),
    Number { integer: Option<i64>, double: Option<FloatValue> },
    Text(Seq<char>),
    Sequence(Seq<YamlModel>),
    Mapping(Seq<EntryModel>),
    Tagged(Box<YamlModel>),
}

/// What an entry is, mathematically.
#[verifier::ext_equal]
pub struct EntryModel {
    pub key: YamlModel,
    pub value: YamlModel,
}

/// What a node stands for.
pub open spec fn node_model(v: YamlNode) -> YamlModel
    decreases v,
{
    match v {
        YamlNode::Null => YamlModel::Null,
        YamlNode::Bool(b) => YamlModel::Bool(b),
        YamlNode::Number { integer, double } => YamlModel::Number { integer, double },
        YamlNode::Text(s) => YamlModel::Text(s@),
        YamlNode::Sequence(items) => YamlModel::Sequence(node_models(items@)),
        YamlNode::Mapping(entries) => YamlModel::Mapping(entry_models(entries@)),
        YamlNode::Tagged(inner) => YamlModel::Tagged(Box::new(node_model(*inner))),
    }
}

/// What each node of a list stands for.
pub open spec fn node_models(s: Seq<YamlNode>) -> Seq<YamlModel>
    decreases s,
{
    Seq::new(
        s.len(),
        |i: int|
            if 0 <= i < s.len() {
                node_model(s[i])
            } else {
                YamlModel::Null
            },
    )
}

/// What each entry of a mapping stands for.
pub open spec fn entry_models(s: Seq<YamlEntry>) -> Seq<EntryModel>
    decreases s,
{
    Seq::new(
        s.len(),
        |i: int|
            if 0 <= i < s.len() {
                EntryModel { key: node_model(s[i].key), value: node_model(s[i].value) }
            } else {
                EntryModel { key: YamlModel::Null, value: YamlModel::Null }
            },
    )
}

impl View for YamlNode {
    type V = YamlModel;

    open spec fn view(&self) -> YamlModel {
        node_model(*self)
    }
}

/// What an optional node stands for.
pub open spec fn opt_model(v: Option<YamlNode>) -> Option<YamlModel> {
    match v {
        Some(v) => Some(v@),
        None => None,
    }
}

/// The fixtures directory below a package's own directory.
pub fn fixtures_dir(package_dir: &str) -> (r: String)
    ensures
        r@ == package_dir@ + "/fixtures"@,
{
    let mut out = package_dir.to_owned();
    out.append("/fixtures");
    out
}

// ---------------------------------------------------------------------------
// Access
// ---------------------------------------------------------------------------

/// The node below its tags.
pub open spec fn untagged(v: YamlModel) -> YamlModel
    decreases v,
{
    match v {
        YamlModel::Tagged(inner) => untagged(*inner),
        _ => v,
    }
}

/// The value of the first entry with a key.
pub open spec fn lookup(entries: Seq<EntryModel>, key: Seq<char>) -> Option<YamlModel>
    decreases entries.len(),
{
    if entries.len() == 0 {
        None
    } else if entries[0].key == YamlModel::Text(key) {
        Some(entries[0].value)
    } else {
        lookup(entries.skip(1), key)
    }
}

/// The value under a key of a mapping.
pub open spec fn entry(v: YamlModel, key: Seq<char>) -> Option<YamlModel> {
    match untagged(v) {
        YamlModel::Mapping(entries) => lookup(entries, key),
        _ => None,
    }
}

/// The text that a node is.
pub open spec fn node_text(v: Option<YamlModel>) -> Option<Seq<char>> {
    match v {
        Some(v) => match untagged(v) {
            YamlModel::Text(s) => Some(s),
            _ => None,
        },
        None => None,
    }
}

/// The boolean that a node is.
pub open spec fn node_bool(v: Option<YamlModel>) -> Option<bool> {
    match v {
        Some(v) => match untagged(v) {
            YamlModel::Bool(b) => Some(b),
            _ => None,
        },
        None => None,
    }
}

/// The integer that a node is.
pub open spec fn node_integer(v: Option<YamlModel>) -> Option<i64> {
    match v {
        Some(v) => match untagged(v) {
            YamlModel::Number { integer, .. } => integer,
            _ => None,
        },
        None => None,
    }
}

/// The double that a node is.
pub open spec fn node_double(v: Option<YamlModel>) -> Option<FloatValue> {
    match v {
        Some(v) => match untagged(v) {
            YamlModel::Number { double, .. } => double,
            _ => None,
        },
        None => None,
    }
}

/// The items of the sequence that a node is.
pub open spec fn node_items(v: Option<YamlModel>) -> Option<Seq<YamlModel>> {
    match v {
        Some(v) => match untagged(v) {
            YamlModel::Sequence(items) => Some(items),
            _ => None,
        },
        None => None,
    }
}

/// The entries of the mapping that a node is.
pub open spec fn node_entries(v: Option<YamlModel>) -> Option<Seq<EntryModel>> {
    match v {
        Some(v) => match untagged(v) {
            YamlModel::Mapping(entries) => Some(entries),
            _ => None,
        },
        None => None,
    }
}

/// What lies inside a node is smaller than the node.
pub proof fn lemma_parts_are_smaller(v: YamlModel, key: Seq<char>)
    ensures
        entry(v, key) matches Some(x) ==> decreases_to!(v => x),
        node_items(Some(v)) matches Some(items) ==> decreases_to!(v => items),
        node_entries(Some(v)) matches Some(entries) ==> decreases_to!(v => entries),
    decreases v,
{
    match v {
        YamlModel::Tagged(inner) => {
            lemma_parts_are_smaller(*inner, key);
            assert(decreases_to!(v => *inner));
        },
        YamlModel::Mapping(entries) => {
            assert(decreases_to!(v => entries));
            lemma_lookup(entries, key);
            if let Some(x) = lookup(entries, key) {
                let i = choose|i: int| 0 <= i < entries.len() && (#[trigger] entries[i]).value == x;
                assert(decreases_to!(entries => entries[i]));
                assert(decreases_to!(entries[i] => entries[i].value));
            }
        },
        YamlModel::Sequence(items) => {
            assert(decreases_to!(v => items));
        },
        _ => {},
    }
}

proof fn lemma_lookup(entries: Seq<EntryModel>, key: Seq<char>)
    ensures
        lookup(entries, key) matches Some(x) ==> exists|i: int|
            0 <= i < entries.len() && (#[trigger] entries[i]).value == x,
    decreases entries.len(),
{
    if entries.len() > 0 && entries[0].key != YamlModel::Text(key) {
        lemma_lookup(entries.skip(1), key);
        if let Some(x) = lookup(entries.skip(1), key) {
            let i = choose|i: int|
                0 <= i < entries.skip(1).len() && (#[trigger] entries.skip(1)[i]).value == x;
            assert(entries[i + 1].value == x);
        }
    }
}

/// The node below its tags.
fn untag(v: &YamlNode) -> (r: &YamlNode)
    ensures
        r@ == untagged(v@),
        !(*r is Tagged),
        untagged(r@) == r@,
    decreases v@,
{
    match v {
        YamlNode::Tagged(inner) => untag(inner),
        _ => v,
    }
}

/// The text that a node is.
fn text_of(v: &YamlNode) -> (r: Option<&String>)
    ensures
        match r {
            Some(s) => node_text(Some(v@)) == Some(s@),
            None => node_text(Some(v@)) is None,
        },
{
    match untag(v) {
        YamlNode::Text(s) => Some(s),
        _ => None,
    }
}

/// The value under a key of a mapping.
pub fn yaml_get<'a>(v: &'a YamlNode, key: &str) -> (r: Option<&'a YamlNode>)
    ensures
        match r {
            Some(x) => entry(v@, key@) == Some(x@),
            None => entry(v@, key@) is None,
        },
{
    let u = untag(v);
    match u {
        YamlNode::Mapping(entries) => {
            let ghost all = entry_models(entries@);
            let mut i: usize = 0;
            assert(all.skip(0) =~= all);
            while i < entries.len()
                invariant
                    i <= entries@.len(),
                    all == entry_models(entries@),
                    entry(v@, key@) == lookup(all, key@),
                    lookup(all, key@) == lookup(all.skip(i as int), key@),
                decreases entries@.len() - i,
            {
                assert(all.skip(i as int)[0] == all[i as int]);
                if let YamlNode::Text(k) = &entries[i].key {
                    if text::same(k.as_str(), key) {
                        return Some(&entries[i].value);
                    }
                }
                assert(all.skip(i as int).skip(1) =~= all.skip(i as int + 1));
                i = i + 1;
            }
            None
        },
        _ => None,
    }
}

/// The text under a key.
pub fn yaml_str(v: &YamlNode, key: &str) -> (r: Option<String>)
    ensures
        text::opt_view(r) == node_text(entry(v@, key@)),
{
    match yaml_get(v, key) {
        Some(x) => match text_of(x) {
            Some(s) => Some(s.as_str().to_owned()),
            None => None,
        },
        None => None,
    }
}

/// The boolean under a key.
pub fn yaml_bool(v: &YamlNode, key: &str) -> (r: Option<bool>)
    ensures
        r == node_bool(entry(v@, key@)),
{
    match yaml_get(v, key) {
        Some(x) => match untag(x) {
            YamlNode::Bool(b) => Some(*b),
            _ => None,
        },
        None => None,
    }
}

/// The integer under a key.
pub fn yaml_i64(v: &YamlNode, key: &str) -> (r: Option<i64>)
    ensures
        r == node_integer(entry(v@, key@)),
{
    match yaml_get(v, key) {
        Some(x) => match untag(x) {
            YamlNode::Number { integer, .. } => *integer,
            _ => None,
        },
        None => None,
    }
}

/// The double under a key.
pub fn yaml_f64(v: &YamlNode, key: &str) -> (r: Option<FloatValue>)
    ensures
        r == node_double(entry(v@, key@)),
{
    match yaml_get(v, key) {
        Some(x) => match untag(x) {
            YamlNode::Number { double, .. } => *double,
            _ => None,
        },
        None => None,
    }
}

/// The sequence under a key.
pub fn yaml_seq<'a>(v: &'a YamlNode, key: &str) -> (r: Option<&'a Vec<YamlNode>>)
    ensures
        match r {
            Some(items) => node_items(entry(v@, key@)) == Some(node_models(items@)),
            None => node_items(entry(v@, key@)) is None,
        },
{
    match yaml_get(v, key) {
        Some(x) => match untag(x) {
            YamlNode::Sequence(items) => Some(items),
            _ => None,
        },
        None => None,
    }
}

/// The mapping under a key.
pub fn yaml_map<'a>(v: &'a YamlNode, key: &str) -> (r: Option<&'a Vec<YamlEntry>>)
    ensures
        match r {
            Some(entries) => node_entries(entry(v@, key@)) == Some(entry_models(entries@)),
            None => node_entries(entry(v@, key@)) is None,
        },
{
    match yaml_get(v, key) {
        Some(x) => match untag(x) {
            YamlNode::Mapping(entries) => Some(entries),
            _ => None,
        },
        None => None,
    }
}

// ---------------------------------------------------------------------------
// Plain nodes
// ---------------------------------------------------------------------------

/// The value that a node stands for by its own kind. Nodes with tags, and
/// mappings with keys that are no text, stand for none.
pub open spec fn plain_value(v: YamlModel) -> Option<ValueModel>
    decreases v,
{
    match v {
        YamlModel::Null => Some(ValueModel::Null),
        YamlModel::Bool(b) => Some(ValueModel::Bool(b)),
        YamlModel::Number { integer, double } => match integer {
            Some(n) => Some(ValueModel::Integer(n)),
            None => match double {
                Some(f) => Some(ValueModel::Float(f)),
                None => Some(ValueModel::Float(FloatValue { bits: 0 })),
            },
        },
        YamlModel::Text(s) => Some(ValueModel::String(s)),
        YamlModel::Sequence(items) => match plain_values(items) {
            Some(list) => Some(ValueModel::List(list)),
            None => None,
        },
        YamlModel::Mapping(entries) => match plain_fields(entries) {
            Some(fields) => Some(ValueModel::Dict(fields)),
            None => None,
        },
        YamlModel::Tagged(_) => None,
    }
}

/// The values that the nodes stand for, where each does for one.
pub open spec fn plain_values(items: Seq<YamlModel>) -> Option<Seq<ValueModel>>
    decreases items,
{
    if items.len() == 0 {
        Some(Seq::empty())
    } else {
        match (plain_values(items.drop_last()), plain_value(items.last())) {
            (Some(init), Some(last)) => Some(init.push(last)),
            _ => None,
        }
    }
}

/// The fields that the entries stand for, where each does for one.
pub open spec fn plain_fields(entries: Seq<EntryModel>) -> Option<Map<Seq<char>, ValueModel>>
    decreases entries,
{
    if entries.len() == 0 {
        Some(Map::empty())
    } else {
        match (
            plain_fields(entries.drop_last()),
            node_text(Some(entries.last().key)),
            plain_value(entries.last().value),
        ) {
            (Some(init), Some(key), Some(value)) => Some(init.insert(key, value)),
            _ => None,
        }
    }
}

/// Where the first nodes of a list already fail, the whole list does.
proof fn lemma_plain_values_fail(items: Seq<YamlModel>, i: int)
    requires
        0 <= i <= items.len(),
        plain_values(items.take(i)) is None,
    ensures
        plain_values(items) is None,
    decreases items.len() - i,
{
    if i < items.len() {
        assert(items.take(i + 1).drop_last() =~= items.take(i));
        lemma_plain_values_fail(items, i + 1);
    } else {
        assert(items.take(i) =~= items);
    }
}

proof fn lemma_plain_fields_fail(entries: Seq<EntryModel>, i: int)
    requires
        0 <= i <= entries.len(),
        plain_fields(entries.take(i)) is None,
    ensures
        plain_fields(entries) is None,
    decreases entries.len() - i,
{
    if i < entries.len() {
        assert(entries.take(i + 1).drop_last() =~= entries.take(i));
        lemma_plain_fields_fail(entries, i + 1);
    } else {
        assert(entries.take(i) =~= entries);
    }
}

/// The value that a node stands for, where it does for one.
pub fn read_plain(v: &YamlNode) -> (r: Option<Value>)
    ensures
        match r {
            Some(x) => plain_value(v@) == Some(x@),
            None => plain_value(v@) is None,
        },
    decreases v@,
{
    match v {
        YamlNode::Null => Some(Value::Null),
        YamlNode::Bool(b) => Some(Value::Bool(*b)),
        YamlNode::Number { integer, double } => match integer {
            Some(n) => Some(Value::Integer(*n)),
            None => match double {
                Some(f) => Some(Value::Float(*f)),
                None => Some(Value::Float(FloatValue::zero())),
            },
        },
        YamlNode::Text(s) => Some(Value::String(s.as_str().to_owned())),
        YamlNode::Sequence(items) => {
            let ghost all = node_models(items@);
            let mut out: Vec<Value> = Vec::new();
            let mut i: usize = 0;
            assert(all.take(0) =~= Seq::empty());
            assert(values::models(out@) =~= Seq::empty());
            while i < items.len()
                invariant
                    i <= items@.len(),
                    all == node_models(items@),
                    v@ == YamlModel::Sequence(all),
                    plain_values(all.take(i as int)) == Some(values::models(out@)),
                decreases items@.len() - i,
            {
                assert(all.take(i as int + 1).drop_last() =~= all.take(i as int));
                assert(decreases_to!(v@ => all));
                assert(decreases_to!(all => all[i as int]));
                match read_plain(&items[i]) {
                    Some(x) => {
                        let ghost earlier = out@;
                        out.push(x);
                        assert(values::models(out@) =~= values::models(earlier).push(x@));
                    },
                    None => {
                        proof {
                            lemma_plain_values_fail(all, i as int + 1);
                        }
                        return None;
                    },
                }
                i = i + 1;
            }
            assert(all.take(all.len() as int) =~= all);
            Some(Value::List(out))
        },
        YamlNode::Mapping(entries) => {
            let ghost all = entry_models(entries@);
            let mut out = values::new_map();
            let mut i: usize = 0;
            assert(all.take(0) =~= Seq::empty());
            while i < entries.len()
                invariant
                    i <= entries@.len(),
                    all == entry_models(entries@),
                    v@ == YamlModel::Mapping(all),
                    plain_fields(all.take(i as int)) == Some(values::fields(out)),
                decreases entries@.len() - i,
            {
                assert(all.take(i as int + 1).drop_last() =~= all.take(i as int));
                assert(decreases_to!(v@ => all));
                assert(decreases_to!(all => all[i as int]));
                assert(decreases_to!(all[i as int] => all[i as int].value));
                match (text_of(&entries[i].key), read_plain(&entries[i].value)) {
                    (Some(key), Some(x)) => {
                        values::set_field(&mut out, key.as_str(), x);
                    },
                    _ => {
                        proof {
                            lemma_plain_fields_fail(all, i as int + 1);
                        }
                        return None;
                    },
                }
                i = i + 1;
            }
            assert(all.take(all.len() as int) =~= all);
            Some(Value::Dict(out))
        },
        YamlNode::Tagged(_) => None,
    }
}

/// The value that a plain node stands for.
pub fn yaml_plain_to_value(v: &YamlNode) -> (r: Value)
    requires
        plain_value(v@) is Some,
    ensures
        plain_value(v@) == Some(r@),
{
    match read_plain(v) {
        Some(x) => x,
        None => Value::Null,
    }
}

/// The manifest that a plain mapping stands for.
pub fn yaml_to_manifest(v: &YamlNode) -> (r: VoiceManifest)
    requires
        plain_value(v@) is Some,
        manifest::manifest_from(plain_value(v@)->0) is Some,
    ensures
        manifest::manifest_from(plain_value(v@)->0) == Some(r@),
{
    let plain = yaml_plain_to_value(v);
    match VoiceManifest::from_value(&plain) {
        Some(m) => m,
        None => VoiceManifest::new(""),
    }
}

// ---------------------------------------------------------------------------
// Typed nodes
// ---------------------------------------------------------------------------

/// The name of the type that a typed node states, `null` where it states none.
pub open spec fn stated_kind(v: YamlModel) -> Seq<char> {
    match node_text(entry(v, "type"@)) {
        Some(s) => s,
        None => "null"@,
    }
}

/// The bytes that the nodes are, where each is a number from 0 to 255.
pub open spec fn node_bytes(items: Seq<YamlModel>) -> Option<Seq<u8>>
    decreases items.len(),
{
    if items.len() == 0 {
        Some(Seq::empty())
    } else {
        match (node_bytes(items.drop_last()), node_integer(Some(items.last()))) {
            (Some(init), Some(n)) => if 0 <= n <= 255 {
                Some(init.push(n as u8))
            } else {
                None
            },
            _ => None,
        }
    }
}

/// The bytes under a key.
pub open spec fn bytes_under(v: YamlModel, key: Seq<char>) -> Option<Seq<u8>> {
    match node_items(entry(v, key)) {
        Some(items) => node_bytes(items),
        None => None,
    }
}

/// The value that a typed node stands for: its `type` names the kind, `data`
/// holds the content, and `tag` the tag of typed binary data. A node whose type
/// is unknown or whose content does not fit the type stands for none.
pub open spec fn typed_value(v: YamlModel) -> Option<ValueModel>
    decreases v,
{
    let kind = stated_kind(v);
    let data = entry(v, "data"@);
    if kind == "null"@ {
        Some(ValueModel::Null)
    } else if kind == "bool"@ {
        match node_bool(data) {
            Some(b) => Some(ValueModel::Bool(b)),
            None => None,
        }
    } else if kind == "integer"@ {
        match node_integer(data) {
            Some(n) => Some(ValueModel::Integer(n)),
            None => None,
        }
    } else if kind == "float"@ {
        match node_double(data) {
            Some(f) => Some(ValueModel::Float(f)),
            None => None,
        }
    } else if kind == "string"@ {
        match node_text(data) {
            Some(s) => Some(ValueModel::String(s)),
            None => None,
        }
    } else if kind == "binary"@ {
        match bytes_under(v, "data"@) {
            Some(b) => Some(ValueModel::Binary(b)),
            None => None,
        }
    } else if kind == "tuple"@ {
        match node_items(data) {
            Some(items) => {
                proof {
                    lemma_data_is_smaller(v);
                }
                match typed_values(items) {
                    Some(list) => Some(ValueModel::Tuple(list)),
                    None => None,
                }
            },
            None => None,
        }
    } else if kind == "list"@ {
        match node_items(data) {
            Some(items) => {
                proof {
                    lemma_data_is_smaller(v);
                }
                match typed_values(items) {
                    Some(list) => Some(ValueModel::List(list)),
                    None => None,
                }
            },
            None => None,
        }
    } else if kind == "map"@ {
        match node_entries(data) {
            Some(entries) => {
                proof {
                    lemma_data_is_smaller(v);
                }
                match typed_fields(entries) {
                    Some(fields) => Some(ValueModel::Dict(fields)),
                    None => None,
                }
            },
            None => None,
        }
    } else if kind == "typed_binary"@ {
        match (node_text(entry(v, "tag"@)), bytes_under(v, "data"@)) {
            (Some(tag), Some(data)) => Some(ValueModel::TypedBinary { tag, data }),
            _ => None,
        }
    } else {
        None
    }
}

/// The values that the typed nodes stand for, where each does for one.
pub open spec fn typed_values(items: Seq<YamlModel>) -> Option<Seq<ValueModel>>
    decreases items,
{
    if items.len() == 0 {
        Some(Seq::empty())
    } else {
        match (typed_values(items.drop_last()), typed_value(items.last())) {
            (Some(init), Some(last)) => Some(init.push(last)),
            _ => None,
        }
    }
}

/// The fields that the entries with typed nodes stand for, where each does for
/// one.
pub open spec fn typed_fields(entries: Seq<EntryModel>) -> Option<Map<Seq<char>, ValueModel>>
    decreases entries,
{
    if entries.len() == 0 {
        Some(Map::empty())
    } else {
        match (
            typed_fields(entries.drop_last()),
            node_text(Some(entries.last().key)),
            typed_value(entries.last().value),
        ) {
            (Some(init), Some(key), Some(value)) => Some(init.insert(key, value)),
            _ => None,
        }
    }
}

/// The content of a typed node is smaller than the node.
pub proof fn lemma_data_is_smaller(v: YamlModel)
    ensures
        node_items(entry(v, "data"@)) matches Some(items) ==> decreases_to!(v => items),
        node_entries(entry(v, "data"@)) matches Some(entries) ==> decreases_to!(v => entries),
{
    lemma_parts_are_smaller(v, "data"@);
    if let Some(data) = entry(v, "data"@) {
        lemma_parts_are_smaller(data, "data"@);
        assert(decreases_to!(v => data));
    }
}

proof fn lemma_typed_values_fail(items: Seq<YamlModel>, i: int)
    requires
        0 <= i <= items.len(),
        typed_values(items.take(i)) is None,
    ensures
        typed_values(items) is None,
    decreases items.len() - i,
{
    if i < items.len() {
        assert(items.take(i + 1).drop_last() =~= items.take(i));
        lemma_typed_values_fail(items, i + 1);
    } else {
        assert(items.take(i) =~= items);
    }
}

proof fn lemma_typed_fields_fail(entries: Seq<EntryModel>, i: int)
    requires
        0 <= i <= entries.len(),
        typed_fields(entries.take(i)) is None,
    ensures
        typed_fields(entries) is None,
    decreases entries.len() - i,
{
    if i < entries.len() {
        assert(entries.take(i + 1).drop_last() =~= entries.take(i));
        lemma_typed_fields_fail(entries, i + 1);
    } else {
        assert(entries.take(i) =~= entries);
    }
}

proof fn lemma_node_bytes_fail(items: Seq<YamlModel>, i: int)
    requires
        0 <= i <= items.len(),
        node_bytes(items.take(i)) is None,
    ensures
        node_bytes(items) is None,
    decreases items.len() - i,
{
    if i < items.len() {
        assert(items.take(i + 1).drop_last() =~= items.take(i));
        lemma_node_bytes_fail(items, i + 1);
    } else {
        assert(items.take(i) =~= items);
    }
}

/// The bytes under a key.
fn read_bytes(v: &YamlNode, key: &str) -> (r: Option<Vec<u8>>)
    ensures
        match r {
            Some(b) => bytes_under(v@, key@) == Some(b@),
            None => bytes_under(v@, key@) is None,
        },
{
    match yaml_seq(v, key) {
        None => None,
        Some(items) => {
            let ghost all = node_models(items@);
            let mut out: Vec<u8> = Vec::new();
            let mut i: usize = 0;
            assert(all.take(0) =~= Seq::empty());
            while i < items.len()
                invariant
                    i <= items@.len(),
                    all == node_models(items@),
                    node_items(entry(v@, key@)) == Some(all),
                    node_bytes(all.take(i as int)) == Some(out@),
                decreases items@.len() - i,
            {
                assert(all.take(i as int + 1).drop_last() =~= all.take(i as int));
                let n: i64 = match untag(&items[i]) {
                    YamlNode::Number { integer: Some(n), .. } => *n,
                    _ => -1,
                };
                if n < 0 || n > 255 {
                    proof {
                        lemma_node_bytes_fail(all, i as int + 1);
                    }
                    return None;
                }
                out.push(n as u8);
                i = i + 1;
            }
            assert(all.take(all.len() as int) =~= all);
            Some(out)
        },
    }
}

fn read_typed_values(items: &Vec<YamlNode>) -> (r: Option<Vec<Value>>)
    ensures
        match r {
            Some(list) => typed_values(node_models(items@)) == Some(values::models(list@)),
            None => typed_values(node_models(items@)) is None,
        },
    decreases node_models(items@),
{
    let ghost all = node_models(items@);
    let mut out: Vec<Value> = Vec::new();
    let mut i: usize = 0;
    assert(all.take(0) =~= Seq::empty());
    assert(values::models(out@) =~= Seq::empty());
    while i < items.len()
        invariant
            i <= items@.len(),
            all == node_models(items@),
            typed_values(all.take(i as int)) == Some(values::models(out@)),
        decreases items@.len() - i,
    {
        assert(all.take(i as int + 1).drop_last() =~= all.take(i as int));
        assert(decreases_to!(all => all[i as int]));
        match read_typed(&items[i]) {
            Some(x) => {
                let ghost earlier = out@;
                out.push(x);
                assert(values::models(out@) =~= values::models(earlier).push(x@));
            },
            None => {
                proof {
                    lemma_typed_values_fail(all, i as int + 1);
                }
                return None;
            },
        }
        i = i + 1;
    }
    assert(all.take(all.len() as int) =~= all);
    Some(out)
}

fn read_typed_fields(entries: &Vec<YamlEntry>) -> (r: Option<TextMap<Value>>)
    ensures
        match r {
            Some(m) => typed_fields(entry_models(entries@)) == Some(values::fields(m)),
            None => typed_fields(entry_models(entries@)) is None,
        },
    decreases entry_models(entries@),
{
    let ghost all = entry_models(entries@);
    let mut out = values::new_map();
    let mut i: usize = 0;
    assert(all.take(0) =~= Seq::empty());
    while i < entries.len()
        invariant
            i <= entries@.len(),
            all == entry_models(entries@),
            typed_fields(all.take(i as int)) == Some(values::fields(out)),
        decreases entries@.len() - i,
    {
        assert(all.take(i as int + 1).drop_last() =~= all.take(i as int));
        assert(decreases_to!(all => all[i as int]));
        assert(decreases_to!(all[i as int] => all[i as int].value));
        match (text_of(&entries[i].key), read_typed(&entries[i].value)) {
            (Some(key), Some(x)) => {
                values::set_field(&mut out, key.as_str(), x);
            },
            _ => {
                proof {
                    lemma_typed_fields_fail(all, i as int + 1);
                }
                return None;
            },
        }
        i = i + 1;
    }
    assert(all.take(all.len() as int) =~= all);
    Some(out)
}

/// The value that a typed node stands for, where it does for one.
pub fn read_typed(v: &YamlNode) -> (r: Option<Value>)
    ensures
        match r {
            Some(x) => typed_value(v@) == Some(x@),
            None => typed_value(v@) is None,
        },
    decreases v@,
{
    let kind = match yaml_str(v, "type") {
        Some(s) => s,
        None => "null".to_owned(),
    };
    let k = kind.as_str();
    assert(k@ == stated_kind(v@));
    proof {
        lemma_data_is_smaller(v@);
    }
    if text::same(k, "null") {
        Some(Value::Null)
    } else if text::same(k, "bool") {
        match yaml_bool(v, "data") {
            Some(b) => Some(Value::Bool(b)),
            None => None,
        }
    } else if text::same(k, "integer") {
        match yaml_i64(v, "data") {
            Some(n) => Some(Value::Integer(n)),
            None => None,
        }
    } else if text::same(k, "float") {
        match yaml_f64(v, "data") {
            Some(f) => Some(Value::Float(f)),
            None => None,
        }
    } else if text::same(k, "string") {
        match yaml_str(v, "data") {
            Some(s) => Some(Value::String(s)),
            None => None,
        }
    } else if text::same(k, "binary") {
        match read_bytes(v, "data") {
            Some(b) => Some(Value::Binary(b)),
            None => None,
        }
    } else if text::same(k, "tuple") {
        match yaml_seq(v, "data") {
            Some(items) => match read_typed_values(items) {
                Some(list) => Some(Value::Tuple(list)),
                None => None,
            },
            None => None,
        }
    } else if text::same(k, "list") {
        match yaml_seq(v, "data") {
            Some(items) => match read_typed_values(items) {
                Some(list) => Some(Value::List(list)),
                None => None,
            },
            None => None,
        }
    } else if text::same(k, "map") {
        match yaml_map(v, "data") {
            Some(entries) => match read_typed_fields(entries) {
                Some(m) => Some(Value::Dict(m)),
                None => None,
            },
            None => None,
        }
    } else if text::same(k, "typed_binary") {
        match (yaml_str(v, "tag"), read_bytes(v, "data")) {
            (Some(tag), Some(data)) => Some(Value::TypedBinary { tag, data }),
            _ => None,
        }
    } else {
        None
    }
}

/// The value that a typed node stands for.
pub fn yaml_typed_to_value(v: &YamlNode) -> (r: Value)
    requires
        typed_value(v@) is Some,
    ensures
        typed_value(v@) == Some(r@),
{
    match read_typed(v) {
        Some(x) => x,
        None => Value::Null,
    }
}

// ---------------------------------------------------------------------------
// Documents
// ---------------------------------------------------------------------------

/// The node that `serde_yaml::from_str` reads from a text; none where the text is
/// no YAML document.
pub uninterp spec fn yaml_document(text: Seq<char>) -> Option<YamlModel>;

/// A value as `serde_yaml` holds it.
#[verifier::external_body]
struct ParsedYaml(Parsed);

/// The node of a value of `serde_yaml`, variant by variant. Of a number it takes
/// what `Number::as_i64` and `Number::as_f64` give, the latter as its bit pattern.
/// Nothing is claimed of it here: what a text is read as is named by
/// `yaml_document`.
#[verifier::external_body]
fn parsed_node(v: ParsedYaml) -> (r: YamlNode) {
    match v.0 {
        Parsed::Null => YamlNode::Null,
        Parsed::Bool(b) => YamlNode::Bool(b),
        Parsed::Number(n) => YamlNode::Number {
            integer: n.as_i64(),
            double: n.as_f64().map(|x| FloatValue { bits: x.to_bits() })
        },
        Parsed::String(s) => YamlNode::Text(s),
        Parsed::Sequence(l) => YamlNode::Sequence(l.into_iter().map(ParsedYaml).map(parsed_node).collect()),
        Parsed::Mapping(m) => YamlNode::Mapping(
            m.into_iter().map(|(k, x)| YamlEntry { key: parsed_node(ParsedYaml(k)), value: parsed_node(ParsedYaml(x)) }).collect()
        ),
        Parsed::Tagged(t) => YamlNode::Tagged(parsed_node(ParsedYaml(t.value)).into()),
    }
}

/// `serde_yaml::from_str`: the node that a text is read as, which depends on the
/// text alone; none where it gives an error.
#[verifier::external_body]
pub(crate) fn parse_yaml(text: &str) -> (r: Option<YamlNode>)
    ensures
        opt_model(r) == yaml_document(text@),
{
    serde_yaml::from_str(text).ok().map(|v| parsed_node(ParsedYaml(v)))
}

/// The node of a fixture, given the text of its file; none where the text is no
/// YAML document.
pub fn load_fixture(text: &str) -> (r: Option<YamlNode>)
    ensures
        opt_model(r) == yaml_document(text@),
{
    parse_yaml(text)
}

/// The value that a document stands for by its own kind, where it does for one.
pub open spec fn plain_document(document: Option<YamlModel>) -> Option<ValueModel> {
    match document {
        Some(v) => plain_value(v),
        None => None,
    }
}

/// The value that a typed document stands for, where it does for one.
pub open spec fn typed_document(document: Option<YamlModel>) -> Option<ValueModel> {
    match document {
        Some(v) => typed_value(v),
        None => None,
    }
}

/// The value that the text of a plain document stands for, where it does for one.
pub fn load_plain(text: &str) -> (r: Option<Value>)
    ensures
        match r {
            Some(x) => plain_document(yaml_document(text@)) == Some(x@),
            None => plain_document(yaml_document(text@)) is None,
        },
{
    match load_fixture(text) {
        Some(v) => read_plain(&v),
        None => None,
    }
}

/// The value that the text of a typed document stands for, where it does for one.
pub fn load_typed(text: &str) -> (r: Option<Value>)
    ensures
        match r {
            Some(x) => typed_document(yaml_document(text@)) == Some(x@),
            None => typed_document(yaml_document(text@)) is None,
        },
{
    match load_fixture(text) {
        Some(v) => read_typed(&v),
        None => None,
    }
}

/// A tag is transparent to the accessors, but no plain value.
pub proof fn law_tags_are_transparent(v: YamlModel, key: Seq<char>)
    ensures
        entry(YamlModel::Tagged(Box::new(v)), key) == entry(v, key),
        typed_value(YamlModel::Tagged(Box::new(v))) == typed_value(v),
        plain_value(YamlModel::Tagged(Box::new(v))) is None,
{
    let tagged = YamlModel::Tagged(Box::new(v));
    assert(forall|k: Seq<char>| #[trigger] entry(tagged, k) == entry(v, k));
}

/// A sequence stands for a list exactly if each of its items stands for a value; item `i`
/// of the list is what item `i` of the sequence stands for.
pub proof fn law_plain_items(items: Seq<YamlModel>)
    ensures
        plain_values(items) is Some <==> forall|i: int|
            0 <= i < items.len() ==> plain_value(#[trigger] items[i]) is Some,
        plain_values(items) matches Some(list) ==> list.len() == items.len() && forall|i: int|
            0 <= i < items.len() ==> plain_value(items[i]) == Some(#[trigger] list[i]),
    decreases items.len(),
{
    if items.len() > 0 {
        let init = items.drop_last();
        law_plain_items(init);
        assert(items[items.len() - 1] == items.last());
        assert forall|i: int| 0 <= i < init.len() implies #[trigger] init[i] == items[i] by {}
        if forall|i: int| 0 <= i < items.len() ==> plain_value(#[trigger] items[i]) is Some {
            assert forall|i: int| 0 <= i < init.len() implies plain_value(
                #[trigger] init[i],
            ) is Some by {
                assert(items[i] == init[i]);
            }
        }
        if let Some(list) = plain_values(items) {
            let before = plain_values(init)->0;
            assert forall|i: int| 0 <= i < items.len() implies plain_value(items[i]) == Some(
                #[trigger] list[i],
            ) by {
                if i < init.len() {
                    assert(list[i] == before[i]);
                    assert(init[i] == items[i]);
                }
            }
            assert forall|i: int| 0 <= i < items.len() implies plain_value(
                #[trigger] items[i],
            ) is Some by {
                assert(plain_value(items[i]) == Some(list[i]));
            }
        }
    }
}

/// The typed nodes of a sequence are read one by one: value `i` is what node `i` stands for,
/// and where one stands for nothing so does the sequence.
pub proof fn law_typed_items(items: Seq<YamlModel>)
    ensures
        typed_values(items) is Some <==> forall|i: int|
            0 <= i < items.len() ==> typed_value(#[trigger] items[i]) is Some,
        typed_values(items) matches Some(list) ==> list.len() == items.len() && forall|i: int|
            0 <= i < items.len() ==> typed_value(items[i]) == Some(#[trigger] list[i]),
    decreases items.len(),
{
    if items.len() > 0 {
        let init = items.drop_last();
        law_typed_items(init);
        assert(items[items.len() - 1] == items.last());
        assert forall|i: int| 0 <= i < init.len() implies #[trigger] init[i] == items[i] by {}
        if forall|i: int| 0 <= i < items.len() ==> typed_value(#[trigger] items[i]) is Some {
            assert forall|i: int| 0 <= i < init.len() implies typed_value(
                #[trigger] init[i],
            ) is Some by {
                assert(items[i] == init[i]);
            }
        }
        if let Some(list) = typed_values(items) {
            let before = typed_values(init)->0;
            assert forall|i: int| 0 <= i < items.len() implies typed_value(items[i]) == Some(
                #[trigger] list[i],
            ) by {
                if i < init.len() {
                    assert(list[i] == before[i]);
                    assert(init[i] == items[i]);
                }
            }
            assert forall|i: int| 0 <= i < items.len() implies typed_value(
                #[trigger] items[i],
            ) is Some by {
                assert(typed_value(items[i]) == Some(list[i]));
            }
        }
    }
}

/// Bytes are read one by one: byte `i` is the number that node `i` is, and where one is no
/// byte there are none.
pub proof fn law_bytes_are_numbers(items: Seq<YamlModel>, bytes: Seq<u8>)
    requires
        items.len() == bytes.len(),
        forall|i: int|
            0 <= i < items.len() ==> node_integer(Some(#[trigger] items[i])) == Some(
                bytes[i] as i64,
            ),
    ensures
        node_bytes(items) == Some(bytes),
    decreases items.len(),
{
    if items.len() > 0 {
        let init = items.drop_last();
        assert forall|i: int| 0 <= i < init.len() implies node_integer(Some(#[trigger] init[i]))
            == Some(bytes.drop_last()[i] as i64) by {
            assert(init[i] == items[i]);
        }
        law_bytes_are_numbers(init, bytes.drop_last());
        assert(node_integer(Some(items[items.len() - 1])) == Some(bytes[bytes.len() - 1] as i64));
        assert(bytes =~= bytes.drop_last().push(bytes.last()));
    } else {
        assert(bytes =~= Seq::empty());
    }
}

/// A node that is no byte spoils the bytes.
pub proof fn law_bytes_are_in_range(items: Seq<YamlModel>, i: int)
    requires
        0 <= i < items.len(),
        node_integer(Some(items[i])) matches Some(n) ==> n < 0 || n > 255,
    ensures
        node_bytes(items) is None,
    decreases items.len(),
{
    if i < items.len() - 1 {
        assert(items.drop_last()[i] == items[i]);
        law_bytes_are_in_range(items.drop_last(), i);
    }
}

/// A mapping gives the value of its first entry with the key, and none without one.
pub proof fn law_first_entry_is_found(entries: Seq<EntryModel>, key: Seq<char>)
    ensures
        match entry(YamlModel::Mapping(entries), key) {
            Some(x) => exists|i: int|
                0 <= i < entries.len() && (#[trigger] entries[i]).key == YamlModel::Text(key)
                    && entries[i].value == x && forall|j: int|
                    0 <= j < i ==> (#[trigger] entries[j]).key != YamlModel::Text(key),
            None => forall|i: int|
                0 <= i < entries.len() ==> (#[trigger] entries[i]).key != YamlModel::Text(key),
        },
    decreases entries.len(),
{
    let v = YamlModel::Mapping(entries);
    assert(untagged(v) == v);
    if entries.len() > 0 && entries[0].key != YamlModel::Text(key) {
        let rest = entries.skip(1);
        law_first_entry_is_found(rest, key);
        assert(untagged(YamlModel::Mapping(rest)) == YamlModel::Mapping(rest));
        match lookup(rest, key) {
            Some(x) => {
                let i = choose|i: int|
                    0 <= i < rest.len() && (#[trigger] rest[i]).key == YamlModel::Text(key)
                        && rest[i].value == x && forall|j: int|
                        0 <= j < i ==> (#[trigger] rest[j]).key != YamlModel::Text(key);
                assert(entries[i + 1] == rest[i]);
                assert forall|j: int| 0 <= j < i + 1 implies (#[trigger] entries[j]).key
                    != YamlModel::Text(key) by {
                    if j > 0 {
                        assert(rest[j - 1] == entries[j]);
                    }
                }
            },
            None => {
                assert forall|i: int| 0 <= i < entries.len() implies (#[trigger] entries[i]).key
                    != YamlModel::Text(key) by {
                    if i > 0 {
                        assert(rest[i - 1] == entries[i]);
                    }
                }
            },
        }
    }
}

/// Scalar nodes stand for themselves; a number is an integer where it can be read as one.
pub proof fn law_plain_scalars(b: bool, n: i64, d: FloatValue, s: Seq<char>, x: Option<FloatValue>)
    ensures
        plain_value(YamlModel::Null) == Some(ValueModel::Null),
        plain_value(YamlModel::Bool(b)) == Some(ValueModel::Bool(b)),
        plain_value(YamlModel::Number { integer: Some(n), double: x }) == Some(
            ValueModel::Integer(n),
        ),
        plain_value(YamlModel::Number { integer: None, double: Some(d) }) == Some(
            ValueModel::Float(d),
        ),
        plain_value(YamlModel::Text(s)) == Some(ValueModel::String(s)),
{
}

/// A mapping stands for its fields: of entries with the same key the last counts, and an
/// entry whose key is no text or whose value stands for nothing spoils the mapping.
pub proof fn law_plain_fields(entries: Seq<EntryModel>, key: Seq<char>, value: YamlModel)
    ensures
        plain_value(YamlModel::Mapping(Seq::empty())) == Some(
            ValueModel::Dict(Map::<Seq<char>, ValueModel>::empty()),
        ),
        ({
            let e = EntryModel { key: YamlModel::Text(key), value };
            match (plain_value(YamlModel::Mapping(entries)), plain_value(value)) {
                (Some(ValueModel::Dict(f)), Some(x)) => plain_value(
                    YamlModel::Mapping(entries.push(e)),
                ) == Some(ValueModel::Dict(f.insert(key, x))),
                _ => plain_value(YamlModel::Mapping(entries.push(e))) is None,
            }
        }),
{
    let e = EntryModel { key: YamlModel::Text(key), value };
    assert(entries.push(e).drop_last() =~= entries);
    assert(untagged(YamlModel::Text(key)) == YamlModel::Text(key));
}

/// The typed node of a kind and a content.
pub open spec fn typed_node(kind: Seq<char>, data: YamlModel) -> YamlModel {
    YamlModel::Mapping(
        seq![
            EntryModel { key: YamlModel::Text("type"@), value: YamlModel::Text(kind) },
            EntryModel { key: YamlModel::Text("data"@), value: data },
        ],
    )
}

proof fn lemma_typed_node(kind: Seq<char>, data: YamlModel)
    ensures
        stated_kind(typed_node(kind, data)) == kind,
        entry(typed_node(kind, data), "data"@) == Some(data),
{
    reveal_strlit("type");
    reveal_strlit("data");
    assert("type"@[0] != "data"@[0]);
    let v = typed_node(kind, data);
    assert(untagged(v) == v);
    let entries = v->Mapping_0;
    assert(entries.skip(1)[0] == entries[1]);
    reveal_with_fuel(lookup, 3);
    assert(lookup(entries, "type"@) == Some(YamlModel::Text(kind)));
    assert(untagged(YamlModel::Text(kind)) == YamlModel::Text(kind));
}

proof fn lemma_kinds()
    ensures
        "null"@.len() == 4 && "bool"@.len() == 4 && "integer"@.len() == 7 && "float"@.len() == 5
            && "string"@.len() == 6 && "binary"@.len() == 6 && "tuple"@.len() == 5 && "list"@.len()
            == 4 && "map"@.len() == 3 && "typed_binary"@.len() == 12,
        "null"@ != "bool"@ && "null"@ != "list"@ && "bool"@ != "list"@ && "float"@ != "tuple"@
            && "string"@ != "binary"@,
{
    reveal_strlit("null");
    reveal_strlit("bool");
    reveal_strlit("integer");
    reveal_strlit("float");
    reveal_strlit("string");
    reveal_strlit("binary");
    reveal_strlit("tuple");
    reveal_strlit("list");
    reveal_strlit("map");
    reveal_strlit("typed_binary");
    assert("null"@[0] == 'n' && "bool"@[0] == 'b' && "list"@[0] == 'l');
    assert("float"@[0] == 'f' && "tuple"@[0] == 't');
    assert("string"@[0] == 's' && "binary"@[0] == 'b');
}

/// A typed node of each scalar kind stands for its content as that kind.
pub proof fn law_typed_scalars(
    b: bool,
    n: Option<i64>,
    d: Option<FloatValue>,
    s: Seq<char>,
    any: YamlModel,
)
    ensures
        typed_value(typed_node("null"@, any)) == Some(ValueModel::Null),
        typed_value(typed_node("bool"@, YamlModel::Bool(b))) == Some(ValueModel::Bool(b)),
        n matches Some(x) ==> typed_value(
            typed_node("integer"@, YamlModel::Number { integer: n, double: d }),
        ) == Some(ValueModel::Integer(x)),
        d matches Some(x) ==> typed_value(
            typed_node("float"@, YamlModel::Number { integer: n, double: d }),
        ) == Some(ValueModel::Float(x)),
        typed_value(typed_node("string"@, YamlModel::Text(s))) == Some(ValueModel::String(s)),
{
    lemma_kinds();
    lemma_typed_node("null"@, any);
    lemma_typed_node("bool"@, YamlModel::Bool(b));
    lemma_typed_node("integer"@, YamlModel::Number { integer: n, double: d });
    lemma_typed_node("float"@, YamlModel::Number { integer: n, double: d });
    lemma_typed_node("string"@, YamlModel::Text(s));
}

/// A typed node of a collection kind stands for the collection of what its items stand for.
pub proof fn law_typed_collections(items: Seq<YamlModel>, entries: Seq<EntryModel>)
    ensures
        typed_value(typed_node("tuple"@, YamlModel::Sequence(items))) == (match typed_values(items) {
            Some(list) => Some(ValueModel::Tuple(list)),
            None => None,
        }),
        typed_value(typed_node("list"@, YamlModel::Sequence(items))) == (match typed_values(items) {
            Some(list) => Some(ValueModel::List(list)),
            None => None,
        }),
        typed_value(typed_node("binary"@, YamlModel::Sequence(items))) == (match node_bytes(items) {
            Some(bytes) => Some(ValueModel::Binary(bytes)),
            None => None,
        }),
        typed_value(typed_node("map"@, YamlModel::Mapping(entries))) == (match typed_fields(
            entries,
        ) {
            Some(fields) => Some(ValueModel::Dict(fields)),
            None => None,
        }),
{
    lemma_kinds();
    lemma_typed_node("tuple"@, YamlModel::Sequence(items));
    lemma_typed_node("list"@, YamlModel::Sequence(items));
    lemma_typed_node("binary"@, YamlModel::Sequence(items));
    lemma_typed_node("map"@, YamlModel::Mapping(entries));
}

/// A kind that does not exist, or a content of another kind, stands for nothing.
pub proof fn law_ill_typed_nodes(kind: Seq<char>, v: YamlModel, s: Seq<char>, b: bool)
    requires
        kind != "null"@ && kind != "bool"@ && kind != "integer"@ && kind != "float"@ && kind
            != "string"@ && kind != "binary"@ && kind != "tuple"@ && kind != "list"@ && kind
            != "map"@ && kind != "typed_binary"@,
    ensures
        typed_value(typed_node(kind, v)) is None,
        typed_value(typed_node("bool"@, YamlModel::Text(s))) is None,
        typed_value(typed_node("integer"@, YamlModel::Text(s))) is None,
        typed_value(typed_node("float"@, YamlModel::Text(s))) is None,
        typed_value(typed_node("string"@, YamlModel::Bool(b))) is None,
        typed_value(typed_node("tuple"@, YamlModel::Text(s))) is None,
        typed_value(typed_node("list"@, YamlModel::Text(s))) is None,
        typed_value(typed_node("map"@, YamlModel::Text(s))) is None,
        typed_value(typed_node("binary"@, YamlModel::Text(s))) is None,
{
    lemma_kinds();
    lemma_typed_node(kind, v);
    lemma_typed_node("bool"@, YamlModel::Text(s));
    lemma_typed_node("integer"@, YamlModel::Text(s));
    lemma_typed_node("float"@, YamlModel::Text(s));
    lemma_typed_node("string"@, YamlModel::Bool(b));
    lemma_typed_node("tuple"@, YamlModel::Text(s));
    lemma_typed_node("list"@, YamlModel::Text(s));
    lemma_typed_node("map"@, YamlModel::Text(s));
    lemma_typed_node("binary"@, YamlModel::Text(s));
}

/// The fields of a typed mapping are read entry by entry; of entries with the same key the
/// last counts.
pub proof fn law_typed_fields(entries: Seq<EntryModel>, key: Seq<char>, value: YamlModel)
    ensures
        typed_fields(Seq::empty()) == Some(Map::<Seq<char>, ValueModel>::empty()),
        ({
            let e = EntryModel { key: YamlModel::Text(key), value };
            typed_fields(entries.push(e)) == (match (typed_fields(entries), typed_value(value)) {
                (Some(f), Some(x)) => Some(f.insert(key, x)),
                _ => None,
            })
        }),
{
    let e = EntryModel { key: YamlModel::Text(key), value };
    assert(entries.push(e).drop_last() =~= entries);
    assert(untagged(YamlModel::Text(key)) == YamlModel::Text(key));
}

/// A node that states no type is null, whatever its content.
pub proof fn law_untyped_node_is_null(v: YamlModel)
    requires
        entry(v, "type"@) is None,
    ensures
        typed_value(v) == Some(ValueModel::Null),
{
}

} // verus!
