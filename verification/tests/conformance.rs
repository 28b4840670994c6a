use ensemble::conformance::{
    fixtures_dir, load_fixture, load_plain, load_typed, read_plain, read_typed, yaml_bool, yaml_f64, yaml_get, yaml_i64, yaml_map,
    yaml_plain_to_value, yaml_seq, yaml_str, yaml_to_manifest, yaml_typed_to_value, YamlEntry,
    YamlNode,
};
use ensemble::text_map::TextMap;
use ensemble::values::{FloatValue, Value};

fn float(x: f64) -> FloatValue {
    FloatValue::new(x.to_bits())
}

fn text(s: &str) -> YamlNode {
    YamlNode::Text(s.to_string())
}

fn number(n: i64) -> YamlNode {
    YamlNode::Number { integer: Some(n), double: Some(float(n as f64)) }
}

fn mapping(entries: Vec<(&str, YamlNode)>) -> YamlNode {
    YamlNode::Mapping(
        entries
            .into_iter()
            .map(|(k, value)| YamlEntry { key: text(k), value })
            .collect(),
    )
}

fn typed(kind: &str, data: YamlNode) -> YamlNode {
    mapping(vec![("type", text(kind)), ("data", data)])
}

#[test]
fn fixtures_lie_below_the_package() {
    assert_eq!(fixtures_dir("/pkg"), "/pkg/fixtures");
}

#[test]
fn accessors_find_their_kind_only() {
    let v = mapping(vec![
        ("s", text("x")),
        ("b", YamlNode::Bool(true)),
        ("n", number(4)),
        ("l", YamlNode::Sequence(vec![number(1)])),
        ("m", mapping(vec![("k", number(2))])),
    ]);
    assert_eq!(yaml_str(&v, "s"), Some("x".to_string()));
    assert_eq!(yaml_str(&v, "n"), None);
    assert_eq!(yaml_bool(&v, "b"), Some(true));
    assert_eq!(yaml_i64(&v, "n"), Some(4));
    assert_eq!(yaml_f64(&v, "n"), Some(float(4.0)));
    assert_eq!(yaml_i64(&v, "s"), None);
    assert_eq!(yaml_seq(&v, "l").map(|l| l.len()), Some(1));
    assert_eq!(yaml_map(&v, "m").map(|m| m.len()), Some(1));
    assert!(yaml_get(&v, "missing").is_none());
    assert!(yaml_get(&YamlNode::Null, "s").is_none());
}

#[test]
fn plain_nodes_become_values() {
    assert_eq!(yaml_plain_to_value(&YamlNode::Null), Value::Null);
    assert_eq!(yaml_plain_to_value(&number(3)), Value::Integer(3));
    let half = YamlNode::Number { integer: None, double: Some(float(0.5)) };
    assert_eq!(yaml_plain_to_value(&half), Value::Float(float(0.5)));
    let neither = YamlNode::Number { integer: None, double: None };
    assert_eq!(yaml_plain_to_value(&neither), Value::Float(float(0.0)));
    let mut m = TextMap::new();
    m.insert("a".to_string(), Value::List(vec![Value::Bool(false)]));
    assert_eq!(
        yaml_plain_to_value(&mapping(vec![(
            "a",
            YamlNode::Sequence(vec![YamlNode::Bool(false)])
        )])),
        Value::Dict(m)
    );
    assert!(read_plain(&YamlNode::Tagged(Box::new(number(1)))).is_none());
    let odd = YamlNode::Mapping(vec![YamlEntry { key: number(0), value: number(1) }]);
    assert!(read_plain(&odd).is_none());
    assert!(read_plain(&YamlNode::Sequence(vec![number(1), odd])).is_none());
}

#[test]
fn manifests_are_read_from_mappings() {
    let m = yaml_to_manifest(&mapping(vec![
        ("name", text("MIDI")),
        ("tags", YamlNode::Sequence(vec![text("a"), text("b")])),
    ]));
    assert_eq!(m.name, "MIDI");
    assert_eq!(m.tags, vec!["a", "b"]);
}

#[test]
fn typed_nodes_become_values() {
    assert_eq!(yaml_typed_to_value(&mapping(vec![])), Value::Null);
    assert_eq!(yaml_typed_to_value(&typed("bool", YamlNode::Bool(true))), Value::Bool(true));
    assert_eq!(yaml_typed_to_value(&typed("integer", number(9))), Value::Integer(9));
    assert_eq!(yaml_typed_to_value(&typed("float", number(2))), Value::Float(float(2.0)));
    assert_eq!(yaml_typed_to_value(&typed("string", text("x"))), Value::String("x".into()));
    assert_eq!(
        yaml_typed_to_value(&typed("binary", YamlNode::Sequence(vec![number(0), number(255)]))),
        Value::Binary(vec![0, 255])
    );
    let items = || YamlNode::Sequence(vec![typed("integer", number(1)), mapping(vec![])]);
    let values = || vec![Value::Integer(1), Value::Null];
    assert_eq!(yaml_typed_to_value(&typed("tuple", items())), Value::Tuple(values()));
    assert_eq!(yaml_typed_to_value(&typed("list", items())), Value::List(values()));
    let mut m = TextMap::new();
    m.insert("k".to_string(), Value::Integer(1));
    assert_eq!(
        yaml_typed_to_value(&typed("map", mapping(vec![("k", typed("integer", number(1)))]))),
        Value::Dict(m)
    );
    assert_eq!(
        yaml_typed_to_value(&mapping(vec![
            ("type", text("typed_binary")),
            ("tag", text("t")),
            ("data", YamlNode::Sequence(vec![number(1)])),
        ])),
        Value::TypedBinary { tag: "t".into(), data: vec![1] }
    );
}

#[test]
fn ill_typed_nodes_stand_for_nothing() {
    assert!(read_typed(&typed("unknown", number(1))).is_none());
    assert!(read_typed(&typed("bool", number(1))).is_none());
    assert!(read_typed(&mapping(vec![("type", text("integer"))])).is_none());
    assert!(read_typed(&typed("binary", YamlNode::Sequence(vec![number(256)]))).is_none());
    assert!(read_typed(&typed("binary", YamlNode::Sequence(vec![number(-1)]))).is_none());
    assert!(read_typed(&typed("list", YamlNode::Sequence(vec![typed("bool", number(1))]))).is_none());
    assert!(read_typed(&typed("typed_binary", YamlNode::Sequence(vec![]))).is_none());
}

#[test]
fn tags_are_transparent_to_typed_nodes() {
    let tagged = YamlNode::Tagged(Box::new(typed("integer", number(5))));
    assert_eq!(read_typed(&tagged), Some(Value::Integer(5)));
}

#[test]
fn a_tagged_key_names_a_field_but_is_not_looked_up() {
    let key = YamlNode::Tagged(Box::new(text("a")));
    let v = YamlNode::Mapping(vec![YamlEntry { key, value: number(1) }]);
    assert!(yaml_get(&v, "a").is_none());
    let mut m = TextMap::new();
    m.insert("a".to_string(), Value::Integer(1));
    assert_eq!(read_plain(&v), Some(Value::Dict(m)));
}

#[test]
fn documents_are_read_from_their_text() {
    let mut m = TextMap::new();
    m.insert("name".to_string(), Value::String("x".into()));
    m.insert("list".to_string(), Value::List(vec![Value::Integer(-1), Value::Float(float(0.5))]));
    m.insert("none".to_string(), Value::Null);
    m.insert("on".to_string(), Value::Bool(true));
    assert_eq!(
        load_plain("name: x\nlist: [-1, 0.5]\nnone: ~\non: true\n"),
        Some(Value::Dict(m))
    );
    assert_eq!(load_plain("18446744073709551615"), Some(Value::Float(float(u64::MAX as f64))));
    assert_eq!(load_plain("1: x"), None);
    assert_eq!(load_plain("!t 1"), None);
    assert_eq!(load_plain("a: [1"), None);
    assert!(load_fixture("a: [1").is_none());
    assert!(load_fixture("a: 1\na: 2").is_none());
    let doc = load_fixture("tests:\n  - description: first\n    count: 3\n").unwrap();
    let tests = yaml_seq(&doc, "tests").unwrap();
    assert_eq!(yaml_str(&tests[0], "description"), Some("first".to_string()));
    assert_eq!(yaml_i64(&tests[0], "count"), Some(3));
}

#[test]
fn typed_documents_are_read_from_their_text() {
    assert_eq!(
        load_typed("type: tuple\ndata:\n  - {type: integer, data: 60}\n  - {type: float, data: 1.5}\n"),
        Some(Value::Tuple(vec![Value::Integer(60), Value::Float(float(1.5))]))
    );
    assert_eq!(
        load_typed("{type: typed_binary, tag: t, data: [1, 255]}"),
        Some(Value::TypedBinary { tag: "t".into(), data: vec![1, 255] })
    );
    assert_eq!(load_typed("{type: binary, data: [256]}"), None);
    assert_eq!(load_typed("{type: odd}"), None);
    assert_eq!(load_typed("{type: integer"), None);
}
