use ensemble::text_map::TextMap;

fn letters() -> TextMap<u8> {
    let mut m: TextMap<u8> = TextMap::new();
    m.insert("b".to_string(), 2);
    m.insert("a".to_string(), 1);
    m.insert("c".to_string(), 3);
    m
}

#[test]
fn the_last_insert_wins() {
    let mut m = letters();
    m.insert("a".to_string(), 9);
    assert_eq!(m.len(), 3);
    assert_eq!(m.get("a"), Some(&9));
    assert_eq!(m.get("b"), Some(&2));
    assert_eq!(m.get("z"), None);
}

#[test]
fn a_removed_key_is_gone() {
    let mut m = letters();
    assert_eq!(m.remove("b"), Some(2));
    assert_eq!(m.remove("b"), None);
    assert_eq!(m.get("b"), None);
    assert_eq!(m.len(), 2);
    assert_eq!(m.get("a"), Some(&1));
    assert_eq!(m.get("c"), Some(&3));
}

#[test]
fn sorted_keys_are_ascending() {
    let m = letters();
    assert_eq!(m.sorted_keys(), vec!["a", "b", "c"]);
    for i in 0..m.len() {
        assert_eq!(m.get(m.key_at(i)), Some(m.value_at(i)));
    }
}
