use ensemble::midi::key_state::{KeyState, KeyStateStore, MidiBytes};

#[test]
fn a_note_plays_and_stops() {
    let mut store = KeyStateStore::new();
    let id = store.bump(3, 60);
    assert_eq!(id, 1);
    assert_eq!(store.current(3, 60), 1);
    assert_eq!(store.play(id, 3, 60, 100), Some(MidiBytes([0x93, 60, 100])));
    assert_eq!(store.play(id, 3, 60, 100), None);
    assert_eq!(store.stop(id, 3, 60), Some(MidiBytes([0x83, 60, 0])));
    assert_eq!(store.stop(id, 3, 60), None);
}

#[test]
fn a_superseded_note_off_is_dropped() {
    let mut store = KeyStateStore::new();
    let first = store.bump(0, 60);
    assert!(store.play(first, 0, 60, 100).is_some());
    let second = store.bump(0, 60);
    assert_eq!(store.stop(first, 0, 60), None);
    assert!(store.stop(second, 0, 60).is_some());
}

#[test]
fn keys_are_independent() {
    let mut store = KeyStateStore::new();
    let id = store.bump(15, 127);
    assert!(store.play(id, 15, 127, 1).is_some());
    assert_eq!(store.current(15, 126), 0);
    assert_eq!(store.current(14, 127), 0);
    assert_eq!(store.stop(0, 14, 127), None);
}

#[test]
fn the_event_counter_wraps() {
    let mut key = KeyState { event_counter: u32::MAX, key_on: false };
    assert_eq!(key.bump(), 0);
    assert_eq!(key.current(), 0);
    assert!(key.play(0, 0, 0, 0).is_some());
}
