use ensemble::bridge::loop_guard::{LoopGuard, SEEN_CAP};

#[test]
fn unique_ids() {
    let a = LoopGuard::new();
    let b = LoopGuard::new();
    assert_ne!(a.bridge_id(), b.bridge_id());
}

#[test]
fn detects_own_origin() {
    let guard = LoopGuard::with_id("test-id".to_string());
    assert!(guard.is_loop("test-id"));
    assert!(!guard.is_loop("other-id"));
    assert!(!guard.is_loop(""));
}

#[test]
fn duplicate_detection() {
    let mut guard = LoopGuard::new();
    assert!(guard.check_and_record("msg-1"));
    assert!(!guard.check_and_record("msg-1"));
    assert!(guard.check_and_record("msg-2"));
    assert!(!guard.check_and_record("msg-2"));
    // A different id is still accepted after duplicates.
    assert!(guard.check_and_record("msg-3"));
}

#[test]
fn seen_set_evicts_oldest_at_capacity() {
    let mut guard = LoopGuard::new();
    for i in 0..SEEN_CAP {
        assert!(guard.check_and_record(&format!("msg-{i}")));
    }
    // The oldest id is still remembered at capacity.
    assert!(!guard.check_and_record("msg-0"));
    // Recording one more evicts the oldest.
    assert!(guard.check_and_record("msg-new"));
    assert!(guard.check_and_record("msg-0"));
    // But a recent id is still a duplicate.
    assert!(!guard.check_and_record("msg-new"));
}

#[test]
fn bridge_ids_are_version_four_uuids() {
    let guard = LoopGuard::new();
    let id: Vec<char> = guard.bridge_id().chars().collect();
    assert_eq!(id.len(), 36);
    for (i, c) in id.iter().enumerate() {
        if [8, 13, 18, 23].contains(&i) {
            assert_eq!(*c, '-');
        } else {
            assert!(c.is_ascii_digit() || ('a'..='f').contains(c));
        }
    }
    assert_eq!(id[14], '4');
    assert!(['8', '9', 'a', 'b'].contains(&id[19]));
}
