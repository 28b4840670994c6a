use ensemble::chord::pattern::{matches_any, matches_pattern};

#[test]
fn pattern_exact_match() {
    assert!(matches_pattern("/synth/note", "/synth/note"));
}

#[test]
fn exact_mismatch() {
    assert!(!matches_pattern("/synth/note", "/synth/cc"));
}

#[test]
fn exact_prefix_is_not_a_match() {
    // Without a wildcard, a prefix should not match.
    assert!(!matches_pattern("/synth", "/synth/note"));
}

#[test]
fn trailing_wildcard_matches_subtree() {
    assert!(matches_pattern("/midi/*", "/midi/ch/1/note"));
}

#[test]
fn trailing_wildcard_matches_immediate_child() {
    assert!(matches_pattern("/midi/*", "/midi/note"));
}

#[test]
fn trailing_wildcard_does_not_match_unrelated() {
    assert!(!matches_pattern("/midi/*", "/synth/note"));
}

#[test]
fn trailing_wildcard_matches_exact_prefix() {
    // `/midi/*` should match `/midi/` (the prefix itself with a trailing slash).
    assert!(matches_pattern("/midi/*", "/midi/"));
}

#[test]
fn bare_star_matches_everything() {
    assert!(matches_pattern("*", "/anything/at/all"));
}

#[test]
fn slash_star_matches_everything() {
    assert!(matches_pattern("/*", "/anything/at/all"));
}

#[test]
fn pattern_matches_any_with_multiple_patterns() {
    let patterns: Vec<String> = vec!["/midi/*".into(), "/clock".into()];
    assert!(matches_any(&patterns, "/midi/ch/1/note"));
    assert!(matches_any(&patterns, "/clock"));
    assert!(!matches_any(&patterns, "/synth/note"));
}

#[test]
fn pattern_matches_any_with_empty_patterns() {
    let patterns: Vec<String> = vec![];
    assert!(!matches_any(&patterns, "/anything"));
}

#[test]
fn empty_address() {
    assert!(!matches_pattern("/midi/*", ""));
    assert!(matches_pattern("*", ""));
}

#[test]
fn empty_pattern_matches_only_empty() {
    assert!(matches_pattern("", ""));
    assert!(!matches_pattern("", "/something"));
}

#[test]
fn only_a_trailing_star_is_a_wildcard() {
    assert!(!matches_pattern("/a/*/b", "/a/x/b"));
    assert!(matches_pattern("/a/*/b", "/a/*/b"));
}
