use ensemble::bridge::config::MappingConfig;
use ensemble::bridge::mapping::{Direction, MappingEngine};

fn make_rule(from: &str, to: &str, dir: &str) -> MappingConfig {
    MappingConfig {
        from_pattern: from.to_string(),
        to_template: to.to_string(),
        direction: dir.to_string(),
        signal_filter: vec![],
    }
}

fn make_rule_with_filter(from: &str, to: &str, dir: &str, filter: &[&str]) -> MappingConfig {
    MappingConfig {
        from_pattern: from.to_string(),
        to_template: to.to_string(),
        direction: dir.to_string(),
        signal_filter: filter.iter().map(|s| s.to_string()).collect(),
    }
}

#[test]
fn exact_match_mapping() {
    let engine = MappingEngine::new(&[make_rule("/clock", "/remote/clock", "both")]);
    assert_eq!(
        engine.map("/clock", Direction::Outbound, None),
        Some("/remote/clock".to_string())
    );
    assert_eq!(
        engine.map("/clock", Direction::Inbound, None),
        Some("/remote/clock".to_string())
    );
    assert_eq!(engine.map("/other", Direction::Outbound, None), None);
}

#[test]
fn capture_substitution() {
    let engine = MappingEngine::new(&[make_rule(
        "/track/{id}/volume",
        "/mixer/{id}/gain",
        "outbound",
    )]);
    assert_eq!(
        engine.map("/track/7/volume", Direction::Outbound, None),
        Some("/mixer/7/gain".to_string())
    );
    assert_eq!(
        engine.map("/track/42/volume", Direction::Outbound, None),
        Some("/mixer/42/gain".to_string())
    );
}

#[test]
fn wildcard_passthrough() {
    let engine =
        MappingEngine::new(&[make_rule("/transport/**", "/remote/transport/**", "both")]);
    assert_eq!(
        engine.map("/transport/bpm", Direction::Outbound, None),
        Some("/remote/transport/bpm".to_string())
    );
    assert_eq!(
        engine.map("/transport/bpm/now", Direction::Outbound, None),
        Some("/remote/transport/bpm/now".to_string())
    );
}

#[test]
fn wildcard_passthrough_zero_segment_suffix() {
    // `**` matching zero segments must not leave a dangling '/' that
    // would fail to round-trip through further mappings.
    let engine =
        MappingEngine::new(&[make_rule("/transport/**", "/remote/transport/**", "both")]);
    assert_eq!(
        engine.map("/transport", Direction::Outbound, None),
        Some("/remote/transport".to_string())
    );
}

#[test]
fn passthrough_with_capture_before_recursive_wildcard() {
    // The suffix is made of the segments that `**` matched.
    let engine =
        MappingEngine::new(&[make_rule("/track/{id}/**", "/mixer/{id}/**", "outbound")]);
    assert_eq!(
        engine.map("/track/7/volume/x", Direction::Outbound, None),
        Some("/mixer/7/volume/x".to_string())
    );
    assert_eq!(
        engine.map("/track/7", Direction::Outbound, None),
        Some("/mixer/7".to_string())
    );
}

#[test]
fn passthrough_with_single_wildcard_before_recursive() {
    // `*` is not captured, so the template can only pass through the
    // `**` suffix; the wildcard-matched segment is not re-substituted.
    let engine = MappingEngine::new(&[make_rule("/a/*/**", "/b/**", "both")]);
    assert_eq!(
        engine.map("/a/x/y/z", Direction::Inbound, None),
        Some("/b/y/z".to_string())
    );
}

#[test]
fn passthrough_multibyte_address_does_not_panic() {
    // Characters of several bytes are kept whole.
    let engine = MappingEngine::new(&[make_rule("/*/**", "/out/**", "both")]);
    assert_eq!(
        engine.map("/é/x", Direction::Outbound, None),
        Some("/out/x".to_string())
    );
    let engine = MappingEngine::new(&[make_rule("/track/{番号}/**", "/out/{番号}/**", "both")]);
    assert_eq!(
        engine.map("/track/⑦/音量/パン", Direction::Outbound, None),
        Some("/out/⑦/音量/パン".to_string())
    );
}

#[test]
fn both_query_direction_returns_none() {
    // A query direction of "both" is a programming error; it must yield
    // no match rather than panic.
    let engine = MappingEngine::new(&[make_rule("/clock", "/remote/clock", "both")]);
    assert_eq!(engine.map("/clock", Direction::Both, None), None);
}

#[test]
fn direction_filtering() {
    let engine = MappingEngine::new(&[make_rule("/sensor/{name}", "/input/{name}", "inbound")]);
    // Inbound should match.
    assert_eq!(
        engine.map("/sensor/temp", Direction::Inbound, None),
        Some("/input/temp".to_string())
    );
    // Outbound should NOT match.
    assert_eq!(engine.map("/sensor/temp", Direction::Outbound, None), None);
}

#[test]
fn signal_type_filtering() {
    let engine = MappingEngine::new(&[make_rule_with_filter(
        "/data/**",
        "/filtered/**",
        "both",
        &["param", "stream"],
    )]);
    // Param should match.
    assert_eq!(
        engine.map("/data/value", Direction::Outbound, Some("param")),
        Some("/filtered/value".to_string())
    );
    // Event should NOT match.
    assert_eq!(
        engine.map("/data/value", Direction::Outbound, Some("event")),
        None
    );
    // No filter (None) should match.
    assert_eq!(
        engine.map("/data/value", Direction::Outbound, None),
        Some("/filtered/value".to_string())
    );
}

#[test]
fn first_match_wins() {
    let engine = MappingEngine::new(&[
        make_rule("/track/1/volume", "/special/vol", "both"),
        make_rule("/track/{id}/volume", "/mixer/{id}/gain", "both"),
    ]);
    // First rule matches exactly.
    assert_eq!(
        engine.map("/track/1/volume", Direction::Outbound, None),
        Some("/special/vol".to_string())
    );
    // Second rule matches by pattern.
    assert_eq!(
        engine.map("/track/2/volume", Direction::Outbound, None),
        Some("/mixer/2/gain".to_string())
    );
}

#[test]
fn outbound_patterns_collected() {
    let engine = MappingEngine::new(&[
        make_rule("/a/**", "/x/**", "outbound"),
        make_rule("/b/**", "/y/**", "inbound"),
        make_rule("/c/**", "/z/**", "both"),
    ]);
    let patterns = engine.outbound_patterns();
    assert_eq!(patterns.len(), 2); // outbound + both
}

#[test]
fn invalid_direction_skipped() {
    let engine = MappingEngine::new(&[make_rule("/foo", "/bar", "sideways")]);
    assert_eq!(engine.map("/foo", Direction::Outbound, None), None);
}

#[test]
fn invalid_pattern_skipped() {
    let engine = MappingEngine::new(&[make_rule("/foo/**/bar", "/baz", "both")]);
    assert_eq!(engine.map("/foo/x/bar", Direction::Outbound, None), None);
}

#[test]
fn templates_leave_unknown_captures_alone() {
    let engine = MappingEngine::new(&[make_rule("/a/{x}", "/b/{x}/{y}", "outbound")]);
    assert_eq!(
        engine.map("/a/1", Direction::Outbound, None),
        Some("/b/1/{y}".to_string())
    );
}

#[test]
fn directions_are_parsed_by_name() {
    assert_eq!(Direction::parse("inbound"), Some(Direction::Inbound));
    assert_eq!(Direction::parse("outbound"), Some(Direction::Outbound));
    assert_eq!(Direction::parse("both"), Some(Direction::Both));
    assert_eq!(Direction::parse("Both"), None);
    assert!(Direction::Both.includes_inbound() && Direction::Both.includes_outbound());
    assert!(!Direction::Inbound.includes_outbound());
    assert!(!Direction::Outbound.includes_inbound());
}

#[test]
fn outbound_patterns_keep_their_order() {
    let engine = MappingEngine::new(&[
        make_rule("/c/**", "/z/**", "both"),
        make_rule("/b/**", "/y/**", "inbound"),
        make_rule("/a/**", "/x/**", "outbound"),
    ]);
    let sources: Vec<&str> = engine.outbound_patterns().iter().map(|p| p.source()).collect();
    assert_eq!(sources, vec!["/c/**", "/a/**"]);
}

#[test]
fn passthrough_comes_back_as_it_went() {
    let engine = MappingEngine::new(&[
        make_rule("/transport/**", "/remote/transport/**", "outbound"),
        make_rule("/remote/transport/**", "/transport/**", "inbound"),
    ]);
    for address in ["/transport", "/transport/bpm", "/transport/a/b", "/transport/a/", "/transport//a"] {
        let there = engine.map(address, Direction::Outbound, None).unwrap();
        assert_eq!(engine.map(&there, Direction::Inbound, None), Some(address.to_string()));
    }
    assert_eq!(
        engine.map("/transport/", Direction::Outbound, None),
        Some("/remote/transport".to_string())
    );
    let root = MappingEngine::new(&[
        make_rule("/**", "/remote/**", "outbound"),
        make_rule("/remote/**", "/**", "inbound"),
    ]);
    for address in ["/", "/a", "/a/b"] {
        let there = root.map(address, Direction::Outbound, None).unwrap();
        assert_eq!(root.map(&there, Direction::Inbound, None), Some(address.to_string()));
    }
}
