use ensemble::routing::{matches_any, CaptureSet, Pattern, PatternError};

#[test]
fn lib_exact_match() {
    let pat = Pattern::parse("/foo/bar").unwrap();
    assert!(pat.matches("/foo/bar").is_some());
}

#[test]
fn exact_match_failure() {
    let pat = Pattern::parse("/foo/bar").unwrap();
    assert!(pat.matches("/foo/baz").is_none());
}

#[test]
fn exact_match_different_length() {
    let pat = Pattern::parse("/foo/bar").unwrap();
    assert!(pat.matches("/foo").is_none());
    assert!(pat.matches("/foo/bar/baz").is_none());
}

#[test]
fn wildcard_matches_single_segment() {
    let pat = Pattern::parse("/foo/*/bar").unwrap();
    assert!(pat.matches("/foo/baz/bar").is_some());
}

#[test]
fn wildcard_does_not_match_wrong_tail() {
    let pat = Pattern::parse("/foo/*/bar").unwrap();
    assert!(pat.matches("/foo/baz/qux").is_none());
}

#[test]
fn wildcard_matches_various_single_segments() {
    let pat = Pattern::parse("/track/*/volume").unwrap();
    assert!(pat.matches("/track/1/volume").is_some());
    assert!(pat.matches("/track/17/volume").is_some());
    assert!(pat.matches("/track/foo/volume").is_some());
}

#[test]
fn wildcard_does_not_match_fewer_segments() {
    let pat = Pattern::parse("/track/*/volume").unwrap();
    assert!(pat.matches("/track/1").is_none());
}

#[test]
fn wildcard_does_not_match_more_segments() {
    let pat = Pattern::parse("/track/*/volume").unwrap();
    assert!(pat.matches("/track/1/mixer/volume").is_none());
}

#[test]
fn recursive_wildcard_matches_deep() {
    let pat = Pattern::parse("/foo/**").unwrap();
    assert!(pat.matches("/foo/a/b/c").is_some());
}

#[test]
fn recursive_wildcard_matches_zero_remaining() {
    // /track/** should match /track (zero remaining segments after /track).
    let pat = Pattern::parse("/track/**").unwrap();
    assert!(pat.matches("/track").is_some());
}

#[test]
fn recursive_wildcard_matches_one_remaining() {
    let pat = Pattern::parse("/track/**").unwrap();
    assert!(pat.matches("/track/1").is_some());
}

#[test]
fn recursive_wildcard_matches_many_remaining() {
    let pat = Pattern::parse("/track/**").unwrap();
    assert!(pat.matches("/track/1/volume").is_some());
    assert!(pat.matches("/track/1/sends/reverb").is_some());
}

#[test]
fn recursive_wildcard_does_not_match_different_prefix() {
    let pat = Pattern::parse("/track/**").unwrap();
    assert!(pat.matches("/foo/track").is_none());
}

#[test]
fn named_capture_single() {
    let pat = Pattern::parse("/track/{id}/volume").unwrap();
    let caps = pat.matches("/track/17/volume").unwrap();
    assert_eq!(caps.get("id"), Some("17"));
}

#[test]
fn named_capture_multiple() {
    let pat = Pattern::parse("/device/{device}/control/{control}").unwrap();
    let caps = pat.matches("/device/mixer/control/gain").unwrap();
    assert_eq!(caps.get("device"), Some("mixer"));
    assert_eq!(caps.get("control"), Some("gain"));
}

#[test]
fn named_capture_unicode() {
    let pat = Pattern::parse("/track/{番号}/volume").unwrap();
    let caps = pat.matches("/track/17/volume").unwrap();
    assert_eq!(caps.get("番号"), Some("17"));
}

#[test]
fn named_capture_no_match() {
    let pat = Pattern::parse("/track/{id}/volume").unwrap();
    assert!(pat.matches("/track/17/pan").is_none());
}

#[test]
fn captures_are_strings() {
    // Even numeric-looking captures are strings.
    let pat = Pattern::parse("/track/{id}/volume").unwrap();
    let caps = pat.matches("/track/42/volume").unwrap();
    assert_eq!(caps.get("id"), Some("42"));
    // Confirm it's a string, not a number.
    assert_eq!(caps.get("id").unwrap().parse::<i64>().unwrap(), 42);
}

#[test]
fn reject_recursive_wildcard_not_final() {
    assert_eq!(
        Pattern::parse("/foo/**/bar"),
        Err(PatternError::RecursiveWildcardNotFinal)
    );
}

#[test]
fn reject_alternation() {
    assert!(Pattern::parse("/{foo,bar}").is_err());
}

#[test]
fn reject_typed_capture() {
    assert!(Pattern::parse("/{id:int}").is_err());
}

#[test]
fn reject_character_class() {
    assert!(Pattern::parse("/track/[0-9]+").is_err());
}

#[test]
fn reject_recursive_capture() {
    assert!(Pattern::parse("/{path**}").is_err());
}

#[test]
fn reject_empty_capture_name() {
    assert!(Pattern::parse("/{}").is_err());
}

#[test]
fn reject_slash_in_capture_name() {
    assert!(Pattern::parse("/{foo/bar}").is_err());
}

#[test]
fn reject_nested_braces() {
    assert!(Pattern::parse("/{foo{bar}}").is_err());
}

#[test]
fn reject_star_in_capture_name() {
    assert!(Pattern::parse("/{foo*bar}").is_err());
}

#[test]
fn reject_pattern_not_starting_with_slash() {
    assert!(Pattern::parse("foo/bar").is_err());
}

#[test]
fn lib_matches_any_with_multiple_patterns() {
    let p1 = Pattern::parse("/midi/**").unwrap();
    let p2 = Pattern::parse("/clock").unwrap();
    let patterns: Vec<Pattern> = vec![p1, p2];
    assert!(matches_any(&patterns, "/midi/ch/1/note"));
    assert!(matches_any(&patterns, "/clock"));
    assert!(!matches_any(&patterns, "/synth/note"));
}

#[test]
fn lib_matches_any_with_empty_patterns() {
    let patterns: Vec<Pattern> = vec![];
    assert!(!matches_any(&patterns, "/anything"));
}

#[test]
fn address_must_start_with_slash() {
    let pat = Pattern::parse("/foo").unwrap();
    assert!(pat.matches("foo").is_none());
}

#[test]
fn empty_address_does_not_match_nonempty_pattern() {
    let pat = Pattern::parse("/foo").unwrap();
    assert!(pat.matches("").is_none());
}

#[test]
fn pattern_source_preserved() {
    let pat = Pattern::parse("/track/{id}/volume").unwrap();
    assert_eq!(pat.source(), "/track/{id}/volume");
}

#[test]
fn capture_set_len_and_is_empty() {
    let pat = Pattern::parse("/track/{id}/volume").unwrap();
    let caps = pat.matches("/track/7/volume").unwrap();
    assert_eq!(caps.len(), 1);
    assert!(!caps.is_empty());

    let pat2 = Pattern::parse("/track/*/volume").unwrap();
    let caps2 = pat2.matches("/track/7/volume").unwrap();
    assert_eq!(caps2.len(), 0);
    assert!(caps2.is_empty());
}

#[test]
fn conformance_exact_match() {
    let pat = Pattern::parse("/foo/bar").unwrap();
    assert!(pat.matches("/foo/bar").is_some());
}

#[test]
fn conformance_exact_match_failure() {
    let pat = Pattern::parse("/foo/bar").unwrap();
    assert!(pat.matches("/foo/baz").is_none());
}

#[test]
fn conformance_wildcard() {
    let pat = Pattern::parse("/foo/*/bar").unwrap();
    assert!(pat.matches("/foo/baz/bar").is_some());
}

#[test]
fn conformance_recursive_wildcard() {
    let pat = Pattern::parse("/foo/**").unwrap();
    assert!(pat.matches("/foo/a/b/c").is_some());
}

#[test]
fn conformance_named_capture() {
    let pat = Pattern::parse("/track/{id}/volume").unwrap();
    let caps = pat.matches("/track/17/volume").unwrap();
    assert_eq!(caps.get("id"), Some("17"));
}

#[test]
fn conformance_unicode_capture() {
    let pat = Pattern::parse("/track/{番号}/volume").unwrap();
    let caps = pat.matches("/track/17/volume").unwrap();
    assert_eq!(caps.get("番号"), Some("17"));
}

#[test]
fn conformance_invalid_pattern_rejected() {
    assert!(Pattern::parse("/foo/**/bar").is_err());
}

#[test]
fn spec_example_wildcard_failure() {
    let pat = Pattern::parse("/foo/*/baz").unwrap();
    assert!(pat.matches("/foo/bar/qux").is_none());
}

#[test]
fn spec_example_capture() {
    let pat = Pattern::parse("/foo/{name}/baz").unwrap();
    let caps = pat.matches("/foo/alice/baz").unwrap();
    assert_eq!(caps.get("name"), Some("alice"));
}

#[test]
fn spec_example_recursive_wildcard() {
    let pat = Pattern::parse("/foo/**").unwrap();
    assert!(pat.matches("/foo/bar/baz").is_some());
}

#[test]
fn multiple_patterns_all_match() {
    // All three patterns match /track/7/volume — the hub should deliver
    // to all matching subscribers (no "best match" selection).
    let p1 = Pattern::parse("/track/{id}/volume").unwrap();
    let p2 = Pattern::parse("/track/*/volume").unwrap();
    let p3 = Pattern::parse("/track/**").unwrap();
    let addr = "/track/7/volume";
    assert!(p1.matches(addr).is_some());
    assert!(p2.matches(addr).is_some());
    assert!(p3.matches(addr).is_some());
}

#[test]
fn every_pattern_error_has_its_input() {
    let cases = vec![
        ("", PatternError::InvalidAddress),
        ("foo", PatternError::InvalidAddress),
        ("/foo/**/bar", PatternError::RecursiveWildcardNotFinal),
        ("/{}", PatternError::EmptyCaptureName),
        ("/{foo,bar}", PatternError::AlternationNotSupported),
        ("/{id:int}", PatternError::TypedCaptureNotSupported),
        ("/{path**}", PatternError::RecursiveCaptureNotSupported),
        ("/{foo{bar}}", PatternError::NestedBraces),
        ("/track/[0-9]+", PatternError::CharacterClassNotSupported),
    ];
    for (source, expected) in cases {
        assert_eq!(Pattern::parse(source), Err(expected), "{source}");
    }
    assert!(matches!(
        Pattern::parse("/{foo*bar}"),
        Err(PatternError::InvalidCaptureName(_))
    ));
}

#[test]
fn pattern_errors_describe_themselves() {
    assert_eq!(
        PatternError::InvalidAddress.message(),
        "pattern must start with '/'"
    );
    assert_eq!(
        PatternError::InvalidCaptureName("a*b".to_string()).message(),
        "capture name contains forbidden characters: 'a*b'"
    );
}

#[test]
fn suffix_is_what_the_recursive_wildcard_matched() {
    let pat = Pattern::parse("/track/{id}/**").unwrap();
    let (caps, suffix) = pat.match_with_suffix("/track/7/volume/x").unwrap();
    assert_eq!(caps.get("id"), Some("7"));
    assert_eq!(suffix, vec!["volume", "x"]);
    let (_, empty) = pat.match_with_suffix("/track/7").unwrap();
    assert!(empty.is_empty());
    assert!(pat.match_with_suffix("/other/7").is_none());
}

#[test]
fn exact_pattern_matches_only_itself() {
    for address in ["/a", "/a/b", "/a/b/c", "/", "/a/"] {
        let pat = Pattern::parse(address).unwrap();
        for other in ["/a", "/a/b", "/a/b/c", "/", "/a/"] {
            assert_eq!(pat.matches(other).is_some(), address == other);
        }
    }
}

#[test]
fn recursive_wildcard_accepts_the_whole_subtree() {
    let pat = Pattern::parse("/a/*/**").unwrap();
    assert!(pat.matches("/a").is_none());
    for address in ["/a/b", "/a/b/c", "/a/b/c/d/e"] {
        assert!(pat.matches(address).is_some());
    }
}

#[test]
fn captures_are_listed_by_name() {
    let pat = Pattern::parse("/{b}/{a}").unwrap();
    let caps = pat.matches("/x/y").unwrap();
    assert_eq!(caps.iter(), vec![("a", "y"), ("b", "x")]);
    assert_eq!(caps.get("c"), None);
}

#[test]
fn a_cloned_pattern_is_the_same_pattern() {
    let pat = Pattern::parse("/track/{id}/**").unwrap();
    assert_eq!(pat.clone(), pat);
    assert!(pat.clone().matches("/track/1").is_some());
}

#[test]
fn capture_sets_compare_by_content() {
    let captures = |address: &str| {
        Pattern::parse("/{a}/{b}").unwrap().matches(address).unwrap()
    };
    let swapped = Pattern::parse("/{b}/{a}").unwrap().matches("/y/x").unwrap();
    assert_eq!(captures("/x/y"), swapped);
    assert_ne!(captures("/x/y"), captures("/x/z"));
    assert_eq!(captures("/x/y").clone(), captures("/x/y"));
    assert_ne!(captures("/x/y"), CaptureSet::default());
    assert_eq!(CaptureSet::default().len(), 0);
    assert_eq!(Pattern::parse("/x").unwrap().matches("/x").unwrap(), CaptureSet::default());
}
