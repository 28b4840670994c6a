use ensemble::text;

fn chars(s: &str) -> Vec<char> {
    s.chars().collect()
}

#[test]
fn split_and_join_undo_each_other() {
    for s in ["", "/", "a/b", "/a//b/", "é/ü"] {
        let pieces = text::split(&chars(s), 0, '/');
        assert_eq!(text::join(&pieces, '/'), s);
        let expected: Vec<&str> = s.split('/').collect();
        assert_eq!(pieces, expected);
    }
}

#[test]
fn replace_works_from_the_left() {
    let out = text::replace(&chars("aaab"), &chars("aa"), &chars("x"));
    assert_eq!(text::string_of(&out), "xab");
}

#[test]
fn strings_are_ordered_like_str() {
    for a in ["", "a", "ab", "b", "é", "Z"] {
        for b in ["", "a", "ab", "b", "é", "Z"] {
            assert_eq!(text::less(a, b), a < b);
        }
    }
}

#[test]
fn numbers_are_written_and_read() {
    for n in [0u64, 9, 10, 42, 65535, u64::MAX] {
        assert_eq!(text::number_string(n), n.to_string());
        assert_eq!(text::parse_number(&chars(&n.to_string()), u64::MAX), Some(n));
    }
    for n in [i64::MIN, -10, -1, 0, 7, i64::MAX] {
        assert_eq!(text::signed_string(n), n.to_string());
    }
    assert_eq!(text::parse_number(&chars("256"), 255), None);
    assert_eq!(text::parse_number(&chars("+"), 255), None);
}

#[test]
fn words_and_trimming_follow_white_space() {
    let s = " \ta b\u{3000}c\r\n";
    let expected: Vec<&str> = s.split_whitespace().collect();
    assert_eq!(text::split_words(&chars(s)), expected);
    assert_eq!(text::string_of(&text::trim(&chars(s))), s.trim());
    assert!(text::split_words(&chars(" \n")).is_empty());
}
