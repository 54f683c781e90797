use codememory::text::{
    contains_str, join, line_count, lines, non_empty_lines, push_decimal, remove_char, split_once,
    trim, words,
};

#[test]
fn lines_split_at_line_feeds_and_drop_carriage_returns() {
    let ls = lines("a\r\nb\n\nc");
    assert_eq!(ls, vec!["a".to_string(), "b".to_string(), "".to_string(), "c".to_string()]);
}

#[test]
fn lines_have_no_empty_last_line() {
    assert_eq!(lines("x\ny\n"), vec!["x".to_string(), "y".to_string()]);
    assert!(lines("").is_empty());
    assert_eq!(lines("\n"), vec!["".to_string()]);
}

#[test]
fn lone_carriage_return_at_end_is_kept() {
    assert_eq!(lines("a\r"), vec!["a\r".to_string()]);
}

#[test]
fn line_count_matches_str_lines() {
    for s in ["", "a", "a\n", "a\nb", "a\r\nb\r\n", "\n\n", "x\n\ny"] {
        assert_eq!(line_count(s), s.lines().count(), "{:?}", s);
    }
}

#[test]
fn non_empty_lines_skip_blank_lines() {
    assert_eq!(non_empty_lines("a\n\nb\n"), vec!["a".to_string(), "b".to_string()]);
}

#[test]
fn trim_removes_unicode_whitespace() {
    assert_eq!(trim("  main\n"), "main");
    assert_eq!(trim("\u{3000}x y\u{a0}"), "x y");
    assert_eq!(trim(" \t\n"), "");
    for s in ["", " a ", "\u{85}b\u{2028}", "c"] {
        assert_eq!(trim(s), s.trim());
    }
}

#[test]
fn split_once_at_first_separator() {
    assert_eq!(split_once("h|m|n", '|'), Some(("h".to_string(), "m|n".to_string())));
    assert_eq!(split_once("|x", '|'), Some(("".to_string(), "x".to_string())));
    assert_eq!(split_once("none", '|'), None);
}

#[test]
fn contains_str_finds_substrings() {
    assert!(contains_str("src/main.rs", "main"));
    assert!(contains_str("abc", ""));
    assert!(!contains_str("ma", "main"));
    assert!(!contains_str("src/lib.rs", "app"));
}

#[test]
fn remove_char_drops_every_occurrence() {
    assert_eq!(remove_char("a\"b\"\"c", '"'), "abc");
}

#[test]
fn decimal_rendering() {
    for n in [0i64, 7, 10, -1, -1234, 9_876_543_210, i64::MAX, i64::MIN] {
        let mut s = String::from("n=");
        push_decimal(&mut s, n);
        assert_eq!(s, format!("n={}", n));
    }
}

#[test]
fn words_split_at_whitespace() {
    assert_eq!(words("  a b\tc "), vec!["a".to_string(), "b".to_string(), "c".to_string()]);
    assert!(words(" \n ").is_empty());
}

#[test]
fn join_with_separator() {
    let parts = vec!["a".to_string(), "b".to_string(), "c".to_string()];
    assert_eq!(join(&parts, ", "), "a, b, c");
    assert_eq!(join(&vec![], ", "), "");
    assert_eq!(join(&vec!["x".to_string()], ", "), "x");
}
