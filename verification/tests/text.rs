use ravix::branches::str_lt;
use ravix::text::{
    is_whitespace, join_with_newline, lines_of, parse_trimmed_usize, str_contains, str_starts_with,
};

#[test]
fn lines_split_like_str_lines() {
    assert_eq!(lines_of("a\nb\r\nc"), vec!["a", "b", "c"]);
    assert_eq!(lines_of("a\n\nb\n"), vec!["a", "", "b"]);
    assert_eq!(lines_of("tail\r"), vec!["tail\r"]);
    assert!(lines_of("").is_empty());
    let text = "x\r\ny\n";
    assert_eq!(lines_of(text), text.lines().collect::<Vec<_>>());
}

#[test]
fn joined_lines_end_with_a_line_feed() {
    assert_eq!(join_with_newline(&vec!["a".to_string(), "b".to_string()]), "a\nb\n");
    assert_eq!(join_with_newline(&Vec::new()), "\n");
}

#[test]
fn numbers_parse_like_usize_from_str_after_trimming() {
    assert_eq!(parse_trimmed_usize(" 42\n"), Some(42));
    assert_eq!(parse_trimmed_usize("+7"), Some(7));
    assert_eq!(parse_trimmed_usize("-1"), None);
    assert_eq!(parse_trimmed_usize(""), None);
    assert_eq!(parse_trimmed_usize("4 2"), None);
    assert_eq!(parse_trimmed_usize("99999999999999999999999"), None);
}

#[test]
fn substring_tests_match_std() {
    assert!(str_contains("non-fast-forward", "fast"));
    assert!(str_contains("abc", ""));
    assert!(!str_contains("ab", "abc"));
    assert!(str_starts_with("stash@{1}", "stash@{"));
    assert!(!str_starts_with("sta", "stash"));
    assert!(is_whitespace('\u{3000}'));
    assert!(!is_whitespace('x'));
    assert!(str_lt("main", "main2"));
    assert!(!str_lt("b", "a"));
}
