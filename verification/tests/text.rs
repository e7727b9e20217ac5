use guiguitsu::text::{prefix_within, join2, contains_str, decimal_string, ends_with, lines, split_whitespace, splitn, starts_with, strip_prefix, trim_end_str, trim_str};

#[test]
fn lines_follow_str_lines() {
    for s in ["", "\n", "a", "a\nb", "a\r\nb\r\n", "a\r", "\n\nx\n", "x\r\r\n"] {
        let expected: Vec<String> = s.lines().map(|l| l.to_string()).collect();
        assert_eq!(lines(s), expected, "input {s:?}");
    }
}

#[test]
fn words_and_trim_follow_std() {
    for s in ["", "  ", " a  b\tc\n", "\u{a0}x\u{2003}y ", "one"] {
        let expected: Vec<String> = s.split_whitespace().map(|w| w.to_string()).collect();
        assert_eq!(split_whitespace(s), expected);
        assert_eq!(trim_str(s), s.trim());
        assert_eq!(trim_end_str(s), s.trim_end());
    }
}

#[test]
fn splitn_follows_std() {
    for (s, n) in [("a\u{1f}b\u{1f}c\u{1f}d\u{1f}e", 4usize), ("", 3), ("x", 1), ("a\u{1f}", 2)] {
        let expected: Vec<String> = s.splitn(n, '\u{1f}').map(|w| w.to_string()).collect();
        assert_eq!(splitn(s, n, '\u{1f}'), expected);
    }
}

#[test]
fn matching_and_numbers() {
    assert!(starts_with("abc", "ab"));
    assert!(!starts_with("a", "ab"));
    assert!(ends_with("main@git", "@git"));
    assert!(contains_str("x/.jjconflict-base/y", ".jjconflict"));
    assert!(!contains_str("abc", "abd"));
    assert_eq!(strip_prefix("--trunk=dev", "--trunk="), Some("dev".to_string()));
    assert_eq!(strip_prefix("--trunk", "--trunk="), None);
    assert_eq!(join2("a", "b"), "ab");
    for n in [0usize, 7, 10, 123, 4096, usize::MAX] {
        assert_eq!(decimal_string(n), n.to_string());
    }
}

#[test]
fn splitn_zero_yields_nothing() {
    assert!(splitn("a,b", 0, ',').is_empty());
    assert_eq!(splitn("a,b,c", 2, ','), vec!["a".to_string(), "b,c".to_string()]);
    assert_eq!(prefix_within("\u{65e5}\u{672c}", 3), "\u{65e5}");
}
