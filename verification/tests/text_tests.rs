use r34_hooks::text::{
    chars_of, is_whitespace, join_strings, last_piece_str, parse_usize, split_str, split_trimmed,
    strip_prefix_str, to_owned_all, trim_str, IntFault,
};
use std::num::IntErrorKind;

#[test]
fn trim_removes_unicode_whitespace() {
    assert_eq!(trim_str(" \t\u{3000}abc \u{85}"), "abc");
    assert_eq!(trim_str("   "), "");
    assert_eq!(trim_str("a b"), "a b");
    for s in ["", " x ", "\u{2028}y\u{200A}", "\u{180E}z", "q\u{FEFF}"] {
        assert_eq!(trim_str(s), s.trim(), "input {s:?}");
    }
}

#[test]
fn whitespace_matches_std() {
    for c in ['\t', '\n', '\u{b}', '\u{c}', '\r', ' ', '\u{85}', '\u{a0}', '\u{1680}', '\u{2000}', '\u{200a}', '\u{2028}', '\u{2029}', '\u{202f}', '\u{205f}', '\u{3000}', 'a', '\u{200b}', '\u{180e}', '\u{feff}', '_'] {
        assert_eq!(is_whitespace(c), c.is_whitespace(), "char {c:?}");
    }
}

#[test]
fn chars_in_order() {
    assert_eq!(chars_of("añb"), vec!['a', 'ñ', 'b']);
}

#[test]
fn split_keeps_empty_pieces() {
    assert_eq!(split_str("a,,b,", ','), vec!["a", "", "b", ""]);
    assert_eq!(split_str("", ','), vec![""]);
    assert_eq!(split_str("abc", ','), vec!["abc"]);
}

#[test]
fn split_trimmed_drops_blank_pieces() {
    assert_eq!(split_trimmed(" a , ,b,, c d ", ','), vec!["a", "b", "c d"]);
    assert!(split_trimmed(" , ", ',').is_empty());
}

#[test]
fn join_puts_separator_between() {
    let parts = vec!["a".to_string(), "b".to_string(), "c".to_string()];
    assert_eq!(join_strings(&parts, ","), "a,b,c");
    assert_eq!(join_strings(&[], ","), "");
    assert_eq!(join_strings(&["x".to_string()], ", "), "x");
}

#[test]
fn split_of_join_gives_parts() {
    let parts = vec!["kindred".to_string(), "high_res".to_string(), "-ai".to_string()];
    let joined = join_strings(&parts, ",");
    assert_eq!(split_str(&joined, ','), vec!["kindred", "high_res", "-ai"]);
}

#[test]
fn parse_usize_like_std() {
    for s in ["0", "+7", "123", "", "+", "-1", "-0", "12a", " 1", "18446744073709551615", "18446744073709551616", "007", "+-1", "99999999999999999999x", "1x99999999999999999999"] {
        let want = s.parse::<usize>().map_err(|e| match e.kind() {
            IntErrorKind::Empty => IntFault::Empty,
            IntErrorKind::InvalidDigit => IntFault::InvalidDigit,
            IntErrorKind::PosOverflow => IntFault::PosOverflow,
            k => panic!("unexpected kind {k:?}"),
        });
        assert_eq!(parse_usize(s), want, "input {s:?}");
    }
}

#[test]
fn strip_prefix_like_std() {
    assert_eq!(strip_prefix_str("R34_LIMIT", "R34_"), Some("LIMIT"));
    assert_eq!(strip_prefix_str("R34_", "R34_"), Some(""));
    assert_eq!(strip_prefix_str("r34_LIMIT", "R34_"), None);
    assert_eq!(strip_prefix_str("R3", "R34_"), None);
}

#[test]
fn last_piece_is_text_after_last_separator() {
    assert_eq!(last_piece_str("https://a/b/c.png", '/'), "c.png");
    assert_eq!(last_piece_str("noslash", '/'), "noslash");
    assert_eq!(last_piece_str("dir/", '/'), "");
    for s in ["a/b", "/", "", "x//y"] {
        assert_eq!(last_piece_str(s, '/'), s.rsplit('/').next().unwrap());
    }
}

#[test]
fn owned_copies() {
    assert_eq!(to_owned_all(&vec!["a", "b"]), vec!["a".to_string(), "b".to_string()]);
}
