use rollout_controller::text::{
    ascii_text, chars_of, contains_char, eq_ignore_ascii_case, is_white_space, rsplit_once, same,
    split, split_once, strip_prefix, strip_prefixes, trim, trim_leading, trim_trailing, unquote,
    Trim,
};

#[test]
fn white_space_is_that_of_unicode() {
    for n in 0u32..0x11_0000 {
        if let Some(c) = char::from_u32(n) {
            assert_eq!(is_white_space(c), c.is_whitespace(), "{:x}", n);
        }
    }
}

#[test]
fn texts_are_trimmed_as_by_std() {
    for s in ["", " ", " a ", "\u{2003}ä b\t\n", "\"", "\"\"", "\"a\"b\"", " \" a"] {
        assert_eq!(trim(s), s.trim());
        assert_eq!(unquote(s), s.trim_matches('"'));
        assert_eq!(trim_leading(s, Trim::WhiteSpace), s.trim_start());
        assert_eq!(trim_trailing(s, Trim::DoubleQuote), s.trim_end_matches('"'));
    }
}

#[test]
fn texts_are_split_as_by_std() {
    for s in ["", "/", "a", "a/b", "/a//ä/", "äö/ü"] {
        assert_eq!(split(s, '/'), s.split('/').collect::<Vec<_>>());
        assert_eq!(split_once(s, '/'), s.split_once('/'));
        assert_eq!(rsplit_once(s, '/'), s.rsplit_once('/'));
        assert_eq!(contains_char(s, '/'), s.contains('/'));
        assert_eq!(chars_of(s), s.chars().collect::<Vec<_>>());
    }
}

#[test]
fn prefixes_are_stripped_as_by_std() {
    for s in ["", "ab", "abab", "ababa", "aab"] {
        assert_eq!(strip_prefix(s, "ab"), s.strip_prefix("ab"));
        assert_eq!(strip_prefixes(s, "ab"), s.trim_start_matches("ab"));
        assert_eq!(strip_prefixes(s, ""), s.trim_start_matches(""));
    }
    assert_eq!(strip_prefix("x", ""), Some("x"));
    assert_eq!(strip_prefixes("x", ""), "x");
}

#[test]
fn texts_are_compared_as_by_std() {
    for (a, b) in [("", ""), ("a", "A"), ("ä", "Ä"), ("[", "{"), ("k", "\u{212a}"), ("ab", "a")] {
        assert_eq!(eq_ignore_ascii_case(a, b), a.eq_ignore_ascii_case(b));
        assert_eq!(same(a, b), a == b);
    }
    assert!(same("x", "x"));
}

#[test]
fn ascii_bytes_are_text() {
    assert_eq!(ascii_text(&b"sha256:0f \x7f".to_vec()), "sha256:0f \x7f");
}
