use clawpier::text::{
    ascii_alphanumeric, ascii_digit, byte_prefix, byte_suffix, chars_of, concat2, concat3,
    contains, contains_char, decimal_string, ends_with, find_char, find_text, join_lines, listed,
    longer_than, replace, rfind_char, same, same_str, skip_to_alphanumeric, split_char,
    split_lines, starts_with, starts_with_char, string_of, strip_prefix, trim, trim_matches,
    white_space,
};

const SAMPLES: [&str; 16] = [
    "",
    "a",
    "  a b  ",
    "\t\u{a0}x\u{3000}\n",
    "one\ntwo\n",
    "one\r\ntwo\r\n\r\n",
    "\n\na\rb\r",
    "\r\n\r",
    "key=value=more",
    "'\"quoted\"'",
    "\"\"",
    "aaaa",
    "a..b...c",
    "naïve ☔ 📦",
    "│ x │ y │",
    "\u{200b} \u{85}\u{2028}",
];

#[test]
fn white_space_is_that_of_unicode() {
    for c in '\0'..=char::MAX {
        assert_eq!(white_space(c), c.is_whitespace(), "{:?}", c);
        assert_eq!(ascii_digit(c), c.is_ascii_digit(), "{:?}", c);
        assert_eq!(ascii_alphanumeric(c), c.is_ascii_alphanumeric(), "{:?}", c);
    }
}

#[test]
fn texts_are_trimmed_like_strings() {
    for s in SAMPLES {
        let cs = chars_of(s);
        assert_eq!(string_of(trim(&cs)), s.trim(), "{:?}", s);
        for c in ['"', '\'', 'a', '.'] {
            assert_eq!(string_of(trim_matches(&cs, c)), s.trim_matches(c), "{:?}", s);
        }
        let expected: String = s.chars().skip_while(|c| !c.is_ascii_alphanumeric()).collect();
        assert_eq!(string_of(skip_to_alphanumeric(&cs)), expected, "{:?}", s);
    }
}

#[test]
fn texts_are_split_like_strings() {
    for s in SAMPLES {
        let cs = chars_of(s);
        let lines: Vec<String> = split_lines(&cs).into_iter().map(string_of).collect();
        let expected: Vec<String> = s.lines().map(|l| l.to_string()).collect();
        assert_eq!(lines, expected, "{:?}", s);
        assert_eq!(join_lines(&split_lines(&cs)), expected.join("\n"), "{:?}", s);
        for c in ['\n', '=', '│', 'a'] {
            let pieces: Vec<String> = split_char(&cs, c).into_iter().map(string_of).collect();
            let expected: Vec<String> = s.split(c).map(|p| p.to_string()).collect();
            assert_eq!(pieces, expected, "{:?}", s);
        }
    }
}

#[test]
fn texts_are_searched_like_strings() {
    for s in SAMPLES {
        let cs = chars_of(s);
        let at = |byte: usize| s[..byte].chars().count();
        for p in ["a", "..", "  ", "\n", "one", "│ "] {
            assert_eq!(contains(&cs, p), s.contains(p), "{:?}", s);
            assert_eq!(starts_with(&cs, p), s.starts_with(p), "{:?}", s);
            assert_eq!(ends_with(&cs, p), s.ends_with(p), "{:?}", s);
            assert_eq!(find_text(&cs, p), s.find(p).map(at), "{:?}", s);
            assert_eq!(
                strip_prefix(&cs, p).map(string_of),
                s.strip_prefix(p).map(|r| r.to_string()),
                "{:?}",
                s
            );
            assert_eq!(string_of(&replace(&cs, p, "<>")), s.replace(p, "<>"), "{:?}", s);
        }
        for c in ['a', '\n', '│', '='] {
            assert_eq!(contains_char(&cs, c), s.contains(c), "{:?}", s);
            assert_eq!(starts_with_char(&cs, c), s.starts_with(c), "{:?}", s);
            assert_eq!(find_char(&cs, c), s.find(c).map_or(cs.len(), at), "{:?}", s);
            assert_eq!(rfind_char(&cs, c), s.rfind(c).map(at), "{:?}", s);
        }
    }
}

#[test]
fn texts_are_cut_at_bytes_like_strings() {
    for s in SAMPLES {
        let cs = chars_of(s);
        for n in 0..8 {
            assert_eq!(longer_than(&cs, n), s.len() > n, "{:?}", s);
            assert_eq!(
                byte_prefix(&cs, n).map(string_of),
                s.get(..n).map(|p| p.to_string()),
                "{:?}",
                s
            );
            let suffix = if n <= s.len() { s.get(s.len() - n..) } else { None };
            assert_eq!(byte_suffix(&cs, n).map(string_of), suffix.map(|p| p.to_string()), "{:?}", s);
        }
    }
}

#[test]
fn texts_are_compared_and_joined() {
    assert!(same(&chars_of("ab"), &chars_of("ab")));
    assert!(!same(&chars_of("ab"), &chars_of("ac")));
    assert!(!same_str("ab", "abc"));
    assert!(same_str("", ""));
    assert!(listed(&["x", "yz"], &chars_of("yz")));
    assert!(!listed(&["x", "yz"], &chars_of("y")));
    assert_eq!(concat2("a", "b"), "ab");
    assert_eq!(concat3("a", "", "c"), "ac");
}

#[test]
fn numbers_are_written_in_decimal() {
    for n in [0, 7, 10, 1023, 65535, u64::MAX] {
        assert_eq!(decimal_string(n), n.to_string());
    }
}
