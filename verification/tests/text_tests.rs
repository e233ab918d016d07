use hyperlit::text::{is_whitespace, lines, split_on, str_contains, str_ends_with, str_starts_with, str_trim};

#[test]
fn white_space_matches_std_for_every_char() {
    for u in 0u32..=0x10FFFF {
        if let Some(c) = char::from_u32(u) {
            assert_eq!(is_whitespace(c), c.is_whitespace(), "U+{:04X}", u);
        }
    }
}

#[test]
fn trimming_and_splitting() {
    assert_eq!(str_trim("\u{3000} a b \t"), "a b");
    assert_eq!(split_on("a,,b", ','), vec!["a".to_string(), "".to_string(), "b".to_string()]);
    assert_eq!(lines("one\r\ntwo\nthree\n"), vec!["one".to_string(), "two".to_string(), "three".to_string()]);
    assert!(str_contains("haystack", "st"));
    assert!(!str_contains("hay", "hays"));
    assert!(str_starts_with("prefix", "pre"));
    assert!(str_ends_with("suffix", "fix"));
}

#[test]
fn lines_match_std() {
    for s in ["", "\n", "a", "a\n", "a\r\nb", "x\r", "\r\n\r\n", "a\rb\n", "one\n\ntwo"] {
        let expected: Vec<String> = s.lines().map(|l| l.to_string()).collect();
        assert_eq!(lines(s), expected, "{:?}", s);
    }
}
