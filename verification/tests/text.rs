use httpmate_core::text::{
    decimal, ends_with, lines, parse_u64, skip_chars, split, split_once, starts_with, to_lower,
    trim,
};

#[test]
fn text_is_handled_as_the_standard_library_does() {
    for s in ["", " ", "\u{a0}x\u{3000}", "\tÄ b\r\n", "\u{200b}z\u{85}", "plain"] {
        assert_eq!(trim(s), s.trim());
    }
    for s in ["", "ABCxyzÄÖ[@", "Straße"] {
        assert_eq!(to_lower(s), s.to_ascii_lowercase());
    }
    for s in ["", "\n", "a\nb", "a\r\nb\n", "a\rb\r", "\n\nx\r\n\r\n", "é\n"] {
        assert_eq!(lines(s), s.lines().map(|l| l.to_string()).collect::<Vec<_>>());
    }
    for s in ["", ",", "a,b", ",é,,x,"] {
        assert_eq!(split(s, ','), s.split(',').map(|p| p.to_string()).collect::<Vec<_>>());
    }
    for (s, sep) in [("a: b: c", ": "), ("::", ":"), ("x", "."), ("ab", "ab"), ("aab", "ab"), ("", "x")] {
        let want = s.split_once(sep).map(|(a, b)| (a.to_string(), b.to_string()));
        assert_eq!(split_once(s, sep), want);
    }
    for (s, part) in [("abc", "ab"), ("abc", "bc"), ("abc", ""), ("a", "ab"), ("äö", "ö"), ("", "")] {
        assert_eq!(starts_with(s, part), s.starts_with(part));
        assert_eq!(ends_with(s, part), s.ends_with(part));
    }
    assert_eq!(skip_chars("äbc", 1), "bc");
    assert_eq!(skip_chars("a", 1), "");
}

#[test]
fn numerals_are_handled_as_the_standard_library_does() {
    for n in [0, 7, 10, 99, 100, 18446744073709551615] {
        assert_eq!(decimal(n), n.to_string());
        assert_eq!(parse_u64(&decimal(n)), Some(n));
    }
    for s in [
        "", "+", "-1", "+12", "++1", "007", " 1", "1 ", "1a", "٣", "18446744073709551615",
        "18446744073709551616", "99999999999999999999999",
    ] {
        assert_eq!(parse_u64(s), s.parse::<u64>().ok());
    }
}
