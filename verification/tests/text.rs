use harness::text::{
    bytes_in, chars_of, comes_before, contains_str, count_places, dec_i32, dec_padded, dec_u64,
    find_chars, join_strings, parse_u32, spans_of, split_str, str_eq, string_of, trimmed,
    trimmed_end_char,
};

fn strings(parts: &[&str]) -> Vec<String> {
    parts.iter().map(|p| p.to_string()).collect()
}

#[test]
fn numerals() {
    assert_eq!(dec_u64(0), "0");
    assert_eq!(dec_u64(u64::MAX), "18446744073709551615");
    assert_eq!(dec_i32(-1), "-1");
    assert_eq!(dec_i32(i32::MIN), "-2147483648");
    assert_eq!(dec_i32(127), "127");
    assert_eq!(dec_padded(7, 4), "0007");
    assert_eq!(dec_padded(12345, 4), "12345");
}

#[test]
fn numerals_are_read() {
    assert_eq!(parse_u32("0"), Some(0));
    assert_eq!(parse_u32("+42"), Some(42));
    assert_eq!(parse_u32("007"), Some(7));
    assert_eq!(parse_u32("4294967295"), Some(u32::MAX));
    for bad in ["", "+", "-1", "4294967296", " 1", "1 ", "1.0", "99999999999999999999", "x"] {
        assert_eq!(parse_u32(bad), bad.parse::<u32>().ok(), "{bad:?}");
        assert_eq!(parse_u32(bad), None, "{bad:?}");
    }
}

#[test]
fn trimming_follows_white_space() {
    for text in ["", " ", " a b ", "\t\n\u{a0}x\u{3000}\u{2003}", "\u{200b}x", "\u{1c}x", "x"] {
        assert_eq!(trimmed(text), text.trim(), "{text:?}");
    }
    assert_eq!(trimmed_end_char("http://h//", '/'), "http://h");
    assert_eq!(trimmed_end_char("///", '/'), "");
}

#[test]
fn every_white_character_is_trimmed() {
    for code in 0..0x11_0000_u32 {
        if let Some(c) = char::from_u32(code) {
            if c.is_whitespace() {
                assert_eq!(trimmed(&c.to_string()), "", "{code:x}");
            }
        }
    }
}

#[test]
fn lines_end_at_line_feeds() {
    for text in ["", "\n", "a", "a\n", "a\r\nb\r", "\r\n\n", "a\rb\n", "é\n\nü"] {
        let expected: Vec<&str> = text.lines().collect();
        let cs = chars_of(text);
        let lines: Vec<String> = spans_of(&cs)
            .into_iter()
            .map(|(from, to)| string_of(&cs, from, to))
            .collect();
        assert_eq!(lines, expected, "{text:?}");
    }
}

#[test]
fn splitting_and_joining() {
    for text in ["", "/", "a/b", "//a/", "a"] {
        let expected: Vec<&str> = text.split('/').collect();
        assert_eq!(split_str(text, '/'), expected, "{text:?}");
        assert_eq!(join_strings(&split_str(text, '/'), "/"), text);
    }
    assert_eq!(join_strings(&strings(&[]), ", "), "");
    assert_eq!(join_strings(&strings(&["a", "b"]), ", "), "a, b");
}

#[test]
fn searching() {
    let h = chars_of("abcabc");
    let p = chars_of("bc");
    assert_eq!(find_chars(&h, &p, 0), Some(1));
    assert_eq!(find_chars(&h, &p, 2), Some(4));
    assert_eq!(find_chars(&h, &p, 5), None);
    assert_eq!(find_chars(&h, &p, usize::MAX), None);
    assert_eq!(count_places(&h, &p), 2);
    assert_eq!(count_places(&chars_of("aaa"), &chars_of("aa")), 2);
    assert!(contains_str("straße", "aß"));
    assert!(contains_str("x", ""));
    assert!(!contains_str("", "x"));
    assert_eq!(string_of(&h, 1, 3), "bc");
}

#[test]
fn order_and_equality() {
    let words = ["", "A", "a", "a b", "ab", "b", "é", "日本", "\u{10ffff}"];
    for x in words {
        for y in words {
            assert_eq!(comes_before(x, y), x < y, "{x:?} {y:?}");
            assert_eq!(str_eq(x, y), x == y, "{x:?} {y:?}");
        }
        assert_eq!(bytes_in(x), x.len());
    }
}
