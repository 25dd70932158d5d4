use war_machine::text::{
    chars_le, chars_of, contains, decimal_chars, matches_at, replace, same_text, split_chars,
    string_of, string_of_range, trim, trim_range, whitespace,
};

#[test]
fn replace_matches_the_standard_library() {
    let cases = [
        ("hello world", "o", "0"),
        ("aaaa", "aa", "b"),
        ("abc", "", "-"),
        ("", "", "x"),
        ("", "a", "x"),
        ("${port.db} and ${port.db}", "${port.db}", "49000"),
        ("ababab", "aba", ""),
        ("h\u{e9}llo", "\u{e9}", "e"),
    ];
    for (text, from, to) in cases {
        assert_eq!(replace(text, from, to), text.replace(from, to));
    }
}

#[test]
fn trim_matches_the_standard_library() {
    let cases = ["  a b  ", "", "   ", "\t\nx\r\n", "\u{a0}x\u{3000}", "\u{2003}y\u{85}", "x", " \u{200b} "];
    for text in cases {
        assert_eq!(trim(text), text.trim());
    }
}

#[test]
fn contains_matches_the_standard_library() {
    let cases = [("hello", "ell"), ("hello", ""), ("", ""), ("", "a"), ("abc", "abcd"), ("abc", "c"), ("abc", "d")];
    for (text, pat) in cases {
        assert_eq!(contains(text, pat), text.contains(pat));
    }
}

#[test]
fn split_matches_the_standard_library() {
    let cases = ["a\nb", "", "\n", "a\n", "\na", "a\n\nb\n"];
    for text in cases {
        let pieces: Vec<String> = split_chars(&chars_of(text), '\n').iter().map(|p| string_of(p)).collect();
        let expected: Vec<String> = text.split('\n').map(|p| p.to_string()).collect();
        assert_eq!(pieces, expected);
    }
}

#[test]
fn decimal_matches_the_standard_library() {
    let cases = [0, 7, 10, 49000, 65535, -1, -120, i32::MAX, i32::MIN];
    for n in cases {
        assert_eq!(string_of(&decimal_chars(n)), n.to_string());
    }
}

#[test]
fn whitespace_matches_the_standard_library() {
    for code in 0u32..0x3100 {
        if let Some(c) = char::from_u32(code) {
            assert_eq!(whitespace(c), c.is_whitespace(), "{:x}", code);
        }
    }
    assert!(!whitespace('\u{feff}'));
    assert!(!whitespace('\u{10ffff}'));
}

#[test]
fn texts_are_ordered_like_strings() {
    let cases = ["", "a", "b", "ab", "A", "\u{e9}", "\u{1f600}", "\u{ffff}", "aa", "a\u{0}"];
    for a in cases {
        for b in cases {
            assert_eq!(chars_le(&chars_of(a), &chars_of(b)), a <= b, "{:?} {:?}", a, b);
            assert_eq!(same_text(a, b), a == b);
        }
    }
}

#[test]
fn ranges_of_a_text() {
    let text = chars_of("  h\u{e9}llo  ");
    assert_eq!(string_of_range(&text, 2, 7), "h\u{e9}llo");
    assert_eq!(string_of_range(&text, 3, 3), "");
    assert_eq!(string_of(&trim_range(&text, 0, 4)), "h\u{e9}");
    assert_eq!(string_of(&trim_range(&text, 7, 9)), "");
    assert!(matches_at(&text, &chars_of("llo"), 4));
    assert!(!matches_at(&text, &chars_of("llo"), 5));
    assert!(!matches_at(&text, &chars_of("llo"), 20));
    assert!(matches_at(&text, &chars_of(""), 9));
    assert!(!matches_at(&text, &chars_of(""), 10));
}
