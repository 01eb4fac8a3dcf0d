use stripconf::number::{decimal_of, read_hex_pair, read_number, to_lower};
use stripconf::style::{join, pad_left, pad_right, repeat, truncate};
use stripconf::text::{chars_of, is_text, is_whitespace, string_of, strip};

fn chars(s: &str) -> Vec<char> {
    s.chars().collect()
}

#[test]
fn white_space_is_that_of_the_standard_library() {
    let mut u: u32 = 0;
    while u <= 0x10ffff {
        if let Some(c) = char::from_u32(u) {
            assert_eq!(is_whitespace(c), c.is_whitespace(), "{:x}", u);
        }
        u += 1;
    }
}

#[test]
fn trimming_is_that_of_the_standard_library() {
    for s in ["", " ", "a", "  a b\t", "\u{3000}x\u{85}", "\r\nx\r\n", "\u{1}x "] {
        assert_eq!(string_of(strip(&chars(s))), s.trim(), "{:?}", s);
    }
}

#[test]
fn numbers_are_those_of_the_standard_library() {
    for s in [
        "", "+", "-", "0", "+0", "007", "42", "+42", "-1", "++1", "4294967295", "4294967296",
        "99999999999999999999", "000000000000000000001", " 1", "1 ", "1a", "\u{661}",
    ] {
        assert_eq!(read_number(&chars(s)), s.parse::<u32>().ok(), "{:?}", s);
    }
}

#[test]
fn hex_pairs_are_those_of_the_standard_library() {
    let set = "09afAFgG+-# \u{e9}";
    for a in set.chars() {
        for b in set.chars() {
            let s: String = [a, b].iter().collect();
            assert_eq!(read_hex_pair(a, b), u8::from_str_radix(&s, 16).ok(), "{:?}", s);
        }
    }
}

#[test]
fn numerals_are_read_back() {
    for n in [0u32, 7, 10, 99, 100, 65535, 4294967295] {
        let s = decimal_of(n);
        assert_eq!(s, n.to_string());
        assert_eq!(read_number(&chars(&s)), Some(n));
    }
}

#[test]
fn strings_and_characters_convert() {
    assert_eq!(chars_of("a\u{2026}b"), vec!['a', '\u{2026}', 'b']);
    assert_eq!(string_of(&['a', '\u{2026}', 'b']), "a\u{2026}b");
    assert!(is_text(&chars("segment "), "segment "));
    assert!(!is_text(&chars("segment"), "segment "));
    assert_eq!(to_lower('Q'), 'q');
    assert_eq!(to_lower('#'), '#');
}

#[test]
fn truncation_counts_characters() {
    assert_eq!(truncate("abcdef", 10), "abcdef");
    assert_eq!(truncate("abcdef", 6), "abcdef");
    assert_eq!(truncate("abcdef", 5), "abcde\u{2026}");
    assert_eq!(truncate("\u{e9}\u{e9}\u{e9}", 2), "\u{e9}\u{e9}\u{2026}");
    assert_eq!(truncate("x", 0), "\u{2026}");
    assert_eq!(truncate("", 0), "");
}

#[test]
fn padding_is_that_of_the_formatter() {
    for s in ["", "a", "\u{e9}\u{e9}", "abc", "abcd"] {
        assert_eq!(pad_right(s, 3), format!("{:<3}", s));
        assert_eq!(pad_left(s, 3), format!("{:>3}", s));
    }
    assert_eq!(repeat('\u{2500}', 3), "\u{2500}\u{2500}\u{2500}");
    assert_eq!(repeat('x', 0), "");
}

#[test]
fn lines_are_joined() {
    let v: Vec<String> = vec!["a".to_string(), String::new(), "b".to_string()];
    assert_eq!(join(&v), v.join("\n"));
    assert_eq!(join(&Vec::new()), "");
    assert_eq!(join(&vec!["one".to_string()]), "one");
}
