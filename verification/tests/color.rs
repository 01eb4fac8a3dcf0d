use stripconf::app::App;
use stripconf::color::{is_separable, normalize_hex, parse_hex};

#[test]
fn hex_codes_are_read() {
    assert_eq!(parse_hex("#a0B1c2"), Some((0xa0, 0xb1, 0xc2)));
    assert_eq!(parse_hex("  ##a0B1c2 "), Some((0xa0, 0xb1, 0xc2)));
    assert_eq!(parse_hex("000000"), Some((0, 0, 0)));
    assert_eq!(parse_hex("+1+2+f"), Some((1, 2, 15)));
}

#[test]
fn other_texts_are_no_colours() {
    for s in ["", "#", "#12345", "#1234567", "#12345g", "# 12345", "-1-2-3", "#\u{e9}1234"] {
        assert!(is_separable(s), "{:?}", s);
        assert_eq!(parse_hex(s), None, "{:?}", s);
        assert_eq!(normalize_hex(s), None, "{:?}", s);
    }
}

#[test]
fn normal_form_is_lower_case_and_stable() {
    for s in ["A0B1C2", "#a0b1c2", " ###a0B1c2\t"] {
        assert_eq!(normalize_hex(s), Some("#a0b1c2".to_string()));
    }
    assert_eq!(normalize_hex("+1+2+f"), Some("#01020f".to_string()));
    let n = normalize_hex("#FFcc00").unwrap();
    assert_eq!(normalize_hex(&n), Some(n.clone()));
    assert_eq!(parse_hex(&n), parse_hex("#FFcc00"));
}

#[test]
fn characters_across_a_cut_are_told() {
    assert!(!is_separable("1\u{e9}234"));
    assert!(!is_separable("#123\u{e9}4"));
    assert!(is_separable("#zz3\u{e9}4"));
    assert!(is_separable("#12\u{e9}34"));
    assert!(is_separable("1\u{e9}2345"));
}

#[test]
fn text_is_coloured() {
    assert_eq!(App::fg24("x", "#0a14ff"), "\x1b[38;2;10;20;255mx\x1b[0m");
    assert_eq!(App::bg24("x", "#0a14ff"), "\x1b[48;2;10;20;255mx\x1b[0m");
    assert_eq!(App::fg24("x", "red"), "x");
    assert_eq!(App::bg24("x", ""), "x");
}

#[test]
fn ascii_can_always_be_looked_at() {
    for c in '\0'..='\u{7f}' {
        for s in [format!("{}12345", c), format!("1{}2345", c), format!("123{}45", c)] {
            assert!(is_separable(&s), "{:?}", s);
            assert_eq!(parse_hex(&s), parse_hex(&format!("#{}", s)));
        }
    }
}
