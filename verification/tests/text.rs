use yank::digits::{parse_u32, push_decimal, push_padded};
use yank::recorder::blank;
use yank::text::{char_is_control, char_is_space, chars_of, same, string_of, trim_bounds};

#[test]
fn every_character_is_classified() {
    for c in (0u32..=0x10ffff).filter_map(char::from_u32) {
        assert_eq!(char_is_space(c), c.is_whitespace(), "{:?}", c);
        assert_eq!(char_is_control(c), c.is_control(), "{:?}", c);
    }
}

#[test]
fn characters_come_and_go() {
    let v = chars_of("a\u{e9}\u{1f600}");
    assert_eq!(v, vec!['a', '\u{e9}', '\u{1f600}']);
    assert_eq!(string_of(&v, 1, 3), "\u{e9}\u{1f600}");
    assert_eq!(string_of(&v, 2, 2), "");
}

#[test]
fn strings_are_compared() {
    assert!(same("", ""));
    assert!(same("ESC", "ESC"));
    assert!(!same("ESC", "ESc"));
    assert!(!same("q", "qq"));
}

#[test]
fn trimming_is_that_of_the_standard_library() {
    for t in ["", " ", "\t\n ", " a", "a ", "  a b\u{2028}", "\u{feff}x", "a\u{200b} "] {
        let v = chars_of(t);
        let (lo, hi) = trim_bounds(&v);
        assert_eq!(string_of(&v, lo, hi), t.trim());
        assert_eq!(blank(t), t.trim().is_empty());
    }
}

#[test]
fn numbers_are_written() {
    for n in [0u128, 7, 10, 99, 100, 1_700_000_000_000_000, u64::MAX as u128, u128::MAX] {
        let mut s = String::from("=");
        push_decimal(&mut s, n);
        assert_eq!(s, format!("={}", n));
        for w in [0usize, 1, 5, 20, 40] {
            let mut p = String::new();
            push_padded(&mut p, n, w);
            assert_eq!(p, format!("{:0w$}", n, w = w));
        }
    }
}

#[test]
fn numbers_are_read() {
    for s in [
        "", "+", "-", "0", "+0", "-0", "007", "4294967295", "4294967296", "99999999999999999999",
        "12a", " 1", "1 ", "0x10", "++1", "+4294967295", "\u{0661}",
    ] {
        assert_eq!(parse_u32(s), s.parse::<u32>().ok(), "{:?}", s);
    }
}

#[test]
fn what_is_written_is_read_back() {
    for n in [0u32, 1, 41, 65536, u32::MAX] {
        let mut s = String::new();
        push_decimal(&mut s, n as u128);
        assert_eq!(parse_u32(&s), Some(n));
    }
}
