use yank::preview::{folds_to_nothing, preview};

#[test]
fn newlines_are_folded() {
    assert_eq!(preview("a\nb", 10), "a\u{23ce}b");
    assert_eq!(preview("\n", 10), "\u{23ce}");
    assert_eq!(preview("one\r\ntwo\n", 20), "one\u{b7}\u{23ce}two\u{23ce}");
}

#[test]
fn control_characters_are_visible() {
    assert_eq!(preview("a\tb\u{0}c\u{7f}d\u{85}e", 20), "a\u{b7}b\u{b7}c\u{b7}d\u{b7}e");
}

#[test]
fn spaces_at_the_ends_go_but_tabs_are_shown_there() {
    assert_eq!(preview("  hello  ", 20), "hello");
    assert_eq!(preview("\thello\t", 20), "\u{b7}hello\u{b7}");
    assert_eq!(preview("\u{3000}\u{2028}x\u{a0}", 20), "x");
}

#[test]
fn long_lines_end_in_an_ellipsis() {
    assert_eq!(preview("hello", 5), "hello");
    assert_eq!(preview("hello!", 5), "hell\u{2026}");
    assert_eq!(preview("ab", 1), "\u{2026}");
    assert_eq!(preview("\u{e6}\u{f8}\u{e5}\u{e4}", 3), "\u{e6}\u{f8}\u{2026}");
}

#[test]
fn nothing_needs_no_room() {
    assert_eq!(preview("", 0), "");
    assert_eq!(preview("   ", 0), "");
    assert!(folds_to_nothing("   "));
    assert!(!folds_to_nothing("\n"));
    assert!(!folds_to_nothing(" x "));
}

#[test]
fn previews_are_what_the_standard_library_makes_of_them() {
    for t in ["", " a ", "x\ny\tz", "\u{2003}wide\u{2003}", "0123456789", "\u{1f600} smile \n"] {
        let one: String = t
            .chars()
            .map(|c| if c == '\n' { '\u{23ce}' } else if c.is_control() { '\u{b7}' } else { c })
            .collect();
        let one = one.trim().to_string();
        for max in 1..12 {
            let want = if one.chars().count() <= max {
                one.clone()
            } else {
                let mut s: String = one.chars().take(max - 1).collect();
                s.push('\u{2026}');
                s
            };
            assert_eq!(preview(t, max), want);
        }
    }
}

#[test]
fn a_preview_has_no_control_characters() {
    let all: String = (0u32..0x300).filter_map(char::from_u32).collect();
    let line = preview(&all, 500);
    assert_eq!(line.chars().count(), 500);
    assert!(line.chars().all(|c| !c.is_control()));
}
