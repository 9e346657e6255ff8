use yank::history::Entry;
use yank::picker::{header, nothing_yet, own_selections, Choice, Picker};

fn entry(name: &str, text: &str) -> Entry {
    Entry { name: name.as_bytes().to_vec(), text: text.to_string() }
}

fn picker(texts: &[&str]) -> Picker {
    let list = texts
        .iter()
        .enumerate()
        .map(|(i, t)| entry(&format!("{}", i), t))
        .collect();
    match Picker::open(list) {
        Some(p) => p,
        None => panic!("nothing to pick"),
    }
}

fn press(p: &mut Picker, key: &str) -> Choice {
    p.press(Some(key))
}

#[test]
fn an_empty_history_opens_nothing() {
    assert!(Picker::open(Vec::new()).is_none());
    assert_eq!(nothing_yet(), "yank: no history yet (is `yank --watch` running?)");
}

#[test]
fn the_newest_entry_is_selected_first() {
    assert_eq!(picker(&["a", "b"]).sel, 0);
}

#[test]
fn the_header_counts() {
    assert_eq!(header(1), " yank \u{2014} 1 entry ");
    assert_eq!(header(0), " yank \u{2014} 0 entries ");
    assert_eq!(header(100), " yank \u{2014} 100 entries ");
}

#[test]
fn keys_move_the_selection() {
    let mut p = picker(&["a", "b", "c"]);
    for (key, sel) in [
        ("UP", 0),
        ("DOWN", 1),
        ("j", 2),
        ("DOWN", 2),
        ("j", 2),
        ("k", 1),
        ("UP", 0),
        ("k", 0),
    ] {
        assert!(matches!(press(&mut p, key), Choice::Show));
        assert_eq!(p.sel, sel);
    }
}

#[test]
fn up_undoes_down() {
    let mut p = picker(&["a", "b", "c"]);
    press(&mut p, "j");
    press(&mut p, "DOWN");
    press(&mut p, "UP");
    assert_eq!(p.sel, 1);
    press(&mut p, "k");
    press(&mut p, "j");
    assert_eq!(p.sel, 1);
}

#[test]
fn keys_that_mean_nothing_change_nothing() {
    let mut p = picker(&["a", "b"]);
    for key in ["x", "", "D", "enter", "RESIZE", "K"] {
        assert!(matches!(press(&mut p, key), Choice::Show));
        assert_eq!(p.sel, 0);
    }
    assert!(matches!(p.press(None), Choice::Show));
}

#[test]
fn three_keys_quit() {
    for key in ["q", "Q", "ESC"] {
        assert!(matches!(press(&mut picker(&["a"]), key), Choice::Quit));
    }
}

#[test]
fn enter_takes_the_selected_text() {
    let mut p = picker(&["a", "b\n"]);
    press(&mut p, "j");
    assert!(matches!(press(&mut p, "ENTER"), Choice::Take { text } if text == "b\n"));
}

#[test]
fn d_deletes_the_selected_file() {
    let mut p = picker(&["a", "b"]);
    press(&mut p, "j");
    assert!(matches!(press(&mut p, "d"), Choice::Delete { name } if name == b"1".to_vec()));
}

const HEAD: &str = "\x1b[38;5;231;48;5;234;1m yank \u{2014} 3 entries \x1b[0m";

#[test]
fn the_screen_shows_the_list() {
    let p = picker(&["one", "two\nlines", "three"]);
    assert!(p.can_show(12, 10));
    assert_eq!(
        p.screen(12, 10),
        format!(
            "{}\n\x1b[48;5;238m one      \x1b[49m\n two\u{23ce}lin\u{2026}\n three",
            HEAD
        )
    );
}

#[test]
fn the_list_scrolls_with_the_selection() {
    let mut p = picker(&["one", "two", "three"]);
    assert_eq!(
        p.screen(10, 4),
        format!("{}\n\x1b[48;5;238m one    \x1b[49m\n two", HEAD)
    );
    press(&mut p, "j");
    press(&mut p, "j");
    assert_eq!(
        p.screen(10, 4),
        format!("{}\n two\n\x1b[48;5;238m three  \x1b[49m", HEAD)
    );
    assert_eq!(p.screen(10, 3), format!("{}\n\x1b[48;5;238m three  \x1b[49m", HEAD));
}

#[test]
fn a_screen_without_room_has_the_header() {
    let mut p = picker(&["one", "two", "three"]);
    for rows in [0, 1, 2] {
        assert!(p.can_show(0, rows));
        assert_eq!(p.screen(0, rows), HEAD);
    }
    press(&mut p, "j");
    assert_eq!(p.screen(0, 2), HEAD);
}

#[test]
fn a_narrow_screen_has_no_room() {
    let p = picker(&["one", "two", "three"]);
    assert!(!p.can_show(3, 10));
    assert!(!p.can_show(4, 10));
    assert!(p.can_show(5, 10));
    assert_eq!(
        p.screen(5, 3),
        format!("{}\n\x1b[48;5;238m \u{2026} \x1b[49m", HEAD)
    );
    let blank = picker(&[" ", "  ", ""]);
    assert!(blank.can_show(4, 10));
    assert!(!blank.can_show(3, 10));
    assert_eq!(
        blank.screen(4, 10),
        format!("{}\n\x1b[48;5;238m  \x1b[49m\n \n ", HEAD)
    );
}

#[test]
fn every_entry_has_one_line() {
    let texts: Vec<String> = (0..40).map(|i| format!("a\nb\n{}\n\n", i)).collect();
    let texts: Vec<&str> = texts.iter().map(|t| t.as_str()).collect();
    let mut p = picker(&texts);
    for _ in 0..40 {
        for rows in 0..50u16 {
            let shown = usize::from(rows.saturating_sub(2)).min(40 - p.sel.saturating_sub(
                usize::from(rows.saturating_sub(2)).saturating_sub(1),
            ));
            let screen = p.screen(20, rows);
            assert_eq!(screen.matches('\n').count(), shown);
            assert_eq!(screen.contains("\x1b[48;5;238m"), rows > 2);
        }
        press(&mut p, "j");
    }
}

#[test]
fn both_selections_are_owned() {
    assert_eq!(
        own_selections(),
        vec![
            vec!["setsid", "xclip", "-selection", "clipboard"],
            vec!["setsid", "xclip", "-selection", "primary"],
        ]
    );
}
