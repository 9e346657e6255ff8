use yank::history::Entry;
use yank::session::{Event, Session, Step};

fn history(texts: &[&str]) -> Event {
    Event::History {
        list: texts
            .iter()
            .map(|t| Entry { name: format!("{}.txt", t).into_bytes(), text: t.to_string() })
            .collect(),
    }
}

fn key(k: &str) -> Event {
    Event::Key { key: Some(k.to_string()) }
}

fn step(s: &mut Session, ev: Event) -> Step {
    assert!(s.accepts(&ev));
    s.step(ev)
}

fn choosing(texts: &[&str]) -> Session {
    let (mut s, first) = Session::start();
    assert!(matches!(first, Step::Read));
    assert!(matches!(step(&mut s, history(texts)), Step::Open));
    assert!(matches!(step(&mut s, Event::Done), Step::Show));
    s
}

#[test]
fn an_empty_history_is_told() {
    let (mut s, _) = Session::start();
    assert!(matches!(
        step(&mut s, history(&[])),
        Step::Tell { line, secs: 2 } if line.starts_with("yank: no history yet")
    ));
    assert!(matches!(step(&mut s, Event::Done), Step::End));
    assert!(!s.accepts(&Event::Done));
}

#[test]
fn enter_owns_flags_and_ends() {
    let mut s = choosing(&["a", "b"]);
    assert!(matches!(step(&mut s, key("DOWN")), Step::Show));
    assert!(matches!(step(&mut s, key("ENTER")), Step::Own { text } if text == "b"));
    assert!(matches!(step(&mut s, Event::Done), Step::Flag));
    assert!(matches!(step(&mut s, Event::Done), Step::Close));
    assert!(matches!(step(&mut s, Event::Done), Step::End));
}

#[test]
fn quitting_leaves_no_flag() {
    let mut s = choosing(&["a", "b"]);
    assert!(matches!(step(&mut s, key("q")), Step::Close));
    assert!(matches!(step(&mut s, Event::Done), Step::End));
}

#[test]
fn deleting_reads_the_history_again() {
    let mut s = choosing(&["a", "b"]);
    step(&mut s, key("j"));
    assert!(matches!(step(&mut s, key("d")), Step::Remove { name } if name == b"b.txt".to_vec()));
    assert!(matches!(step(&mut s, Event::Done), Step::Close));
    assert!(matches!(step(&mut s, Event::Done), Step::Read));
    assert!(matches!(step(&mut s, history(&["a"])), Step::Open));
    assert!(matches!(step(&mut s, Event::Done), Step::Show));
    assert!(matches!(step(&mut s, key("d")), Step::Remove { name } if name == b"a.txt".to_vec()));
    step(&mut s, Event::Done);
    step(&mut s, Event::Done);
    assert!(matches!(step(&mut s, history(&[])), Step::Tell { .. }));
}

#[test]
fn the_screen_is_opened_and_closed_in_turn() {
    let (mut s, _) = Session::start();
    let evs = vec![
        history(&["a", "b"]),
        Event::Done,
        key("j"),
        key("d"),
        Event::Done,
        Event::Done,
        history(&["a"]),
        Event::Done,
        key("ENTER"),
        Event::Done,
        Event::Done,
        Event::Done,
    ];
    let mut open = false;
    let mut opened = 0;
    for ev in evs {
        match step(&mut s, ev) {
            Step::Open => {
                assert!(!open);
                open = true;
                opened += 1;
            }
            Step::Close => {
                assert!(open);
                open = false;
            }
            Step::Read | Step::Tell { .. } | Step::End => assert!(!open),
            Step::Show | Step::Own { .. } | Step::Flag | Step::Remove { .. } => assert!(open),
        }
    }
    assert_eq!(opened, 2);
    assert!(!open);
    assert!(!s.accepts(&Event::Done));
}

#[test]
fn a_key_that_could_not_be_had_shows_again() {
    let mut s = choosing(&["a"]);
    assert!(matches!(step(&mut s, Event::Key { key: None }), Step::Show));
    assert!(!s.accepts(&Event::Done));
    assert!(!s.accepts(&history(&["a"])));
}
