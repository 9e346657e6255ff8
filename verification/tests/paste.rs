use yank::paste::{keystroke, Action, Event, Paste, MAX_ASKS};

fn step(p: &mut Paste, ev: Event) -> Action {
    assert!(p.accepts(&ev));
    p.step(ev)
}

fn looking(target: u32) -> Paste {
    let (mut p, first) = Paste::start(target);
    assert!(matches!(first, Action::Pause { millis: 250 }));
    assert!(matches!(step(&mut p, Event::Paused), Action::Connect));
    assert!(matches!(step(&mut p, Event::Connected { ok: true }), Action::Look));
    p
}

/// Answers the questions about the focus, and says whether the key was pressed.
fn pressed(p: &mut Paste, answers: &[Option<u32>]) -> bool {
    let mut waited = 0;
    for (i, window) in answers.iter().enumerate() {
        assert!(matches!(step(p, Event::Paused), Action::AskFocus));
        waited += 50;
        match step(p, Event::Focus { window: *window }) {
            Action::Pause { millis: 50 } => {}
            Action::Pause { millis: 120 } => {
                assert_eq!(i + 1, answers.len());
                assert!(matches!(step(p, Event::Paused), Action::Press));
                assert!(matches!(step(p, Event::Pressed), Action::Stop));
                return true;
            }
            Action::Stop => {
                assert_eq!(i + 1, answers.len());
                assert_eq!(waited, 1000);
                return false;
            }
            _ => panic!("out of turn"),
        }
    }
    panic!("still waiting");
}

#[test]
fn the_window_is_activated() {
    let mut p = looking(42);
    assert!(matches!(
        step(&mut p, Event::Found { atom: Some(300) }),
        Action::Activate { format: 32, window: 42, kind: 300, data: [2, 0, 0, 0, 0] }
    ));
    assert!(matches!(step(&mut p, Event::Sent), Action::Pause { millis: 50 }));
    assert!(pressed(&mut p, &[Some(42)]));
}

#[test]
fn without_the_atom_the_focus_is_only_waited_for() {
    let mut p = looking(42);
    assert!(matches!(
        step(&mut p, Event::Found { atom: None }),
        Action::Pause { millis: 50 }
    ));
    assert!(pressed(&mut p, &[Some(7), None, Some(42)]));
}

#[test]
fn the_last_answer_counts() {
    let mut p = looking(42);
    step(&mut p, Event::Found { atom: None });
    let mut answers = vec![Some(7); 19];
    answers.push(Some(42));
    assert!(pressed(&mut p, &answers));
}

#[test]
fn without_the_focus_nothing_is_pasted() {
    assert_eq!(MAX_ASKS, 20);
    let mut p = looking(42);
    step(&mut p, Event::Found { atom: None });
    assert!(!pressed(&mut p, &[Some(7); 20]));
    let mut q = looking(42);
    step(&mut q, Event::Found { atom: None });
    assert!(!pressed(&mut q, &[None; 20]));
}

#[test]
fn an_answer_that_fails_is_the_window_zero() {
    let mut p = looking(0);
    step(&mut p, Event::Found { atom: None });
    assert!(pressed(&mut p, &[None]));
}

#[test]
fn without_a_display_the_key_is_sent_at_once() {
    let (mut p, _) = Paste::start(42);
    step(&mut p, Event::Paused);
    assert!(matches!(step(&mut p, Event::Connected { ok: false }), Action::Press));
    assert!(matches!(step(&mut p, Event::Pressed), Action::Stop));
    assert!(!p.accepts(&Event::Paused));
}

#[test]
fn events_come_in_turn() {
    let (p, _) = Paste::start(42);
    assert!(p.accepts(&Event::Paused));
    assert!(!p.accepts(&Event::Sent));
    assert!(!p.accepts(&Event::Focus { window: Some(42) }));
}

#[test]
fn the_keystroke_is_one_command() {
    assert_eq!(keystroke(), vec!["xdotool", "key", "shift+Insert"]);
}
