use yank::recorder::{buttons_held, Action, Atoms, Event, Phase, Recorder, MAX_ENTRY, MAX_POLLS};

fn atoms() -> Atoms {
    Atoms { clipboard: 70, utf8: 71, incr: 72, dest: 73 }
}

fn recorder() -> Recorder {
    Recorder::new(atoms(), None)
}

fn step(r: &mut Recorder, ev: Event) -> Action {
    assert!(r.accepts(&ev));
    r.step(ev)
}

fn copy(r: &mut Recorder, value: &[u8]) -> Option<String> {
    let fetch = step(r, Event::Converted { property: 73 });
    assert!(matches!(fetch, Action::Fetch { property: 73, length: 16385 }));
    match step(r, Event::Property { kind: 71, value: value.to_vec() }) {
        Action::Store { text } => Some(text),
        Action::Wait => None,
        _ => panic!("neither stored nor passed over"),
    }
}

#[test]
fn both_selections_are_watched() {
    assert_eq!(atoms().subscriptions(), vec![70, 1]);
}

#[test]
fn the_clipboard_is_converted_at_once() {
    let mut r = recorder();
    assert!(matches!(
        step(&mut r, Event::Owner { selection: 70 }),
        Action::Convert { selection: 70, target: 71, property: 73 }
    ));
    assert!(matches!(r.phase, Phase::Idle));
}

#[test]
fn a_free_pointer_lets_the_mouse_selection_through() {
    for mask in [None, Some(0), Some(0x00ff), Some(0x1800)] {
        let mut r = recorder();
        assert!(matches!(step(&mut r, Event::Owner { selection: 1 }), Action::AskPointer));
        assert!(matches!(
            step(&mut r, Event::Pointer { mask }),
            Action::Convert { selection: 1, target: 71, property: 73 }
        ));
    }
}

#[test]
fn the_first_three_buttons_hold() {
    assert!(buttons_held(Some(0x100)));
    assert!(buttons_held(Some(0x200)));
    assert!(buttons_held(Some(0x400)));
    assert!(buttons_held(Some(0xffff)));
    assert!(!buttons_held(Some(0x800)));
    assert!(!buttons_held(Some(0x10ff)));
    assert!(!buttons_held(None));
}

#[test]
fn a_drag_is_waited_out() {
    let mut r = recorder();
    assert!(matches!(step(&mut r, Event::Owner { selection: 1 }), Action::AskPointer));
    for _ in 0..3 {
        assert!(matches!(
            step(&mut r, Event::Pointer { mask: Some(0x100) }),
            Action::Pause { millis: 100 }
        ));
        assert!(matches!(step(&mut r, Event::Paused), Action::AskPointer));
    }
    assert!(matches!(
        step(&mut r, Event::Pointer { mask: Some(0) }),
        Action::Convert { selection: 1, .. }
    ));
}

#[test]
fn a_drag_without_end_is_given_up() {
    let mut r = recorder();
    let mut asked = 0;
    let mut action = step(&mut r, Event::Owner { selection: 1 });
    loop {
        action = match action {
            Action::AskPointer => {
                asked += 1;
                step(&mut r, Event::Pointer { mask: Some(0x200) })
            }
            Action::Pause { .. } => step(&mut r, Event::Paused),
            Action::Convert { selection, .. } => {
                assert_eq!(selection, 1);
                break;
            }
            _ => panic!("out of turn"),
        };
    }
    assert_eq!(asked, MAX_POLLS);
}

#[test]
fn events_out_of_turn_are_not_accepted() {
    let mut r = recorder();
    assert!(!r.accepts(&Event::Paused));
    assert!(!r.accepts(&Event::NoProperty));
    step(&mut r, Event::Owner { selection: 1 });
    assert!(!r.accepts(&Event::Owner { selection: 70 }));
    assert!(!r.accepts(&Event::Gone));
    assert!(r.accepts(&Event::Pointer { mask: None }));
}

#[test]
fn an_owner_without_text_is_passed_over() {
    let mut r = recorder();
    assert!(matches!(step(&mut r, Event::Converted { property: 0 }), Action::Wait));
    assert!(matches!(r.phase, Phase::Idle));
}

#[test]
fn a_property_that_cannot_be_had_is_passed_over() {
    let mut r = recorder();
    step(&mut r, Event::Converted { property: 73 });
    assert!(matches!(step(&mut r, Event::NoProperty), Action::Wait));
    assert!(matches!(r.phase, Phase::Idle));
}

#[test]
fn incremental_transfers_are_passed_over() {
    let mut r = recorder();
    step(&mut r, Event::Converted { property: 73 });
    let ev = Event::Property { kind: 72, value: b"text".to_vec() };
    assert!(matches!(step(&mut r, ev), Action::Wait));
    assert_eq!(r.last, "");
}

#[test]
fn text_is_stored_as_it_is() {
    let mut r = recorder();
    assert_eq!(copy(&mut r, b"  spaced \n"), Some("  spaced \n".to_string()));
    assert_eq!(r.last, "  spaced \n");
    assert_eq!(copy(&mut r, "\u{e6}\u{1f600}".as_bytes()), Some("\u{e6}\u{1f600}".to_string()));
}

#[test]
fn invalid_bytes_are_replaced() {
    let mut r = recorder();
    assert_eq!(copy(&mut r, b"a\xffb"), Some("a\u{fffd}b".to_string()));
    assert_eq!(copy(&mut r, b"\xff"), Some("\u{fffd}".to_string()));
}

#[test]
fn blank_text_is_passed_over() {
    let mut r = recorder();
    assert_eq!(copy(&mut r, b""), None);
    assert_eq!(copy(&mut r, b" \n\t "), None);
    assert_eq!(copy(&mut r, "\u{3000}\u{85}".as_bytes()), None);
    assert_eq!(r.last, "");
}

#[test]
fn large_text_is_passed_over() {
    let mut r = recorder();
    assert_eq!(MAX_ENTRY, 65536);
    assert_eq!(copy(&mut r, &vec![b'x'; 65537]), None);
    assert_eq!(copy(&mut r, &vec![b'x'; 65536]), Some("x".repeat(65536)));
    assert_eq!(copy(&mut r, "\u{e6}".repeat(32769).as_bytes()), None);
    assert_eq!(copy(&mut r, "\u{e6}".repeat(32768).as_bytes()), Some("\u{e6}".repeat(32768)));
}

#[test]
fn large_text_cut_inside_a_character_is_passed_over() {
    for lead in 0..4 {
        for c in ["\u{e6}", "\u{20ac}", "\u{1f600}"] {
            let whole = "x".repeat(lead) + &c.repeat(40000);
            let value = &whole.as_bytes()[..65540];
            let mut r = recorder();
            assert_eq!(copy(&mut r, value), None);
            assert_eq!(r.last, "");
        }
    }
    let odd = "x".to_string() + &"\u{e6}".repeat(40000);
    assert!(!odd.is_char_boundary(65540));
}

#[test]
fn large_copies_that_are_no_text_are_passed_over() {
    let pieces: [&[u8]; 8] = [
        b"\xff",
        b"\xc3x",
        b"\xe2\x82",
        b"\xe2\x82x",
        b"\xf0\x9f\x98",
        b"\xf0\x9f\x98x",
        b"\xed\xa0\x80",
        b"\xf4\x90\x80\x80",
    ];
    for piece in pieces {
        for size in [65537, 65540] {
            let value = &piece.repeat(65540)[..size];
            assert!(String::from_utf8_lossy(value).len() >= size);
            let mut r = recorder();
            assert_eq!(copy(&mut r, value), None);
            assert_eq!(r.last, "");
        }
    }
}

#[test]
fn the_bound_is_on_the_text_with_its_replacements() {
    let mut r = recorder();
    assert_eq!(copy(&mut r, &vec![0xff; 21846]), None);
    assert_eq!(copy(&mut r, &vec![0xff; 21845]), Some("\u{fffd}".repeat(21845)));
    let three = b"\xf0\x9f\x98".repeat(21845);
    assert_eq!(copy(&mut r, b"a"), Some("a".to_string()));
    assert_eq!(copy(&mut r, &three), Some("\u{fffd}".repeat(21845)));
}

#[test]
fn no_text_is_stored_twice_in_a_row() {
    let mut r = recorder();
    assert_eq!(copy(&mut r, b"a"), Some("a".to_string()));
    assert_eq!(copy(&mut r, b"a"), None);
    assert_eq!(copy(&mut r, b" "), None);
    assert_eq!(copy(&mut r, b"a"), None);
    assert_eq!(copy(&mut r, b"b"), Some("b".to_string()));
    assert_eq!(copy(&mut r, b"a"), Some("a".to_string()));
}

#[test]
fn the_newest_entry_counts_as_stored() {
    let mut r = Recorder::new(atoms(), Some("a".to_string()));
    assert_eq!(copy(&mut r, b"a"), None);
    assert_eq!(copy(&mut r, b"b"), Some("b".to_string()));
}

#[test]
fn offered_text_is_judged() {
    let mut r = recorder();
    assert!(matches!(r.offer("x".to_string()), Action::Store { text } if text == "x"));
    assert!(matches!(r.offer("x".to_string()), Action::Wait));
    assert!(matches!(r.offer("\t".to_string()), Action::Wait));
}

#[test]
fn other_events_change_nothing() {
    let mut r = recorder();
    assert!(matches!(step(&mut r, Event::Other), Action::Wait));
    assert!(matches!(r.phase, Phase::Idle));
}

#[test]
fn without_a_display_the_recorder_stops() {
    let mut r = recorder();
    assert!(matches!(step(&mut r, Event::Gone), Action::Stop));
}
