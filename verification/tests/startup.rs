use yank::startup::{claim, claim_holds, first_stage, proceed, Claim, Stage, Startup};

fn quits(s: Startup) -> (String, i32) {
    match s {
        Startup::Quit { line, code } => (line, code),
        _ => panic!("goes on"),
    }
}

#[test]
fn without_a_socket_the_recorder_runs() {
    assert!(matches!(claim(-1, 2), Claim::Granted));
}

#[test]
fn the_claim_is_an_abstract_name() {
    match claim(3, 2) {
        Claim::Bind { path, len } => {
            assert_eq!(path, b"\0yank-watch".to_vec());
            assert_eq!(len, 13);
        }
        Claim::Granted => panic!("not bound"),
    }
    assert!(claim_holds(0));
    assert!(!claim_holds(-1));
}

#[test]
fn the_start_goes_step_by_step() {
    assert!(matches!(first_stage(), Stage::Claim));
    assert!(matches!(
        proceed(Stage::Claim, true, ""),
        Startup::Next { stage: Stage::Connect }
    ));
    assert!(matches!(
        proceed(Stage::Connect, true, ""),
        Startup::Next { stage: Stage::Extension }
    ));
    assert!(matches!(proceed(Stage::Extension, true, ""), Startup::Ready));
}

#[test]
fn failures_are_told() {
    assert_eq!(
        quits(proceed(Stage::Claim, false, "x")),
        ("yank: watcher already running".to_string(), 0)
    );
    assert_eq!(
        quits(proceed(Stage::Connect, false, "no such host")),
        ("yank: no X display: no such host".to_string(), 1)
    );
    assert_eq!(
        quits(proceed(Stage::Extension, false, "x")),
        ("yank: XFixes unavailable".to_string(), 1)
    );
}
