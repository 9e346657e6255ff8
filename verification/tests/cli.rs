use yank::cli::{command, help, version_line, Command};

fn parsed(args: &[&str]) -> Command {
    command(&args.iter().map(|a| a.to_string()).collect())
}

#[test]
fn without_arguments_an_entry_is_picked() {
    assert!(matches!(parsed(&[]), Command::Pick));
    assert!(matches!(parsed(&["other", "-x"]), Command::Pick));
}

#[test]
fn help_comes_first() {
    assert!(matches!(parsed(&["-h"]), Command::Help));
    assert!(matches!(parsed(&["--help"]), Command::Help));
    assert!(matches!(parsed(&["--watch", "-v", "-h"]), Command::Help));
}

#[test]
fn the_version_comes_before_recording() {
    assert!(matches!(parsed(&["-v"]), Command::Version));
    assert!(matches!(parsed(&["--watch", "--version"]), Command::Version));
}

#[test]
fn recording_comes_before_pasting() {
    assert!(matches!(parsed(&["--paste-into", "5", "--watch"]), Command::Watch));
}

#[test]
fn a_window_is_pasted_into() {
    assert!(matches!(
        parsed(&["--paste-into", "41943046"]),
        Command::PasteInto { target: 41943046 }
    ));
    assert!(matches!(
        parsed(&["x", "--paste-into", "+7", "--paste-into", "8"]),
        Command::PasteInto { target: 7 }
    ));
}

#[test]
fn a_paste_without_a_window_is_nothing() {
    assert!(matches!(parsed(&["--paste-into"]), Command::Nothing));
    assert!(matches!(parsed(&["--paste-into", "0x10"]), Command::Nothing));
    assert!(matches!(parsed(&["--paste-into", "4294967296"]), Command::Nothing));
    assert!(matches!(parsed(&["--paste-into", "x", "--paste-into", "8"]), Command::Nothing));
}

#[test]
fn the_help_is_told() {
    let text = help();
    let lines: Vec<&str> = text.lines().collect();
    assert_eq!(
        lines,
        vec![
            "yank \u{2014} clipboard history (Fe2O3 suite)",
            "",
            "Usage: yank [--watch | --paste-into XID]",
            "",
            "  --watch          record CLIPBOARD and PRIMARY to ~/.yank/hist/",
            "  (no args)        pick an entry: Enter takes it, d deletes, q quits",
            "  --paste-into XID focus XID and send Shift+Insert (yank-pop runs",
            "                   this after the picker's terminal has closed)",
        ]
    );
}

#[test]
fn the_version_is_told() {
    assert_eq!(version_line("1.2.3"), "yank 1.2.3");
}
