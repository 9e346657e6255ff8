//! The command line: what the program is asked to do, and what it says of
//! itself.

use vstd::prelude::*;

use crate::digits::{parse_u32, u32_spelled};
use crate::text::same;

verus! {

/// What the program is asked to do.
pub enum Command {
    Help,
    Version,
    /// Record.
    Watch,
    /// Paste into a window.
    PasteInto { target: u32 },
    /// Nothing: a paste with no window.
    Nothing,
    /// Pick an entry.
    Pick,
}

pub open spec fn words(args: Seq<String>) -> Seq<Seq<char>> {
    args.map_values(|a: String| a@)
}

/// The window behind the first `--paste-into`, if there is one.
pub open spec fn paste_target(args: Seq<Seq<char>>) -> Option<u32> {
    let i = args.index_of_first("--paste-into"@);
    if i is Some && i->0 + 1 < args.len() {
        u32_spelled(args[i->0 + 1])
    } else {
        None
    }
}

/// Help comes before the version, the version before recording, recording
/// before pasting; without any of them, an entry is picked.
pub open spec fn command_of(args: Seq<Seq<char>>) -> Command {
    if args.contains("-h"@) || args.contains("--help"@) {
        Command::Help
    } else if args.contains("-v"@) || args.contains("--version"@) {
        Command::Version
    } else if args.contains("--watch"@) {
        Command::Watch
    } else if args.contains("--paste-into"@) {
        match paste_target(args) {
            Some(target) => Command::PasteInto { target },
            None => Command::Nothing,
        }
    } else {
        Command::Pick
    }
}

/// Where a word first stands.
fn position(args: &Vec<String>, word: &str) -> (r: Option<usize>)
    ensures
        match r {
            Some(i) => i < args@.len() && words(args@).contains(word@) && words(
                args@,
            ).index_of_first(word@) == Some(i as int),
            None => !words(args@).contains(word@),
        },
{
    let ghost w = words(args@);
    let mut i: usize = 0;
    while i < args.len()
        invariant
            w == words(args@),
            i <= args@.len(),
            forall|j: int| 0 <= j < i ==> #[trigger] w[j] != word@,
        decreases args@.len() - i,
    {
        proof {
            assert(w[i as int] == args@[i as int]@);
        }
        if same(args[i].as_str(), word) {
            proof {
                assert(w.contains(word@));
                w.index_of_first_ensures(word@);
                let k = w.index_of_first(word@)->0;
                if k < i {
                    assert(w[k] != word@);
                }
                if i < k {
                    assert(w[i as int] != word@);
                }
            }
            return Some(i);
        }
        i = i + 1;
    }
    None
}

fn mentions(args: &Vec<String>, word: &str) -> (r: bool)
    ensures
        r == words(args@).contains(word@),
{
    position(args, word).is_some()
}

/// What the arguments, without the program's own name, ask for.
pub fn command(args: &Vec<String>) -> (c: Command)
    ensures
        c == command_of(words(args@)),
{
    if mentions(args, "-h") || mentions(args, "--help") {
        return Command::Help;
    }
    if mentions(args, "-v") || mentions(args, "--version") {
        return Command::Version;
    }
    if mentions(args, "--watch") {
        return Command::Watch;
    }
    match position(args, "--paste-into") {
        Some(i) => {
            if i < args.len() - 1 {
                proof {
                    assert(words(args@)[i + 1] == args@[i + 1]@);
                }
                match parse_u32(args[i + 1].as_str()) {
                    Some(target) => Command::PasteInto { target },
                    None => Command::Nothing,
                }
            } else {
                Command::Nothing
            }
        },
        None => Command::Pick,
    }
}

/// The help, line by line.
pub fn help() -> (text: String)
    ensures
        text@ == "yank \u{2014} clipboard history (Fe2O3 suite)\n\nUsage: yank [--watch | --paste-into XID]\n\n  --watch          record CLIPBOARD and PRIMARY to ~/.yank/hist/\n  (no args)        pick an entry: Enter takes it, d deletes, q quits\n  --paste-into XID focus XID and send Shift+Insert (yank-pop runs\n                   this after the picker's terminal has closed)"@,
{
    "yank \u{2014} clipboard history (Fe2O3 suite)\n\nUsage: yank [--watch | --paste-into XID]\n\n  --watch          record CLIPBOARD and PRIMARY to ~/.yank/hist/\n  (no args)        pick an entry: Enter takes it, d deletes, q quits\n  --paste-into XID focus XID and send Shift+Insert (yank-pop runs\n                   this after the picker's terminal has closed)".to_owned()
}

/// The line that names the version.
pub fn version_line(version: &str) -> (line: String)
    ensures
        line@ == "yank "@ + version@,
{
    let mut line: String = "yank ".to_owned();
    line.append(version);
    line
}

/// The word is among the arguments.
pub open spec fn given(args: Seq<Seq<char>>, word: Seq<char>) -> bool {
    exists|i: int| 0 <= i < args.len() && #[trigger] args[i] == word
}

/// What the arguments ask for, wherever they stand and whatever else is given:
/// help where it is asked for; else the version where that is; else to record
/// where that is; else to pick an entry, unless pasting is asked for.
pub proof fn each_argument_is_heard(args: Seq<Seq<char>>)
    ensures
        command_of(args) is Help <==> given(args, "-h"@) || given(args, "--help"@),
        command_of(args) is Version <==> !(command_of(args) is Help) && (given(args, "-v"@)
            || given(args, "--version"@)),
        command_of(args) is Watch <==> !(command_of(args) is Help) && !(command_of(
            args,
        ) is Version) && given(args, "--watch"@),
        command_of(args) is PasteInto || command_of(args) is Nothing <==> !(command_of(
            args,
        ) is Help) && !(command_of(args) is Version) && !(command_of(args) is Watch) && given(
            args,
            "--paste-into"@,
        ),
{
    assert(args.contains("-h"@) <==> given(args, "-h"@));
    assert(args.contains("--help"@) <==> given(args, "--help"@));
    assert(args.contains("-v"@) <==> given(args, "-v"@));
    assert(args.contains("--version"@) <==> given(args, "--version"@));
    assert(args.contains("--watch"@) <==> given(args, "--watch"@));
    assert(args.contains("--paste-into"@) <==> given(args, "--paste-into"@));
}

/// The window to paste into is the number behind the first request for it; where
/// there is no number, nothing is done.
pub proof fn the_window_stands_behind_the_request(args: Seq<Seq<char>>, i: int)
    requires
        command_of(args) is PasteInto || command_of(args) is Nothing,
        0 <= i < args.len(),
        args[i] == "--paste-into"@,
        forall|j: int| 0 <= j < i ==> #[trigger] args[j] != "--paste-into"@,
    ensures
        i + 1 == args.len() ==> command_of(args) is Nothing,
        i + 1 < args.len() ==> command_of(args) == match u32_spelled(args[i + 1]) {
            Some(target) => Command::PasteInto { target },
            None => Command::Nothing,
        },
{
    let word = "--paste-into"@;
    assert(args.contains(word));
    args.index_of_first_ensures(word);
    let k = args.index_of_first(word)->0;
    if k < i {
        assert(args[k] != word);
    }
    if i < k {
        assert(args[i] != word);
    }
}

/// A window's number, as it is written, is the window that is pasted into.
pub proof fn any_window_can_be_pasted_into(target: u32)
    ensures
        command_of(seq!["--paste-into"@, crate::digits::decimal(target as nat)])
            == (Command::PasteInto { target }),
{
    let number = crate::digits::decimal(target as nat);
    let args = seq!["--paste-into"@, number];
    crate::digits::decimal_reads_back(target);
    crate::digits::decimal_spells(target as nat);
    reveal_strlit("-h");
    reveal_strlit("--help");
    reveal_strlit("-v");
    reveal_strlit("--version");
    reveal_strlit("--watch");
    reveal_strlit("--paste-into");
    assert(crate::digits::is_digit(number[0]));
    assert("--paste-into"@.len() == 12 && "-h"@.len() == 2 && "--help"@.len() == 6 && "-v"@.len()
        == 2 && "--version"@.len() == 9 && "--watch"@.len() == 7);
    assert("-h"@[0] == '-' && "--help"@[0] == '-' && "-v"@[0] == '-' && "--version"@[0] == '-'
        && "--watch"@[0] == '-' && "--paste-into"@[0] == '-');
    each_argument_is_heard(args);
    assert(args[0] == "--paste-into"@);
    assert(given(args, "--paste-into"@));
    the_window_stands_behind_the_request(args, 0);
}

/// The view of the arguments is each by its characters.
pub proof fn words_are_seen_by_their_characters(args: Seq<String>)
    ensures
        words(args).len() == args.len(),
        forall|i: int| 0 <= i < args.len() ==> #[trigger] words(args)[i] == args[i]@,
{
}

} // verus!
