//! The picker: a list of the history, newest first, with one entry selected.

use vstd::prelude::*;

use crate::digits::{decimal, push_decimal};
use crate::foreign::{bold_in, styled};
use crate::history::{copied, entries_of, Entry};
use crate::preview::{folds_to_nothing, one_line, preview, shortened};
use crate::text::{chars_of, same, string_of, viewed};

verus! {

/// How long the line for an empty history stays, in seconds.
pub const NOTICE_SECS: u64 = 2;

/// The list, and which entry of it is selected.
pub struct Picker {
    pub list: Vec<Entry>,
    pub sel: usize,
}

/// The same, by what the entries hold.
pub struct Listing {
    pub list: Seq<(Seq<u8>, Seq<char>)>,
    pub sel: nat,
}

/// What a key leads to.
pub enum Choice {
    /// The list is shown again.
    Show,
    /// The picker ends.
    Quit,
    /// An entry is taken: both selections are to own its text, the paste flag
    /// is left, and the picker ends.
    Take { text: String },
    /// An entry's file is to be removed, and the history read again.
    Delete { name: Vec<u8> },
}

/// What a key leads to, by characters and bytes.
pub enum Chosen {
    Show,
    Quit,
    Take { text: Seq<char> },
    Delete { name: Seq<u8> },
}

impl View for Picker {
    type V = Listing;

    open spec fn view(&self) -> Listing {
        Listing { list: entries_of(self.list@), sel: self.sel as nat }
    }
}

impl View for Choice {
    type V = Chosen;

    open spec fn view(&self) -> Chosen {
        match *self {
            Choice::Show => Chosen::Show,
            Choice::Quit => Chosen::Quit,
            Choice::Take { text } => Chosen::Take { text: text@ },
            Choice::Delete { name } => Chosen::Delete { name: name@ },
        }
    }
}

/// How many lines a screen leaves for entries.
pub open spec fn body_rows(rows: u16) -> nat {
    if rows > 2 {
        (rows - 2) as nat
    } else {
        0
    }
}

/// The header: how many entries there are.
pub open spec fn header_text(n: nat) -> Seq<char> {
    " yank \u{2014} "@ + decimal(n) + " entr"@ + (if n == 1 {
        "y"@
    } else {
        "ies"@
    }) + " "@
}

pub open spec fn spaces(k: nat) -> Seq<char> {
    Seq::new(k, |i: int| ' ')
}

/// A line filled up with spaces to a width.
pub open spec fn filled(line: Seq<char>, width: nat) -> Seq<char> {
    if line.len() < width {
        line + spaces((width - line.len()) as nat)
    } else {
        line
    }
}

/// An entry's line on a screen of some columns.
pub open spec fn entry_line(text: Seq<char>, cols: u16) -> Seq<char> {
    " "@ + shortened(one_line(text), (cols - 4) as nat)
}

/// `s` without the newlines at its end.
pub open spec fn without_final_newlines(s: Seq<char>) -> Seq<char>
    decreases s.len(),
{
    if s.len() > 0 && s.last() == '\n' {
        without_final_newlines(s.drop_last())
    } else {
        s
    }
}

impl Listing {
    /// There is an entry, and one is selected.
    pub open spec fn wf(self) -> bool {
        self.sel < self.list.len()
    }

    /// The first entry on the screen: the list is scrolled no further than to
    /// bring the selected entry to the last line.
    pub open spec fn top(self, rows: u16) -> nat {
        let room = if body_rows(rows) > 0 {
            (body_rows(rows) - 1) as nat
        } else {
            0
        };
        if self.sel > room {
            (self.sel - room) as nat
        } else {
            0
        }
    }

    /// The entry behind the last one on the screen.
    pub open spec fn end(self, rows: u16) -> nat {
        if self.top(rows) + body_rows(rows) < self.list.len() {
            self.top(rows) + body_rows(rows)
        } else {
            self.list.len()
        }
    }

    /// The screen is wide enough for every entry on it.
    pub open spec fn fits(self, cols: u16, rows: u16) -> bool {
        self.top(rows) < self.end(rows) ==> {
            &&& cols >= 4
            &&& cols == 4 ==> forall|i: int|
                self.top(rows) <= i < self.end(rows) ==> one_line(
                    (#[trigger] self.list[i]).1,
                ).len() == 0
        }
    }

    /// One line of the list, with its newline: the selected one stands out over
    /// the width of the screen.
    pub open spec fn row(self, i: int, cols: u16) -> Seq<char> {
        let line = entry_line(self.list[i].1, cols);
        if i == self.sel {
            "\x1b[48;5;238m"@ + filled(line, (cols - 2) as nat) + "\x1b[49m\n"@
        } else {
            line + "\n"@
        }
    }

    /// The lines from one entry up to another.
    pub open spec fn rows(self, from: int, to: int, cols: u16) -> Seq<char>
        decreases to - from,
    {
        if from >= to {
            Seq::empty()
        } else {
            self.rows(from, to - 1, cols) + self.row(to - 1, cols)
        }
    }

    /// Everything that is shown.
    pub open spec fn screen(self, cols: u16, rows: u16) -> Seq<char> {
        without_final_newlines(
            bold_in(header_text(self.list.len()), 231, 234) + "\n"@ + self.rows(
                self.top(rows) as int,
                self.end(rows) as int,
                cols,
            ),
        )
    }

    pub open spec fn selecting(self, sel: nat) -> Listing {
        Listing { list: self.list, sel }
    }

    /// What a key leads to; none is a key that could not be had.
    pub open spec fn pressed(self, key: Option<Seq<char>>) -> (Listing, Chosen) {
        if key == Some("q"@) || key == Some("Q"@) || key == Some("ESC"@) {
            (self, Chosen::Quit)
        } else if key == Some("UP"@) || key == Some("k"@) {
            (
                self.selecting(
                    if self.sel > 0 {
                        (self.sel - 1) as nat
                    } else {
                        0
                    },
                ),
                Chosen::Show,
            )
        } else if key == Some("DOWN"@) || key == Some("j"@) {
            (
                self.selecting(
                    if self.sel + 1 < self.list.len() {
                        self.sel + 1
                    } else {
                        self.sel
                    },
                ),
                Chosen::Show,
            )
        } else if key == Some("ENTER"@) {
            (self, Chosen::Take { text: self.list[self.sel as int].1 })
        } else if key == Some("d"@) {
            (self, Chosen::Delete { name: self.list[self.sel as int].0 })
        } else {
            (self, Chosen::Show)
        }
    }
}

/// The line for an empty history.
pub fn nothing_yet() -> (line: String)
    ensures
        line@ == "yank: no history yet (is `yank --watch` running?)"@,
{
    "yank: no history yet (is `yank --watch` running?)".to_owned()
}

/// The header above the list.
pub fn header(n: usize) -> (line: String)
    ensures
        line@ == header_text(n as nat),
{
    let mut line: String = " yank \u{2014} ".to_owned();
    push_decimal(&mut line, n as u128);
    line.append(" entr");
    if n == 1 {
        line.append("y");
    } else {
        line.append("ies");
    }
    line.append(" ");
    line
}

fn push_filled(out: &mut String, line: &str, width: usize)
    ensures
        final(out)@ == old(out)@ + filled(line@, width as nat),
{
    let ghost start = out@;
    let len: usize = chars_of(line).len();
    out.append(line);
    let mut k: usize = len;
    while k < width
        invariant
            len == line@.len(),
            len <= k,
            k <= width || k == len,
            out@ == start + line@ + spaces((k - len) as nat),
        decreases width - k,
    {
        out.push(' ');
        proof {
            assert(out@ =~= start + line@ + spaces((k + 1 - len) as nat));
        }
        k = k + 1;
    }
    proof {
        assert(out@ =~= start + filled(line@, width as nat));
    }
}

fn drop_final_newlines(s: &str) -> (r: String)
    ensures
        r@ == without_final_newlines(s@),
{
    let v: Vec<char> = chars_of(s);
    let mut n: usize = v.len();
    proof {
        assert(v@.take(n as int) =~= v@);
    }
    while n > 0 && v[n - 1] == '\n'
        invariant
            n <= v@.len(),
            v@ == s@,
            without_final_newlines(s@) == without_final_newlines(v@.take(n as int)),
        decreases n,
    {
        proof {
            assert(v@.take(n as int).drop_last() =~= v@.take(n - 1));
        }
        n = n - 1;
    }
    let r: String = string_of(&v, 0, n);
    proof {
        assert(r@ =~= v@.take(n as int));
    }
    r
}

impl Picker {
    /// Opens the picker on a history, with the newest entry selected; there is
    /// none where the history is empty.
    pub fn open(list: Vec<Entry>) -> (p: Option<Picker>)
        ensures
            match p {
                Some(p) => list@.len() > 0 && p@.wf() && p.list@ == list@ && p.sel == 0,
                None => list@.len() == 0,
            },
    {
        if list.len() == 0 {
            None
        } else {
            Some(Picker { list, sel: 0 })
        }
    }

    fn top_row(&self, rows: u16) -> (top: usize)
        ensures
            top == self@.top(rows),
    {
        let body: usize = if rows > 2 {
            (rows - 2) as usize
        } else {
            0
        };
        let room: usize = if body > 0 {
            body - 1
        } else {
            0
        };
        if self.sel > room {
            self.sel - room
        } else {
            0
        }
    }

    fn end_row(&self, rows: u16) -> (end: usize)
        requires
            self@.wf(),
        ensures
            end == self@.end(rows),
    {
        let top: usize = self.top_row(rows);
        let body: usize = if rows > 2 {
            (rows - 2) as usize
        } else {
            0
        };
        let n: usize = self.list.len();
        if body < n - top {
            top + body
        } else {
            n
        }
    }

    /// Whether the screen is wide enough for every entry on it.
    pub fn can_show(&self, cols: u16, rows: u16) -> (r: bool)
        requires
            self@.wf(),
        ensures
            r == self@.fits(cols, rows),
    {
        let top: usize = self.top_row(rows);
        let end: usize = self.end_row(rows);
        if top >= end || cols > 4 {
            return true;
        }
        if cols < 4 {
            return false;
        }
        let ghost v = self@;
        let mut i: usize = top;
        while i < end
            invariant
                v == self@,
                cols == 4,
                top == v.top(rows),
                end == v.end(rows),
                top <= i <= end <= v.list.len(),
                v.list.len() == self.list@.len(),
                forall|j: int|
                    top <= j < i ==> one_line((#[trigger] v.list[j]).1).len() == 0,
            decreases end - i,
        {
            proof {
                assert(v.list[i as int].1 == self.list@[i as int].text@);
            }
            if !folds_to_nothing(self.list[i].text.as_str()) {
                return false;
            }
            i = i + 1;
        }
        true
    }

    fn push_row(&self, out: &mut String, i: usize, cols: u16)
        requires
            i < self.list@.len(),
            cols >= 4,
            cols > 4 || one_line(self@.list[i as int].1).len() == 0,
        ensures
            final(out)@ == old(out)@ + self@.row(i as int, cols),
    {
        let ghost start = out@;
        let mut line: String = " ".to_owned();
        line.append(preview(self.list[i].text.as_str(), cols as usize - 4).as_str());
        proof {
            assert(line@ == entry_line(self@.list[i as int].1, cols));
        }
        if i == self.sel {
            out.append("\x1b[48;5;238m");
            push_filled(out, line.as_str(), cols as usize - 2);
            out.append("\x1b[49m\n");
        } else {
            out.append(line.as_str());
            out.append("\n");
        }
        proof {
            assert(out@ =~= start + self@.row(i as int, cols));
        }
    }

    /// The screen: the header, and the lines around the selected entry.
    pub fn screen(&self, cols: u16, rows: u16) -> (text: String)
        requires
            self@.wf(),
            self@.fits(cols, rows),
        ensures
            text@ == self@.screen(cols, rows),
    {
        let top: usize = self.top_row(rows);
        let end: usize = self.end_row(rows);
        let mut out: String = styled(header(self.list.len()).as_str(), 231, 234, "b");
        out.append("\n");
        let ghost v = self@;
        let ghost head = out@;
        proof {
            assert(v.list.len() == self.list@.len());
            assert(head + v.rows(top as int, top as int, cols) =~= head);
        }
        let mut i: usize = top;
        while i < end
            invariant
                v == self@,
                v.list.len() == self.list@.len(),
                v.fits(cols, rows),
                top == v.top(rows),
                end == v.end(rows),
                top <= i,
                i <= end || i == top,
                end <= v.list.len(),
                out@ == head + v.rows(top as int, i as int, cols),
            decreases end - i,
        {
            proof {
                assert(cols >= 4 && (cols > 4 || one_line(v.list[i as int].1).len() == 0));
            }
            self.push_row(&mut out, i, cols);
            proof {
                assert(out@ =~= head + v.rows(top as int, i + 1, cols));
            }
            i = i + 1;
        }
        drop_final_newlines(out.as_str())
    }

    /// Takes a key, and says what is to be done about it.
    pub fn press(&mut self, key: Option<&str>) -> (choice: Choice)
        requires
            old(self)@.wf(),
        ensures
            final(self)@.wf(),
            (final(self)@, choice@) == old(self)@.pressed(viewed(key)),
    {
        let k: &str = match key {
            Some(k) => k,
            None => return Choice::Show,
        };
        if same(k, "q") || same(k, "Q") || same(k, "ESC") {
            return Choice::Quit;
        }
        if same(k, "UP") || same(k, "k") {
            if self.sel > 0 {
                self.sel = self.sel - 1;
            }
            return Choice::Show;
        }
        if same(k, "DOWN") || same(k, "j") {
            if self.sel < self.list.len() - 1 {
                self.sel = self.sel + 1;
            }
            return Choice::Show;
        }
        if same(k, "ENTER") {
            return Choice::Take { text: self.list[self.sel].text.clone() };
        }
        if same(k, "d") {
            return Choice::Delete { name: copied(&self.list[self.sel].name) };
        }
        Choice::Show
    }
}

/// The commands that own the selections: each takes the text on its standard
/// input and outlives the picker.
pub fn own_selections() -> (commands: Vec<Vec<String>>)
    ensures
        commands@.len() == 2,
        forall|i: int|
            0 <= i < 2 ==> (#[trigger] commands@[i])@.len() == 4 && commands@[i]@[0]@ == "setsid"@
                && commands@[i]@[1]@ == "xclip"@ && commands@[i]@[2]@ == "-selection"@,
        commands@[0]@[3]@ == "clipboard"@,
        commands@[1]@[3]@ == "primary"@,
{
    let mut commands: Vec<Vec<String>> = Vec::new();
    commands.push(owner("clipboard"));
    commands.push(owner("primary"));
    commands
}

fn owner(selection: &str) -> (argv: Vec<String>)
    ensures
        argv@.len() == 4,
        argv@[0]@ == "setsid"@,
        argv@[1]@ == "xclip"@,
        argv@[2]@ == "-selection"@,
        argv@[3]@ == selection@,
{
    let mut argv: Vec<String> = Vec::new();
    argv.push("setsid".to_owned());
    argv.push("xclip".to_owned());
    argv.push("-selection".to_owned());
    argv.push(selection.to_owned());
    argv
}

} // verus!
