//! What holds of the picker: moving, and what is on the screen.

use vstd::prelude::*;

use crate::digits::{decimal, is_digit};
use crate::foreign::bold_in;
use crate::picker::{
    body_rows, entry_line, filled, header_text, without_final_newlines, Choice, Chosen, Listing,
    Picker,
};
use crate::preview::{one_line, shortened};
use crate::text::is_control;

verus! {

/// Whatever key is pressed, the list stays and an entry stays selected.
pub proof fn keys_keep_the_list(p: Listing, key: Option<Seq<char>>)
    requires
        p.wf(),
    ensures
        p.pressed(key).0.wf(),
        p.pressed(key).0.list == p.list,
{
}

proof fn lemma_move_keys()
    ensures
        "DOWN"@ != "UP"@,
        "DOWN"@ != "k"@,
        "j"@ != "UP"@,
        "j"@ != "k"@,
        "DOWN"@ != "q"@,
        "DOWN"@ != "Q"@,
        "DOWN"@ != "ESC"@,
        "j"@ != "q"@,
        "j"@ != "Q"@,
        "j"@ != "ESC"@,
        "UP"@ != "q"@,
        "UP"@ != "Q"@,
        "UP"@ != "ESC"@,
        "k"@ != "q"@,
        "k"@ != "Q"@,
        "k"@ != "ESC"@,
{
    reveal_strlit("DOWN");
    reveal_strlit("UP");
    reveal_strlit("ESC");
    reveal_strlit("j");
    reveal_strlit("k");
    reveal_strlit("q");
    reveal_strlit("Q");
    assert("DOWN"@.len() == 4 && "ESC"@.len() == 3 && "UP"@.len() == 2);
    assert("j"@[0] == 'j' && "k"@[0] == 'k' && "q"@[0] == 'q' && "Q"@[0] == 'Q');
}

pub open spec fn is_down(key: Seq<char>) -> bool {
    key == "DOWN"@ || key == "j"@
}

pub open spec fn is_up(key: Seq<char>) -> bool {
    key == "UP"@ || key == "k"@
}

/// Up undoes down, except on the last entry.
pub proof fn up_undoes_down(p: Listing, down: Seq<char>, up: Seq<char>)
    requires
        p.sel + 1 < p.list.len(),
        is_down(down),
        is_up(up),
    ensures
        p.pressed(Some(down)).0.pressed(Some(up)).0 == p,
{
    lemma_move_keys();
}

/// Down undoes up, except on the first entry.
pub proof fn down_undoes_up(p: Listing, up: Seq<char>, down: Seq<char>)
    requires
        p.wf(),
        p.sel > 0,
        is_up(up),
        is_down(down),
    ensures
        p.pressed(Some(up)).0.pressed(Some(down)).0 == p,
{
    lemma_move_keys();
}

/// The selected entry is on the screen, on any that has a line for it.
pub proof fn selected_entry_is_on_the_screen(p: Listing, rows: u16)
    requires
        p.wf(),
        body_rows(rows) > 0,
    ensures
        p.top(rows) <= p.sel < p.end(rows),
{
}

/// A screen has no more entries than lines for them.
pub proof fn entries_fit_the_rows(p: Listing, rows: u16)
    requires
        p.wf(),
    ensures
        p.top(rows) <= p.end(rows) <= p.list.len(),
        p.end(rows) - p.top(rows) <= body_rows(rows),
{
}

/// Every line fits the columns: an entry's line leaves three of them free, and
/// the selected one is filled up to two.
pub proof fn lines_fit_the_columns(p: Listing, cols: u16, rows: u16, i: int)
    requires
        p.wf(),
        p.fits(cols, rows),
        p.top(rows) <= i < p.end(rows),
    ensures
        entry_line(p.list[i].1, cols).len() <= cols - 3,
        filled(entry_line(p.list[i].1, cols), (cols - 2) as nat).len() == cols - 2,
        forall|k: int|
            0 <= k < entry_line(p.list[i].1, cols).len() ==> !is_control(
                #[trigger] entry_line(p.list[i].1, cols)[k],
            ),
{
    let t = p.list[i].1;
    reveal_strlit(" ");
    let max = (cols - 4) as nat;
    crate::preview::preview_is_one_line(t, max);
    let line = entry_line(t, cols);
    assert forall|k: int| 0 <= k < line.len() implies !is_control(#[trigger] line[k]) by {
        if k == 0 {
            assert(line[0] == ' ');
        } else {
            assert(line[k] == shortened(one_line(t), max)[k - 1]);
        }
    }
}

/// How many newlines there are.
pub open spec fn newlines(s: Seq<char>) -> nat
    decreases s.len(),
{
    if s.len() == 0 {
        0
    } else {
        newlines(s.drop_last()) + if s.last() == '\n' {
            1nat
        } else {
            0nat
        }
    }
}

proof fn lemma_newlines_of_sum(a: Seq<char>, b: Seq<char>)
    ensures
        newlines(a + b) == newlines(a) + newlines(b),
    decreases b.len(),
{
    if b.len() == 0 {
        assert(a + b =~= a);
    } else {
        assert((a + b).drop_last() =~= a + b.drop_last());
        lemma_newlines_of_sum(a, b.drop_last());
    }
}

proof fn lemma_no_newlines(s: Seq<char>)
    requires
        forall|i: int| 0 <= i < s.len() ==> #[trigger] s[i] != '\n',
    ensures
        newlines(s) == 0,
    decreases s.len(),
{
    if s.len() > 0 {
        let f = s.drop_last();
        assert forall|i: int| 0 <= i < f.len() implies #[trigger] f[i] != '\n' by {
            assert(f[i] == s[i]);
        }
        lemma_no_newlines(f);
    }
}

/// A row ends in its only newline, with something before it.
proof fn lemma_row(p: Listing, cols: u16, rows: u16, i: int)
    requires
        p.wf(),
        p.fits(cols, rows),
        p.top(rows) <= i < p.end(rows),
    ensures
        newlines(p.row(i, cols)) == 1,
        p.row(i, cols).len() >= 2,
        p.row(i, cols).last() == '\n',
        p.row(i, cols)[p.row(i, cols).len() - 2] != '\n',
{
    lines_fit_the_columns(p, cols, rows, i);
    let line = entry_line(p.list[i].1, cols);
    reveal_strlit("\x1b[48;5;238m");
    reveal_strlit("\x1b[49m\n");
    reveal_strlit("\n");
    reveal_strlit(" ");
    let body = if i == p.sel {
        "\x1b[48;5;238m"@ + filled(line, (cols - 2) as nat) + "\x1b[49m"@
    } else {
        line
    };
    reveal_strlit("\x1b[49m");
    let row = p.row(i, cols);
    assert(row =~= body.push('\n'));
    assert forall|k: int| 0 <= k < body.len() implies #[trigger] body[k] != '\n' by {
        if i == p.sel {
            let f = filled(line, (cols - 2) as nat);
            let a = "\x1b[48;5;238m"@;
            if k < a.len() {
                assert(body[k] == a[k]);
            } else if k < a.len() + f.len() {
                assert(body[k] == f[k - a.len()]);
                if k - a.len() < line.len() {
                    assert(f[k - a.len()] == line[k - a.len()]);
                } else {
                    assert(f[k - a.len()] == ' ');
                }
            } else {
                assert(body[k] == "\x1b[49m"@[k - a.len() - f.len()]);
            }
        } else {
            assert(!is_control(line[k]));
        }
    }
    assert(row.drop_last() =~= body);
    lemma_no_newlines(body);
    assert(row[row.len() - 2] == body[body.len() - 1]);
}

proof fn lemma_rows(p: Listing, cols: u16, rows: u16, to: int)
    requires
        p.wf(),
        p.fits(cols, rows),
        p.top(rows) <= to <= p.end(rows),
    ensures
        newlines(p.rows(p.top(rows) as int, to, cols)) == to - p.top(rows),
        to > p.top(rows) ==> {
            let r = p.rows(p.top(rows) as int, to, cols);
            r.len() >= 2 && r.last() == '\n' && r[r.len() - 2] != '\n'
        },
    decreases to - p.top(rows),
{
    if to > p.top(rows) {
        lemma_rows(p, cols, rows, to - 1);
        lemma_row(p, cols, rows, to - 1);
        let f = p.rows(p.top(rows) as int, to - 1, cols);
        lemma_newlines_of_sum(f, p.row(to - 1, cols));
    }
}

proof fn lemma_header(n: nat)
    ensures
        bold_in(header_text(n), 231, 234).len() > 0,
        bold_in(header_text(n), 231, 234).last() != '\n',
        newlines(bold_in(header_text(n), 231, 234)) == 0,
{
    reveal_strlit("\x1b[38;5;");
    reveal_strlit(";48;5;");
    reveal_strlit(";1m");
    reveal_strlit("\x1b[0m");
    reveal_strlit(" yank \u{2014} ");
    reveal_strlit(" entr");
    reveal_strlit("y");
    reveal_strlit("ies");
    reveal_strlit(" ");
    let e = if n == 1 {
        "y"@
    } else {
        "ies"@
    };
    lemma_decimal_is_plain(n);
    lemma_decimal_is_plain(231);
    lemma_decimal_is_plain(234);
    lemma_no_newlines(" yank \u{2014} "@);
    lemma_no_newlines(" entr"@);
    lemma_no_newlines(e);
    lemma_no_newlines(" "@);
    lemma_newlines_of_sum(" yank \u{2014} "@, decimal(n));
    lemma_newlines_of_sum(" yank \u{2014} "@ + decimal(n), " entr"@);
    lemma_newlines_of_sum(" yank \u{2014} "@ + decimal(n) + " entr"@, e);
    lemma_newlines_of_sum(" yank \u{2014} "@ + decimal(n) + " entr"@ + e, " "@);
    let h = header_text(n);
    assert(newlines(h) == 0);
    let a = "\x1b[38;5;"@;
    let b = a + decimal(231);
    let c = b + ";48;5;"@;
    let d = c + decimal(234);
    let f = d + ";1m"@;
    let g = f + h;
    lemma_no_newlines(a);
    lemma_no_newlines(";48;5;"@);
    lemma_no_newlines(";1m"@);
    lemma_no_newlines("\x1b[0m"@);
    lemma_newlines_of_sum(a, decimal(231));
    lemma_newlines_of_sum(b, ";48;5;"@);
    lemma_newlines_of_sum(c, decimal(234));
    lemma_newlines_of_sum(d, ";1m"@);
    lemma_newlines_of_sum(f, h);
    lemma_newlines_of_sum(g, "\x1b[0m"@);
    assert(bold_in(h, 231, 234) == g + "\x1b[0m"@);
}

proof fn lemma_decimal_is_plain(n: nat)
    ensures
        newlines(decimal(n)) == 0,
{
    crate::digits::decimal_spells(n);
    assert forall|i: int| 0 <= i < decimal(n).len() implies #[trigger] decimal(n)[i] != '\n' by {
        assert(is_digit(decimal(n)[i]));
    }
    lemma_no_newlines(decimal(n));
}

proof fn lemma_one_final_newline(s: Seq<char>)
    requires
        s.len() >= 2,
        s.last() == '\n',
        s[s.len() - 2] != '\n',
    ensures
        without_final_newlines(s) == s.drop_last(),
        newlines(without_final_newlines(s)) + 1 == newlines(s),
{
    let f = s.drop_last();
    assert(f.last() == s[s.len() - 2]);
    assert(without_final_newlines(f) == f);
}

/// The screen has the header's line and one line for each entry on it: as many
/// newlines as entries, with none at its end.
pub proof fn one_line_per_entry(p: Listing, cols: u16, rows: u16)
    requires
        p.wf(),
        p.fits(cols, rows),
    ensures
        newlines(p.screen(cols, rows)) == p.end(rows) - p.top(rows),
        p.screen(cols, rows).len() > 0,
        p.screen(cols, rows).last() != '\n',
{
    let n = p.list.len();
    let head = bold_in(header_text(n), 231, 234);
    let lines = p.rows(p.top(rows) as int, p.end(rows) as int, cols);
    lemma_header(n);
    lemma_rows(p, cols, rows, p.end(rows) as int);
    reveal_strlit("\n");
    lemma_newlines_of_sum(head, "\n"@);
    lemma_newlines_of_sum(head + "\n"@, lines);
    assert("\n"@ =~= seq!['\n']);
    assert(newlines("\n"@) == 1) by {
        assert("\n"@.drop_last() =~= Seq::<char>::empty());
        assert(newlines("\n"@.drop_last()) == 0);
    }
    let all = head + "\n"@ + lines;
    if p.top(rows) == p.end(rows) {
        assert(all =~= head.push('\n'));
        assert(all[all.len() - 2] == head.last());
    } else {
        assert(all.last() == lines.last());
        assert(all[all.len() - 2] == lines[lines.len() - 2]);
    }
    lemma_one_final_newline(all);
    assert(all.drop_last().last() == all[all.len() - 2]);
}

proof fn lemma_keys_differ()
    ensures
        "ENTER"@ != "q"@ && "ENTER"@ != "Q"@ && "ENTER"@ != "ESC"@,
        "ENTER"@ != "UP"@ && "ENTER"@ != "k"@ && "ENTER"@ != "DOWN"@ && "ENTER"@ != "j"@,
        "d"@ != "q"@ && "d"@ != "Q"@ && "d"@ != "ESC"@ && "d"@ != "ENTER"@,
        "d"@ != "UP"@ && "d"@ != "k"@ && "d"@ != "DOWN"@ && "d"@ != "j"@,
{
    reveal_strlit("ENTER");
    reveal_strlit("d");
    reveal_strlit("q");
    reveal_strlit("Q");
    reveal_strlit("ESC");
    reveal_strlit("UP");
    reveal_strlit("k");
    reveal_strlit("DOWN");
    reveal_strlit("j");
    assert("ENTER"@.len() == 5 && "DOWN"@.len() == 4 && "ESC"@.len() == 3 && "UP"@.len() == 2);
    assert("d"@[0] == 'd' && "q"@[0] == 'q' && "Q"@[0] == 'Q' && "k"@[0] == 'k' && "j"@[0] == 'j');
}

/// A move is one step: down selects the next entry, and the last one stays
/// selected; up selects the one before, and the first one stays selected.
pub proof fn a_move_is_one_step(p: Listing, key: Seq<char>)
    requires
        p.wf(),
    ensures
        key == "DOWN"@ || key == "j"@ ==> p.pressed(Some(key)) == (
            Listing {
                list: p.list,
                sel: if p.sel == p.list.len() - 1 {
                    p.sel
                } else {
                    p.sel + 1
                },
            },
            Chosen::Show,
        ),
        key == "UP"@ || key == "k"@ ==> p.pressed(Some(key)) == (
            Listing {
                list: p.list,
                sel: if p.sel == 0 {
                    0
                } else {
                    (p.sel - 1) as nat
                },
            },
            Chosen::Show,
        ),
{
    lemma_move_keys();
}

/// A list after one key has been pressed some times.
pub open spec fn pressed_times(p: Listing, key: Seq<char>, times: nat) -> Listing
    decreases times,
{
    if times == 0 {
        p
    } else {
        pressed_times(p, key, (times - 1) as nat).pressed(Some(key)).0
    }
}

/// Moving down some times selects the entry so many below, or the last.
pub proof fn moving_down_counts(p: Listing, key: Seq<char>, times: nat)
    requires
        p.wf(),
        key == "DOWN"@ || key == "j"@,
    ensures
        pressed_times(p, key, times).list == p.list,
        pressed_times(p, key, times).sel == if p.sel + times < p.list.len() {
            p.sel + times
        } else {
            (p.list.len() - 1) as nat
        },
    decreases times,
{
    if times > 0 {
        moving_down_counts(p, key, (times - 1) as nat);
        a_move_is_one_step(pressed_times(p, key, (times - 1) as nat), key);
    }
}

/// Moving up some times selects the entry so many above, or the first.
pub proof fn moving_up_counts(p: Listing, key: Seq<char>, times: nat)
    requires
        p.wf(),
        key == "UP"@ || key == "k"@,
    ensures
        pressed_times(p, key, times).list == p.list,
        pressed_times(p, key, times).sel == if times < p.sel {
            (p.sel - times) as nat
        } else {
            0
        },
    decreases times,
{
    if times > 0 {
        moving_up_counts(p, key, (times - 1) as nat);
        a_move_is_one_step(pressed_times(p, key, (times - 1) as nat), key);
    }
}

/// Every entry can be reached and taken: from the newest, as many moves down as
/// there are entries before it select it, and Enter then takes its text.
pub proof fn every_entry_can_be_taken(p: Listing, i: nat)
    requires
        p.wf(),
        p.sel == 0,
        i < p.list.len(),
    ensures
        pressed_times(p, "DOWN"@, i).pressed(Some("ENTER"@)).1 == (Chosen::Take {
            text: p.list[i as int].1,
        }),
        pressed_times(p, "DOWN"@, i).pressed(Some("d"@)).1 == (Chosen::Delete {
            name: p.list[i as int].0,
        }),
{
    moving_down_counts(p, "DOWN"@, i);
    lemma_keys_differ();
}

/// What ends the picker and what acts on an entry: three keys quit, Enter takes
/// the text of the selected entry, `d` deletes its file, and these alone do.
/// Whatever is no move changes nothing of the list and the selection.
pub proof fn each_key_has_its_meaning(p: Listing, key: Option<Seq<char>>)
    requires
        p.wf(),
    ensures
        p.pressed(key).1 == Chosen::Quit <==> key == Some("q"@) || key == Some("Q"@) || key == Some(
            "ESC"@,
        ),
        p.pressed(key).1 is Take <==> key == Some("ENTER"@),
        p.pressed(key).1 is Take ==> p.pressed(key).1 == (Chosen::Take {
            text: p.list[p.sel as int].1,
        }),
        p.pressed(key).1 is Delete <==> key == Some("d"@),
        p.pressed(key).1 is Delete ==> p.pressed(key).1 == (Chosen::Delete {
            name: p.list[p.sel as int].0,
        }),
        p.pressed(key).0 != p ==> key == Some("DOWN"@) || key == Some("j"@) || key == Some("UP"@)
            || key == Some("k"@),
        p.pressed(key).0.list == p.list,
{
    lemma_keys_differ();
    lemma_move_keys();
}

/// Which entries are on a screen: with a line for the header and one left free,
/// as many as there are lines for. The list starts at the newest entry as long as
/// the selected one is then on the screen, and otherwise so that the selected one
/// is on the last line.
pub proof fn the_window_follows_the_selection(p: Listing, rows: u16)
    requires
        p.wf(),
    ensures
        rows <= 2 ==> p.top(rows) == p.end(rows),
        rows > 2 && p.sel < rows - 2 ==> p.top(rows) == 0,
        rows > 2 && p.sel >= rows - 2 ==> p.top(rows) + (rows - 2) == p.sel + 1,
        rows > 2 && p.top(rows) + (rows - 2) <= p.list.len() ==> p.end(rows) == p.top(rows) + (rows
            - 2),
        rows > 2 && p.top(rows) + (rows - 2) > p.list.len() ==> p.end(rows) == p.list.len(),
{
}

/// How wide a screen has to be: where no entry is on it, any width will do; where
/// there is one, five columns are enough, three are not, and four are where every
/// entry on it folds to nothing.
pub proof fn how_wide_a_screen_has_to_be(p: Listing, cols: u16, rows: u16)
    requires
        p.wf(),
    ensures
        rows <= 2 || cols >= 5 ==> p.fits(cols, rows),
        rows > 2 && cols <= 3 ==> !p.fits(cols, rows),
        rows > 2 && cols == 4 ==> (p.fits(cols, rows) <==> forall|i: int|
            p.top(rows) <= i < p.end(rows) ==> one_line((#[trigger] p.list[i]).1).len() == 0),
{
}

/// A line that is filled up keeps what it has, and has nothing but spaces behind
/// it, up to the width.
pub proof fn filling_adds_spaces(line: Seq<char>, width: nat)
    ensures
        line.is_prefix_of(filled(line, width)),
        filled(line, width).len() == if line.len() < width {
            width
        } else {
            line.len()
        },
        forall|k: int|
            line.len() <= k < filled(line, width).len() ==> #[trigger] filled(line, width)[k]
                == ' ',
{
    assert(filled(line, width).subrange(0, line.len() as int) =~= line);
}

/// An entry's line is a space and the preview of its text, four columns short of
/// the width.
pub proof fn an_entry_is_shown_by_its_preview(text: Seq<char>, cols: u16)
    requires
        cols >= 4,
    ensures
        entry_line(text, cols).len() > 0,
        entry_line(text, cols)[0] == ' ',
        entry_line(text, cols).drop_first() == shortened(one_line(text), (cols - 4) as nat),
{
    reveal_strlit(" ");
    assert(entry_line(text, cols).drop_first() =~= shortened(one_line(text), (cols - 4) as nat));
}

/// The mark is on the selected entry and on it alone: its row sets the background,
/// has the entry's line filled up to two columns short of the width, and sets the
/// background back. The row of any other entry is its line.
pub proof fn the_selected_row_is_marked(p: Listing, cols: u16, rows: u16, i: int)
    requires
        p.wf(),
        p.fits(cols, rows),
        p.top(rows) <= i < p.end(rows),
    ensures
        i == p.sel ==> p.row(i, cols) == "\x1b[48;5;238m"@ + filled(
            entry_line(p.list[i].1, cols),
            (cols - 2) as nat,
        ) + "\x1b[49m"@ + seq!['\n'],
        i != p.sel ==> p.row(i, cols) == entry_line(p.list[i].1, cols) + seq!['\n'],
        "\x1b[48;5;238m"@.is_prefix_of(p.row(i, cols)) <==> i == p.sel,
{
    reveal_strlit("\x1b[48;5;238m");
    reveal_strlit("\x1b[49m\n");
    reveal_strlit("\x1b[49m");
    reveal_strlit("\n");
    an_entry_is_shown_by_its_preview(p.list[i].1, cols);
    let row = p.row(i, cols);
    let mark = "\x1b[48;5;238m"@;
    let line = entry_line(p.list[i].1, cols);
    if i == p.sel {
        assert("\x1b[49m\n"@ =~= "\x1b[49m"@ + seq!['\n']);
        assert(row =~= mark + filled(line, (cols - 2) as nat) + "\x1b[49m"@ + seq!['\n']);
        assert(row.subrange(0, mark.len() as int) =~= mark);
    } else {
        assert(row =~= line + seq!['\n']);
        assert(row[0] == ' ');
        if mark.is_prefix_of(row) {
            assert(row.subrange(0, mark.len() as int)[0] == mark[0]);
        }
    }
}

/// The lines of a text: what stands between its newlines.
pub open spec fn lines_of(s: Seq<char>) -> Seq<Seq<char>>
    decreases s.len(),
{
    if s.len() == 0 {
        seq![Seq::<char>::empty()]
    } else {
        let front = lines_of(s.drop_last());
        if s.last() == '\n' {
            front.push(Seq::empty())
        } else {
            front.drop_last().push(front.last().push(s.last()))
        }
    }
}

proof fn lemma_lines_are_there(s: Seq<char>)
    ensures
        lines_of(s).len() > 0,
    decreases s.len(),
{
    if s.len() > 0 {
        lemma_lines_are_there(s.drop_last());
    }
}

/// What has no newline goes on with the last line.
proof fn lemma_lines_go_on(s: Seq<char>, more: Seq<char>)
    requires
        forall|k: int| 0 <= k < more.len() ==> #[trigger] more[k] != '\n',
    ensures
        lines_of(s + more) == lines_of(s).drop_last().push(lines_of(s).last() + more),
    decreases more.len(),
{
    lemma_lines_are_there(s);
    let ls = lines_of(s);
    if more.len() == 0 {
        assert(s + more =~= s);
        assert(ls.last() + more =~= ls.last());
        assert(ls =~= ls.drop_last().push(ls.last() + more));
    } else {
        let front = more.drop_last();
        assert forall|k: int| 0 <= k < front.len() implies #[trigger] front[k] != '\n' by {
            assert(front[k] == more[k]);
        }
        lemma_lines_go_on(s, front);
        assert((s + more).drop_last() =~= s + front);
        let fl = lines_of(s + front);
        assert((ls.last() + front).push(more.last()) =~= ls.last() + more);
        assert(fl.drop_last() =~= ls.drop_last());
        assert((s + more).last() == more.last());
    }
}

/// A line behind others.
proof fn lemma_one_more_line(s: Seq<char>, line: Seq<char>)
    requires
        forall|k: int| 0 <= k < line.len() ==> #[trigger] line[k] != '\n',
    ensures
        lines_of(s.push('\n') + line) == lines_of(s).push(line),
{
    let t = s.push('\n');
    assert(t.drop_last() =~= s);
    lemma_lines_go_on(t, line);
    assert(lines_of(t).drop_last() =~= lines_of(s));
    assert(lines_of(t).last() + line =~= line);
}

/// A row without its newline, which is its only one.
proof fn lemma_row_is_a_line(p: Listing, cols: u16, rows: u16, i: int)
    requires
        p.wf(),
        p.fits(cols, rows),
        p.top(rows) <= i < p.end(rows),
    ensures
        p.row(i, cols).len() > 0,
        p.row(i, cols) == p.row(i, cols).drop_last().push('\n'),
        forall|k: int|
            0 <= k < p.row(i, cols).len() - 1 ==> #[trigger] p.row(i, cols).drop_last()[k] != '\n',
{
    lemma_row(p, cols, rows, i);
    let row = p.row(i, cols);
    let f = row.drop_last();
    assert(row =~= f.push('\n'));
    lemma_without_newlines(f);
}

proof fn lemma_without_newlines(s: Seq<char>)
    requires
        newlines(s) == 0,
    ensures
        forall|k: int| 0 <= k < s.len() ==> #[trigger] s[k] != '\n',
    decreases s.len(),
{
    if s.len() > 0 {
        lemma_without_newlines(s.drop_last());
        assert forall|k: int| 0 <= k < s.len() implies #[trigger] s[k] != '\n' by {
            if k < s.len() - 1 {
                assert(s.drop_last()[k] == s[k]);
            }
        }
    }
}

/// The header and the first rows, without the newline at the end.
proof fn lemma_screen_up_to(p: Listing, cols: u16, rows: u16, head: Seq<char>, to: int)
    requires
        p.wf(),
        p.fits(cols, rows),
        p.top(rows) <= to <= p.end(rows),
        newlines(head) == 0,
    ensures
        ({
            let s = head.push('\n') + p.rows(p.top(rows) as int, to, cols);
            &&& s.last() == '\n'
            &&& lines_of(s.drop_last()) == seq![head] + Seq::new(
                (to - p.top(rows)) as nat,
                |k: int| p.row(p.top(rows) + k, cols).drop_last(),
            )
        }),
    decreases to - p.top(rows),
{
    let top = p.top(rows) as int;
    let s = head.push('\n') + p.rows(top, to, cols);
    let want = seq![head] + Seq::new(
        (to - top) as nat,
        |k: int| p.row(top + k, cols).drop_last(),
    );
    if to == top {
        assert(s.drop_last() =~= head);
        lemma_without_newlines(head);
        lemma_lines_go_on(Seq::empty(), head);
        assert(Seq::<char>::empty() + head =~= head);
        assert(lines_of(head) =~= want);
    } else {
        lemma_screen_up_to(p, cols, rows, head, to - 1);
        lemma_row_is_a_line(p, cols, rows, to - 1);
        let t = head.push('\n') + p.rows(top, to - 1, cols);
        let line = p.row(to - 1, cols).drop_last();
        assert(t =~= t.drop_last().push('\n'));
        assert(s =~= t + p.row(to - 1, cols));
        assert(s.drop_last() =~= t + line);
        lemma_one_more_line(t.drop_last(), line);
        assert(lines_of(s.drop_last()) =~= want);
    }
}

/// The screen line by line. The first line is the header, bold in its colours.
/// Then comes one line for each entry on the screen, in the order of the list:
/// the selected one sets the background and is filled up, and no other does. There
/// is nothing else.
pub proof fn the_screen_line_by_line(p: Listing, cols: u16, rows: u16)
    requires
        p.wf(),
        p.fits(cols, rows),
    ensures
        ({
            let lines = lines_of(p.screen(cols, rows));
            &&& lines.len() == 1 + (p.end(rows) - p.top(rows))
            &&& lines[0] == bold_in(header_text(p.list.len()), 231, 234)
            &&& forall|k: int|
                1 <= k < lines.len() && p.top(rows) + k - 1 == p.sel ==> #[trigger] lines[k]
                    == "\x1b[48;5;238m"@ + filled(
                    entry_line(p.list[p.sel as int].1, cols),
                    (cols - 2) as nat,
                ) + "\x1b[49m"@
            &&& forall|k: int|
                1 <= k < lines.len() && p.top(rows) + k - 1 != p.sel ==> #[trigger] lines[k]
                    == entry_line(p.list[p.top(rows) + k - 1].1, cols)
        }),
{
    let n = p.list.len();
    let top = p.top(rows) as int;
    let end = p.end(rows) as int;
    let head = bold_in(header_text(n), 231, 234);
    reveal_strlit("\n");
    lemma_header(n);
    lemma_screen_up_to(p, cols, rows, head, end);
    let all = head + "\n"@ + p.rows(top, end, cols);
    assert(all =~= head.push('\n') + p.rows(top, end, cols));
    lemma_rows(p, cols, rows, end);
    if top == end {
        assert(all[all.len() - 2] == head.last());
    } else {
        let r = p.rows(top, end, cols);
        assert(all[all.len() - 2] == r[r.len() - 2]);
    }
    lemma_one_final_newline(all);
    let lines = lines_of(p.screen(cols, rows));
    assert forall|k: int| 1 <= k < lines.len() implies #[trigger] lines[k] == p.row(
        top + k - 1,
        cols,
    ).drop_last() && (top + k - 1 == p.sel ==> lines[k] == "\x1b[48;5;238m"@ + filled(
        entry_line(p.list[p.sel as int].1, cols),
        (cols - 2) as nat,
    ) + "\x1b[49m"@) && (top + k - 1 != p.sel ==> lines[k] == entry_line(
        p.list[top + k - 1].1,
        cols,
    )) by {
        let i = top + k - 1;
        the_selected_row_is_marked(p, cols, rows, i);
        assert(lines[k] == p.row(i, cols).drop_last());
        if i == p.sel {
            assert(lines[k] =~= "\x1b[48;5;238m"@ + filled(
                entry_line(p.list[p.sel as int].1, cols),
                (cols - 2) as nat,
            ) + "\x1b[49m"@);
        } else {
            assert(lines[k] =~= entry_line(p.list[i].1, cols));
        }
    }
}

/// On any screen with a line for an entry, just one line behind the header sets
/// the background, and it is the selected entry's.
pub proof fn one_line_is_marked(p: Listing, cols: u16, rows: u16, k: int)
    requires
        p.wf(),
        p.fits(cols, rows),
        rows > 2,
        1 <= k < lines_of(p.screen(cols, rows)).len(),
    ensures
        1 <= p.sel - p.top(rows) + 1 < lines_of(p.screen(cols, rows)).len(),
        "\x1b[48;5;238m"@.is_prefix_of(lines_of(p.screen(cols, rows))[k]) <==> k == p.sel - p.top(
            rows,
        ) + 1,
{
    the_screen_line_by_line(p, cols, rows);
    let i = p.top(rows) + k - 1;
    let mark = "\x1b[48;5;238m"@;
    let line = lines_of(p.screen(cols, rows))[k];
    reveal_strlit("\x1b[48;5;238m");
    an_entry_is_shown_by_its_preview(p.list[i].1, cols);
    if i == p.sel {
        assert(line.subrange(0, mark.len() as int) =~= mark);
    } else if mark.is_prefix_of(line) {
        assert(line.subrange(0, mark.len() as int)[0] == mark[0]);
        assert(line[0] == ' ');
    }
}

/// The header names the program and counts the entries, and has the word for one
/// of them where there is just one.
pub proof fn the_header_counts_the_entries(n: nat)
    ensures
        n == 1 ==> header_text(n) == " yank \u{2014} 1 entry "@,
        n != 1 ==> header_text(n) == " yank \u{2014} "@ + decimal(n) + " entries "@,
{
    reveal_strlit(" yank \u{2014} ");
    reveal_strlit(" yank \u{2014} 1 entry ");
    reveal_strlit(" entr");
    reveal_strlit("y");
    reveal_strlit("ies");
    reveal_strlit(" ");
    reveal_strlit(" entries ");
    if n == 1 {
        assert(decimal(1) == seq!['1']);
        assert(header_text(n) =~= " yank \u{2014} 1 entry "@);
    } else {
        assert(header_text(n) =~= " yank \u{2014} "@ + decimal(n) + " entries "@);
    }
}

/// The view of a choice and of a picker leaves nothing of them out.
pub proof fn views_are_faithful(c: Choice, p: Picker)
    ensures
        match c {
            Choice::Show => c@ == Chosen::Show,
            Choice::Quit => c@ == Chosen::Quit,
            Choice::Take { text } => c@ == (Chosen::Take { text: text@ }),
            Choice::Delete { name } => c@ == (Chosen::Delete { name: name@ }),
        },
        p@.sel == p.sel,
        p@.list.len() == p.list@.len(),
        forall|i: int|
            0 <= i < p.list@.len() ==> #[trigger] p@.list[i] == (
                p.list@[i].name@,
                p.list@[i].text@,
            ),
{
}

} // verus!
