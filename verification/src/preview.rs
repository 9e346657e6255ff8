//! One line of the list for an entry.

use vstd::prelude::*;

use crate::text::{
    char_is_control, chars_of, is_blank, is_control, is_space, string_of, trim_bounds, trim_end,
    trim_start, trimmed,
};

verus! {

/// How a character is shown on a line: newlines and other control characters
/// are made visible.
pub open spec fn shown(c: char) -> char {
    if c == '\n' {
        '\u{23ce}'
    } else if is_control(c) {
        '\u{b7}'
    } else {
        c
    }
}

/// A text folded into one line.
pub open spec fn one_line(t: Seq<char>) -> Seq<char> {
    trimmed(t.map_values(|c: char| shown(c)))
}

/// The first `max` characters, the last of them an ellipsis where more would
/// follow.
pub open spec fn shortened(s: Seq<char>, max: nat) -> Seq<char> {
    if s.len() <= max {
        s
    } else {
        s.take(max - 1).push('\u{2026}')
    }
}

fn show(c: char) -> (r: char)
    ensures
        r == shown(c),
{
    if c == '\n' {
        '\u{23ce}'
    } else if char_is_control(c) {
        '\u{b7}'
    } else {
        c
    }
}

/// Whether a text folds into an empty line.
pub fn folds_to_nothing(t: &str) -> (r: bool)
    ensures
        r == (one_line(t@).len() == 0),
{
    let folded: Vec<char> = fold(t);
    let (lo, hi): (usize, usize) = trim_bounds(&folded);
    lo == hi
}

fn fold(t: &str) -> (folded: Vec<char>)
    ensures
        folded@ == t@.map_values(|c: char| shown(c)),
{
    let v: Vec<char> = chars_of(t);
    let mut folded: Vec<char> = Vec::new();
    let mut i: usize = 0;
    while i < v.len()
        invariant
            i <= v@.len(),
            folded@.len() == i,
            forall|j: int| 0 <= j < i ==> folded@[j] == shown(v@[j]),
        decreases v@.len() - i,
    {
        folded.push(show(v[i]));
        i = i + 1;
    }
    proof {
        assert(folded@ =~= t@.map_values(|c: char| shown(c)));
    }
    folded
}

/// A single list line out of an entry: control characters visible, newlines
/// folded, at most `max` characters.
pub fn preview(t: &str, max: usize) -> (line: String)
    requires
        max > 0 || one_line(t@).len() == 0,
    ensures
        line@ == shortened(one_line(t@), max as nat),
{
    let folded: Vec<char> = fold(t);
    let (lo, hi): (usize, usize) = trim_bounds(&folded);
    if hi - lo <= max {
        string_of(&folded, lo, hi)
    } else {
        let mut line: String = string_of(&folded, lo, lo + (max - 1));
        line.push('\u{2026}');
        proof {
            let one = one_line(t@);
            assert(one.take(max - 1) =~= folded@.subrange(lo as int, lo + (max - 1)));
        }
        line
    }
}

proof fn lemma_trimmed_is_part(s: Seq<char>, p: spec_fn(char) -> bool)
    requires
        forall|i: int| 0 <= i < s.len() ==> p(#[trigger] s[i]),
    ensures
        trimmed(s).len() <= s.len(),
        forall|i: int| 0 <= i < trimmed(s).len() ==> p(#[trigger] trimmed(s)[i]),
{
    lemma_trim_start_is_part(s, p);
    lemma_trim_end_is_part(trim_start(s), p);
}

proof fn lemma_trim_start_is_part(s: Seq<char>, p: spec_fn(char) -> bool)
    requires
        forall|i: int| 0 <= i < s.len() ==> p(#[trigger] s[i]),
    ensures
        trim_start(s).len() <= s.len(),
        forall|i: int| 0 <= i < trim_start(s).len() ==> p(#[trigger] trim_start(s)[i]),
    decreases s.len(),
{
    if s.len() > 0 && is_space(s[0]) {
        let rest = s.drop_first();
        assert forall|i: int| 0 <= i < rest.len() implies p(#[trigger] rest[i]) by {
            assert(rest[i] == s[i + 1]);
        }
        lemma_trim_start_is_part(rest, p);
    }
}

proof fn lemma_trim_end_is_part(s: Seq<char>, p: spec_fn(char) -> bool)
    requires
        forall|i: int| 0 <= i < s.len() ==> p(#[trigger] s[i]),
    ensures
        trim_end(s).len() <= s.len(),
        forall|i: int| 0 <= i < trim_end(s).len() ==> p(#[trigger] trim_end(s)[i]),
    decreases s.len(),
{
    if s.len() > 0 && is_space(s.last()) {
        let rest = s.drop_last();
        assert forall|i: int| 0 <= i < rest.len() implies p(#[trigger] rest[i]) by {
            assert(rest[i] == s[i]);
        }
        lemma_trim_end_is_part(rest, p);
    }
}

/// A preview is a single line of visible characters: no newline and no other
/// control character is left in it, and it is not longer than asked for.
pub proof fn preview_is_one_line(t: Seq<char>, max: nat)
    requires
        max > 0 || one_line(t).len() == 0,
    ensures
        shortened(one_line(t), max).len() <= max,
        forall|i: int|
            0 <= i < shortened(one_line(t), max).len() ==> !is_control(
                #[trigger] shortened(one_line(t), max)[i],
            ),
{
    let folded = t.map_values(|c: char| shown(c));
    assert forall|i: int| 0 <= i < folded.len() implies !is_control(#[trigger] folded[i]) by {
        assert(folded[i] == shown(t[i]));
    }
    lemma_trimmed_is_part(folded, |c: char| !is_control(c));
}

/// Whatever is not blank can be seen in the list: every text that the recorder
/// stores has a preview with something in it.
pub proof fn text_leaves_a_preview(t: Seq<char>, max: nat)
    requires
        !is_blank(t),
        max > 0,
    ensures
        shortened(one_line(t), max).len() > 0,
{
    let folded = t.map_values(|c: char| shown(c));
    let i = choose|i: int| 0 <= i < t.len() && !is_space(#[trigger] t[i]);
    assert(!is_space(folded[i]));
    crate::text::blank_trims_to_nothing(folded);
}

/// A text that is short enough and of visible characters, with no white space
/// at its ends, is its own preview.
pub proof fn plain_text_is_its_own_preview(t: Seq<char>, max: nat)
    requires
        t.len() <= max,
        forall|i: int| 0 <= i < t.len() ==> !is_control(#[trigger] t[i]),
        t.len() > 0 ==> !is_space(t[0]) && !is_space(t.last()),
    ensures
        shortened(one_line(t), max) == t,
{
    let folded = t.map_values(|c: char| shown(c));
    assert(folded =~= t);
}

/// Each character is shown as itself, except that a newline is shown as a return
/// sign and any other control character as a dot.
pub proof fn each_character_is_shown(c: char)
    ensures
        c == '\n' ==> shown(c) == '\u{23ce}',
        c != '\n' && is_control(c) ==> shown(c) == '\u{b7}',
        !is_control(c) ==> shown(c) == c,
{
}

/// A preview follows the text, character by character as each is shown, from the
/// first to the last that is not shown as white space. Where that is more than
/// asked for, the preview is just as long as asked for, and its last character is
/// an ellipsis.
pub proof fn a_preview_follows_the_text(t: Seq<char>, max: nat) -> (r: (int, int))
    requires
        max > 0 || one_line(t).len() == 0,
    ensures
        0 <= r.0 <= r.1 <= t.len(),
        forall|i: int| 0 <= i < r.0 ==> is_space(shown(#[trigger] t[i])),
        forall|i: int| r.1 <= i < t.len() ==> is_space(shown(#[trigger] t[i])),
        r.0 < r.1 ==> !is_space(shown(t[r.0])) && !is_space(shown(t[r.1 - 1])),
        ({
            let line = shortened(one_line(t), max);
            &&& line.len() == if r.1 - r.0 <= max {
                (r.1 - r.0) as nat
            } else {
                max
            }
            &&& r.1 - r.0 > max ==> line.last() == '\u{2026}'
            &&& forall|k: int|
                0 <= k < line.len() && (k < max - 1 || r.1 - r.0 <= max) ==> #[trigger] line[k]
                    == shown(t[r.0 + k])
        }),
{
    let folded = t.map_values(|c: char| shown(c));
    let (lo, hi) = crate::text::trimming_takes_white_space_off_the_ends(folded);
    assert forall|i: int| 0 <= i < lo implies is_space(shown(#[trigger] t[i])) by {
        assert(is_space(folded[i]));
    }
    assert forall|i: int| hi <= i < t.len() implies is_space(shown(#[trigger] t[i])) by {
        assert(is_space(folded[i]));
    }
    (lo, hi)
}

} // verus!
