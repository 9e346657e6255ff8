//! What the history directory holds, and the laws of storing, listing and
//! deleting over it.

use vstd::arithmetic::power::pow;
use vstd::prelude::*;

use crate::digits::padded;
use crate::history::{file_bytes, file_name, readable, stale_names, KEEP};
use crate::order::{ascending, before, by_bytes, falls_behind_at};

verus! {

/// The files of a directory by name, each with its text, or with nothing where
/// it cannot be read as text.
pub type Directory = Map<Seq<u8>, Option<Seq<char>>>;

/// A listing of a directory: every file once, in any order.
pub open spec fn lists(names: Seq<Seq<u8>>, dir: Directory) -> bool {
    &&& names.no_duplicates()
    &&& forall|n: Seq<u8>| #[trigger] names.contains(n) <==> dir.contains_key(n)
}

pub open spec fn texts_at(names: Seq<Seq<u8>>, dir: Directory) -> Seq<Option<Seq<char>>> {
    names.map_values(|n: Seq<u8>| dir[n])
}

/// The history that a directory holds, newest first, out of a listing of it.
pub open spec fn history_in(dir: Directory, names: Seq<Seq<u8>>) -> Seq<(Seq<u8>, Seq<char>)> {
    let order = ascending(names).reverse();
    readable(order, texts_at(order, dir))
}

/// The directory once an entry has been written.
pub open spec fn written(dir: Directory, micros: nat, text: Seq<char>) -> Directory {
    dir.insert(file_bytes(micros), Some(text))
}

/// The directory once what is too much of a listing has been removed.
pub open spec fn pruned(dir: Directory, names: Seq<Seq<u8>>) -> Directory {
    dir.remove_keys(stale_names(names).to_set())
}

/// How many digits a name has.
pub open spec fn width(micros: nat) -> nat {
    padded(micros, 20).len()
}

/// Later entries stand later in the order of names, among names of one width:
/// with twenty digits or fewer that is so throughout. Of names of different
/// widths the later stands later exactly where its leading digits do not count
/// less.
pub proof fn names_follow_time(a: nat, b: nat)
    requires
        a < b,
    ensures
        before(file_bytes(a), file_bytes(b)) <==> (width(a) == width(b) || a as int <= b as int
            / pow(10, (width(b) - width(a)) as nat)),
{
    let x = padded(a, 20);
    let y = padded(b, 20);
    crate::digits::padded_spells(a, 20);
    crate::digits::padded_spells(b, 20);
    lemma_width_grows(a, b);
    let w = x.len() as int;
    crate::digits::lemma_value_of_front(y, w);
    let front = y.take(w);
    if width(a) == width(b) {
        assert(front =~= y);
    }
    lemma_name_bytes(a);
    lemma_name_bytes(b);
    let p = file_bytes(a);
    let q = file_bytes(b);
    reveal_strlit(".txt");
    if a < crate::digits::value(front) {
        let k = crate::digits::lemma_smaller_value_differs_first(x, front);
        assert forall|j: int| 0 <= j < k implies p[j] == q[j] by {
            assert(file_name(a)[j] == x[j]);
            assert(file_name(b)[j] == front[j]);
        }
        assert(file_name(a)[k] == x[k]);
        assert(file_name(b)[k] == front[k]);
        assert(crate::digits::is_digit(x[k]) && crate::digits::is_digit(front[k]));
        assert(falls_behind_at(p, q, k));
    } else if a > crate::digits::value(front) {
        let k = crate::digits::lemma_smaller_value_differs_first(front, x);
        assert forall|j: int| 0 <= j < k implies p[j] == q[j] by {
            assert(file_name(a)[j] == x[j]);
            assert(file_name(b)[j] == front[j]);
        }
        assert(file_name(a)[k] == x[k]);
        assert(file_name(b)[k] == front[k]);
        assert(crate::digits::is_digit(x[k]) && crate::digits::is_digit(front[k]));
        assert(falls_behind_at(q, p, k));
        crate::order::before_is_strict(q, p);
    } else {
        crate::digits::lemma_same_value_same_digits(x, front);
        assert(width(a) < width(b)) by {
            if width(a) == width(b) {
                assert(false);
            }
        }
        assert forall|j: int| 0 <= j < w implies p[j] == q[j] by {
            assert(file_name(a)[j] == x[j]);
            assert(file_name(b)[j] == front[j]);
        }
        assert(file_name(a)[w] == '.');
        assert(file_name(b)[w] == y[w]);
        assert(crate::digits::is_digit(y[w]));
        assert(falls_behind_at(p, q, w));
    }
}

/// As long as twenty digits are enough, the order of names is the order of
/// times.
pub proof fn twenty_digits_keep_the_order(a: nat, b: nat)
    requires
        a < pow(10, 20),
        b < pow(10, 20),
    ensures
        before(file_bytes(a), file_bytes(b)) <==> a < b,
{
    lemma_decimal_fits(a, 20);
    lemma_decimal_fits(b, 20);
    if a < b {
        names_follow_time(a, b);
    } else if b < a {
        names_follow_time(b, a);
        crate::order::before_is_strict(file_bytes(b), file_bytes(a));
    } else if before(file_bytes(a), file_bytes(b)) {
        crate::order::before_is_strict(file_bytes(a), file_bytes(b));
    }
}

proof fn lemma_decimal_fits(n: nat, k: nat)
    requires
        k > 0,
        n < pow(10, k),
    ensures
        crate::digits::decimal(n).len() <= k,
    decreases k,
{
    assert(pow(10, k) == 10 * pow(10, (k - 1) as nat)) by {
        reveal(pow);
    }
    if n >= 10 {
        if k == 1 {
            vstd::arithmetic::power::lemma_pow0(10);
        } else {
            lemma_decimal_fits(n / 10, (k - 1) as nat);
        }
    }
}

proof fn lemma_decimal_grows(a: nat, b: nat)
    requires
        a <= b,
    ensures
        crate::digits::decimal(a).len() <= crate::digits::decimal(b).len(),
    decreases b,
{
    if b >= 10 {
        if a >= 10 {
            lemma_decimal_grows(a / 10, b / 10);
        } else {
            crate::digits::decimal_spells(b / 10);
        }
    }
}

proof fn lemma_width_grows(a: nat, b: nat)
    requires
        a <= b,
    ensures
        width(a) <= width(b),
{
    lemma_decimal_grows(a, b);
}

/// A name is plain ASCII, so its bytes are its characters.
proof fn lemma_name_bytes(micros: nat)
    ensures
        file_bytes(micros).len() == file_name(micros).len(),
        file_name(micros).len() == width(micros) + 4,
        forall|i: int|
            0 <= i < file_name(micros).len() ==> #[trigger] file_bytes(micros)[i] == file_name(
                micros,
            )[i] as u8,
{
    let x = padded(micros, 20);
    let s = file_name(micros);
    crate::digits::padded_spells(micros, 20);
    reveal_strlit(".txt");
    assert forall|i: int| 0 <= i < s.len() implies '\0' <= #[trigger] s[i] <= '\u{7f}' by {
        if i < x.len() {
            assert(s[i] == x[i]);
            assert(crate::digits::is_digit(x[i]));
        } else {
            assert(s[i] == ".txt"@[i - x.len()]);
        }
    }
    vstd::utf8::is_ascii_chars_encode_utf8(s);
}

/// Two listings of one directory sort to the same row.
pub proof fn listings_sort_alike(a: Seq<Seq<u8>>, b: Seq<Seq<u8>>)
    requires
        a.no_duplicates(),
        b.no_duplicates(),
        forall|n: Seq<u8>| #[trigger] a.contains(n) <==> b.contains(n),
    ensures
        ascending(a) == ascending(b),
{
    broadcast use vstd::seq_lib::group_to_multiset_ensures;

    a.lemma_multiset_has_no_duplicates();
    b.lemma_multiset_has_no_duplicates();
    assert forall|n: Seq<u8>| #[trigger] a.to_multiset().count(n) == b.to_multiset().count(n) by {
        assert(a.contains(n) <==> b.contains(n));
        assert(a.contains(n) <==> a.to_multiset().count(n) > 0);
        assert(b.contains(n) <==> b.to_multiset().count(n) > 0);
        assert(a.to_multiset().contains(n) <==> a.to_multiset().count(n) > 0);
        assert(b.to_multiset().contains(n) <==> b.to_multiset().count(n) > 0);
    }
    assert(a.to_multiset() =~= b.to_multiset());
    crate::order::ascending_is_sorted(a);
    crate::order::sorted_is_ascending(ascending(a), b);
}

/// The ascending row of a listing holds the same names, each once, each before
/// the next.
proof fn lemma_ascending_of_listing(names: Seq<Seq<u8>>)
    requires
        names.no_duplicates(),
    ensures
        ascending(names).len() == names.len(),
        ascending(names).no_duplicates(),
        forall|n: Seq<u8>| #[trigger] ascending(names).contains(n) <==> names.contains(n),
        forall|i: int, j: int|
            #![trigger ascending(names)[i], ascending(names)[j]]
            0 <= i < j < names.len() ==> before(ascending(names)[i], ascending(names)[j]),
{
    broadcast use vstd::seq_lib::group_to_multiset_ensures;

    let s = ascending(names);
    crate::order::ascending_is_sorted(names);
    names.lemma_multiset_has_no_duplicates();
    s.lemma_multiset_has_no_duplicates_conv();
    assert forall|n: Seq<u8>| #[trigger] s.contains(n) <==> names.contains(n) by {
        assert(s.contains(n) <==> s.to_multiset().count(n) > 0);
        assert(names.contains(n) <==> names.to_multiset().count(n) > 0);
    }
    assert forall|i: int, j: int| #![trigger s[i], s[j]] 0 <= i < j < names.len() implies before(
        s[i],
        s[j],
    ) by {
        assert(by_bytes()(s[i], s[j]));
        assert(s[i] != s[j]);
    }
}

/// A row of names that stand each before the next is already in ascending
/// order.
proof fn lemma_strict_row_is_ascending(s: Seq<Seq<u8>>)
    requires
        forall|i: int, j: int| #![trigger s[i], s[j]] 0 <= i < j < s.len() ==> before(s[i], s[j]),
    ensures
        s.no_duplicates(),
        ascending(s) == s,
{
    assert forall|i: int, j: int| 0 <= i < s.len() && 0 <= j < s.len() && i != j implies s[i]
        != s[j] by {
        if i < j {
            crate::order::before_is_strict(s[i], s[j]);
        } else {
            crate::order::before_is_strict(s[j], s[i]);
        }
    }
    assert forall|i: int, j: int| 0 <= i < j < s.len() implies #[trigger] by_bytes()(
        s[i],
        s[j],
    ) by {
        assert(before(s[i], s[j]));
    }
    crate::order::sorted_is_ascending(s, s);
}

/// Storing keeps the cap: after an entry has been written and what is too much
/// removed, no more than the cap is left, and nothing is removed before the cap
/// is passed.
pub proof fn storing_keeps_the_cap(
    dir: Directory,
    micros: nat,
    text: Seq<char>,
    names: Seq<Seq<u8>>,
)
    requires
        lists(names, written(dir, micros, text)),
    ensures
        ({
            let full = written(dir, micros, text);
            let left = pruned(full, names);
            &&& left.dom().finite()
            &&& left.dom().len() == if names.len() > KEEP {
                KEEP as nat
            } else {
                names.len()
            }
            &&& names.len() <= KEEP ==> left == full
        }),
{
    lemma_pruned_listing(written(dir, micros, text), names);
    let full = written(dir, micros, text);
    let left = pruned(full, names);
    let rest = kept_names(names);
    rest.unique_seq_to_set();
    assert(left.dom() =~= rest.to_set()) by {
        assert forall|n: Seq<u8>| left.dom().contains(n) <==> rest.to_set().contains(n) by {
            assert(rest.contains(n) <==> left.contains_key(n));
        }
    }
    if names.len() <= KEEP {
        assert(left =~= full) by {
            assert(stale_names(names).to_set() =~= Set::<Seq<u8>>::empty());
        }
    }
}

/// The names that stay when a listing is pruned, the oldest first.
pub open spec fn kept_names(names: Seq<Seq<u8>>) -> Seq<Seq<u8>> {
    if names.len() > KEEP {
        ascending(names).skip(names.len() - KEEP)
    } else {
        ascending(names)
    }
}

/// What stays is listed by the names that stay.
proof fn lemma_pruned_listing(dir: Directory, names: Seq<Seq<u8>>)
    requires
        lists(names, dir),
    ensures
        lists(kept_names(names), pruned(dir, names)),
        kept_names(names).len() == if names.len() > KEEP {
            KEEP as nat
        } else {
            names.len()
        },
        forall|i: int, j: int|
            #![trigger kept_names(names)[i], kept_names(names)[j]]
            0 <= i < j < kept_names(names).len() ==> before(
                kept_names(names)[i],
                kept_names(names)[j],
            ),
{
    lemma_ascending_of_listing(names);
    let s = ascending(names);
    let rest = kept_names(names);
    let gone = stale_names(names);
    let left = pruned(dir, names);
    let c: int = if names.len() > KEEP {
        names.len() - KEEP
    } else {
        0
    };
    assert(rest =~= s.skip(c));
    assert(gone =~= s.take(c));
    assert forall|n: Seq<u8>| #[trigger] rest.contains(n) <==> left.contains_key(n) by {
        assert(s.contains(n) <==> names.contains(n));
        assert(names.contains(n) <==> dir.contains_key(n));
        if rest.contains(n) {
            let i = choose|i: int| 0 <= i < rest.len() && rest[i] == n;
            assert(s[i + c] == n);
            if gone.contains(n) {
                let j = choose|j: int| 0 <= j < gone.len() && gone[j] == n;
                assert(s[j] == n);
            }
            assert(!gone.to_set().contains(n));
        }
        if left.contains_key(n) {
            assert(!gone.to_set().contains(n));
            let i = choose|i: int| 0 <= i < s.len() && s[i] == n;
            if i < c {
                assert(gone[i] == n);
            } else {
                assert(rest[i - c] == n);
            }
        }
    }
}

/// Storing keeps the newest: every file that is removed stands before every
/// file that stays, and what stays is unchanged.
pub proof fn storing_removes_the_oldest(
    dir: Directory,
    micros: nat,
    text: Seq<char>,
    names: Seq<Seq<u8>>,
    gone: Seq<u8>,
    left: Seq<u8>,
)
    requires
        lists(names, written(dir, micros, text)),
        written(dir, micros, text).contains_key(gone),
        !pruned(written(dir, micros, text), names).contains_key(gone),
        pruned(written(dir, micros, text), names).contains_key(left),
    ensures
        before(gone, left),
        pruned(written(dir, micros, text), names)[left] == written(dir, micros, text)[left],
{
    let full = written(dir, micros, text);
    lemma_ascending_of_listing(names);
    let s = ascending(names);
    let g = stale_names(names);
    assert(g.to_set().contains(gone));
    assert(!g.to_set().contains(left));
    let i = choose|i: int| 0 <= i < g.len() && g[i] == gone;
    assert(s[i] == gone);
    assert(names.contains(left));
    assert(s.contains(left));
    let j = choose|j: int| 0 <= j < s.len() && s[j] == left;
    if j < g.len() {
        assert(g[j] == left);
        assert(g.contains(left));
    }
    assert(before(s[i], s[j]));
}

spec fn in_order(names: Seq<Seq<u8>>, x: Seq<u8>, y: Seq<u8>) -> bool {
    exists|i: int, j: int|
        0 <= i < j < names.len() && #[trigger] names[i] == x && #[trigger] names[j] == y
}

/// What can be read is the pairs of a name with its text, in order.
proof fn lemma_readable(names: Seq<Seq<u8>>, texts: Seq<Option<Seq<char>>>)
    requires
        names.len() == texts.len(),
    ensures
        forall|p: (Seq<u8>, Seq<char>)| #[trigger]
            readable(names, texts).contains(p) <==> exists|i: int|
                0 <= i < names.len() && #[trigger] names[i] == p.0 && texts[i] == Some(p.1),
        forall|a: int, b: int|
            #![trigger readable(names, texts)[a], readable(names, texts)[b]]
            0 <= a < b < readable(names, texts).len() ==> in_order(
                names,
                readable(names, texts)[a].0,
                readable(names, texts)[b].0,
            ),
    decreases names.len(),
{
    let r = readable(names, texts);
    if names.len() > 0 {
        let fnames = names.drop_last();
        let ftexts = texts.drop_last();
        let front = readable(fnames, ftexts);
        let last = names.len() - 1;
        lemma_readable(fnames, ftexts);
        assert(forall|i: int| 0 <= i < last ==> fnames[i] == names[i] && ftexts[i] == texts[i]);
        assert forall|p: (Seq<u8>, Seq<char>)| #[trigger] r.contains(p) <==> exists|i: int|
            0 <= i < names.len() && #[trigger] names[i] == p.0 && texts[i] == Some(p.1) by {
            assert(front.contains(p) <==> exists|i: int|
                0 <= i < fnames.len() && #[trigger] fnames[i] == p.0 && ftexts[i] == Some(p.1));
            if r.contains(p) {
                let a = choose|a: int| 0 <= a < r.len() && r[a] == p;
                if a < front.len() {
                    assert(front[a] == p);
                    assert(front.contains(p));
                    let i = choose|i: int|
                        0 <= i < fnames.len() && #[trigger] fnames[i] == p.0 && ftexts[i] == Some(
                            p.1,
                        );
                    assert(names[i] == p.0 && texts[i] == Some(p.1));
                } else {
                    assert(names[last] == p.0 && texts[last] == Some(p.1));
                }
            }
            if exists|i: int|
                0 <= i < names.len() && #[trigger] names[i] == p.0 && texts[i] == Some(p.1) {
                let i = choose|i: int|
                    0 <= i < names.len() && #[trigger] names[i] == p.0 && texts[i] == Some(p.1);
                if i < last {
                    assert(fnames[i] == p.0 && ftexts[i] == Some(p.1));
                    assert(front.contains(p));
                    let a = choose|a: int| 0 <= a < front.len() && front[a] == p;
                    assert(r[a] == p);
                } else {
                    assert(r[r.len() - 1] == p);
                }
            }
        }
        assert forall|a: int, b: int| #![trigger r[a], r[b]] 0 <= a < b < r.len() implies in_order(
            names,
            r[a].0,
            r[b].0,
        ) by {
            assert(r[a] == front[a]);
            if b < front.len() {
                assert(r[b] == front[b]);
                assert(in_order(fnames, front[a].0, front[b].0));
                let (i, j) = choose|i: int, j: int|
                    0 <= i < j < fnames.len() && #[trigger] fnames[i] == front[a].0
                        && #[trigger] fnames[j] == front[b].0;
                assert(names[i] == r[a].0 && names[j] == r[b].0);
            } else {
                assert(front.contains(front[a]));
                let i = choose|i: int|
                    0 <= i < fnames.len() && #[trigger] fnames[i] == front[a].0 && ftexts[i]
                        == Some(front[a].1);
                assert(names[i] == r[a].0 && names[last] == r[b].0);
            }
        }
    }
}

/// Where every file can be read, nothing is left out.
proof fn lemma_readable_of_all(names: Seq<Seq<u8>>, texts: Seq<Option<Seq<char>>>)
    requires
        names.len() == texts.len(),
        forall|i: int| 0 <= i < texts.len() ==> (#[trigger] texts[i]) is Some,
    ensures
        readable(names, texts) == Seq::new(names.len(), |i: int| (names[i], texts[i]->0)),
    decreases names.len(),
{
    let all = Seq::new(names.len(), |i: int| (names[i], texts[i]->0));
    if names.len() > 0 {
        assert(texts[texts.len() - 1] is Some);
        lemma_readable_of_all(names.drop_last(), texts.drop_last());
    }
    assert(readable(names, texts) =~= all);
}

/// The history shows every text of the directory under its name, and nothing
/// else.
pub proof fn history_shows_every_text(
    dir: Directory,
    names: Seq<Seq<u8>>,
    name: Seq<u8>,
    text: Seq<char>,
)
    requires
        lists(names, dir),
    ensures
        history_in(dir, names).contains((name, text)) <==> dir.contains_key(name) && dir[name]
            == Some(text),
{
    lemma_ascending_of_listing(names);
    let s = ascending(names);
    let order = s.reverse();
    let texts = texts_at(order, dir);
    lemma_readable(order, texts);
    assert(names.contains(name) <==> dir.contains_key(name));
    assert(s.contains(name) <==> names.contains(name));
    if history_in(dir, names).contains((name, text)) {
        let i = choose|i: int|
            0 <= i < order.len() && #[trigger] order[i] == name && texts[i] == Some(text);
        assert(s[s.len() - 1 - i] == name);
    }
    if dir.contains_key(name) && dir[name] == Some(text) {
        let i = choose|i: int| 0 <= i < s.len() && s[i] == name;
        assert(order[s.len() - 1 - i] == name);
        assert(texts[s.len() - 1 - i] == Some(text));
    }
}

/// The history comes newest first: each entry stands behind every later one in
/// the order of names.
pub proof fn history_is_newest_first(dir: Directory, names: Seq<Seq<u8>>, a: int, b: int)
    requires
        lists(names, dir),
        0 <= a < b < history_in(dir, names).len(),
    ensures
        before(history_in(dir, names)[b].0, history_in(dir, names)[a].0),
{
    lemma_ascending_of_listing(names);
    let s = ascending(names);
    let order = s.reverse();
    let texts = texts_at(order, dir);
    lemma_readable(order, texts);
    let h = history_in(dir, names);
    assert(h[a] == readable(order, texts)[a] && h[b] == readable(order, texts)[b]);
    assert(in_order(order, h[a].0, h[b].0));
    let (i, j) = choose|i: int, j: int|
        0 <= i < j < order.len() && #[trigger] order[i] == h[a].0 && #[trigger] order[j]
            == h[b].0;
    assert(before(s[s.len() - 1 - j], s[s.len() - 1 - i]));
}

/// What was just stored is what is read first, as long as no name in the
/// directory stands behind the new one.
pub proof fn last_stored_is_read_first(
    dir: Directory,
    micros: nat,
    text: Seq<char>,
    names: Seq<Seq<u8>>,
    later: Seq<Seq<u8>>,
)
    requires
        forall|n: Seq<u8>| #[trigger]
            dir.contains_key(n) ==> crate::order::not_after(n, file_bytes(micros)),
        lists(names, written(dir, micros, text)),
        lists(later, pruned(written(dir, micros, text), names)),
    ensures
        ({
            let h = history_in(pruned(written(dir, micros, text), names), later);
            h.len() > 0 && h[0] == (file_bytes(micros), text)
        }),
{
    let full = written(dir, micros, text);
    let left = pruned(full, names);
    let fb = file_bytes(micros);
    lemma_ascending_of_listing(names);
    lemma_pruned_listing(full, names);
    let s = ascending(names);
    let rest = kept_names(names);
    assert(names.contains(fb));
    assert(s.contains(fb));
    let k = choose|k: int| 0 <= k < s.len() && s[k] == fb;
    let z = s.len() - 1;
    assert(s.contains(s[z]));
    assert(names.contains(s[z]));
    if k < z {
        assert(before(s[k], s[z]));
        crate::order::before_is_strict(s[k], s[z]);
        assert(dir.contains_key(s[z]));
        assert(false);
    }
    assert(rest[rest.len() - 1] == fb);
    assert(rest.contains(fb));
    assert forall|n: Seq<u8>| #[trigger] later.contains(n) <==> rest.contains(n) by {
        assert(later.contains(n) <==> left.contains_key(n));
        assert(rest.contains(n) <==> left.contains_key(n));
    }
    listings_sort_alike(later, rest);
    lemma_strict_row_is_ascending(rest);
    let h = history_in(left, later);
    history_shows_every_text(left, later, fb, text);
    let i = choose|i: int| 0 <= i < h.len() && h[i] == (fb, text);
    if i > 0 {
        history_is_newest_first(left, later, 0, i);
        assert(h.contains(h[0]));
        history_shows_every_text(left, later, h[0].0, h[0].1);
        assert(full.contains_key(h[0].0));
        crate::order::before_is_strict(fb, h[0].0);
        if h[0].0 != fb {
            assert(dir.contains_key(h[0].0));
        }
        assert(false);
    }
}

/// Two histories that both come newest first and show the same are the same.
proof fn lemma_same_members_same_history(
    p: Seq<(Seq<u8>, Seq<char>)>,
    q: Seq<(Seq<u8>, Seq<char>)>,
)
    requires
        forall|a: int, b: int|
            #![trigger p[a], p[b]]
            0 <= a < b < p.len() ==> before(p[b].0, p[a].0),
        forall|a: int, b: int|
            #![trigger q[a], q[b]]
            0 <= a < b < q.len() ==> before(q[b].0, q[a].0),
        forall|x: (Seq<u8>, Seq<char>)| #[trigger] p.contains(x) <==> q.contains(x),
    ensures
        p == q,
    decreases p.len(),
{
    if p.len() == 0 {
        if q.len() > 0 {
            assert(q.contains(q[0]));
            assert(p.contains(q[0]));
        }
        assert(p =~= q);
    } else {
        assert(p.contains(p[0]));
        assert(q.contains(p[0]));
        let k = choose|k: int| 0 <= k < q.len() && q[k] == p[0];
        assert(q.contains(q[0]));
        assert(p.contains(q[0]));
        let m = choose|m: int| 0 <= m < p.len() && p[m] == q[0];
        if k > 0 {
            assert(before(q[k].0, q[0].0));
            crate::order::before_is_strict(q[k].0, q[0].0);
            if m > 0 {
                assert(before(p[m].0, p[0].0));
            }
        }
        let pr = p.drop_first();
        let qr = q.drop_first();
        assert forall|x: (Seq<u8>, Seq<char>)| #[trigger] pr.contains(x) <==> qr.contains(x) by {
            if pr.contains(x) {
                let a = choose|a: int| 0 <= a < pr.len() && pr[a] == x;
                assert(p[a + 1] == x);
                assert(before(p[a + 1].0, p[0].0));
                crate::order::before_is_strict(p[a + 1].0, p[0].0);
                assert(p.contains(x));
                assert(q.contains(x));
                let b = choose|b: int| 0 <= b < q.len() && q[b] == x;
                assert(qr[b - 1] == x);
            }
            if qr.contains(x) {
                let a = choose|a: int| 0 <= a < qr.len() && qr[a] == x;
                assert(q[a + 1] == x);
                assert(before(q[a + 1].0, q[0].0));
                crate::order::before_is_strict(q[a + 1].0, q[0].0);
                assert(q.contains(x));
                assert(p.contains(x));
                let b = choose|b: int| 0 <= b < p.len() && p[b] == x;
                assert(pr[b - 1] == x);
            }
        }
        lemma_same_members_same_history(pr, qr);
        assert(p =~= seq![p[0]] + pr);
        assert(q =~= seq![q[0]] + qr);
    }
}

/// The history does not depend on the order in which the directory was listed.
pub proof fn any_listing_gives_one_history(
    dir: Directory,
    names: Seq<Seq<u8>>,
    other: Seq<Seq<u8>>,
)
    requires
        lists(names, dir),
        lists(other, dir),
    ensures
        history_in(dir, names) == history_in(dir, other),
{
    assert forall|n: Seq<u8>| #[trigger] names.contains(n) <==> other.contains(n) by {
        assert(names.contains(n) <==> dir.contains_key(n));
        assert(other.contains(n) <==> dir.contains_key(n));
    }
    listings_sort_alike(names, other);
}

/// Deleting an entry's file takes that entry out of the history, and leaves the
/// others as they were.
pub proof fn deleting_takes_one_entry_out(
    dir: Directory,
    names: Seq<Seq<u8>>,
    i: int,
    later: Seq<Seq<u8>>,
)
    requires
        lists(names, dir),
        0 <= i < history_in(dir, names).len(),
        lists(later, dir.remove(history_in(dir, names)[i].0)),
    ensures
        history_in(dir.remove(history_in(dir, names)[i].0), later) == history_in(
            dir,
            names,
        ).remove(i),
{
    let h = history_in(dir, names);
    let gone = h[i].0;
    let left = dir.remove(gone);
    let p = history_in(left, later);
    let q = h.remove(i);
    assert forall|a: int, b: int| #![trigger p[a], p[b]] 0 <= a < b < p.len() implies before(
        p[b].0,
        p[a].0,
    ) by {
        history_is_newest_first(left, later, a, b);
    }
    assert forall|a: int, b: int| #![trigger q[a], q[b]] 0 <= a < b < q.len() implies before(
        q[b].0,
        q[a].0,
    ) by {
        let x = if a < i {
            a
        } else {
            a + 1
        };
        let y = if b < i {
            b
        } else {
            b + 1
        };
        history_is_newest_first(dir, names, x, y);
    }
    assert forall|x: (Seq<u8>, Seq<char>)| #[trigger] p.contains(x) <==> q.contains(x) by {
        history_shows_every_text(left, later, x.0, x.1);
        history_shows_every_text(dir, names, x.0, x.1);
        assert((x.0, x.1) == x);
        if p.contains(x) {
            let a = choose|a: int| 0 <= a < h.len() && h[a] == x;
            if a < i {
                assert(q[a] == x);
            } else {
                assert(q[a - 1] == x);
            }
        }
        if q.contains(x) {
            let a = choose|a: int| 0 <= a < q.len() && q[a] == x;
            let b = if a < i {
                a
            } else {
                a + 1
            };
            assert(h[b] == x);
            if b < i {
                history_is_newest_first(dir, names, b, i);
                crate::order::before_is_strict(h[i].0, h[b].0);
            } else {
                history_is_newest_first(dir, names, i, b);
                crate::order::before_is_strict(h[b].0, h[i].0);
            }
        }
    }
    lemma_same_members_same_history(p, q);
}

/// The directory after some entries, each a time and a text, were stored one by
/// one into an empty one. `listings` holds what each store saw of the directory
/// once its entry was written.
pub open spec fn after_storing(
    items: Seq<(nat, Seq<char>)>,
    listings: Seq<Seq<Seq<u8>>>,
) -> Directory
    decreases items.len(),
{
    if items.len() == 0 {
        Map::empty()
    } else {
        pruned(
            written(
                after_storing(items.drop_last(), listings.drop_last()),
                items.last().0,
                items.last().1,
            ),
            listings.last(),
        )
    }
}

/// Each store saw the directory as it was.
pub open spec fn listings_fit(
    items: Seq<(nat, Seq<char>)>,
    listings: Seq<Seq<Seq<u8>>>,
) -> bool
    decreases items.len(),
{
    &&& items.len() == listings.len()
    &&& items.len() > 0 ==> {
        &&& listings_fit(items.drop_last(), listings.drop_last())
        &&& lists(
            listings.last(),
            written(
                after_storing(items.drop_last(), listings.drop_last()),
                items.last().0,
                items.last().1,
            ),
        )
    }
}

pub open spec fn item_names(items: Seq<(nat, Seq<char>)>) -> Seq<Seq<u8>> {
    items.map_values(|it: (nat, Seq<char>)| file_bytes(it.0))
}

/// The last items, as many as are kept.
pub open spec fn last_kept(items: Seq<(nat, Seq<char>)>) -> Seq<(nat, Seq<char>)> {
    if items.len() > KEEP {
        items.skip(items.len() - KEEP)
    } else {
        items
    }
}

/// The directory holds just these items.
spec fn holds(dir: Directory, items: Seq<(nat, Seq<char>)>) -> bool {
    &&& lists(item_names(items), dir)
    &&& forall|i: int|
        0 <= i < items.len() ==> #[trigger] dir[item_names(items)[i]] == Some(items[i].1)
}

spec fn each_behind_the_last(items: Seq<(nat, Seq<char>)>) -> bool {
    forall|i: int, j: int|
        #![trigger items[i], items[j]]
        0 <= i < j < items.len() ==> before(file_bytes(items[i].0), file_bytes(items[j].0))
}

proof fn lemma_strict_items(items: Seq<(nat, Seq<char>)>)
    requires
        each_behind_the_last(items),
    ensures
        item_names(items).no_duplicates(),
        ascending(item_names(items)) == item_names(items),
{
    let s = item_names(items);
    assert forall|i: int, j: int| #![trigger s[i], s[j]] 0 <= i < j < s.len() implies before(
        s[i],
        s[j],
    ) by {
        assert(s[i] == file_bytes(items[i].0) && s[j] == file_bytes(items[j].0));
    }
    lemma_strict_row_is_ascending(s);
}

/// Writing the next item and pruning leaves the last items.
proof fn lemma_store_step(
    dir: Directory,
    items: Seq<(nat, Seq<char>)>,
    next: (nat, Seq<char>),
    names: Seq<Seq<u8>>,
)
    requires
        items.len() <= KEEP,
        holds(dir, items),
        each_behind_the_last(items.push(next)),
        lists(names, written(dir, next.0, next.1)),
    ensures
        holds(pruned(written(dir, next.0, next.1), names), last_kept(items.push(next))),
{
    let all = items.push(next);
    let full = written(dir, next.0, next.1);
    let row = item_names(all);
    let old_row = item_names(items);
    assert(row =~= old_row.push(file_bytes(next.0)));
    lemma_strict_items(all);
    assert forall|n: Seq<u8>| #[trigger] row.contains(n) <==> full.contains_key(n) by {
        assert(old_row.contains(n) <==> dir.contains_key(n));
        if old_row.contains(n) {
            let i = choose|i: int| 0 <= i < old_row.len() && old_row[i] == n;
            assert(row[i] == n);
        }
        if row.contains(n) {
            let i = choose|i: int| 0 <= i < row.len() && row[i] == n;
            if i < old_row.len() {
                assert(old_row[i] == n);
            }
        }
        assert(row[row.len() - 1] == file_bytes(next.0));
    }
    assert forall|n: Seq<u8>| #[trigger] names.contains(n) <==> row.contains(n) by {
        assert(names.contains(n) <==> full.contains_key(n));
        assert(row.contains(n) <==> full.contains_key(n));
    }
    listings_sort_alike(names, row);
    lemma_ascending_of_listing(names);
    lemma_pruned_listing(full, names);
    let left = pruned(full, names);
    let kept = last_kept(all);
    assert(item_names(kept) =~= kept_names(names));
    assert forall|i: int| 0 <= i < kept.len() implies #[trigger] left[item_names(kept)[i]] == Some(
        kept[i].1,
    ) by {
        let c = all.len() - kept.len();
        assert(kept[i] == all[i + c]);
        assert(item_names(kept)[i] == row[i + c]);
        assert(item_names(kept).contains(item_names(kept)[i]));
        assert(left.contains_key(row[i + c]));
        if i + c < items.len() {
            assert(dir[old_row[i + c]] == Some(items[i + c].1));
            assert(before(file_bytes(all[i + c].0), file_bytes(all[all.len() - 1].0)));
            crate::order::before_is_strict(row[i + c], file_bytes(next.0));
        }
    }
}

proof fn lemma_after_storing(items: Seq<(nat, Seq<char>)>, listings: Seq<Seq<Seq<u8>>>)
    requires
        listings_fit(items, listings),
        each_behind_the_last(items),
    ensures
        holds(after_storing(items, listings), last_kept(items)),
    decreases items.len(),
{
    if items.len() == 0 {
        assert(item_names(items) =~= Seq::<Seq<u8>>::empty());
    } else {
        let front = items.drop_last();
        let fl = listings.drop_last();
        assert forall|i: int, j: int|
            #![trigger front[i], front[j]]
            0 <= i < j < front.len() implies before(
            file_bytes(front[i].0),
            file_bytes(front[j].0),
        ) by {
            assert(front[i] == items[i] && front[j] == items[j]);
        }
        lemma_after_storing(front, fl);
        let w = last_kept(front);
        let c = front.len() - w.len();
        let next = items.last();
        let pushed = w.push(next);
        assert forall|i: int, j: int|
            #![trigger pushed[i], pushed[j]]
            0 <= i < j < pushed.len() implies before(
            file_bytes(pushed[i].0),
            file_bytes(pushed[j].0),
        ) by {
            assert(pushed[i] == items[i + c] && pushed[j] == items[j + c]);
        }
        lemma_store_step(after_storing(front, fl), w, next, listings.last());
        assert(last_kept(pushed) =~= last_kept(items));
    }
}

/// The history is what was stored last, newest first, up to the cap: the read
/// side of the recorder's writes, for entries whose names follow their times.
pub proof fn history_is_what_was_stored_last(
    items: Seq<(nat, Seq<char>)>,
    listings: Seq<Seq<Seq<u8>>>,
    names: Seq<Seq<u8>>,
)
    requires
        listings_fit(items, listings),
        forall|i: int, j: int|
            #![trigger items[i], items[j]]
            0 <= i < j < items.len() ==> before(file_bytes(items[i].0), file_bytes(items[j].0)),
        lists(names, after_storing(items, listings)),
    ensures
        history_in(after_storing(items, listings), names) == last_kept(items).reverse().map_values(
            |it: (nat, Seq<char>)| (file_bytes(it.0), it.1),
        ),
{
    let dir = after_storing(items, listings);
    let w = last_kept(items);
    lemma_after_storing(items, listings);
    assert forall|i: int, j: int| #![trigger w[i], w[j]] 0 <= i < j < w.len() implies before(
        file_bytes(w[i].0),
        file_bytes(w[j].0),
    ) by {
        let c = items.len() - w.len();
        assert(w[i] == items[i + c] && w[j] == items[j + c]);
    }
    lemma_strict_items(w);
    let row = item_names(w);
    assert forall|n: Seq<u8>| #[trigger] names.contains(n) <==> row.contains(n) by {
        assert(names.contains(n) <==> dir.contains_key(n));
        assert(row.contains(n) <==> dir.contains_key(n));
    }
    listings_sort_alike(names, row);
    let order = row.reverse();
    let texts = texts_at(order, dir);
    assert forall|i: int| 0 <= i < texts.len() implies #[trigger] texts[i] == Some(
        w[w.len() - 1 - i].1,
    ) by {
        assert(dir[row[w.len() - 1 - i]] == Some(w[w.len() - 1 - i].1));
    }
    lemma_readable_of_all(order, texts);
    assert(history_in(dir, names) =~= w.reverse().map_values(
        |it: (nat, Seq<char>)| (file_bytes(it.0), it.1),
    ));
}

} // verus!
