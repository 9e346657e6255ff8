//! The history on disk: one file per entry, named by the time it was stored,
//! newest kept, capped.

use vstd::prelude::*;
use vstd::utf8::encode_utf8;

use crate::digits::{padded, push_padded};
use crate::order::{ascending, names_of, sort_names};

verus! {

/// How many entries are kept.
pub const KEEP: usize = 100;

/// The name of the entry stored at some microsecond since the epoch.
pub open spec fn file_name(micros: nat) -> Seq<char> {
    padded(micros, 20) + ".txt"@
}

/// The same name as the file system holds it.
pub open spec fn file_bytes(micros: nat) -> Seq<u8> {
    encode_utf8(file_name(micros))
}

/// The names that are too many, the oldest first.
pub open spec fn stale_names(names: Seq<Seq<u8>>) -> Seq<Seq<u8>> {
    if names.len() > KEEP {
        ascending(names).take(names.len() - KEEP)
    } else {
        Seq::empty()
    }
}

/// One entry of the history: the name of its file, and its text.
pub struct Entry {
    pub name: Vec<u8>,
    pub text: String,
}

impl View for Entry {
    type V = (Seq<u8>, Seq<char>);

    open spec fn view(&self) -> (Seq<u8>, Seq<char>) {
        (self.name@, self.text@)
    }
}

pub open spec fn entries_of(v: Seq<Entry>) -> Seq<(Seq<u8>, Seq<char>)> {
    v.map_values(|e: Entry| e@)
}

/// What was read from each file: nothing, where it could not be read as text.
pub open spec fn texts_of(v: Seq<Option<String>>) -> Seq<Option<Seq<char>>> {
    v.map_values(
        |t: Option<String>|
            match t {
                Some(s) => Some(s@),
                None => None,
            },
    )
}

/// The files that could be read, in the same order.
pub open spec fn readable(names: Seq<Seq<u8>>, texts: Seq<Option<Seq<char>>>) -> Seq<
    (Seq<u8>, Seq<char>),
>
    decreases names.len(),
{
    if names.len() == 0 {
        Seq::empty()
    } else {
        let front = readable(names.drop_last(), texts.drop_last());
        match texts.last() {
            Some(t) => front.push((names.last(), t)),
            None => front,
        }
    }
}

/// The name for an entry stored now: the microseconds since the epoch, zero
/// where the clock stands before it.
pub fn entry_name(micros: Option<u128>) -> (name: String)
    ensures
        name@ == file_name(
            match micros {
                Some(m) => m as nat,
                None => 0,
            },
        ),
{
    let m: u128 = match micros {
        Some(m) => m,
        None => 0,
    };
    let mut name: String = String::new();
    push_padded(&mut name, m, 20);
    name.append(".txt");
    proof {
        assert(name@ =~= file_name(m as nat));
    }
    name
}

/// Which files of the history directory are to be removed once an entry has
/// been written, in the order in which they are removed.
pub fn stale(names: Vec<Vec<u8>>) -> (gone: Vec<Vec<u8>>)
    ensures
        names_of(gone@) == stale_names(names_of(names@)),
{
    let ghost all = names_of(names@);
    let mut gone: Vec<Vec<u8>> = sort_names(names);
    proof {
        crate::order::ascending_is_sorted(all);
        assert(names_of(gone@).len() == gone@.len());
    }
    let n: usize = gone.len();
    if n > KEEP {
        gone.truncate(n - KEEP);
        proof {
            assert(names_of(gone@) =~= ascending(all).take(n - KEEP));
        }
    } else {
        gone.clear();
        proof {
            assert(names_of(gone@) =~= Seq::<Seq<u8>>::empty());
        }
    }
    gone
}

/// The names of the history directory, newest first.
pub fn newest_first(names: Vec<Vec<u8>>) -> (sorted: Vec<Vec<u8>>)
    ensures
        names_of(sorted@) == ascending(names_of(names@)).reverse(),
{
    let mut rest: Vec<Vec<u8>> = sort_names(names);
    let ghost all = rest@;
    let mut sorted: Vec<Vec<u8>> = Vec::new();
    while rest.len() > 0
        invariant
            rest@.len() + sorted@.len() == all.len(),
            rest@ == all.take(rest@.len() as int),
            forall|j: int| 0 <= j < sorted@.len() ==> #[trigger] sorted@[j] == all[all.len() - 1 - j],
        decreases rest@.len(),
    {
        let ghost k = rest@.len() - 1;
        let name: Vec<u8> = rest.remove(rest.len() - 1);
        proof {
            assert(rest@ =~= all.take(k as int));
        }
        sorted.push(name);
    }
    proof {
        assert(names_of(sorted@) =~= names_of(all).reverse());
    }
    sorted
}

/// The entries of the history: the files that could be read, as they come.
pub fn entries(names: Vec<Vec<u8>>, texts: Vec<Option<String>>) -> (list: Vec<Entry>)
    requires
        names@.len() == texts@.len(),
    ensures
        entries_of(list@) == readable(names_of(names@), texts_of(texts@)),
{
    let ghost all_names = names_of(names@);
    let ghost all_texts = texts_of(texts@);
    let n: usize = names.len();
    let mut list: Vec<Entry> = Vec::new();
    let mut i: usize = 0;
    proof {
        assert(entries_of(list@) =~= readable(all_names.take(0), all_texts.take(0)));
    }
    while i < n
        invariant
            i <= n == names@.len() == texts@.len(),
            all_names == names_of(names@),
            all_texts == texts_of(texts@),
            entries_of(list@) == readable(all_names.take(i as int), all_texts.take(i as int)),
        decreases n - i,
    {
        let ghost front = list@;
        proof {
            assert(all_names.take(i + 1).drop_last() =~= all_names.take(i as int));
            assert(all_texts.take(i + 1).drop_last() =~= all_texts.take(i as int));
        }
        match &texts[i] {
            Some(t) => {
                let name: Vec<u8> = copied(&names[i]);
                let text: String = t.clone();
                list.push(Entry { name, text });
                proof {
                    assert(entries_of(list@) =~= entries_of(front).push(
                        (all_names[i as int], t@),
                    ));
                }
            },
            None => {},
        }
        i = i + 1;
    }
    proof {
        assert(all_names.take(n as int) =~= all_names);
        assert(all_texts.take(n as int) =~= all_texts);
    }
    list
}

/// A copy of a name.
pub fn copied(name: &Vec<u8>) -> (copy: Vec<u8>)
    ensures
        copy@ == name@,
{
    let mut copy: Vec<u8> = Vec::new();
    copy.extend_from_slice(name.as_slice());
    proof {
        assert(copy@ =~= name@);
    }
    copy
}

/// The text of the newest entry, if there is one.
pub fn newest(list: &Vec<Entry>) -> (text: Option<String>)
    ensures
        match text {
            Some(t) => list@.len() > 0 && t@ == list@[0].text@,
            None => list@.len() == 0,
        },
{
    if list.len() > 0 {
        Some(list[0].text.clone())
    } else {
        None
    }
}

/// The name of an entry is its time in decimal, of at least twenty digits, with
/// zeros in front only as far as they are needed for that, and an ending.
pub proof fn a_name_spells_its_time(micros: nat)
    ensures
        ({
            let name = file_name(micros);
            let n = name.len() - 4;
            &&& n >= 20
            &&& n > 20 ==> name[0] != '0'
            &&& forall|i: int| 0 <= i < n ==> '0' <= #[trigger] name[i] <= '9'
            &&& crate::digits::value(name.take(n)) == micros
            &&& name.skip(n) == ".txt"@
        }),
{
    reveal_strlit(".txt");
    let name = file_name(micros);
    let n = name.len() - 4;
    let d = padded(micros, 20);
    crate::digits::padded_spells(micros, 20);
    crate::digits::padding_fills_the_width(micros, 20);
    crate::digits::decimal_spells(micros);
    crate::digits::decimal_has_no_leading_zeros(micros);
    assert(name.take(n) =~= d);
    assert(name.skip(n) =~= ".txt"@);
    assert forall|i: int| 0 <= i < n implies '0' <= #[trigger] name[i] <= '9' by {
        assert(name[i] == d[i]);
        assert(crate::digits::is_digit(d[i]));
    }
}

/// What is too much is removed and no more: of more than a hundred names so many
/// that a hundred are left, and none of fewer. No name that is left stands before
/// one that is removed.
pub proof fn just_what_is_too_much_is_stale(names: Seq<Seq<u8>>, i: int, j: int)
    ensures
        stale_names(names).len() == if names.len() > 100 {
            (names.len() - 100) as nat
        } else {
            0
        },
        stale_names(names).is_prefix_of(ascending(names)),
        0 <= i < stale_names(names).len() <= j < names.len() ==> !crate::order::before(
            ascending(names)[j],
            stale_names(names)[i],
        ),
{
    crate::order::ascending_is_sorted(names);
    let gone = stale_names(names);
    assert(ascending(names).subrange(0, gone.len() as int) =~= gone);
    if 0 <= i < gone.len() <= j < names.len() {
        crate::order::sorting_keeps_and_orders(names, i, j, gone[i]);
    }
}

/// A history is read file by file: what could be read of one row of files and then
/// of another is what could be read of both. Of one file there is an entry with
/// its name and its text, or none where it could not be read.
pub proof fn a_history_is_read_file_by_file(
    names: Seq<Seq<u8>>,
    texts: Seq<Option<Seq<char>>>,
    more: Seq<Seq<u8>>,
    their: Seq<Option<Seq<char>>>,
    name: Seq<u8>,
    text: Seq<char>,
)
    requires
        names.len() == texts.len(),
        more.len() == their.len(),
    ensures
        readable(names + more, texts + their) == readable(names, texts) + readable(more, their),
        readable(seq![name], seq![Some(text)]) == seq![(name, text)],
        readable(seq![name], seq![None::<Seq<char>>]) == Seq::<(Seq<u8>, Seq<char>)>::empty(),
    decreases more.len(),
{
    let none = Seq::<Seq<u8>>::empty();
    let no = Seq::<Option<Seq<char>>>::empty();
    assert(seq![name].drop_last() =~= none);
    assert(seq![Some(text)].drop_last() =~= no);
    assert(seq![None::<Seq<char>>].drop_last() =~= no);
    assert(readable(none, no) =~= Seq::<(Seq<u8>, Seq<char>)>::empty());
    assert(readable(seq![name], seq![Some(text)]) =~= seq![(name, text)]);
    if more.len() == 0 {
        assert(names + more =~= names);
        assert(texts + their =~= texts);
        assert(readable(names, texts) + readable(more, their) =~= readable(names, texts));
    } else {
        a_history_is_read_file_by_file(
            names,
            texts,
            more.drop_last(),
            their.drop_last(),
            name,
            text,
        );
        assert((names + more).drop_last() =~= names + more.drop_last());
        assert((texts + their).drop_last() =~= texts + their.drop_last());
        assert((texts + their).last() == their.last());
        assert((names + more).last() == more.last());
        assert(readable(names + more, texts + their) =~= readable(names, texts) + readable(
            more,
            their,
        ));
    }
}

/// The views of entries and of what was read leave nothing of them out.
pub proof fn views_are_faithful(list: Seq<Entry>, texts: Seq<Option<String>>)
    ensures
        entries_of(list).len() == list.len(),
        forall|i: int|
            0 <= i < list.len() ==> #[trigger] entries_of(list)[i] == (
                list[i].name@,
                list[i].text@,
            ),
        texts_of(texts).len() == texts.len(),
        forall|i: int|
            0 <= i < texts.len() ==> #[trigger] texts_of(texts)[i] == match texts[i] {
                Some(t) => Some(t@),
                None => None,
            },
{
}

} // verus!
