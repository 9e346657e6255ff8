//! The order of file names, byte by byte, and sorting by it.

use vstd::prelude::*;
use vstd::relations::{sorted_by, total_ordering};
use vstd::seq_lib::{lemma_sorted_unique, to_multiset_insert};

verus! {

/// `a` and `b` agree up to position `k`, and there `a` ends or has the smaller
/// byte.
pub open spec fn falls_behind_at(a: Seq<u8>, b: Seq<u8>, k: int) -> bool {
    &&& 0 <= k <= a.len()
    &&& k < b.len()
    &&& forall|j: int| 0 <= j < k ==> a[j] == b[j]
    &&& k < a.len() ==> a[k] < b[k]
}

/// `a` stands before `b` in the order of bytes.
pub open spec fn before(a: Seq<u8>, b: Seq<u8>) -> bool {
    exists|k: int| falls_behind_at(a, b, k)
}

pub open spec fn not_after(a: Seq<u8>, b: Seq<u8>) -> bool {
    a == b || before(a, b)
}

/// The order as a relation.
pub open spec fn by_bytes() -> spec_fn(Seq<u8>, Seq<u8>) -> bool {
    |a: Seq<u8>, b: Seq<u8>| not_after(a, b)
}

/// The names in ascending order.
pub open spec fn ascending(names: Seq<Seq<u8>>) -> Seq<Seq<u8>> {
    names.sort_by(by_bytes())
}

/// Where two different byte strings first differ, one falls behind the other.
proof fn lemma_one_is_before(a: Seq<u8>, b: Seq<u8>, k: int)
    requires
        0 <= k <= a.len(),
        k <= b.len(),
        forall|j: int| 0 <= j < k ==> a[j] == b[j],
        a != b,
    ensures
        before(a, b) || before(b, a),
    decreases a.len() - k,
{
    if k == a.len() || k == b.len() {
        if a.len() == b.len() {
            assert(a =~= b);
        } else if k == a.len() {
            assert(falls_behind_at(a, b, k));
        } else {
            assert(falls_behind_at(b, a, k));
        }
    } else if a[k] < b[k] {
        assert(falls_behind_at(a, b, k));
    } else if b[k] < a[k] {
        assert(falls_behind_at(b, a, k));
    } else {
        lemma_one_is_before(a, b, k + 1);
    }
}

/// No byte string stands before itself, and of two only one before the other.
pub proof fn before_is_strict(a: Seq<u8>, b: Seq<u8>)
    requires
        before(a, b),
    ensures
        a != b,
        !before(b, a),
{
    let k = choose|k: int| falls_behind_at(a, b, k);
    if before(b, a) {
        let m = choose|m: int| falls_behind_at(b, a, m);
        if k < m {
            assert(b[k] == a[k]);
        } else if m < k {
            assert(a[m] == b[m]);
        }
    }
}

pub proof fn before_is_transitive(a: Seq<u8>, b: Seq<u8>, c: Seq<u8>)
    requires
        before(a, b),
        before(b, c),
    ensures
        before(a, c),
{
    let k = choose|k: int| falls_behind_at(a, b, k);
    let m = choose|m: int| falls_behind_at(b, c, m);
    let n = if k < m {
        k
    } else {
        m
    };
    assert(falls_behind_at(a, c, n));
}

pub proof fn before_is_total(a: Seq<u8>, b: Seq<u8>)
    ensures
        a == b || before(a, b) || before(b, a),
{
    if a != b {
        lemma_one_is_before(a, b, 0);
    }
}

pub proof fn lemma_by_bytes_is_total_ordering()
    ensures
        total_ordering(by_bytes()),
{
    let r = by_bytes();
    assert forall|a: Seq<u8>, b: Seq<u8>|
        #![trigger r(a, b), r(b, a)]
        r(a, b) && r(b, a) implies a == b by {
        if a != b {
            before_is_strict(a, b);
        }
    }
    assert forall|a: Seq<u8>, b: Seq<u8>, c: Seq<u8>|
        #![trigger r(a, b), r(b, c)]
        r(a, b) && r(b, c) implies r(a, c) by {
        if a != b && b != c {
            before_is_transitive(a, b, c);
        }
    }
    assert forall|a: Seq<u8>, b: Seq<u8>|
        #![trigger r(a, b), r(b, a)]
        r(a, b) || r(b, a) by {
        before_is_total(a, b);
    }
}

/// Whether one byte string stands before another.
pub fn is_before(a: &Vec<u8>, b: &Vec<u8>) -> (r: bool)
    ensures
        r == before(a@, b@),
{
    let mut i: usize = 0;
    while i < a.len() && i < b.len()
        invariant
            i <= a@.len(),
            i <= b@.len(),
            forall|j: int| 0 <= j < i ==> a@[j] == b@[j],
        decreases a@.len() - i,
    {
        if a[i] < b[i] {
            proof {
                assert(falls_behind_at(a@, b@, i as int));
            }
            return true;
        }
        if b[i] < a[i] {
            proof {
                assert(falls_behind_at(b@, a@, i as int));
                before_is_strict(b@, a@);
            }
            return false;
        }
        i = i + 1;
    }
    if i < b.len() {
        proof {
            assert(falls_behind_at(a@, b@, i as int));
        }
        true
    } else {
        proof {
            if i < a.len() {
                assert(falls_behind_at(b@, a@, i as int));
                before_is_strict(b@, a@);
            } else {
                assert(a@ =~= b@);
                if before(a@, b@) {
                    before_is_strict(a@, b@);
                }
            }
        }
        false
    }
}

/// What is known of the ascending order: sorted, with the same names as often.
pub proof fn ascending_is_sorted(names: Seq<Seq<u8>>)
    ensures
        ascending(names).to_multiset() == names.to_multiset(),
        ascending(names).len() == names.len(),
        sorted_by(ascending(names), by_bytes()),
{
    broadcast use vstd::seq_lib::group_to_multiset_ensures;

    lemma_by_bytes_is_total_ordering();
    names.lemma_sort_by_ensures(by_bytes());
    assert(ascending(names).to_multiset().len() == ascending(names).len());
    assert(names.to_multiset().len() == names.len());
}

/// A sorted row with the same names as often is the ascending order.
pub proof fn sorted_is_ascending(sorted: Seq<Seq<u8>>, names: Seq<Seq<u8>>)
    requires
        sorted_by(sorted, by_bytes()),
        sorted.to_multiset() == names.to_multiset(),
    ensures
        sorted == ascending(names),
{
    lemma_by_bytes_is_total_ordering();
    ascending_is_sorted(names);
    lemma_sorted_unique(sorted, ascending(names), by_bytes());
}

/// The names as byte strings.
pub open spec fn names_of(v: Seq<Vec<u8>>) -> Seq<Seq<u8>> {
    v.map_values(|n: Vec<u8>| n@)
}

/// Puts one more name at its place.
fn insert_sorted(sorted: &mut Vec<Vec<u8>>, name: Vec<u8>)
    requires
        sorted_by(names_of(old(sorted)@), by_bytes()),
    ensures
        sorted_by(names_of(final(sorted)@), by_bytes()),
        names_of(final(sorted)@).to_multiset() == names_of(old(sorted)@).to_multiset().insert(
            name@,
        ),
{
    let ghost s = names_of(sorted@);
    let mut i: usize = sorted.len();
    while i > 0 && is_before(&name, &sorted[i - 1])
        invariant
            i <= sorted@.len(),
            s == names_of(sorted@),
            forall|j: int| i <= j < s.len() ==> before(name@, #[trigger] s[j]),
        decreases i,
    {
        i = i - 1;
    }
    sorted.insert(i, name);
    proof {
        let t = names_of(sorted@);
        assert(t =~= s.insert(i as int, name@));
        to_multiset_insert(s, i as int, name@);
        assert forall|a: int, b: int| 0 <= a < b < t.len() implies #[trigger] by_bytes()(
            t[a],
            t[b],
        ) by {
            if a < i && b < i {
                assert(by_bytes()(s[a], s[b]));
            } else if a < i && b == i {
                lemma_by_bytes_is_total_ordering();
                before_is_total(name@, s[i - 1]);
                assert(by_bytes()(s[i - 1], name@));
                if a < i - 1 {
                    assert(by_bytes()(s[a], s[i - 1]));
                }
            } else if a < i {
                assert(by_bytes()(s[a], s[b - 1]));
            } else if a == i {
                assert(before(name@, s[b - 1]));
            } else {
                assert(by_bytes()(s[a - 1], s[b - 1]));
            }
        }
    }
}

/// Sorts names in ascending order.
pub fn sort_names(names: Vec<Vec<u8>>) -> (sorted: Vec<Vec<u8>>)
    ensures
        names_of(sorted@) == ascending(names_of(names@)),
{
    broadcast use vstd::seq_lib::group_to_multiset_ensures;

    let ghost all = names_of(names@);
    let mut rest: Vec<Vec<u8>> = names;
    let mut sorted: Vec<Vec<u8>> = Vec::new();
    proof {
        assert(all.take(all.len() as int) =~= all);
        assert(all.skip(all.len() as int) =~= Seq::<Seq<u8>>::empty());
        assert(names_of(sorted@) =~= Seq::<Seq<u8>>::empty());
    }
    while rest.len() > 0
        invariant
            rest@.len() <= all.len(),
            names_of(rest@) == all.take(rest@.len() as int),
            sorted_by(names_of(sorted@), by_bytes()),
            names_of(sorted@).to_multiset() == all.skip(rest@.len() as int).to_multiset(),
        decreases rest@.len(),
    {
        let ghost k = rest@.len() - 1;
        let ghost before_pop = rest@;
        let name: Vec<u8> = rest.remove(rest.len() - 1);
        proof {
            assert(names_of(rest@) =~= all.take(k as int));
            assert(name@ == names_of(before_pop)[k as int]);
            assert(name@ == all[k as int]);
            assert(all.skip(k as int) =~= all.skip(k + 1).insert(0, name@));
            to_multiset_insert(all.skip(k + 1), 0, name@);
        }
        insert_sorted(&mut sorted, name);
    }
    proof {
        assert(all.skip(0) =~= all);
        sorted_is_ascending(names_of(sorted@), all);
    }
    sorted
}

/// The order is that of words in a dictionary: nothing stands before anything,
/// then the first bytes decide, and where they are the same, what follows them.
pub proof fn the_first_bytes_decide(a: Seq<u8>, b: Seq<u8>)
    ensures
        b.len() == 0 ==> !before(a, b),
        a.len() == 0 && b.len() > 0 ==> before(a, b),
        a.len() > 0 && b.len() > 0 && a[0] < b[0] ==> before(a, b),
        a.len() > 0 && b.len() > 0 && a[0] > b[0] ==> !before(a, b),
        a.len() > 0 && b.len() > 0 && a[0] == b[0] ==> (before(a, b) <==> before(
            a.drop_first(),
            b.drop_first(),
        )),
{
    if a.len() == 0 && b.len() > 0 || a.len() > 0 && b.len() > 0 && a[0] < b[0] {
        assert(falls_behind_at(a, b, 0));
    }
    if a.len() > 0 && b.len() > 0 && a[0] == b[0] {
        let x = a.drop_first();
        let y = b.drop_first();
        if before(a, b) {
            let k = choose|k: int| falls_behind_at(a, b, k);
            assert forall|j: int| 0 <= j < k - 1 implies x[j] == y[j] by {
                assert(a[j + 1] == b[j + 1]);
            }
            assert(falls_behind_at(x, y, k - 1));
        }
        if before(x, y) {
            let k = choose|k: int| falls_behind_at(x, y, k);
            assert forall|j: int| 0 <= j < k + 1 implies a[j] == b[j] by {
                if j > 0 {
                    assert(x[j - 1] == y[j - 1]);
                }
            }
            assert(falls_behind_at(a, b, k + 1));
        }
    }
}

/// Sorting keeps every name as often as it was there, and puts no name before one
/// that stands before it.
pub proof fn sorting_keeps_and_orders(names: Seq<Seq<u8>>, i: int, j: int, name: Seq<u8>)
    requires
        0 <= i < j < names.len(),
    ensures
        ascending(names).len() == names.len(),
        ascending(names).to_multiset().count(name) == names.to_multiset().count(name),
        !before(ascending(names)[j], ascending(names)[i]),
{
    ascending_is_sorted(names);
    let s = ascending(names);
    assert(by_bytes()(s[i], s[j]));
    if before(s[j], s[i]) {
        before_is_strict(s[j], s[i]);
    }
}

/// The view of a row of names is each name by its bytes.
pub proof fn names_are_seen_by_their_bytes(v: Seq<Vec<u8>>)
    ensures
        names_of(v).len() == v.len(),
        forall|i: int| 0 <= i < v.len() ==> #[trigger] names_of(v)[i] == v[i]@,
{
}

} // verus!
