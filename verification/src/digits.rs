//! Numbers in decimal: written, padded with zeros, and read back.

use vstd::arithmetic::div_mod::lemma_div_denominator;
use vstd::arithmetic::power::{lemma_pow0, lemma_pow_positive, pow};
use vstd::prelude::*;

use crate::text::chars_of;

verus! {

/// The digit that stands for `d`.
pub open spec fn digit(d: nat) -> char {
    (0x30 + d) as char
}

pub open spec fn is_digit(c: char) -> bool {
    '0' <= c <= '9'
}

/// What a digit counts.
pub open spec fn digit_value(c: char) -> nat {
    (c as u32 - 0x30) as nat
}

/// `n` written in decimal, without leading zeros.
pub open spec fn decimal(n: nat) -> Seq<char>
    decreases n,
{
    if n < 10 {
        seq![digit(n)]
    } else {
        decimal(n / 10).push(digit(n % 10))
    }
}

pub open spec fn zeros(k: nat) -> Seq<char> {
    Seq::new(k, |i: int| '0')
}

/// `n` in decimal, with zeros in front up to `width` characters.
pub open spec fn padded(n: nat, width: nat) -> Seq<char> {
    let d = decimal(n);
    if d.len() < width {
        zeros((width - d.len()) as nat) + d
    } else {
        d
    }
}

pub open spec fn all_digits(s: Seq<char>) -> bool {
    forall|i: int| 0 <= i < s.len() ==> is_digit(#[trigger] s[i])
}

/// The number that a row of digits spells.
pub open spec fn value(s: Seq<char>) -> nat
    decreases s.len(),
{
    if s.len() == 0 {
        0
    } else {
        value(s.drop_last()) * 10 + digit_value(s.last())
    }
}

/// `s` without a plus sign in front.
pub open spec fn unsigned_part(s: Seq<char>) -> Seq<char> {
    if s.len() > 0 && s[0] == '+' {
        s.drop_first()
    } else {
        s
    }
}

/// The 32-bit number that `s` spells: digits only, at least one, possibly
/// behind a plus sign, and not too large.
pub open spec fn u32_spelled(s: Seq<char>) -> Option<u32> {
    let d = unsigned_part(s);
    if d.len() > 0 && all_digits(d) && value(d) <= u32::MAX {
        Some(value(d) as u32)
    } else {
        None
    }
}

fn digit_char(d: u128) -> (c: char)
    requires
        d < 10,
    ensures
        c == digit(d as nat),
{
    if d == 0 {
        '0'
    } else if d == 1 {
        '1'
    } else if d == 2 {
        '2'
    } else if d == 3 {
        '3'
    } else if d == 4 {
        '4'
    } else if d == 5 {
        '5'
    } else if d == 6 {
        '6'
    } else if d == 7 {
        '7'
    } else if d == 8 {
        '8'
    } else {
        '9'
    }
}

/// Appends `n` in decimal.
pub fn push_decimal(s: &mut String, n: u128)
    ensures
        final(s)@ == old(s)@ + decimal(n as nat),
    decreases n,
{
    if n >= 10 {
        push_decimal(s, n / 10);
    }
    s.push(digit_char(n % 10));
    proof {
        assert(s@ =~= old(s)@ + decimal(n as nat));
    }
}

/// How many characters `n` takes in decimal.
fn decimal_len(n: u128) -> (k: usize)
    ensures
        k == decimal(n as nat).len(),
        1 <= k <= 39,
{
    let mut rest: u128 = n;
    let mut k: usize = 1;
    proof {
        lemma_pow0(10);
    }
    while rest >= 10
        invariant
            decimal(n as nat).len() == decimal(rest as nat).len() + k - 1,
            1 <= k,
            rest as int * pow(10, (k - 1) as nat) <= n,
            k <= 39,
        decreases rest,
    {
        proof {
            assert(pow(10, k as nat) == 10 * pow(10, (k - 1) as nat)) by {
                reveal(pow);
            }
            let p = pow(10, (k - 1) as nat);
            lemma_pow_positive(10, (k - 1) as nat);
            let r = rest as int;
            assert((r / 10) * (10 * p) <= r * p) by (nonlinear_arith)
                requires
                    r >= 0,
                    p > 0,
            ;
            if k == 39 {
                lemma_pow_38();
                assert(r * p >= 10 * p) by (nonlinear_arith)
                    requires
                        r >= 10,
                        p > 0,
                ;
            }
        }
        rest = rest / 10;
        k = k + 1;
    }
    k
}

proof fn lemma_pow_38()
    ensures
        10 * pow(10, 38) > u128::MAX,
{
    reveal_with_fuel(pow, 39);
}

/// Appends `n` in decimal, with zeros in front up to `width` characters.
pub fn push_padded(s: &mut String, n: u128, width: usize)
    ensures
        final(s)@ == old(s)@ + padded(n as nat, width as nat),
{
    let d: usize = decimal_len(n);
    let ghost start = s@;
    let mut k: usize = d;
    while k < width
        invariant
            d == decimal(n as nat).len(),
            d <= k,
            k <= width || k == d,
            s@ == start + zeros((k - d) as nat),
        decreases width - k,
    {
        s.push('0');
        proof {
            assert(zeros((k - d) as nat).push('0') =~= zeros((k + 1 - d) as nat));
        }
        k = k + 1;
    }
    proof {
        assert(s@ =~= start + zeros((k - d) as nat));
    }
    push_decimal(s, n);
    proof {
        assert(s@ =~= start + padded(n as nat, width as nat));
    }
}

/// The number that a string spells, if it spells one.
pub fn parse_u32(s: &str) -> (r: Option<u32>)
    ensures
        r == u32_spelled(s@),
{
    let v: Vec<char> = chars_of(s);
    let n: usize = v.len();
    let start: usize = if n > 0 && v[0] == '+' {
        1
    } else {
        0
    };
    let ghost d = unsigned_part(s@);
    proof {
        assert(d =~= v@.subrange(start as int, n as int));
    }
    if start == n {
        return None;
    }
    let mut total: u64 = 0;
    let mut i: usize = start;
    while i < n
        invariant
            v@ == s@,
            start <= i <= n == v@.len(),
            d == unsigned_part(s@),
            d == v@.subrange(start as int, n as int),
            d.len() > 0,
            total <= u32::MAX,
            all_digits(d.take(i - start)),
            value(d.take(i - start)) == total,
        decreases n - i,
    {
        let c: char = v[i];
        let ghost k = i - start;
        proof {
            assert(d[k] == c);
            assert(d.take(k + 1).drop_last() =~= d.take(k));
        }
        if c < '0' || c > '9' {
            return None;
        }
        total = total * 10 + (c as u32 - 0x30) as u64;
        proof {
            assert(value(d.take(k + 1)) == total);
            assert forall|j: int| 0 <= j < k + 1 implies is_digit(#[trigger] d.take(k + 1)[j]) by {
                if j < k {
                    assert(d.take(k)[j] == d[j]);
                }
            }
        }
        if total > u32::MAX as u64 {
            proof {
                lemma_value_of_prefix(d, k + 1);
            }
            return None;
        }
        i = i + 1;
    }
    proof {
        assert(d.take(n - start) =~= d);
    }
    Some(total as u32)
}

/// A prefix never counts more than the whole.
proof fn lemma_value_of_prefix(s: Seq<char>, k: int)
    requires
        0 <= k <= s.len(),
    ensures
        value(s.take(k)) <= value(s),
    decreases s.len(),
{
    if k == s.len() {
        assert(s.take(k) =~= s);
    } else {
        lemma_value_of_prefix(s.drop_last(), k);
        assert(s.drop_last().take(k) =~= s.take(k));
    }
}

/// What a number written in decimal looks like: digits, at least one, that
/// spell the number.
pub proof fn decimal_spells(n: nat)
    ensures
        decimal(n).len() > 0,
        all_digits(decimal(n)),
        value(decimal(n)) == n,
    decreases n,
{
    if n < 10 {
        assert(decimal(n).drop_last() =~= Seq::<char>::empty());
        assert(value(decimal(n).drop_last()) == 0);
    } else {
        decimal_spells(n / 10);
        assert(decimal(n).drop_last() =~= decimal(n / 10));
        assert forall|i: int| 0 <= i < decimal(n).len() implies is_digit(#[trigger] decimal(n)[i]) by {
            if i < decimal(n / 10).len() {
                assert(decimal(n)[i] == decimal(n / 10)[i]);
            }
        }
    }
}

/// Zeros in front change nothing of what is spelled.
pub proof fn padded_spells(n: nat, width: nat)
    ensures
        padded(n, width).len() >= width,
        padded(n, width).len() >= decimal(n).len(),
        all_digits(padded(n, width)),
        value(padded(n, width)) == n,
{
    decimal_spells(n);
    let d = decimal(n);
    if d.len() < width {
        lemma_zeros_count_nothing((width - d.len()) as nat, d);
        let p = padded(n, width);
        assert forall|i: int| 0 <= i < p.len() implies is_digit(#[trigger] p[i]) by {
            if i >= width - d.len() {
                assert(p[i] == d[i - (width - d.len())]);
            }
        }
    }
}

proof fn lemma_zeros_count_nothing(k: nat, d: Seq<char>)
    ensures
        value(zeros(k) + d) == value(d),
    decreases k + d.len(),
{
    let s = zeros(k) + d;
    if d.len() > 0 {
        assert(s.drop_last() =~= zeros(k) + d.drop_last());
        lemma_zeros_count_nothing(k, d.drop_last());
    } else if k > 0 {
        assert(s.drop_last() =~= zeros((k - 1) as nat) + d);
        lemma_zeros_count_nothing((k - 1) as nat, d);
    }
}

/// A number written in decimal is read back as that number.
pub proof fn decimal_reads_back(n: u32)
    ensures
        u32_spelled(decimal(n as nat)) == Some(n),
{
    decimal_spells(n as nat);
    assert(is_digit(decimal(n as nat)[0]));
}

/// Two rows of digits of one length that spell one number are the same row.
pub proof fn lemma_same_value_same_digits(x: Seq<char>, y: Seq<char>)
    requires
        x.len() == y.len(),
        all_digits(x),
        all_digits(y),
        value(x) == value(y),
    ensures
        x == y,
    decreases x.len(),
{
    if x.len() > 0 {
        lemma_front_and_last(x);
        lemma_front_and_last(y);
        lemma_same_value_same_digits(x.drop_last(), y.drop_last());
        assert(x =~= x.drop_last().push(x.last()));
        assert(y =~= y.drop_last().push(y.last()));
    } else {
        assert(x =~= y);
    }
}

proof fn lemma_front_and_last(x: Seq<char>)
    requires
        x.len() > 0,
        all_digits(x),
    ensures
        all_digits(x.drop_last()),
        is_digit(x.last()),
        digit_value(x.last()) < 10,
        value(x) == value(x.drop_last()) * 10 + digit_value(x.last()),
{
    assert forall|i: int| 0 <= i < x.len() - 1 implies is_digit(#[trigger] x.drop_last()[i]) by {
        assert(x.drop_last()[i] == x[i]);
    }
}

/// Of two rows of digits of one length, the smaller number has the smaller
/// digit where they first differ.
pub proof fn lemma_smaller_value_differs_first(x: Seq<char>, y: Seq<char>) -> (k: int)
    requires
        x.len() == y.len(),
        all_digits(x),
        all_digits(y),
        value(x) < value(y),
    ensures
        0 <= k < x.len(),
        x[k] < y[k],
        forall|j: int| 0 <= j < k ==> x[j] == y[j],
    decreases x.len(),
{
    lemma_front_and_last(x);
    lemma_front_and_last(y);
    let fx = x.drop_last();
    let fy = y.drop_last();
    if value(fx) < value(fy) {
        let k = lemma_smaller_value_differs_first(fx, fy);
        assert(forall|j: int| 0 <= j < x.len() - 1 ==> fx[j] == x[j] && fy[j] == y[j]);
        k
    } else {
        lemma_same_value_same_digits(fx, fy);
        assert(forall|j: int| 0 <= j < x.len() - 1 ==> fx[j] == x[j] && fy[j] == y[j]);
        x.len() - 1
    }
}

/// The first `k` digits spell the number without its last places.
pub proof fn lemma_value_of_front(s: Seq<char>, k: int)
    requires
        0 <= k <= s.len(),
        all_digits(s),
    ensures
        all_digits(s.take(k)),
        value(s.take(k)) == value(s) as int / pow(10, (s.len() - k) as nat),
    decreases s.len(),
{
    if k == s.len() {
        assert(s.take(k) =~= s);
        lemma_pow0(10);
    } else {
        lemma_front_and_last(s);
        let f = s.drop_last();
        lemma_value_of_front(f, k);
        assert(f.take(k) =~= s.take(k));
        let j = (f.len() - k) as nat;
        lemma_pow_positive(10, j);
        assert(pow(10, j + 1) == 10 * pow(10, j)) by {
            reveal(pow);
        }
        lemma_div_denominator(value(s) as int, 10, pow(10, j));
        assert(value(s) as int / 10 == value(f));
    }
}

/// What a row of digits spells: nothing is zero, and each digit behind it counts
/// itself and makes what stands before it ten times as much.
pub proof fn each_digit_counts_tenfold(s: Seq<char>, c: char)
    requires
        '0' <= c <= '9',
    ensures
        value(Seq::empty()) == 0,
        value(s.push(c)) == 10 * value(s) + (c as int - '0' as int),
{
    assert(s.push(c).drop_last() =~= s);
}

/// A number is written without needless zeros in front.
pub proof fn decimal_has_no_leading_zeros(n: nat)
    ensures
        n > 0 ==> decimal(n)[0] != '0',
        n == 0 ==> decimal(n) == seq!['0'],
    decreases n,
{
    if n >= 10 {
        decimal_has_no_leading_zeros(n / 10);
        decimal_spells(n / 10);
        assert(decimal(n)[0] == decimal(n / 10)[0]);
    }
}

/// A number is padded just up to the width, with zeros in front of what is
/// written without padding.
pub proof fn padding_fills_the_width(n: nat, width: nat)
    ensures
        padded(n, width).len() == if decimal(n).len() < width {
            width
        } else {
            decimal(n).len()
        },
        decimal(n).is_suffix_of(padded(n, width)),
        forall|i: int|
            0 <= i < padded(n, width).len() - decimal(n).len() ==> #[trigger] padded(n, width)[i]
                == '0',
{
    let p = padded(n, width);
    assert(p.subrange((p.len() - decimal(n).len()) as int, p.len() as int) =~= decimal(n));
}

/// Just those strings are read as a number: one digit or more that spell it, and
/// the same with a plus sign in front.
pub proof fn what_is_read_as_a_number(s: Seq<char>, n: u32)
    ensures
        u32_spelled(seq!['+'] + s) == Some(n) <==> s.len() > 0 && value(s) == n && forall|i: int|
            0 <= i < s.len() ==> '0' <= #[trigger] s[i] <= '9',
        s.len() == 0 || s[0] != '+' ==> u32_spelled(s) == u32_spelled(seq!['+'] + s),
{
    let signed = seq!['+'] + s;
    assert(unsigned_part(signed) =~= s);
    if forall|i: int| 0 <= i < s.len() ==> '0' <= #[trigger] s[i] <= '9' {
        assert forall|i: int| 0 <= i < s.len() implies is_digit(#[trigger] s[i]) by {
            assert('0' <= s[i] <= '9');
        }
    }
    if all_digits(s) {
        assert forall|i: int| 0 <= i < s.len() implies '0' <= #[trigger] s[i] <= '9' by {
            assert(is_digit(s[i]));
        }
    }
}

} // verus!
