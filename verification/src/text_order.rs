use crate::bytes::{bytes_lt, bytes_lt_at};
use crate::decimal::order_of_sign;
use crate::value::bytes_order;
use vstd::prelude::*;

verus! {

/// The greatest number of bytes of a text that has a rank: no text in
/// memory is longer.
pub open spec fn text_limit() -> nat {
    0xFFFF_FFFF_FFFF_FFFF
}

/// The digit that stands for the byte at place `k` of a text: one more than
/// the byte, and zero behind the end of the text.
pub open spec fn text_digit(s: Seq<u8>, k: nat) -> int {
    if k < s.len() {
        s[k as int] + 1
    } else {
        0
    }
}

/// The first `k` digits of a text read as a number to the base 257.
pub open spec fn text_number(s: Seq<u8>, k: nat) -> int
    decreases k,
{
    if k == 0 {
        0
    } else {
        257 * text_number(s, (k - 1) as nat) + text_digit(s, (k - 1) as nat)
    }
}

/// The rank of a text among all texts of at most [`text_limit`] bytes: the
/// text, filled up with zero digits, read as a number.
pub open spec fn text_rank(s: Seq<u8>) -> int {
    text_number(s, text_limit())
}

/// Texts that agree on their first `p` bytes agree on the number of their
/// first `k <= p` digits.
proof fn lemma_same_front(x: Seq<u8>, y: Seq<u8>, p: int, k: nat)
    requires
        0 <= p <= x.len(),
        p <= y.len(),
        x.subrange(0, p) == y.subrange(0, p),
        k <= p,
    ensures
        text_number(x, k) == text_number(y, k),
    decreases k,
{
    if k > 0 {
        lemma_same_front(x, y, p, (k - 1) as nat);
        assert(x.subrange(0, p)[k - 1] == x[k - 1]);
        assert(y.subrange(0, p)[k - 1] == y[k - 1]);
        assert(text_digit(x, (k - 1) as nat) == text_digit(y, (k - 1) as nat));
    }
}

/// Once the digits of one text spell less than those of another, they do so
/// however many more digits are read.
proof fn lemma_stays_less(x: Seq<u8>, y: Seq<u8>, k: nat, n: nat)
    requires
        k <= n,
        text_number(x, k) < text_number(y, k),
    ensures
        text_number(x, n) < text_number(y, n),
    decreases n,
{
    if n > k {
        lemma_stays_less(x, y, k, (n - 1) as nat);
    }
}

/// A text that sorts before another has the smaller rank.
pub proof fn lemma_less_rank(x: Seq<u8>, y: Seq<u8>)
    requires
        y.len() <= text_limit(),
        bytes_lt(x, y),
    ensures
        text_rank(x) < text_rank(y),
{
    let p = choose|p: int| bytes_lt_at(x, y, p);
    lemma_same_front(x, y, p, p as nat);
    assert(text_number(x, (p + 1) as nat) == 257 * text_number(x, p as nat) + text_digit(
        x,
        p as nat,
    ));
    assert(text_number(y, (p + 1) as nat) == 257 * text_number(y, p as nat) + text_digit(
        y,
        p as nat,
    ));
    lemma_stays_less(x, y, (p + 1) as nat, text_limit());
}

/// Of two different texts one sorts before the other.
pub proof fn lemma_one_sorts_first(x: Seq<u8>, y: Seq<u8>)
    requires
        x != y,
    ensures
        bytes_lt(x, y) || bytes_lt(y, x),
{
    if exists|i: int| 0 <= i < x.len() && i < y.len() && x[i] != y[i] {
        let i = choose|i: int| 0 <= i < x.len() && i < y.len() && x[i] != y[i];
        let j = lemma_first_gap(x, y, i);
        if x[j] < y[j] {
            assert(bytes_lt_at(x, y, j));
        } else {
            assert(bytes_lt_at(y, x, j));
        }
    } else if x.len() < y.len() {
        assert(x.subrange(0, x.len() as int) =~= y.subrange(0, x.len() as int));
        assert(bytes_lt_at(x, y, x.len() as int));
    } else if y.len() < x.len() {
        assert(y.subrange(0, y.len() as int) =~= x.subrange(0, y.len() as int));
        assert(bytes_lt_at(y, x, y.len() as int));
    } else {
        assert(x =~= y);
    }
}

/// The first place at which two texts differ.
proof fn lemma_first_gap(x: Seq<u8>, y: Seq<u8>, n: int) -> (j: int)
    requires
        0 <= n < x.len(),
        n < y.len(),
        x[n] != y[n],
    ensures
        0 <= j <= n,
        x[j] != y[j],
        x.subrange(0, j) == y.subrange(0, j),
    decreases n,
{
    if exists|i: int| 0 <= i < n && x[i] != y[i] {
        let i = choose|i: int| 0 <= i < n && x[i] != y[i];
        lemma_first_gap(x, y, i)
    } else {
        assert(x.subrange(0, n) =~= y.subrange(0, n));
        n
    }
}

/// Texts of at most [`text_limit`] bytes are ordered as their ranks are,
/// and are the same text where their ranks are the same.
pub proof fn lemma_text_order(x: Seq<u8>, y: Seq<u8>)
    requires
        x.len() <= text_limit(),
        y.len() <= text_limit(),
    ensures
        bytes_order(x, y) == order_of_sign(text_rank(x) - text_rank(y)),
        (x == y) == (text_rank(x) == text_rank(y)),
{
    if x != y {
        lemma_one_sorts_first(x, y);
        if bytes_lt(x, y) {
            lemma_less_rank(x, y);
        } else {
            lemma_less_rank(y, x);
        }
    }
}

/// No rank of a text is below zero.
pub proof fn lemma_rank_not_negative(s: Seq<u8>)
    ensures
        text_rank(s) >= 0,
{
    lemma_number_not_negative(s, text_limit());
}

proof fn lemma_number_not_negative(s: Seq<u8>, k: nat)
    ensures
        text_number(s, k) >= 0,
    decreases k,
{
    if k > 0 {
        lemma_number_not_negative(s, (k - 1) as nat);
    }
}

} // verus!
