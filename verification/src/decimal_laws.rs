use crate::decimal::{
    decimal_order_of, magnitude, order_of_sign, pow10, DECIMAL_MAX_MANTISSA, DECIMAL_MAX_SCALE,
};
use crate::memcomparable::{
    centimal_digits, complemented, decimal_aligned, decimal_encode, decimal_exponent,
    decimal_significand, digits10, lemma_digits10_bound, strip_zeros10, trailing_zeros10,
};
use crate::key_laws::{
    bytes_lt_strict, bytes_lt_within, lemma_strict_extends, lemma_strict_same_front,
};
use vstd::prelude::*;

verus! {

/// `x` with `d` zeros behind it in decimal.
pub open spec fn shifted10(x: nat, d: nat) -> nat
    decreases d,
{
    if d == 0 {
        x
    } else {
        10 * shifted10(x, (d - 1) as nat)
    }
}

/// The digit pair number `j` of `x`, counted from the least significant.
pub open spec fn pair_at(x: nat, j: nat) -> nat
    decreases j,
{
    if j == 0 {
        x % 100
    } else {
        pair_at(x / 100, (j - 1) as nat)
    }
}

/// The number of digit pairs of `x`; none for zero.
pub open spec fn pairs(x: nat) -> nat
    decreases x,
{
    if x == 0 {
        0
    } else {
        1 + pairs(x / 100)
    }
}

/// The magnitude of `m / 10^s` in units of `10^-30`.
pub open spec fn scaled(m: int, s: nat) -> nat {
    shifted10(magnitude(m), (30 - s) as nat)
}

/// Zeros put behind a number one lot after another add up.
pub proof fn lemma_shift_add(x: nat, a: nat, b: nat)
    ensures
        shifted10(shifted10(x, a), b) == shifted10(x, a + b),
    decreases b,
{
    if b > 0 {
        lemma_shift_add(x, a, (b - 1) as nat);
        assert(shifted10(x, a + b) == 10 * shifted10(x, (a + b - 1) as nat));
    }
}

/// Putting `d` zeros behind a number multiplies it by `10^d`.
pub proof fn lemma_shift_mul(x: nat, d: nat)
    ensures
        shifted10(x, d) == x * pow10(d),
        pow10(d) > 0,
    decreases d,
{
    if d > 0 {
        lemma_shift_mul(x, (d - 1) as nat);
        let p = pow10((d - 1) as nat);
        assert(10 * (x * p) == x * (10 * p)) by (nonlinear_arith);
    } else {
        assert(x * 1 == x);
    }
}

/// Zeros behind two numbers keep their order.
pub proof fn lemma_shift_order(x: nat, y: nat, d: nat)
    ensures
        x < y <==> shifted10(x, d) < shifted10(y, d),
        x == y <==> shifted10(x, d) == shifted10(y, d),
        x > 0 <==> shifted10(x, d) > 0,
    decreases d,
{
    if d > 0 {
        lemma_shift_order(x, y, (d - 1) as nat);
    }
}

/// A number is what is left of it without the zeros at its end, with those
/// zeros behind it.
pub proof fn lemma_strip(m: nat)
    requires
        m > 0,
    ensures
        m == shifted10(strip_zeros10(m), trailing_zeros10(m)),
        strip_zeros10(m) % 10 != 0,
        strip_zeros10(m) > 0,
        digits10(m) == digits10(strip_zeros10(m)) + trailing_zeros10(m),
    decreases m,
{
    if m % 10 == 0 {
        lemma_strip(m / 10);
    }
}

/// A zero behind a number is one more digit.
pub proof fn lemma_shift_digits(x: nat, d: nat)
    requires
        x > 0,
    ensures
        digits10(shifted10(x, d)) == digits10(x) + d,
    decreases d,
{
    if d > 0 {
        lemma_shift_digits(x, (d - 1) as nat);
        lemma_shift_order(x, x, (d - 1) as nat);
        let y = shifted10(x, (d - 1) as nat);
        assert((10 * y) / 10 == y);
    }
}

/// A number has half as many digit pairs as digits, rounded up.
pub proof fn lemma_pairs_of_digits(x: nat)
    ensures
        pairs(x) == (digits10(x) + 1) / 2,
    decreases x,
{
    if x >= 100 {
        lemma_pairs_of_digits(x / 100);
        assert((x / 10) / 10 == x / 100);
        assert(x / 10 != 0);
        assert(digits10(x) == 1 + digits10(x / 10));
        assert(digits10(x / 10) == 1 + digits10(x / 100));
    } else if x >= 10 {
        assert(x / 100 == 0);
        assert(x / 10 / 10 == 0);
        assert(digits10(x) == 1 + digits10(x / 10));
        assert(digits10(x / 10) == 1 + digits10(x / 10 / 10));
        assert(pairs(x) == 1 + pairs(x / 100));
    } else if x > 0 {
        assert(x / 100 == 0);
        assert(x / 10 == 0);
        assert(digits10(x) == 1 + digits10(x / 10));
        assert(pairs(x) == 1 + pairs(x / 100));
    }
}

/// Two zeros behind a number move its digit pairs up by one.
pub proof fn lemma_pair_shift(x: nat, d: nat, j: nat)
    ensures
        pair_at(shifted10(x, 2 * d), j) == if j < d {
            0
        } else {
            pair_at(x, (j - d) as nat)
        },
        x > 0 ==> pairs(shifted10(x, 2 * d)) == pairs(x) + d,
    decreases d,
{
    if d > 0 {
        let y = shifted10(x, (2 * d - 2) as nat);
        assert(shifted10(x, 2 * d) == 10 * shifted10(x, (2 * d - 1) as nat));
        assert(shifted10(x, (2 * d - 1) as nat) == 10 * y);
        let z = shifted10(x, 2 * d);
        assert(z == 100 * y);
        assert(z / 100 == y);
        assert(z % 100 == 0);
        lemma_shift_order(x, x, (2 * d - 2) as nat);
        assert(2 * (d - 1) == 2 * d - 2);
        if j > 0 {
            lemma_pair_shift(x, (d - 1) as nat, (j - 1) as nat);
        } else {
            lemma_pair_shift(x, (d - 1) as nat, 0);
        }
        if x > 0 {
            assert(z != 0);
            assert(pairs(z) == 1 + pairs(z / 100));
        }
    }
}

/// A digit pair is below 100; above the pairs of a number all are zero, and
/// the topmost pair of a number is not.
pub proof fn lemma_pair_range(x: nat, j: nat)
    ensures
        pair_at(x, j) < 100,
        j >= pairs(x) ==> pair_at(x, j) == 0,
        x > 0 && j + 1 == pairs(x) ==> pair_at(x, j) > 0,
    decreases j,
{
    if j > 0 {
        lemma_pair_range(x / 100, (j - 1) as nat);
        if x > 0 {
            assert(pairs(x) == 1 + pairs(x / 100));
            if j + 1 == pairs(x) {
                assert(x / 100 > 0);
            }
        }
    } else {
        if x > 0 && pairs(x) == 1 {
            assert(pairs(x) == 1 + pairs(x / 100));
            assert(x / 100 == 0);
        }
    }
}

/// The smaller of two numbers has no more digit pairs.
pub proof fn lemma_pairs_order(x: nat, y: nat)
    requires
        x <= y,
    ensures
        pairs(x) <= pairs(y),
    decreases y,
{
    if x > 0 {
        lemma_pairs_order(x / 100, y / 100);
    }
}

/// Of two numbers the smaller has the smaller digit pair at the topmost
/// place where they differ.
pub proof fn lemma_first_gap(x: nat, y: nat) -> (j: nat)
    requires
        x < y,
    ensures
        pair_at(x, j) < pair_at(y, j),
        forall|i: nat| i > j ==> pair_at(x, i) == pair_at(y, i),
    decreases y,
{
    if x / 100 < y / 100 {
        let j = lemma_first_gap(x / 100, y / 100);
        assert forall|i: nat| i > j + 1 implies pair_at(x, i) == pair_at(y, i) by {
            assert(pair_at(x, i) == pair_at(x / 100, (i - 1) as nat));
            assert(pair_at(y, i) == pair_at(y / 100, (i - 1) as nat));
        }
        j + 1
    } else {
        assert(x / 100 == y / 100);
        assert forall|i: nat| i > 0 implies pair_at(x, i) == pair_at(y, i) by {
            assert(pair_at(x, i) == pair_at(x / 100, (i - 1) as nat));
            assert(pair_at(y, i) == pair_at(y / 100, (i - 1) as nat));
        }
        0
    }
}

/// The digit pairs of a number as bytes: as many as it has pairs, each
/// twice the pair and one.
pub proof fn lemma_centimal(x: nat, j: nat)
    ensures
        centimal_digits(x).len() == pairs(x),
        j < pairs(x) ==> centimal_digits(x)[j as int] == 2 * pair_at(x, j) + 1,
    decreases x,
{
    if x > 0 {
        let rest = centimal_digits(x / 100);
        let head = seq![((x % 100) * 2 + 1) as u8];
        assert(centimal_digits(x) == head + rest);
        lemma_centimal(x / 100, 0);
        if j > 0 {
            lemma_centimal(x / 100, (j - 1) as nat);
            if j < pairs(x) {
                assert((head + rest)[j as int] == rest[j - 1]);
            }
        } else {
            assert((head + rest)[0] == head[0]);
        }
    }
}

/// Whether `m / 10^s` is a decimal that is not zero.
pub open spec fn is_nonzero_decimal(m: int, s: nat) -> bool {
    m != 0 && -DECIMAL_MAX_MANTISSA <= m <= DECIMAL_MAX_MANTISSA && s <= DECIMAL_MAX_SCALE
}

/// The key of a decimal speaks of its magnitude as digit pairs: the aligned
/// mantissa does not end in a zero pair, and with the zero pairs behind it
/// that the exponent says it is the magnitude in units of `10^-30`, which
/// has 15 more digit pairs than the exponent.
pub proof fn lemma_normal_form(m: int, s: nat)
    requires
        is_nonzero_decimal(m, s),
    ensures
        ({
            let a = decimal_aligned(m, s);
            let e = decimal_exponent(m, s);
            let k = pairs(a);
            &&& a > 0
            &&& a % 100 != 0
            &&& -13 <= e <= 15
            &&& 1 <= k <= e + 14
            &&& scaled(m, s) == shifted10(a, (2 * (e + 15 - k)) as nat)
            &&& pairs(scaled(m, s)) == e + 15
        }),
{
    let mag = magnitude(m);
    let st = strip_zeros10(mag);
    let tz = trailing_zeros10(mag);
    let a = decimal_aligned(m, s);
    let e = decimal_exponent(m, s);
    let k = pairs(a);
    lemma_strip(mag);
    lemma_digits10_bound(mag);
    assert(digits10(mag) >= 1);
    let pad: nat = if a == st {
        0
    } else {
        1
    };
    assert(shifted10(st, 1) == 10 * shifted10(st, 0));
    assert(a == shifted10(st, pad));
    lemma_shift_digits(st, pad);
    lemma_pairs_of_digits(a);
    assert(digits10(st) >= 1);
    let up = (2 * (e + 15 - k)) as nat;
    assert(tz + 30 - s == pad + up);
    lemma_shift_add(st, tz, (30 - s) as nat);
    lemma_shift_add(st, pad, up);
    lemma_pair_shift(a, (e + 15 - k) as nat, 0);
}

/// The byte for a digit pair in a key: twice the pair, and one more unless
/// it is the last.
pub open spec fn pair_byte(pair: nat, is_last: bool) -> nat {
    if is_last {
        2 * pair
    } else {
        2 * pair + 1
    }
}

/// The digit pairs in the key of a decimal are those of its magnitude in
/// units of `10^-30`, from the topmost down to the lowest that is not zero.
pub proof fn lemma_significand(m: int, s: nat)
    requires
        is_nonzero_decimal(m, s),
    ensures
        ({
            let sig = decimal_significand(m, s);
            let v = scaled(m, s);
            let n = pairs(v);
            let k = pairs(decimal_aligned(m, s));
            &&& sig.len() == k
            &&& 1 <= k < n
            &&& forall|p: int|
                0 <= p < k ==> #[trigger] sig[p] == pair_byte(
                    pair_at(v, (n - 1 - p) as nat),
                    p == k - 1,
                )
            &&& forall|j: nat| j < n - k ==> pair_at(v, j) == 0
            &&& pair_at(v, (n - k) as nat) != 0
        }),
{
    let a = decimal_aligned(m, s);
    let e = decimal_exponent(m, s);
    let k = pairs(a);
    let v = scaled(m, s);
    let n = pairs(v);
    let up = (e + 15 - k) as nat;
    lemma_normal_form(m, s);
    let le = centimal_digits(a);
    lemma_centimal(a, 0);
    let cut = le.update(0, (le[0] - 1) as u8);
    let sig = decimal_significand(m, s);
    assert(sig == cut.reverse());
    assert(sig.len() == k);
    assert(2 * up == 2 * (e + 15 - k));
    assert forall|p: int| 0 <= p < k implies #[trigger] sig[p] == pair_byte(
        pair_at(v, (n - 1 - p) as nat),
        p == k - 1,
    ) by {
        let j = (k - 1 - p) as nat;
        lemma_centimal(a, j);
        lemma_pair_range(a, j);
        lemma_pair_shift(a, up, (n - 1 - p) as nat);
        assert(sig[p] == cut[k - 1 - p]);
        assert(pair_at(v, (n - 1 - p) as nat) == pair_at(a, j));
        if p == k - 1 {
            assert(pair_at(a, 0) == a % 100);
        }
    }
    assert forall|j: nat| j < n - k implies pair_at(v, j) == 0 by {
        lemma_pair_shift(a, up, j);
    }
    lemma_pair_shift(a, up, up);
    assert(pair_at(a, 0) == a % 100);
}

/// Of two decimals with one exponent, the one of smaller magnitude has the
/// digit pairs that sort strictly before.
pub proof fn lemma_significand_order(m1: int, s1: nat, m2: int, s2: nat)
    requires
        is_nonzero_decimal(m1, s1),
        is_nonzero_decimal(m2, s2),
        scaled(m1, s1) < scaled(m2, s2),
        decimal_exponent(m1, s1) == decimal_exponent(m2, s2),
    ensures
        bytes_lt_strict(decimal_significand(m1, s1), decimal_significand(m2, s2)),
{
    let v1 = scaled(m1, s1);
    let v2 = scaled(m2, s2);
    let sig1 = decimal_significand(m1, s1);
    let sig2 = decimal_significand(m2, s2);
    let k1 = pairs(decimal_aligned(m1, s1));
    let k2 = pairs(decimal_aligned(m2, s2));
    lemma_normal_form(m1, s1);
    lemma_normal_form(m2, s2);
    lemma_significand(m1, s1);
    lemma_significand(m2, s2);
    let n = pairs(v1);
    assert(n == pairs(v2));
    let j = lemma_first_gap(v1, v2);
    lemma_pair_range(v2, j);
    lemma_pair_range(v1, j);
    assert(j < n);
    assert(j >= n - k2);
    let p = n - 1 - j;
    let w = if p <= k1 - 1 {
        p
    } else {
        k1 - 1
    };
    assert forall|q: int| 0 <= q < w implies sig1[q] == sig2[q] by {
        let i = (n - 1 - q) as nat;
        assert(i > j);
        assert(pair_at(v1, i) == pair_at(v2, i));
    }
    assert(sig1.subrange(0, w) =~= sig2.subrange(0, w));
    if p <= k1 - 1 {
        assert(sig1[p] == pair_byte(pair_at(v1, j), p == k1 - 1));
        assert(sig2[p] == pair_byte(pair_at(v2, j), p == k2 - 1));
    } else {
        let i = (n - k1) as nat;
        assert(i > j);
        assert(pair_at(v1, i) == pair_at(v2, i));
        assert(sig1[k1 - 1] == pair_byte(pair_at(v1, i), true));
        assert(sig2[k1 - 1] == pair_byte(pair_at(v2, i), false));
    }
    assert(bytes_lt_within(sig1, sig2, w));
}

/// Decimals of one magnitude have one exponent and the same digit pairs in
/// their keys.
pub proof fn lemma_significand_same(m1: int, s1: nat, m2: int, s2: nat)
    requires
        is_nonzero_decimal(m1, s1),
        is_nonzero_decimal(m2, s2),
        scaled(m1, s1) == scaled(m2, s2),
    ensures
        decimal_exponent(m1, s1) == decimal_exponent(m2, s2),
        decimal_significand(m1, s1) == decimal_significand(m2, s2),
{
    let v = scaled(m1, s1);
    let sig1 = decimal_significand(m1, s1);
    let sig2 = decimal_significand(m2, s2);
    let k1 = pairs(decimal_aligned(m1, s1));
    let k2 = pairs(decimal_aligned(m2, s2));
    lemma_normal_form(m1, s1);
    lemma_normal_form(m2, s2);
    lemma_significand(m1, s1);
    lemma_significand(m2, s2);
    let n = pairs(v);
    assert(k1 == k2) by {
        if k1 < k2 {
            assert(pair_at(v, (n - k2) as nat) == 0);
        }
        if k2 < k1 {
            assert(pair_at(v, (n - k1) as nat) == 0);
        }
    }
    assert(sig1 =~= sig2);
}

/// Of two decimals, the one of smaller magnitude has no greater exponent.
pub proof fn lemma_exponent_order(m1: int, s1: nat, m2: int, s2: nat)
    requires
        is_nonzero_decimal(m1, s1),
        is_nonzero_decimal(m2, s2),
        scaled(m1, s1) <= scaled(m2, s2),
    ensures
        decimal_exponent(m1, s1) <= decimal_exponent(m2, s2),
{
    lemma_normal_form(m1, s1);
    lemma_normal_form(m2, s2);
    lemma_pairs_order(scaled(m1, s1), scaled(m2, s2));
}

/// `m / 10^s` in units of `10^-30`.
pub open spec fn signed_scaled(m: int, s: nat) -> int {
    if m < 0 {
        -scaled(m, s)
    } else {
        scaled(m, s) as int
    }
}

/// Decimals are ordered as what they are in units of `10^-30`.
pub proof fn lemma_scaled_order(m1: int, s1: nat, m2: int, s2: nat)
    requires
        s1 <= DECIMAL_MAX_SCALE,
        s2 <= DECIMAL_MAX_SCALE,
    ensures
        decimal_order_of(m1, s1, m2, s2) == order_of_sign(
            signed_scaled(m1, s1) - signed_scaled(m2, s2),
        ),
{
    let p1 = pow10(s1) as int;
    let p2 = pow10(s2) as int;
    let q1 = pow10((30 - s1) as nat) as int;
    let q2 = pow10((30 - s2) as nat) as int;
    let t = pow10(30) as int;
    lemma_shift_mul(magnitude(m1), (30 - s1) as nat);
    lemma_shift_mul(magnitude(m2), (30 - s2) as nat);
    lemma_shift_mul(1, s1);
    lemma_shift_mul(1, s2);
    lemma_shift_mul(1, 30);
    lemma_shift_mul(shifted10(1, s1), (30 - s1) as nat);
    lemma_shift_mul(shifted10(1, s2), (30 - s2) as nat);
    lemma_shift_add(1, s1, (30 - s1) as nat);
    lemma_shift_add(1, s2, (30 - s2) as nat);
    assert(1 * pow10(s1) == pow10(s1));
    assert(1 * pow10(s2) == pow10(s2));
    assert(1 * pow10(30) == pow10(30));
    assert(p1 * q1 == t);
    assert(p2 * q2 == t);
    let a = signed_scaled(m1, s1);
    let b = signed_scaled(m2, s2);
    assert(a == m1 * q1) by (nonlinear_arith)
        requires
            a == if m1 < 0 {
                -(magnitude(m1) * q1)
            } else {
                magnitude(m1) * q1
            },
            magnitude(m1) == if m1 < 0 {
                -m1
            } else {
                m1
            },
    ;
    assert(b == m2 * q2) by (nonlinear_arith)
        requires
            b == if m2 < 0 {
                -(magnitude(m2) * q2)
            } else {
                magnitude(m2) * q2
            },
            magnitude(m2) == if m2 < 0 {
                -m2
            } else {
                m2
            },
    ;
    let d = m1 * p2 - m2 * p1;
    assert(a * p1 == m1 * t) by (nonlinear_arith)
        requires
            a == m1 * q1,
            p1 * q1 == t,
    ;
    assert(b * p2 == m2 * t) by (nonlinear_arith)
        requires
            b == m2 * q2,
            p2 * q2 == t,
    ;
    let ap = a * p1;
    let bp = b * p2;
    assert((a - b) * (p1 * p2) == ap * p2 - bp * p1) by (nonlinear_arith)
        requires
            ap == a * p1,
            bp == b * p2,
    ;
    assert(ap * p2 - bp * p1 == d * t) by (nonlinear_arith)
        requires
            ap == m1 * t,
            bp == m2 * t,
            d == m1 * p2 - m2 * p1,
    ;
    assert(p1 * p2 > 0) by (nonlinear_arith)
        requires
            p1 > 0,
            p2 > 0,
    ;
    assert((a - b < 0) == (d < 0) && (a - b == 0) == (d == 0)) by (nonlinear_arith)
        requires
            (a - b) * (p1 * p2) == d * t,
            p1 * p2 > 0,
            t > 0,
    ;
}

/// The bytes in front of the digit pairs in the key of a decimal that is
/// not zero.
pub open spec fn key_front(m: int, s: nat) -> Seq<u8> {
    let e = decimal_exponent(m, s);
    if m > 0 {
        if e >= 11 {
            seq![0x22u8, e as u8]
        } else if e >= 0 {
            seq![(0x17 + e) as u8]
        } else {
            seq![0x16u8, (255 + e) as u8]
        }
    } else {
        if e >= 11 {
            seq![0x08u8, (255 - e) as u8]
        } else if e >= 0 {
            seq![(0x13 - e) as u8]
        } else {
            seq![0x14u8, (-e) as u8]
        }
    }
}

/// Of two decimals of one sign, the bytes in front of the digit pairs sort
/// strictly as the exponents do, the other way round below zero.
proof fn lemma_front_order(m1: int, s1: nat, m2: int, s2: nat)
    requires
        is_nonzero_decimal(m1, s1),
        is_nonzero_decimal(m2, s2),
        (m1 > 0) == (m2 > 0),
        if m1 > 0 {
            decimal_exponent(m1, s1) < decimal_exponent(m2, s2)
        } else {
            decimal_exponent(m1, s1) > decimal_exponent(m2, s2)
        },
    ensures
        bytes_lt_strict(key_front(m1, s1), key_front(m2, s2)),
{
    lemma_normal_form(m1, s1);
    lemma_normal_form(m2, s2);
    let f1 = key_front(m1, s1);
    let f2 = key_front(m2, s2);
    if f1[0] < f2[0] {
        assert(f1.subrange(0, 0) =~= f2.subrange(0, 0));
        assert(bytes_lt_within(f1, f2, 0));
    } else {
        assert(f1.len() == 2 && f2.len() == 2);
        assert(f1[0] == f2[0]);
        assert(f1.subrange(0, 1) =~= f2.subrange(0, 1));
        assert(bytes_lt_within(f1, f2, 1));
    }
}

/// Complementing every byte turns a strict order round.
proof fn lemma_complement_order(a: Seq<u8>, b: Seq<u8>)
    requires
        bytes_lt_strict(a, b),
    ensures
        bytes_lt_strict(complemented(b), complemented(a)),
{
    let k = choose|k: int| bytes_lt_within(a, b, k);
    let ca = complemented(a);
    let cb = complemented(b);
    assert forall|i: int| 0 <= i < k implies cb[i] == ca[i] by {
        assert(a.subrange(0, k)[i] == b.subrange(0, k)[i]);
    }
    assert(cb.subrange(0, k) =~= ca.subrange(0, k));
    assert(bytes_lt_within(cb, ca, k));
}

/// Key order matches value order for decimals: the smaller of two decimals
/// has the key that sorts strictly before.
pub proof fn lemma_decimal_key_order(m1: int, s1: nat, m2: int, s2: nat)
    requires
        -DECIMAL_MAX_MANTISSA <= m1 <= DECIMAL_MAX_MANTISSA,
        -DECIMAL_MAX_MANTISSA <= m2 <= DECIMAL_MAX_MANTISSA,
        s1 <= DECIMAL_MAX_SCALE,
        s2 <= DECIMAL_MAX_SCALE,
        decimal_order_of(m1, s1, m2, s2) is Less,
    ensures
        bytes_lt_strict(decimal_encode(m1, s1), decimal_encode(m2, s2)),
{
    lemma_scaled_order(m1, s1, m2, s2);
    lemma_shift_order(magnitude(m1), 0, (30 - s1) as nat);
    lemma_shift_order(magnitude(m2), 0, (30 - s2) as nat);
    lemma_shift_order(0, magnitude(m1), (30 - s1) as nat);
    lemma_shift_order(0, magnitude(m2), (30 - s2) as nat);
    let k1 = decimal_encode(m1, s1);
    let k2 = decimal_encode(m2, s2);
    if m1 != 0 {
        lemma_normal_form(m1, s1);
    }
    if m2 != 0 {
        lemma_normal_form(m2, s2);
    }
    if m1 != 0 && m2 != 0 && (m1 > 0) == (m2 > 0) {
        let e1 = decimal_exponent(m1, s1);
        let e2 = decimal_exponent(m2, s2);
        let sig1 = decimal_significand(m1, s1);
        let sig2 = decimal_significand(m2, s2);
        let f1 = key_front(m1, s1);
        let f2 = key_front(m2, s2);
        if m1 > 0 {
            assert(k1 == f1 + sig1);
            assert(k2 == f2 + sig2);
            lemma_exponent_order(m1, s1, m2, s2);
            if e1 < e2 {
                lemma_front_order(m1, s1, m2, s2);
                lemma_strict_extends(f1, f2, sig1, sig2);
            } else {
                lemma_significand_order(m1, s1, m2, s2);
                lemma_strict_same_front(f1, sig1, sig2);
            }
        } else {
            assert(k1 == f1 + complemented(sig1));
            assert(k2 == f2 + complemented(sig2));
            lemma_exponent_order(m2, s2, m1, s1);
            if e1 > e2 {
                lemma_front_order(m1, s1, m2, s2);
                lemma_strict_extends(f1, f2, complemented(sig1), complemented(sig2));
            } else {
                lemma_significand_order(m2, s2, m1, s1);
                lemma_complement_order(sig2, sig1);
                lemma_strict_same_front(f1, complemented(sig1), complemented(sig2));
            }
        }
    } else {
        assert(k1.len() >= 1 && k2.len() >= 1);
        assert(k1[0] < k2[0]);
        assert(k1.subrange(0, 0) =~= k2.subrange(0, 0));
        assert(bytes_lt_within(k1, k2, 0));
    }
}

/// Equal decimals have the same key.
pub proof fn lemma_decimal_key_same(m1: int, s1: nat, m2: int, s2: nat)
    requires
        -DECIMAL_MAX_MANTISSA <= m1 <= DECIMAL_MAX_MANTISSA,
        -DECIMAL_MAX_MANTISSA <= m2 <= DECIMAL_MAX_MANTISSA,
        s1 <= DECIMAL_MAX_SCALE,
        s2 <= DECIMAL_MAX_SCALE,
        decimal_order_of(m1, s1, m2, s2) is Equal,
    ensures
        decimal_encode(m1, s1) == decimal_encode(m2, s2),
{
    lemma_scaled_order(m1, s1, m2, s2);
    lemma_shift_order(0, magnitude(m1), (30 - s1) as nat);
    lemma_shift_order(0, magnitude(m2), (30 - s2) as nat);
    if m1 != 0 {
        assert(m2 != 0 && (m1 > 0) == (m2 > 0));
        lemma_significand_same(m1, s1, m2, s2);
    }
}

} // verus!
