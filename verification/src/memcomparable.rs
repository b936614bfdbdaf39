use crate::arena::BumpBytes;
use crate::bytes::{
    be_bytes, bytes_lt, bytes_lt_at, lemma_be_monotone, lemma_lt_at_extend, lemma_pow256_bound,
    push_be,
};
use crate::decimal::{magnitude, pow10, Decimal, ValueOrder, DECIMAL_MAX_MANTISSA};
use crate::errors::DatabaseError;
use crate::value::{
    float32_rank, float64_rank, lemma_tuple_view, value_models, value_order, DataValue, Value,
};
use vstd::prelude::*;
use vstd::utf8::encode_utf8;

verus! {

/// Separator after a tuple component that sorts before every other byte.
pub const BOUND_MIN_TAG: u8 = 0x00;

/// Separator after a tuple component that sorts after every other byte.
pub const BOUND_MAX_TAG: u8 = 0xFF;

/// Bytes of payload in one group of an encoded text.
pub const ENCODE_GROUP_SIZE: usize = 8;

/// Marker byte after a full group of an encoded text.
pub const ENCODE_MARKER: u8 = 0xFF;

/// `n` zero bytes.
pub open spec fn zeros(n: nat) -> Seq<u8> {
    Seq::new(n, |i: int| 0u8)
}

/// Text bytes in groups of eight. A full group is followed by `0xFF` and
/// another group; the last group is filled up with zero bytes and followed
/// by `0xFF` less the number of fill bytes.
pub open spec fn group_encode(data: Seq<u8>) -> Seq<u8>
    decreases data.len(),
{
    if data.len() >= 8 {
        data.subrange(0, 8).push(0xFFu8) + group_encode(data.skip(8))
    } else {
        (data + zeros((8 - data.len()) as nat)).push((0xFF - (8 - data.len())) as u8)
    }
}

/// The key of a 32-bit float: numbers at or above zero get the top bit set,
/// all others have every bit flipped.
pub open spec fn float32_key(bits: u32) -> nat {
    let mag = bits as int % 0x8000_0000;
    if mag <= 0x7F80_0000 && (bits < 0x8000_0000 || mag == 0) {
        (0x8000_0000 + mag) as nat
    } else {
        (0xFFFF_FFFF - bits) as nat
    }
}

/// The key of a 64-bit float: numbers at or above zero get the top bit set,
/// all others have every bit flipped.
pub open spec fn float64_key(bits: u64) -> nat {
    let mag = bits as int % 0x8000_0000_0000_0000;
    if mag <= 0x7FF0_0000_0000_0000 && (bits < 0x8000_0000_0000_0000 || mag == 0) {
        (0x8000_0000_0000_0000 + mag) as nat
    } else {
        (0xFFFF_FFFF_FFFF_FFFF - bits) as nat
    }
}

/// The number of decimal digits of `m`; none for zero.
pub open spec fn digits10(m: nat) -> nat
    decreases m,
{
    if m == 0 {
        0
    } else {
        1 + digits10(m / 10)
    }
}

/// The number of zeros at the end of `m` written in decimal; none for zero.
pub open spec fn trailing_zeros10(m: nat) -> nat
    decreases m,
{
    if m != 0 && m % 10 == 0 {
        1 + trailing_zeros10(m / 10)
    } else {
        0
    }
}

/// `m` without the zeros at its end.
pub open spec fn strip_zeros10(m: nat) -> nat
    decreases m,
{
    if m != 0 && m % 10 == 0 {
        strip_zeros10(m / 10)
    } else {
        m
    }
}

/// The base-100 digits of `m`, least significant first, each as `2d + 1`.
pub open spec fn centimal_digits(m: nat) -> Seq<u8>
    decreases m,
{
    if m == 0 {
        Seq::empty()
    } else {
        seq![((m % 100) * 2 + 1) as u8] + centimal_digits(m / 100)
    }
}

/// The base-100 exponent of `m / 10^s`: the number of digit pairs in front
/// of the decimal point, or less the number of zero pairs right behind it.
pub open spec fn decimal_exponent(m: int, s: nat) -> int {
    let e10 = digits10(magnitude(m)) - s;
    if e10 >= 0 {
        (e10 + 1) / 2
    } else {
        -((-e10) / 2)
    }
}

/// The mantissa of `m / 10^s` lined up to whole digit pairs: without
/// trailing zeros, and times ten where its digits would straddle the pairs.
pub open spec fn decimal_aligned(m: int, s: nat) -> nat {
    let prec = digits10(magnitude(m));
    let e10 = prec - s;
    let digit_num = if e10 == 2 * decimal_exponent(m, s) {
        prec
    } else {
        prec + 1
    };
    let left = digit_num - trailing_zeros10(magnitude(m));
    if left % 2 == 1 {
        strip_zeros10(magnitude(m)) * 10
    } else {
        strip_zeros10(magnitude(m))
    }
}

/// The digit pairs of a non-zero decimal, most significant first, each as
/// `2d + 1`, the last one as `2d`.
pub open spec fn decimal_significand(m: int, s: nat) -> Seq<u8> {
    let le = centimal_digits(decimal_aligned(m, s));
    if le.len() == 0 {
        le
    } else {
        le.update(0, (le[0] - 1) as u8).reverse()
    }
}

/// Every byte replaced by 255 less itself.
pub open spec fn complemented(s: Seq<u8>) -> Seq<u8> {
    Seq::new(s.len(), |i: int| (255 - s[i]) as u8)
}

/// The key of a decimal. Zero is the single byte `0x15`. A positive number
/// starts with `0x22` and its exponent, with `0x17` plus its exponent, or
/// with `0x16` and its exponent below zero, as the exponent is above 10, in
/// 0 to 10, or negative; its digit pairs follow. A negative number starts
/// with `0x08`, `0x13` less its exponent, or `0x14` in the same way, and its
/// digit pairs follow complemented.
pub open spec fn decimal_encode(m: int, s: nat) -> Seq<u8> {
    let e = decimal_exponent(m, s);
    if m == 0 {
        seq![0x15u8]
    } else if m > 0 {
        (if e >= 11 {
            seq![0x22u8, e as u8]
        } else if e >= 0 {
            seq![(0x17 + e) as u8]
        } else {
            seq![0x16u8, (255 + e) as u8]
        }) + decimal_significand(m, s)
    } else {
        (if e >= 11 {
            seq![0x08u8, (255 - e) as u8]
        } else if e >= 0 {
            seq![(0x13 - e) as u8]
        } else {
            seq![0x14u8, (-e) as u8]
        }) + complemented(decimal_significand(m, s))
    }
}

/// The separator after component `i` of a tuple: `0xFF` after a null or the
/// last component of an upper tuple, `0x00` everywhere else.
pub open spec fn separator(vs: Seq<Value>, is_upper: bool, i: int) -> u8 {
    if (vs[i] is Null || i == vs.len() - 1) && is_upper {
        BOUND_MAX_TAG
    } else {
        BOUND_MIN_TAG
    }
}

/// The order-preserving key of a value. Signed integers are written
/// big-endian with the sign bit flipped, unsigned ones and times of day
/// big-endian as they are, floats by their key, text in groups, booleans as
/// the digit `0` or `1`, null as nothing, a tuple as its components' keys,
/// each followed by its separator.
pub open spec fn mem_encode(v: Value) -> Seq<u8>
    decreases v, 0nat,
{
    match v {
        Value::Null => Seq::empty(),
        Value::Boolean(x) => if x {
            seq![0x31u8]
        } else {
            seq![0x30u8]
        },
        Value::Float32(x) => be_bytes(float32_key(x), 4),
        Value::Float64(x) => be_bytes(float64_key(x), 8),
        Value::Int8(x) => be_bytes((x + 0x80) as nat, 1),
        Value::Int16(x) => be_bytes((x + 0x8000) as nat, 2),
        Value::Int32(x) => be_bytes((x + 0x8000_0000) as nat, 4),
        Value::Int64(x) => be_bytes((x + 0x8000_0000_0000_0000) as nat, 8),
        Value::UInt8(x) => be_bytes(x as nat, 1),
        Value::UInt16(x) => be_bytes(x as nat, 2),
        Value::UInt32(x) => be_bytes(x as nat, 4),
        Value::UInt64(x) => be_bytes(x as nat, 8),
        Value::Utf8 { value, .. } => group_encode(encode_utf8(value)),
        Value::Date32(x) => be_bytes((x + 0x8000_0000) as nat, 4),
        Value::Date64(x) => be_bytes((x + 0x8000_0000_0000_0000) as nat, 8),
        Value::Time32(x, _) => be_bytes(x as nat, 4),
        Value::Time64(x, _, _) => be_bytes((x + 0x8000_0000_0000_0000) as nat, 8),
        Value::Decimal(d) => decimal_encode(d.m(), d.s()),
        Value::Tuple(vs, is_upper) => tuple_encode(vs, is_upper, vs.len()),
    }
}

/// The keys of the first `n` components of a tuple, each followed by its
/// separator.
pub open spec fn tuple_encode(vs: Seq<Value>, is_upper: bool, n: nat) -> Seq<u8>
    decreases vs, n,
{
    if n == 0 || n > vs.len() {
        Seq::empty()
    } else {
        tuple_encode(vs, is_upper, (n - 1) as nat) + mem_encode(vs[n - 1]).push(
            separator(vs, is_upper, n - 1),
        )
    }
}

/// Appends `n` zero bytes.
fn push_zeros(b: &mut BumpBytes, n: usize)
    ensures
        final(b)@ == old(b)@ + zeros(n as nat),
{
    let mut i: usize = 0;
    assert(b@ =~= old(b)@ + zeros(0));
    while i < n
        invariant
            i <= n,
            b@ == old(b)@ + zeros(i as nat),
        decreases n - i,
    {
        b.push(0);
        assert(b@ =~= old(b)@ + zeros((i + 1) as nat));
        i += 1;
    }
}

/// Appends `data` in groups of eight bytes with their markers.
pub fn encode_bytes(b: &mut BumpBytes, data: &[u8])
    ensures
        final(b)@ == old(b)@ + group_encode(data@),
{
    let d_len: usize = data.len();
    let mut idx: usize = 0;
    let ghost mut done: Seq<u8> = Seq::empty();
    assert(data@.skip(0) =~= data@);
    assert(b@ =~= old(b)@ + done);
    while d_len - idx >= ENCODE_GROUP_SIZE
        invariant
            idx <= d_len == data@.len(),
            b@ == old(b)@ + done,
            done + group_encode(data@.skip(idx as int)) == group_encode(data@),
        decreases d_len - idx,
    {
        let ghost rest = data@.skip(idx as int);
        let ghost before = b@;
        let mut k: usize = 0;
        while k < ENCODE_GROUP_SIZE
            invariant
                k <= 8,
                idx + 8 <= d_len == data@.len(),
                b@ == before + data@.subrange(idx as int, idx + k),
            decreases 8 - k,
        {
            b.push(data[idx + k]);
            assert(b@ =~= before + data@.subrange(idx as int, idx + k + 1));
            k += 1;
        }
        b.push(ENCODE_MARKER);
        proof {
            assert(rest.subrange(0, 8) =~= data@.subrange(idx as int, idx + 8));
            assert(rest.skip(8) =~= data@.skip(idx + 8));
            let group = rest.subrange(0, 8).push(0xFFu8);
            assert(group_encode(rest) == group + group_encode(rest.skip(8)));
            assert((done + group) + group_encode(rest.skip(8)) =~= done + group_encode(rest));
            assert(b@ =~= old(b)@ + (done + group));
            done = done + group;
        }
        idx += ENCODE_GROUP_SIZE;
    }
    let remain: usize = d_len - idx;
    let pad_count: usize = ENCODE_GROUP_SIZE - remain;
    let ghost rest = data@.skip(idx as int);
    let ghost before = b@;
    let mut k: usize = 0;
    while k < remain
        invariant
            k <= remain,
            idx + remain == d_len == data@.len(),
            b@ == before + data@.subrange(idx as int, idx + k),
        decreases remain - k,
    {
        b.push(data[idx + k]);
        assert(b@ =~= before + data@.subrange(idx as int, idx + k + 1));
        k += 1;
    }
    push_zeros(b, pad_count);
    b.push(ENCODE_MARKER - pad_count as u8);
    proof {
        assert(rest =~= data@.subrange(idx as int, idx + remain));
        let last = (rest + zeros(pad_count as nat)).push((0xFF - pad_count) as u8);
        assert(group_encode(rest) == last);
        assert(b@ =~= old(b)@ + (done + last));
    }
}

/// A mantissa of a decimal has at most 29 decimal digits.
pub proof fn lemma_digits10_bound(m: nat)
    requires
        m <= DECIMAL_MAX_MANTISSA,
    ensures
        digits10(m) <= 29,
{
    reveal_with_fuel(pow10, 12);
    assert(pow10(10) == 10_000_000_000);
    assert(pow10(9) == 1_000_000_000);
    let m1 = m / 10_000_000_000;
    let m2 = m1 / 10_000_000_000;
    let m3 = m2 / 1_000_000_000;
    assert(m3 == 0);
    lemma_digits10_split(m, 10);
    lemma_digits10_split(m1, 10);
    lemma_digits10_split(m2, 9);
}

/// Dropping `k` digits drops at most `k` from the digit count.
proof fn lemma_digits10_split(m: nat, k: nat)
    ensures
        digits10(m) <= k + digits10(m / pow10(k)),
    decreases k,
{
    if k == 0 {
        assert(m / 1 == m);
    } else if m == 0 {
        lemma_pow10_pos(k);
        assert(0nat / pow10(k) == 0) by (nonlinear_arith)
            requires
                pow10(k) > 0,
        ;
    } else {
        lemma_digits10_split(m / 10, (k - 1) as nat);
        lemma_pow10_pos((k - 1) as nat);
        assert((m / 10) / pow10((k - 1) as nat) == m / (10 * pow10((k - 1) as nat)))
            by (nonlinear_arith)
            requires
                pow10((k - 1) as nat) > 0,
        ;
    }
}

proof fn lemma_pow10_pos(k: nat)
    ensures
        pow10(k) > 0,
    decreases k,
{
    if k > 0 {
        lemma_pow10_pos((k - 1) as nat);
    }
}

/// Unfolds one step of [`tuple_encode`].
pub proof fn lemma_tuple_encode_step(vs: Seq<Value>, is_upper: bool, n: nat)
    requires
        0 < n <= vs.len(),
    ensures
        tuple_encode(vs, is_upper, n) == tuple_encode(vs, is_upper, (n - 1) as nat) + mem_encode(
            vs[n - 1],
        ).push(separator(vs, is_upper, n - 1)),
{
    reveal_with_fuel(tuple_encode, 2);
}

/// Dividing a number that is not zero by ten takes one from its digits.
proof fn lemma_digits10_step(m: nat)
    requires
        m != 0,
    ensures
        digits10(m) == 1 + digits10(m / 10),
{
}

/// The exponent and the digit pairs of a decimal for its key; for zero the
/// exponent 0 and no digits.
pub fn decimal_e_m(decimal: &Decimal) -> (r: (i8, Vec<u8>))
    ensures
        decimal.m() == 0 ==> r.0 == 0 && r.1@ == Seq::<u8>::empty(),
        decimal.m() != 0 ==> r.0 == decimal_exponent(decimal.m(), decimal.s()) && r.1@
            == decimal_significand(decimal.m(), decimal.s()),
        -14 <= r.0 <= 15,
{
    let mantissa: i128 = decimal.mantissa();
    let scale: u32 = decimal.scale();
    if mantissa == 0 {
        return (0, Vec::new());
    }
    let m_abs: u128 = if mantissa < 0 {
        (-mantissa) as u128
    } else {
        mantissa as u128
    };
    assert(m_abs as nat == magnitude(decimal.m()));
    proof {
        lemma_digits10_bound(m_abs as nat);
    }
    let mut t: u128 = m_abs;
    let mut prec: usize = 0;
    while t != 0
        invariant
            digits10(m_abs as nat) == prec + digits10(t as nat),
            digits10(m_abs as nat) <= 29,
        decreases t,
    {
        t = t / 10;
        prec += 1;
    }
    let e10: i32 = prec as i32 - scale as i32;
    let e100: i32 = if e10 >= 0 {
        (e10 + 1) / 2
    } else {
        -((-e10) / 2)
    };
    assert(e100 == decimal_exponent(decimal.m(), decimal.s()));
    let mut digit_num: usize = if e10 == 2 * e100 {
        prec
    } else {
        prec + 1
    };
    let ghost digit_num0 = digit_num;
    let mut mm: u128 = m_abs;
    let mut removed: usize = 0;
    while mm % 10 == 0 && mm != 0
        invariant
            mm != 0,
            mm <= m_abs,
            strip_zeros10(mm as nat) == strip_zeros10(m_abs as nat),
            trailing_zeros10(m_abs as nat) == removed + trailing_zeros10(mm as nat),
            digits10(mm as nat) + removed == prec,
            digit_num == digit_num0 - removed,
            digit_num0 >= prec,
            prec <= 29,
        decreases mm,
    {
        proof {
            lemma_digits10_step(mm as nat);
            assert(mm / 10 != 0);
            lemma_digits10_step((mm / 10) as nat);
        }
        mm = mm / 10;
        digit_num -= 1;
        removed += 1;
    }
    assert(trailing_zeros10(mm as nat) == 0);
    if digit_num % 2 == 1 {
        mm = mm * 10;
    }
    assert(mm as nat == decimal_aligned(decimal.m(), decimal.s()));
    let ghost aligned = mm as nat;
    let mut le: Vec<u8> = Vec::new();
    assert(le@ + centimal_digits(mm as nat) =~= centimal_digits(aligned));
    while mm != 0
        invariant
            le@ + centimal_digits(mm as nat) == centimal_digits(aligned),
        decreases mm,
    {
        let byte: u8 = (mm % 100) as u8 * 2 + 1;
        let ghost before = le@;
        le.push(byte);
        proof {
            let rest = centimal_digits((mm / 100) as nat);
            assert(centimal_digits(mm as nat) == seq![byte] + rest);
            assert(le@ + rest =~= before + (seq![byte] + rest));
        }
        mm = mm / 100;
    }
    assert(le@ =~= centimal_digits(aligned));
    assert(le@.len() > 0);
    let n: usize = le.len();
    let mut out: Vec<u8> = Vec::new();
    let ghost want = le@.update(0, (le@[0] - 1) as u8).reverse();
    let mut i: usize = n;
    while i > 0
        invariant
            i <= n == le@.len(),
            n > 0,
            le@ == centimal_digits(aligned),
            want == le@.update(0, (le@[0] - 1) as u8).reverse(),
            out@ == want.subrange(0, n - i),
            le@[0] >= 1,
        decreases i,
    {
        i -= 1;
        let byte: u8 = if i == 0 {
            le[0] - 1
        } else {
            le[i]
        };
        out.push(byte);
        assert(out@ =~= want.subrange(0, n - i));
    }
    assert(out@ =~= want);
    (e100 as i8, out)
}

impl DataValue {
    /// Appends the key of a decimal.
    pub fn serialize_decimal(decimal: Decimal, bytes: &mut BumpBytes) -> (r: Result<(), DatabaseError>)
        ensures
            r is Ok,
            final(bytes)@ == old(bytes)@ + decimal_encode(decimal.m(), decimal.s()),
    {
        if decimal.is_zero() {
            bytes.push(0x15);
            assert(bytes@ =~= old(bytes)@ + decimal_encode(decimal.m(), decimal.s()));
            return Ok(());
        }
        let (exponent, significand) = decimal_e_m(&decimal);
        let ghost head: Seq<u8>;
        if decimal.is_sign_positive() {
            if exponent >= 11 {
                bytes.push(0x22);
                bytes.push(exponent as u8);
                proof {
                    head = seq![0x22u8, exponent as u8];
                }
            } else if exponent >= 0 {
                bytes.push(0x17 + exponent as u8);
                proof {
                    head = seq![(0x17 + exponent) as u8];
                }
            } else {
                bytes.push(0x16);
                bytes.push((255 + exponent as i16) as u8);
                proof {
                    head = seq![0x16u8, (255 + exponent) as u8];
                }
            }
            assert(bytes@ =~= old(bytes)@ + head);
            bytes.extend_from_slice(significand.as_slice());
            assert(bytes@ =~= old(bytes)@ + (head + significand@));
        } else {
            if exponent >= 11 {
                bytes.push(0x08);
                bytes.push((255 - exponent as i16) as u8);
                proof {
                    head = seq![0x08u8, (255 - exponent) as u8];
                }
            } else if exponent >= 0 {
                bytes.push(0x13 - exponent as u8);
                proof {
                    head = seq![(0x13 - exponent) as u8];
                }
            } else {
                bytes.push(0x14);
                bytes.push((-exponent) as u8);
                proof {
                    head = seq![0x14u8, (-exponent) as u8];
                }
            }
            assert(bytes@ =~= old(bytes)@ + head);
            let mut i: usize = 0;
            while i < significand.len()
                invariant
                    i <= significand.len(),
                    bytes@ == old(bytes)@ + head + complemented(significand@).subrange(0, i as int),
                decreases significand.len() - i,
            {
                bytes.push(255 - significand[i]);
                assert(bytes@ =~= old(bytes)@ + head + complemented(significand@).subrange(
                    0,
                    i + 1,
                ));
                i += 1;
            }
            assert(bytes@ =~= old(bytes)@ + (head + complemented(significand@)));
        }
        Ok(())
    }
}

impl DataValue {
    /// Appends the order-preserving key of the value.
    pub fn memcomparable_encode(&self, b: &mut BumpBytes) -> (r: Result<(), DatabaseError>)
        ensures
            r is Ok,
            final(b)@ == old(b)@ + mem_encode(self@),
        decreases self,
    {
        match self {
            DataValue::Int8(v) => push_be(b, (*v as i16 + 0x80) as u64, 1),
            DataValue::Int16(v) => push_be(b, (*v as i32 + 0x8000) as u64, 2),
            DataValue::Int32(v) => push_be(b, (*v as i64 + 0x8000_0000) as u64, 4),
            DataValue::Date32(v) => push_be(b, (*v as i64 + 0x8000_0000) as u64, 4),
            DataValue::Int64(v) => push_be(b, (*v as i128 + 0x8000_0000_0000_0000) as u64, 8),
            DataValue::Date64(v) => push_be(b, (*v as i128 + 0x8000_0000_0000_0000) as u64, 8),
            DataValue::Time64(v, _, _) => push_be(
                b,
                (*v as i128 + 0x8000_0000_0000_0000) as u64,
                8,
            ),
            DataValue::UInt8(v) => push_be(b, *v as u64, 1),
            DataValue::UInt16(v) => push_be(b, *v as u64, 2),
            DataValue::UInt32(v) => push_be(b, *v as u64, 4),
            DataValue::Time32(v, _) => push_be(b, *v as u64, 4),
            DataValue::UInt64(v) => push_be(b, *v, 8),
            DataValue::Utf8 { value, .. } => encode_bytes(b, value.as_str().as_bytes()),
            DataValue::Boolean(v) => {
                b.push(
                    if *v {
                        0x31
                    } else {
                        0x30
                    },
                );
                assert(b@ =~= old(b)@ + mem_encode(self@));
            },
            DataValue::Float32(bits) => {
                let mag: u32 = *bits % 0x8000_0000;
                let key: u32 = if mag <= 0x7F80_0000 && (*bits < 0x8000_0000 || mag == 0) {
                    0x8000_0000 + mag
                } else {
                    0xFFFF_FFFF - *bits
                };
                push_be(b, key as u64, 4)
            },
            DataValue::Float64(bits) => {
                let mag: u64 = *bits % 0x8000_0000_0000_0000;
                let key: u64 = if mag <= 0x7FF0_0000_0000_0000 && (*bits < 0x8000_0000_0000_0000
                    || mag == 0) {
                    0x8000_0000_0000_0000 + mag
                } else {
                    0xFFFF_FFFF_FFFF_FFFF - *bits
                };
                push_be(b, key, 8)
            },
            DataValue::Null => {
                assert(b@ =~= old(b)@ + mem_encode(self@));
            },
            DataValue::Decimal(v) => {
                let _ = DataValue::serialize_decimal(*v, b);
            },
            DataValue::Tuple(values, is_upper) => {
                proof {
                    lemma_tuple_view(*values, *is_upper);
                }
                let ghost models = value_models(values@);
                let n: usize = values.len();
                let mut i: usize = 0;
                assert(b@ =~= old(b)@ + tuple_encode(models, *is_upper, 0));
                while i < n
                    invariant
                        i <= n == values.len(),
                        models == value_models(values@),
                        *self == DataValue::Tuple(*values, *is_upper),
                        b@ == old(b)@ + tuple_encode(models, *is_upper, i as nat),
                    decreases n - i,
                {
                    assert(decreases_to!(self => self->Tuple_0));
                    assert(decreases_to!(*values => values@));
                    assert(decreases_to!(values@ => values@[i as int]));
                    let ghost before = b@;
                    let _ = values[i].memcomparable_encode(b);
                    let sep: u8 = if (values[i].is_null() || i == n - 1) && *is_upper {
                        BOUND_MAX_TAG
                    } else {
                        BOUND_MIN_TAG
                    };
                    b.push(sep);
                    proof {
                        assert(models[i as int] == values@[i as int]@);
                        lemma_tuple_encode_step(models, *is_upper, (i + 1) as nat);
                        assert(b@ =~= old(b)@ + tuple_encode(models, *is_upper, (i + 1) as nat));
                    }
                    i += 1;
                }
            },
        }
        Ok(())
    }
}

/// Whether a value is a float that is not a number.
pub open spec fn is_nan(v: Value) -> bool {
    match v {
        Value::Float32(x) => float32_rank(x) == 0x8000_0000,
        Value::Float64(x) => float64_rank(x) == 0x8000_0000_0000_0000,
        _ => false,
    }
}

/// Whether a value is a boolean, an integer, a float, a date or a time.
pub open spec fn is_fixed_width(v: Value) -> bool {
    !(v is Null || v is Utf8 || v is Decimal || v is Tuple)
}

/// Key order matches value order: of two booleans, integers, dates, times,
/// or floats that are numbers, the smaller has the key that sorts first.
pub proof fn lemma_key_order(a: Value, b: Value)
    requires
        value_order(a, b) == Some(ValueOrder::Less),
        is_fixed_width(a),
        !is_nan(a),
        !is_nan(b),
    ensures
        bytes_lt(mem_encode(a), mem_encode(b)),
{
    reveal(value_order);
    lemma_pow256_bound(1);
    lemma_pow256_bound(2);
    lemma_pow256_bound(4);
    lemma_pow256_bound(8);
    match (a, b) {
        (Value::Boolean(x), Value::Boolean(y)) => {
            assert(mem_encode(a).subrange(0, 0) =~= mem_encode(b).subrange(0, 0));
            assert(bytes_lt_at(mem_encode(a), mem_encode(b), 0));
        },
        (Value::Float32(x), Value::Float32(y)) => {
            lemma_be_monotone(float32_key(x), float32_key(y), 4);
        },
        (Value::Float64(x), Value::Float64(y)) => {
            lemma_be_monotone(float64_key(x), float64_key(y), 8);
        },
        (Value::Int8(x), Value::Int8(y)) => {
            lemma_be_monotone((x + 0x80) as nat, (y + 0x80) as nat, 1);
        },
        (Value::Int16(x), Value::Int16(y)) => {
            lemma_be_monotone((x + 0x8000) as nat, (y + 0x8000) as nat, 2);
        },
        (Value::Int32(x), Value::Int32(y)) => {
            lemma_be_monotone((x + 0x8000_0000) as nat, (y + 0x8000_0000) as nat, 4);
        },
        (Value::Int64(x), Value::Int64(y)) => {
            lemma_be_monotone(
                (x + 0x8000_0000_0000_0000) as nat,
                (y + 0x8000_0000_0000_0000) as nat,
                8,
            );
        },
        (Value::UInt8(x), Value::UInt8(y)) => {
            lemma_be_monotone(x as nat, y as nat, 1);
        },
        (Value::UInt16(x), Value::UInt16(y)) => {
            lemma_be_monotone(x as nat, y as nat, 2);
        },
        (Value::UInt32(x), Value::UInt32(y)) => {
            lemma_be_monotone(x as nat, y as nat, 4);
        },
        (Value::UInt64(x), Value::UInt64(y)) => {
            lemma_be_monotone(x as nat, y as nat, 8);
        },
        (Value::Date32(x), Value::Date32(y)) => {
            lemma_be_monotone((x + 0x8000_0000) as nat, (y + 0x8000_0000) as nat, 4);
        },
        (Value::Date64(x), Value::Date64(y)) => {
            lemma_be_monotone(
                (x + 0x8000_0000_0000_0000) as nat,
                (y + 0x8000_0000_0000_0000) as nat,
                8,
            );
        },
        (Value::Time32(x, _), Value::Time32(y, _)) => {
            lemma_be_monotone(x as nat, y as nat, 4);
        },
        (Value::Time64(x, _, _), Value::Time64(y, _, _)) => {
            lemma_be_monotone(
                (x + 0x8000_0000_0000_0000) as nat,
                (y + 0x8000_0000_0000_0000) as nat,
                8,
            );
        },
        _ => {},
    }
}

/// The keys of a tuple's first `k` components are the start of the keys of
/// its first `n`.
pub proof fn lemma_tuple_encode_prefix(vs: Seq<Value>, is_upper: bool, k: nat, n: nat)
    requires
        k <= n <= vs.len(),
    ensures
        exists|tail: Seq<u8>|
            tuple_encode(vs, is_upper, n) == tuple_encode(vs, is_upper, k) + tail,
    decreases n - k,
{
    if k == n {
        assert(tuple_encode(vs, is_upper, n) =~= tuple_encode(vs, is_upper, k) + Seq::<u8>::empty());
    } else {
        lemma_tuple_encode_prefix(vs, is_upper, k, (n - 1) as nat);
        let tail = choose|tail: Seq<u8>|
            tuple_encode(vs, is_upper, (n - 1) as nat) == tuple_encode(vs, is_upper, k) + tail;
        lemma_tuple_encode_step(vs, is_upper, n);
        let last = mem_encode(vs[n - 1]).push(separator(vs, is_upper, n - 1));
        assert(tuple_encode(vs, is_upper, n) =~= tuple_encode(vs, is_upper, k) + (tail + last));
    }
}

/// Up to the first null of `prefix`, and short of its last component, a
/// lower tuple that extends `prefix` and the upper tuple `prefix` have the
/// same key.
proof fn lemma_same_start(prefix: Seq<Value>, ext: Seq<Value>, k: nat)
    requires
        k < prefix.len(),
        forall|i: int| 0 <= i < k ==> !(prefix[i] is Null),
    ensures
        tuple_encode(prefix + ext, false, k) == tuple_encode(prefix, true, k),
    decreases k,
{
    if k > 0 {
        lemma_same_start(prefix, ext, (k - 1) as nat);
        lemma_tuple_encode_step(prefix + ext, false, k);
        lemma_tuple_encode_step(prefix, true, k);
        assert((prefix + ext)[k - 1] == prefix[k - 1]);
    }
}

proof fn lemma_upper_from(prefix: Seq<Value>, ext: Seq<Value>, k: nat)
    requires
        k < prefix.len(),
        ext.len() > 0,
        forall|i: int| 0 <= i < k ==> !(prefix[i] is Null),
    ensures
        bytes_lt(
            tuple_encode(prefix + ext, false, (prefix + ext).len()),
            tuple_encode(prefix, true, prefix.len()),
        ),
    decreases prefix.len() - k,
{
    let lo = prefix + ext;
    if prefix[k as int] is Null || k == prefix.len() - 1 {
        lemma_same_start(prefix, ext, k);
        lemma_tuple_encode_step(lo, false, k + 1);
        lemma_tuple_encode_step(prefix, true, k + 1);
        assert(lo[k as int] == prefix[k as int]);
        let common = tuple_encode(prefix, true, k) + mem_encode(prefix[k as int]);
        let a = tuple_encode(lo, false, k + 1);
        let b = tuple_encode(prefix, true, k + 1);
        assert(a =~= common.push(0x00u8));
        assert(b =~= common.push(0xFFu8));
        assert(a.subrange(0, common.len() as int) =~= common);
        assert(b.subrange(0, common.len() as int) =~= common);
        assert(bytes_lt_at(a, b, common.len() as int));
        lemma_tuple_encode_prefix(lo, false, k + 1, lo.len());
        lemma_tuple_encode_prefix(prefix, true, k + 1, prefix.len());
        let ta = choose|tail: Seq<u8>| tuple_encode(lo, false, lo.len()) == a + tail;
        let tb = choose|tail: Seq<u8>| tuple_encode(prefix, true, prefix.len()) == b + tail;
        lemma_lt_at_extend(a, b, common.len() as int, ta, tb);
    } else {
        lemma_upper_from(prefix, ext, k + 1);
    }
}

/// The upper sentinel: a lower tuple that extends `prefix` by at least one
/// component has a key that sorts strictly before the key of the upper tuple
/// `prefix`.
pub proof fn lemma_upper_sentinel(prefix: Seq<Value>, ext: Seq<Value>)
    requires
        prefix.len() > 0,
        ext.len() > 0,
    ensures
        bytes_lt(
            mem_encode(Value::Tuple(prefix + ext, false)),
            mem_encode(Value::Tuple(prefix, true)),
        ),
{
    lemma_upper_from(prefix, ext, 0);
}

} // verus!
