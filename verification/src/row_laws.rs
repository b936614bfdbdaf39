use crate::bytes::{le_bytes, le_value, lemma_le_round_trip, lemma_pow256_bound, pow256};
use crate::decimal::{
    decimal_decode, decimal_flags, decimal_raw, decimal_with, magnitude, raw_scale, Decimal,
};
use crate::raw::{
    padded_chars, precision_of, raw_encode, raw_read, spaces, text_read, trimmed_len, twos,
    RawOutcome, SPACE,
};
use crate::tuple::{
    bitmap_len, is_null_at, null_bitmap, null_bits, nulls, payload, row_decode, row_decode_from,
    row_encode, weight, RowOutcome,
};
use crate::types::{CharLengthUnits, TypeModel};
use crate::value::{Utf8Type, Value};
use vstd::prelude::*;
use vstd::utf8::{encode_utf8, encode_utf8_decode_utf8, encode_utf8_valid_utf8};

verus! {

/// Whether text bytes are empty or end in something else than a space.
pub open spec fn no_trailing_space(bytes: Seq<u8>) -> bool {
    bytes.len() == 0 || bytes.last() != SPACE
}

/// Whether a value can be stored in a column of type `ty` and read back as
/// itself: it is null, or it has the kind, the declared length and the
/// precision of the type, and, as text of a fixed length, does not end in a
/// space and fits.
pub open spec fn storable(v: Value, ty: TypeModel) -> bool {
    match (v, ty) {
        (Value::Null, _) => true,
        (Value::Boolean(_), TypeModel::Boolean) => true,
        (Value::Float32(_), TypeModel::Float) => true,
        (Value::Float64(_), TypeModel::Double) => true,
        (Value::Int8(_), TypeModel::Tinyint) => true,
        (Value::Int16(_), TypeModel::Smallint) => true,
        (Value::Int32(_), TypeModel::Integer) => true,
        (Value::Int64(_), TypeModel::Bigint) => true,
        (Value::UInt8(_), TypeModel::UTinyint) => true,
        (Value::UInt16(_), TypeModel::USmallint) => true,
        (Value::UInt32(_), TypeModel::UInteger) => true,
        (Value::UInt64(_), TypeModel::UBigint) => true,
        (
            Value::Utf8 { value, ty: Utf8Type::Variable(l), unit },
            TypeModel::Varchar(tl, tu),
        ) => l == tl && unit == tu,
        (
            Value::Utf8 { value, ty: Utf8Type::Fixed(l), unit: CharLengthUnits::Characters },
            TypeModel::Char(tl, CharLengthUnits::Characters),
        ) => l == tl && no_trailing_space(encode_utf8(value)),
        (
            Value::Utf8 { value, ty: Utf8Type::Fixed(l), unit: CharLengthUnits::Octets },
            TypeModel::Char(tl, CharLengthUnits::Octets),
        ) => l == tl && no_trailing_space(encode_utf8(value)),
        (Value::Date32(_), TypeModel::Date) => true,
        (Value::Date64(_), TypeModel::DateTime) => true,
        (Value::Time32(_, p), TypeModel::Time(tp)) => p == precision_of(tp),
        (Value::Time64(_, p, z), TypeModel::TimeStamp(tp, tz)) => p == precision_of(tp) && z == tz,
        (Value::Decimal(d), TypeModel::Decimal(_, _)) => d.in_range(),
        _ => false,
    }
}

proof fn lemma_trim_spaces(content: Seq<u8>, k: nat)
    requires
        no_trailing_space(content),
    ensures
        trimmed_len(content + spaces(k)) == content.len(),
    decreases k,
{
    if k == 0 {
        assert(content + spaces(0) =~= content);
    } else {
        let whole = content + spaces(k);
        assert(whole.last() == SPACE);
        assert(whole.drop_last() =~= content + spaces((k - 1) as nat));
        lemma_trim_spaces(content, (k - 1) as nat);
    }
}

proof fn lemma_pow256_12()
    ensures
        pow256(12) == 0x1_0000_0000_0000_0000_0000_0000,
        pow256(4) == 0x1_0000_0000,
{
    reveal_with_fuel(pow256, 13);
}

/// Sixteen bytes that were written for a decimal spell that decimal.
pub proof fn lemma_decimal_round_trip(d: Decimal)
    requires
        d.in_range(),
    ensures
        decimal_decode(decimal_raw(d.m(), d.s())) == d,
        decimal_raw(d.m(), d.s()).len() == 16,
{
    let m = d.m();
    let s = d.s();
    let flags = decimal_flags(m, s);
    let mag = magnitude(m);
    let w = decimal_raw(m, s);
    lemma_pow256_12();
    lemma_le_round_trip(flags, 4);
    lemma_le_round_trip(mag, 12);
    assert(w.subrange(0, 4) =~= le_bytes(flags, 4));
    assert(w.subrange(4, 16) =~= le_bytes(mag, 12));
    assert(raw_scale(w) == s);
    let m2 = if le_value(w.subrange(0, 4)) >= 0x8000_0000 {
        -(mag as int)
    } else {
        mag as int
    };
    assert(m2 == m);
    let got = decimal_with(m, s);
    assert(got.m() == m && got.s() == s);
    Decimal::lemma_same(got, d);
}

/// A stored text is read back as the text it was.
proof fn lemma_text_round_trip(
    bytes: Seq<u8>,
    at: nat,
    content: Seq<char>,
    pad: nat,
    ty: Utf8Type,
    unit: CharLengthUnits,
    trim: bool,
)
    requires
        at + encode_utf8(content).len() + pad <= bytes.len() <= usize::MAX,
        bytes.subrange(at as int, (at + encode_utf8(content).len() + pad) as int) == encode_utf8(
            content,
        ) + spaces(pad),
        trim ==> no_trailing_space(encode_utf8(content)),
        !trim ==> pad == 0,
    ensures
        text_read(bytes, at, encode_utf8(content).len() + pad, ty, unit, trim, true)
            == RawOutcome::Value(
            Value::Utf8 { value: content, ty, unit },
            at + encode_utf8(content).len() + pad,
        ),
        text_read(bytes, at, encode_utf8(content).len() + pad, ty, unit, trim, false)
            == RawOutcome::Skipped(at + encode_utf8(content).len() + pad),
{
    let enc = encode_utf8(content);
    let n = enc.len() + pad;
    let whole = bytes.subrange(at as int, (at + n) as int);
    encode_utf8_valid_utf8(content);
    encode_utf8_decode_utf8(content);
    if trim {
        lemma_trim_spaces(enc, pad);
        assert(whole.subrange(0, trimmed_len(whole) as int) =~= enc);
    } else {
        assert(whole =~= enc);
    }
}

/// A stored value is read back as itself, and stepped over by its length.
pub proof fn lemma_raw_round_trip(v: Value, ty: TypeModel, bytes: Seq<u8>, pos: nat)
    requires
        storable(v, ty),
        !(v is Null),
        raw_encode(v) is Some,
        pos + raw_encode(v)->0.len() <= bytes.len() <= usize::MAX,
        bytes.subrange(pos as int, (pos + raw_encode(v)->0.len()) as int) == raw_encode(v)->0,
    ensures
        raw_read(bytes, pos, ty, true) == RawOutcome::Value(v, pos + raw_encode(v)->0.len()),
        raw_read(bytes, pos, ty, false) == RawOutcome::Skipped(pos + raw_encode(v)->0.len()),
{
    let e = raw_encode(v)->0;
    let w = bytes.subrange(pos as int, (pos + e.len()) as int);
    lemma_pow256_bound(1);
    lemma_pow256_bound(2);
    lemma_pow256_bound(4);
    lemma_pow256_bound(8);
    match v {
        Value::Boolean(x) => {
            reveal_with_fuel(le_value, 2);
            assert(e.subrange(1, 1) =~= Seq::<u8>::empty());
        },
        Value::Float32(x) => {
            lemma_le_round_trip(x as nat, 4);
        },
        Value::Float64(x) => {
            lemma_le_round_trip(x as nat, 8);
        },
        Value::Int8(x) => {
            lemma_le_round_trip(twos(x as int, 1), 1);
        },
        Value::Int16(x) => {
            lemma_le_round_trip(twos(x as int, 2), 2);
        },
        Value::Int32(x) => {
            lemma_le_round_trip(twos(x as int, 4), 4);
        },
        Value::Int64(x) => {
            lemma_le_round_trip(twos(x as int, 8), 8);
        },
        Value::UInt8(x) => {
            lemma_le_round_trip(x as nat, 1);
        },
        Value::UInt16(x) => {
            lemma_le_round_trip(x as nat, 2);
        },
        Value::UInt32(x) => {
            lemma_le_round_trip(x as nat, 4);
        },
        Value::UInt64(x) => {
            lemma_le_round_trip(x as nat, 8);
        },
        Value::Date32(x) => {
            lemma_le_round_trip(twos(x as int, 4), 4);
        },
        Value::Date64(x) => {
            lemma_le_round_trip(twos(x as int, 8), 8);
        },
        Value::Time32(x, _) => {
            lemma_le_round_trip(x as nat, 4);
        },
        Value::Time64(x, _, _) => {
            lemma_le_round_trip(twos(x as int, 8), 8);
        },
        Value::Decimal(d) => {
            lemma_decimal_round_trip(d);
        },
        Value::Utf8 { value, ty: Utf8Type::Variable(l), unit } => {
            let enc = encode_utf8(value);
            lemma_le_round_trip(enc.len(), 4);
            assert(bytes.subrange(pos as int, (pos + 4) as int) =~= le_bytes(enc.len(), 4)) by {
                assert(e.subrange(0, 4) =~= le_bytes(enc.len(), 4));
                assert(bytes.subrange(pos as int, (pos + 4) as int) =~= e.subrange(0, 4));
            }
            assert(bytes.subrange((pos + 4) as int, (pos + 4 + enc.len()) as int) =~= enc + spaces(
                0,
            )) by {
                assert(bytes.subrange((pos + 4) as int, (pos + 4 + enc.len()) as int)
                    =~= e.subrange(4, e.len() as int));
            }
            lemma_text_round_trip(bytes, pos + 4, value, 0, Utf8Type::Variable(l), unit, false);
        },
        Value::Utf8 { value, ty: Utf8Type::Fixed(l), unit: CharLengthUnits::Characters } => {
            let enc = encode_utf8(value);
            let padded = padded_chars(enc, l as nat);
            let pad = (padded.len() - enc.len()) as nat;
            assert(padded =~= enc + spaces(pad));
            lemma_le_round_trip(padded.len(), 4);
            assert(bytes.subrange(pos as int, (pos + 4) as int) =~= le_bytes(padded.len(), 4)) by {
                assert(e.subrange(0, 4) =~= le_bytes(padded.len(), 4));
                assert(bytes.subrange(pos as int, (pos + 4) as int) =~= e.subrange(0, 4));
            }
            assert(bytes.subrange((pos + 4) as int, (pos + 4 + padded.len()) as int) =~= padded)
                by {
                assert(bytes.subrange((pos + 4) as int, (pos + 4 + padded.len()) as int)
                    =~= e.subrange(4, e.len() as int));
            }
            lemma_text_round_trip(
                bytes,
                pos + 4,
                value,
                pad,
                Utf8Type::Fixed(l),
                CharLengthUnits::Characters,
                true,
            );
        },
        Value::Utf8 { value, ty: Utf8Type::Fixed(l), unit: CharLengthUnits::Octets } => {
            let enc = encode_utf8(value);
            let pad = (l - enc.len()) as nat;
            lemma_text_round_trip(
                bytes,
                pos,
                value,
                pad,
                Utf8Type::Fixed(l),
                CharLengthUnits::Octets,
                true,
            );
        },
        _ => {},
    }
}

/// 1 where value `i` is null, 0 elsewhere.
pub open spec fn null_flag(vs: Seq<Value>, i: int) -> int {
    if i < vs.len() && vs[i] is Null {
        1
    } else {
        0
    }
}

proof fn lemma_null_bits_sum(vs: Seq<Value>, base: int)
    requires
        0 <= base,
    ensures
        null_bits(vs, base, 8) == 128 * null_flag(vs, base) + 64 * null_flag(vs, base + 1) + 32
            * null_flag(vs, base + 2) + 16 * null_flag(vs, base + 3) + 8 * null_flag(vs, base + 4)
            + 4 * null_flag(vs, base + 5) + 2 * null_flag(vs, base + 6) + null_flag(vs, base + 7),
{
    assert(null_bits(vs, base, 0) == 0);
    assert(null_bits(vs, base, 1) == null_bits(vs, base, 0) + 128 * null_flag(vs, base));
    assert(null_bits(vs, base, 2) == null_bits(vs, base, 1) + 64 * null_flag(vs, base + 1));
    assert(null_bits(vs, base, 3) == null_bits(vs, base, 2) + 32 * null_flag(vs, base + 2));
    assert(null_bits(vs, base, 4) == null_bits(vs, base, 3) + 16 * null_flag(vs, base + 3));
    assert(null_bits(vs, base, 5) == null_bits(vs, base, 4) + 8 * null_flag(vs, base + 4));
    assert(null_bits(vs, base, 6) == null_bits(vs, base, 5) + 4 * null_flag(vs, base + 5));
    assert(null_bits(vs, base, 7) == null_bits(vs, base, 6) + 2 * null_flag(vs, base + 6));
    assert(null_bits(vs, base, 8) == null_bits(vs, base, 7) + null_flag(vs, base + 7));
}

proof fn lemma_bit_extract(
    b0: int,
    b1: int,
    b2: int,
    b3: int,
    b4: int,
    b5: int,
    b6: int,
    b7: int,
)
    requires
        0 <= b0 <= 1,
        0 <= b1 <= 1,
        0 <= b2 <= 1,
        0 <= b3 <= 1,
        0 <= b4 <= 1,
        0 <= b5 <= 1,
        0 <= b6 <= 1,
        0 <= b7 <= 1,
    ensures
        ({
            let s = 128 * b0 + 64 * b1 + 32 * b2 + 16 * b3 + 8 * b4 + 4 * b5 + 2 * b6 + b7;
            &&& 0 <= s <= 255
            &&& (s / 128) % 2 == b0
            &&& (s / 64) % 2 == b1
            &&& (s / 32) % 2 == b2
            &&& (s / 16) % 2 == b3
            &&& (s / 8) % 2 == b4
            &&& (s / 4) % 2 == b5
            &&& (s / 2) % 2 == b6
            &&& (s / 1) % 2 == b7
        }),
{
    let s = 128 * b0 + 64 * b1 + 32 * b2 + 16 * b3 + 8 * b4 + 4 * b5 + 2 * b6 + b7;
    let q0 = b0;
    let q1 = 2 * q0 + b1;
    let q2 = 2 * q1 + b2;
    let q3 = 2 * q2 + b3;
    let q4 = 2 * q3 + b4;
    let q5 = 2 * q4 + b5;
    let q6 = 2 * q5 + b6;
    let q7 = 2 * q6 + b7;
    assert(s == q7);
    assert(s == 128 * q0 + (64 * b1 + 32 * b2 + 16 * b3 + 8 * b4 + 4 * b5 + 2 * b6 + b7));
    assert(s / 128 == q0);
    assert(s == 64 * q1 + (32 * b2 + 16 * b3 + 8 * b4 + 4 * b5 + 2 * b6 + b7));
    assert(s / 64 == q1);
    assert(s == 32 * q2 + (16 * b3 + 8 * b4 + 4 * b5 + 2 * b6 + b7));
    assert(s / 32 == q2);
    assert(s == 16 * q3 + (8 * b4 + 4 * b5 + 2 * b6 + b7));
    assert(s / 16 == q3);
    assert(s == 8 * q4 + (4 * b5 + 2 * b6 + b7));
    assert(s / 8 == q4);
    assert(s == 4 * q5 + (2 * b6 + b7));
    assert(s / 4 == q5);
    assert(s == 2 * q6 + b7);
    assert(s / 2 == q6);
    assert(s / 1 == q7);
}

/// The bit of value `base + k` in its bitmap byte says whether it is null.
pub proof fn lemma_null_bit(vs: Seq<Value>, base: int, k: int)
    requires
        0 <= k < 8,
        0 <= base,
    ensures
        0 <= null_bits(vs, base, 8) <= 255,
        ((null_bits(vs, base, 8) / weight(k)) % 2 == 1) <==> (base + k < vs.len() && vs[base
            + k] is Null),
{
    lemma_null_bits_sum(vs, base);
    lemma_bit_extract(
        null_flag(vs, base),
        null_flag(vs, base + 1),
        null_flag(vs, base + 2),
        null_flag(vs, base + 3),
        null_flag(vs, base + 4),
        null_flag(vs, base + 5),
        null_flag(vs, base + 6),
        null_flag(vs, base + 7),
    );
}

/// The stored forms of the first `k` values are the start of those of the
/// first `n`.
proof fn lemma_payload_prefix(vs: Seq<Value>, k: nat, n: nat)
    requires
        k <= n <= vs.len(),
        payload(vs, n) is Some,
    ensures
        payload(vs, k) is Some,
        payload(vs, k)->0.len() <= payload(vs, n)->0.len(),
        payload(vs, n)->0.subrange(0, payload(vs, k)->0.len() as int) == payload(vs, k)->0,
    decreases n - k,
{
    if k < n {
        lemma_payload_prefix(vs, k, (n - 1) as nat);
        let a = payload(vs, (n - 1) as nat)->0;
        let b = raw_encode(vs[n - 1])->0;
        assert((a + b).subrange(0, payload(vs, k)->0.len() as int) =~= a.subrange(
            0,
            payload(vs, k)->0.len() as int,
        ));
    } else {
        assert(payload(vs, n)->0.subrange(0, payload(vs, n)->0.len() as int) =~= payload(vs, n)->0);
    }
}

/// What a read of the whole row comes to, seen from column `i` on.
proof fn lemma_decode_from(
    values: Seq<Value>,
    types: Seq<TypeModel>,
    proj: Seq<usize>,
    i: nat,
    pi: nat,
)
    requires
        values.len() == types.len(),
        forall|j: int| 0 <= j < values.len() ==> storable(#[trigger] values[j], types[j]),
        row_encode(values) is Some,
        row_encode(values)->0.len() <= usize::MAX,
        forall|a: int, b: int| 0 <= a < b < proj.len() ==> proj[a] < proj[b],
        forall|k: int| 0 <= k < proj.len() ==> proj[k] < values.len(),
        i <= values.len(),
        pi <= proj.len(),
        forall|k: int| 0 <= k < pi ==> proj[k] < i,
        pi < proj.len() ==> proj[pi as int] >= i,
    ensures
        payload(values, i) is Some,
        row_decode_from(
            types,
            proj,
            row_encode(values)->0,
            i,
            bitmap_len(values.len()) + payload(values, i)->0.len(),
            pi,
            Seq::new(
                proj.len(),
                |k: int|
                    if k < pi {
                        values[proj[k] as int]
                    } else {
                        Value::Null
                    },
            ),
        ) == RowOutcome::Values(Seq::new(proj.len(), |k: int| values[proj[k] as int])),
    decreases values.len() - i,
{
    let n = values.len();
    let bytes = row_encode(values)->0;
    let whole = payload(values, n)->0;
    lemma_payload_prefix(values, i, n);
    let pos = bitmap_len(n) + payload(values, i)->0.len();
    let acc = Seq::new(
        proj.len(),
        |k: int|
            if k < pi {
                values[proj[k] as int]
            } else {
                Value::Null
            },
    );
    let target = Seq::new(proj.len(), |k: int| values[proj[k] as int]);
    if i >= n || pi >= proj.len() {
        assert(acc =~= target);
    } else {
        let wanted = proj[pi as int] == i;
        lemma_null_bit(values, 8 * (i as int / 8), i as int % 8);
        assert(bytes[i as int / 8] == null_bitmap(values)[i as int / 8]);
        assert(is_null_at(bytes, i as int) <==> values[i as int] is Null);
        lemma_payload_prefix(values, i + 1, n);
        if values[i as int] is Null {
            let pi2 = if wanted {
                pi + 1
            } else {
                pi
            };
            let acc2 = Seq::new(
                proj.len(),
                |k: int|
                    if k < pi2 {
                        values[proj[k] as int]
                    } else {
                        Value::Null
                    },
            );
            assert(acc2 =~= acc);
            assert(payload(values, i + 1)->0 =~= payload(values, i)->0);
            assert forall|k: int| 0 <= k < pi2 implies proj[k] < i + 1 by {}
            lemma_decode_from(values, types, proj, i + 1, pi2);
        } else {
            let v = values[i as int];
            let e = raw_encode(v)->0;
            assert(payload(values, i + 1)->0 == payload(values, i)->0 + e);
            assert(bytes.subrange(pos as int, (pos + e.len()) as int) =~= e) by {
                let p1 = payload(values, i + 1)->0;
                assert(whole.subrange(0, p1.len() as int) == p1);
                assert forall|t: int| 0 <= t < e.len() implies bytes[pos + t] == e[t] by {
                    assert(whole.subrange(0, p1.len() as int)[payload(values, i)->0.len() + t]
                        == p1[payload(values, i)->0.len() + t]);
                }
            }
            lemma_raw_round_trip(v, types[i as int], bytes, pos);
            if wanted {
                let acc2 = Seq::new(
                    proj.len(),
                    |k: int|
                        if k < pi + 1 {
                            values[proj[k] as int]
                        } else {
                            Value::Null
                        },
                );
                assert(acc.update(pi as int, v) =~= acc2);
                lemma_decode_from(values, types, proj, i + 1, pi + 1);
            } else {
                lemma_decode_from(values, types, proj, i + 1, pi);
            }
        }
    }
}

/// Row round trip: a row whose values are storable under their column types
/// is read back from its stored form as it was; asked for some columns only,
/// in ascending order, the read gives exactly those values, in that order.
pub proof fn lemma_row_round_trip(values: Seq<Value>, types: Seq<TypeModel>, proj: Seq<usize>)
    requires
        values.len() == types.len(),
        forall|j: int| 0 <= j < values.len() ==> storable(#[trigger] values[j], types[j]),
        row_encode(values) is Some,
        row_encode(values)->0.len() <= usize::MAX,
        forall|a: int, b: int| 0 <= a < b < proj.len() ==> proj[a] < proj[b],
        forall|k: int| 0 <= k < proj.len() ==> proj[k] < values.len(),
    ensures
        row_decode(types, proj, row_encode(values)->0) == RowOutcome::Values(
            Seq::new(proj.len(), |k: int| values[proj[k] as int]),
        ),
{
    lemma_decode_from(values, types, proj, 0, 0);
    let acc = Seq::new(
        proj.len(),
        |k: int|
            if k < 0 {
                values[proj[k] as int]
            } else {
                Value::Null
            },
    );
    assert(acc =~= nulls(proj.len()));
    assert(payload(values, 0)->0.len() == 0);
}

} // verus!
