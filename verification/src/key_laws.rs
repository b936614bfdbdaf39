use crate::bytes::{bytes_lt, bytes_lt_at, lemma_be_len};
use crate::decimal::ValueOrder;
use crate::decimal_laws::{lemma_decimal_key_order, lemma_decimal_key_same};
use crate::memcomparable::{
    group_encode, is_fixed_width, is_nan, lemma_key_order, lemma_tuple_encode_prefix,
    lemma_tuple_encode_step, mem_encode, separator, tuple_encode, zeros,
};
use crate::value::{value_eq, value_order, Value};
use vstd::prelude::*;
use vstd::utf8::encode_utf8;

verus! {

/// `a` sorts before `b` at a byte that both hold: they agree on their first
/// `k` bytes and there `a` holds the smaller byte.
pub open spec fn bytes_lt_within(a: Seq<u8>, b: Seq<u8>, k: int) -> bool {
    &&& 0 <= k < a.len()
    &&& k < b.len()
    &&& a.subrange(0, k) == b.subrange(0, k)
    &&& a[k] < b[k]
}

/// `a` sorts before `b`, and not merely because it is a start of `b`.
pub open spec fn bytes_lt_strict(a: Seq<u8>, b: Seq<u8>) -> bool {
    exists|k: int| bytes_lt_within(a, b, k)
}

/// What sorts strictly before sorts before, whatever follows either.
pub proof fn lemma_strict_extends(a: Seq<u8>, b: Seq<u8>, ta: Seq<u8>, tb: Seq<u8>)
    requires
        bytes_lt_strict(a, b),
    ensures
        bytes_lt_strict(a + ta, b + tb),
        bytes_lt(a, b),
{
    let k = choose|k: int| bytes_lt_within(a, b, k);
    assert((a + ta).subrange(0, k) =~= a.subrange(0, k));
    assert((b + tb).subrange(0, k) =~= b.subrange(0, k));
    assert(bytes_lt_within(a + ta, b + tb, k));
    assert(bytes_lt_at(a, b, k));
}

/// What sorts strictly before still does behind the same bytes.
pub proof fn lemma_strict_same_front(front: Seq<u8>, a: Seq<u8>, b: Seq<u8>)
    requires
        bytes_lt_strict(a, b),
    ensures
        bytes_lt_strict(front + a, front + b),
{
    let k = choose|k: int| bytes_lt_within(a, b, k);
    let j = front.len() + k;
    assert((front + a).subrange(0, j) =~= front + a.subrange(0, k));
    assert((front + b).subrange(0, j) =~= front + b.subrange(0, k));
    assert(bytes_lt_within(front + a, front + b, j));
}

/// Of two byte strings of one length, the one that sorts before does so
/// strictly.
pub proof fn lemma_same_length_strict(a: Seq<u8>, b: Seq<u8>)
    requires
        bytes_lt(a, b),
        a.len() == b.len(),
    ensures
        bytes_lt_strict(a, b),
{
    let k = choose|k: int| bytes_lt_at(a, b, k);
    assert(bytes_lt_within(a, b, k));
}

/// The first group of an encoded text: its first eight bytes, filled up with
/// zeros, and a marker that tells how many of them are text.
pub proof fn lemma_group_head(d: Seq<u8>)
    ensures
        group_encode(d).len() >= 9,
        forall|i: int| 0 <= i < 8 && i < d.len() ==> group_encode(d)[i] == d[i],
        forall|i: int| d.len() <= i < 8 ==> group_encode(d)[i] == 0,
        d.len() >= 8 ==> group_encode(d)[8] == 255,
        d.len() < 8 ==> group_encode(d)[8] == 247 + d.len() && group_encode(d).len() == 9,
        d.len() >= 8 ==> group_encode(d) == d.subrange(0, 8).push(0xFFu8) + group_encode(
            d.skip(8),
        ),
{
    if d.len() >= 8 {
        let head = d.subrange(0, 8).push(0xFFu8);
        assert(group_encode(d) == head + group_encode(d.skip(8)));
        assert forall|i: int| 0 <= i < 8 implies group_encode(d)[i] == d[i] by {
            assert(head[i] == d[i]);
        }
        assert(group_encode(d)[8] == head[8]);
    } else {
        let body = d + zeros((8 - d.len()) as nat);
        assert(group_encode(d) == body.push((0xFF - (8 - d.len())) as u8));
    }
}

/// Where two byte strings differ at position `n`, there is a first position
/// at which they differ.
proof fn lemma_first_difference(x: Seq<u8>, y: Seq<u8>, n: int) -> (j: int)
    requires
        0 <= n < x.len(),
        n < y.len(),
        x[n] != y[n],
    ensures
        0 <= j <= n,
        x[j] != y[j],
        x.subrange(0, j) == y.subrange(0, j),
    decreases n,
{
    if exists|i: int| 0 <= i < n && x[i] != y[i] {
        let i = choose|i: int| 0 <= i < n && x[i] != y[i];
        lemma_first_difference(x, y, i)
    } else {
        assert(x.subrange(0, n) =~= y.subrange(0, n));
        n
    }
}

/// Grouping keeps the order of texts: of two byte strings, the one that
/// sorts before has the grouped form that sorts strictly before.
pub proof fn lemma_group_order(a: Seq<u8>, b: Seq<u8>)
    requires
        bytes_lt(a, b),
    ensures
        bytes_lt_strict(group_encode(a), group_encode(b)),
    decreases a.len(),
{
    let k = choose|k: int| bytes_lt_at(a, b, k);
    let ea = group_encode(a);
    let eb = group_encode(b);
    lemma_group_head(a);
    lemma_group_head(b);
    if k < a.len() && k < 8 {
        assert(ea.subrange(0, k) =~= eb.subrange(0, k)) by {
            assert forall|i: int| 0 <= i < k implies ea[i] == eb[i] by {
                assert(a.subrange(0, k)[i] == b.subrange(0, k)[i]);
            }
        }
        assert(bytes_lt_within(ea, eb, k));
    } else if a.len() >= 8 {
        // The first groups are the same and the rest decides.
        assert(k >= 8);
        assert(a.subrange(0, 8) =~= b.subrange(0, 8)) by {
            assert forall|i: int| 0 <= i < 8 implies a[i] == b[i] by {
                assert(a.subrange(0, k)[i] == b.subrange(0, k)[i]);
            }
        }
        let ra = a.skip(8);
        let rb = b.skip(8);
        assert(ra.subrange(0, k - 8) =~= rb.subrange(0, k - 8)) by {
            assert forall|i: int| 0 <= i < k - 8 implies ra[i] == rb[i] by {
                assert(a.subrange(0, k)[i + 8] == b.subrange(0, k)[i + 8]);
            }
        }
        assert(bytes_lt_at(ra, rb, k - 8));
        lemma_group_order(ra, rb);
        let head = a.subrange(0, 8).push(0xFFu8);
        lemma_strict_same_front(head, group_encode(ra), group_encode(rb));
    } else {
        // `a` is shorter than a group and a start of `b`.
        assert(k == a.len());
        assert(ea[8] != eb[8]);
        let j = lemma_first_difference(ea, eb, 8);
        if j < a.len() {
            assert(a.subrange(0, k)[j] == b.subrange(0, k)[j]);
        }
        assert(bytes_lt_within(ea, eb, j));
    }
}

/// Whether a value is a text, a decimal, or a boolean, integer, date, time
/// or float that is a number.
pub open spec fn has_ordered_key(v: Value) -> bool {
    (is_fixed_width(v) || v is Utf8 || (v matches Value::Decimal(d) && d.in_range())) && !is_nan(v)
}

/// Key order matches value order: of two values of one kind that are texts,
/// decimals, booleans, integers, dates, times or floats that are numbers,
/// the smaller has the key that sorts strictly before.
pub proof fn lemma_key_order_strict(a: Value, b: Value)
    requires
        value_order(a, b) == Some(ValueOrder::Less),
        has_ordered_key(a),
        has_ordered_key(b),
    ensures
        bytes_lt_strict(mem_encode(a), mem_encode(b)),
        bytes_lt(mem_encode(a), mem_encode(b)),
{
    reveal(value_order);
    match (a, b) {
        (Value::Utf8 { value: x, .. }, Value::Utf8 { value: y, .. }) => {
            assert(bytes_lt(encode_utf8(x), encode_utf8(y)));
            lemma_group_order(encode_utf8(x), encode_utf8(y));
        },
        (Value::Decimal(x), Value::Decimal(y)) => {
            lemma_decimal_key_order(x.m(), x.s(), y.m(), y.s());
        },
        _ => {
            lemma_key_order(a, b);
            lemma_key_length(a, b);
            lemma_same_length_strict(mem_encode(a), mem_encode(b));
        },
    }
    lemma_strict_extends(mem_encode(a), mem_encode(b), Seq::empty(), Seq::empty());
}

/// Two values of one kind of fixed width have keys of one length.
proof fn lemma_key_length(a: Value, b: Value)
    requires
        value_order(a, b) is Some,
        is_fixed_width(a),
    ensures
        mem_encode(a).len() == mem_encode(b).len(),
{
    reveal(value_order);
    match (a, b) {
        (Value::Float32(x), Value::Float32(y)) => {
            lemma_be_len(crate::memcomparable::float32_key(x), 4);
            lemma_be_len(crate::memcomparable::float32_key(y), 4);
        },
        (Value::Float64(x), Value::Float64(y)) => {
            lemma_be_len(crate::memcomparable::float64_key(x), 8);
            lemma_be_len(crate::memcomparable::float64_key(y), 8);
        },
        (Value::Int8(x), Value::Int8(y)) => {
            lemma_be_len((x + 0x80) as nat, 1);
            lemma_be_len((y + 0x80) as nat, 1);
        },
        (Value::Int16(x), Value::Int16(y)) => {
            lemma_be_len((x + 0x8000) as nat, 2);
            lemma_be_len((y + 0x8000) as nat, 2);
        },
        (Value::Int32(x), Value::Int32(y)) => {
            lemma_be_len((x + 0x8000_0000) as nat, 4);
            lemma_be_len((y + 0x8000_0000) as nat, 4);
        },
        (Value::Int64(x), Value::Int64(y)) => {
            lemma_be_len((x + 0x8000_0000_0000_0000) as nat, 8);
            lemma_be_len((y + 0x8000_0000_0000_0000) as nat, 8);
        },
        (Value::UInt8(x), Value::UInt8(y)) => {
            lemma_be_len(x as nat, 1);
            lemma_be_len(y as nat, 1);
        },
        (Value::UInt16(x), Value::UInt16(y)) => {
            lemma_be_len(x as nat, 2);
            lemma_be_len(y as nat, 2);
        },
        (Value::UInt32(x), Value::UInt32(y)) => {
            lemma_be_len(x as nat, 4);
            lemma_be_len(y as nat, 4);
        },
        (Value::UInt64(x), Value::UInt64(y)) => {
            lemma_be_len(x as nat, 8);
            lemma_be_len(y as nat, 8);
        },
        (Value::Date32(x), Value::Date32(y)) => {
            lemma_be_len((x + 0x8000_0000) as nat, 4);
            lemma_be_len((y + 0x8000_0000) as nat, 4);
        },
        (Value::Date64(x), Value::Date64(y)) => {
            lemma_be_len((x + 0x8000_0000_0000_0000) as nat, 8);
            lemma_be_len((y + 0x8000_0000_0000_0000) as nat, 8);
        },
        (Value::Time32(x, _), Value::Time32(y, _)) => {
            lemma_be_len(x as nat, 4);
            lemma_be_len(y as nat, 4);
        },
        (Value::Time64(x, _, _), Value::Time64(y, _, _)) => {
            lemma_be_len((x + 0x8000_0000_0000_0000) as nat, 8);
            lemma_be_len((y + 0x8000_0000_0000_0000) as nat, 8);
        },
        _ => {},
    }
}

/// Equal values have the same key.
pub proof fn lemma_equal_same_key(a: Value, b: Value)
    requires
        value_eq(a, b),
        has_ordered_key(a),
        has_ordered_key(b),
    ensures
        mem_encode(a) == mem_encode(b),
{
    reveal(value_eq);
    match (a, b) {
        (Value::Decimal(x), Value::Decimal(y)) => {
            lemma_decimal_key_same(x.m(), x.s(), y.m(), y.s());
        },
        _ => {},
    }
}

/// Whether two tuples of one length, of values with ordered keys, stand in
/// order: they are equal up to a component, and there the first holds the
/// smaller value.
pub open spec fn tuple_less_at(a: Seq<Value>, b: Seq<Value>, k: int) -> bool {
    &&& a.len() == b.len()
    &&& 0 <= k < a.len()
    &&& forall|i: int| 0 <= i < a.len() ==> has_ordered_key(#[trigger] a[i])
    &&& forall|i: int| 0 <= i < b.len() ==> has_ordered_key(#[trigger] b[i])
    &&& forall|i: int| 0 <= i < k ==> value_eq(a[i], #[trigger] b[i])
    &&& value_order(a[k], b[k]) == Some(ValueOrder::Less)
}

proof fn lemma_same_tuple_start(a: Seq<Value>, b: Seq<Value>, is_upper: bool, k: int, n: nat)
    requires
        tuple_less_at(a, b, k),
        n <= k,
    ensures
        tuple_encode(a, is_upper, n) == tuple_encode(b, is_upper, n),
    decreases n,
{
    if n > 0 {
        lemma_same_tuple_start(a, b, is_upper, k, (n - 1) as nat);
        lemma_tuple_encode_step(a, is_upper, n);
        lemma_tuple_encode_step(b, is_upper, n);
        assert(has_ordered_key(a[n - 1]));
        assert(value_eq(a[n - 1], b[n - 1]));
        lemma_equal_same_key(a[n - 1], b[n - 1]);
        assert(has_ordered_key(b[n - 1]));
    }
}

/// Key order matches value order for tuples: of two tuples of one length
/// and one kind, lower or upper, whose components have ordered keys, the
/// one that is smaller at the first component where they differ has the
/// key that sorts before.
pub proof fn lemma_tuple_key_order(a: Seq<Value>, b: Seq<Value>, is_upper: bool, k: int)
    requires
        tuple_less_at(a, b, k),
    ensures
        bytes_lt(mem_encode(Value::Tuple(a, is_upper)), mem_encode(Value::Tuple(b, is_upper))),
{
    let n = a.len();
    lemma_same_tuple_start(a, b, is_upper, k, k as nat);
    let front = tuple_encode(a, is_upper, k as nat);
    lemma_tuple_encode_step(a, is_upper, (k + 1) as nat);
    lemma_tuple_encode_step(b, is_upper, (k + 1) as nat);
    assert(has_ordered_key(a[k]));
    assert(has_ordered_key(b[k]));
    lemma_key_order_strict(a[k], b[k]);
    let ka = mem_encode(a[k]);
    let kb = mem_encode(b[k]);
    lemma_strict_extends(ka, kb, seq![separator(a, is_upper, k)], seq![separator(b, is_upper, k)]);
    assert(ka.push(separator(a, is_upper, k)) =~= ka + seq![separator(a, is_upper, k)]);
    assert(kb.push(separator(b, is_upper, k)) =~= kb + seq![separator(b, is_upper, k)]);
    lemma_strict_same_front(
        front,
        ka.push(separator(a, is_upper, k)),
        kb.push(separator(b, is_upper, k)),
    );
    let sa = tuple_encode(a, is_upper, (k + 1) as nat);
    let sb = tuple_encode(b, is_upper, (k + 1) as nat);
    lemma_tuple_encode_prefix(a, is_upper, (k + 1) as nat, n);
    lemma_tuple_encode_prefix(b, is_upper, (k + 1) as nat, n);
    let ta = choose|tail: Seq<u8>| tuple_encode(a, is_upper, n) == sa + tail;
    let tb = choose|tail: Seq<u8>| tuple_encode(b, is_upper, n) == sb + tail;
    lemma_strict_extends(sa, sb, ta, tb);
    lemma_strict_extends(sa + ta, sb + tb, Seq::empty(), Seq::empty());
}

} // verus!
