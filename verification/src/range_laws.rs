use crate::catalog::ColumnModel;
use crate::decimal::{order_of_sign, pow10, ValueOrder};
use crate::decimal_laws::{lemma_scaled_order, signed_scaled};
use crate::detacher::{detach_binary, detach_of, flipped, is_target, range_of_op};
use crate::eval::{binary_of, eval_of, holds, EvalFault};
use crate::expression::{BinaryOperator, Expr};
use crate::range::{
    and_scope, bound_order, bound_value, collapse_list, eq_eq, is_piece, merge_atoms, or_scope,
    scope_eq, widen, BoundModel, RangeModel,
};
use crate::range_merge::{fold, intersected, intersected_lists, merge, step_of, united, Step};
use crate::types::ColumnId;
use crate::value::{float32_rank, float64_rank, type_of, value_eq, value_order, Value};
use crate::text_order::{lemma_text_order, text_limit, text_rank};
use vstd::prelude::*;
use vstd::utf8::{encode_utf8, encode_utf8_decode_utf8};

verus! {

/// The kind of a value that has a rank: booleans, integers, floats, dates,
/// times, decimals and texts. 0 for every other value: null, tuples,
/// decimals out of range and texts too long for any memory.
pub open spec fn tag_of(v: Value) -> int {
    match v {
        Value::Boolean(_) => 1,
        Value::Float32(_) => 2,
        Value::Float64(_) => 3,
        Value::Int8(_) => 4,
        Value::Int16(_) => 5,
        Value::Int32(_) => 6,
        Value::Int64(_) => 7,
        Value::UInt8(_) => 8,
        Value::UInt16(_) => 9,
        Value::UInt32(_) => 10,
        Value::UInt64(_) => 11,
        Value::Date32(_) => 12,
        Value::Date64(_) => 13,
        Value::Time32(_, _) => 14,
        Value::Time64(_, _, _) => 15,
        Value::Decimal(d) => if d.in_range() {
            16
        } else {
            0
        },
        Value::Utf8 { value, .. } => if encode_utf8(value).len() <= text_limit() {
            17
        } else {
            0
        },
        _ => 0,
    }
}

/// The number by which a value that has a rank is ordered.
pub open spec fn rank(v: Value) -> int {
    match v {
        Value::Boolean(b) => if b {
            1
        } else {
            0
        },
        Value::Float32(x) => float32_rank(x),
        Value::Float64(x) => float64_rank(x),
        Value::Int8(x) => x as int,
        Value::Int16(x) => x as int,
        Value::Int32(x) => x as int,
        Value::Int64(x) => x as int,
        Value::UInt8(x) => x as int,
        Value::UInt16(x) => x as int,
        Value::UInt32(x) => x as int,
        Value::UInt64(x) => x as int,
        Value::Date32(x) => x as int,
        Value::Date64(x) => x as int,
        Value::Time32(x, _) => x as int,
        Value::Time64(x, _, _) => x as int,
        Value::Decimal(d) => signed_scaled(d.m(), d.s()),
        Value::Utf8 { value, .. } => text_rank(encode_utf8(value)),
        Value::Null => null_rank(),
        _ => 0,
    }
}

/// The rank of null: below the rank of every value that has one.
pub open spec fn null_rank() -> int {
    -(0x1_0000_0000_0000_0000_0000_0000 * pow10(30)) - 0x1_0000_0000_0000_0000_0000_0000
}

/// Ten to a smaller power is no greater.
proof fn lemma_pow10_grows(a: nat, b: nat)
    requires
        a <= b,
    ensures
        1 <= pow10(a) <= pow10(b),
    decreases b,
{
    if a < b {
        lemma_pow10_grows(a, (b - 1) as nat);
    } else if a > 0 {
        lemma_pow10_grows((a - 1) as nat, (a - 1) as nat);
    }
}

/// Every value that has a rank ranks above null.
pub proof fn lemma_rank_above_null(x: Value)
    requires
        tag_of(x) != 0,
    ensures
        rank(x) > null_rank(),
{
    lemma_pow10_grows(0, 30);
    let big = 0x1_0000_0000_0000_0000_0000_0000int;
    assert(big * pow10(30) >= big) by (nonlinear_arith)
        requires
            pow10(30) >= 1,
            big > 0,
    ;
    match x {
        Value::Decimal(d) => {
            let mag = crate::decimal::magnitude(d.m());
            let up = (30 - d.s()) as nat;
            crate::decimal_laws::lemma_shift_mul(mag, up);
            lemma_pow10_grows(up, 30);
            assert(mag * pow10(up) <= big * pow10(30)) by (nonlinear_arith)
                requires
                    0 <= mag <= big,
                    1 <= pow10(up) <= pow10(30),
            ;
        },
        Value::Utf8 { value, .. } => {
            crate::text_order::lemma_rank_not_negative(encode_utf8(value));
        },
        _ => {},
    }
}

/// Values of one kind that is ordered like a number are ordered, and equal,
/// as their ranks are.
pub proof fn lemma_ranked_order(a: Value, b: Value)
    requires
        tag_of(a) != 0,
        tag_of(a) == tag_of(b),
    ensures
        value_order(a, b) == Some(order_of_sign(rank(a) - rank(b))),
        value_eq(a, b) == (rank(a) == rank(b)),
{
    reveal(value_order);
    reveal(value_eq);
    match (a, b) {
        (Value::Decimal(x), Value::Decimal(y)) => {
            lemma_scaled_order(x.m(), x.s(), y.m(), y.s());
        },
        (Value::Utf8 { value: x, .. }, Value::Utf8 { value: y, .. }) => {
            lemma_text_order(encode_utf8(x), encode_utf8(y));
            encode_utf8_decode_utf8(x);
            encode_utf8_decode_utf8(y);
        },
        _ => {},
    }
}

/// Null has no order with, and is not equal to, a value that is ordered like
/// a number.
pub proof fn lemma_null_order(b: Value)
    requires
        tag_of(b) != 0,
    ensures
        value_order(Value::Null, b) is None,
        value_order(b, Value::Null) is None,
        !value_eq(Value::Null, b),
        !value_eq(b, Value::Null),
{
    reveal(value_order);
    reveal(value_eq);
}

/// Whether a value lies at or above a lower end.
pub open spec fn above(min: BoundModel, v: Value) -> bool {
    match min {
        BoundModel::Unbounded => true,
        BoundModel::Included(m) => value_order(m, v) == Some(ValueOrder::Less) || value_order(
            m,
            v,
        ) == Some(ValueOrder::Equal),
        BoundModel::Excluded(m) => value_order(m, v) == Some(ValueOrder::Less),
    }
}

/// Whether a value lies at or below an upper end. Null, the least of all
/// values, lies below every upper end at a value that is not null.
pub open spec fn below(max: BoundModel, v: Value) -> bool {
    match max {
        BoundModel::Unbounded => true,
        BoundModel::Included(m) => value_order(m, v) == Some(ValueOrder::Greater) || value_order(
            m,
            v,
        ) == Some(ValueOrder::Equal) || (v is Null && !(m is Null)),
        BoundModel::Excluded(m) => value_order(m, v) == Some(ValueOrder::Greater) || (v is Null
            && !(m is Null)),
    }
}

/// Whether a range holds a value: an interval what lies between its ends, a
/// single value what is equal to it, the empty range nothing, a list what
/// one of its members holds. An interval with an open lower end holds null.
pub open spec fn in_range(r: RangeModel, v: Value) -> bool
    decreases r,
{
    match r {
        RangeModel::Scope { min, max } => above(min, v) && below(max, v),
        RangeModel::Eq(x) => value_eq(x, v),
        RangeModel::Dummy => false,
        RangeModel::SortedRanges(rs) => exists|i: int|
            0 <= i < rs.len() && in_range(#[trigger] rs[i], v),
    }
}

/// Whether a bound is open or at a value of the kind of `v`.
pub open spec fn typed_bound(b: BoundModel, v: Value) -> bool {
    match b {
        BoundModel::Unbounded => true,
        BoundModel::Included(x) => tag_of(x) == tag_of(v),
        BoundModel::Excluded(x) => tag_of(x) == tag_of(v),
    }
}

/// Whether some place lies between the lower end and the upper end of an
/// interval.
pub open spec fn ends_in_order(min: BoundModel, max: BoundModel) -> bool {
    ||| min is Unbounded
    ||| max is Unbounded
    ||| rank(bound_value(min)) < rank(bound_value(max))
    ||| (rank(bound_value(min)) == rank(bound_value(max)) && min is Included && max is Included)
}

/// Whether a single piece speaks of values of the kind of `v`, or of null,
/// and, as an interval, has its ends in order.
pub open spec fn typed_atom(r: RangeModel, v: Value) -> bool {
    match r {
        RangeModel::Scope { min, max } => typed_bound(min, v) && typed_bound(max, v)
            && ends_in_order(min, max),
        RangeModel::Eq(x) => x is Null || tag_of(x) == tag_of(v),
        RangeModel::Dummy => true,
        RangeModel::SortedRanges(_) => false,
    }
}

/// Whether a range is a single piece, or a list of single pieces, that
/// speak of values of the kind of `v`.
pub open spec fn typed_range(r: RangeModel, v: Value) -> bool {
    match r {
        RangeModel::SortedRanges(rs) => forall|i: int|
            0 <= i < rs.len() ==> typed_atom(#[trigger] rs[i], v),
        _ => typed_atom(r, v),
    }
}

/// The orders among the values of two bounds and a value of their kind.
proof fn lemma_bound_orders(a: BoundModel, b: BoundModel, v: Value)
    requires
        tag_of(v) != 0,
        typed_bound(a, v),
        typed_bound(b, v),
    ensures
        !(a is Unbounded) ==> {
            &&& value_order(bound_value(a), v) == Some(
                order_of_sign(rank(bound_value(a)) - rank(v)),
            )
            &&& value_eq(bound_value(a), v) == (rank(bound_value(a)) == rank(v))
        },
        !(a is Unbounded) && !(b is Unbounded) ==> {
            &&& value_order(bound_value(a), bound_value(b)) == Some(
                order_of_sign(rank(bound_value(a)) - rank(bound_value(b))),
            )
            &&& value_eq(bound_value(a), bound_value(b)) == (rank(bound_value(a)) == rank(
                bound_value(b),
            ))
        },
{
    if !(a is Unbounded) {
        lemma_ranked_order(bound_value(a), v);
        if !(b is Unbounded) {
            lemma_ranked_order(bound_value(a), bound_value(b));
        }
    }
}

/// A list of two pieces holds what either piece holds.
proof fn lemma_in_pair(x: RangeModel, y: RangeModel, v: Value)
    ensures
        in_range(RangeModel::SortedRanges(seq![x, y]), v) == (in_range(x, v) || in_range(y, v)),
{
    let rs = seq![x, y];
    let r = RangeModel::SortedRanges(rs);
    assert(decreases_to!(r => r->SortedRanges_0));
    assert(decreases_to!(rs => rs[0]));
    assert(decreases_to!(rs => rs[1]));
    assert(rs[0] == x && rs[1] == y);
    if in_range(x, v) {
        assert(in_range(rs[0], v));
    }
    if in_range(y, v) {
        assert(in_range(rs[1], v));
    }
}

/// What two intervals both hold, their intersection holds.
pub proof fn lemma_and_scope_sound(
    left_min: BoundModel,
    left_max: BoundModel,
    right_min: BoundModel,
    right_max: BoundModel,
    v: Value,
)
    requires
        tag_of(v) != 0,
        typed_bound(left_min, v),
        typed_bound(left_max, v),
        typed_bound(right_min, v),
        typed_bound(right_max, v),
        ends_in_order(left_min, left_max),
        ends_in_order(right_min, right_max),
    ensures
        typed_atom(and_scope(left_min, left_max, right_min, right_max), v),
        above(left_min, v) && below(left_max, v) && above(right_min, v) && below(right_max, v)
            ==> in_range(and_scope(left_min, left_max, right_min, right_max), v),
{
    reveal(bound_order);
    lemma_bound_orders(left_min, right_min, v);
    lemma_bound_orders(right_min, left_min, v);
    lemma_bound_orders(left_max, right_max, v);
    lemma_bound_orders(right_max, left_max, v);
    lemma_bound_orders(left_min, left_max, v);
    lemma_bound_orders(left_min, right_max, v);
    lemma_bound_orders(right_min, left_max, v);
    lemma_bound_orders(right_min, right_max, v);
}

/// What one of two intervals holds, their union holds.
pub proof fn lemma_or_scope_sound(
    left_min: BoundModel,
    left_max: BoundModel,
    right_min: BoundModel,
    right_max: BoundModel,
    v: Value,
)
    requires
        tag_of(v) != 0,
        typed_bound(left_min, v),
        typed_bound(left_max, v),
        typed_bound(right_min, v),
        typed_bound(right_max, v),
        ends_in_order(left_min, left_max),
        ends_in_order(right_min, right_max),
    ensures
        typed_range(or_scope(left_min, left_max, right_min, right_max), v),
        (above(left_min, v) && below(left_max, v)) || (above(right_min, v) && below(right_max, v))
            ==> in_range(or_scope(left_min, left_max, right_min, right_max), v),
{
    reveal(bound_order);
    lemma_bound_orders(left_min, right_min, v);
    lemma_bound_orders(right_min, left_min, v);
    lemma_bound_orders(left_max, right_max, v);
    lemma_bound_orders(right_max, left_max, v);
    lemma_bound_orders(left_min, left_max, v);
    lemma_bound_orders(left_min, right_max, v);
    lemma_bound_orders(right_min, left_max, v);
    lemma_bound_orders(right_min, right_max, v);
    lemma_bound_orders(left_max, right_min, v);
    lemma_bound_orders(right_max, left_min, v);
    let left = RangeModel::Scope { min: left_min, max: left_max };
    let right = RangeModel::Scope { min: right_min, max: right_max };
    lemma_in_pair(left, right, v);
    lemma_in_pair(right, left, v);
    let r = or_scope(left_min, left_max, right_min, right_max);
    if r is SortedRanges {
        assert(r->SortedRanges_0 =~= seq![left, right] || r->SortedRanges_0 =~= seq![right, left]);
    }
}

proof fn lemma_scope_eq_facts(min: BoundModel, max: BoundModel, eq: Value, v: Value)
    requires
        tag_of(v) != 0,
        typed_bound(min, v),
        typed_bound(max, v),
        eq is Null || tag_of(eq) == tag_of(v),
    ensures
        eq is Null ==> !value_eq(eq, v),
        !(eq is Null) ==> value_eq(eq, v) == (rank(eq) == rank(v)),
        !(min is Unbounded) ==> value_order(bound_value(min), v) == Some(
            order_of_sign(rank(bound_value(min)) - rank(v)),
        ),
        !(max is Unbounded) ==> value_order(bound_value(max), v) == Some(
            order_of_sign(rank(bound_value(max)) - rank(v)),
        ),
        !(eq is Null) && !(min is Unbounded) ==> value_order(eq, bound_value(min)) == Some(
            order_of_sign(rank(eq) - rank(bound_value(min))),
        ) && value_eq(bound_value(min), eq) == (rank(eq) == rank(bound_value(min))),
        !(eq is Null) && !(max is Unbounded) ==> value_order(eq, bound_value(max)) == Some(
            order_of_sign(rank(eq) - rank(bound_value(max))),
        ) && value_eq(bound_value(max), eq) == (rank(eq) == rank(bound_value(max))),
        eq is Null && !(min is Unbounded) ==> value_order(eq, bound_value(min)) is None,
        eq is Null && !(max is Unbounded) ==> value_order(eq, bound_value(max)) is None,
{
    if eq is Null {
        lemma_null_order(v);
        if !(min is Unbounded) {
            lemma_null_order(bound_value(min));
        }
        if !(max is Unbounded) {
            lemma_null_order(bound_value(max));
        }
    } else {
        lemma_ranked_order(eq, v);
        if !(min is Unbounded) {
            lemma_ranked_order(eq, bound_value(min));
            lemma_ranked_order(bound_value(min), eq);
        }
        if !(max is Unbounded) {
            lemma_ranked_order(eq, bound_value(max));
            lemma_ranked_order(bound_value(max), eq);
        }
    }
    if !(min is Unbounded) {
        lemma_ranked_order(bound_value(min), v);
    }
    if !(max is Unbounded) {
        lemma_ranked_order(bound_value(max), v);
    }
}

/// What an interval and a single value both hold, their intersection holds.
pub proof fn lemma_scope_eq_and_sound(min: BoundModel, max: BoundModel, eq: Value, v: Value)
    requires
        tag_of(v) != 0,
        typed_bound(min, v),
        typed_bound(max, v),
        ends_in_order(min, max),
        eq is Null || tag_of(eq) == tag_of(v),
    ensures
        scope_eq(BinaryOperator::And, min, max, eq) is Some,
        typed_range(scope_eq(BinaryOperator::And, min, max, eq)->0, v),
        above(min, v) && below(max, v) && value_eq(eq, v) ==> in_range(
            scope_eq(BinaryOperator::And, min, max, eq)->0,
            v,
        ),
{
    reveal(bound_order);
    lemma_scope_eq_facts(min, max, eq, v);
}

/// What an interval or a single value holds, their union holds.
pub proof fn lemma_scope_eq_or_sound(min: BoundModel, max: BoundModel, eq: Value, v: Value)
    requires
        tag_of(v) != 0,
        typed_bound(min, v),
        typed_bound(max, v),
        ends_in_order(min, max),
        eq is Null || tag_of(eq) == tag_of(v),
    ensures
        scope_eq(BinaryOperator::Or, min, max, eq) is Some,
        typed_range(scope_eq(BinaryOperator::Or, min, max, eq)->0, v),
        (above(min, v) && below(max, v)) || value_eq(eq, v) ==> in_range(
            scope_eq(BinaryOperator::Or, min, max, eq)->0,
            v,
        ),
{
    reveal(bound_order);
    lemma_scope_eq_facts(min, max, eq, v);
    let scope = RangeModel::Scope { min, max };
    lemma_in_pair(RangeModel::Eq(eq), scope, v);
    lemma_in_pair(scope, RangeModel::Eq(eq), v);
    let m = scope_eq(BinaryOperator::Or, min, max, eq)->0;
    if m is SortedRanges {
        assert(m->SortedRanges_0 =~= seq![RangeModel::Eq(eq), scope] || m->SortedRanges_0
            =~= seq![scope, RangeModel::Eq(eq)]);
        assert(typed_range(m, v));
    } else {
        match min {
            BoundModel::Excluded(x) => {
                assert(typed_bound(widen(min, eq, BinaryOperator::Or), v));
                assert(bound_value(widen(min, eq, BinaryOperator::Or)) == x);
            },
            _ => {},
        }
        match max {
            BoundModel::Excluded(x) => {
                assert(typed_bound(widen(max, eq, BinaryOperator::Or), v));
                assert(bound_value(widen(max, eq, BinaryOperator::Or)) == x);
            },
            _ => {},
        }
    }
}

/// What an interval and a single value both hold, their intersection holds;
/// what one of them holds, their union holds.
pub proof fn lemma_scope_eq_sound(
    op: BinaryOperator,
    min: BoundModel,
    max: BoundModel,
    eq: Value,
    v: Value,
)
    requires
        tag_of(v) != 0,
        op is And || op is Or,
        typed_bound(min, v),
        typed_bound(max, v),
        ends_in_order(min, max),
        eq is Null || tag_of(eq) == tag_of(v),
    ensures
        scope_eq(op, min, max, eq) matches Some(m) && typed_range(m, v) && (op is And ==> (above(
            min,
            v,
        ) && below(max, v) && value_eq(eq, v) ==> in_range(m, v))) && (op is Or ==> ((above(min, v)
            && below(max, v)) || value_eq(eq, v) ==> in_range(m, v))),
{
    lemma_scope_eq_and_sound(min, max, eq, v);
    lemma_scope_eq_or_sound(min, max, eq, v);
}

/// What two single values both hold, their intersection holds; what one of
/// them holds, their union holds.
pub proof fn lemma_eq_eq_sound(op: BinaryOperator, left: Value, right: Value, v: Value)
    requires
        tag_of(v) != 0,
        op is And || op is Or,
        left is Null || tag_of(left) == tag_of(v),
        right is Null || tag_of(right) == tag_of(v),
    ensures
        eq_eq(op, left, right) matches Some(m) && typed_range(m, v) && (op is And ==> (value_eq(
            left,
            v,
        ) && value_eq(right, v) ==> in_range(m, v))) && (op is Or ==> (value_eq(left, v)
            || value_eq(right, v) ==> in_range(m, v))),
{
    lemma_in_pair(RangeModel::Eq(left), RangeModel::Eq(right), v);
    lemma_in_pair(RangeModel::Eq(right), RangeModel::Eq(left), v);
    if left is Null {
        lemma_null_order(v);
    } else {
        lemma_ranked_order(left, v);
    }
    if right is Null {
        lemma_null_order(v);
    } else {
        lemma_ranked_order(right, v);
    }
    if !(left is Null) && !(right is Null) {
        lemma_ranked_order(left, right);
    }
    if left is Null && !(right is Null) {
        lemma_null_order(right);
    }
    if right is Null && !(left is Null) {
        lemma_null_order(left);
    }
    if left is Null && right is Null {
        reveal(value_eq);
    }
    let m = eq_eq(op, left, right)->0;
    if m is SortedRanges {
        assert(m->SortedRanges_0 =~= seq![RangeModel::Eq(left), RangeModel::Eq(right)]
            || m->SortedRanges_0 =~= seq![RangeModel::Eq(right), RangeModel::Eq(left)]);
    }
}

/// Combining single pieces is sound: what two single pieces both hold,
/// their combination under `And` holds; what one of them holds, their
/// combination under `Or` holds.
pub proof fn lemma_merge_atoms_sound(op: BinaryOperator, a: RangeModel, b: RangeModel, v: Value)
    requires
        tag_of(v) != 0,
        op is And || op is Or,
        typed_atom(a, v),
        typed_atom(b, v),
    ensures
        merge_atoms(op, a, b) matches Some(m) && typed_range(m, v) && (op is And ==> (in_range(a, v)
            && in_range(b, v) ==> in_range(m, v))) && (op is Or ==> (in_range(a, v) || in_range(
            b,
            v,
        ) ==> in_range(m, v))),
{
    match (a, b) {
        (RangeModel::Dummy, _) => {},
        (_, RangeModel::Dummy) => {},
        (
            RangeModel::Scope { min: left_min, max: left_max },
            RangeModel::Scope { min: right_min, max: right_max },
        ) => {
            lemma_and_scope_sound(left_min, left_max, right_min, right_max, v);
            lemma_or_scope_sound(left_min, left_max, right_min, right_max, v);
        },
        (RangeModel::Scope { min, max }, RangeModel::Eq(eq)) => {
            lemma_scope_eq_sound(op, min, max, eq, v);
        },
        (RangeModel::Eq(eq), RangeModel::Scope { min, max }) => {
            lemma_scope_eq_sound(op, min, max, eq, v);
        },
        (RangeModel::Eq(l), RangeModel::Eq(r)) => {
            lemma_eq_eq_sound(op, l, r, v);
        },
        _ => {},
    }
}

/// Unions of two intervals that stay two stand in order and apart.
proof fn lemma_or_scope_in_order(
    left_min: BoundModel,
    left_max: BoundModel,
    right_min: BoundModel,
    right_max: BoundModel,
    x: Value,
    y: Value,
)
    requires
        tag_of(x) != 0,
        tag_of(y) == tag_of(x),
        typed_bound(left_min, x),
        typed_bound(left_max, x),
        typed_bound(right_min, x),
        typed_bound(right_max, x),
        ends_in_order(left_min, left_max),
        ends_in_order(right_min, right_max),
        or_scope(left_min, left_max, right_min, right_max) matches RangeModel::SortedRanges(ps)
            && in_range(ps[0], x) && in_range(ps[1], y),
    ensures
        rank(x) < rank(y),
{
    reveal(bound_order);
    lemma_bound_orders(left_min, right_min, x);
    lemma_bound_orders(right_min, left_min, x);
    lemma_bound_orders(left_max, right_min, x);
    lemma_bound_orders(right_max, left_min, x);
    lemma_bound_orders(left_min, left_max, y);
    lemma_bound_orders(right_min, right_max, y);
    lemma_bound_orders(left_max, right_max, x);
    lemma_bound_orders(right_max, left_max, y);
}

/// A union of an interval and a single value that stays two stands in order
/// and apart.
proof fn lemma_scope_eq_in_order(min: BoundModel, max: BoundModel, eq: Value, x: Value, y: Value)
    requires
        tag_of(x) != 0,
        tag_of(y) == tag_of(x),
        typed_bound(min, x),
        typed_bound(max, x),
        ends_in_order(min, max),
        eq is Null || tag_of(eq) == tag_of(x),
        scope_eq(BinaryOperator::Or, min, max, eq) matches Some(RangeModel::SortedRanges(ps))
            && in_range(ps[0], x) && in_range(ps[1], y),
    ensures
        rank(x) < rank(y),
{
    reveal(bound_order);
    lemma_scope_eq_facts(min, max, eq, x);
    lemma_scope_eq_facts(min, max, eq, y);
}

/// Range normal form for two pieces: where two single pieces combine into
/// a list, the list has two members, and every value of the first member is
/// less than every value of the second, so that the two stand in order and
/// hold no value in common.
pub proof fn lemma_merge_atoms_in_order(
    op: BinaryOperator,
    a: RangeModel,
    b: RangeModel,
    x: Value,
    y: Value,
)
    requires
        tag_of(x) != 0,
        tag_of(y) == tag_of(x),
        typed_atom(a, x),
        typed_atom(b, x),
        merge_atoms(op, a, b) matches Some(RangeModel::SortedRanges(ps)) && in_range(ps[0], x)
            && in_range(ps[1], y),
    ensures
        merge_atoms(op, a, b)->0->SortedRanges_0.len() == 2,
        value_order(x, y) == Some(ValueOrder::Less),
{
    lemma_ranked_order(x, y);
    crate::range::lemma_merge_atoms_shape(op, a, b);
    match (a, b) {
        (
            RangeModel::Scope { min: left_min, max: left_max },
            RangeModel::Scope { min: right_min, max: right_max },
        ) => {
            if op is Or {
                lemma_or_scope_in_order(left_min, left_max, right_min, right_max, x, y);
            } else {
                lemma_and_scope_sound(left_min, left_max, right_min, right_max, x);
            }
        },
        (RangeModel::Scope { min, max }, RangeModel::Eq(eq)) => {
            lemma_scope_eq_in_order(min, max, eq, x, y);
        },
        (RangeModel::Eq(eq), RangeModel::Scope { min, max }) => {
            lemma_scope_eq_in_order(min, max, eq, x, y);
        },
        (RangeModel::Eq(l), RangeModel::Eq(r)) => {
            if !(l is Null) {
                lemma_ranked_order(l, x);
                lemma_ranked_order(l, y);
            } else {
                lemma_null_order(x);
                lemma_null_order(y);
            }
            if !(r is Null) {
                lemma_ranked_order(r, x);
                lemma_ranked_order(r, y);
            } else {
                lemma_null_order(x);
                lemma_null_order(y);
            }
            if !(l is Null) && !(r is Null) {
                lemma_ranked_order(l, r);
            }
        },
        _ => {},
    }
}

/// Whether every member of a list is an interval or a single value that
/// speaks of values of the kind of `v`.
pub open spec fn typed_pieces(rs: Seq<RangeModel>, v: Value) -> bool {
    forall|i: int| 0 <= i < rs.len() ==> is_piece(#[trigger] rs[i]) && typed_atom(rs[i], v)
}

/// Whether one member of a list holds a value.
pub open spec fn in_some(rs: Seq<RangeModel>, v: Value) -> bool {
    exists|i: int| 0 <= i < rs.len() && in_range(#[trigger] rs[i], v)
}

/// Whether a range is empty, an interval or a single value of the kind of
/// `v`, or a list of such intervals and single values.
pub open spec fn plain_range(r: RangeModel, v: Value) -> bool {
    match r {
        RangeModel::SortedRanges(rs) => typed_pieces(rs, v),
        RangeModel::Dummy => true,
        _ => typed_atom(r, v),
    }
}

/// A list holds what one of its members holds.
pub proof fn lemma_in_list(rs: Seq<RangeModel>, v: Value)
    ensures
        in_range(RangeModel::SortedRanges(rs), v) == in_some(rs, v),
{
    let r = RangeModel::SortedRanges(rs);
    assert(decreases_to!(r => r->SortedRanges_0));
    assert forall|i: int| 0 <= i < rs.len() implies decreases_to!(rs => #[trigger] rs[i]) by {}
    if in_some(rs, v) {
        let i = choose|i: int| 0 <= i < rs.len() && in_range(#[trigger] rs[i], v);
        assert(in_range(rs[i], v));
        assert(in_range(r, v));
    }
    if in_range(r, v) {
        assert(in_some(rs, v));
    }
}

/// A list taken as one range holds what one of its members holds.
pub proof fn lemma_in_collapsed(rs: Seq<RangeModel>, v: Value)
    requires
        typed_pieces(rs, v),
    ensures
        in_range(collapse_list(rs), v) == in_some(rs, v),
        plain_range(collapse_list(rs), v),
{
    lemma_in_list(rs, v);
    if rs.len() == 1 {
        assert(is_piece(rs[0]));
        if in_some(rs, v) {
            let i = choose|i: int| 0 <= i < rs.len() && in_range(#[trigger] rs[i], v);
            assert(i == 0);
        }
        if in_range(rs[0], v) {
            assert(in_some(rs, v));
        }
    }
}

/// The union of two intervals or single values is an interval or a single
/// value, or two of them side by side, and holds what either holds.
pub proof fn lemma_or_pieces(a: RangeModel, b: RangeModel, v: Value)
    requires
        tag_of(v) != 0,
        is_piece(a),
        is_piece(b),
        typed_atom(a, v),
        typed_atom(b, v),
    ensures
        merge_atoms(BinaryOperator::Or, a, b) matches Some(m) && (match m {
            RangeModel::SortedRanges(ps) => ps.len() == 2 && typed_pieces(ps, v) && (in_range(a, v)
                || in_range(b, v) ==> in_range(ps[0], v) || in_range(ps[1], v)),
            _ => is_piece(m) && typed_atom(m, v) && (in_range(a, v) || in_range(b, v) ==> in_range(
                m,
                v,
            )),
        }),
{
    lemma_merge_atoms_sound(BinaryOperator::Or, a, b, v);
    crate::range::lemma_merge_atoms_shape(BinaryOperator::Or, a, b);
    let m = merge_atoms(BinaryOperator::Or, a, b)->0;
    match m {
        RangeModel::SortedRanges(ps) => {
            lemma_in_list(ps, v);
            assert(typed_atom(ps[0], v) && typed_atom(ps[1], v));
            lemma_or_never_empty(a, b, v);
            if in_some(ps, v) {
                let i = choose|i: int| 0 <= i < ps.len() && in_range(#[trigger] ps[i], v);
                assert(i == 0 || i == 1);
            }
        },
        _ => {
            lemma_or_never_empty(a, b, v);
        },
    }
}

/// The union of two intervals or single values is not the empty range and
/// has no empty member.
proof fn lemma_or_never_empty(a: RangeModel, b: RangeModel, v: Value)
    requires
        tag_of(v) != 0,
        is_piece(a),
        is_piece(b),
        typed_atom(a, v),
        typed_atom(b, v),
    ensures
        match merge_atoms(BinaryOperator::Or, a, b) {
            Some(RangeModel::SortedRanges(ps)) => ps.len() == 2 && is_piece(ps[0]) && is_piece(
                ps[1],
            ),
            Some(m) => is_piece(m),
            None => false,
        },
{
    reveal(bound_order);
    match (a, b) {
        (
            RangeModel::Scope { min: left_min, max: left_max },
            RangeModel::Scope { min: right_min, max: right_max },
        ) => {
            lemma_bound_orders(left_min, right_min, v);
            lemma_bound_orders(left_max, right_max, v);
            lemma_bound_orders(left_min, left_max, v);
            lemma_bound_orders(left_min, right_max, v);
            lemma_bound_orders(right_min, left_max, v);
            lemma_bound_orders(right_min, right_max, v);
        },
        _ => {},
    }
}

/// A list with one more member holds what the list and the member hold.
pub proof fn lemma_in_insert(rs: Seq<RangeModel>, at: int, b: RangeModel, v: Value)
    requires
        0 <= at <= rs.len(),
        typed_pieces(rs, v),
        is_piece(b),
        typed_atom(b, v),
    ensures
        typed_pieces(rs.insert(at, b), v),
        in_some(rs, v) || in_range(b, v) ==> in_some(rs.insert(at, b), v),
{
    let out = rs.insert(at, b);
    assert forall|i: int| 0 <= i < out.len() implies is_piece(#[trigger] out[i]) && typed_atom(
        out[i],
        v,
    ) by {
        if i < at {
            assert(out[i] == rs[i]);
        } else if i > at {
            assert(out[i] == rs[i - 1]);
        }
    }
    if in_range(b, v) {
        assert(in_range(out[at], v));
    } else if in_some(rs, v) {
        let i = choose|i: int| 0 <= i < rs.len() && in_range(#[trigger] rs[i], v);
        if i < at {
            assert(in_range(out[i], v));
        } else {
            assert(out[i + 1] == rs[i]);
            assert(in_range(out[i + 1], v));
        }
    }
}

/// What a list holds, a member or the list without it holds.
pub proof fn lemma_in_remove(rs: Seq<RangeModel>, at: int, v: Value)
    requires
        0 <= at < rs.len(),
        typed_pieces(rs, v),
    ensures
        typed_pieces(rs.remove(at), v),
        in_some(rs, v) ==> in_range(rs[at], v) || in_some(rs.remove(at), v),
{
    let out = rs.remove(at);
    assert forall|i: int| 0 <= i < out.len() implies is_piece(#[trigger] out[i]) && typed_atom(
        out[i],
        v,
    ) by {
        if i < at {
            assert(out[i] == rs[i]);
        } else {
            assert(out[i] == rs[i + 1]);
        }
    }
    if in_some(rs, v) && !in_range(rs[at], v) {
        let i = choose|i: int| 0 <= i < rs.len() && in_range(#[trigger] rs[i], v);
        if i < at {
            assert(in_range(out[i], v));
        } else {
            assert(out[i - 1] == rs[i]);
            assert(in_range(out[i - 1], v));
        }
    }
}

/// What a list holds, a member or the list with another in its place holds.
pub proof fn lemma_in_update(rs: Seq<RangeModel>, at: int, b: RangeModel, v: Value)
    requires
        0 <= at < rs.len(),
        typed_pieces(rs, v),
        is_piece(b),
        typed_atom(b, v),
    ensures
        typed_pieces(rs.update(at, b), v),
        in_some(rs, v) ==> in_range(rs[at], v) || in_some(rs.update(at, b), v),
        in_range(b, v) ==> in_some(rs.update(at, b), v),
{
    let out = rs.update(at, b);
    assert forall|i: int| 0 <= i < out.len() implies is_piece(#[trigger] out[i]) && typed_atom(
        out[i],
        v,
    ) by {
        if i != at {
            assert(out[i] == rs[i]);
        }
    }
    if in_range(b, v) {
        assert(in_range(out[at], v));
    }
    if in_some(rs, v) && !in_range(rs[at], v) {
        let i = choose|i: int| 0 <= i < rs.len() && in_range(#[trigger] rs[i], v);
        assert(out[i] == rs[i]);
        assert(in_range(out[i], v));
    }
}

/// Uniting an interval or a single value with a list leaves a list of
/// intervals and single values that holds what the list or the incoming
/// piece held.
pub proof fn lemma_united_sound(binary: RangeModel, ranges: Seq<RangeModel>, idx: nat, v: Value)
    requires
        tag_of(v) != 0,
        is_piece(binary),
        typed_atom(binary, v),
        typed_pieces(ranges, v),
    ensures
        typed_pieces(united(binary, ranges, idx).0, v),
        in_range(binary, v) || in_some(ranges, v) ==> in_some(united(binary, ranges, idx).0, v),
    decreases ranges.len() - idx,
{
    let op = BinaryOperator::Or;
    if idx >= ranges.len() {
        lemma_in_insert(ranges, ranges.len() as int, binary, v);
        assert(ranges.insert(ranges.len() as int, binary) =~= ranges.push(binary));
    } else {
        let at = idx as int;
        let cur = ranges[at];
        assert(is_piece(cur) && typed_atom(cur, v));
        lemma_null_order(v);
        match step_of(binary, cur) {
            Step::Insert => {
                lemma_in_insert(ranges, at, binary, v);
            },
            Step::Advance => {
                lemma_united_sound(binary, ranges, idx + 1, v);
            },
            Step::Drop => {
                lemma_in_remove(ranges, at, v);
                lemma_united_sound(binary, ranges.remove(at), idx, v);
            },
            Step::Take => {
                lemma_in_remove(ranges, at, v);
                lemma_united_sound(cur, ranges.remove(at), idx, v);
            },
            Step::Merge => {
                lemma_or_pieces(binary, cur, v);
                match merge_atoms(op, binary, cur) {
                    Some(RangeModel::SortedRanges(pieces)) => {
                        assert(is_piece(pieces[0]) && typed_atom(pieces[0], v));
                        assert(is_piece(pieces[1]) && typed_atom(pieces[1], v));
                        lemma_in_update(ranges, at, pieces[0], v);
                        lemma_united_sound(pieces[1], ranges.update(at, pieces[0]), idx + 1, v);
                    },
                    Some(m) => {
                        lemma_in_remove(ranges, at, v);
                        lemma_united_sound(m, ranges.remove(at), idx, v);
                    },
                    None => {},
                }
            },
        }
    }
}

/// Uniting the members of one list with another leaves a list that holds
/// what either list held.
pub proof fn lemma_fold_sound(
    left: Seq<RangeModel>,
    k: nat,
    ranges: Seq<RangeModel>,
    idx: nat,
    v: Value,
)
    requires
        tag_of(v) != 0,
        typed_pieces(left, v),
        typed_pieces(ranges, v),
    ensures
        typed_pieces(fold(left, k, ranges, idx), v),
        in_some(ranges, v) || (exists|j: int| k <= j < left.len() && in_range(#[trigger] left[j], v))
            ==> in_some(fold(left, k, ranges, idx), v),
    decreases left.len() - k,
{
    if k < left.len() {
        let b = left[k as int];
        assert(is_piece(b) && typed_atom(b, v));
        let next = united(b, ranges, idx);
        lemma_united_sound(b, ranges, idx, v);
        lemma_fold_sound(left, k + 1, next.0, next.1, v);
        if exists|j: int| k <= j < left.len() && in_range(#[trigger] left[j], v) {
            let j = choose|j: int| k <= j < left.len() && in_range(#[trigger] left[j], v);
            if j > k {
                assert(k + 1 <= j < left.len() && in_range(left[j], v));
            }
        }
    }
}

/// Intersecting the members of a list with a range leaves a list of
/// intervals and single values that holds what both the range and a member
/// held.
pub proof fn lemma_intersected_sound(binary: RangeModel, ranges: Seq<RangeModel>, n: nat, v: Value)
    requires
        tag_of(v) != 0,
        typed_atom(binary, v),
        typed_pieces(ranges, v),
        n <= ranges.len(),
    ensures
        typed_pieces(intersected(binary, ranges, n), v),
        forall|j: int|
            0 <= j < n && in_range(binary, v) && in_range(#[trigger] ranges[j], v) ==> in_some(
                intersected(binary, ranges, n),
                v,
            ),
    decreases n,
{
    if n > 0 {
        let front = intersected(binary, ranges, (n - 1) as nat);
        lemma_intersected_sound(binary, ranges, (n - 1) as nat, v);
        let cur = ranges[n - 1];
        assert(is_piece(cur) && typed_atom(cur, v));
        lemma_merge_atoms_sound(BinaryOperator::And, binary, cur, v);
        let m = merge_atoms(BinaryOperator::And, binary, cur)->0;
        let out = intersected(binary, ranges, n);
        assert(!(m is SortedRanges)) by {
            reveal(bound_order);
        }
        if is_piece(m) {
            assert(out == front.push(m));
            lemma_in_insert(front, front.len() as int, m, v);
            assert(front.insert(front.len() as int, m) =~= front.push(m));
        }
        assert forall|j: int|
            0 <= j < n && in_range(binary, v) && in_range(#[trigger] ranges[j], v) implies in_some(
            out,
            v,
        ) by {
            if j == n - 1 {
                assert(in_range(m, v));
                assert(is_piece(m));
            } else {
                assert(in_some(front, v));
            }
        }
    }
}

/// Intersecting two lists leaves a list of intervals and single values
/// that holds what a member of each held.
pub proof fn lemma_intersected_lists_sound(
    left: Seq<RangeModel>,
    ranges: Seq<RangeModel>,
    n: nat,
    v: Value,
)
    requires
        tag_of(v) != 0,
        typed_pieces(left, v),
        typed_pieces(ranges, v),
        n <= left.len(),
    ensures
        typed_pieces(intersected_lists(left, ranges, n), v),
        forall|i: int|
            0 <= i < n && in_range(#[trigger] left[i], v) && in_some(ranges, v) ==> in_some(
                intersected_lists(left, ranges, n),
                v,
            ),
    decreases n,
{
    if n > 0 {
        let front = intersected_lists(left, ranges, (n - 1) as nat);
        let b = left[n - 1];
        let more = intersected(b, ranges, ranges.len());
        lemma_intersected_lists_sound(left, ranges, (n - 1) as nat, v);
        assert(is_piece(b) && typed_atom(b, v));
        lemma_intersected_sound(b, ranges, ranges.len(), v);
        let out = intersected_lists(left, ranges, n);
        assert(out == front + more);
        lemma_in_concat(front, more, v);
        assert forall|i: int|
            0 <= i < n && in_range(#[trigger] left[i], v) && in_some(ranges, v) implies in_some(
            out,
            v,
        ) by {
            if i == n - 1 {
                let j = choose|j: int| 0 <= j < ranges.len() && in_range(#[trigger] ranges[j], v);
                assert(in_range(ranges[j], v));
                assert(in_some(more, v));
            } else {
                assert(in_some(front, v));
            }
        }
    }
}

/// Two lists one behind the other hold what either holds.
pub proof fn lemma_in_concat(a: Seq<RangeModel>, b: Seq<RangeModel>, v: Value)
    requires
        typed_pieces(a, v),
        typed_pieces(b, v),
    ensures
        typed_pieces(a + b, v),
        in_some(a, v) || in_some(b, v) ==> in_some(a + b, v),
{
    let out = a + b;
    assert forall|i: int| 0 <= i < out.len() implies is_piece(#[trigger] out[i]) && typed_atom(
        out[i],
        v,
    ) by {
        if i < a.len() {
            assert(out[i] == a[i]);
        } else {
            assert(out[i] == b[i - a.len()]);
        }
    }
    if in_some(a, v) {
        let i = choose|i: int| 0 <= i < a.len() && in_range(#[trigger] a[i], v);
        assert(out[i] == a[i]);
        assert(in_range(out[i], v));
    } else if in_some(b, v) {
        let i = choose|i: int| 0 <= i < b.len() && in_range(#[trigger] b[i], v);
        assert(out[i + a.len()] == b[i]);
        assert(in_range(out[i + a.len()], v));
    }
}

/// Combining is sound: the combination of two ranges of intervals and
/// single values under `And` or `Or` is such a range; under `And` it holds
/// what both hold, under `Or` what either holds.
pub proof fn lemma_merge_sound(op: BinaryOperator, a: RangeModel, b: RangeModel, v: Value)
    requires
        tag_of(v) != 0,
        op is And || op is Or,
        plain_range(a, v),
        plain_range(b, v),
    ensures
        merge(op, a, b) matches Some(m) && plain_range(m, v) && (op is And ==> (in_range(a, v)
            && in_range(b, v) ==> in_range(m, v))) && (op is Or ==> (in_range(a, v) || in_range(
            b,
            v,
        ) ==> in_range(m, v))),
{
    match (a, b) {
        (RangeModel::Dummy, _) => {},
        (_, RangeModel::Dummy) => {},
        (RangeModel::SortedRanges(ls), RangeModel::SortedRanges(rs)) => {
            lemma_in_list(ls, v);
            lemma_in_list(rs, v);
            if op is Or {
                lemma_fold_sound(ls, 0, rs, 0, v);
                lemma_in_collapsed(fold(ls, 0, rs, 0), v);
                if in_some(ls, v) {
                    let j = choose|j: int| 0 <= j < ls.len() && in_range(#[trigger] ls[j], v);
                    assert(0 <= j < ls.len() && in_range(ls[j], v));
                }
            } else {
                lemma_intersected_lists_sound(ls, rs, ls.len(), v);
                lemma_in_collapsed(intersected_lists(ls, rs, ls.len()), v);
                if in_some(ls, v) && in_some(rs, v) {
                    let i = choose|i: int| 0 <= i < ls.len() && in_range(#[trigger] ls[i], v);
                    assert(in_range(ls[i], v));
                }
            }
        },
        (RangeModel::SortedRanges(rs), x) => {
            lemma_merge_list_sound(op, x, rs, v);
        },
        (x, RangeModel::SortedRanges(rs)) => {
            lemma_merge_list_sound(op, x, rs, v);
        },
        _ => {
            lemma_merge_atoms_sound(op, a, b, v);
            let m = merge_atoms(op, a, b)->0;
            if op is Or {
                lemma_or_pieces(a, b, v);
                if m is SortedRanges {
                    lemma_in_list(m->SortedRanges_0, v);
                    let ps = m->SortedRanges_0;
                    if in_range(ps[0], v) || in_range(ps[1], v) {
                        assert(in_some(ps, v));
                    }
                }
            } else {
                assert(!(m is SortedRanges)) by {
                    reveal(bound_order);
                }
            }
        },
    }
}

/// A single piece combined with a list is sound.
proof fn lemma_merge_list_sound(op: BinaryOperator, x: RangeModel, rs: Seq<RangeModel>, v: Value)
    requires
        tag_of(v) != 0,
        op is And || op is Or,
        is_piece(x),
        typed_atom(x, v),
        typed_pieces(rs, v),
    ensures
        ({
            let out = crate::range_merge::extract(op, Some(x), rs, 0).0;
            &&& plain_range(collapse_list(out), v)
            &&& op is And ==> (in_range(x, v) && in_some(rs, v) ==> in_range(collapse_list(out), v))
            &&& op is Or ==> (in_range(x, v) || in_some(rs, v) ==> in_range(collapse_list(out), v))
            &&& in_range(RangeModel::SortedRanges(rs), v) == in_some(rs, v)
        }),
{
    let out = crate::range_merge::extract(op, Some(x), rs, 0).0;
    lemma_in_list(rs, v);
    if op is Or {
        lemma_united_sound(x, rs, 0, v);
    } else {
        lemma_intersected_sound(x, rs, rs.len(), v);
        if in_range(x, v) && in_some(rs, v) {
            let j = choose|j: int| 0 <= j < rs.len() && in_range(#[trigger] rs[j], v);
            assert(in_range(rs[j], v));
        }
    }
    lemma_in_collapsed(out, v);
}

/// Whether an expression is a constant of the type and kind of `v`.
pub open spec fn is_literal(e: Expr, v: Value) -> bool {
    e matches Expr::Constant(c) && type_of(c) == type_of(v) && tag_of(c) == tag_of(v)
}

/// Whether an expression is a column, and where it is the column
/// `column_id` of `table`, that column has the type of `v` and the value
/// `v` in the row.
pub open spec fn is_column_at(
    e: Expr,
    table: Seq<char>,
    column_id: ColumnId,
    row: Seq<Value>,
    schema: Seq<ColumnModel>,
    v: Value,
) -> bool {
    e matches Expr::ColumnRef(c) && (is_target(c, table, column_id) ==> c.datatype == type_of(v)
        && eval_of(e, row, schema) == Ok::<Value, EvalFault>(v))
}

/// Whether an expression is the constant null.
pub open spec fn is_null_literal(e: Expr) -> bool {
    e matches Expr::Constant(c) && c is Null
}

/// Null brought to any type is null.
pub proof fn lemma_null_cast(ty: crate::types::TypeModel)
    ensures
        crate::cast::cast_of(Value::Null, ty) == crate::cast::Cast::Done(Value::Null),
{
    reveal(crate::cast::cast_of);
    reveal(crate::cast::pre_cast);
}

/// Whether a predicate is a plain filter on the column `column_id` of
/// `table`, read at a row in which that column holds `v`: a comparison of a
/// column with a constant of the type of `v`, an equality of a column with
/// null, a null test of a column, or
/// such filters joined by `AND` and `OR`, under an alias or not. A side of
/// `AND` or `OR` may also be any predicate that says nothing of the column.
pub open spec fn plain_filter(
    e: Expr,
    table: Seq<char>,
    column_id: ColumnId,
    row: Seq<Value>,
    schema: Seq<ColumnModel>,
    v: Value,
) -> bool
    decreases e,
{
    match e {
        Expr::Binary { op, left_expr, right_expr, .. } => if op is And || op is Or {
            &&& plain_filter(*left_expr, table, column_id, row, schema, v) || detach_of(
                *left_expr,
                table,
                column_id,
            ) == Ok::<Option<RangeModel>, crate::cast::CastFault>(None)
            &&& plain_filter(*right_expr, table, column_id, row, schema, v) || detach_of(
                *right_expr,
                table,
                column_id,
            ) == Ok::<Option<RangeModel>, crate::cast::CastFault>(None)
        } else {
            ||| (is_column_at(*left_expr, table, column_id, row, schema, v) && is_literal(
                *right_expr,
                v,
            ))
            ||| (is_literal(*left_expr, v) && is_column_at(
                *right_expr,
                table,
                column_id,
                row,
                schema,
                v,
            ))
            ||| ((op is Eq || op is Spaceship) && is_column_at(
                *left_expr,
                table,
                column_id,
                row,
                schema,
                v,
            ) && is_null_literal(*right_expr))
            ||| ((op is Eq || op is Spaceship) && is_null_literal(*left_expr) && is_column_at(
                *right_expr,
                table,
                column_id,
                row,
                schema,
                v,
            ))
        },
        Expr::IsNull { expr, .. } => is_column_at(*expr, table, column_id, row, schema, v),
        Expr::Alias { expr, .. } => plain_filter(*expr, table, column_id, row, schema, v),
        _ => false,
    }
}


/// A comparison of the column with a constant is sound.
proof fn lemma_leaf_sound(op: BinaryOperator, val: Value, v: Value, is_flip: bool)
    requires
        tag_of(v) != 0,
        tag_of(val) == tag_of(v),
    ensures
        range_of_op(op, val) matches Some(r) ==> typed_atom(r, v),
        !is_flip && binary_of(op, v, val) == Ok::<Value, EvalFault>(Value::Boolean(true))
            ==> (range_of_op(op, val) matches Some(r) ==> in_range(r, v)),
        is_flip && binary_of(op, val, v) == Ok::<Value, EvalFault>(Value::Boolean(true))
            ==> (range_of_op(flipped(op), val) matches Some(r) ==> in_range(r, v)),
        range_of_op(flipped(op), val) matches Some(r) ==> typed_atom(r, v),
{
    lemma_ranked_order(v, val);
    lemma_ranked_order(val, v);
}

/// Range soundness, also across columns: what a plain filter on a column
/// gives is a range of intervals and single values of the column's kind,
/// and it holds every value, ordered like a number, of which the filter is
/// true. A filter that also speaks of other columns gives nothing or such a
/// range.
pub proof fn lemma_detach_sound(
    e: Expr,
    table: Seq<char>,
    column_id: ColumnId,
    row: Seq<Value>,
    schema: Seq<ColumnModel>,
    v: Value,
)
    requires
        tag_of(v) != 0,
        plain_filter(e, table, column_id, row, schema, v),
    ensures
        detach_of(e, table, column_id) matches Ok(Some(r)) ==> plain_range(r, v) && (eval_of(
            e,
            row,
            schema,
        ) == Ok::<Value, EvalFault>(Value::Boolean(true)) ==> in_range(r, v)),
    decreases e,
{
    match e {
        Expr::Binary { op, left_expr, right_expr, .. } => {
            let l = *left_expr;
            let r = *right_expr;
            if op is And || op is Or {
                if plain_filter(l, table, column_id, row, schema, v) {
                    lemma_detach_sound(l, table, column_id, row, schema, v);
                }
                if plain_filter(r, table, column_id, row, schema, v) {
                    lemma_detach_sound(r, table, column_id, row, schema, v);
                }
                match (detach_of(l, table, column_id), detach_of(r, table, column_id)) {
                    (Ok(Some(a)), Ok(Some(b))) => {
                        lemma_merge_sound(op, a, b, v);
                    },
                    (Ok(None), Ok(None)) => {
                        lemma_no_range_for_logic(op, l, r, table, column_id);
                    },
                    _ => {},
                }
            } else {
                if is_column_at(l, table, column_id, row, schema, v) && is_literal(r, v) {
                    lemma_leaf_sound(op, r->Constant_0, v, false);
                } else if is_literal(l, v) && is_column_at(r, table, column_id, row, schema, v) {
                    lemma_leaf_sound(op, l->Constant_0, v, true);
                } else {
                    match l {
                        Expr::ColumnRef(c) => lemma_null_cast(c.datatype),
                        _ => {},
                    }
                    match r {
                        Expr::ColumnRef(c) => lemma_null_cast(c.datatype),
                        _ => {},
                    }
                }
            }
        },
        Expr::IsNull { negated, expr } => {},
        Expr::Alias { expr, .. } => {
            lemma_detach_sound(*expr, table, column_id, row, schema, v);
        },
        _ => {},
    }
}

/// `AND` and `OR` of two sides that give no range give no range.
pub proof fn lemma_no_range_for_logic(
    op: BinaryOperator,
    l: Expr,
    r: Expr,
    table: Seq<char>,
    column_id: ColumnId,
)
    requires
        op is And || op is Or,
    ensures
        !(detach_binary(op, l, r, None, None, table, column_id) matches Ok(Some(x))),
{
}

} // verus!
