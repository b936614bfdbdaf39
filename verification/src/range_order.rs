use crate::decimal::ValueOrder;
use crate::cast::CastFault;
use crate::detacher::{detach_of, is_target};
use crate::expression::{BinaryOperator, Expr};
use crate::range::{
    bound_order, bound_value, ends_before, hull, is_piece, merge_atoms, BoundModel, RangeModel,
};
use crate::range_laws::{
    in_range, is_literal, lemma_merge_atoms_sound, lemma_no_range_for_logic,
    lemma_or_pieces, lemma_ranked_order, rank, tag_of, typed_atom, lemma_null_order, lemma_rank_above_null, is_null_literal, lemma_null_cast,
};
use crate::range_merge::{
    fold, intersected, intersected_lists, merge, step_of, united, Step,
};
use crate::types::ColumnId;
use crate::value::{type_of, value_eq, value_order, Value};
use vstd::prelude::*;

verus! {

/// The place of a lower end among all ends: twice the rank of its value,
/// and one more where the value is excluded.
pub open spec fn lower_key(b: BoundModel) -> int {
    match b {
        BoundModel::Included(x) => 2 * rank(x),
        BoundModel::Excluded(x) => 2 * rank(x) + 1,
        BoundModel::Unbounded => 0,
    }
}

/// The place of an upper end among all ends: twice the rank of its value,
/// and one less where the value is excluded.
pub open spec fn upper_key(b: BoundModel) -> int {
    match b {
        BoundModel::Included(x) => 2 * rank(x),
        BoundModel::Excluded(x) => 2 * rank(x) - 1,
        BoundModel::Unbounded => 0,
    }
}

/// The lower end of an interval or a single value.
pub open spec fn low_end(r: RangeModel) -> BoundModel {
    match r {
        RangeModel::Scope { min, .. } => min,
        RangeModel::Eq(x) => BoundModel::Included(x),
        _ => BoundModel::Unbounded,
    }
}

/// The upper end of an interval or a single value.
pub open spec fn high_end(r: RangeModel) -> BoundModel {
    match r {
        RangeModel::Scope { max, .. } => max,
        RangeModel::Eq(x) => BoundModel::Included(x),
        _ => BoundModel::Unbounded,
    }
}

/// Whether what ends at the upper end `hi` lies wholly before what begins
/// at the lower end `lo`.
pub open spec fn before(hi: BoundModel, lo: BoundModel) -> bool {
    !(hi is Unbounded) && !(lo is Unbounded) && upper_key(hi) < lower_key(lo)
}

/// Whether the lower end `x` lies no higher than the lower end `y`.
pub open spec fn starts_no_later(x: BoundModel, y: BoundModel) -> bool {
    x is Unbounded || (!(y is Unbounded) && lower_key(x) <= lower_key(y))
}

/// Whether two lower ends lie at the same place.
pub open spec fn same_start(x: BoundModel, y: BoundModel) -> bool {
    (x is Unbounded) == (y is Unbounded) && (!(x is Unbounded) ==> lower_key(x) == lower_key(y))
}

/// Whether a range is an interval or a single value of the kind of `v`, and
/// not the null value.
pub open spec fn ranked_piece(r: RangeModel, v: Value) -> bool {
    is_piece(r) && typed_atom(r, v) && !(r matches RangeModel::Eq(x) && x is Null)
}

/// Whether a range is the single value null.
pub open spec fn is_null_piece(r: RangeModel) -> bool {
    r matches RangeModel::Eq(x) && x is Null
}

/// Whether a range is an interval or a single value of the kind of `v`, or
/// the single value null.
pub open spec fn kind_piece(r: RangeModel, v: Value) -> bool {
    ranked_piece(r, v) || is_null_piece(r)
}

/// The orders among the values of two bounds of one kind.
proof fn lemma_keys(a: BoundModel, b: BoundModel, v: Value)
    requires
        tag_of(v) != 0,
        !(a is Unbounded),
        !(b is Unbounded),
        tag_of(bound_value(a)) == tag_of(v),
        tag_of(bound_value(b)) == tag_of(v),
    ensures
        value_order(bound_value(a), bound_value(b)) == Some(
            crate::decimal::order_of_sign(rank(bound_value(a)) - rank(bound_value(b))),
        ),
        value_eq(bound_value(a), bound_value(b)) == (rank(bound_value(a)) == rank(bound_value(b))),
{
    lemma_ranked_order(bound_value(a), bound_value(b));
}

/// What the walk does with an incoming piece at a member under `Or`: it
/// inserts only before a member that lies wholly behind, advances only past
/// a member that lies wholly before, and otherwise joins the two into one
/// piece that begins where the lower of them begins, or leaves them side by
/// side, lower one first. Null is dropped or taken only before an interval
/// with an open lower end.
pub open spec fn or_step_fact(b: RangeModel, cur: RangeModel, v: Value) -> bool {
    match step_of(b, cur) {
        Step::Insert => before(high_end(b), low_end(cur)),
        Step::Advance => before(high_end(cur), low_end(b)),
        Step::Drop => is_null_piece(cur) && low_end(b) is Unbounded,
        Step::Take => is_null_piece(b) && low_end(cur) is Unbounded,
        Step::Merge => match merge_atoms(BinaryOperator::Or, b, cur) {
            Some(RangeModel::SortedRanges(ps)) => ps.len() == 2 && ((ps[0] == cur && ps[1] == b
                && before(high_end(cur), low_end(b))) || (is_null_piece(b) && ps[0] == b && ps[1]
                == cur && before(high_end(b), low_end(cur)))),
            Some(m) => kind_piece(m, v) && (is_null_piece(m) ==> is_null_piece(b) && is_null_piece(
                cur,
            )) && starts_no_later(low_end(m), low_end(b)) && starts_no_later(
                low_end(m),
                low_end(cur),
            ) && (same_start(low_end(m), low_end(b)) || same_start(low_end(m), low_end(cur))),
            None => false,
        },
    }
}

proof fn lemma_all_keys(b: RangeModel, cur: RangeModel, v: Value)
    requires
        tag_of(v) != 0,
        ranked_piece(b, v),
        ranked_piece(cur, v),
    ensures
        forall|x: BoundModel, y: BoundModel|
            #![trigger value_order(bound_value(x), bound_value(y))]
            (x == low_end(b) || x == high_end(b) || x == low_end(cur) || x == high_end(cur)) && (y
                == low_end(b) || y == high_end(b) || y == low_end(cur) || y == high_end(cur))
                && !(x is Unbounded) && !(y is Unbounded) ==> value_order(
                bound_value(x),
                bound_value(y),
            ) == Some(crate::decimal::order_of_sign(rank(bound_value(x)) - rank(bound_value(y))))
                && value_eq(bound_value(x), bound_value(y)) == (rank(bound_value(x)) == rank(
                bound_value(y),
            )),
{
    assert forall|x: BoundModel, y: BoundModel|
        #![trigger value_order(bound_value(x), bound_value(y))]
        (x == low_end(b) || x == high_end(b) || x == low_end(cur) || x == high_end(cur)) && (y
            == low_end(b) || y == high_end(b) || y == low_end(cur) || y == high_end(cur)) && !(x
            is Unbounded) && !(y is Unbounded) implies value_order(bound_value(x), bound_value(y))
        == Some(crate::decimal::order_of_sign(rank(bound_value(x)) - rank(bound_value(y))))
        && value_eq(bound_value(x), bound_value(y)) == (rank(bound_value(x)) == rank(
        bound_value(y),
    )) by {
        lemma_keys(x, y, v);
    }
}

proof fn lemma_or_step_scopes(b: RangeModel, cur: RangeModel, v: Value)
    requires
        tag_of(v) != 0,
        ranked_piece(b, v),
        ranked_piece(cur, v),
        b is Scope,
        cur is Scope,
    ensures
        or_step_fact(b, cur, v),
{
    reveal(bound_order);
    lemma_or_pieces(b, cur, v);
    lemma_all_keys(b, cur, v);
    let lmin = b->Scope_min;
    let lmax = b->Scope_max;
    let rmin = cur->Scope_min;
    let rmax = cur->Scope_max;
    match step_of(b, cur) {
        Step::Insert => {
            assert(value_order(bound_value(lmax), bound_value(rmin)) is Some);
        },
        Step::Advance => {
            assert(value_order(bound_value(lmin), bound_value(rmax)) is Some);
        },
        Step::Merge => {
            let m = merge_atoms(BinaryOperator::Or, b, cur)->0;
            if m is SortedRanges {
                assert(ends_before(lmax, rmin) || ends_before(rmax, lmin));
                assert(!ends_before(lmax, rmin));
                assert(value_order(bound_value(rmax), bound_value(lmin)) is Some);
                assert(before(rmax, lmin));
                if !(rmin is Unbounded) {
                    assert(value_order(bound_value(lmin), bound_value(rmin)) is Some);
                    assert(value_order(bound_value(rmin), bound_value(rmax)) is Some);
                }
                assert(bound_order(lmin, rmin, true) != Some(ValueOrder::Less));
                assert(m->SortedRanges_0 =~= seq![cur, b]);
            } else {
                let min = if bound_order(lmin, rmin, true) == Some(ValueOrder::Less) {
                    lmin
                } else {
                    rmin
                };
                let max = if bound_order(lmax, rmax, false) == Some(ValueOrder::Greater) {
                    lmax
                } else {
                    rmax
                };
                assert(m == hull(min, max));
                if !(lmin is Unbounded) && !(rmin is Unbounded) {
                    assert(value_order(bound_value(lmin), bound_value(rmin)) is Some);
                }
                if !(min is Unbounded) && !(max is Unbounded) {
                    assert(value_order(bound_value(min), bound_value(max)) is Some);
                }
                assert(same_start(low_end(m), min));
                assert(starts_no_later(min, lmin));
                assert(starts_no_later(min, rmin));
            }
        },
        _ => {},
    }
}

proof fn lemma_or_step_scope_eq(b: RangeModel, cur: RangeModel, v: Value)
    requires
        tag_of(v) != 0,
        ranked_piece(b, v),
        ranked_piece(cur, v),
        b is Scope,
        cur is Eq,
    ensures
        or_step_fact(b, cur, v),
{
    reveal(bound_order);
    lemma_or_pieces(b, cur, v);
    lemma_all_keys(b, cur, v);
    let lmin = b->Scope_min;
    let lmax = b->Scope_max;
    let r = cur->Eq_0;
    let point = BoundModel::Included(r);
    assert(low_end(cur) == point && high_end(cur) == point);
    assert(bound_value(point) == r);
    if !(lmin is Unbounded) {
        assert(value_order(bound_value(lmin), bound_value(point)) is Some);
        assert(value_order(bound_value(point), bound_value(lmin)) is Some);
        assert(value_eq(bound_value(lmin), bound_value(point)) == (rank(bound_value(lmin)) == rank(
            r,
        )));
    }
    if !(lmax is Unbounded) {
        assert(value_order(bound_value(lmax), bound_value(point)) is Some);
        assert(value_order(bound_value(point), bound_value(lmax)) is Some);
        assert(value_eq(bound_value(lmax), bound_value(point)) == (rank(bound_value(lmax)) == rank(
            r,
        )));
    }
}

proof fn lemma_or_step_eq_scope(b: RangeModel, cur: RangeModel, v: Value)
    requires
        tag_of(v) != 0,
        ranked_piece(b, v),
        ranked_piece(cur, v),
        b is Eq,
        cur is Scope,
    ensures
        or_step_fact(b, cur, v),
{
    reveal(bound_order);
    lemma_or_pieces(b, cur, v);
    lemma_all_keys(b, cur, v);
    let rmin = cur->Scope_min;
    let rmax = cur->Scope_max;
    let l = b->Eq_0;
    let point = BoundModel::Included(l);
    assert(low_end(b) == point && high_end(b) == point);
    assert(bound_value(point) == l);
    if !(rmin is Unbounded) {
        assert(value_order(bound_value(rmin), bound_value(point)) is Some);
        assert(value_order(bound_value(point), bound_value(rmin)) is Some);
        assert(value_eq(bound_value(rmin), bound_value(point)) == (rank(bound_value(rmin)) == rank(
            l,
        )));
    }
    if !(rmax is Unbounded) {
        assert(value_order(bound_value(rmax), bound_value(point)) is Some);
        assert(value_order(bound_value(point), bound_value(rmax)) is Some);
        assert(value_eq(bound_value(rmax), bound_value(point)) == (rank(bound_value(rmax)) == rank(
            l,
        )));
    }
}

proof fn lemma_or_step_eq_eq(b: RangeModel, cur: RangeModel, v: Value)
    requires
        tag_of(v) != 0,
        ranked_piece(b, v),
        ranked_piece(cur, v),
        b is Eq,
        cur is Eq,
    ensures
        or_step_fact(b, cur, v),
{
    lemma_or_pieces(b, cur, v);
    lemma_ranked_order(b->Eq_0, cur->Eq_0);
}

/// The place of null lies below the place of every end of a piece that is
/// not null.
proof fn lemma_null_below(r: RangeModel, v: Value)
    requires
        tag_of(v) != 0,
        ranked_piece(r, v),
    ensures
        !(low_end(r) is Unbounded) ==> before(
            BoundModel::Included(Value::Null),
            low_end(r),
        ),
        !(high_end(r) is Unbounded) ==> rank(Value::Null) < rank(bound_value(high_end(r))),
        !(low_end(r) is Unbounded) ==> value_order(Value::Null, bound_value(low_end(r))) is None
            && value_order(bound_value(low_end(r)), Value::Null) is None && !value_eq(
            bound_value(low_end(r)),
            Value::Null,
        ) && !value_eq(Value::Null, bound_value(low_end(r))),
        !(high_end(r) is Unbounded) ==> value_order(Value::Null, bound_value(high_end(r))) is None
            && value_order(bound_value(high_end(r)), Value::Null) is None && !value_eq(
            bound_value(high_end(r)),
            Value::Null,
        ) && !value_eq(Value::Null, bound_value(high_end(r))),
        value_order(Value::Null, Value::Null) == Some(ValueOrder::Equal),
        value_eq(Value::Null, Value::Null),
{
    reveal(value_order);
    reveal(value_eq);
    if !(low_end(r) is Unbounded) {
        lemma_rank_above_null(bound_value(low_end(r)));
        lemma_null_order(bound_value(low_end(r)));
    }
    if !(high_end(r) is Unbounded) {
        lemma_rank_above_null(bound_value(high_end(r)));
        lemma_null_order(bound_value(high_end(r)));
    }
}

/// Null coming in at null.
proof fn lemma_step_null_null(v: Value)
    requires
        tag_of(v) != 0,
    ensures
        or_step_fact(RangeModel::Eq(Value::Null), RangeModel::Eq(Value::Null), v),
{
    reveal(value_order);
    reveal(value_eq);
    let n = RangeModel::Eq(Value::Null);
    assert(step_of(n, n) == Step::Merge);
    assert(merge_atoms(BinaryOperator::Or, n, n) == Some(n));
}

/// Null coming in at a single value, or a single value at null.
proof fn lemma_step_null_point(x: Value, is_incoming_null: bool, v: Value)
    requires
        tag_of(v) != 0,
        tag_of(x) == tag_of(v),
    ensures
        is_incoming_null ==> or_step_fact(RangeModel::Eq(Value::Null), RangeModel::Eq(x), v),
        !is_incoming_null ==> or_step_fact(RangeModel::Eq(x), RangeModel::Eq(Value::Null), v),
{
    lemma_null_order(x);
    lemma_rank_above_null(x);
    let n = RangeModel::Eq(Value::Null);
    let p = RangeModel::Eq(x);
    assert(step_of(n, p) == Step::Merge);
    assert(step_of(p, n) == Step::Merge);
    assert(merge_atoms(BinaryOperator::Or, n, p) == Some(RangeModel::SortedRanges(seq![n, p])));
    assert(merge_atoms(BinaryOperator::Or, p, n) == Some(RangeModel::SortedRanges(seq![n, p])));
    assert(seq![n, p][0] == n && seq![n, p][1] == p);
    assert(before(high_end(n), low_end(p)));
}

/// Null coming in at an interval.
proof fn lemma_step_null_scope(cur: RangeModel, v: Value)
    requires
        tag_of(v) != 0,
        ranked_piece(cur, v),
        cur is Scope,
    ensures
        or_step_fact(RangeModel::Eq(Value::Null), cur, v),
{
    reveal(bound_order);
    lemma_null_below(cur, v);
    let n = RangeModel::Eq(Value::Null);
    if cur->Scope_min is Unbounded {
        assert(step_of(n, cur) == Step::Take);
    } else {
        assert(step_of(n, cur) == Step::Insert);
    }
}

/// An interval coming in at null.
proof fn lemma_step_scope_null(b: RangeModel, v: Value)
    requires
        tag_of(v) != 0,
        ranked_piece(b, v),
        b is Scope,
    ensures
        or_step_fact(b, RangeModel::Eq(Value::Null), v),
{
    reveal(bound_order);
    lemma_null_below(b, v);
    let n = RangeModel::Eq(Value::Null);
    if b->Scope_min is Unbounded {
        assert(step_of(b, n) == Step::Drop);
    } else {
        assert(step_of(b, n) == Step::Advance);
    }
}

/// The walk does what [`or_step_fact`] says where null comes in or is met.
proof fn lemma_or_step_null(b: RangeModel, cur: RangeModel, v: Value)
    requires
        tag_of(v) != 0,
        kind_piece(b, v),
        kind_piece(cur, v),
        is_null_piece(b) || is_null_piece(cur),
    ensures
        or_step_fact(b, cur, v),
{
    let n = RangeModel::Eq(Value::Null);
    if is_null_piece(b) {
        assert(b == n);
        if is_null_piece(cur) {
            assert(cur == n);
            lemma_step_null_null(v);
        } else if cur is Scope {
            lemma_step_null_scope(cur, v);
        } else {
            lemma_step_null_point(cur->Eq_0, true, v);
        }
    } else {
        assert(cur == n);
        if b is Scope {
            lemma_step_scope_null(b, v);
        } else {
            lemma_step_null_point(b->Eq_0, false, v);
        }
    }
}

/// The walk under `Or` does at every member what [`or_step_fact`] says.
pub proof fn lemma_or_step(b: RangeModel, cur: RangeModel, v: Value)
    requires
        tag_of(v) != 0,
        kind_piece(b, v),
        kind_piece(cur, v),
    ensures
        or_step_fact(b, cur, v),
{
    if is_null_piece(b) || is_null_piece(cur) {
        lemma_or_step_null(b, cur, v);
    } else {
        lemma_or_step_ranked(b, cur, v);
    }
}

/// The walk does what [`or_step_fact`] says where no null is met.
proof fn lemma_or_step_ranked(b: RangeModel, cur: RangeModel, v: Value)
    requires
        tag_of(v) != 0,
        ranked_piece(b, v),
        ranked_piece(cur, v),
    ensures
        or_step_fact(b, cur, v),
{
    match (b, cur) {
        (RangeModel::Scope { .. }, RangeModel::Scope { .. }) => {
            lemma_or_step_scopes(b, cur, v);
        },
        (RangeModel::Scope { .. }, RangeModel::Eq(_)) => {
            lemma_or_step_scope_eq(b, cur, v);
        },
        (RangeModel::Eq(_), RangeModel::Scope { .. }) => {
            lemma_or_step_eq_scope(b, cur, v);
        },
        (RangeModel::Eq(_), RangeModel::Eq(_)) => {
            lemma_or_step_eq_eq(b, cur, v);
        },
        _ => {},
    }
}

/// Whether a list is made of intervals and single values of the kind of
/// `v` and of null, each lying wholly before all that follow; null, the
/// least of all values, can only come first.
pub open spec fn sorted_pieces(rs: Seq<RangeModel>, v: Value) -> bool {
    &&& forall|i: int| 0 <= i < rs.len() ==> kind_piece(#[trigger] rs[i], v)
    &&& forall|i: int, j: int|
        0 <= i < j < rs.len() ==> before(high_end(#[trigger] rs[i]), low_end(#[trigger] rs[j]))
}

/// Whether the first `n` members of a list lie wholly before what begins at
/// `lo`.
pub open spec fn front_before(rs: Seq<RangeModel>, n: int, lo: BoundModel) -> bool {
    forall|i: int| 0 <= i < n && i < rs.len() ==> before(high_end(#[trigger] rs[i]), lo)
}

/// What lies before a piece lies before all that the piece lies before.
pub proof fn lemma_before_trans(h: BoundModel, b: RangeModel, l: BoundModel, v: Value)
    requires
        kind_piece(b, v),
        before(h, low_end(b)),
        before(high_end(b), l),
    ensures
        before(h, l),
{
}

/// What lies before a lower end lies before every lower end that is no
/// lower.
pub proof fn lemma_before_later(h: BoundModel, x: BoundModel, y: BoundModel)
    requires
        before(h, x),
        starts_no_later(x, y),
    ensures
        before(h, y),
{
}

/// Uniting a piece with a sorted list leaves a sorted list, and
/// what lay before the piece in the list still lies before it.
pub proof fn lemma_united_sorted(b: RangeModel, ranges: Seq<RangeModel>, idx: nat, v: Value)
    requires
        tag_of(v) != 0,
        ranked_piece(b, v),
        sorted_pieces(ranges, v),
        idx <= ranges.len(),
        front_before(ranges, idx as int, low_end(b)),
    ensures
        ({
            let out = united(b, ranges, idx);
            &&& sorted_pieces(out.0, v)
            &&& out.1 <= out.0.len()
            &&& front_before(out.0, out.1 as int, low_end(b))
        }),
    decreases ranges.len() - idx,
{
    let op = BinaryOperator::Or;
    let at = idx as int;
    if idx >= ranges.len() {
        let out = ranges.push(b);
        assert forall|i: int, j: int| 0 <= i < j < out.len() implies before(
            high_end(#[trigger] out[i]),
            low_end(#[trigger] out[j]),
        ) by {
            if j < ranges.len() {
                assert(out[i] == ranges[i] && out[j] == ranges[j]);
            } else {
                assert(out[i] == ranges[i]);
            }
        }
        assert forall|i: int| 0 <= i < out.len() implies kind_piece(#[trigger] out[i], v) by {
            if i < ranges.len() {
                assert(out[i] == ranges[i]);
            }
        }
        assert forall|i: int| 0 <= i < idx && i < out.len() implies before(
            high_end(#[trigger] out[i]),
            low_end(b),
        ) by {
            assert(out[i] == ranges[i]);
        }
    } else {
        let cur = ranges[at];
        assert(kind_piece(cur, v));
        lemma_or_step(b, cur, v);
        match step_of(b, cur) {
            Step::Insert => {
                let out = ranges.insert(at, b);
                assert forall|i: int| 0 <= i < out.len() implies kind_piece(
                    #[trigger] out[i],
                    v,
                ) by {
                    if i < at {
                        assert(out[i] == ranges[i]);
                    } else if i > at {
                        assert(out[i] == ranges[i - 1]);
                    }
                }
                assert forall|i: int, j: int| 0 <= i < j < out.len() implies before(
                    high_end(#[trigger] out[i]),
                    low_end(#[trigger] out[j]),
                ) by {
                    if j < at {
                        assert(out[i] == ranges[i] && out[j] == ranges[j]);
                    } else if j == at {
                        assert(out[i] == ranges[i]);
                    } else if i < at {
                        assert(out[i] == ranges[i] && out[j] == ranges[j - 1]);
                    } else if i == at {
                        assert(out[j] == ranges[j - 1]);
                        if j - 1 > at {
                            assert(before(high_end(ranges[at]), low_end(ranges[j - 1])));
                            lemma_before_trans(high_end(b), cur, low_end(ranges[j - 1]), v);
                        }
                    } else {
                        assert(out[i] == ranges[i - 1] && out[j] == ranges[j - 1]);
                    }
                }
                assert forall|i: int| 0 <= i < idx && i < out.len() implies before(
                    high_end(#[trigger] out[i]),
                    low_end(b),
                ) by {
                    assert(out[i] == ranges[i]);
                }
            },
            Step::Advance => {
                assert forall|i: int| 0 <= i < idx + 1 && i < ranges.len() implies before(
                    high_end(#[trigger] ranges[i]),
                    low_end(b),
                ) by {}
                lemma_united_sorted(b, ranges, idx + 1, v);
            },
            Step::Merge => {
                match merge_atoms(op, b, cur) {
                    Some(RangeModel::SortedRanges(pieces)) => {
                        assert(ranges.update(at, pieces[0]) =~= ranges);
                        assert forall|i: int| 0 <= i < idx + 1 && i < ranges.len() implies before(
                            high_end(#[trigger] ranges[i]),
                            low_end(b),
                        ) by {}
                        lemma_united_sorted(b, ranges, idx + 1, v);
                    },
                    Some(m) => {
                        let rest = ranges.remove(at);
                        assert forall|i: int| 0 <= i < rest.len() implies kind_piece(
                            #[trigger] rest[i],
                            v,
                        ) by {
                            if i < at {
                                assert(rest[i] == ranges[i]);
                            } else {
                                assert(rest[i] == ranges[i + 1]);
                            }
                        }
                        assert forall|i: int, j: int| 0 <= i < j < rest.len() implies before(
                            high_end(#[trigger] rest[i]),
                            low_end(#[trigger] rest[j]),
                        ) by {
                            let i0 = if i < at {
                                i
                            } else {
                                i + 1
                            };
                            let j0 = if j < at {
                                j
                            } else {
                                j + 1
                            };
                            assert(rest[i] == ranges[i0] && rest[j] == ranges[j0]);
                        }
                        assert forall|i: int| 0 <= i < idx && i < rest.len() implies before(
                            high_end(#[trigger] rest[i]),
                            low_end(m),
                        ) by {
                            assert(rest[i] == ranges[i]);
                            assert(before(high_end(ranges[i]), low_end(b)));
                            assert(before(high_end(ranges[i]), low_end(ranges[at])));
                        }
                        lemma_united_sorted(m, rest, idx, v);
                        let out = united(m, rest, idx);
                        assert forall|i: int| 0 <= i < out.1 && i < out.0.len() implies before(
                            high_end(#[trigger] out.0[i]),
                            low_end(b),
                        ) by {
                            lemma_before_later(high_end(out.0[i]), low_end(m), low_end(b));
                        }
                    },
                    None => {},
                }
            },
            Step::Drop => {
                let rest = ranges.remove(at);
                if idx > 0 {
                    assert(before(high_end(ranges[0]), low_end(b)));
                }
                assert forall|i: int| 0 <= i < rest.len() implies kind_piece(
                    #[trigger] rest[i],
                    v,
                ) by {
                    assert(rest[i] == ranges[i + 1]);
                }
                assert forall|i: int, j: int| 0 <= i < j < rest.len() implies before(
                    high_end(#[trigger] rest[i]),
                    low_end(#[trigger] rest[j]),
                ) by {
                    assert(rest[i] == ranges[i + 1] && rest[j] == ranges[j + 1]);
                }
                lemma_united_sorted(b, rest, idx, v);
            },
            Step::Take => {},
        }
    }
}

/// What the walk united with the list from `k` on it leaves in front of
/// `k` as it is.
pub proof fn lemma_united_prefix(x: RangeModel, list: Seq<RangeModel>, k: nat, i: int)
    requires
        0 <= i < k,
        k <= list.len(),
    ensures
        i < united(x, list, k).0.len(),
        united(x, list, k).0[i] == list[i],
    decreases list.len() - k,
{
    let at = k as int;
    if k < list.len() {
        match step_of(x, list[at]) {
            Step::Insert => {},
            Step::Advance => {
                lemma_united_prefix(x, list, k + 1, i);
            },
            Step::Drop => {
                lemma_united_prefix(x, list.remove(at), k, i);
            },
            Step::Take => {
                lemma_united_prefix(list[at], list.remove(at), k, i);
            },
            Step::Merge => match merge_atoms(BinaryOperator::Or, x, list[at]) {
                Some(RangeModel::SortedRanges(pieces)) => {
                    lemma_united_prefix(pieces[1], list.update(at, pieces[0]), k + 1, i);
                },
                Some(m) => {
                    lemma_united_prefix(m, list.remove(at), k, i);
                },
                None => {},
            },
        }
    }
}

/// Whether no member of a list from `k` on lies wholly before what begins
/// at `lo`.
pub open spec fn none_before(list: Seq<RangeModel>, k: int, lo: BoundModel) -> bool {
    forall|j: int| k <= j < list.len() ==> !before(high_end(#[trigger] list[j]), lo)
}

/// A piece that no member from `k` on lies before ends its walk from `k`
/// at `k`.
pub proof fn lemma_no_advance(x: RangeModel, list: Seq<RangeModel>, k: nat, v: Value)
    requires
        tag_of(v) != 0,
        ranked_piece(x, v),
        sorted_pieces(list, v),
        k <= list.len(),
        none_before(list, k as int, low_end(x)),
    ensures
        united(x, list, k).1 == k,
    decreases list.len() - k,
{
    let at = k as int;
    if k < list.len() {
        let cur = list[at];
        assert(kind_piece(cur, v));
        assert(!before(high_end(cur), low_end(x)));
        lemma_or_step(x, cur, v);
        let rest = list.remove(at);
        assert forall|i: int| 0 <= i < rest.len() implies kind_piece(#[trigger] rest[i], v) by {
            if i < at {
                assert(rest[i] == list[i]);
            } else {
                assert(rest[i] == list[i + 1]);
            }
        }
        assert forall|i: int, j: int| 0 <= i < j < rest.len() implies before(
            high_end(#[trigger] rest[i]),
            low_end(#[trigger] rest[j]),
        ) by {
            let i0 = if i < at {
                i
            } else {
                i + 1
            };
            let j0 = if j < at {
                j
            } else {
                j + 1
            };
            assert(rest[i] == list[i0] && rest[j] == list[j0]);
        }
        match step_of(x, cur) {
            Step::Drop => {
                assert forall|j: int| k <= j < rest.len() implies !before(
                    high_end(#[trigger] rest[j]),
                    low_end(x),
                ) by {
                    assert(rest[j] == list[j + 1]);
                }
                lemma_no_advance(x, rest, k, v);
            },
            Step::Merge => match merge_atoms(BinaryOperator::Or, x, cur) {
                Some(RangeModel::SortedRanges(pieces)) => {},
                Some(m) => {
                    assert forall|j: int| k <= j < rest.len() implies !before(
                        high_end(#[trigger] rest[j]),
                        low_end(m),
                    ) by {
                        assert(rest[j] == list[j + 1]);
                        if before(high_end(rest[j]), low_end(m)) {
                            lemma_before_later(high_end(rest[j]), low_end(m), low_end(x));
                        }
                    }
                    lemma_no_advance(m, rest, k, v);
                },
                None => {},
            },
            _ => {},
        }
    }
}

/// Uniting null with a sorted list leaves a sorted list, and what then
/// stands in front of the place where the walk ended lies before all that
/// null lies before.
pub proof fn lemma_united_null(ranges: Seq<RangeModel>, l: BoundModel, v: Value)
    requires
        tag_of(v) != 0,
        sorted_pieces(ranges, v),
    ensures
        ({
            let out = united(RangeModel::Eq(Value::Null), ranges, 0);
            &&& sorted_pieces(out.0, v)
            &&& out.1 <= out.0.len()
            &&& before(BoundModel::Included(Value::Null), l) ==> front_before(
                out.0,
                out.1 as int,
                l,
            )
        }),
    decreases ranges.len(),
{
    let n = RangeModel::Eq(Value::Null);
    if ranges.len() == 0 {
        assert(united(n, ranges, 0).0 =~= seq![n]);
    } else {
        let cur = ranges[0];
        assert(kind_piece(cur, v));
        lemma_or_step(n, cur, v);
        if ranked_piece(cur, v) {
            lemma_null_below(cur, v);
        }
        let rest = ranges.remove(0);
        assert forall|i: int| 0 <= i < rest.len() implies kind_piece(#[trigger] rest[i], v) by {
            assert(rest[i] == ranges[i + 1]);
        }
        assert forall|i: int, j: int| 0 <= i < j < rest.len() implies before(
            high_end(#[trigger] rest[i]),
            low_end(#[trigger] rest[j]),
        ) by {
            assert(rest[i] == ranges[i + 1] && rest[j] == ranges[j + 1]);
        }
        match step_of(n, cur) {
            Step::Insert => {
                let out = ranges.insert(0, n);
                assert forall|i: int| 0 <= i < out.len() implies kind_piece(#[trigger] out[i], v) by {
                    if i > 0 {
                        assert(out[i] == ranges[i - 1]);
                    }
                }
                assert forall|i: int, j: int| 0 <= i < j < out.len() implies before(
                    high_end(#[trigger] out[i]),
                    low_end(#[trigger] out[j]),
                ) by {
                    assert(out[j] == ranges[j - 1]);
                    if i == 0 {
                        if j > 1 {
                            assert(before(high_end(ranges[0]), low_end(ranges[j - 1])));
                            lemma_before_trans(high_end(n), cur, low_end(ranges[j - 1]), v);
                        }
                    } else {
                        assert(out[i] == ranges[i - 1]);
                    }
                }
            },
            Step::Take => {
                lemma_united_sorted(cur, rest, 0, v);
                let out = united(cur, rest, 0);
                if out.1 > 0 {
                    assert(before(high_end(out.0[0]), low_end(cur)));
                }
            },
            Step::Merge => match merge_atoms(BinaryOperator::Or, n, cur) {
                Some(RangeModel::SortedRanges(pieces)) => {
                    let list = ranges.update(0, n);
                    assert(pieces[0] == n && pieces[1] == cur);
                    assert forall|i: int| 0 <= i < list.len() implies kind_piece(
                        #[trigger] list[i],
                        v,
                    ) by {
                        if i > 0 {
                            assert(list[i] == ranges[i]);
                        }
                    }
                    assert forall|i: int, j: int| 0 <= i < j < list.len() implies before(
                        high_end(#[trigger] list[i]),
                        low_end(#[trigger] list[j]),
                    ) by {
                        assert(list[j] == ranges[j]);
                        if i == 0 {
                            assert(before(high_end(ranges[0]), low_end(ranges[j])));
                            lemma_before_trans(high_end(n), cur, low_end(ranges[j]), v);
                        } else {
                            assert(list[i] == ranges[i]);
                        }
                    }
                    assert(front_before(list, 1, low_end(cur)));
                    lemma_united_sorted(cur, list, 1, v);
                    assert forall|j: int| 1 <= j < list.len() implies !before(
                        high_end(#[trigger] list[j]),
                        low_end(cur),
                    ) by {
                        assert(list[j] == ranges[j]);
                        assert(before(high_end(ranges[0]), low_end(ranges[j])));
                    }
                    lemma_no_advance(cur, list, 1, v);
                    lemma_united_prefix(cur, list, 1, 0);
                },
                Some(m) => {
                    assert(m == n);
                    lemma_united_null(rest, l, v);
                },
                None => {},
            },
            _ => {},
        }
    }
}

/// Uniting the members of one sorted list with another leaves a sorted
/// list.
pub proof fn lemma_fold_sorted(
    left: Seq<RangeModel>,
    k: nat,
    ranges: Seq<RangeModel>,
    idx: nat,
    v: Value,
)
    requires
        tag_of(v) != 0,
        sorted_pieces(left, v),
        sorted_pieces(ranges, v),
        idx <= ranges.len(),
        k < left.len() ==> front_before(ranges, idx as int, low_end(left[k as int])),
        k < left.len() && is_null_piece(left[k as int]) ==> idx == 0,
    ensures
        sorted_pieces(fold(left, k, ranges, idx), v),
    decreases left.len() - k,
{
    if k < left.len() {
        let b = left[k as int];
        assert(kind_piece(b, v));
        let c_low = if k + 1 < left.len() {
            low_end(left[k as int + 1])
        } else {
            low_end(b)
        };
        if k + 1 < left.len() {
            assert(before(high_end(left[k as int]), low_end(left[k as int + 1])));
            assert(kind_piece(left[k as int + 1], v));
        }
        let next = united(b, ranges, idx);
        if is_null_piece(b) {
            assert(b == RangeModel::Eq(Value::Null));
            lemma_united_null(ranges, c_low, v);
        } else {
            lemma_united_sorted(b, ranges, idx, v);
            lemma_null_below(b, v);
            if k + 1 < left.len() {
                assert forall|i: int| 0 <= i < next.1 && i < next.0.len() implies before(
                    high_end(#[trigger] next.0[i]),
                    c_low,
                ) by {
                    lemma_before_trans(high_end(next.0[i]), b, c_low, v);
                }
            }
        }
        lemma_fold_sorted(left, k + 1, next.0, next.1, v);
    }
}

/// Whether a range is empty, an interval or a single value of the kind of
/// `v` that is not null, or a sorted list of these.
pub open spec fn sorted_range(r: RangeModel, v: Value) -> bool {
    match r {
        RangeModel::SortedRanges(rs) => sorted_pieces(rs, v),
        RangeModel::Dummy => true,
        _ => kind_piece(r, v),
    }
}

/// The union of two pieces is one piece or two that stand in order.
pub proof fn lemma_or_pair_sorted(a: RangeModel, b: RangeModel, v: Value)
    requires
        tag_of(v) != 0,
        kind_piece(a, v),
        kind_piece(b, v),
    ensures
        merge_atoms(BinaryOperator::Or, a, b) matches Some(m) && sorted_range(m, v),
{
    if is_null_piece(a) || is_null_piece(b) {
        lemma_or_pair_null(a, b, v);
    } else {
        lemma_or_pair_ranked(a, b, v);
    }
}

/// The union of null with a piece.
proof fn lemma_or_pair_null(a: RangeModel, b: RangeModel, v: Value)
    requires
        tag_of(v) != 0,
        kind_piece(a, v),
        kind_piece(b, v),
        is_null_piece(a) || is_null_piece(b),
    ensures
        merge_atoms(BinaryOperator::Or, a, b) matches Some(m) && sorted_range(m, v),
{
    let n = RangeModel::Eq(Value::Null);
    let other = if is_null_piece(a) {
        b
    } else {
        a
    };
    if is_null_piece(other) {
        assert(a == n && b == n);
        assert(merge_atoms(BinaryOperator::Or, n, n) == Some(n)) by {
            reveal(value_order);
            reveal(value_eq);
        }
    } else {
        lemma_null_below(other, v);
        let both = seq![n, other];
        assert(both[0] == n && both[1] == other);
        if !(low_end(other) is Unbounded) {
            assert(sorted_pieces(both, v));
        }
        if other is Eq {
            let x = other->Eq_0;
            lemma_null_order(x);
            assert(merge_atoms(BinaryOperator::Or, n, other) == Some(
                RangeModel::SortedRanges(both),
            ));
            assert(merge_atoms(BinaryOperator::Or, other, n) == Some(
                RangeModel::SortedRanges(both),
            ));
        } else {
            let want = if other->Scope_min is Unbounded {
                other
            } else {
                RangeModel::SortedRanges(both)
            };
            assert(merge_atoms(BinaryOperator::Or, n, other) == Some(want));
            assert(merge_atoms(BinaryOperator::Or, other, n) == Some(want));
        }
    }
}

/// The union of two pieces that are not null.
proof fn lemma_or_pair_ranked(a: RangeModel, b: RangeModel, v: Value)
    requires
        tag_of(v) != 0,
        ranked_piece(a, v),
        ranked_piece(b, v),
    ensures
        merge_atoms(BinaryOperator::Or, a, b) matches Some(m) && sorted_range(m, v),
{
    reveal(bound_order);
    lemma_or_pieces(a, b, v);
    lemma_all_keys(a, b, v);
    let m = merge_atoms(BinaryOperator::Or, a, b)->0;
    match (a, b) {
        (RangeModel::Eq(x), RangeModel::Eq(y)) => {
            lemma_ranked_order(x, y);
        },
        (RangeModel::Scope { min, max }, RangeModel::Eq(x)) => {
            lemma_point_keys(min, max, x, v);
        },
        (RangeModel::Eq(x), RangeModel::Scope { min, max }) => {
            lemma_point_keys(min, max, x, v);
        },
        _ => {
            let lmin = a->Scope_min;
            let lmax = a->Scope_max;
            let rmin = b->Scope_min;
            let rmax = b->Scope_max;
            if !(lmax is Unbounded) && !(rmin is Unbounded) {
                assert(value_order(bound_value(lmax), bound_value(rmin)) is Some);
            }
            if !(rmax is Unbounded) && !(lmin is Unbounded) {
                assert(value_order(bound_value(rmax), bound_value(lmin)) is Some);
            }
            if !(lmin is Unbounded) && !(rmin is Unbounded) {
                assert(value_order(bound_value(lmin), bound_value(rmin)) is Some);
            }
            if !(lmin is Unbounded) && !(lmax is Unbounded) {
                assert(value_order(bound_value(lmin), bound_value(lmax)) is Some);
            }
            if !(rmin is Unbounded) && !(rmax is Unbounded) {
                assert(value_order(bound_value(rmin), bound_value(rmax)) is Some);
            }
        },
    }
    if m is SortedRanges {
        let ps = m->SortedRanges_0;
        assert(ps.len() == 2);
        assert(ranked_piece(ps[0], v));
        assert(ranked_piece(ps[1], v));
        assert(before(high_end(ps[0]), low_end(ps[1])));
    } else {
        assert(ranked_piece(m, v));
    }
}

/// The orders between a single value and the ends of an interval.
proof fn lemma_point_keys(min: BoundModel, max: BoundModel, x: Value, v: Value)
    requires
        tag_of(v) != 0,
        tag_of(x) == tag_of(v),
        !(min is Unbounded) ==> tag_of(bound_value(min)) == tag_of(v),
        !(max is Unbounded) ==> tag_of(bound_value(max)) == tag_of(v),
    ensures
        !(min is Unbounded) ==> value_order(x, bound_value(min)) == Some(
            crate::decimal::order_of_sign(rank(x) - rank(bound_value(min))),
        ) && value_eq(bound_value(min), x) == (rank(x) == rank(bound_value(min))),
        !(max is Unbounded) ==> value_order(x, bound_value(max)) == Some(
            crate::decimal::order_of_sign(rank(x) - rank(bound_value(max))),
        ) && value_eq(bound_value(max), x) == (rank(x) == rank(bound_value(max))),
{
    if !(min is Unbounded) {
        lemma_ranked_order(x, bound_value(min));
        lemma_ranked_order(bound_value(min), x);
    }
    if !(max is Unbounded) {
        lemma_ranked_order(x, bound_value(max));
        lemma_ranked_order(bound_value(max), x);
    }
}

/// Whether the upper end `x` lies no higher than the upper end `y`.
pub open spec fn ends_no_later(x: BoundModel, y: BoundModel) -> bool {
    y is Unbounded || (!(x is Unbounded) && upper_key(x) <= upper_key(y))
}

/// Whether the piece `m` lies within the piece `c`.
pub open spec fn within(m: RangeModel, c: RangeModel) -> bool {
    starts_no_later(low_end(c), low_end(m)) && ends_no_later(high_end(m), high_end(c))
}

/// The intersection of two pieces is empty or one piece that lies within
/// both.
pub proof fn lemma_and_pair_sorted(a: RangeModel, b: RangeModel, v: Value)
    requires
        tag_of(v) != 0,
        kind_piece(a, v),
        kind_piece(b, v),
    ensures
        merge_atoms(BinaryOperator::And, a, b) matches Some(m) && (m is Dummy || (kind_piece(m, v)
            && within(m, a) && within(m, b))),
{
    if is_null_piece(a) || is_null_piece(b) {
        reveal(bound_order);
        reveal(value_order);
        reveal(value_eq);
        if !is_null_piece(a) {
            lemma_null_below(a, v);
            if a is Eq {
                lemma_null_order(a->Eq_0);
            }
        }
        if !is_null_piece(b) {
            lemma_null_below(b, v);
            if b is Eq {
                lemma_null_order(b->Eq_0);
            }
        }
    } else {
        lemma_and_pair_ranked(a, b, v);
    }
}

/// The intersection of two pieces that are not null.
proof fn lemma_and_pair_ranked(a: RangeModel, b: RangeModel, v: Value)
    requires
        tag_of(v) != 0,
        ranked_piece(a, v),
        ranked_piece(b, v),
    ensures
        merge_atoms(BinaryOperator::And, a, b) matches Some(m) && (m is Dummy || (ranked_piece(m, v)
            && within(m, a) && within(m, b))),
{
    reveal(bound_order);
    lemma_merge_atoms_sound(BinaryOperator::And, a, b, v);
    lemma_all_keys(a, b, v);
    match (a, b) {
        (RangeModel::Eq(x), RangeModel::Eq(y)) => {
            lemma_ranked_order(x, y);
        },
        (RangeModel::Scope { min, max }, RangeModel::Eq(x)) => {
            lemma_point_keys(min, max, x, v);
        },
        (RangeModel::Eq(x), RangeModel::Scope { min, max }) => {
            lemma_point_keys(min, max, x, v);
        },
        _ => {
            let lmin = a->Scope_min;
            let lmax = a->Scope_max;
            let rmin = b->Scope_min;
            let rmax = b->Scope_max;
            if !(lmin is Unbounded) && !(rmin is Unbounded) {
                assert(value_order(bound_value(lmin), bound_value(rmin)) is Some);
            }
            if !(lmax is Unbounded) && !(rmax is Unbounded) {
                assert(value_order(bound_value(lmax), bound_value(rmax)) is Some);
            }
            if !(lmin is Unbounded) && !(lmax is Unbounded) {
                assert(value_order(bound_value(lmin), bound_value(lmax)) is Some);
            }
            if !(rmin is Unbounded) && !(rmax is Unbounded) {
                assert(value_order(bound_value(rmin), bound_value(rmax)) is Some);
            }
            if !(lmin is Unbounded) && !(rmax is Unbounded) {
                assert(value_order(bound_value(lmin), bound_value(rmax)) is Some);
            }
            if !(rmin is Unbounded) && !(lmax is Unbounded) {
                assert(value_order(bound_value(rmin), bound_value(lmax)) is Some);
            }
        },
    }
}

/// Whether every member of `out` lies wholly before every member of `rs`
/// from `n` on.
pub open spec fn all_before(out: Seq<RangeModel>, rs: Seq<RangeModel>, n: int) -> bool {
    forall|i: int, j: int|
        0 <= i < out.len() && n <= j < rs.len() ==> before(
            high_end(#[trigger] out[i]),
            low_end(#[trigger] rs[j]),
        )
}

/// Whether every member of `out` lies within `b`.
pub open spec fn all_within(out: Seq<RangeModel>, b: RangeModel) -> bool {
    forall|i: int| 0 <= i < out.len() ==> within(#[trigger] out[i], b)
}

/// Intersecting the members of a sorted list with a piece leaves a sorted
/// list of pieces that lie within the piece.
pub proof fn lemma_intersected_sorted(b: RangeModel, rs: Seq<RangeModel>, n: nat, v: Value)
    requires
        tag_of(v) != 0,
        kind_piece(b, v),
        sorted_pieces(rs, v),
        n <= rs.len(),
    ensures
        sorted_pieces(intersected(b, rs, n), v),
        all_within(intersected(b, rs, n), b),
        all_before(intersected(b, rs, n), rs, n as int),
    decreases n,
{
    if n > 0 {
        let front = intersected(b, rs, (n - 1) as nat);
        lemma_intersected_sorted(b, rs, (n - 1) as nat, v);
        let cur = rs[n - 1];
        assert(kind_piece(cur, v));
        lemma_and_pair_sorted(b, cur, v);
        let m = merge_atoms(BinaryOperator::And, b, cur)->0;
        let out = intersected(b, rs, n);
        if is_piece(m) {
            assert(out == front.push(m));
            assert forall|i: int, j: int| 0 <= i < j < out.len() implies before(
                high_end(#[trigger] out[i]),
                low_end(#[trigger] out[j]),
            ) by {
                assert(out[i] == front[i]);
                if j < front.len() {
                    assert(out[j] == front[j]);
                } else {
                    assert(before(high_end(front[i]), low_end(rs[n - 1])));
                }
            }
            assert forall|i: int, j: int|
                0 <= i < out.len() && n <= j < rs.len() implies before(
                high_end(#[trigger] out[i]),
                low_end(#[trigger] rs[j]),
            ) by {
                if i < front.len() {
                    assert(out[i] == front[i]);
                } else {
                    assert(before(high_end(rs[n - 1]), low_end(rs[j])));
                }
            }
            assert forall|i: int| 0 <= i < out.len() implies kind_piece(#[trigger] out[i], v)
                && within(out[i], b) by {
                if i < front.len() {
                    assert(out[i] == front[i]);
                }
            }
        } else {
            assert(out == front);
        }
    }
}

/// Intersecting two sorted lists leaves a sorted list.
pub proof fn lemma_intersected_lists_sorted(
    ls: Seq<RangeModel>,
    rs: Seq<RangeModel>,
    n: nat,
    v: Value,
)
    requires
        tag_of(v) != 0,
        sorted_pieces(ls, v),
        sorted_pieces(rs, v),
        n <= ls.len(),
    ensures
        sorted_pieces(intersected_lists(ls, rs, n), v),
        all_before(intersected_lists(ls, rs, n), ls, n as int),
    decreases n,
{
    if n > 0 {
        let front = intersected_lists(ls, rs, (n - 1) as nat);
        let b = ls[n - 1];
        let more = intersected(b, rs, rs.len());
        lemma_intersected_lists_sorted(ls, rs, (n - 1) as nat, v);
        assert(kind_piece(b, v));
        lemma_intersected_sorted(b, rs, rs.len(), v);
        let out = intersected_lists(ls, rs, n);
        assert(out == front + more);
        assert forall|i: int| 0 <= i < out.len() implies kind_piece(#[trigger] out[i], v) by {
            if i < front.len() {
                assert(out[i] == front[i]);
            } else {
                assert(out[i] == more[i - front.len()]);
            }
        }
        assert forall|i: int, j: int| 0 <= i < j < out.len() implies before(
            high_end(#[trigger] out[i]),
            low_end(#[trigger] out[j]),
        ) by {
            if j < front.len() {
                assert(out[i] == front[i] && out[j] == front[j]);
            } else if i >= front.len() {
                assert(out[i] == more[i - front.len()] && out[j] == more[j - front.len()]);
            } else {
                assert(out[i] == front[i] && out[j] == more[j - front.len()]);
                assert(before(high_end(front[i]), low_end(ls[n - 1])));
                assert(within(more[j - front.len()], b));
            }
        }
        assert forall|i: int, j: int| 0 <= i < out.len() && n <= j < ls.len() implies before(
            high_end(#[trigger] out[i]),
            low_end(#[trigger] ls[j]),
        ) by {
            if i < front.len() {
                assert(out[i] == front[i]);
            } else {
                assert(out[i] == more[i - front.len()]);
                assert(within(more[i - front.len()], b));
                assert(before(high_end(ls[n - 1]), low_end(ls[j])));
            }
        }
    }
}

/// Range normal form: two sorted ranges combine under `And` or `Or` into a
/// sorted range.
pub proof fn lemma_merge_sorted(op: BinaryOperator, a: RangeModel, b: RangeModel, v: Value)
    requires
        tag_of(v) != 0,
        op is And || op is Or,
        sorted_range(a, v),
        sorted_range(b, v),
    ensures
        merge(op, a, b) matches Some(m) && sorted_range(m, v),
{
    match (a, b) {
        (RangeModel::Dummy, _) => {},
        (_, RangeModel::Dummy) => {},
        (RangeModel::SortedRanges(ls), RangeModel::SortedRanges(rs)) => {
            if op is Or {
                lemma_fold_sorted(ls, 0, rs, 0, v);
            } else {
                lemma_intersected_lists_sorted(ls, rs, ls.len(), v);
            }
        },
        (RangeModel::SortedRanges(rs), x) => {
            if op is Or {
                if is_null_piece(x) {
                    assert(x == RangeModel::Eq(Value::Null));
                    lemma_united_null(rs, low_end(x), v);
                } else {
                    lemma_united_sorted(x, rs, 0, v);
                }
            } else {
                lemma_intersected_sorted(x, rs, rs.len(), v);
            }
        },
        (x, RangeModel::SortedRanges(rs)) => {
            if op is Or {
                if is_null_piece(x) {
                    assert(x == RangeModel::Eq(Value::Null));
                    lemma_united_null(rs, low_end(x), v);
                } else {
                    lemma_united_sorted(x, rs, 0, v);
                }
            } else {
                lemma_intersected_sorted(x, rs, rs.len(), v);
            }
        },
        _ => {
            if op is Or {
                lemma_or_pair_sorted(a, b, v);
            } else {
                lemma_and_pair_sorted(a, b, v);
            }
        },
    }
}

/// In a sorted list every value of an earlier member is less than every
/// value of a later one, null being less than every other value: the
/// members stand in strictly increasing order and no two hold a value in
/// common.
pub proof fn lemma_sorted_apart(rs: Seq<RangeModel>, i: int, j: int, x: Value, y: Value, v: Value)
    requires
        tag_of(v) != 0,
        tag_of(x) == tag_of(v) || x is Null,
        tag_of(y) == tag_of(v) || y is Null,
        sorted_pieces(rs, v),
        0 <= i < j < rs.len(),
        in_range(rs[i], x),
        in_range(rs[j], y),
    ensures
        value_order(x, y) == Some(ValueOrder::Less) || (x is Null && !(y is Null)),
{
    let a = rs[i];
    let b = rs[j];
    assert(kind_piece(a, v) && kind_piece(b, v));
    assert(before(high_end(a), low_end(b)));
    reveal(value_order);
    reveal(value_eq);
    if ranked_piece(a, v) {
        lemma_null_below(a, v);
    }
    if ranked_piece(b, v) {
        lemma_null_below(b, v);
    }
    if !(x is Null) && !(y is Null) {
        lemma_ranked_order(x, y);
        if !(high_end(a) is Unbounded) && !is_null_piece(a) {
            lemma_ranked_order(bound_value(high_end(a)), x);
        }
        if !(low_end(b) is Unbounded) && !is_null_piece(b) {
            lemma_ranked_order(bound_value(low_end(b)), y);
        }
        if is_null_piece(a) {
            lemma_null_order(x);
        }
        if is_null_piece(b) {
            lemma_null_order(y);
        }
    } else if y is Null {
        if !is_null_piece(b) {
            if !(low_end(b) is Unbounded) {
                lemma_null_order(bound_value(low_end(b)));
            }
        }
    } else {
        if !is_null_piece(a) {
            if !(high_end(a) is Unbounded) {
                lemma_null_order(bound_value(high_end(a)));
            }
        } else {
            lemma_null_order(y);
        }
    }
}

/// Whether an expression is a column, and where it is the column
/// `column_id` of `table`, that column has the type of `v`.
pub open spec fn is_column_of(e: Expr, table: Seq<char>, column_id: ColumnId, v: Value) -> bool {
    e matches Expr::ColumnRef(c) && (is_target(c, table, column_id) ==> c.datatype == type_of(v))
}

/// Whether a predicate is made of comparisons of a column with a constant
/// of the type of `v`, of equalities of a column with null and of null
/// tests of a column, joined by `AND` and `OR`, under an alias or not. A
/// side of `AND` or `OR` may also be any predicate that says nothing of the
/// column `column_id` of `table`.
pub open spec fn comparison_filter(e: Expr, table: Seq<char>, column_id: ColumnId, v: Value) -> bool
    decreases e,
{
    match e {
        Expr::Binary { op, left_expr, right_expr, .. } => if op is And || op is Or {
            &&& comparison_filter(*left_expr, table, column_id, v) || detach_of(
                *left_expr,
                table,
                column_id,
            ) == Ok::<Option<RangeModel>, CastFault>(None)
            &&& comparison_filter(*right_expr, table, column_id, v) || detach_of(
                *right_expr,
                table,
                column_id,
            ) == Ok::<Option<RangeModel>, CastFault>(None)
        } else {
            ||| (is_column_of(*left_expr, table, column_id, v) && is_literal(*right_expr, v))
            ||| (is_literal(*left_expr, v) && is_column_of(*right_expr, table, column_id, v))
            ||| ((op is Eq || op is Spaceship) && *left_expr is ColumnRef && is_null_literal(
                *right_expr,
            ))
            ||| ((op is Eq || op is Spaceship) && is_null_literal(*left_expr) && *right_expr
                is ColumnRef)
        },
        Expr::IsNull { expr, .. } => *expr is ColumnRef,
        Expr::Alias { expr, .. } => comparison_filter(*expr, table, column_id, v),
        _ => false,
    }
}

/// Range normal form: what a filter made of comparisons gives for a column
/// is empty, a single piece, or a list of pieces that stand in strictly
/// increasing order and hold no value in common.
pub proof fn lemma_detach_sorted(e: Expr, table: Seq<char>, column_id: ColumnId, v: Value)
    requires
        tag_of(v) != 0,
        comparison_filter(e, table, column_id, v),
    ensures
        detach_of(e, table, column_id) matches Ok(Some(r)) ==> sorted_range(r, v),
    decreases e,
{
    match e {
        Expr::Binary { op, left_expr, right_expr, .. } => {
            let l = *left_expr;
            let r = *right_expr;
            if op is And || op is Or {
                if comparison_filter(l, table, column_id, v) {
                    lemma_detach_sorted(l, table, column_id, v);
                }
                if comparison_filter(r, table, column_id, v) {
                    lemma_detach_sorted(r, table, column_id, v);
                }
                match (detach_of(l, table, column_id), detach_of(r, table, column_id)) {
                    (Ok(Some(a)), Ok(Some(b))) => {
                        lemma_merge_sorted(op, a, b, v);
                    },
                    (Ok(None), Ok(None)) => {
                        lemma_no_range_for_logic(op, l, r, table, column_id);
                    },
                    _ => {},
                }
            } else {
                match *left_expr {
                    Expr::ColumnRef(c) => lemma_null_cast(c.datatype),
                    _ => {},
                }
                match *right_expr {
                    Expr::ColumnRef(c) => lemma_null_cast(c.datatype),
                    _ => {},
                }
            }
        },
        Expr::Alias { expr, .. } => {
            lemma_detach_sorted(*expr, table, column_id, v);
        },
        _ => {},
    }
}

} // verus!
