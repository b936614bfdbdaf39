use crate::catalog::ColumnModel;
use crate::detacher::{detach_of, is_target};
use crate::eval::{eval_of, EvalFault};
use crate::expression::{BinaryOperator, Expr};
use crate::range::{bound_order, bound_value, collapse_list, is_piece, merge_atoms, RangeModel};
use crate::range_laws::{
    in_range, in_some, lemma_fold_sound, lemma_in_list, lemma_in_remove, lemma_in_update,
    lemma_intersected_lists_sound, lemma_intersected_sound, lemma_merge_sound, lemma_null_order,
    lemma_no_range_for_logic, lemma_null_cast, lemma_or_pieces, lemma_united_sound, plain_range,
    tag_of, typed_atom, typed_pieces,
};
use crate::range_merge::{fold, intersected, intersected_lists, merge, step_of, united, Step};
use crate::range_order::{comparison_filter, is_null_piece, lemma_detach_sorted, lemma_or_step};
use crate::types::ColumnId;
use crate::value::{value_eq, value_order, Value};
use vstd::prelude::*;

verus! {

/// Whether a single piece reaches down to null: it is null itself, or an
/// interval with an open lower end.
pub open spec fn covers_null(r: RangeModel) -> bool {
    is_null_piece(r) || (r matches RangeModel::Scope { min, .. } && min is Unbounded)
}

/// A single piece holds null exactly where it reaches down to it.
pub proof fn lemma_null_in_piece(r: RangeModel, w: Value)
    requires
        tag_of(w) != 0,
        typed_atom(r, w),
    ensures
        in_range(r, Value::Null) == covers_null(r),
{
    reveal(value_order);
    reveal(value_eq);
    match r {
        RangeModel::Scope { min, max } => {
            if !(min is Unbounded) {
                lemma_null_order(bound_value(min));
            }
            if !(max is Unbounded) {
                lemma_null_order(bound_value(max));
            }
        },
        RangeModel::Eq(x) => {
            if !(x is Null) {
                lemma_null_order(x);
            }
        },
        _ => {},
    }
}

/// What [`lemma_or_covers`] says of a union.
pub open spec fn or_covers(a: RangeModel, b: RangeModel) -> bool {
    match merge_atoms(BinaryOperator::Or, a, b) {
        Some(RangeModel::SortedRanges(ps)) => ps.len() == 2 && (covers_null(ps[0]) || covers_null(
            ps[1],
        )),
        Some(m) => covers_null(m),
        None => false,
    }
}

proof fn lemma_or_covers_scopes(a: RangeModel, b: RangeModel)
    requires
        a is Scope,
        b is Scope,
        covers_null(a) || covers_null(b),
    ensures
        or_covers(a, b),
{
    reveal(bound_order);
    match merge_atoms(BinaryOperator::Or, a, b) {
        Some(RangeModel::SortedRanges(ps)) => {
            assert(ps =~= seq![a, b] || ps =~= seq![b, a]);
        },
        _ => {},
    }
}

proof fn lemma_or_covers_scope_eq(s: RangeModel, e: RangeModel, w: Value)
    requires
        tag_of(w) != 0,
        s is Scope,
        e is Eq,
        typed_atom(s, w),
        typed_atom(e, w),
        covers_null(s) || covers_null(e),
    ensures
        or_covers(s, e),
        or_covers(e, s),
{
    reveal(bound_order);
    let x = e->Eq_0;
    let min = s->Scope_min;
    let max = s->Scope_max;
    let m = crate::range::scope_eq(BinaryOperator::Or, min, max, x);
    assert(merge_atoms(BinaryOperator::Or, s, e) == m);
    assert(merge_atoms(BinaryOperator::Or, e, s) == m);
    if x is Null {
        if !(min is Unbounded) {
            assert(m == Some(RangeModel::SortedRanges(seq![e, s])));
            assert(seq![e, s][0] == e);
        }
    } else {
        assert(min is Unbounded);
        match m {
            Some(RangeModel::SortedRanges(ps)) => {
                assert(ps =~= seq![s, e] || ps =~= seq![e, s]);
            },
            _ => {},
        }
    }
}

proof fn lemma_or_covers_points(a: RangeModel, b: RangeModel, w: Value)
    requires
        tag_of(w) != 0,
        a is Eq,
        b is Eq,
        typed_atom(a, w),
        typed_atom(b, w),
        covers_null(a) || covers_null(b),
    ensures
        or_covers(a, b),
{
    reveal(value_order);
    reveal(value_eq);
    let x = a->Eq_0;
    let y = b->Eq_0;
    if !(x is Null) {
        lemma_null_order(x);
    }
    if !(y is Null) {
        lemma_null_order(y);
    }
    match merge_atoms(BinaryOperator::Or, a, b) {
        Some(RangeModel::SortedRanges(ps)) => {
            assert(ps =~= seq![a, b] || ps =~= seq![b, a]);
        },
        _ => {},
    }
}

/// The union of two pieces reaches down to null where one of them does.
pub proof fn lemma_or_covers(a: RangeModel, b: RangeModel, w: Value)
    requires
        tag_of(w) != 0,
        is_piece(a),
        is_piece(b),
        typed_atom(a, w),
        typed_atom(b, w),
        covers_null(a) || covers_null(b),
    ensures
        or_covers(a, b),
{
    if a is Scope && b is Scope {
        lemma_or_covers_scopes(a, b);
    } else if a is Scope {
        lemma_or_covers_scope_eq(a, b, w);
    } else if b is Scope {
        lemma_or_covers_scope_eq(b, a, w);
    } else {
        lemma_or_covers_points(a, b, w);
    }
}

/// The intersection of two pieces reaches down to null where both do.
pub proof fn lemma_and_covers(a: RangeModel, b: RangeModel, w: Value)
    requires
        tag_of(w) != 0,
        is_piece(a),
        is_piece(b),
        typed_atom(a, w),
        typed_atom(b, w),
        covers_null(a),
        covers_null(b),
    ensures
        merge_atoms(BinaryOperator::And, a, b) matches Some(m) && is_piece(m) && covers_null(m),
{
    reveal(bound_order);
    reveal(value_order);
    reveal(value_eq);
    match a {
        RangeModel::Scope { min, max } => if !(max is Unbounded) {
            lemma_null_order(bound_value(max));
        },
        _ => {},
    }
    match b {
        RangeModel::Scope { min, max } => if !(max is Unbounded) {
            lemma_null_order(bound_value(max));
        },
        _ => {},
    }
}

/// Whether some member of a list reaches down to null.
pub open spec fn some_covers(rs: Seq<RangeModel>) -> bool {
    exists|i: int| 0 <= i < rs.len() && covers_null(#[trigger] rs[i])
}

/// Whether a range reaches down to null.
pub open spec fn range_covers(r: RangeModel) -> bool {
    match r {
        RangeModel::SortedRanges(rs) => some_covers(rs),
        _ => covers_null(r),
    }
}

proof fn lemma_covers_insert(rs: Seq<RangeModel>, at: int, b: RangeModel)
    requires
        0 <= at <= rs.len(),
        some_covers(rs) || covers_null(b),
    ensures
        some_covers(rs.insert(at, b)),
{
    let out = rs.insert(at, b);
    if covers_null(b) {
        assert(covers_null(out[at]));
    } else {
        let i = choose|i: int| 0 <= i < rs.len() && covers_null(#[trigger] rs[i]);
        if i < at {
            assert(covers_null(out[i]));
        } else {
            assert(out[i + 1] == rs[i]);
            assert(covers_null(out[i + 1]));
        }
    }
}

proof fn lemma_covers_remove(rs: Seq<RangeModel>, at: int)
    requires
        0 <= at < rs.len(),
        some_covers(rs),
    ensures
        covers_null(rs[at]) || some_covers(rs.remove(at)),
{
    let out = rs.remove(at);
    let i = choose|i: int| 0 <= i < rs.len() && covers_null(#[trigger] rs[i]);
    if i < at {
        assert(covers_null(out[i]));
    } else if i > at {
        assert(out[i - 1] == rs[i]);
        assert(covers_null(out[i - 1]));
    }
}

proof fn lemma_covers_update(rs: Seq<RangeModel>, at: int, b: RangeModel)
    requires
        0 <= at < rs.len(),
    ensures
        some_covers(rs) ==> covers_null(rs[at]) || some_covers(rs.update(at, b)),
        covers_null(b) ==> some_covers(rs.update(at, b)),
{
    let out = rs.update(at, b);
    if covers_null(b) {
        assert(covers_null(out[at]));
    }
    if some_covers(rs) {
        let i = choose|i: int| 0 <= i < rs.len() && covers_null(#[trigger] rs[i]);
        if i != at {
            assert(out[i] == rs[i]);
            assert(covers_null(out[i]));
        }
    }
}

/// Uniting a piece with a list leaves a list that reaches down to null
/// where the piece or the list did.
pub proof fn lemma_united_covers(b: RangeModel, ranges: Seq<RangeModel>, idx: nat, w: Value)
    requires
        tag_of(w) != 0,
        is_piece(b),
        typed_atom(b, w),
        typed_pieces(ranges, w),
        covers_null(b) || some_covers(ranges),
    ensures
        some_covers(united(b, ranges, idx).0),
    decreases ranges.len() - idx,
{
    let op = BinaryOperator::Or;
    if idx >= ranges.len() {
        lemma_covers_insert(ranges, ranges.len() as int, b);
        assert(ranges.insert(ranges.len() as int, b) =~= ranges.push(b));
    } else {
        let at = idx as int;
        let cur = ranges[at];
        assert(is_piece(cur) && typed_atom(cur, w));
        lemma_or_step(b, cur, w);
        lemma_in_remove(ranges, at, w);
        lemma_or_pieces(b, cur, w);
        let rest = ranges.remove(at);
        if some_covers(ranges) {
            lemma_covers_remove(ranges, at);
        }
        match step_of(b, cur) {
            Step::Insert => {
                lemma_covers_insert(ranges, at, b);
            },
            Step::Advance => {
                lemma_united_covers(b, ranges, idx + 1, w);
            },
            Step::Drop => {
                lemma_united_covers(b, rest, idx, w);
            },
            Step::Take => {
                lemma_united_covers(cur, rest, idx, w);
            },
            Step::Merge => {
                if covers_null(b) || covers_null(cur) {
                    lemma_or_covers(b, cur, w);
                }
                match merge_atoms(op, b, cur) {
                    Some(RangeModel::SortedRanges(pieces)) => {
                        assert(is_piece(pieces[0]) && typed_atom(pieces[0], w));
                        assert(is_piece(pieces[1]) && typed_atom(pieces[1], w));
                        lemma_in_update(ranges, at, pieces[0], w);
                        lemma_covers_update(ranges, at, pieces[0]);
                        lemma_united_covers(pieces[1], ranges.update(at, pieces[0]), idx + 1, w);
                    },
                    Some(m) => {
                        lemma_united_covers(m, rest, idx, w);
                    },
                    None => {},
                }
            },
        }
    }
}

/// Uniting the members of one list with another leaves a list that reaches
/// down to null where either list did.
pub proof fn lemma_fold_covers(
    left: Seq<RangeModel>,
    k: nat,
    ranges: Seq<RangeModel>,
    idx: nat,
    w: Value,
)
    requires
        tag_of(w) != 0,
        typed_pieces(left, w),
        typed_pieces(ranges, w),
        some_covers(ranges) || (exists|j: int| k <= j < left.len() && covers_null(#[trigger] left[j])),
    ensures
        some_covers(fold(left, k, ranges, idx)),
    decreases left.len() - k,
{
    if k < left.len() {
        let b = left[k as int];
        assert(is_piece(b) && typed_atom(b, w));
        let next = united(b, ranges, idx);
        lemma_united_sound(b, ranges, idx, w);
        if some_covers(ranges) || covers_null(b) {
            lemma_united_covers(b, ranges, idx, w);
        } else {
            let j = choose|j: int| k <= j < left.len() && covers_null(#[trigger] left[j]);
            assert(k + 1 <= j < left.len() && covers_null(left[j]));
        }
        lemma_fold_covers(left, k + 1, next.0, next.1, w);
    }
}

/// Intersecting the members of a list with a piece leaves a list that
/// reaches down to null where the piece and a member did.
pub proof fn lemma_intersected_covers(b: RangeModel, rs: Seq<RangeModel>, n: nat, j: int, w: Value)
    requires
        tag_of(w) != 0,
        is_piece(b),
        typed_atom(b, w),
        typed_pieces(rs, w),
        n <= rs.len(),
        0 <= j < n,
        covers_null(b),
        covers_null(rs[j]),
    ensures
        some_covers(intersected(b, rs, n)),
    decreases n,
{
    let front = intersected(b, rs, (n - 1) as nat);
    let cur = rs[n - 1];
    assert(is_piece(cur) && typed_atom(cur, w));
    if j == n - 1 {
        lemma_and_covers(b, cur, w);
        let m = merge_atoms(BinaryOperator::And, b, cur)->0;
        let out = intersected(b, rs, n);
        assert(out == front.push(m));
        assert(covers_null(out[front.len() as int]));
    } else {
        lemma_intersected_covers(b, rs, (n - 1) as nat, j, w);
        let i = choose|i: int| 0 <= i < front.len() && covers_null(#[trigger] front[i]);
        let out = intersected(b, rs, n);
        assert(out[i] == front[i]);
        assert(covers_null(out[i]));
    }
}

/// Intersecting two lists leaves a list that reaches down to null where a
/// member of each did.
pub proof fn lemma_intersected_lists_covers(
    left: Seq<RangeModel>,
    rs: Seq<RangeModel>,
    n: nat,
    i: int,
    j: int,
    w: Value,
)
    requires
        tag_of(w) != 0,
        typed_pieces(left, w),
        typed_pieces(rs, w),
        n <= left.len(),
        0 <= i < n,
        0 <= j < rs.len(),
        covers_null(left[i]),
        covers_null(rs[j]),
    ensures
        some_covers(intersected_lists(left, rs, n)),
    decreases n,
{
    let front = intersected_lists(left, rs, (n - 1) as nat);
    let b = left[n - 1];
    let more = intersected(b, rs, rs.len());
    let out = intersected_lists(left, rs, n);
    assert(out == front + more);
    assert(is_piece(b) && typed_atom(b, w));
    if i == n - 1 {
        lemma_intersected_covers(b, rs, rs.len(), j, w);
        let k = choose|k: int| 0 <= k < more.len() && covers_null(#[trigger] more[k]);
        assert(out[front.len() + k] == more[k]);
        assert(covers_null(out[front.len() + k]));
    } else {
        lemma_intersected_lists_covers(left, rs, (n - 1) as nat, i, j, w);
        let k = choose|k: int| 0 <= k < front.len() && covers_null(#[trigger] front[k]);
        assert(out[k] == front[k]);
        assert(covers_null(out[k]));
    }
}

/// A list taken as one range reaches down to null where one of its members
/// does.
proof fn lemma_collapsed_covers(rs: Seq<RangeModel>)
    requires
        forall|i: int| 0 <= i < rs.len() ==> is_piece(#[trigger] rs[i]),
    ensures
        range_covers(collapse_list(rs)) == some_covers(rs),
{
    if rs.len() == 1 {
        assert(is_piece(rs[0]));
        if some_covers(rs) {
            let i = choose|i: int| 0 <= i < rs.len() && covers_null(#[trigger] rs[i]);
            assert(i == 0);
        }
        if covers_null(rs[0]) {
            assert(some_covers(rs));
        }
    }
}

/// Combining keeps null: the combination of two ranges under `And` reaches
/// down to null where both do, under `Or` where one of them does.
pub proof fn lemma_merge_covers(op: BinaryOperator, a: RangeModel, b: RangeModel, w: Value)
    requires
        tag_of(w) != 0,
        op is And || op is Or,
        plain_range(a, w),
        plain_range(b, w),
    ensures
        merge(op, a, b) matches Some(m) && plain_range(m, w) && (op is And ==> (range_covers(a)
            && range_covers(b) ==> range_covers(m))) && (op is Or ==> (range_covers(a)
            || range_covers(b) ==> range_covers(m))),
{
    lemma_merge_sound(op, a, b, w);
    let m = merge(op, a, b)->0;
    match (a, b) {
        (RangeModel::Dummy, _) => {},
        (_, RangeModel::Dummy) => {},
        (RangeModel::SortedRanges(ls), RangeModel::SortedRanges(rs)) => {
            if op is Or {
                lemma_fold_sound(ls, 0, rs, 0, w);
                lemma_collapsed_covers(fold(ls, 0, rs, 0));
                if some_covers(ls) || some_covers(rs) {
                    if some_covers(ls) {
                        let j = choose|j: int| 0 <= j < ls.len() && covers_null(#[trigger] ls[j]);
                        assert(0 <= j < ls.len() && covers_null(ls[j]));
                    }
                    lemma_fold_covers(ls, 0, rs, 0, w);
                }
            } else {
                lemma_intersected_lists_sound(ls, rs, ls.len(), w);
                lemma_collapsed_covers(intersected_lists(ls, rs, ls.len()));
                if some_covers(ls) && some_covers(rs) {
                    let i = choose|i: int| 0 <= i < ls.len() && covers_null(#[trigger] ls[i]);
                    let j = choose|j: int| 0 <= j < rs.len() && covers_null(#[trigger] rs[j]);
                    lemma_intersected_lists_covers(ls, rs, ls.len(), i, j, w);
                }
            }
        },
        (RangeModel::SortedRanges(rs), x) => {
            lemma_list_covers(op, x, rs, w);
        },
        (x, RangeModel::SortedRanges(rs)) => {
            lemma_list_covers(op, x, rs, w);
        },
        _ => {
            if op is Or {
                if covers_null(a) || covers_null(b) {
                    lemma_or_covers(a, b, w);
                    match m {
                        RangeModel::SortedRanges(ps) => {
                            assert(covers_null(ps[0]) || covers_null(ps[1]));
                        },
                        _ => {},
                    }
                }
            } else {
                if covers_null(a) && covers_null(b) {
                    lemma_and_covers(a, b, w);
                }
            }
        },
    }
}

/// A single piece combined with a list keeps null.
proof fn lemma_list_covers(op: BinaryOperator, x: RangeModel, rs: Seq<RangeModel>, w: Value)
    requires
        tag_of(w) != 0,
        op is And || op is Or,
        is_piece(x),
        typed_atom(x, w),
        typed_pieces(rs, w),
    ensures
        ({
            let out = crate::range_merge::extract(op, Some(x), rs, 0).0;
            &&& op is And ==> (covers_null(x) && some_covers(rs) ==> range_covers(collapse_list(out)))
            &&& op is Or ==> (covers_null(x) || some_covers(rs) ==> range_covers(collapse_list(out)))
        }),
{
    let out = crate::range_merge::extract(op, Some(x), rs, 0).0;
    if op is Or {
        lemma_united_sound(x, rs, 0, w);
        lemma_collapsed_covers(out);
        if covers_null(x) || some_covers(rs) {
            lemma_united_covers(x, rs, 0, w);
        }
    } else {
        lemma_intersected_sound(x, rs, rs.len(), w);
        lemma_collapsed_covers(out);
        if covers_null(x) && some_covers(rs) {
            let j = choose|j: int| 0 <= j < rs.len() && covers_null(#[trigger] rs[j]);
            lemma_intersected_covers(x, rs, rs.len(), j, w);
        }
    }
}

/// A range holds null exactly where it reaches down to it.
pub proof fn lemma_null_in_range(r: RangeModel, w: Value)
    requires
        tag_of(w) != 0,
        plain_range(r, w),
    ensures
        in_range(r, Value::Null) == range_covers(r),
{
    match r {
        RangeModel::SortedRanges(rs) => {
            lemma_in_list(rs, Value::Null);
            assert forall|i: int| 0 <= i < rs.len() implies in_range(
                #[trigger] rs[i],
                Value::Null,
            ) == covers_null(rs[i]) by {
                lemma_null_in_piece(rs[i], w);
            }
            if in_some(rs, Value::Null) {
                let i = choose|i: int| 0 <= i < rs.len() && in_range(#[trigger] rs[i], Value::Null);
                assert(covers_null(rs[i]));
            }
            if some_covers(rs) {
                let i = choose|i: int| 0 <= i < rs.len() && covers_null(#[trigger] rs[i]);
                assert(in_range(rs[i], Value::Null));
            }
        },
        _ => {
            lemma_null_in_piece(r, w);
        },
    }
}

/// Whether an expression, where it is the column `column_id` of `table`,
/// is null in the row.
pub open spec fn is_null_at(
    e: Expr,
    table: Seq<char>,
    column_id: ColumnId,
    row: Seq<Value>,
    schema: Seq<ColumnModel>,
) -> bool {
    e matches Expr::ColumnRef(c) ==> (is_target(c, table, column_id) ==> eval_of(e, row, schema)
        == Ok::<Value, EvalFault>(Value::Null))
}

/// Whether the column `column_id` of `table` is null in the row wherever
/// the predicate compares or tests it.
pub open spec fn null_bound(
    e: Expr,
    table: Seq<char>,
    column_id: ColumnId,
    row: Seq<Value>,
    schema: Seq<ColumnModel>,
) -> bool
    decreases e,
{
    match e {
        Expr::Binary { op, left_expr, right_expr, .. } => if op is And || op is Or {
            null_bound(*left_expr, table, column_id, row, schema) && null_bound(
                *right_expr,
                table,
                column_id,
                row,
                schema,
            )
        } else {
            is_null_at(*left_expr, table, column_id, row, schema) && is_null_at(
                *right_expr,
                table,
                column_id,
                row,
                schema,
            )
        },
        Expr::IsNull { expr, .. } => is_null_at(*expr, table, column_id, row, schema),
        Expr::Alias { expr, .. } => null_bound(*expr, table, column_id, row, schema),
        _ => true,
    }
}

proof fn lemma_detach_covers(
    e: Expr,
    table: Seq<char>,
    column_id: ColumnId,
    row: Seq<Value>,
    schema: Seq<ColumnModel>,
    w: Value,
)
    requires
        tag_of(w) != 0,
        comparison_filter(e, table, column_id, w),
        null_bound(e, table, column_id, row, schema),
    ensures
        detach_of(e, table, column_id) matches Ok(Some(r)) ==> plain_range(r, w) && (eval_of(
            e,
            row,
            schema,
        ) == Ok::<Value, EvalFault>(Value::Boolean(true)) ==> range_covers(r)),
    decreases e,
{
    lemma_detach_sorted(e, table, column_id, w);
    match e {
        Expr::Binary { op, left_expr, right_expr, .. } => {
            let l = *left_expr;
            let r = *right_expr;
            if op is And || op is Or {
                if comparison_filter(l, table, column_id, w) {
                    lemma_detach_covers(l, table, column_id, row, schema, w);
                }
                if comparison_filter(r, table, column_id, w) {
                    lemma_detach_covers(r, table, column_id, row, schema, w);
                }
                match (detach_of(l, table, column_id), detach_of(r, table, column_id)) {
                    (Ok(Some(a)), Ok(Some(b))) => {
                        lemma_merge_covers(op, a, b, w);
                    },
                    (Ok(None), Ok(None)) => {
                        lemma_no_range_for_logic(op, l, r, table, column_id);
                    },
                    _ => {},
                }
            } else {
                match l {
                    Expr::ColumnRef(c) => lemma_null_cast(c.datatype),
                    _ => {},
                }
                match r {
                    Expr::ColumnRef(c) => lemma_null_cast(c.datatype),
                    _ => {},
                }
            }
        },
        Expr::Alias { expr, .. } => {
            lemma_detach_covers(*expr, table, column_id, row, schema, w);
        },
        _ => {},
    }
}

/// Range soundness at null: what a filter of comparisons and null tests
/// gives for a column holds null where the filter is true of a row in
/// which the column is null.
pub proof fn lemma_detach_sound_at_null(
    e: Expr,
    table: Seq<char>,
    column_id: ColumnId,
    row: Seq<Value>,
    schema: Seq<ColumnModel>,
    w: Value,
)
    requires
        tag_of(w) != 0,
        comparison_filter(e, table, column_id, w),
        null_bound(e, table, column_id, row, schema),
    ensures
        detach_of(e, table, column_id) matches Ok(Some(r)) ==> (eval_of(e, row, schema) == Ok::<
            Value,
            EvalFault,
        >(Value::Boolean(true)) ==> in_range(r, Value::Null)),
{
    lemma_detach_covers(e, table, column_id, row, schema, w);
    match detach_of(e, table, column_id) {
        Ok(Some(r)) => {
            lemma_null_in_range(r, w);
        },
        _ => {},
    }
}

} // verus!
