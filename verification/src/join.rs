use crate::bitset::{bitset_contains, bitset_insert, bitset_len, bitset_ones, bitset_with_capacity};
use crate::catalog::{column_models, ColumnModel, ColumnRef};
use crate::errors::DatabaseError;
use crate::eval::{eval_of, is_eval_error, project_of, EvalFault, Produced, Projection};
use crate::expression::{expr_models, Expr, ScalarExpression};
use crate::planner::{JoinCondition, JoinOperator, JoinType};
use crate::tuple::{nulls, values_eq, values_equal, Schema, Tuple, TupleModel};
use crate::value::{value_models, DataValue, Value};
use vstd::prelude::*;

verus! {

/// The key expressions of an equijoin with the schemas they are evaluated
/// over.
#[derive(Debug)]
pub struct EqualCondition {
    on_left_keys: Vec<ScalarExpression>,
    on_right_keys: Vec<ScalarExpression>,
    left_schema: Schema,
    right_schema: Schema,
}

/// A join by nested loops: for each row of the outer input, every row of
/// the inner input is probed. The outer input is the left one, but for a
/// right outer join, which runs as a left outer join with its inputs
/// changed over.
#[derive(Debug)]
pub struct NestedLoopJoin {
    output_schema_ref: Schema,
    ty: JoinType,
    filter: Option<ScalarExpression>,
    eq_cond: EqualCondition,
}

/// Model of a [`NestedLoopJoin`]: the key expressions and schemas are those
/// of the outer (`left`) and inner (`right`) input.
pub struct JoinModel {
    pub ty: JoinType,
    pub left_keys: Seq<Expr>,
    pub right_keys: Seq<Expr>,
    pub left_schema: Seq<ColumnModel>,
    pub right_schema: Seq<ColumnModel>,
    pub filter: Option<Expr>,
    pub output_schema: Seq<ColumnModel>,
}

/// The models of a run of rows.
pub open spec fn tuple_models(ts: Seq<Tuple>) -> Seq<TupleModel> {
    Seq::new(ts.len(), |i: int| ts[i]@)
}

/// Which sides of a join are padded with nulls: (left, right). Only the
/// outer joins pad: the left outer join the right side, the right outer
/// join the left side, the full join both.
pub open spec fn nullable_sides(ty: JoinType) -> (bool, bool) {
    match ty {
        JoinType::LeftOuter => (false, true),
        JoinType::RightOuter => (true, false),
        JoinType::Full => (true, true),
        _ => (false, false),
    }
}

/// A column as a join hands it on: with nulls allowed where its side is
/// padded, otherwise as it is.
pub open spec fn joined_column(c: ColumnModel, is_padded: bool) -> ColumnModel {
    if is_padded {
        ColumnModel { nullable: true, ..c }
    } else {
        c
    }
}

/// The columns of a join: those of the left input, then those of the right
/// input, with nulls allowed on the sides that the kind of join pads.
pub open spec fn merged_schema(left: Seq<ColumnModel>, right: Seq<ColumnModel>, ty: JoinType) -> Seq<
    ColumnModel,
> {
    Seq::new(
        left.len() + right.len(),
        |i: int|
            if i < left.len() {
                joined_column(left[i], nullable_sides(ty).0)
            } else {
                joined_column(right[i - left.len()], nullable_sides(ty).1)
            },
    )
}

/// The key of the first row that has one.
pub open spec fn first_pk(a: TupleModel, b: TupleModel) -> Option<Value> {
    match a.pk {
        Some(k) => Some(k),
        None => b.pk,
    }
}

/// The row that comes out for a pair of rows. A matched pair comes out
/// whole, but for the semi join as the left row only, and for the anti
/// join not at all. An unmatched pair comes out with nulls for the right
/// row under the left outer and the full join, with nulls for the left row
/// under the right outer join, as the left row under the anti join, and not
/// at all under the other joins. A row without values never comes out.
pub open spec fn emitted(left: TupleModel, right: TupleModel, ty: JoinType, is_matched: bool) -> Option<
    TupleModel,
> {
    let values = if (ty is Inner || ty is Cross || ty is LeftSemi) && !is_matched {
        Seq::empty()
    } else if (ty is LeftOuter || ty is Full) && !is_matched {
        left.values + nulls(right.values.len())
    } else if ty is RightOuter && !is_matched {
        nulls(left.values.len()) + right.values
    } else if ty is LeftSemi {
        left.values
    } else if ty is LeftAnti {
        if is_matched {
            Seq::empty()
        } else {
            left.values
        }
    } else {
        left.values + right.values
    };
    if values.len() == 0 {
        None
    } else {
        Some(TupleModel { pk: first_pk(left, right), values })
    }
}

/// The row over which the filter of a join is evaluated: the outer row
/// followed by the inner one, the other way round for a right outer join.
pub open spec fn merged(outer: TupleModel, inner: TupleModel, ty: JoinType) -> TupleModel {
    TupleModel {
        pk: first_pk(outer, inner),
        values: if ty is RightOuter {
            inner.values + outer.values
        } else {
            outer.values + inner.values
        },
    }
}

/// Whether two rows agree on the join keys; rows agree where there are no
/// keys.
pub open spec fn keys_equal(j: JoinModel, outer: TupleModel, inner: TupleModel) -> Result<
    bool,
    EvalFault,
> {
    if j.left_keys.len() == 0 {
        Ok(true)
    } else {
        match project_of(j.left_keys, outer.values, j.left_schema, j.left_keys.len()) {
            Ok(a) => match project_of(
                j.right_keys,
                inner.values,
                j.right_schema,
                j.right_keys.len(),
            ) {
                Ok(b) => Ok(values_eq(a, b)),
                Err(f) => Err(f),
            },
            Err(f) => Err(f),
        }
    }
}

/// The row in the right order for the output: the outer row is the right
/// one under a right outer join.
pub open spec fn emitted_pair(
    outer: TupleModel,
    inner: TupleModel,
    ty: JoinType,
    is_matched: bool,
) -> Option<TupleModel> {
    if ty is RightOuter {
        emitted(inner, outer, ty, is_matched)
    } else {
        emitted(outer, inner, ty, is_matched)
    }
}

/// Probing one inner row for an outer row: the row that comes out, if one
/// does, and whether the outer row has matched by now. Rows match where
/// they agree on the keys and the filter, if there is one, is true of them;
/// a filter that is false or null lets nothing through, and one that is no
/// boolean is a fault.
pub open spec fn probe_of(j: JoinModel, outer: TupleModel, inner: TupleModel, has_matched: bool) -> Result<
    (Option<TupleModel>, bool),
    EvalFault,
> {
    match keys_equal(j, outer, inner) {
        Err(f) => Err(f),
        Ok(false) => Ok((None, has_matched)),
        Ok(true) => match j.filter {
            None => Ok((emitted_pair(outer, inner, j.ty, true), true)),
            Some(filter) => match eval_of(filter, merged(outer, inner, j.ty).values, j.output_schema) {
                Err(f) => Err(f),
                Ok(Value::Boolean(true)) => Ok(
                    (
                        if j.ty is LeftAnti || (j.ty is LeftSemi && has_matched) {
                            None
                        } else {
                            emitted_pair(outer, inner, j.ty, true)
                        },
                        true,
                    ),
                ),
                Ok(Value::Boolean(false)) => Ok((None, has_matched)),
                Ok(Value::Null) => Ok((None, has_matched)),
                Ok(_) => Err(EvalFault::InvalidType),
            },
        },
    }
}

/// What ends a join before its inputs are used up.
pub enum JoinFault {
    /// Evaluating the keys or the filter failed.
    Eval(EvalFault),
    /// The outer input ended in an error.
    Outer,
    /// The inner input ended in an error.
    Inner,
}

/// The state of a join while it runs: the rows handed out so far, the inner
/// rows that have matched, whether the current outer row has matched, and
/// the fault that ended the join, if one did.
pub struct JoinState {
    pub out: Seq<TupleModel>,
    pub marks: Set<int>,
    pub matched: bool,
    pub fault: Option<JoinFault>,
}

/// Probing the inner rows from `k` on for one outer row. A semi join stops
/// at the first row that comes out, an anti join at the first match. Under
/// a full join the inner rows for which a row comes out are marked. Where
/// the inner input ends in an error (`inner_fails`), the error ends the
/// join as soon as the rows before it are used up.
pub open spec fn scan(
    j: JoinModel,
    outer: TupleModel,
    inner: Seq<TupleModel>,
    inner_fails: bool,
    k: nat,
    s: JoinState,
) -> JoinState
    decreases inner.len() - k,
{
    if k >= inner.len() {
        if inner_fails {
            JoinState { fault: Some(JoinFault::Inner), ..s }
        } else {
            s
        }
    } else {
        match probe_of(j, outer, inner[k as int], s.matched) {
            Err(f) => JoinState { fault: Some(JoinFault::Eval(f)), ..s },
            Ok((t, hm)) => {
                let out = match t {
                    Some(row) => s.out.push(row),
                    None => s.out,
                };
                if t is Some && j.ty is LeftSemi {
                    JoinState { out, matched: hm, ..s }
                } else {
                    let marks = if t is Some && j.ty is Full {
                        s.marks.insert(k as int)
                    } else {
                        s.marks
                    };
                    if j.ty is LeftAnti && hm {
                        JoinState { out, marks, matched: hm, ..s }
                    } else {
                        scan(
                            j,
                            outer,
                            inner,
                            inner_fails,
                            k + 1,
                            JoinState { out, marks, matched: hm, ..s },
                        )
                    }
                }
            },
        }
    }
}

/// The row that comes out for an outer row after all inner rows have been
/// probed: the row itself under the anti join where nothing matched, the
/// row with nulls for the inner side under the outer joins where nothing
/// matched, nothing else.
pub open spec fn unmatched_row(j: JoinModel, outer: TupleModel, matched: bool) -> Option<TupleModel> {
    if matched {
        None
    } else if j.ty is LeftAnti {
        Some(outer)
    } else if j.ty is LeftOuter || j.ty is LeftSemi || j.ty is RightOuter || j.ty is Full {
        emitted_pair(
            outer,
            TupleModel { pk: None, values: nulls(j.right_schema.len()) },
            j.ty,
            false,
        )
    } else {
        None
    }
}

/// The join of the outer rows from `i` on with the inner rows. Where the
/// outer input ends in an error (`outer_fails`), the error ends the join
/// behind the rows of the outer rows before it.
pub open spec fn outer_loop(
    j: JoinModel,
    outer: Seq<TupleModel>,
    inner: Seq<TupleModel>,
    outer_fails: bool,
    inner_fails: bool,
    i: nat,
    s: JoinState,
) -> JoinState
    decreases outer.len() - i,
{
    if i >= outer.len() {
        if outer_fails {
            JoinState { fault: Some(JoinFault::Outer), ..s }
        } else {
            s
        }
    } else {
        let after = scan(
            j,
            outer[i as int],
            inner,
            inner_fails,
            0,
            JoinState { matched: false, ..s },
        );
        if after.fault is Some {
            after
        } else {
            let out = match unmatched_row(j, outer[i as int], after.matched) {
                Some(row) => after.out.push(row),
                None => after.out,
            };
            outer_loop(j, outer, inner, outer_fails, inner_fails, i + 1, JoinState { out, ..after })
        }
    }
}

/// Under a full join, the inner rows from `k` on that never matched, each
/// behind nulls for the outer side.
pub open spec fn leftover(
    j: JoinModel,
    inner: Seq<TupleModel>,
    marks: Set<int>,
    k: nat,
    out: Seq<TupleModel>,
) -> Seq<TupleModel>
    decreases inner.len() - k,
{
    if k >= inner.len() {
        out
    } else {
        leftover(
            j,
            inner,
            marks,
            k + 1,
            if marks.contains(k as int) {
                out
            } else {
                out.push(
                    TupleModel {
                        pk: inner[k as int].pk,
                        values: nulls(j.left_schema.len()) + inner[k as int].values,
                    },
                )
            },
        )
    }
}

/// The rows of a join of `left` and `right`, in the order in which they
/// come out, and the fault that ended it, if one did: outer row by outer
/// row, for each the rows of its matches in the order of the inner input
/// and then its unmatched row; under a full join the unmatched inner rows
/// follow at the end.
pub open spec fn join_of(j: JoinModel, left: Seq<TupleModel>, right: Seq<TupleModel>) -> JoinState {
    join_run(j, left, false, right, false)
}

/// The join of two inputs that may end in an error after the rows they
/// gave: the rows that come out, and what ended the join. The error of an
/// input ends the join when the join asks for the row behind the last one:
/// that of the inner input at the end of the first pass over it that is
/// not cut short, that of the outer input behind the rows of its last row.
pub open spec fn join_run(
    j: JoinModel,
    left: Seq<TupleModel>,
    left_fails: bool,
    right: Seq<TupleModel>,
    right_fails: bool,
) -> JoinState {
    let outer = if j.ty is RightOuter {
        right
    } else {
        left
    };
    let inner = if j.ty is RightOuter {
        left
    } else {
        right
    };
    let outer_fails = if j.ty is RightOuter {
        right_fails
    } else {
        left_fails
    };
    let inner_fails = if j.ty is RightOuter {
        left_fails
    } else {
        right_fails
    };
    let start = JoinState { out: Seq::empty(), marks: Set::empty(), matched: false, fault: None };
    let after = outer_loop(j, outer, inner, outer_fails, inner_fails, 0, start);
    if after.fault is None && j.ty is Full {
        JoinState {
            out: leftover(j, inner, after.marks, 0, after.out),
            fault: if inner_fails {
                Some(JoinFault::Inner)
            } else {
                None
            },
            ..after
        }
    } else {
        after
    }
}

/// Whether a fault is none of an input.
pub open spec fn no_input_fault(f: Option<JoinFault>) -> bool {
    f matches Some(x) ==> x is Eval
}

/// Inputs that end without an error end no pass over the inner rows in a
/// fault of an input.
pub proof fn lemma_scan_plain(
    j: JoinModel,
    outer: TupleModel,
    inner: Seq<TupleModel>,
    k: nat,
    s: JoinState,
)
    requires
        no_input_fault(s.fault),
    ensures
        no_input_fault(scan(j, outer, inner, false, k, s).fault),
    decreases inner.len() - k,
{
    if k < inner.len() {
        match probe_of(j, outer, inner[k as int], s.matched) {
            Err(f) => {},
            Ok((t, hm)) => {
                let out = match t {
                    Some(row) => s.out.push(row),
                    None => s.out,
                };
                let marks = if t is Some && j.ty is Full {
                    s.marks.insert(k as int)
                } else {
                    s.marks
                };
                lemma_scan_plain(
                    j,
                    outer,
                    inner,
                    k + 1,
                    JoinState { out, marks, matched: hm, ..s },
                );
            },
        }
    }
}

/// Inputs that end without an error end no join in a fault of an input.
pub proof fn lemma_outer_plain(
    j: JoinModel,
    outer: Seq<TupleModel>,
    inner: Seq<TupleModel>,
    i: nat,
    s: JoinState,
)
    requires
        no_input_fault(s.fault),
    ensures
        no_input_fault(outer_loop(j, outer, inner, false, false, i, s).fault),
    decreases outer.len() - i,
{
    if i < outer.len() {
        let first = JoinState { matched: false, ..s };
        lemma_scan_plain(j, outer[i as int], inner, 0, first);
        let after = scan(j, outer[i as int], inner, false, 0, first);
        if after.fault is None {
            let out = match unmatched_row(j, outer[i as int], after.matched) {
                Some(row) => after.out.push(row),
                None => after.out,
            };
            lemma_outer_plain(j, outer, inner, i + 1, JoinState { out, ..after });
        }
    }
}

/// Whether the error `e` of a join is what the fault `f` stands for, given
/// the errors in which the inputs ended.
pub open spec fn is_join_error(
    e: Option<DatabaseError>,
    f: Option<JoinFault>,
    outer_error: Option<DatabaseError>,
    inner_error: Option<DatabaseError>,
) -> bool {
    match f {
        Some(JoinFault::Eval(x)) => e matches Some(err) && is_eval_error(err, x),
        Some(JoinFault::Outer) => e == outer_error,
        Some(JoinFault::Inner) => e == inner_error,
        None => e is None,
    }
}

fn all_nulls(n: usize) -> (r: Vec<DataValue>)
    ensures
        value_models(r@) == nulls(n as nat),
{
    let mut out: Vec<DataValue> = Vec::new();
    let mut i: usize = 0;
    while i < n
        invariant
            i <= n,
            out.len() == i,
            forall|k: int| 0 <= k < i ==> out@[k]@ is Null,
        decreases n - i,
    {
        out.push(DataValue::Null);
        i += 1;
    }
    assert(value_models(out@) =~= nulls(n as nat));
    out
}

fn append_copies(out: &mut Vec<DataValue>, values: &Vec<DataValue>)
    ensures
        value_models(final(out)@) == value_models(old(out)@) + value_models(values@),
{
    let ghost before = value_models(out@);
    let mut i: usize = 0;
    assert(value_models(out@) =~= before + value_models(values@).subrange(0, 0));
    while i < values.len()
        invariant
            i <= values.len(),
            value_models(out@) == before + value_models(values@).subrange(0, i as int),
        decreases values.len() - i,
    {
        let ghost cur = value_models(out@);
        let item = values[i].clone();
        out.push(item);
        assert(value_models(out@) =~= cur.push(item@));
        assert(value_models(values@).subrange(0, i + 1) =~= value_models(values@).subrange(
            0,
            i as int,
        ).push(values@[i as int]@));
        assert(value_models(out@) =~= before + value_models(values@).subrange(0, i + 1));
        i += 1;
    }
    assert(value_models(values@).subrange(0, values@.len() as int) =~= value_models(values@));
}

fn pick_pk(a: &Tuple, b: &Tuple) -> (r: Option<DataValue>)
    ensures
        match first_pk(a@, b@) {
            Some(k) => r is Some && r->0@ == k,
            None => r is None,
        },
{
    match &a.pk {
        Some(k) => Some(k.clone()),
        None => match &b.pk {
            Some(k) => Some(k.clone()),
            None => None,
        },
    }
}

/// The model of a row that may be missing.
pub open spec fn row_model(t: Option<Tuple>) -> Option<TupleModel> {
    match t {
        Some(x) => Some(x@),
        None => None,
    }
}

impl EqualCondition {
    /// The condition that the rows agree on each pair of keys. There are as
    /// many left keys as right keys; with no keys every pair of rows agrees.
    pub fn new(
        on_left_keys: Vec<ScalarExpression>,
        on_right_keys: Vec<ScalarExpression>,
        left_schema: Schema,
        right_schema: Schema,
    ) -> (r: EqualCondition)
        requires
            on_left_keys@.len() != 0 ==> on_left_keys@.len() == on_right_keys@.len(),
        ensures
            r.left_keys() == expr_models(on_left_keys@),
            r.right_keys() == expr_models(on_right_keys@),
            r.left_columns() == column_models(left_schema@),
            r.right_columns() == column_models(right_schema@),
    {
        EqualCondition { on_left_keys, on_right_keys, left_schema, right_schema }
    }

    pub closed spec fn left_keys(&self) -> Seq<Expr> {
        expr_models(self.on_left_keys@)
    }

    pub closed spec fn right_keys(&self) -> Seq<Expr> {
        expr_models(self.on_right_keys@)
    }

    pub closed spec fn left_columns(&self) -> Seq<ColumnModel> {
        column_models(self.left_schema@)
    }

    pub closed spec fn right_columns(&self) -> Seq<ColumnModel> {
        column_models(self.right_schema@)
    }

    /// Whether the two rows agree on the keys.
    pub fn equals(&self, left_tuple: &Tuple, right_tuple: &Tuple) -> (r: Result<
        bool,
        DatabaseError,
    >)
        ensures
            match (if self.left_keys().len() == 0 {
                Ok::<bool, EvalFault>(true)
            } else {
                match project_of(
                    self.left_keys(),
                    left_tuple@.values,
                    self.left_columns(),
                    self.left_keys().len(),
                ) {
                    Ok(a) => match project_of(
                        self.right_keys(),
                        right_tuple@.values,
                        self.right_columns(),
                        self.right_keys().len(),
                    ) {
                        Ok(b) => Ok(values_eq(a, b)),
                        Err(f) => Err(f),
                    },
                    Err(f) => Err(f),
                }
            }) {
                Ok(b) => r matches Ok(x) && x == b,
                Err(f) => r matches Err(e) && is_eval_error(e, f),
            },
    {
        if self.on_left_keys.len() == 0 {
            return Ok(true);
        }
        let left_values = match Projection::projection(
            left_tuple,
            self.on_left_keys.as_slice(),
            self.left_schema.as_slice(),
        ) {
            Ok(v) => v,
            Err(e) => {
                return Err(e);
            },
        };
        let right_values = match Projection::projection(
            right_tuple,
            self.on_right_keys.as_slice(),
            self.right_schema.as_slice(),
        ) {
            Ok(v) => v,
            Err(e) => {
                return Err(e);
            },
        };
        Ok(values_equal(left_values.as_slice(), right_values.as_slice()))
    }
}

impl NestedLoopJoin {
    /// The model of the join.
    pub closed spec fn model(&self) -> JoinModel {
        JoinModel {
            ty: self.ty,
            left_keys: self.eq_cond.left_keys(),
            right_keys: self.eq_cond.right_keys(),
            left_schema: self.eq_cond.left_columns(),
            right_schema: self.eq_cond.right_columns(),
            filter: match self.filter {
                Some(f) => Some(f@),
                None => None,
            },
            output_schema: column_models(self.output_schema_ref@),
        }
    }

    /// The join that `op` describes, of inputs with the given columns. The
    /// output has the columns of the left input followed by those of the
    /// right input. For a right outer join the right input becomes the
    /// outer one.
    pub fn from(op: JoinOperator, left_schema: Schema, right_schema: Schema) -> (r: Self)
        ensures
            r.model().ty == op.join_type,
            r.model().output_schema == merged_schema(
                column_models(left_schema@),
                column_models(right_schema@),
                op.join_type,
            ),
            r.model().left_schema == (if op.join_type is RightOuter {
                column_models(right_schema@)
            } else {
                column_models(left_schema@)
            }),
            r.model().right_schema == (if op.join_type is RightOuter {
                column_models(left_schema@)
            } else {
                column_models(right_schema@)
            }),
            op.on is NoCondition ==> r.model().left_keys.len() == 0 && r.model().right_keys.len()
                == 0 && r.model().filter is None,
            op.on matches JoinCondition::On { on, filter } ==> {
                &&& r.model().left_keys.len() == on@.len()
                &&& r.model().right_keys.len() == on@.len()
                &&& forall|i: int|
                    0 <= i < on@.len() ==> (if op.join_type is RightOuter {
                        r.model().left_keys[i] == (#[trigger] on@[i]).1@ && r.model().right_keys[i]
                            == on@[i].0@
                    } else {
                        r.model().left_keys[i] == on@[i].0@ && r.model().right_keys[i] == on@[i].1@
                    })
                &&& r.model().filter == (match filter {
                    Some(f) => Some(f@),
                    None => None,
                })
            },
    {
        let JoinOperator { on, join_type } = op;
        let mut on_left_keys: Vec<ScalarExpression> = Vec::new();
        let mut on_right_keys: Vec<ScalarExpression> = Vec::new();
        let filter = match on {
            JoinCondition::On { on, filter } => {
                let mut i: usize = 0;
                while i < on.len()
                    invariant
                        i <= on.len(),
                        on_left_keys.len() == i,
                        on_right_keys.len() == i,
                        forall|k: int|
                            0 <= k < i ==> on_left_keys@[k]@ == (#[trigger] on@[k]).0@
                                && on_right_keys@[k]@ == on@[k].1@,
                    decreases on.len() - i,
                {
                    on_left_keys.push(on[i].0.clone());
                    on_right_keys.push(on[i].1.clone());
                    i += 1;
                }
                filter
            },
            JoinCondition::NoCondition => None,
        };
        let output_schema_ref = Self::merge_schema(
            left_schema.as_slice(),
            right_schema.as_slice(),
            join_type,
        );
        let eq_cond = match join_type {
            JoinType::RightOuter => EqualCondition::new(
                on_right_keys,
                on_left_keys,
                right_schema,
                left_schema,
            ),
            _ => EqualCondition::new(on_left_keys, on_right_keys, left_schema, right_schema),
        };
        NestedLoopJoin { ty: join_type, output_schema_ref, filter, eq_cond }
    }

    /// The row that comes out for a pair of rows.
    pub fn emit_tuple(left_tuple: &Tuple, right_tuple: &Tuple, ty: JoinType, is_matched: bool) -> (r:
        Option<Tuple>)
        ensures
            row_model(r) == emitted(left_tuple@, right_tuple@, ty, is_matched),
    {
        let left_len: usize = left_tuple.values.len();
        let right_len: usize = right_tuple.values.len();
        let mut values: Vec<DataValue> = Vec::new();
        assert(value_models(values@) =~= Seq::<Value>::empty());
        match ty {
            JoinType::Inner | JoinType::Cross => {
                if is_matched {
                    append_copies(&mut values, &left_tuple.values);
                    append_copies(&mut values, &right_tuple.values);
                }
            },
            JoinType::LeftSemi => {
                if is_matched {
                    append_copies(&mut values, &left_tuple.values);
                }
            },
            JoinType::LeftOuter | JoinType::Full => {
                append_copies(&mut values, &left_tuple.values);
                if is_matched {
                    append_copies(&mut values, &right_tuple.values);
                } else {
                    let pad = all_nulls(right_len);
                    append_copies(&mut values, &pad);
                }
            },
            JoinType::RightOuter => {
                if is_matched {
                    append_copies(&mut values, &left_tuple.values);
                } else {
                    let pad = all_nulls(left_len);
                    append_copies(&mut values, &pad);
                }
                append_copies(&mut values, &right_tuple.values);
            },
            JoinType::LeftAnti => {
                if !is_matched {
                    append_copies(&mut values, &left_tuple.values);
                }
            },
        }
        if values.len() == 0 {
            return None;
        }
        Some(Tuple::new(pick_pk(left_tuple, right_tuple), values))
    }

    /// The row over which the filter is evaluated.
    pub fn merge_tuple(left_tuple: &Tuple, right_tuple: &Tuple, ty: &JoinType) -> (r: Tuple)
        ensures
            r@ == merged(left_tuple@, right_tuple@, *ty),
    {
        let pk = pick_pk(left_tuple, right_tuple);
        let mut values: Vec<DataValue> = Vec::new();
        assert(value_models(values@) =~= Seq::<Value>::empty());
        match ty {
            JoinType::RightOuter => {
                append_copies(&mut values, &right_tuple.values);
                append_copies(&mut values, &left_tuple.values);
            },
            _ => {
                append_copies(&mut values, &left_tuple.values);
                append_copies(&mut values, &right_tuple.values);
            },
        }
        Tuple::new(pk, values)
    }

    /// The columns of a join of inputs with the given columns.
    pub fn merge_schema(left_schema: &[ColumnRef], right_schema: &[ColumnRef], ty: JoinType) -> (r:
        Schema)
        ensures
            column_models(r@) == merged_schema(
                column_models(left_schema@),
                column_models(right_schema@),
                ty,
            ),
    {
        let (left_force_nullable, right_force_nullable): (bool, bool) = match ty {
            JoinType::LeftOuter => (false, true),
            JoinType::RightOuter => (true, false),
            JoinType::Full => (true, true),
            _ => (false, false),
        };
        let ghost want = merged_schema(column_models(left_schema@), column_models(right_schema@), ty);
        let mut join_schema: Vec<ColumnRef> = Vec::new();
        let mut i: usize = 0;
        while i < left_schema.len()
            invariant
                i <= left_schema@.len(),
                join_schema.len() == i,
                left_force_nullable == nullable_sides(ty).0,
                forall|k: int|
                    0 <= k < i ==> (#[trigger] join_schema@[k])@ == joined_column(
                        left_schema@[k]@,
                        left_force_nullable,
                    ),
            decreases left_schema@.len() - i,
        {
            let column = &left_schema[i];
            join_schema.push(
                if left_force_nullable {
                    column.forced_nullable()
                } else {
                    column.clone()
                },
            );
            i += 1;
        }
        let mut k: usize = 0;
        while k < right_schema.len()
            invariant
                k <= right_schema@.len(),
                join_schema.len() == left_schema@.len() + k,
                left_force_nullable == nullable_sides(ty).0,
                right_force_nullable == nullable_sides(ty).1,
                forall|m: int|
                    0 <= m < left_schema@.len() ==> (#[trigger] join_schema@[m])@ == joined_column(
                        left_schema@[m]@,
                        left_force_nullable,
                    ),
                forall|m: int|
                    0 <= m < k ==> (#[trigger] join_schema@[left_schema@.len() + m])@
                        == joined_column(right_schema@[m]@, right_force_nullable),
            decreases right_schema@.len() - k,
        {
            let column = &right_schema[k];
            join_schema.push(
                if right_force_nullable {
                    column.forced_nullable()
                } else {
                    column.clone()
                },
            );
            k += 1;
        }
        assert(column_models(join_schema@) =~= want) by {
            assert forall|m: int| 0 <= m < want.len() implies column_models(join_schema@)[m]
                == want[m] by {
                if m >= left_schema@.len() {
                    assert(join_schema@[left_schema@.len() + (m - left_schema@.len())]@
                        == joined_column(
                        right_schema@[m - left_schema@.len()]@,
                        right_force_nullable,
                    ));
                }
            }
        }
        join_schema
    }

    fn emit_pair(&self, outer: &Tuple, inner: &Tuple, is_matched: bool) -> (r: Option<Tuple>)
        ensures
            row_model(r) == emitted_pair(outer@, inner@, self.model().ty, is_matched),
    {
        match self.ty {
            JoinType::RightOuter => Self::emit_tuple(inner, outer, self.ty, is_matched),
            _ => Self::emit_tuple(outer, inner, self.ty, is_matched),
        }
    }

    /// Probes one inner row for an outer row.
    fn probe(&self, outer: &Tuple, inner: &Tuple, has_matched: bool) -> (r: Result<
        (Option<Tuple>, bool),
        DatabaseError,
    >)
        ensures
            match probe_of(self.model(), outer@, inner@, has_matched) {
                Ok((t, hm)) => r matches Ok(x) && row_model(x.0) == t && x.1 == hm,
                Err(f) => r matches Err(e) && is_eval_error(e, f),
            },
    {
        let same = match self.eq_cond.equals(outer, inner) {
            Ok(b) => b,
            Err(e) => {
                return Err(e);
            },
        };
        if !same {
            return Ok((None, has_matched));
        }
        match &self.filter {
            None => Ok((self.emit_pair(outer, inner, true), true)),
            Some(filter) => {
                let new_tuple = Self::merge_tuple(outer, inner, &self.ty);
                let value = match filter.eval(
                    new_tuple.values.as_slice(),
                    self.output_schema_ref.as_slice(),
                ) {
                    Ok(v) => v,
                    Err(e) => {
                        return Err(e);
                    },
                };
                match value {
                    DataValue::Boolean(true) => {
                        let tuple = match self.ty {
                            JoinType::LeftAnti => None,
                            JoinType::LeftSemi => if has_matched {
                                None
                            } else {
                                self.emit_pair(outer, inner, true)
                            },
                            _ => self.emit_pair(outer, inner, true),
                        };
                        Ok((tuple, true))
                    },
                    DataValue::Boolean(false) => Ok((None, has_matched)),
                    DataValue::Null => Ok((None, has_matched)),
                    DataValue::Tuple(vs, up) => {
                        proof {
                            crate::value::lemma_tuple_view(vs, up);
                        }
                        Err(DatabaseError::InvalidType)
                    },
                    _ => Err(DatabaseError::InvalidType),
                }
            },
        }
    }

    /// Joins the rows of the left input with the rows of the right input.
    /// The rows come out in the order in which the join finds them; an
    /// error ends the join behind the rows that came out before it.
    pub fn execute(self, left_rows: Vec<Tuple>, right_rows: Vec<Tuple>) -> (r: Produced)
        ensures
            tuple_models(r.tuples@) == join_of(
                self.model(),
                tuple_models(left_rows@),
                tuple_models(right_rows@),
            ).out,
            match join_of(self.model(), tuple_models(left_rows@), tuple_models(right_rows@)).fault {
                Some(JoinFault::Eval(f)) => r.error matches Some(e) && is_eval_error(e, f),
                Some(_) => false,
                None => r.error is None,
            },
    {
        proof {
            let j = self.model();
            let l = tuple_models(left_rows@);
            let r = tuple_models(right_rows@);
            let outer = if j.ty is RightOuter {
                r
            } else {
                l
            };
            let inner = if j.ty is RightOuter {
                l
            } else {
                r
            };
            lemma_outer_plain(
                j,
                outer,
                inner,
                0,
                JoinState { out: Seq::empty(), marks: Set::empty(), matched: false, fault: None },
            );
        }
        self.execute_inputs(
            Produced { tuples: left_rows, error: None },
            Produced { tuples: right_rows, error: None },
        )
    }

    /// The join of two inputs, each given as the rows it handed out and the
    /// error that ended it, if one did.
    pub fn execute_inputs(self, left: Produced, right: Produced) -> (r: Produced)
        ensures
            tuple_models(r.tuples@) == join_run(
                self.model(),
                tuple_models(left.tuples@),
                left.error is Some,
                tuple_models(right.tuples@),
                right.error is Some,
            ).out,
            is_join_error(
                r.error,
                join_run(
                    self.model(),
                    tuple_models(left.tuples@),
                    left.error is Some,
                    tuple_models(right.tuples@),
                    right.error is Some,
                ).fault,
                if self.model().ty is RightOuter {
                    right.error
                } else {
                    left.error
                },
                if self.model().ty is RightOuter {
                    left.error
                } else {
                    right.error
                },
            ),
    {
        let ghost left_fails = left.error is Some;
        let ghost right_fails = right.error is Some;
        let ghost left_error = left.error;
        let ghost right_error = right.error;
        let left_rows = left.tuples;
        let right_rows = right.tuples;
        let left_err = left.error;
        let right_err = right.error;
        let ghost j = self.model();
        let ghost l0 = tuple_models(left_rows@);
        let ghost r0 = tuple_models(right_rows@);
        let ghost want = join_run(j, l0, left_fails, r0, right_fails);
        let right_first: bool = self.ty.is_right();
        let (outer_rows, inner_rows, outer_err, inner_err) = if right_first {
            (right_rows, left_rows, right_err, left_err)
        } else {
            (left_rows, right_rows, left_err, right_err)
        };
        let ghost of = outer_err is Some;
        let ghost inf = inner_err is Some;
        let inner_failed: bool = inner_err.is_some();
        let ghost oe = outer_err;
        let ghost ie = inner_err;
        let ghost outer = tuple_models(outer_rows@);
        let ghost inner = tuple_models(inner_rows@);
        let n: usize = inner_rows.len();
        let mut bitmap = bitset_with_capacity(n);
        let mut out: Vec<Tuple> = Vec::new();
        let mut i: usize = 0;
        let ghost start = JoinState {
            out: Seq::empty(),
            marks: Set::empty(),
            matched: false,
            fault: None,
        };
        let ghost total = outer_loop(j, outer, inner, of, inf, 0, start);
        assert(tuple_models(out@) =~= Seq::<TupleModel>::empty());
        let ghost mut matched_g = false;
        while i < outer_rows.len()
            invariant
                i <= outer_rows.len(),
                j == self.model(),
                outer == tuple_models(outer_rows@),
                inner == tuple_models(inner_rows@),
                n == inner_rows.len(),
                bitset_len(&bitmap) == n,
                total == outer_loop(
                    j,
                    outer,
                    inner,
                    of,
                    inf,
                    i as nat,
                    JoinState {
                        out: tuple_models(out@),
                        marks: bitset_ones(&bitmap),
                        matched: matched_g,
                        fault: None,
                    },
                ),
                want == (if total.fault is None && j.ty is Full {
                    JoinState {
                        out: leftover(j, inner, total.marks, 0, total.out),
                        fault: if inf {
                            Some(JoinFault::Inner)
                        } else {
                            None
                        },
                        ..total
                    }
                } else {
                    total
                }),
                of == (outer_err is Some),
                inf == (inner_err is Some),
                inner_failed == inf,
                oe == outer_err,
                ie == inner_err,
                l0 == tuple_models(left.tuples@),
                r0 == tuple_models(right.tuples@),
                left_fails == (left.error is Some),
                right_fails == (right.error is Some),
                oe == (if j.ty is RightOuter {
                    right.error
                } else {
                    left.error
                }),
                ie == (if j.ty is RightOuter {
                    left.error
                } else {
                    right.error
                }),
                want == join_run(j, l0, left_fails, r0, right_fails),
                
                
            decreases outer_rows.len() - i,
        {
            let left_tuple = &outer_rows[i];
            assert(outer[i as int] == left_tuple@);
            let ghost row_start = JoinState {
                out: tuple_models(out@),
                marks: bitset_ones(&bitmap),
                matched: false,
                fault: None,
            };
            let ghost row_want = scan(j, left_tuple@, inner, inf, 0, row_start);
            let mut has_matched: bool = false;
            let mut k: usize = 0;
            let mut done: bool = false;
            while k < n && !done
                invariant
                    k <= n == inner_rows.len(),
                    j == self.model(),
                    inner == tuple_models(inner_rows@),
                    bitset_len(&bitmap) == n,
                    !done ==> row_want == scan(
                        j,
                        left_tuple@,
                        inner,
                        inf,
                        k as nat,
                        JoinState {
                            out: tuple_models(out@),
                            marks: bitset_ones(&bitmap),
                            matched: has_matched,
                            fault: None,
                        },
                    ),
                    done ==> row_want == (JoinState {
                        out: tuple_models(out@),
                        marks: bitset_ones(&bitmap),
                        matched: has_matched,
                        fault: None,
                    }),
                    row_want.fault is Some ==> total == row_want,
                    total == (if row_want.fault is Some {
                        row_want
                    } else {
                        outer_loop(
                            j,
                            outer,
                            inner,
                            of,
                            inf,
                            (i + 1) as nat,
                            JoinState {
                                out: match unmatched_row(j, left_tuple@, row_want.matched) {
                                    Some(row) => row_want.out.push(row),
                                    None => row_want.out,
                                },
                                ..row_want
                            },
                        )
                    }),
                    want == (if total.fault is None && j.ty is Full {
                        JoinState {
                            out: leftover(j, inner, total.marks, 0, total.out),
                            fault: if inf {
                                Some(JoinFault::Inner)
                            } else {
                                None
                            },
                            ..total
                        }
                    } else {
                        total
                    }),
                    of == (outer_err is Some),
                    inf == (inner_err is Some),
                    inner_failed == inf,
                    oe == outer_err,
                    ie == inner_err,
                    l0 == tuple_models(left.tuples@),
                    r0 == tuple_models(right.tuples@),
                    left_fails == (left.error is Some),
                    right_fails == (right.error is Some),
                    oe == (if j.ty is RightOuter {
                        right.error
                    } else {
                        left.error
                    }),
                    ie == (if j.ty is RightOuter {
                        left.error
                    } else {
                        right.error
                    }),
                    want == join_run(j, l0, left_fails, r0, right_fails),
                    
                    
                decreases n - k + (if done { 0int } else { 1int }),
            {
                assert(inner[k as int] == inner_rows@[k as int]@);
                let ghost before = tuple_models(out@);
                match self.probe(left_tuple, &inner_rows[k], has_matched) {
                    Err(e) => {
                        return Produced { tuples: out, error: Some(e) };
                    },
                    Ok((tuple, hm)) => {
                        has_matched = hm;
                        let came: bool = tuple.is_some();
                        match tuple {
                            Some(t) => {
                                out.push(t);
                                assert(tuple_models(out@) =~= before.push(t@));
                            },
                            None => {},
                        }
                        let semi: bool = match self.ty {
                            JoinType::LeftSemi => true,
                            _ => false,
                        };
                        let full: bool = match self.ty {
                            JoinType::Full => true,
                            _ => false,
                        };
                        let anti: bool = match self.ty {
                            JoinType::LeftAnti => true,
                            _ => false,
                        };
                        if came && semi {
                            done = true;
                        } else {
                            if came && full {
                                bitset_insert(&mut bitmap, k);
                            }
                            if anti && has_matched {
                                done = true;
                            } else {
                                k += 1;
                            }
                        }
                    },
                }
            }
            if !done && inner_failed {
                return Produced { tuples: out, error: inner_err };
            }
            let ghost before = tuple_models(out@);
            let tail = if has_matched {
                None
            } else {
                match self.ty {
                    JoinType::LeftAnti => Some(left_tuple.clone()),
                    JoinType::LeftOuter
                    | JoinType::LeftSemi
                    | JoinType::RightOuter
                    | JoinType::Full => {
                        let right_tuple = Tuple::new(None, all_nulls(self.eq_cond.right_schema.len()));
                        self.emit_pair(left_tuple, &right_tuple, false)
                    },
                    _ => None,
                }
            };
            match tail {
                Some(t) => {
                    out.push(t);
                    assert(tuple_models(out@) =~= before.push(t@));
                },
                None => {},
            }
            proof {
                matched_g = has_matched;
            }
            i += 1;
        }
        if outer_err.is_some() {
            return Produced { tuples: out, error: outer_err };
        }
        let full: bool = match self.ty {
            JoinType::Full => true,
            _ => false,
        };
        if full {
            let width: usize = self.eq_cond.left_schema.len();
            let mut idx: usize = 0;
            while idx < n
                invariant
                    idx <= n == inner_rows.len(),
                    j == self.model(),
                    width == j.left_schema.len(),
                    inner == tuple_models(inner_rows@),
                    want.out == leftover(
                        j,
                        inner,
                        bitset_ones(&bitmap),
                        idx as nat,
                        tuple_models(out@),
                    ),
                    j.ty is Full,
                    want.fault == (if inf {
                        Some(JoinFault::Inner)
                    } else {
                        None::<JoinFault>
                    }),
                    inf == (inner_err is Some),
                    ie == inner_err,
                    want == join_run(j, l0, left_fails, r0, right_fails),
                    l0 == tuple_models(left.tuples@),
                    r0 == tuple_models(right.tuples@),
                    left_fails == (left.error is Some),
                    right_fails == (right.error is Some),
                    ie == (if j.ty is RightOuter {
                        left.error
                    } else {
                        right.error
                    }),
                decreases n - idx,
            {
                assert(inner[idx as int] == inner_rows@[idx as int]@);
                if !bitset_contains(&bitmap, idx) {
                    let right_tuple = &inner_rows[idx];
                    let mut values = all_nulls(width);
                    append_copies(&mut values, &right_tuple.values);
                    let ghost before = tuple_models(out@);
                    let row = Tuple::new(
                        match &right_tuple.pk {
                            Some(k) => Some(k.clone()),
                            None => None,
                        },
                        values,
                    );
                    out.push(row);
                    assert(tuple_models(out@) =~= before.push(row@));
                }
                idx += 1;
            }
        }
        if full {
            Produced { tuples: out, error: inner_err }
        } else {
            Produced { tuples: out, error: None }
        }
    }
}

} // verus!
