use crate::cast::CastFault;
use crate::catalog::{column_models, same_column, ColumnModel, ColumnRef};
use crate::combining::combined;
use crate::detacher::{detach_of, detached_as, Detached, RangeDetacher};
use crate::errors::DatabaseError;
use crate::expression::{
    expr_models, lemma_args_view, lemma_in_view, BinaryOperator, Expr, ScalarExpression,
};
use crate::index::{same_meta, IndexMeta, IndexType};
use crate::planner::{
    scanned_columns, Childrens, FilterOperator, IndexInfo, JoinType, LogicalPlan, Operator,
    PhysicalOption, TableScanOperator,
};
use crate::range::{
    lemma_sorted_view, only_points, range_models, Bound, BoundModel, Range, RangeModel,
};
use crate::types::{ColumnId, LogicalType, TypeModel};
use crate::value::{lemma_tuple_view, value_models, DataValue, Value};
use vstd::prelude::*;
use vstd::std_specs::btree::{into_iter_values, spec_values_iter};
use vstd::std_specs::iter::IteratorSpec;

verus! {

/// The parts of a predicate that `AND` joins, from left to right.
pub open spec fn conjuncts(e: Expr) -> Seq<Expr>
    decreases e,
{
    match e {
        Expr::Binary { op: BinaryOperator::And, left_expr, right_expr, .. } => conjuncts(
            *left_expr,
        ) + conjuncts(*right_expr),
        _ => seq![e],
    }
}

/// The first `n` predicates joined by `AND`, grouped from the left.
pub open spec fn conjunction(es: Seq<Expr>, n: nat) -> Expr
    decreases n,
{
    if n <= 1 {
        es[0]
    } else {
        Expr::Binary {
            op: BinaryOperator::And,
            left_expr: Box::new(conjunction(es, (n - 1) as nat)),
            right_expr: Box::new(es[n - 1]),
            ty: TypeModel::Boolean,
        }
    }
}

/// Predicates as one predicate; nothing for none.
pub open spec fn reduced(es: Seq<Expr>) -> Option<Expr> {
    if es.len() == 0 {
        None
    } else {
        Some(conjunction(es, es.len()))
    }
}

/// Whether a predicate is not itself two predicates joined by `AND`.
pub open spec fn is_single(e: Expr) -> bool {
    !(e matches Expr::Binary { op: BinaryOperator::And, .. })
}

/// The first `n` of a list of single predicates, joined and split again,
/// are those predicates.
pub proof fn lemma_split_joined(es: Seq<Expr>, n: nat)
    requires
        1 <= n <= es.len(),
        forall|i: int| 0 <= i < es.len() ==> is_single(#[trigger] es[i]),
    ensures
        conjuncts(conjunction(es, n)) == es.subrange(0, n as int),
    decreases n,
{
    assert(is_single(es[n - 1]));
    assert(conjuncts(es[n - 1]) == seq![es[n - 1]]);
    if n > 1 {
        lemma_split_joined(es, (n - 1) as nat);
        assert(es.subrange(0, n as int) =~= es.subrange(0, n - 1) + seq![es[n - 1]]);
    } else {
        assert(is_single(es[0]));
        assert(es.subrange(0, 1) =~= seq![es[0]]);
    }
}

/// Splitting a reduced filter gives the filters back: single predicates
/// joined into one predicate and split again are those predicates.
pub proof fn lemma_split_reduced(es: Seq<Expr>)
    requires
        forall|i: int| 0 <= i < es.len() ==> is_single(#[trigger] es[i]),
    ensures
        reduced(es) matches Some(e) ==> conjuncts(e) == es,
{
    if es.len() > 0 {
        lemma_split_joined(es, es.len());
        assert(es.subrange(0, es.len() as int) =~= es);
    }
}

/// The columns that an expression names, in the order in which they occur.
pub open spec fn columns_in(e: Expr) -> Seq<ColumnModel>
    decreases e, 0nat,
{
    match e {
        Expr::Constant(_) => Seq::empty(),
        Expr::ColumnRef(c) => seq![c],
        Expr::Alias { expr, .. } => columns_in(*expr),
        Expr::TypeCast { expr, .. } => columns_in(*expr),
        Expr::IsNull { expr, .. } => columns_in(*expr),
        Expr::Unary { expr, .. } => columns_in(*expr),
        Expr::Binary { left_expr, right_expr, .. } => columns_in(*left_expr) + columns_in(
            *right_expr,
        ),
        Expr::In { expr, args, .. } => columns_in(*expr) + columns_in_all(args, args.len()),
        Expr::Between { expr, left_expr, right_expr, .. } => columns_in(*expr) + columns_in(
            *left_expr,
        ) + columns_in(*right_expr),
        Expr::If { condition, left_expr, right_expr, .. } => columns_in(*condition) + columns_in(
            *left_expr,
        ) + columns_in(*right_expr),
        Expr::Tuple(args) => columns_in_all(args, args.len()),
    }
}

/// The columns that the first `n` expressions name.
pub open spec fn columns_in_all(es: Seq<Expr>, n: nat) -> Seq<ColumnModel>
    decreases es, n,
{
    if n == 0 || n > es.len() {
        Seq::empty()
    } else {
        columns_in_all(es, (n - 1) as nat) + columns_in(es[n - 1])
    }
}

/// Whether one of `right` is the column `c`.
pub open spec fn has_column(right: Seq<ColumnModel>, c: ColumnModel) -> bool {
    exists|j: int| 0 <= j < right.len() && same_column(c, #[trigger] right[j])
}

/// Whether every column of `left` is among `right`.
pub open spec fn subset_cols(left: Seq<ColumnModel>, right: Seq<ColumnModel>) -> bool {
    forall|i: int| 0 <= i < left.len() ==> has_column(right, #[trigger] left[i])
}

/// Whether a predicate speaks of columns of `cols` only.
pub open spec fn within(cols: Seq<ColumnModel>) -> spec_fn(Expr) -> bool {
    |e: Expr| subset_cols(columns_in(e), cols)
}

/// Whether a predicate speaks of a column outside `cols`.
pub open spec fn beyond(cols: Seq<ColumnModel>) -> spec_fn(Expr) -> bool {
    |e: Expr| !subset_cols(columns_in(e), cols)
}

/// Whether predicates are pushed through a join of this kind.
pub open spec fn pushes_through(ty: JoinType) -> bool {
    ty is Inner || ty is LeftOuter || ty is LeftSemi || ty is LeftAnti || ty is RightOuter
}

/// The predicates that go below the left input, below the right input, and
/// that stay above the join. What speaks of the left input only goes left,
/// what speaks of the right input only goes right, and the rest stays; but
/// nothing goes below the side that an outer join fills with nulls: under a
/// left join what speaks of the right input stays, under a right outer
/// join what speaks of the left input stays.
pub open spec fn split_of(
    ty: JoinType,
    predicate: Expr,
    left_columns: Seq<ColumnModel>,
    right_columns: Seq<ColumnModel>,
) -> (Option<Expr>, Option<Expr>, Option<Expr>) {
    let all = conjuncts(predicate);
    let left = all.filter(within(left_columns));
    let rest = all.filter(beyond(left_columns));
    let right = rest.filter(within(right_columns));
    let common = rest.filter(beyond(right_columns));
    if ty is Inner {
        (reduced(left), reduced(right), reduced(common))
    } else if ty is RightOuter {
        (None, reduced(right), reduced(common + left))
    } else {
        (reduced(left), None, reduced(common + right))
    }
}

/// Whether one of `right` is the column `c`.
fn contains_col(right: &[ColumnRef], c: &ColumnRef) -> (r: bool)
    ensures
        r == has_column(column_models(right@), c@),
{
    let ghost rm = column_models(right@);
    let mut j: usize = 0;
    while j < right.len()
        invariant
            j <= right@.len(),
            rm == column_models(right@),
            forall|k: int| 0 <= k < j ==> !same_column(c@, #[trigger] rm[k]),
        decreases right@.len() - j,
    {
        assert(rm[j as int] == right@[j as int]@);
        if c.eq(&right[j]) {
            return true;
        }
        j += 1;
    }
    false
}

/// Return true when left is subset of right, only compare table_id and
/// column_id, so it's safe to used for join output cols with nullable
/// columns. If left equals right, return true.
pub fn is_subset_cols(left: &[ColumnRef], right: &[ColumnRef]) -> (r: bool)
    ensures
        r == subset_cols(column_models(left@), column_models(right@)),
{
    let ghost lm = column_models(left@);
    let ghost rm = column_models(right@);
    let mut i: usize = 0;
    while i < left.len()
        invariant
            i <= left@.len(),
            lm == column_models(left@),
            rm == column_models(right@),
            forall|k: int| 0 <= k < i ==> has_column(rm, #[trigger] lm[k]),
        decreases left@.len() - i,
    {
        assert(lm[i as int] == left@[i as int]@);
        if !contains_col(right, &left[i]) {
            return false;
        }
        i += 1;
    }
    true
}

impl ScalarExpression {
    fn collect_columns(&self, out: &mut Vec<ColumnRef>)
        ensures
            column_models(final(out)@) == column_models(old(out)@) + columns_in(self@),
        decreases self, 0nat,
    {
        let ghost before = column_models(out@);
        match self {
            ScalarExpression::Constant(_) => {
                assert(column_models(out@) =~= before + columns_in(self@));
            },
            ScalarExpression::ColumnRef(c) => {
                out.push(c.clone());
                assert(column_models(out@) =~= before + columns_in(self@));
            },
            ScalarExpression::Alias { expr, .. } => expr.collect_columns(out),
            ScalarExpression::TypeCast { expr, .. } => expr.collect_columns(out),
            ScalarExpression::IsNull { expr, .. } => expr.collect_columns(out),
            ScalarExpression::Unary { expr, .. } => expr.collect_columns(out),
            ScalarExpression::Binary { left_expr, right_expr, .. } => {
                left_expr.collect_columns(out);
                right_expr.collect_columns(out);
                assert(column_models(out@) =~= before + columns_in(self@));
            },
            ScalarExpression::In { negated, expr, args } => {
                proof {
                    lemma_in_view(*negated, *expr, *args);
                }
                expr.collect_columns(out);
                assert(decreases_to!(self => self->In_args));
                ScalarExpression::collect_all(args, out);
                assert(column_models(out@) =~= before + columns_in(self@));
            },
            ScalarExpression::Between { expr, left_expr, right_expr, .. } => {
                expr.collect_columns(out);
                left_expr.collect_columns(out);
                right_expr.collect_columns(out);
                assert(column_models(out@) =~= before + columns_in(self@));
            },
            ScalarExpression::If { condition, left_expr, right_expr, .. } => {
                condition.collect_columns(out);
                left_expr.collect_columns(out);
                right_expr.collect_columns(out);
                assert(column_models(out@) =~= before + columns_in(self@));
            },
            ScalarExpression::Tuple(args) => {
                proof {
                    lemma_args_view(*args);
                }
                assert(decreases_to!(self => self->Tuple_0));
                ScalarExpression::collect_all(args, out);
            },
        }
    }

    fn collect_all(args: &Vec<ScalarExpression>, out: &mut Vec<ColumnRef>)
        ensures
            column_models(final(out)@) == column_models(old(out)@) + columns_in_all(
                expr_models(args@),
                args@.len(),
            ),
        decreases args, 1nat,
    {
        let ghost before = column_models(out@);
        let ghost es = expr_models(args@);
        let mut i: usize = 0;
        assert(column_models(out@) =~= before + columns_in_all(es, 0));
        while i < args.len()
            invariant
                i <= args.len(),
                es == expr_models(args@),
                column_models(out@) == before + columns_in_all(es, i as nat),
            decreases args.len() - i,
        {
            assert(decreases_to!(*args => args@));
            assert(decreases_to!(args@ => args@[i as int]));
            assert(es[i as int] == args@[i as int]@);
            args[i].collect_columns(out);
            proof {
                reveal_with_fuel(columns_in_all, 2);
                assert(column_models(out@) =~= before + columns_in_all(es, (i + 1) as nat));
            }
            i += 1;
        }
    }

    /// The columns that the expression names, in the order in which they
    /// occur.
    pub fn referenced_columns(&self) -> (r: Vec<ColumnRef>)
        ensures
            column_models(r@) == columns_in(self@),
    {
        let mut out: Vec<ColumnRef> = Vec::new();
        assert(column_models(out@) =~= Seq::<ColumnModel>::empty());
        self.collect_columns(&mut out);
        assert(Seq::<ColumnModel>::empty() + columns_in(self@) =~= columns_in(self@));
        out
    }
}

/// The parts of a predicate that `AND` joins, from left to right.
pub fn split_conjunctive_predicates(expr: &ScalarExpression) -> (r: Vec<ScalarExpression>)
    ensures
        expr_models(r@) == conjuncts(expr@),
    decreases expr,
{
    match expr {
        ScalarExpression::Binary { op: BinaryOperator::And, left_expr, right_expr, .. } => {
            let mut left = split_conjunctive_predicates(left_expr);
            let mut right = split_conjunctive_predicates(right_expr);
            let ghost l = expr_models(left@);
            let ghost r = expr_models(right@);
            left.append(&mut right);
            assert(expr_models(left@) =~= l + r);
            left
        },
        ScalarExpression::Tuple(args) => {
            proof {
                lemma_args_view(*args);
            }
            let mut out: Vec<ScalarExpression> = Vec::new();
            out.push(expr.clone());
            assert(expr_models(out@) =~= seq![expr@]);
            out
        },
        ScalarExpression::In { negated, expr: inner, args } => {
            proof {
                lemma_in_view(*negated, *inner, *args);
            }
            let mut out: Vec<ScalarExpression> = Vec::new();
            out.push(expr.clone());
            assert(expr_models(out@) =~= seq![expr@]);
            out
        },
        _ => {
            let mut out: Vec<ScalarExpression> = Vec::new();
            out.push(expr.clone());
            assert(expr_models(out@) =~= seq![expr@]);
            out
        },
    }
}

/// reduce filters into a filter, and then build a new LogicalFilter node
/// with input child. if filters is empty, return the input child.
pub fn reduce_filters(filters: Vec<ScalarExpression>, having: bool) -> (r: Option<FilterOperator>)
    ensures
        match reduced(expr_models(filters@)) {
            Some(e) => r matches Some(f) && f.predicate@ == e && !f.is_optimized && f.having
                == having,
            None => r is None,
        },
{
    let ghost es = expr_models(filters@);
    let n: usize = filters.len();
    if n == 0 {
        return None;
    }
    let mut rest: Vec<ScalarExpression> = Vec::new();
    let mut list = filters;
    while list.len() > 0
        invariant
            list.len() + rest.len() == n,
            n == es.len(),
            forall|j: int| 0 <= j < list@.len() ==> (#[trigger] list@[j])@ == es[j],
            forall|j: int| 0 <= j < rest@.len() ==> (#[trigger] rest@[j])@ == es[n - 1 - j],
        decreases list.len(),
    {
        match list.pop() {
            Some(x) => rest.push(x),
            None => {},
        }
    }
    let mut acc = match rest.pop() {
        Some(first) => first,
        None => {
            return None;
        },
    };
    let mut k: usize = 1;
    while k < n
        invariant
            1 <= k <= n == es.len(),
            rest.len() == n - k,
            forall|j: int| 0 <= j < rest@.len() ==> (#[trigger] rest@[j])@ == es[n - 1 - j],
            acc@ == conjunction(es, k as nat),
        decreases n - k,
    {
        match rest.pop() {
            Some(next) => {
                acc = ScalarExpression::Binary {
                    op: BinaryOperator::And,
                    left_expr: Box::new(acc),
                    right_expr: Box::new(next),
                    ty: LogicalType::Boolean,
                };
            },
            None => {},
        }
        k += 1;
    }
    Some(FilterOperator { predicate: acc, is_optimized: false, having })
}

/// The predicates of `filters` that speak of `columns` only, and the others,
/// each in their order.
fn partition(filters: Vec<ScalarExpression>, columns: &[ColumnRef]) -> (r: (
    Vec<ScalarExpression>,
    Vec<ScalarExpression>,
))
    ensures
        expr_models(r.0@) == expr_models(filters@).filter(within(column_models(columns@))),
        expr_models(r.1@) == expr_models(filters@).filter(beyond(column_models(columns@))),
{
    let ghost es = expr_models(filters@);
    let ghost cols = column_models(columns@);
    let mut inside: Vec<ScalarExpression> = Vec::new();
    let mut outside: Vec<ScalarExpression> = Vec::new();
    let mut i: usize = 0;
    assert(es.subrange(0, 0) =~= Seq::<Expr>::empty());
    assert(expr_models(inside@) =~= es.subrange(0, 0).filter(within(cols)));
    assert(expr_models(outside@) =~= es.subrange(0, 0).filter(beyond(cols)));
    while i < filters.len()
        invariant
            i <= filters@.len(),
            es == expr_models(filters@),
            cols == column_models(columns@),
            expr_models(inside@) == es.subrange(0, i as int).filter(within(cols)),
            expr_models(outside@) == es.subrange(0, i as int).filter(beyond(cols)),
        decreases filters@.len() - i,
    {
        let f = &filters[i];
        let ghost done = es.subrange(0, i as int);
        let ghost next = es.subrange(0, i + 1);
        let ghost in_before = expr_models(inside@);
        let ghost out_before = expr_models(outside@);
        proof {
            assert(es[i as int] == f@);
            assert(next =~= done.push(f@));
            assert(next.drop_last() =~= done);
            reveal(Seq::filter);
            assert(next.filter(within(cols)) == if within(cols)(f@) {
                done.filter(within(cols)).push(f@)
            } else {
                done.filter(within(cols))
            });
            assert(next.filter(beyond(cols)) == if beyond(cols)(f@) {
                done.filter(beyond(cols)).push(f@)
            } else {
                done.filter(beyond(cols))
            });
        }
        let cols_of = f.referenced_columns();
        if is_subset_cols(cols_of.as_slice(), columns) {
            inside.push(f.clone());
            assert(expr_models(inside@) =~= in_before.push(f@));
        } else {
            outside.push(f.clone());
            assert(expr_models(outside@) =~= out_before.push(f@));
        }
        i += 1;
    }
    assert(es.subrange(0, es.len() as int) =~= es);
    (inside, outside)
}

/// The filters that a predicate above a join is split into.
#[derive(Debug)]
pub struct Pushed {
    /// What goes below the left input.
    pub left: Option<FilterOperator>,
    /// What goes below the right input.
    pub right: Option<FilterOperator>,
    /// What stays above the join.
    pub rest: Option<FilterOperator>,
}

/// The model of a filter that may be missing.
pub open spec fn predicate_model(f: Option<FilterOperator>) -> Option<Expr> {
    match f {
        Some(x) => Some(x.predicate@),
        None => None,
    }
}

/// Pushes down `Filter` operators where the `condition` can be evaluated
/// using only the attributes of the left or right side of a join. Other
/// `Filter` conditions stay above the join.
#[derive(Debug, Clone, Copy)]
pub struct PushPredicateThroughJoin;

/// Gives each index of a scanned table the range that the filter above the
/// scan allows it.
#[derive(Debug, Clone, Copy)]
pub struct PushPredicateIntoScan;

impl PushPredicateThroughJoin {
    /// Splits the filter `filter` above a join of kind `join_type`, whose
    /// inputs have the given columns. Nothing for a kind of join that
    /// predicates are not pushed through.
    pub fn split(
        join_type: JoinType,
        filter: &FilterOperator,
        left_columns: &[ColumnRef],
        right_columns: &[ColumnRef],
    ) -> (r: Option<Pushed>)
        ensures
            r is Some == pushes_through(join_type),
            r matches Some(p) ==> {
                let want = split_of(
                    join_type,
                    filter.predicate@,
                    column_models(left_columns@),
                    column_models(right_columns@),
                );
                &&& predicate_model(p.left) == want.0
                &&& predicate_model(p.right) == want.1
                &&& predicate_model(p.rest) == want.2
                &&& p.left matches Some(f) ==> f.having == filter.having && !f.is_optimized
                &&& p.right matches Some(f) ==> f.having == filter.having && !f.is_optimized
                &&& p.rest matches Some(f) ==> f.having == filter.having && !f.is_optimized
            },
    {
        match join_type {
            JoinType::Full | JoinType::Cross => {
                return None;
            },
            _ => {},
        }
        let filter_exprs = split_conjunctive_predicates(&filter.predicate);
        let (left_filters, rest) = partition(filter_exprs, left_columns);
        let (right_filters, common_filters) = partition(rest, right_columns);
        let mut common_filters = common_filters;
        let ghost c = expr_models(common_filters@);
        match join_type {
            JoinType::Inner => Some(
                Pushed {
                    left: reduce_filters(left_filters, filter.having),
                    right: reduce_filters(right_filters, filter.having),
                    rest: reduce_filters(common_filters, filter.having),
                },
            ),
            JoinType::RightOuter => {
                let ghost l = expr_models(left_filters@);
                let mut left_filters = left_filters;
                common_filters.append(&mut left_filters);
                assert(expr_models(common_filters@) =~= c + l);
                Some(
                    Pushed {
                        left: None,
                        right: reduce_filters(right_filters, filter.having),
                        rest: reduce_filters(common_filters, filter.having),
                    },
                )
            },
            _ => {
                let ghost r = expr_models(right_filters@);
                let mut right_filters = right_filters;
                common_filters.append(&mut right_filters);
                assert(expr_models(common_filters@) =~= c + r);
                Some(
                    Pushed {
                        left: reduce_filters(left_filters, filter.having),
                        right: None,
                        rest: reduce_filters(common_filters, filter.having),
                    },
                )
            },
        }
    }

    /// Rewrites a plan whose top is a filter over a join: what the split
    /// sends below an input becomes a filter over that input, and what stays
    /// becomes the filter over the join, which goes where nothing stays. Any
    /// other plan, and a plan over a join through which nothing is pushed,
    /// comes back as it is.
    pub fn apply(plan: LogicalPlan) -> (r: LogicalPlan)
        ensures
            !applies(plan) ==> r == plan,
            applies(plan) ==> rewritten(plan, r),
    {
        let LogicalPlan { operator, childrens, physical_option } = plan;
        let filter_op = match operator {
            Operator::Filter(op) => op,
            other => {
                return LogicalPlan { operator: other, childrens, physical_option };
            },
        };
        let join_plan = match *childrens {
            Childrens::Only(child) => child,
            other => {
                return LogicalPlan {
                    operator: Operator::Filter(filter_op),
                    childrens: Box::new(other),
                    physical_option,
                };
            },
        };
        let LogicalPlan { operator: join_operator, childrens: join_children, physical_option: jp } =
            join_plan;
        let join_op = match join_operator {
            Operator::Join(op) => op,
            other => {
                return LogicalPlan {
                    operator: Operator::Filter(filter_op),
                    childrens: Box::new(
                        Childrens::Only(
                            LogicalPlan {
                                operator: other,
                                childrens: join_children,
                                physical_option: jp,
                            },
                        ),
                    ),
                    physical_option,
                };
            },
        };
        let (left, right) = match *join_children {
            Childrens::Twins { left, right } => (left, right),
            other => {
                return LogicalPlan {
                    operator: Operator::Filter(filter_op),
                    childrens: Box::new(
                        Childrens::Only(
                            LogicalPlan {
                                operator: Operator::Join(join_op),
                                childrens: Box::new(other),
                                physical_option: jp,
                            },
                        ),
                    ),
                    physical_option,
                };
            },
        };
        let left_columns = left.operator.referenced_columns();
        let right_columns = right.operator.referenced_columns();
        let pushed = PushPredicateThroughJoin::split(
            join_op.join_type,
            &filter_op,
            left_columns.as_slice(),
            right_columns.as_slice(),
        );
        match pushed {
            None => LogicalPlan {
                operator: Operator::Filter(filter_op),
                childrens: Box::new(
                    Childrens::Only(
                        LogicalPlan {
                            operator: Operator::Join(join_op),
                            childrens: Box::new(Childrens::Twins { left, right }),
                            physical_option: jp,
                        },
                    ),
                ),
                physical_option,
            },
            Some(Pushed { left: left_filter, right: right_filter, rest }) => {
                let new_left = match left_filter {
                    Some(f) => LogicalPlan::new(Operator::Filter(f), Childrens::Only(left)),
                    None => left,
                };
                let new_right = match right_filter {
                    Some(f) => LogicalPlan::new(Operator::Filter(f), Childrens::Only(right)),
                    None => right,
                };
                let join = LogicalPlan {
                    operator: Operator::Join(join_op),
                    childrens: Box::new(Childrens::Twins { left: new_left, right: new_right }),
                    physical_option: jp,
                };
                match rest {
                    Some(f) => LogicalPlan {
                        operator: Operator::Filter(f),
                        childrens: Box::new(Childrens::Only(join)),
                        physical_option,
                    },
                    None => join,
                }
            },
        }
    }
}

/// The columns that an operator hands on or speaks of: those of a scan or of
/// given rows, and those that a filter's predicate names.
pub open spec fn operator_columns(op: Operator) -> Seq<ColumnModel> {
    match op {
        Operator::TableScan(scan) => scanned_columns(&scan.columns),
        Operator::Values(values) => column_models(values.schema_ref@),
        Operator::Filter(f) => columns_in(f.predicate@),
        _ => Seq::empty(),
    }
}

/// Whether a plan is a filter over a join with two inputs through which
/// predicates are pushed.
pub open spec fn applies(plan: LogicalPlan) -> bool {
    &&& plan.operator is Filter
    &&& *plan.childrens matches Childrens::Only(join)
    &&& join.operator matches Operator::Join(j)
    &&& pushes_through(j.join_type)
    &&& *join.childrens is Twins
}

/// A plan with a fresh filter of the given predicate on top, marked as a
/// `having` filter or not and with the given physical option, or the plan
/// itself where there is no predicate.
pub open spec fn filtered(
    r: LogicalPlan,
    pred: Option<Expr>,
    below: LogicalPlan,
    having: bool,
    option: Option<PhysicalOption>,
) -> bool {
    match pred {
        Some(e) => r.operator matches Operator::Filter(f) && f.predicate@ == e && !f.is_optimized
            && f.having == having && *r.childrens == Childrens::Only(below) && r.physical_option
            == option,
        None => r == below,
    }
}

/// Whether `r` is the plan `plan` with its top filter pushed through its
/// join: the join keeps its operator and physical option; what goes below
/// an input is a fresh filter over it; what stays is a fresh filter over
/// the join that has the physical option of the old filter.
pub open spec fn rewritten(plan: LogicalPlan, r: LogicalPlan) -> bool {
    let filter = plan.operator->Filter_0;
    let join = (*plan.childrens)->Only_0;
    let left = (*join.childrens)->Twins_left;
    let right = (*join.childrens)->Twins_right;
    let want = split_of(
        join.operator->Join_0.join_type,
        filter.predicate@,
        operator_columns(left.operator),
        operator_columns(right.operator),
    );
    let new_join = if want.2 is Some {
        (*r.childrens)->Only_0
    } else {
        r
    };
    &&& filtered(r, want.2, new_join, filter.having, plan.physical_option)
    &&& new_join.operator == join.operator
    &&& new_join.physical_option == join.physical_option
    &&& *new_join.childrens is Twins
    &&& filtered((*new_join.childrens)->Twins_left, want.0, left, filter.having, None)
    &&& filtered((*new_join.childrens)->Twins_right, want.1, right, filter.having, None)
}

impl Operator {
    /// The columns that the operator hands on or speaks of.
    pub fn referenced_columns(&self) -> (r: Vec<ColumnRef>)
        ensures
            column_models(r@) == operator_columns(*self),
    {
        match self {
            Operator::TableScan(scan) => {
                let mut out: Vec<ColumnRef> = Vec::new();
                for column in it: scan.columns.values()
                    invariant
                        out@.len() == it.index@,
                        it.seq().unref() == into_iter_values(spec_values_iter(&scan.columns)),
                        forall|k: int| 0 <= k < out@.len() ==> (#[trigger] out@[k])@ == it.seq()[k]@,
                {
                    out.push(column.clone());
                }
                assert(column_models(out@) =~= operator_columns(*self));
                out
            },
            Operator::Values(values) => {
                let mut out: Vec<ColumnRef> = Vec::new();
                let mut i: usize = 0;
                while i < values.schema_ref.len()
                    invariant
                        i <= values.schema_ref@.len(),
                        out.len() == i,
                        forall|k: int|
                            0 <= k < i ==> (#[trigger] out@[k])@ == values.schema_ref@[k]@,
                    decreases values.schema_ref@.len() - i,
                {
                    out.push(values.schema_ref[i].clone());
                    i += 1;
                }
                assert(column_models(out@) =~= operator_columns(*self));
                out
            },
            Operator::Filter(f) => f.predicate.referenced_columns(),
            _ => {
                let out: Vec<ColumnRef> = Vec::new();
                assert(column_models(out@) =~= Seq::<ColumnModel>::empty());
                out
            },
        }
    }
}

/// A single key tuple as the range of all the tuples that extend it.
pub open spec fn eq_to_scope_of(r: RangeModel) -> RangeModel
    decreases r,
{
    match r {
        RangeModel::Eq(Value::Tuple(values, _)) => RangeModel::Scope {
            min: BoundModel::Excluded(Value::Tuple(values, false)),
            max: BoundModel::Excluded(Value::Tuple(values, true)),
        },
        RangeModel::SortedRanges(rs) => RangeModel::SortedRanges(
            Seq::new(
                rs.len(),
                |i: int|
                    if 0 <= i < rs.len() {
                        eq_to_scope_of(rs[i])
                    } else {
                        RangeModel::Dummy
                    },
            ),
        ),
        other => other,
    }
}

/// What walking the key columns from `k` on comes to: the range that ended
/// the walk, the single-value ranges gathered before it, and the number of
/// columns that gave a range.
pub struct Gathered {
    pub res: Option<RangeModel>,
    pub eqs: Seq<RangeModel>,
    pub count: nat,
}

/// Walks the key columns of a composite index from `k` on. Ranges of single
/// values are gathered; the first other range is combined with what was
/// gathered and ends the walk, and so does the first column of which the
/// predicate says nothing.
pub open spec fn gather(
    predicate: Expr,
    table: Seq<char>,
    ids: Seq<ColumnId>,
    k: nat,
    eqs: Seq<RangeModel>,
    count: nat,
) -> Result<Gathered, CastFault>
    decreases ids.len() - k,
{
    if k >= ids.len() {
        Ok(Gathered { res: None, eqs, count })
    } else {
        match detach_of(predicate, table, ids[k as int]) {
            Err(f) => Err(f),
            Ok(None) => Ok(Gathered { res: None, eqs, count }),
            Ok(Some(range)) => if only_points(range) {
                gather(predicate, table, ids, k + 1, eqs.push(range), count + 1)
            } else {
                Ok(Gathered { res: combined(range, eqs), eqs, count: count + 1 })
            },
        }
    }
}

/// The range of a composite index that a predicate allows. Where the walk
/// over the key columns ends without a range, the last single-value range
/// is combined with those before it. A range of single tuples that does not
/// reach over all key columns becomes the range of the tuples that extend
/// them.
pub open spec fn composite_range_of(predicate: Expr, table: Seq<char>, ids: Seq<ColumnId>) -> Detached {
    match gather(predicate, table, ids, 0, Seq::empty(), 0) {
        Err(f) => Err(f),
        Ok(g) => {
            let res = if g.res is None && g.eqs.len() > 0 {
                combined(g.eqs.last(), g.eqs.drop_last())
            } else {
                g.res
            };
            match res {
                Some(range) => if only_points(range) && g.count != ids.len() {
                    Ok(Some(eq_to_scope_of(range)))
                } else {
                    Ok(Some(range))
                },
                None => Ok(None),
            }
        },
    }
}

/// The range of an index that a predicate allows: for an index over one
/// column what the predicate allows that column, for a composite index its
/// composite range.
pub open spec fn index_range_of(predicate: Expr, meta: IndexMeta) -> Detached {
    match meta.ty {
        IndexType::PrimaryKey { is_multiple: true } | IndexType::Composite => composite_range_of(
            predicate,
            meta.table_name@,
            meta.column_ids@,
        ),
        _ => if meta.column_ids@.len() == 0 {
            Ok(None)
        } else {
            detach_of(predicate, meta.table_name@, meta.column_ids@[0])
        },
    }
}

fn eq_to_scope(range: Range) -> (r: Range)
    ensures
        r@ == eq_to_scope_of(range@),
    decreases range,
{
    match range {
        Range::Eq(DataValue::Tuple(values, up)) => {
            proof {
                lemma_tuple_view(values, up);
            }
            let mut copy: Vec<DataValue> = Vec::new();
            let mut i: usize = 0;
            while i < values.len()
                invariant
                    i <= values.len(),
                    copy.len() == i,
                    forall|k: int| 0 <= k < i ==> copy@[k]@ == values@[k]@,
                decreases values.len() - i,
            {
                copy.push(values[i].clone());
                i += 1;
            }
            proof {
                assert(value_models(copy@) =~= value_models(values@));
                lemma_tuple_view(copy, false);
                lemma_tuple_view(values, true);
            }
            Range::Scope {
                min: Bound::Excluded(DataValue::Tuple(copy, false)),
                max: Bound::Excluded(DataValue::Tuple(values, true)),
            }
        },
        Range::SortedRanges(ranges) => {
            proof {
                lemma_sorted_view(ranges);
            }
            let ghost rs = range_models(ranges@);
            let ghost orig = ranges@;
            let n: usize = ranges.len();
            let mut rest: Vec<Range> = Vec::new();
            let mut list = ranges;
            while list.len() > 0
                invariant
                    list.len() + rest.len() == n,
                    n == orig.len(),
                    forall|j: int| 0 <= j < list@.len() ==> #[trigger] list@[j] == orig[j],
                    forall|j: int| 0 <= j < rest@.len() ==> #[trigger] rest@[j] == orig[n - 1 - j],
                decreases list.len(),
            {
                match list.pop() {
                    Some(x) => rest.push(x),
                    None => {},
                }
            }
            let mut out: Vec<Range> = Vec::new();
            let mut i: usize = 0;
            while i < n
                invariant
                    i <= n == orig.len(),
                    rest.len() == n - i,
                    forall|j: int| 0 <= j < rest@.len() ==> #[trigger] rest@[j] == orig[n - 1 - j],
                    rs == range_models(orig),
                    range == Range::SortedRanges(range->SortedRanges_0),
                    range->SortedRanges_0@ == orig,
                    out.len() == i,
                    forall|j: int| 0 <= j < i ==> (#[trigger] out@[j])@ == eq_to_scope_of(rs[j]),
                decreases n - i,
            {
                match rest.pop() {
                    Some(x) => {
                        assert(x == orig[i as int]);
                        assert(rs[i as int] == x@);
                        assert(decreases_to!(range => range->SortedRanges_0));
                        assert(decreases_to!(range->SortedRanges_0 => range->SortedRanges_0@));
                        assert(decreases_to!(orig => orig[i as int]));
                        out.push(eq_to_scope(x));
                    },
                    None => {
                        out.push(Range::Dummy);
                    },
                }
                i += 1;
            }
            proof {
                lemma_sorted_view(out);
                reveal_with_fuel(eq_to_scope_of, 2);
                assert(range_models(out@) =~= eq_to_scope_of(range@)->SortedRanges_0);
            }
            Range::SortedRanges(out)
        },
        Range::Eq(v) => Range::Eq(v),
        Range::Scope { min, max } => Range::Scope { min, max },
        Range::Dummy => Range::Dummy,
    }
}

impl PushPredicateIntoScan {
    /// The range of a composite index that the filter allows.
    pub fn composite_range(op: &FilterOperator, meta: &IndexMeta) -> (r: Result<
        Option<Range>,
        DatabaseError,
    >)
        ensures
            detached_as(r, composite_range_of(op.predicate@, meta.table_name@, meta.column_ids@)),
    {
        let ghost p = op.predicate@;
        let ghost t = meta.table_name@;
        let ghost ids = meta.column_ids@;
        let ghost want = gather(p, t, ids, 0, Seq::empty(), 0);
        let mut res: Option<Range> = None;
        let mut eq_ranges: Vec<Range> = Vec::new();
        let mut apply_column_count: usize = 0;
        let mut k: usize = 0;
        let mut done: bool = false;
        assert(range_models(eq_ranges@) =~= Seq::<RangeModel>::empty());
        while k < meta.column_ids.len() && !done
            invariant
                k <= meta.column_ids@.len(),
                !done ==> apply_column_count <= k,
                apply_column_count <= k + 1,
                p == op.predicate@,
                t == meta.table_name@,
                ids == meta.column_ids@,
                want == gather(p, t, ids, 0, Seq::empty(), 0),
                !done ==> res is None && want == gather(
                    p,
                    t,
                    ids,
                    k as nat,
                    range_models(eq_ranges@),
                    apply_column_count as nat,
                ),
                done ==> want == Ok::<Gathered, CastFault>(
                    Gathered {
                        res: match res {
                            Some(x) => Some(x@),
                            None => None,
                        },
                        eqs: range_models(eq_ranges@),
                        count: apply_column_count as nat,
                    },
                ),
            decreases meta.column_ids@.len() - k + (if done { 0int } else { 1int }),
        {
            let column_id = &meta.column_ids[k];
            let mut detacher = RangeDetacher::new(meta.table_name.as_str(), column_id);
            match detacher.detach(&op.predicate) {
                Err(e) => {
                    return Err(e);
                },
                Ok(None) => {
                    done = true;
                },
                Ok(Some(range)) => {
                    apply_column_count += 1;
                    if range.only_eq() {
                        let ghost before = range_models(eq_ranges@);
                        eq_ranges.push(range);
                        assert(range_models(eq_ranges@) =~= before.push(range@));
                        k += 1;
                    } else {
                        res = range.combining_eqs(eq_ranges.as_slice());
                        done = true;
                    }
                },
            }
        }
        if res.is_none() {
            let ghost before = range_models(eq_ranges@);
            match eq_ranges.pop() {
                Some(range) => {
                    assert(range@ == before.last());
                    assert(range_models(eq_ranges@) =~= before.drop_last());
                    res = range.combining_eqs(eq_ranges.as_slice());
                },
                None => {},
            }
        }
        match res {
            Some(range) => {
                if range.only_eq() && apply_column_count != meta.column_ids.len() {
                    Ok(Some(eq_to_scope(range)))
                } else {
                    Ok(Some(range))
                }
            },
            None => Ok(None),
        }
    }

    /// The range of an index that the filter allows.
    pub fn index_range(op: &FilterOperator, meta: &IndexMeta) -> (r: Result<
        Option<Range>,
        DatabaseError,
    >)
        ensures
            detached_as(r, index_range_of(op.predicate@, *meta)),
    {
        match meta.ty {
            IndexType::PrimaryKey { is_multiple: true } | IndexType::Composite => {
                PushPredicateIntoScan::composite_range(op, meta)
            },
            _ => {
                if meta.column_ids.len() == 0 {
                    return Ok(None);
                }
                let mut detacher = RangeDetacher::new(
                    meta.table_name.as_str(),
                    &meta.column_ids[0],
                );
                detacher.detach(&op.predicate)
            },
        }
    }

    /// Gives every index of the scan that has no range yet the range that
    /// the filter allows it. Where a range cannot be worked out, the error
    /// comes back, the indexes before that one have their ranges and those
    /// from it on are as they were.
    pub fn apply(op: &FilterOperator, scan: &mut TableScanOperator) -> (r: Result<
        (),
        DatabaseError,
    >)
        ensures
            final(scan).index_infos@.len() == old(scan).index_infos@.len(),
            final(scan).table_name == old(scan).table_name,
            final(scan).columns == old(scan).columns,
            final(scan).primary_keys == old(scan).primary_keys,
            r is Ok ==> forall|i: int|
                0 <= i < old(scan).index_infos@.len() ==> installed(
                    op.predicate@,
                    #[trigger] old(scan).index_infos@[i],
                    final(scan).index_infos@[i],
                ),
            r matches Err(e) ==> exists|i: int|
                0 <= i < old(scan).index_infos@.len() && (#[trigger] old(
                    scan,
                ).index_infos@[i]).range is None && detached_as(
                    Err::<Option<Range>, DatabaseError>(e),
                    index_range_of(op.predicate@, old(scan).index_infos@[i].meta),
                ) && installed_before(
                    op.predicate@,
                    old(scan).index_infos@,
                    final(scan).index_infos@,
                    i,
                ),
    {
        let n: usize = scan.index_infos.len();
        let ghost before = scan.index_infos@;
        let mut i: usize = 0;
        while i < n
            invariant
                i <= n == before.len(),
                scan.index_infos@.len() == n,
                scan.table_name == old(scan).table_name,
                scan.columns == old(scan).columns,
                scan.primary_keys == old(scan).primary_keys,
                before == old(scan).index_infos@,
                forall|k: int|
                    0 <= k < i ==> installed(
                        op.predicate@,
                        #[trigger] before[k],
                        scan.index_infos@[k],
                    ),
                forall|k: int| i <= k < n ==> scan.index_infos@[k] == #[trigger] before[k],
            decreases n - i,
        {
            if scan.index_infos[i].range.is_none() {
                match PushPredicateIntoScan::index_range(op, &scan.index_infos[i].meta) {
                    Ok(range) => {
                        let meta = scan.index_infos[i].meta.clone();
                        scan.index_infos.set(i, IndexInfo { meta, range });
                    },
                    Err(e) => {
                        assert(scan.index_infos@[i as int] == before[i as int]);
                        assert(old(scan).index_infos@[i as int].range is None && detached_as(
                            Err::<Option<Range>, DatabaseError>(e),
                            index_range_of(op.predicate@, old(scan).index_infos@[i as int].meta),
                        ) && installed_before(
                            op.predicate@,
                            old(scan).index_infos@,
                            scan.index_infos@,
                            i as int,
                        ));
                        return Err(e);
                    },
                }
            }
            i += 1;
        }
        Ok(())
    }
}

/// Whether the indexes before position `i` have their ranges and those
/// from `i` on are as they were.
pub open spec fn installed_before(
    predicate: Expr,
    before: Seq<IndexInfo>,
    after: Seq<IndexInfo>,
    i: int,
) -> bool {
    &&& after.len() == before.len()
    &&& forall|k: int| 0 <= k < i && k < before.len() ==> installed(
        predicate,
        #[trigger] before[k],
        after[k],
    )
    &&& forall|k: int| i <= k < before.len() ==> after[k] == #[trigger] before[k]
}

/// Whether `after` is the index `before` with the range that the predicate
/// allows it, or `before` itself where it had a range.
pub open spec fn installed(predicate: Expr, before: IndexInfo, after: IndexInfo) -> bool {
    &&& same_meta(after.meta, before.meta)
    &&& before.range is Some ==> after == before
    &&& before.range is None ==> match index_range_of(predicate, before.meta) {
        Ok(Some(m)) => after.range matches Some(x) && x@ == m,
        Ok(None) => after.range is None,
        Err(_) => false,
    }
}

} // verus!
