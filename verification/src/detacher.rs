use crate::cast::{cast_of, is_cast_error, Cast, CastFault};
use crate::catalog::{ColumnModel, ColumnRef, RelationModel};
use crate::errors::DatabaseError;
use crate::expression::{
    column_of, constant_of, lemma_args_view, lemma_in_view, BinaryOperator, Expr, ScalarExpression,
};
use crate::range::{well_formed, Bound, BoundModel, Range, RangeModel};
use crate::range_merge::{lemma_merge_well_formed, merge, merge_binary};
use crate::types::ColumnId;
use crate::value::{type_of, DataValue, Value};
use vstd::prelude::*;

verus! {

/// Draws from a predicate what it allows one column of one table to be.
pub struct RangeDetacher<'a> {
    table_name: &'a str,
    column_id: &'a ColumnId,
}

/// What a predicate allows a column to be, nothing where it says nothing
/// that can be used, or the fault of a constant that cannot be brought to
/// the column's type.
pub type Detached = Result<Option<RangeModel>, CastFault>;

/// Whether a column is the column `column_id` of the table `table`.
pub open spec fn is_target(c: ColumnModel, table: Seq<char>, column_id: ColumnId) -> bool {
    c.relation matches RelationModel::Table { column_id: id, table_name, .. } && id == column_id
        && table_name == table
}

/// A comparison read from the other side.
pub open spec fn flipped(op: BinaryOperator) -> BinaryOperator {
    match op {
        BinaryOperator::Gt => BinaryOperator::Lt,
        BinaryOperator::Lt => BinaryOperator::Gt,
        BinaryOperator::GtEq => BinaryOperator::LtEq,
        BinaryOperator::LtEq => BinaryOperator::GtEq,
        other => other,
    }
}

/// The range of a comparison of a column with a value: above, below, from,
/// up to, or exactly the value; nothing for any other operator.
pub open spec fn range_of_op(op: BinaryOperator, val: Value) -> Option<RangeModel> {
    match op {
        BinaryOperator::Gt => Some(
            RangeModel::Scope { min: BoundModel::Excluded(val), max: BoundModel::Unbounded },
        ),
        BinaryOperator::Lt => Some(
            RangeModel::Scope { min: BoundModel::Unbounded, max: BoundModel::Excluded(val) },
        ),
        BinaryOperator::GtEq => Some(
            RangeModel::Scope { min: BoundModel::Included(val), max: BoundModel::Unbounded },
        ),
        BinaryOperator::LtEq => Some(
            RangeModel::Scope { min: BoundModel::Unbounded, max: BoundModel::Included(val) },
        ),
        BinaryOperator::Eq | BinaryOperator::Spaceship => Some(RangeModel::Eq(val)),
        _ => None,
    }
}

/// The range of the comparison `col op val`, or `val op col` with
/// `is_flip`: nothing where the column is not the target; else the range of
/// the operator at the value brought to the column's type.
pub open spec fn new_range_of(
    op: BinaryOperator,
    col: ColumnModel,
    val: Value,
    is_flip: bool,
    table: Seq<char>,
    column_id: ColumnId,
) -> Detached {
    if !is_target(col, table, column_id) {
        Ok(None)
    } else {
        let typed = if type_of(val) != col.datatype {
            cast_of(val, col.datatype)
        } else {
            Cast::Done(val)
        };
        match typed {
            Cast::Done(v) => Ok(
                range_of_op(
                    if is_flip {
                        flipped(op)
                    } else {
                        op
                    },
                    v,
                ),
            ),
            Cast::Fault(f) => Err(f),
        }
    }
}

/// What two sides of a binary expression allow together. Two ranges are
/// combined under the operator. Where neither side gives a range, the
/// expression may be a comparison of a column with a constant. Where only
/// one side gives a range, it holds under `And`; under every other operator
/// nothing is known, as the other side may let anything through.
pub open spec fn detach_binary(
    op: BinaryOperator,
    left: Expr,
    right: Expr,
    l: Option<RangeModel>,
    r: Option<RangeModel>,
    table: Seq<char>,
    column_id: ColumnId,
) -> Detached {
    match (l, r) {
        (Some(a), Some(b)) => Ok(merge(op, a, b)),
        (None, None) => match (column_of(left, false), constant_of(right)) {
            (Some(col), Some(val)) => new_range_of(op, col, val, false, table, column_id),
            _ => match (constant_of(left), column_of(right, false)) {
                (Some(val), Some(col)) => new_range_of(op, col, val, true, table, column_id),
                _ => Ok(None),
            },
        },
        (Some(b), None) => if op is And {
            Ok(Some(b))
        } else {
            Ok(None)
        },
        (None, Some(b)) => if op is And {
            Ok(Some(b))
        } else {
            Ok(None)
        },
    }
}

/// What a predicate allows the column `column_id` of `table` to be.
/// Comparisons of the column with constants give ranges, `IS NULL` gives
/// the null value, and `AND` and `OR` combine what their sides give.
/// Aliases are looked through. Everything else gives nothing: `IS NOT
/// NULL`, `!=`, negations and other unary operators, casts, membership and
/// between tests, null tests of anything but a column, and every expression
/// that does not speak of the column.
pub open spec fn detach_of(e: Expr, table: Seq<char>, column_id: ColumnId) -> Detached
    decreases e,
{
    match e {
        Expr::Binary { op, left_expr, right_expr, .. } => match detach_of(
            *left_expr,
            table,
            column_id,
        ) {
            Ok(l) => match detach_of(*right_expr, table, column_id) {
                Ok(r) => detach_binary(op, *left_expr, *right_expr, l, r, table, column_id),
                Err(f) => Err(f),
            },
            Err(f) => Err(f),
        },
        Expr::Alias { expr, .. } => detach_of(*expr, table, column_id),
        Expr::IsNull { negated, expr } => match *expr {
            Expr::ColumnRef(c) => if is_target(c, table, column_id) && !negated {
                Ok(Some(RangeModel::Eq(Value::Null)))
            } else {
                Ok(None)
            },
            _ => Ok(None),
        },
        _ => Ok(None),
    }
}

/// Normal form of what is detached: every range that a predicate gives is
/// in normal form, a list of ranges holds at least two and no list.
pub proof fn lemma_detach_well_formed(e: Expr, table: Seq<char>, column_id: ColumnId)
    ensures
        detach_of(e, table, column_id) matches Ok(Some(r)) ==> well_formed(r),
    decreases e,
{
    match e {
        Expr::Binary { op, left_expr, right_expr, .. } => {
            lemma_detach_well_formed(*left_expr, table, column_id);
            lemma_detach_well_formed(*right_expr, table, column_id);
            match (detach_of(*left_expr, table, column_id), detach_of(*right_expr, table, column_id)) {
                (Ok(Some(a)), Ok(Some(b))) => {
                    lemma_merge_well_formed(op, a, b);
                },
                _ => {},
            }
        },
        Expr::Alias { expr, .. } => lemma_detach_well_formed(*expr, table, column_id),
        _ => {},
    }
}

/// Whether what was detached is what the model says.
pub open spec fn detached_as(r: Result<Option<Range>, DatabaseError>, want: Detached) -> bool {
    match want {
        Ok(Some(m)) => r matches Ok(Some(x)) && x@ == m,
        Ok(None) => r matches Ok(None),
        Err(f) => r matches Err(e) && is_cast_error(e, f),
    }
}

impl<'a> RangeDetacher<'a> {
    /// A detacher for the column `column_id` of `table_name`.
    pub fn new(table_name: &'a str, column_id: &'a ColumnId) -> (r: Self)
        ensures
            r.table() == table_name@,
            r.column() == *column_id,
    {
        Self { table_name, column_id }
    }

    /// The name of the table.
    pub closed spec fn table(&self) -> Seq<char> {
        self.table_name@
    }

    /// The id of the column.
    pub closed spec fn column(&self) -> ColumnId {
        *self.column_id
    }

    /// What `expr` allows the column to be. The range is in normal form.
    pub fn detach(&mut self, expr: &ScalarExpression) -> (r: Result<Option<Range>, DatabaseError>)
        ensures
            detached_as(r, detach_of(expr@, old(self).table(), old(self).column())),
            r matches Ok(Some(x)) ==> well_formed(x@),
            final(self).table() == old(self).table(),
            final(self).column() == old(self).column(),
        decreases expr,
    {
        proof {
            lemma_detach_well_formed(expr@, self.table(), self.column());
        }
        let ghost want = detach_of(expr@, self.table(), self.column());
        match expr {
            ScalarExpression::Binary { left_expr, right_expr, op, .. } => {
                let left = match self.detach(left_expr) {
                    Ok(l) => l,
                    Err(e) => {
                        return Err(e);
                    },
                };
                let right = match self.detach(right_expr) {
                    Ok(r) => r,
                    Err(e) => {
                        return Err(e);
                    },
                };
                match (left, right) {
                    (Some(left_binary), Some(right_binary)) => {
                        let out = Ok(merge_binary(*op, left_binary, right_binary));
                        assert(detached_as(out, want));
                        out
                    },
                    (None, None) => {
                        match (left_expr.unpack_col(false), right_expr.unpack_val()) {
                            (Some(col), Some(val)) => {
                                return self.new_range(*op, col, val, false);
                            },
                            _ => {},
                        }
                        match (left_expr.unpack_val(), right_expr.unpack_col(false)) {
                            (Some(val), Some(col)) => {
                                return self.new_range(*op, col, val, true);
                            },
                            _ => {},
                        }
                        let out = Ok(None);
                        assert(detached_as(out, want));
                        out
                    },
                    (Some(binary), None) => {
                        let out = Ok(self.check_or(op, binary));
                        assert(detached_as(out, want));
                        out
                    },
                    (None, Some(binary)) => {
                        let out = Ok(self.check_or(op, binary));
                        assert(detached_as(out, want));
                        out
                    },
                }
            },
            ScalarExpression::Alias { expr, .. } => {
                let out = self.detach(expr);
                assert(detached_as(out, want));
                out
            },
            ScalarExpression::In { negated, expr, args } => {
                proof {
                    lemma_in_view(*negated, *expr, *args);
                }
                Ok(None)
            },
            ScalarExpression::IsNull { expr, negated } => {
                let inner: &ScalarExpression = expr;
                match inner {
                    ScalarExpression::ColumnRef(column) => {
                        assert(inner@ == Expr::ColumnRef(column@));
                        if Self::_is_belong(self.table_name, column) && Self::has_id(
                            column,
                            *self.column_id,
                        ) && !*negated {
                            let out = Ok(Some(Range::Eq(DataValue::Null)));
                            assert(detached_as(out, want));
                            out
                        } else {
                            let out = Ok(None);
                            assert(detached_as(out, want));
                            out
                        }
                    },
                    ScalarExpression::Tuple(args) => {
                        proof {
                            lemma_args_view(*args);
                        }
                        let out = Ok(None);
                        assert(detached_as(out, want));
                        out
                    },
                    ScalarExpression::In { negated, expr, args } => {
                        proof {
                            lemma_in_view(*negated, *expr, *args);
                        }
                        Ok(None)
                    },
                    _ => Ok(None),
                }
            },
            ScalarExpression::Tuple(args) => {
                proof {
                    lemma_args_view(*args);
                }
                Ok(None)
            },
            _ => Ok(None),
        }
    }

    /// Whether the column belongs to the table `table_name`.
    pub fn _is_belong(table_name: &str, col: &ColumnRef) -> (r: bool)
        ensures
            r == (col@.relation matches RelationModel::Table { table_name: t, .. } && t
                == table_name@),
    {
        match col.table_name() {
            Some(name) => same_text(table_name, name.as_str()),
            None => false,
        }
    }

    fn has_id(col: &ColumnRef, column_id: ColumnId) -> (r: bool)
        ensures
            r == (col@.relation matches RelationModel::Table { column_id: id, .. } && id
                == column_id),
    {
        match col.id() {
            Some(id) => id == column_id,
            None => false,
        }
    }

    fn new_range(&mut self, op: BinaryOperator, col: ColumnRef, val: DataValue, is_flip: bool) -> (r:
        Result<Option<Range>, DatabaseError>)
        ensures
            detached_as(
                r,
                new_range_of(op, col@, val@, is_flip, old(self).table(), old(self).column()),
            ),
            final(self).table() == old(self).table(),
            final(self).column() == old(self).column(),
    {
        if !Self::_is_belong(self.table_name, &col) || !Self::has_id(&col, *self.column_id) {
            return Ok(None);
        }
        let mut val = val;
        if !val.logical_type().eq(col.datatype()) {
            val = match val.cast(col.datatype()) {
                Ok(v) => v,
                Err(e) => {
                    return Err(e);
                },
            };
        }
        let mut op = op;
        if is_flip {
            op = match op {
                BinaryOperator::Gt => BinaryOperator::Lt,
                BinaryOperator::Lt => BinaryOperator::Gt,
                BinaryOperator::GtEq => BinaryOperator::LtEq,
                BinaryOperator::LtEq => BinaryOperator::GtEq,
                source_op => source_op,
            };
        }
        Ok(
            match op {
                BinaryOperator::Gt => Some(
                    Range::Scope { min: Bound::Excluded(val), max: Bound::Unbounded },
                ),
                BinaryOperator::Lt => Some(
                    Range::Scope { min: Bound::Unbounded, max: Bound::Excluded(val) },
                ),
                BinaryOperator::GtEq => Some(
                    Range::Scope { min: Bound::Included(val), max: Bound::Unbounded },
                ),
                BinaryOperator::LtEq => Some(
                    Range::Scope { min: Bound::Unbounded, max: Bound::Included(val) },
                ),
                BinaryOperator::Eq | BinaryOperator::Spaceship => Some(Range::Eq(val)),
                _ => None,
            },
        )
    }

    /// A range that only one side of `op` gives: it holds under `And`;
    /// under every other operator it says nothing, as in `c1 > c2 or c1 > 1`.
    fn check_or(&mut self, op: &BinaryOperator, binary: Range) -> (r: Option<Range>)
        ensures
            *op is And ==> r == Some(binary),
            !(*op is And) ==> r is None,
            final(self).table() == old(self).table(),
            final(self).column() == old(self).column(),
    {
        match op {
            BinaryOperator::And => Some(binary),
            _ => None,
        }
    }
}

/// Whether two texts are the same.
pub fn same_text(a: &str, b: &str) -> (r: bool)
    ensures
        r == (a@ == b@),
{
    let x = a.to_owned();
    let y = b.to_owned();
    x.eq(&y)
}

} // verus!
