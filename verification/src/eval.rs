use crate::cast::{cast_of, is_cast_error, Cast, CastFault};
use crate::catalog::{column_models, same_column, ColumnModel, ColumnRef};
use crate::decimal::ValueOrder;
use crate::errors::DatabaseError;
use crate::expression::{
    expr_models, lemma_args_view, lemma_in_view, BinaryOperator, Expr, ScalarExpression,
    UnaryOperator,
};
use crate::tuple::Tuple;
use crate::value::{value_models, value_order, DataValue, Value};
use vstd::prelude::*;

verus! {

/// Why an expression has no value.
pub enum EvalFault {
    /// An operand has a type that the operator does not take.
    InvalidType,
    /// The expression is of a form that is not evaluated here.
    Unsupported,
    /// A conversion inside the expression failed.
    Cast(CastFault),
}

/// What evaluating an expression comes to.
pub type Evaluated = Result<Value, EvalFault>;

/// Whether `e` is the error that stands for the fault `f`.
pub open spec fn is_eval_error(e: DatabaseError, f: EvalFault) -> bool {
    match f {
        EvalFault::InvalidType => e is InvalidType,
        EvalFault::Unsupported => e is UnsupportedStmt,
        EvalFault::Cast(c) => is_cast_error(e, c),
    }
}

/// Whether an exec result is what the model says.
pub open spec fn evaluated_as(r: Result<DataValue, DatabaseError>, want: Evaluated) -> bool {
    match want {
        Ok(v) => r matches Ok(x) && x@ == v,
        Err(f) => r matches Err(e) && is_eval_error(e, f),
    }
}

/// The first position from `from` on at which the schema holds the column.
pub open spec fn position_of(schema: Seq<ColumnModel>, c: ColumnModel, from: nat) -> Option<nat>
    decreases schema.len() - from,
{
    if from >= schema.len() {
        None
    } else if same_column(schema[from as int], c) {
        Some(from)
    } else {
        position_of(schema, c, from + 1)
    }
}

/// Whether a comparison holds of two values that stand in the order `o`.
pub open spec fn holds(op: BinaryOperator, o: ValueOrder) -> bool {
    match op {
        BinaryOperator::Gt => o is Greater,
        BinaryOperator::Lt => o is Less,
        BinaryOperator::GtEq => !(o is Less),
        BinaryOperator::LtEq => !(o is Greater),
        BinaryOperator::Eq => o is Equal,
        _ => !(o is Equal),
    }
}

/// Whether an operator compares two values.
pub open spec fn is_comparison(op: BinaryOperator) -> bool {
    op is Gt || op is Lt || op is GtEq || op is LtEq || op is Eq || op is NotEq
}

/// The value of a binary operator at two values. A comparison with null is
/// null; values without an order cannot be compared. `And` and `Or` follow
/// three-valued logic: false wins under `And`, true under `Or`, and null
/// stands where neither decides. Other operators are not evaluated here.
pub open spec fn binary_of(op: BinaryOperator, a: Value, b: Value) -> Evaluated {
    if is_comparison(op) {
        if a is Null || b is Null {
            Ok(Value::Null)
        } else {
            match value_order(a, b) {
                Some(o) => Ok(Value::Boolean(holds(op, o))),
                None => Err(EvalFault::InvalidType),
            }
        }
    } else if op is And {
        match (a, b) {
            (Value::Boolean(x), Value::Boolean(y)) => Ok(Value::Boolean(x && y)),
            (Value::Boolean(false), Value::Null) => Ok(Value::Boolean(false)),
            (Value::Null, Value::Boolean(false)) => Ok(Value::Boolean(false)),
            (Value::Boolean(true), Value::Null) => Ok(Value::Null),
            (Value::Null, Value::Boolean(true)) => Ok(Value::Null),
            (Value::Null, Value::Null) => Ok(Value::Null),
            _ => Err(EvalFault::InvalidType),
        }
    } else if op is Or {
        match (a, b) {
            (Value::Boolean(x), Value::Boolean(y)) => Ok(Value::Boolean(x || y)),
            (Value::Boolean(true), Value::Null) => Ok(Value::Boolean(true)),
            (Value::Null, Value::Boolean(true)) => Ok(Value::Boolean(true)),
            (Value::Boolean(false), Value::Null) => Ok(Value::Null),
            (Value::Null, Value::Boolean(false)) => Ok(Value::Null),
            (Value::Null, Value::Null) => Ok(Value::Null),
            _ => Err(EvalFault::InvalidType),
        }
    } else {
        Err(EvalFault::Unsupported)
    }
}

/// The value of an expression at a row with the given columns. A column
/// reference is the row's value at the first position where the schema
/// holds that column, null where it holds it nowhere. Constants, aliases,
/// casts, null tests, `NOT`, comparisons, `AND` and `OR` are evaluated;
/// other forms are not.
pub open spec fn eval_of(e: Expr, row: Seq<Value>, schema: Seq<ColumnModel>) -> Evaluated
    decreases e,
{
    match e {
        Expr::Constant(v) => Ok(v),
        Expr::ColumnRef(c) => match position_of(schema, c, 0) {
            Some(i) => if i < row.len() {
                Ok(row[i as int])
            } else {
                Ok(Value::Null)
            },
            None => Ok(Value::Null),
        },
        Expr::Alias { expr, .. } => eval_of(*expr, row, schema),
        Expr::TypeCast { expr, ty } => match eval_of(*expr, row, schema) {
            Ok(v) => match cast_of(v, ty) {
                Cast::Done(x) => Ok(x),
                Cast::Fault(f) => Err(EvalFault::Cast(f)),
            },
            Err(f) => Err(f),
        },
        Expr::IsNull { negated, expr } => match eval_of(*expr, row, schema) {
            Ok(v) => Ok(Value::Boolean((v is Null) != negated)),
            Err(f) => Err(f),
        },
        Expr::Unary { op, expr, .. } => match eval_of(*expr, row, schema) {
            Ok(v) => if op is Not {
                match v {
                    Value::Boolean(b) => Ok(Value::Boolean(!b)),
                    Value::Null => Ok(Value::Null),
                    _ => Err(EvalFault::InvalidType),
                }
            } else {
                Err(EvalFault::Unsupported)
            },
            Err(f) => Err(f),
        },
        Expr::Binary { op, left_expr, right_expr, .. } => match eval_of(*left_expr, row, schema) {
            Ok(a) => match eval_of(*right_expr, row, schema) {
                Ok(b) => binary_of(op, a, b),
                Err(f) => Err(f),
            },
            Err(f) => Err(f),
        },
        _ => Err(EvalFault::Unsupported),
    }
}

/// The values of the first `n` expressions at a row; the first fault where
/// one of them has no value.
pub open spec fn project_of(
    exprs: Seq<Expr>,
    row: Seq<Value>,
    schema: Seq<ColumnModel>,
    n: nat,
) -> Result<Seq<Value>, EvalFault>
    decreases n,
{
    if n == 0 || n > exprs.len() {
        Ok(Seq::empty())
    } else {
        match project_of(exprs, row, schema, (n - 1) as nat) {
            Ok(done) => match eval_of(exprs[n - 1], row, schema) {
                Ok(v) => Ok(done.push(v)),
                Err(f) => Err(f),
            },
            Err(f) => Err(f),
        }
    }
}

/// Once an expression has no value, the projection has none.
pub proof fn lemma_project_fails(
    exprs: Seq<Expr>,
    row: Seq<Value>,
    schema: Seq<ColumnModel>,
    k: nat,
    n: nat,
)
    requires
        0 < k <= n <= exprs.len(),
        project_of(exprs, row, schema, k) is Err,
    ensures
        project_of(exprs, row, schema, n) == project_of(exprs, row, schema, k),
    decreases n - k,
{
    if k < n {
        lemma_project_fails(exprs, row, schema, k, (n - 1) as nat);
    }
}

fn find_position(schema: &[ColumnRef], col: &ColumnRef) -> (r: Option<usize>)
    ensures
        match position_of(column_models(schema@), col@, 0) {
            Some(i) => r matches Some(x) && x == i && i < schema@.len(),
            None => r is None,
        },
{
    let ghost models = column_models(schema@);
    let mut i: usize = 0;
    while i < schema.len()
        invariant
            i <= schema@.len(),
            models == column_models(schema@),
            position_of(models, col@, 0) == position_of(models, col@, i as nat),
        decreases schema@.len() - i,
    {
        assert(models[i as int] == schema@[i as int]@);
        if schema[i].eq(col) {
            return Some(i);
        }
        i += 1;
    }
    None
}

fn binary_eval(op: BinaryOperator, a: &DataValue, b: &DataValue) -> (r: Result<
    DataValue,
    DatabaseError,
>)
    ensures
        evaluated_as(r, binary_of(op, a@, b@)),
{
    match op {
        BinaryOperator::Gt
        | BinaryOperator::Lt
        | BinaryOperator::GtEq
        | BinaryOperator::LtEq
        | BinaryOperator::Eq
        | BinaryOperator::NotEq => {
            if a.is_null() || b.is_null() {
                return Ok(DataValue::Null);
            }
            match a.compare(b) {
                Some(o) => {
                    let truth: bool = match (op, o) {
                        (BinaryOperator::Gt, ValueOrder::Greater) => true,
                        (BinaryOperator::Gt, _) => false,
                        (BinaryOperator::Lt, ValueOrder::Less) => true,
                        (BinaryOperator::Lt, _) => false,
                        (BinaryOperator::GtEq, ValueOrder::Less) => false,
                        (BinaryOperator::GtEq, _) => true,
                        (BinaryOperator::LtEq, ValueOrder::Greater) => false,
                        (BinaryOperator::LtEq, _) => true,
                        (BinaryOperator::Eq, ValueOrder::Equal) => true,
                        (BinaryOperator::Eq, _) => false,
                        (_, ValueOrder::Equal) => false,
                        (_, _) => true,
                    };
                    Ok(DataValue::Boolean(truth))
                },
                None => Err(DatabaseError::InvalidType),
            }
        },
        BinaryOperator::And => match (a, b) {
            (DataValue::Boolean(x), DataValue::Boolean(y)) => Ok(DataValue::Boolean(*x && *y)),
            (DataValue::Boolean(false), DataValue::Null) => Ok(DataValue::Boolean(false)),
            (DataValue::Null, DataValue::Boolean(false)) => Ok(DataValue::Boolean(false)),
            (DataValue::Boolean(true), DataValue::Null) => Ok(DataValue::Null),
            (DataValue::Null, DataValue::Boolean(true)) => Ok(DataValue::Null),
            (DataValue::Null, DataValue::Null) => Ok(DataValue::Null),
            _ => Err(DatabaseError::InvalidType),
        },
        BinaryOperator::Or => match (a, b) {
            (DataValue::Boolean(x), DataValue::Boolean(y)) => Ok(DataValue::Boolean(*x || *y)),
            (DataValue::Boolean(true), DataValue::Null) => Ok(DataValue::Boolean(true)),
            (DataValue::Null, DataValue::Boolean(true)) => Ok(DataValue::Boolean(true)),
            (DataValue::Boolean(false), DataValue::Null) => Ok(DataValue::Null),
            (DataValue::Null, DataValue::Boolean(false)) => Ok(DataValue::Null),
            (DataValue::Null, DataValue::Null) => Ok(DataValue::Null),
            _ => Err(DatabaseError::InvalidType),
        },
        _ => Err(DatabaseError::UnsupportedStmt("operator".to_string())),
    }
}

impl ScalarExpression {
    /// The value of the expression at the row `values` with the columns
    /// `schema`.
    pub fn eval(&self, values: &[DataValue], schema: &[ColumnRef]) -> (r: Result<
        DataValue,
        DatabaseError,
    >)
        ensures
            evaluated_as(r, eval_of(self@, value_models(values@), column_models(schema@))),
        decreases self,
    {
        let ghost want = eval_of(self@, value_models(values@), column_models(schema@));
        match self {
            ScalarExpression::Constant(val) => {
                let out = Ok(val.clone());
                assert(evaluated_as(out, want));
                out
            },
            ScalarExpression::ColumnRef(col) => {
                let out = match find_position(schema, col) {
                    Some(i) => if i < values.len() {
                        assert(value_models(values@)[i as int] == values@[i as int]@);
                        Ok(values[i].clone())
                    } else {
                        Ok(DataValue::Null)
                    },
                    None => Ok(DataValue::Null),
                };
                assert(evaluated_as(out, want));
                out
            },
            ScalarExpression::Alias { expr, .. } => {
                let out = expr.eval(values, schema);
                assert(evaluated_as(out, want));
                out
            },
            ScalarExpression::TypeCast { expr, ty } => {
                match expr.eval(values, schema) {
                    Ok(v) => {
                        let out = v.cast(ty);
                        assert(evaluated_as(out, want));
                        out
                    },
                    Err(e) => Err(e),
                }
            },
            ScalarExpression::IsNull { negated, expr } => {
                let out = match expr.eval(values, schema) {
                    Ok(v) => Ok(DataValue::Boolean(v.is_null() != *negated)),
                    Err(e) => Err(e),
                };
                assert(evaluated_as(out, want));
                out
            },
            ScalarExpression::Unary { op, expr, .. } => {
                let out = match expr.eval(values, schema) {
                    Ok(v) => match op {
                        UnaryOperator::Not => match v {
                            DataValue::Boolean(b) => Ok(DataValue::Boolean(!b)),
                            DataValue::Null => Ok(DataValue::Null),
                            DataValue::Tuple(vs, up) => {
                                proof {
                                    crate::value::lemma_tuple_view(vs, up);
                                }
                                Err(DatabaseError::InvalidType)
                            },
                            _ => Err(DatabaseError::InvalidType),
                        },
                        _ => Err(DatabaseError::UnsupportedStmt("operator".to_string())),
                    },
                    Err(e) => Err(e),
                };
                assert(evaluated_as(out, want));
                out
            },
            ScalarExpression::Binary { op, left_expr, right_expr, .. } => {
                let left = match left_expr.eval(values, schema) {
                    Ok(v) => v,
                    Err(e) => {
                        return Err(e);
                    },
                };
                let right = match right_expr.eval(values, schema) {
                    Ok(v) => v,
                    Err(e) => {
                        return Err(e);
                    },
                };
                let out = binary_eval(*op, &left, &right);
                assert(evaluated_as(out, want));
                out
            },
            ScalarExpression::In { negated, expr, args } => {
                proof {
                    lemma_in_view(*negated, *expr, *args);
                }
                Err(DatabaseError::UnsupportedStmt("expression".to_string()))
            },
            ScalarExpression::Tuple(args) => {
                proof {
                    lemma_args_view(*args);
                }
                Err(DatabaseError::UnsupportedStmt("expression".to_string()))
            },
            _ => {
                let out = Err(DatabaseError::UnsupportedStmt("expression".to_string()));
                assert(evaluated_as(out, want));
                out
            },
        }
    }
}

/// Computes each row's expressions.
#[derive(Debug)]
pub struct Projection {
    pub exprs: Vec<ScalarExpression>,
}

/// The rows that an operator has handed out, and the error that ended it,
/// if one did.
#[derive(Debug)]
pub struct Produced {
    pub tuples: Vec<Tuple>,
    pub error: Option<DatabaseError>,
}

impl Projection {
    /// The values of `exprs` at the row `tuple`.
    pub fn projection(tuple: &Tuple, exprs: &[ScalarExpression], schema: &[ColumnRef]) -> (r:
        Result<Vec<DataValue>, DatabaseError>)
        ensures
            match project_of(
                expr_models(exprs@),
                tuple@.values,
                column_models(schema@),
                exprs@.len(),
            ) {
                Ok(vs) => r matches Ok(x) && value_models(x@) == vs,
                Err(f) => r matches Err(e) && is_eval_error(e, f),
            },
    {
        let ghost es = expr_models(exprs@);
        let ghost row = tuple@.values;
        let ghost cols = column_models(schema@);
        let mut values: Vec<DataValue> = Vec::new();
        let mut i: usize = 0;
        assert(value_models(values@) =~= Seq::<Value>::empty());
        while i < exprs.len()
            invariant
                i <= exprs@.len(),
                es == expr_models(exprs@),
                row == tuple@.values,
                cols == column_models(schema@),
                project_of(es, row, cols, i as nat) == Ok::<Seq<Value>, EvalFault>(
                    value_models(values@),
                ),
            decreases exprs@.len() - i,
        {
            assert(es[i as int] == exprs@[i as int]@);
            let ghost before = value_models(values@);
            match exprs[i].eval(tuple.values.as_slice(), schema) {
                Ok(v) => {
                    values.push(v);
                    assert(value_models(values@) =~= before.push(v@));
                },
                Err(e) => {
                    proof {
                        lemma_project_fails(es, row, cols, (i + 1) as nat, exprs@.len());
                    }
                    return Err(e);
                },
            }
            i += 1;
        }
        Ok(values)
    }
}

} // verus!
