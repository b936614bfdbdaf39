use crate::catalog::{ColumnModel, ColumnRef};
use crate::types::{LogicalType, TypeModel};
use crate::value::{DataValue, Value};
use vstd::prelude::*;

verus! {

/// The operators with one operand.
#[derive(Debug, Clone, Copy, PartialEq, Eq, Structural)]
pub enum UnaryOperator {
    Plus,
    Minus,
    Not,
}

/// The operators with two operands.
#[derive(Debug, Clone, Copy, PartialEq, Eq, Structural)]
pub enum BinaryOperator {
    Plus,
    Minus,
    Multiply,
    Divide,
    Modulo,
    StringConcat,
    Gt,
    Lt,
    GtEq,
    LtEq,
    Spaceship,
    Eq,
    NotEq,
    And,
    Or,
    Xor,
}

/// A scalar expression over the columns of a row.
#[derive(Debug)]
#[allow(inconsistent_fields)]
pub enum ScalarExpression {
    Constant(DataValue),
    ColumnRef(ColumnRef),
    Alias { expr: Box<ScalarExpression>, alias: String },
    TypeCast { expr: Box<ScalarExpression>, ty: LogicalType },
    IsNull { negated: bool, expr: Box<ScalarExpression> },
    Unary { op: UnaryOperator, expr: Box<ScalarExpression>, ty: LogicalType },
    Binary {
        op: BinaryOperator,
        left_expr: Box<ScalarExpression>,
        right_expr: Box<ScalarExpression>,
        ty: LogicalType,
    },
    In { negated: bool, expr: Box<ScalarExpression>, args: Vec<ScalarExpression> },
    Between {
        negated: bool,
        expr: Box<ScalarExpression>,
        left_expr: Box<ScalarExpression>,
        right_expr: Box<ScalarExpression>,
    },
    If {
        condition: Box<ScalarExpression>,
        left_expr: Box<ScalarExpression>,
        right_expr: Box<ScalarExpression>,
        ty: LogicalType,
    },
    Tuple(Vec<ScalarExpression>),
}

/// Mathematical model of a [`ScalarExpression`].
#[allow(inconsistent_fields)]
pub enum Expr {
    Constant(Value),
    ColumnRef(ColumnModel),
    Alias { expr: Box<Expr>, alias: Seq<char> },
    TypeCast { expr: Box<Expr>, ty: TypeModel },
    IsNull { negated: bool, expr: Box<Expr> },
    Unary { op: UnaryOperator, expr: Box<Expr>, ty: TypeModel },
    Binary { op: BinaryOperator, left_expr: Box<Expr>, right_expr: Box<Expr>, ty: TypeModel },
    In { negated: bool, expr: Box<Expr>, args: Seq<Expr> },
    Between { negated: bool, expr: Box<Expr>, left_expr: Box<Expr>, right_expr: Box<Expr> },
    If { condition: Box<Expr>, left_expr: Box<Expr>, right_expr: Box<Expr>, ty: TypeModel },
    Tuple(Seq<Expr>),
}

/// The model of one expression.
pub open spec fn expr_model(e: ScalarExpression) -> Expr
    decreases e,
{
    match e {
        ScalarExpression::Constant(v) => Expr::Constant(v@),
        ScalarExpression::ColumnRef(c) => Expr::ColumnRef(c@),
        ScalarExpression::Alias { expr, alias } => Expr::Alias {
            expr: Box::new(expr_model(*expr)),
            alias: alias@,
        },
        ScalarExpression::TypeCast { expr, ty } => Expr::TypeCast {
            expr: Box::new(expr_model(*expr)),
            ty: ty@,
        },
        ScalarExpression::IsNull { negated, expr } => Expr::IsNull {
            negated,
            expr: Box::new(expr_model(*expr)),
        },
        ScalarExpression::Unary { op, expr, ty } => Expr::Unary {
            op,
            expr: Box::new(expr_model(*expr)),
            ty: ty@,
        },
        ScalarExpression::Binary { op, left_expr, right_expr, ty } => Expr::Binary {
            op,
            left_expr: Box::new(expr_model(*left_expr)),
            right_expr: Box::new(expr_model(*right_expr)),
            ty: ty@,
        },
        ScalarExpression::In { negated, expr, args } => Expr::In {
            negated,
            expr: Box::new(expr_model(*expr)),
            args: Seq::new(
                args@.len(),
                |i: int|
                    if 0 <= i < args@.len() {
                        expr_model(args@[i])
                    } else {
                        Expr::Tuple(Seq::empty())
                    },
            ),
        },
        ScalarExpression::Between { negated, expr, left_expr, right_expr } => Expr::Between {
            negated,
            expr: Box::new(expr_model(*expr)),
            left_expr: Box::new(expr_model(*left_expr)),
            right_expr: Box::new(expr_model(*right_expr)),
        },
        ScalarExpression::If { condition, left_expr, right_expr, ty } => Expr::If {
            condition: Box::new(expr_model(*condition)),
            left_expr: Box::new(expr_model(*left_expr)),
            right_expr: Box::new(expr_model(*right_expr)),
            ty: ty@,
        },
        ScalarExpression::Tuple(args) => Expr::Tuple(
            Seq::new(
                args@.len(),
                |i: int|
                    if 0 <= i < args@.len() {
                        expr_model(args@[i])
                    } else {
                        Expr::Tuple(Seq::empty())
                    },
            ),
        ),
    }
}

impl View for ScalarExpression {
    type V = Expr;

    open spec fn view(&self) -> Expr {
        expr_model(*self)
    }
}

/// The models of a run of expressions, position by position.
pub open spec fn expr_models(es: Seq<ScalarExpression>) -> Seq<Expr> {
    Seq::new(es.len(), |i: int| es[i]@)
}

/// A list of expressions is modelled by the models of its members.
pub proof fn lemma_args_view(args: Vec<ScalarExpression>)
    ensures
        ScalarExpression::Tuple(args)@ == Expr::Tuple(expr_models(args@)),
{
    reveal_with_fuel(expr_model, 2);
    let t = ScalarExpression::Tuple(args);
    assert(t@->Tuple_0 =~= expr_models(args@));
}

/// A membership test is modelled by the models of its parts.
pub proof fn lemma_in_view(negated: bool, expr: Box<ScalarExpression>, args: Vec<ScalarExpression>)
    ensures
        (ScalarExpression::In { negated, expr, args })@ == (Expr::In {
            negated,
            expr: Box::new((*expr)@),
            args: expr_models(args@),
        }),
{
    reveal_with_fuel(expr_model, 2);
    let e = ScalarExpression::In { negated, expr, args };
    assert(e@->In_args =~= expr_models(args@));
}

/// The column that an expression names; with `is_deep`, looking through
/// aliases.
pub open spec fn column_of(e: Expr, is_deep: bool) -> Option<ColumnModel>
    decreases e,
{
    match e {
        Expr::ColumnRef(c) => Some(c),
        Expr::Alias { expr, .. } => if is_deep {
            column_of(*expr, is_deep)
        } else {
            None
        },
        _ => None,
    }
}

/// The constant that an expression is, looking through aliases.
pub open spec fn constant_of(e: Expr) -> Option<Value>
    decreases e,
{
    match e {
        Expr::Constant(v) => Some(v),
        Expr::Alias { expr, .. } => constant_of(*expr),
        _ => None,
    }
}

impl ScalarExpression {
    fn clone_all(items: &Vec<ScalarExpression>) -> (r: Vec<ScalarExpression>)
        ensures
            expr_models(r@) == expr_models(items@),
        decreases items,
    {
        let mut out: Vec<ScalarExpression> = Vec::new();
        let mut i: usize = 0;
        while i < items.len()
            invariant
                i <= items.len(),
                out.len() == i,
                forall|k: int| 0 <= k < i ==> out@[k]@ == items@[k]@,
            decreases items.len() - i,
        {
            assert(decreases_to!(*items => items@));
            assert(decreases_to!(items@ => items@[i as int]));
            out.push(items[i].clone());
            i += 1;
        }
        assert(expr_models(out@) =~= expr_models(items@));
        out
    }

    /// The column that the expression names; with `is_deep`, looking
    /// through aliases.
    pub fn unpack_col(&self, is_deep: bool) -> (r: Option<ColumnRef>)
        ensures
            match column_of(self@, is_deep) {
                Some(c) => r is Some && r->0@ == c,
                None => r is None,
            },
        decreases self,
    {
        match self {
            ScalarExpression::ColumnRef(col) => Some(col.clone()),
            ScalarExpression::Alias { expr, .. } => if is_deep {
                expr.unpack_col(is_deep)
            } else {
                None
            },
            ScalarExpression::Tuple(args) => {
                proof {
                    lemma_args_view(*args);
                }
                None
            },
            ScalarExpression::In { negated, expr, args } => {
                proof {
                    lemma_in_view(*negated, *expr, *args);
                }
                None
            },
            _ => None,
        }
    }

    /// The constant that the expression is, looking through aliases.
    pub fn unpack_val(&self) -> (r: Option<DataValue>)
        ensures
            match constant_of(self@) {
                Some(v) => r is Some && r->0@ == v,
                None => r is None,
            },
        decreases self,
    {
        match self {
            ScalarExpression::Constant(val) => Some(val.clone()),
            ScalarExpression::Alias { expr, .. } => expr.unpack_val(),
            ScalarExpression::Tuple(args) => {
                proof {
                    lemma_args_view(*args);
                }
                None
            },
            ScalarExpression::In { negated, expr, args } => {
                proof {
                    lemma_in_view(*negated, *expr, *args);
                }
                None
            },
            _ => None,
        }
    }
}

impl Clone for ScalarExpression {
    fn clone(&self) -> (r: Self)
        ensures
            r@ == self@,
        decreases self,
    {
        match self {
            ScalarExpression::Constant(v) => ScalarExpression::Constant(v.clone()),
            ScalarExpression::ColumnRef(c) => ScalarExpression::ColumnRef(c.clone()),
            ScalarExpression::Alias { expr, alias } => ScalarExpression::Alias {
                expr: Box::new((**expr).clone()),
                alias: alias.clone(),
            },
            ScalarExpression::TypeCast { expr, ty } => ScalarExpression::TypeCast {
                expr: Box::new((**expr).clone()),
                ty: ty.clone(),
            },
            ScalarExpression::IsNull { negated, expr } => ScalarExpression::IsNull {
                negated: *negated,
                expr: Box::new((**expr).clone()),
            },
            ScalarExpression::Unary { op, expr, ty } => ScalarExpression::Unary {
                op: *op,
                expr: Box::new((**expr).clone()),
                ty: ty.clone(),
            },
            ScalarExpression::Binary { op, left_expr, right_expr, ty } => ScalarExpression::Binary {
                op: *op,
                left_expr: Box::new((**left_expr).clone()),
                right_expr: Box::new((**right_expr).clone()),
                ty: ty.clone(),
            },
            ScalarExpression::In { negated, expr, args } => {
                assert(decreases_to!(self => self->In_args));
                let copies = ScalarExpression::clone_all(args);
                let inner = Box::new((**expr).clone());
                proof {
                    lemma_in_view(*negated, *expr, *args);
                    lemma_in_view(*negated, inner, copies);
                }
                ScalarExpression::In { negated: *negated, expr: inner, args: copies }
            },
            ScalarExpression::Between { negated, expr, left_expr, right_expr } => {
                ScalarExpression::Between {
                    negated: *negated,
                    expr: Box::new((**expr).clone()),
                    left_expr: Box::new((**left_expr).clone()),
                    right_expr: Box::new((**right_expr).clone()),
                }
            },
            ScalarExpression::If { condition, left_expr, right_expr, ty } => ScalarExpression::If {
                condition: Box::new((**condition).clone()),
                left_expr: Box::new((**left_expr).clone()),
                right_expr: Box::new((**right_expr).clone()),
                ty: ty.clone(),
            },
            ScalarExpression::Tuple(args) => {
                assert(decreases_to!(self => self->Tuple_0));
                let copies = ScalarExpression::clone_all(args);
                proof {
                    lemma_args_view(*args);
                    lemma_args_view(copies);
                }
                ScalarExpression::Tuple(copies)
            },
        }
    }
}

} // verus!
