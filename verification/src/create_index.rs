use crate::catalog::{column_models, ColumnModel, ColumnRef, RelationModel};
use crate::errors::DatabaseError;
use crate::eval::{is_eval_error, project_of, Projection};
use crate::expression::{expr_models, Expr, ScalarExpression};
use crate::planner::CreateIndexOperator;
use crate::tuple::{Tuple, TupleId};
use crate::types::{CharLengthUnits, ColumnId, IndexId};
use crate::value::{tuple_of_values, value_models, DataValue, Utf8Type, Value};
use vstd::prelude::*;

verus! {

/// Builds an index over the rows of a table. The transaction that stores
/// the index is driven from outside: this type says what to ask of it and
/// what to make of its answers.
#[derive(Debug)]
pub struct CreateIndex {
    op: CreateIndexOperator,
}

/// What to do once the transaction has answered the request for the index's
/// description.
#[derive(Debug)]
pub enum MetaDecision {
    /// Fill the index with this id.
    Proceed(IndexId),
    /// The index is there already and that is fine: nothing more to do, and
    /// no row comes out.
    Finish,
    /// Give up with this error.
    Fail(DatabaseError),
}

/// The columns among `cols` that belong to a table.
pub open spec fn indexed_columns(cols: Seq<ColumnModel>) -> Seq<ColumnModel> {
    cols.filter(|c: ColumnModel| c.relation is Table)
}

/// The id of a column that belongs to a table.
pub open spec fn id_of(c: ColumnModel) -> ColumnId {
    match c.relation {
        RelationModel::Table { column_id, .. } => column_id,
        RelationModel::NoTable => 0,
    }
}

/// The entry of a row in the index: the indexed values, one alone or
/// several as a tuple, under the row's key. A row without indexed values or
/// without a key has none.
pub open spec fn entry_of(
    exprs: Seq<Expr>,
    row: crate::tuple::TupleModel,
    schema: Seq<ColumnModel>,
) -> Result<Option<(Value, Value)>, crate::eval::EvalFault> {
    match project_of(exprs, row.values, schema, exprs.len()) {
        Err(f) => Err(f),
        Ok(vs) => match (tuple_of_values(vs), row.pk) {
            (Some(v), Some(pk)) => Ok(Some((v, pk))),
            _ => Ok(None),
        },
    }
}

impl CreateIndex {
    /// The executor of `op`.
    pub fn from(op: CreateIndexOperator) -> (r: Self)
        ensures
            r.operator() == op,
    {
        Self { op }
    }

    /// The operator that is carried out.
    pub closed spec fn operator(&self) -> CreateIndexOperator {
        self.op
    }

    /// The ids of the indexed columns that belong to a table, and the
    /// expressions that read them from a row, in the order of the columns.
    pub fn prepare(&self) -> (r: (Vec<ColumnId>, Vec<ScalarExpression>))
        ensures
            r.0@ == indexed_columns(column_models(self.operator().columns@)).map_values(
                |c: ColumnModel| id_of(c),
            ),
            expr_models(r.1@) == indexed_columns(
                column_models(self.operator().columns@),
            ).map_values(|c: ColumnModel| Expr::ColumnRef(c)),
    {
        let ghost cols = column_models(self.op.columns@);
        let ghost keep = |c: ColumnModel| c.relation is Table;
        let mut ids: Vec<ColumnId> = Vec::new();
        let mut exprs: Vec<ScalarExpression> = Vec::new();
        let mut i: usize = 0;
        assert(cols.subrange(0, 0) =~= Seq::<ColumnModel>::empty());
        assert(ids@ =~= cols.subrange(0, 0).filter(keep).map_values(|c: ColumnModel| id_of(c)));
        assert(expr_models(exprs@) =~= cols.subrange(0, 0).filter(keep).map_values(
            |c: ColumnModel| Expr::ColumnRef(c),
        ));
        while i < self.op.columns.len()
            invariant
                i <= self.op.columns@.len(),
                cols == column_models(self.op.columns@),
                keep == |c: ColumnModel| c.relation is Table,
                ids@ == cols.subrange(0, i as int).filter(keep).map_values(
                    |c: ColumnModel| id_of(c),
                ),
                expr_models(exprs@) == cols.subrange(0, i as int).filter(keep).map_values(
                    |c: ColumnModel| Expr::ColumnRef(c),
                ),
            decreases self.op.columns@.len() - i,
        {
            let column = &self.op.columns[i];
            let ghost done = cols.subrange(0, i as int);
            let ghost next = cols.subrange(0, i + 1);
            let ghost before = expr_models(exprs@);
            proof {
                assert(cols[i as int] == column@);
                assert(next =~= done.push(column@));
                assert(next.drop_last() =~= done);
                reveal(Seq::filter);
                assert(next.filter(keep) == if keep(column@) {
                    done.filter(keep).push(column@)
                } else {
                    done.filter(keep)
                });
            }
            match column.id() {
                Some(id) => {
                    ids.push(id);
                    let e = ScalarExpression::ColumnRef(column.clone());
                    exprs.push(e);
                    proof {
                        assert(expr_models(exprs@) =~= before.push(Expr::ColumnRef(column@)));
                        assert(ids@ =~= next.filter(keep).map_values(|c: ColumnModel| id_of(c)));
                        assert(expr_models(exprs@) =~= next.filter(keep).map_values(
                            |c: ColumnModel| Expr::ColumnRef(c),
                        ));
                    }
                },
                None => {},
            }
            i += 1;
        }
        assert(cols.subrange(0, cols.len() as int) =~= cols);
        (ids, exprs)
    }

    /// What to do with the transaction's answer to the request for the
    /// index's description: an id is gone on with; a duplicate is fine
    /// where the operator says so and an error where it does not; every
    /// other error is handed on.
    pub fn on_index_meta(&self, answer: Result<IndexId, DatabaseError>) -> (r: MetaDecision)
        ensures
            match answer {
                Ok(id) => r == MetaDecision::Proceed(id),
                Err(e) => if e is DuplicateIndex && self.operator().if_not_exists {
                    r is Finish
                } else {
                    r == MetaDecision::Fail(e)
                },
            },
    {
        match answer {
            Ok(index_id) => MetaDecision::Proceed(index_id),
            Err(DatabaseError::DuplicateIndex(index_name)) => {
                if self.op.if_not_exists {
                    MetaDecision::Finish
                } else {
                    MetaDecision::Fail(DatabaseError::DuplicateIndex(index_name))
                }
            },
            Err(e) => MetaDecision::Fail(e),
        }
    }

    /// The entry of a row in the index, if it has one: the indexed value and
    /// the row's key.
    pub fn entry(tuple: &Tuple, column_exprs: &[ScalarExpression], schema: &[ColumnRef]) -> (r:
        Result<Option<(DataValue, TupleId)>, DatabaseError>)
        ensures
            match entry_of(expr_models(column_exprs@), tuple@, column_models(schema@)) {
                Ok(Some(e)) => r matches Ok(Some(x)) && x.0@ == e.0 && x.1@ == e.1,
                Ok(None) => r matches Ok(None),
                Err(f) => r matches Err(e) && is_eval_error(e, f),
            },
    {
        let values = match Projection::projection(tuple, column_exprs, schema) {
            Ok(v) => v,
            Err(e) => {
                return Err(e);
            },
        };
        let value = match DataValue::values_to_tuple(values) {
            Some(v) => v,
            None => {
                return Ok(None);
            },
        };
        match &tuple.pk {
            Some(tuple_id) => Ok(Some((value, tuple_id.clone()))),
            None => Ok(None),
        }
    }

    /// The one row that comes out when the index is built: the text `1`.
    pub fn summary() -> (r: Tuple)
        ensures
            r@.pk is None,
            r@.values == seq![
                Value::Utf8 {
                    value: seq!['1'],
                    ty: Utf8Type::Variable(None),
                    unit: CharLengthUnits::Characters,
                },
            ],
    {
        proof {
            reveal_strlit("1");
        }
        let text = "1".to_owned();
        assert(text@ =~= seq!['1']);
        let mut values: Vec<DataValue> = Vec::new();
        values.push(DataValue::text(text));
        assert(value_models(values@) =~= seq![values@[0]@]);
        Tuple::new(None, values)
    }
}

} // verus!
