use crate::catalog::{
    column_models, ColumnCatalog, ColumnModel, ColumnRef, RelationModel, TableName,
};
use crate::errors::DatabaseError;
use crate::expression::ScalarExpression;
use crate::index::{same_meta, IndexMeta, IndexType};
use crate::range::Range;
use crate::tuple::Schema;
use crate::types::ColumnId;
use crate::value::DataValue;
use crate::scan_order::{lemma_keys_ascend, lemma_positions_in_order, positions_below};
use std::collections::BTreeMap;
use vstd::prelude::*;
use vstd::std_specs::btree::{increasing_seq, into_iter_values, spec_values_iter};
use vstd::std_specs::iter::IteratorSpec;

verus! {

/// The kinds of join.
#[derive(Debug, Clone, Copy, PartialEq, Eq, Hash, Structural)]
pub enum JoinType {
    Inner,
    LeftOuter,
    LeftSemi,
    LeftAnti,
    RightOuter,
    Full,
    Cross,
}

impl JoinType {
    /// Whether the join keeps every row of its right input.
    pub fn is_right(&self) -> (r: bool)
        ensures
            r == (*self is RightOuter),
    {
        match self {
            JoinType::RightOuter => true,
            _ => false,
        }
    }
}

/// The condition of a join.
#[derive(Debug)]
pub enum JoinCondition {
    On {
        /// Equijoin clause expressed as pairs of (left, right) join columns
        on: Vec<(ScalarExpression, ScalarExpression)>,
        /// Filters applied during join (non-equi conditions)
        filter: Option<ScalarExpression>,
    },
    NoCondition,
}

/// A join of two inputs.
#[derive(Debug)]
pub struct JoinOperator {
    pub on: JoinCondition,
    pub join_type: JoinType,
}

/// A filter over one input.
#[derive(Debug)]
pub struct FilterOperator {
    pub predicate: ScalarExpression,
    pub is_optimized: bool,
    pub having: bool,
}

/// A projection of one input.
#[derive(Debug)]
pub struct ProjectOperator {
    pub exprs: Vec<ScalarExpression>,
}

/// Rows given in the plan itself.
#[derive(Debug)]
pub struct ValuesOperator {
    pub rows: Vec<Vec<DataValue>>,
    pub schema_ref: Schema,
}

/// An index of the scanned table, and the range of it that a filter allows.
#[derive(Debug)]
pub struct IndexInfo {
    pub meta: IndexMeta,
    pub range: Option<Range>,
}

/// A scan of a table.
#[derive(Debug)]
pub struct TableScanOperator {
    pub table_name: TableName,
    pub primary_keys: Vec<ColumnId>,
    /// The scanned columns under their positions in the table.
    pub columns: BTreeMap<usize, ColumnRef>,
    /// (offset, limit)
    pub limit: (Option<usize>, Option<usize>),
    pub index_infos: Vec<IndexInfo>,
    pub with_pk: bool,
}

/// The creation of an index.
#[derive(Debug)]
pub struct CreateIndexOperator {
    pub table_name: TableName,
    pub columns: Vec<ColumnRef>,
    pub index_name: String,
    pub if_not_exists: bool,
    pub ty: IndexType,
}

/// The deletion of rows.
#[derive(Debug)]
pub struct DeleteOperator {
    pub table_name: TableName,
}

/// The operators of a plan.
#[derive(Debug)]
pub enum Operator {
    Dummy,
    Filter(FilterOperator),
    Join(JoinOperator),
    Project(ProjectOperator),
    TableScan(TableScanOperator),
    Values(ValuesOperator),
    CreateIndex(CreateIndexOperator),
    Delete(DeleteOperator),
}

/// How an operator is carried out.
#[derive(Debug, Clone, Copy, PartialEq, Eq, Structural)]
pub enum PhysicalOption {
    Dummy,
    Filter,
    HashJoin,
    NestLoopJoin,
    Project,
    SeqScan,
    IndexScan,
    Values,
    CreateIndex,
    Delete,
}

/// The inputs of an operator.
#[derive(Debug)]
pub enum Childrens {
    Leaf,
    Only(LogicalPlan),
    Twins { left: LogicalPlan, right: LogicalPlan },
}

/// An operator with its inputs.
#[derive(Debug)]
pub struct LogicalPlan {
    pub operator: Operator,
    pub childrens: Box<Childrens>,
    pub physical_option: Option<PhysicalOption>,
}

impl Childrens {
    /// The only input; a dummy plan where there is not exactly one.
    pub fn pop_only(self) -> (r: LogicalPlan)
        ensures
            self matches Childrens::Only(p) ==> r == p,
            !(self is Only) ==> r.operator is Dummy && *r.childrens is Leaf,
    {
        match self {
            Childrens::Only(plan) => plan,
            _ => LogicalPlan::new(Operator::Dummy, Childrens::Leaf),
        }
    }

    /// The two inputs; dummy plans where there are not exactly two.
    pub fn pop_twins(self) -> (r: (LogicalPlan, LogicalPlan))
        ensures
            self matches Childrens::Twins { left, right } ==> r == (left, right),
            !(self is Twins) ==> r.0.operator is Dummy && r.1.operator is Dummy,
    {
        match self {
            Childrens::Twins { left, right } => (left, right),
            _ => (
                LogicalPlan::new(Operator::Dummy, Childrens::Leaf),
                LogicalPlan::new(Operator::Dummy, Childrens::Leaf),
            ),
        }
    }
}

impl LogicalPlan {
    /// The plan of `operator` over `childrens`.
    pub fn new(operator: Operator, childrens: Childrens) -> (r: LogicalPlan)
        ensures
            r.operator == operator,
            *r.childrens == childrens,
            r.physical_option is None,
    {
        LogicalPlan { operator, childrens: Box::new(childrens), physical_option: None }
    }
}

impl JoinOperator {
    /// The plan that joins `left` and `right`.
    pub fn build(left: LogicalPlan, right: LogicalPlan, on: JoinCondition, join_type: JoinType) -> (r:
        LogicalPlan)
        ensures
            r.operator == Operator::Join(JoinOperator { on, join_type }),
            *r.childrens == (Childrens::Twins { left, right }),
            r.physical_option is None,
    {
        LogicalPlan::new(
            Operator::Join(JoinOperator { on, join_type }),
            Childrens::Twins { left, right },
        )
    }
}

/// A table of the catalog: its columns in order, its indexes, and the
/// positions of its primary-key columns.
#[derive(Debug)]
pub struct TableCatalog {
    pub name: TableName,
    pub columns: Vec<ColumnRef>,
    pub indexes: Vec<IndexMeta>,
    /// The positions of the primary-key columns, ascending.
    pub primary_keys: Vec<usize>,
}

/// The columns of a scan, in the order in which the map of its columns
/// hands them out: by their positions in the table, ascending.
pub open spec fn scanned_columns(columns: &BTreeMap<usize, ColumnRef>) -> Seq<ColumnModel> {
    let values = into_iter_values(spec_values_iter(columns));
    Seq::new(values.len(), |i: int| values[i]@)
}

/// The positions, among the first `n` columns, of those that are part of
/// the primary key, ascending.
pub open spec fn primary_positions(cols: Seq<ColumnModel>, n: nat) -> Seq<usize>
    decreases n,
{
    if n == 0 || n > cols.len() {
        Seq::empty()
    } else {
        let front = primary_positions(cols, (n - 1) as nat);
        if cols[n - 1].primary is Some {
            front.push((n - 1) as usize)
        } else {
            front
        }
    }
}

/// The column `i` of the table `name` that `c` becomes.
pub open spec fn adopted(c: ColumnModel, name: Seq<char>, i: int) -> ColumnModel {
    ColumnModel {
        relation: RelationModel::Table {
            column_id: i as ColumnId,
            table_name: name,
            is_temp: false,
        },
        ..c
    }
}

/// The ids of the columns at the given positions.
pub open spec fn ids_at(cols: Seq<ColumnModel>, at: Seq<usize>) -> Seq<ColumnId> {
    Seq::new(
        at.len(),
        |k: int|
            match cols[at[k] as int].relation {
                RelationModel::Table { column_id, .. } => column_id,
                RelationModel::NoTable => 0,
            },
    )
}

impl TableCatalog {
    /// The columns, in order.
    pub open spec fn column_models(&self) -> Seq<ColumnModel> {
        column_models(self.columns@)
    }

    /// The positions of the primary-key columns, ascending.
    pub open spec fn key_positions(&self) -> Seq<usize> {
        self.primary_keys@
    }

    /// Whether the key positions are positions of columns, and every column
    /// belongs to a table.
    pub open spec fn inv(&self) -> bool {
        &&& forall|k: int|
            0 <= k < self.primary_keys@.len() ==> (#[trigger] self.primary_keys@[k])
                < self.columns@.len()
        &&& forall|i: int|
            0 <= i < self.columns@.len() ==> (#[trigger] self.columns@[i])@.relation is Table
    }

    /// A table of `columns`, which become its columns 0, 1, 2 and so on; its
    /// key positions are those of the columns that are part of the primary
    /// key, ascending; the table has no index yet.
    pub fn new(name: TableName, columns: Vec<ColumnCatalog>) -> (r: Result<
        TableCatalog,
        DatabaseError,
    >)
        ensures
            r matches Ok(t) && t.name@ == name@ && t.inv() && t.indexes@.len() == 0
                && t.column_models().len() == columns@.len() && (forall|i: int|
                0 <= i < columns@.len() ==> #[trigger] t.column_models()[i] == adopted(
                    columns@[i]@,
                    name@,
                    i,
                )) && t.key_positions() == primary_positions(
                column_models(columns@),
                columns@.len(),
            ),
    {
        let ghost old_columns = columns;
        let mut columns = columns;
        let ghost given = column_models(columns@);
        let mut primary_keys: Vec<usize> = Vec::new();
        let mut i: usize = 0;
        while i < columns.len()
            invariant
                i <= columns.len(),
                columns.len() == given.len(),
                forall|k: int| 0 <= k < primary_keys@.len() ==> (#[trigger] primary_keys@[k]) < i,
                primary_keys@ == primary_positions(given, i as nat),
                given == column_models(old_columns@),
                forall|k: int|
                    0 <= k < i ==> (#[trigger] columns@[k])@ == adopted(given[k], name@, k),
                forall|k: int| i <= k < columns.len() ==> (#[trigger] columns@[k])@ == given[k],
            decreases columns.len() - i,
        {
            let mut col = columns[i].clone();
            assert(col@ == given[i as int]);
            col.set_ref_table(name.clone(), i as ColumnId, false);
            if col.is_primary() {
                primary_keys.push(i);
            }
            columns.set(i, col);
            i += 1;
        }
        let table = TableCatalog { name, columns, indexes: Vec::new(), primary_keys };
        assert forall|i: int| 0 <= i < given.len() implies #[trigger] table.column_models()[i]
            == adopted(given[i], table.name@, i) by {
            assert(table.column_models()[i] == table.columns@[i]@);
        }
        Ok(table)
    }

    /// The columns, in order.
    pub fn columns(&self) -> (r: &Vec<ColumnRef>)
        ensures
            column_models(r@) == self.column_models(),
    {
        &self.columns
    }

    /// The positions of the primary-key columns.
    pub fn primary_keys_indices(&self) -> (r: &Vec<usize>)
        ensures
            r@ == self.key_positions(),
    {
        &self.primary_keys
    }

    /// Adds an index to the table.
    pub fn add_index(&mut self, meta: IndexMeta)
        ensures
            final(self).indexes@ == old(self).indexes@.push(meta),
            final(self).column_models() == old(self).column_models(),
            final(self).key_positions() == old(self).key_positions(),
            final(self).name == old(self).name,
            old(self).inv() ==> final(self).inv(),
    {
        self.indexes.push(meta);
    }
}

impl TableScanOperator {
    /// The plan that scans all columns of a table, with every index of the
    /// table on offer and no range chosen yet.
    pub fn build(table_name: TableName, table_catalog: &TableCatalog, with_pk: bool) -> (r:
        LogicalPlan)
        requires
            table_catalog.inv(),
        ensures
            *r.childrens is Leaf,
            r.operator matches Operator::TableScan(op) && {
                &&& op.table_name == table_name
                &&& op.with_pk == with_pk
                &&& op.limit == (None::<usize>, None::<usize>)
                &&& op.primary_keys@ == ids_at(
                    table_catalog.column_models(),
                    table_catalog.key_positions(),
                )
                &&& op.columns@.dom() =~= positions_below(table_catalog.column_models().len())
                &&& scanned_columns(&op.columns) == table_catalog.column_models()
                &&& forall|i: usize|
                    i < table_catalog.column_models().len() ==> (#[trigger] op.columns@[i])@
                        == table_catalog.column_models()[i as int]
                &&& op.index_infos@.len() == table_catalog.indexes@.len()
                &&& forall|i: int|
                    0 <= i < op.index_infos@.len() ==> (#[trigger] op.index_infos@[i]).range is None
                        && same_meta(op.index_infos@[i].meta, table_catalog.indexes@[i])
            },
    {
        let mut primary_keys: Vec<ColumnId> = Vec::new();
        let mut k: usize = 0;
        let ghost cols = table_catalog.column_models();
        while k < table_catalog.primary_keys.len()
            invariant
                k <= table_catalog.primary_keys@.len(),
                table_catalog.inv(),
                cols == table_catalog.column_models(),
                primary_keys@ == ids_at(cols, table_catalog.key_positions()).subrange(0, k as int),
            decreases table_catalog.primary_keys@.len() - k,
        {
            let at: usize = table_catalog.primary_keys[k];
            assert(cols[at as int] == table_catalog.columns@[at as int]@);
            match table_catalog.columns[at].id() {
                Some(id) => primary_keys.push(id),
                None => {},
            }
            assert(primary_keys@ =~= ids_at(cols, table_catalog.key_positions()).subrange(
                0,
                k + 1,
            ));
            k += 1;
        }
        assert(primary_keys@ =~= ids_at(cols, table_catalog.key_positions()));
        let mut columns: BTreeMap<usize, ColumnRef> = BTreeMap::new();
        let mut i: usize = 0;
        while i < table_catalog.columns.len()
            invariant
                i <= table_catalog.columns@.len(),
                cols == table_catalog.column_models(),
                columns@.dom() =~= positions_below(i as nat),
                forall|j: usize| j < i ==> (#[trigger] columns@[j])@ == cols[j as int],
            decreases table_catalog.columns@.len() - i,
        {
            assert(cols[i as int] == table_catalog.columns@[i as int]@);
            columns.insert(i, table_catalog.columns[i].clone());
            i += 1;
        }
        let walk = columns.values();
        proof {
            let key_seq = choose|key_seq: Seq<usize>|
                {
                    &&& increasing_seq(key_seq)
                    &&& key_seq.to_set() == columns@.dom()
                    &&& key_seq.no_duplicates()
                    &&& IteratorSpec::remaining(&walk) == key_seq.map(|i: int, k| &columns@[k])
                };
            lemma_keys_ascend(key_seq);
            lemma_positions_in_order(key_seq, cols.len());
            let values = into_iter_values(spec_values_iter(&columns));
            assert(values == IteratorSpec::remaining(&walk).unref());
            assert(scanned_columns(&columns) =~= cols) by {
                assert(values.len() == cols.len());
                assert forall|k: int| 0 <= k < cols.len() implies (#[trigger] values[k])@
                    == cols[k] by {
                    assert(values[k] == *IteratorSpec::remaining(&walk)[k]);
                    assert(key_seq[k] == k);
                }
            }
        }
        let mut index_infos: Vec<IndexInfo> = Vec::new();
        let mut m: usize = 0;
        while m < table_catalog.indexes.len()
            invariant
                m <= table_catalog.indexes@.len(),
                index_infos@.len() == m,
                forall|j: int|
                    0 <= j < m ==> (#[trigger] index_infos@[j]).range is None && same_meta(
                        index_infos@[j].meta,
                        table_catalog.indexes@[j],
                    ),
            decreases table_catalog.indexes@.len() - m,
        {
            index_infos.push(IndexInfo { meta: table_catalog.indexes[m].clone(), range: None });
            m += 1;
        }
        LogicalPlan::new(
            Operator::TableScan(
                TableScanOperator {
                    index_infos,
                    table_name,
                    primary_keys,
                    columns,
                    limit: (None, None),
                    with_pk,
                },
            ),
            Childrens::Leaf,
        )
    }
}

/// The rule that carries a deletion out as a deletion.
#[derive(Debug, Clone, Copy)]
pub struct DeleteImplementation;

/// The rule that carries a join out as a hash join.
#[derive(Debug, Clone, Copy)]
pub struct HashJoinImplementation;

/// The rule that carries a projection out as a projection.
#[derive(Debug, Clone, Copy)]
pub struct ProjectionImplementation;

impl DeleteImplementation {
    /// Whether the rule applies to the operator, and what it makes of it.
    pub fn to_expression(&self, op: &Operator) -> (r: Option<PhysicalOption>)
        ensures
            r == (if *op is Delete {
                Some(PhysicalOption::Delete)
            } else {
                None
            }),
    {
        match op {
            Operator::Delete(_) => Some(PhysicalOption::Delete),
            _ => None,
        }
    }
}

impl HashJoinImplementation {
    /// Whether the rule applies to the operator, and what it makes of it.
    pub fn to_expression(&self, op: &Operator) -> (r: Option<PhysicalOption>)
        ensures
            r == (if *op is Join {
                Some(PhysicalOption::HashJoin)
            } else {
                None
            }),
    {
        match op {
            Operator::Join(_) => Some(PhysicalOption::HashJoin),
            _ => None,
        }
    }
}

impl ProjectionImplementation {
    /// Whether the rule applies to the operator, and what it makes of it.
    pub fn to_expression(&self, op: &Operator) -> (r: Option<PhysicalOption>)
        ensures
            r == (if *op is Project {
                Some(PhysicalOption::Project)
            } else {
                None
            }),
    {
        match op {
            Operator::Project(_) => Some(PhysicalOption::Project),
            _ => None,
        }
    }
}

} // verus!
