use crate::errors::DatabaseError;
use crate::types::{ColumnId, LogicalType, TypeModel};
use crate::value::{DataValue, Value};
use vstd::prelude::*;

verus! {

/// The name of a table.
pub type TableName = String;

/// Where a column belongs.
#[derive(Debug)]
pub enum ColumnRelation {
    /// To no table: a computed column.
    NoTable,
    /// To the column `column_id` of `table_name`.
    Table { column_id: ColumnId, table_name: TableName, is_temp: bool },
}

/// Model of a [`ColumnRelation`].
pub enum RelationModel {
    NoTable,
    Table { column_id: ColumnId, table_name: Seq<char>, is_temp: bool },
}

impl View for ColumnRelation {
    type V = RelationModel;

    open spec fn view(&self) -> RelationModel {
        match *self {
            ColumnRelation::NoTable => RelationModel::NoTable,
            ColumnRelation::Table { column_id, table_name, is_temp } => RelationModel::Table {
                column_id,
                table_name: table_name@,
                is_temp,
            },
        }
    }
}

/// What identifies a column: its name and where it belongs.
#[derive(Debug)]
pub struct ColumnSummary {
    pub name: String,
    pub relation: ColumnRelation,
}

/// The declared properties of a column.
#[derive(Debug)]
pub struct ColumnDesc {
    column_datatype: LogicalType,
    primary: Option<usize>,
    is_unique: bool,
    default: Option<DataValue>,
}

/// A column of a table or of an operator's output.
#[derive(Debug)]
pub struct ColumnCatalog {
    summary: ColumnSummary,
    nullable: bool,
    desc: ColumnDesc,
    in_join: bool,
}

/// A reference to a column.
pub type ColumnRef = ColumnCatalog;

/// Model of a column.
pub struct ColumnModel {
    pub name: Seq<char>,
    pub relation: RelationModel,
    pub nullable: bool,
    pub datatype: TypeModel,
    pub primary: Option<usize>,
    pub is_unique: bool,
    /// The value of the column where a row gives none.
    pub default: Option<Value>,
    pub in_join: bool,
}

/// Whether two columns are the same column: they have the same name and
/// belong to the same place.
pub open spec fn same_column(a: ColumnModel, b: ColumnModel) -> bool {
    a.name == b.name && a.relation == b.relation
}

impl ColumnDesc {
    /// The properties of a column of type `column_datatype`; `primary` is its
    /// place in the primary key, if it is part of it.
    pub fn new(
        column_datatype: LogicalType,
        primary: Option<usize>,
        is_unique: bool,
        default: Option<DataValue>,
    ) -> (r: Result<ColumnDesc, DatabaseError>)
        ensures
            r matches Ok(d) && d.datatype_model() == column_datatype@ && d.primary_model()
                == primary && d.unique_model() == is_unique && d.default_model() == (match default {
                Some(v) => Some(v@),
                None => None,
            }),
    {
        Ok(ColumnDesc { column_datatype, primary, is_unique, default })
    }

    pub closed spec fn datatype_model(&self) -> TypeModel {
        self.column_datatype@
    }

    pub closed spec fn primary_model(&self) -> Option<usize> {
        self.primary
    }

    pub closed spec fn default_model(&self) -> Option<Value> {
        match self.default {
            Some(v) => Some(v@),
            None => None,
        }
    }

    pub closed spec fn unique_model(&self) -> bool {
        self.is_unique
    }

    /// Whether the column is part of the primary key.
    pub fn is_primary(&self) -> (r: bool)
        ensures
            r == self.primary_model().is_some(),
    {
        self.primary.is_some()
    }

    fn duplicate(&self) -> (r: ColumnDesc)
        ensures
            r.datatype_model() == self.datatype_model(),
            r.primary_model() == self.primary_model(),
            r.unique_model() == self.unique_model(),
            r.default_model() == self.default_model(),
    {
        ColumnDesc {
            column_datatype: self.column_datatype.clone(),
            primary: self.primary,
            is_unique: self.is_unique,
            default: match &self.default {
                Some(v) => Some(v.clone()),
                None => None,
            },
        }
    }
}

impl View for ColumnCatalog {
    type V = ColumnModel;

    closed spec fn view(&self) -> ColumnModel {
        ColumnModel {
            name: self.summary.name@,
            relation: self.summary.relation@,
            nullable: self.nullable,
            datatype: self.desc.datatype_model(),
            primary: self.desc.primary_model(),
            is_unique: self.desc.unique_model(),
            default: self.desc.default_model(),
            in_join: self.in_join,
        }
    }
}

/// The models of a run of columns, position by position.
pub open spec fn column_models(cols: Seq<ColumnCatalog>) -> Seq<ColumnModel> {
    Seq::new(cols.len(), |i: int| cols[i]@)
}

impl Clone for ColumnCatalog {
    fn clone(&self) -> (r: Self)
        ensures
            r@ == self@,
    {
        ColumnCatalog {
            summary: ColumnSummary {
                name: self.summary.name.clone(),
                relation: match &self.summary.relation {
                    ColumnRelation::NoTable => ColumnRelation::NoTable,
                    ColumnRelation::Table { column_id, table_name, is_temp } => {
                        ColumnRelation::Table {
                            column_id: *column_id,
                            table_name: table_name.clone(),
                            is_temp: *is_temp,
                        }
                    },
                },
            },
            nullable: self.nullable,
            desc: self.desc.duplicate(),
            in_join: self.in_join,
        }
    }
}

impl PartialEq for ColumnCatalog {
    fn eq(&self, other: &Self) -> (r: bool) {
        let same_name = self.summary.name.eq(&other.summary.name);
        let same_relation = match (&self.summary.relation, &other.summary.relation) {
            (ColumnRelation::NoTable, ColumnRelation::NoTable) => true,
            (
                ColumnRelation::Table { column_id: c1, table_name: t1, is_temp: p1 },
                ColumnRelation::Table { column_id: c2, table_name: t2, is_temp: p2 },
            ) => *c1 == *c2 && t1.eq(t2) && *p1 == *p2,
            _ => false,
        };
        same_name && same_relation
    }
}

impl vstd::std_specs::cmp::PartialEqSpecImpl for ColumnCatalog {
    open spec fn obeys_eq_spec() -> bool {
        true
    }

    open spec fn eq_spec(&self, other: &Self) -> bool {
        same_column(self@, other@)
    }
}

impl ColumnCatalog {
    /// A column that belongs to no table yet.
    pub fn new(column_name: String, nullable: bool, column_desc: ColumnDesc) -> (r: ColumnCatalog)
        ensures
            r@ == (ColumnModel {
                name: column_name@,
                relation: RelationModel::NoTable,
                nullable,
                datatype: column_desc.datatype_model(),
                primary: column_desc.primary_model(),
                is_unique: column_desc.unique_model(),
                default: column_desc.default_model(),
                in_join: false,
            }),
    {
        ColumnCatalog {
            summary: ColumnSummary { name: column_name, relation: ColumnRelation::NoTable },
            nullable,
            desc: column_desc,
            in_join: false,
        }
    }

    /// Makes the column the column `column_id` of `table_name`.
    pub fn set_ref_table(&mut self, table_name: TableName, column_id: ColumnId, is_temp: bool)
        ensures
            final(self)@ == (ColumnModel {
                relation: RelationModel::Table { column_id, table_name: table_name@, is_temp },
                ..old(self)@
            }),
    {
        self.summary.relation = ColumnRelation::Table { column_id, table_name, is_temp };
    }

    /// The name and the place of the column.
    pub fn summary(&self) -> (r: &ColumnSummary)
        ensures
            r.name@ == self@.name,
            r.relation@ == self@.relation,
    {
        &self.summary
    }

    /// The column's id, if it belongs to a table.
    pub fn id(&self) -> (r: Option<ColumnId>)
        ensures
            r == (match self@.relation {
                RelationModel::NoTable => None,
                RelationModel::Table { column_id, .. } => Some(column_id),
            }),
    {
        match &self.summary.relation {
            ColumnRelation::NoTable => None,
            ColumnRelation::Table { column_id, .. } => Some(*column_id),
        }
    }

    /// The column's name.
    pub fn name(&self) -> (r: &str)
        ensures
            r@ == self@.name,
    {
        self.summary.name.as_str()
    }

    /// The name of the table the column belongs to, if it belongs to one.
    pub fn table_name(&self) -> (r: Option<&TableName>)
        ensures
            match self@.relation {
                RelationModel::NoTable => r is None,
                RelationModel::Table { table_name, .. } => r is Some && r->0@ == table_name,
            },
    {
        match &self.summary.relation {
            ColumnRelation::NoTable => None,
            ColumnRelation::Table { table_name, .. } => Some(table_name),
        }
    }

    /// Whether the column belongs to a temporary table.
    pub fn is_temp(&self) -> (r: bool)
        ensures
            r == (match self@.relation {
                RelationModel::NoTable => false,
                RelationModel::Table { is_temp, .. } => is_temp,
            }),
    {
        match &self.summary.relation {
            ColumnRelation::NoTable => false,
            ColumnRelation::Table { is_temp, .. } => *is_temp,
        }
    }

    /// The column's type.
    pub fn datatype(&self) -> (r: &LogicalType)
        ensures
            r@ == self@.datatype,
    {
        &self.desc.column_datatype
    }

    /// Whether the column is part of the primary key.
    pub fn is_primary(&self) -> (r: bool)
        ensures
            r == self@.primary.is_some(),
    {
        self.desc.is_primary()
    }

    /// Whether the column can hold null.
    pub fn nullable(&self) -> (r: bool)
        ensures
            r == self@.nullable,
    {
        self.nullable
    }

    /// The column with nulls allowed, otherwise as it is.
    pub fn forced_nullable(&self) -> (r: ColumnCatalog)
        ensures
            r@ == (ColumnModel { nullable: true, ..self@ }),
    {
        let mut temp = self.clone();
        temp.nullable = true;
        temp
    }

    /// The column as a join hands it on with nullability `nullable`; nothing
    /// where it already is a join column of that nullability.
    pub fn nullable_for_join(&self, nullable: bool) -> (r: Option<ColumnCatalog>)
        ensures
            r is None <==> (self@.in_join && self@.nullable == nullable),
            r matches Some(c) ==> c@ == (ColumnModel { nullable, in_join: true, ..self@ }),
    {
        if self.in_join && self.nullable == nullable {
            return None;
        }
        let mut temp = self.clone();
        temp.nullable = nullable;
        temp.in_join = true;
        Some(temp)
    }
}

} // verus!
