use crate::catalog::TableName;
use crate::types::{ColumnId, IndexId, LogicalType};
use crate::value::DataValue;
use vstd::prelude::*;

verus! {

/// The kind of an index.
#[derive(Debug, Clone, Copy, PartialEq, Eq, Structural)]
pub enum IndexType {
    PrimaryKey { is_multiple: bool },
    Unique,
    Normal,
    Composite,
}

/// One entry of an index: the indexed value under the index's id and kind.
pub struct Index<'a> {
    pub id: IndexId,
    pub value: &'a DataValue,
    pub ty: IndexType,
}

impl<'a> Index<'a> {
    /// The entry of `value` in the index `id` of kind `ty`.
    pub fn new(id: IndexId, value: &'a DataValue, ty: IndexType) -> (r: Self)
        ensures
            r.id == id,
            r.value == value,
            r.ty == ty,
    {
        Index { id, value, ty }
    }
}

/// The description of an index in the catalog.
#[derive(Debug)]
pub struct IndexMeta {
    pub id: IndexId,
    pub column_ids: Vec<ColumnId>,
    pub table_name: TableName,
    pub pk_ty: LogicalType,
    pub value_ty: LogicalType,
    pub name: String,
    pub ty: IndexType,
}

/// Whether two descriptions describe the same index: id, columns, table,
/// key type, value type, name and kind agree.
pub open spec fn same_meta(a: IndexMeta, b: IndexMeta) -> bool {
    &&& a.id == b.id
    &&& a.column_ids@ == b.column_ids@
    &&& a.table_name@ == b.table_name@
    &&& a.pk_ty@ == b.pk_ty@
    &&& a.value_ty@ == b.value_ty@
    &&& a.name@ == b.name@
    &&& a.ty == b.ty
}

impl Clone for IndexMeta {
    fn clone(&self) -> (r: Self)
        ensures
            same_meta(r, *self),
    {
        let mut column_ids: Vec<ColumnId> = Vec::new();
        let mut i: usize = 0;
        while i < self.column_ids.len()
            invariant
                i <= self.column_ids.len(),
                column_ids@ == self.column_ids@.subrange(0, i as int),
            decreases self.column_ids.len() - i,
        {
            column_ids.push(self.column_ids[i]);
            assert(column_ids@ =~= self.column_ids@.subrange(0, i + 1));
            i += 1;
        }
        assert(column_ids@ =~= self.column_ids@);
        IndexMeta {
            id: self.id,
            column_ids,
            table_name: self.table_name.clone(),
            pk_ty: self.pk_ty.clone(),
            value_ty: self.value_ty.clone(),
            name: self.name.clone(),
            ty: self.ty,
        }
    }
}

} // verus!
