use crate::arena::{arena_create, BumpBytes};
use crate::bytes::{be_bytes, le_bytes, push_be, push_le};
use crate::catalog::{ColumnRef, RelationModel};
use crate::errors::DatabaseError;
use crate::index::{Index, IndexType};
use crate::memcomparable::{mem_encode, BOUND_MAX_TAG, BOUND_MIN_TAG};
use crate::raw::string_from_bytes;
use crate::tuple::{
    has_nested, row_decode, row_encode, pk_indices_ok, pk_of, RowOutcome, Schema, Tuple, TupleId,
};
use crate::types::{type_models, ColumnId, IndexId, LogicalType, TypeModel};
use crate::value::{lemma_tuple_view, type_of, value_models, DataValue, Value};
use vstd::prelude::*;
use vstd::utf8::{decode_utf8, encode_utf8, valid_utf8};

verus! {

/// The SipHash-2-4 of a name, with zero keys, as `Hash for str` feeds it.
pub uninterp spec fn table_hash(name: Seq<char>) -> u64;

/// `siphasher::sip::SipHasher::new`, fed with `name` through `Hash for str`,
/// then `finish`: the hash depends on the name alone.
#[verifier::external_body]
fn sip_hash(name: &str) -> (h: u64)
    ensures
        h == table_hash(name@),
{
    let mut hasher = siphasher::sip::SipHasher::new();
    std::hash::Hash::hash(name, &mut hasher);
    std::hash::Hasher::finish(&hasher)
}

/// Produces the keys, and the row values, of everything that is stored.
/// What it hands out lives in its arena.
pub struct TableCodec {
    arena: bumpalo::Bump,
}

/// The categories of what is stored.
#[derive(Clone, Copy)]
pub enum CodecType {
    Column,
    IndexMeta,
    Index,
    Statistics,
    View,
    Tuple,
    Root,
    Hash,
}

/// The bytes of `Root`.
pub open spec fn root_bytes() -> Seq<u8> {
    seq![0x52u8, 0x6Fu8, 0x6Fu8, 0x74u8]
}

/// The bytes of `View`.
pub open spec fn view_bytes() -> Seq<u8> {
    seq![0x56u8, 0x69u8, 0x65u8, 0x77u8]
}

/// The bytes of `Hash`.
pub open spec fn hash_bytes_tag() -> Seq<u8> {
    seq![0x48u8, 0x61u8, 0x73u8, 0x68u8]
}

/// The eight bytes that stand for a table or view name in keys.
pub open spec fn name_bytes(name: Seq<char>) -> Seq<u8> {
    le_bytes(table_hash(name) as nat, 8)
}

/// The start of every key of a category under a name. What belongs to a
/// table starts with the name's eight bytes and the digit of its category;
/// the catalog entries of tables and views, and the table markers, start
/// with `Root`, `View` or `Hash`, a zero byte, and the name's eight bytes.
pub open spec fn key_prefix_of(ty: CodecType, name: Seq<char>) -> Seq<u8> {
    match ty {
        CodecType::Column => name_bytes(name).push(0x30u8),
        CodecType::IndexMeta => name_bytes(name).push(0x31u8),
        CodecType::Index => name_bytes(name).push(0x33u8),
        CodecType::Statistics => name_bytes(name).push(0x34u8),
        CodecType::Tuple => name_bytes(name).push(0x38u8),
        CodecType::Root => root_bytes().push(BOUND_MIN_TAG) + name_bytes(name),
        CodecType::View => view_bytes().push(BOUND_MIN_TAG) + name_bytes(name),
        CodecType::Hash => hash_bytes_tag().push(BOUND_MIN_TAG) + name_bytes(name),
    }
}

/// What is wrong with a value as a primary key.
pub enum KeyFault {
    TooManyLayers,
    Null,
    BadType,
}

/// Whether a scalar of this type can be part of a primary key: an integer
/// or a text.
pub open spec fn is_key_type(ty: TypeModel) -> bool {
    match ty {
        TypeModel::Tinyint | TypeModel::Smallint | TypeModel::Integer | TypeModel::Bigint
        | TypeModel::UTinyint | TypeModel::USmallint | TypeModel::UInteger | TypeModel::UBigint
        | TypeModel::Char(_, _) | TypeModel::Varchar(_, _) => true,
        _ => false,
    }
}

/// The first fault of a value as a primary key at nesting depth `depth`: a
/// key nests at most one level, no part of it is null, and its scalars are
/// integers or texts.
pub open spec fn key_fault(v: Value, depth: nat) -> Option<KeyFault>
    decreases v, 0nat,
{
    if depth > 1 {
        Some(KeyFault::TooManyLayers)
    } else if v is Null {
        Some(KeyFault::Null)
    } else if v is Tuple {
        first_key_fault(v->Tuple_0, depth + 1, 0)
    } else if !is_key_type(type_of(v)) {
        Some(KeyFault::BadType)
    } else {
        None
    }
}

/// The first fault among the components of a key from `from` on.
pub open spec fn first_key_fault(vs: Seq<Value>, depth: nat, from: nat) -> Option<KeyFault>
    decreases vs, vs.len() - from,
{
    if from >= vs.len() {
        None
    } else {
        match key_fault(vs[from as int], depth) {
            Some(f) => Some(f),
            None => first_key_fault(vs, depth, from + 1),
        }
    }
}

/// Unfolds one step of [`first_key_fault`].
pub proof fn lemma_first_key_fault_step(vs: Seq<Value>, depth: nat, from: nat)
    requires
        from < vs.len(),
    ensures
        first_key_fault(vs, depth, from) == (match key_fault(vs[from as int], depth) {
            Some(f) => Some(f),
            None => first_key_fault(vs, depth, from + 1),
        }),
{
    reveal_with_fuel(first_key_fault, 2);
}

/// Whether an error is the one that stands for a key fault.
pub open spec fn is_fault(e: DatabaseError, f: KeyFault) -> bool {
    match f {
        KeyFault::TooManyLayers => e is PrimaryKeyTooManyLayers,
        KeyFault::Null => e is NotNull,
        KeyFault::BadType => e is InvalidType,
    }
}

/// The key of a row: the tuple prefix of its table, a zero byte, and the key
/// of its primary key.
pub open spec fn tuple_key_of(name: Seq<char>, pk: Value) -> Seq<u8> {
    key_prefix_of(CodecType::Tuple, name).push(BOUND_MIN_TAG) + mem_encode(pk)
}

/// The start of the keys of one index: the index prefix of its table, a zero
/// byte, and the index id as four bytes, least significant first.
pub open spec fn index_prefix_of(name: Seq<char>, id: IndexId) -> Seq<u8> {
    key_prefix_of(CodecType::Index, name).push(BOUND_MIN_TAG) + le_bytes(id as nat, 4)
}

/// The key of an indexed value as a bound of a scan: the index's prefix, a
/// zero byte, the key of the value, and for an upper bound a last `0xFF`.
pub open spec fn index_bound_key_of(name: Seq<char>, id: IndexId, value: Value, is_upper: bool) -> Seq<
    u8,
> {
    index_prefix_of(name, id).push(BOUND_MIN_TAG) + mem_encode(value) + if is_upper {
        seq![BOUND_MAX_TAG]
    } else {
        Seq::empty()
    }
}

/// The key of an index entry: that of its value as a lower bound, followed
/// by the key of the row's primary key where the index can hold one value
/// for many rows.
pub open spec fn index_key_of(
    name: Seq<char>,
    id: IndexId,
    value: Value,
    ty: IndexType,
    pk: Option<Value>,
) -> Seq<u8> {
    index_bound_key_of(name, id, value, false) + match pk {
        Some(k) => if ty is Normal || ty is Composite {
            mem_encode(k)
        } else {
            Seq::empty()
        },
        None => Seq::empty(),
    }
}

/// The sixteen bytes of a column id, most significant first.
pub open spec fn column_id_bytes(id: ColumnId) -> Seq<u8> {
    be_bytes((id as nat) / 0x1_0000_0000_0000_0000, 8) + be_bytes(
        (id as nat) % 0x1_0000_0000_0000_0000,
        8,
    )
}

impl Default for TableCodec {
    fn default() -> (r: Self) {
        TableCodec { arena: arena_create() }
    }
}

impl TableCodec {
    /// The eight bytes that stand for a name in keys.
    fn hash_bytes<'a>(&'a self, table_name: &str) -> (r: BumpBytes<'a>)
        ensures
            r@ == name_bytes(table_name@),
    {
        let mut bytes = BumpBytes::new_in(&self.arena);
        push_le(&mut bytes, sip_hash(table_name), 8);
        assert(bytes@ =~= name_bytes(table_name@));
        bytes
    }

    /// Whether `value` can be a primary key, as seen at nesting depth
    /// `indentation`.
    pub fn check_primary_key(value: &DataValue, indentation: usize) -> (r: Result<
        (),
        DatabaseError,
    >)
        ensures
            match key_fault(value@, indentation as nat) {
                Some(f) => r matches Err(e) && is_fault(e, f),
                None => r is Ok,
            },
        decreases value,
    {
        if indentation > 1 {
            return Err(DatabaseError::PrimaryKeyTooManyLayers);
        }
        if value.is_null() {
            return Err(DatabaseError::NotNull);
        }
        if let DataValue::Tuple(values, up) = value {
            proof {
                lemma_tuple_view(*values, *up);
            }
            let ghost vs = value_models(values@);
            let mut i: usize = 0;
            while i < values.len()
                invariant
                    i <= values.len(),
                    indentation <= 1,
                    *value == DataValue::Tuple(*values, *up),
                    vs == value_models(values@),
                    key_fault(value@, indentation as nat) == first_key_fault(
                        vs,
                        (indentation + 1) as nat,
                        0,
                    ),
                    first_key_fault(vs, (indentation + 1) as nat, 0) == first_key_fault(
                        vs,
                        (indentation + 1) as nat,
                        i as nat,
                    ),
                decreases values.len() - i,
            {
                assert(decreases_to!(value => value->Tuple_0));
                assert(decreases_to!(*values => values@));
                assert(decreases_to!(values@ => values@[i as int]));
                assert(vs[i as int] == values@[i as int]@);
                proof {
                    lemma_first_key_fault_step(vs, (indentation + 1) as nat, i as nat);
                }
                match TableCodec::check_primary_key(&values[i], indentation + 1) {
                    Ok(_) => {},
                    Err(e) => {
                        return Err(e);
                    },
                }
                i += 1;
            }
            return Ok(());
        }
        let ty = value.logical_type();
        TableCodec::check_primary_key_type(&ty)
    }

    /// Whether a scalar of type `ty` can be part of a primary key.
    pub fn check_primary_key_type(ty: &LogicalType) -> (r: Result<(), DatabaseError>)
        ensures
            is_key_type(ty@) ==> r is Ok,
            !is_key_type(ty@) ==> (r matches Err(e) && e is InvalidType),
    {
        match ty {
            LogicalType::Tinyint
            | LogicalType::Smallint
            | LogicalType::Integer
            | LogicalType::Bigint
            | LogicalType::UTinyint
            | LogicalType::USmallint
            | LogicalType::UInteger
            | LogicalType::UBigint
            | LogicalType::Char(_, _)
            | LogicalType::Varchar(_, _) => Ok(()),
            LogicalType::Tuple(tys) => {
                proof {
                    crate::types::lemma_tuple_type_view(*tys);
                }
                Err(DatabaseError::InvalidType)
            },
            _ => Err(DatabaseError::InvalidType),
        }
    }

    /// The start of every key of category `ty` under `name`.
    pub fn key_prefix<'a>(&'a self, ty: CodecType, name: &str) -> (r: BumpBytes<'a>)
        ensures
            r@ == key_prefix_of(ty, name@),
    {
        let mut table_bytes = self.hash_bytes(name);
        let tag: u8 = match ty {
            CodecType::Column => 0x30,
            CodecType::IndexMeta => 0x31,
            CodecType::Index => 0x33,
            CodecType::Statistics => 0x34,
            CodecType::Tuple => 0x38,
            CodecType::Root | CodecType::View | CodecType::Hash => {
                let mut bytes = BumpBytes::new_in(&self.arena);
                match ty {
                    CodecType::Root => {
                        bytes.push(0x52);
                        bytes.push(0x6F);
                        bytes.push(0x6F);
                        bytes.push(0x74);
                        assert(bytes@ =~= root_bytes());
                    },
                    CodecType::View => {
                        bytes.push(0x56);
                        bytes.push(0x69);
                        bytes.push(0x65);
                        bytes.push(0x77);
                        assert(bytes@ =~= view_bytes());
                    },
                    _ => {
                        bytes.push(0x48);
                        bytes.push(0x61);
                        bytes.push(0x73);
                        bytes.push(0x68);
                        assert(bytes@ =~= hash_bytes_tag());
                    },
                }
                bytes.push(BOUND_MIN_TAG);
                bytes.extend_from_slice(table_bytes.as_slice());
                return bytes;
            },
        };
        table_bytes.push(tag);
        table_bytes
    }

    /// The prefix of category `ty` under `name`, followed by one byte.
    fn bounded<'a>(&'a self, ty: CodecType, name: &str, bound_id: u8) -> (r: BumpBytes<'a>)
        ensures
            r@ == key_prefix_of(ty, name@).push(bound_id),
    {
        let mut key_prefix = self.key_prefix(ty, name);
        key_prefix.push(bound_id);
        key_prefix
    }

    /// The least and the greatest key that a row of the table can have.
    pub fn tuple_bound<'a>(&'a self, table_name: &str) -> (r: (BumpBytes<'a>, BumpBytes<'a>))
        ensures
            r.0@ == key_prefix_of(CodecType::Tuple, table_name@).push(BOUND_MIN_TAG),
            r.1@ == key_prefix_of(CodecType::Tuple, table_name@).push(BOUND_MAX_TAG),
    {
        (
            self.bounded(CodecType::Tuple, table_name, BOUND_MIN_TAG),
            self.bounded(CodecType::Tuple, table_name, BOUND_MAX_TAG),
        )
    }

    /// The least and the greatest key of the table's index descriptions.
    pub fn index_meta_bound<'a>(&'a self, table_name: &str) -> (r: (BumpBytes<'a>, BumpBytes<'a>))
        ensures
            r.0@ == key_prefix_of(CodecType::IndexMeta, table_name@).push(BOUND_MIN_TAG),
            r.1@ == key_prefix_of(CodecType::IndexMeta, table_name@).push(BOUND_MAX_TAG),
    {
        (
            self.bounded(CodecType::IndexMeta, table_name, BOUND_MIN_TAG),
            self.bounded(CodecType::IndexMeta, table_name, BOUND_MAX_TAG),
        )
    }

    /// The least and the greatest key of the entries of one index.
    pub fn index_bound<'a>(&'a self, table_name: &str, index_id: IndexId) -> (r: Result<
        (BumpBytes<'a>, BumpBytes<'a>),
        DatabaseError,
    >)
        ensures
            r matches Ok(b) && b.0@ == index_prefix_of(table_name@, index_id).push(BOUND_MIN_TAG)
                && b.1@ == index_prefix_of(table_name@, index_id).push(BOUND_MAX_TAG),
    {
        let mut min = self.bounded(CodecType::Index, table_name, BOUND_MIN_TAG);
        push_le(&mut min, index_id as u64, 4);
        min.push(BOUND_MIN_TAG);
        let mut max = self.bounded(CodecType::Index, table_name, BOUND_MIN_TAG);
        push_le(&mut max, index_id as u64, 4);
        max.push(BOUND_MAX_TAG);
        Ok((min, max))
    }

    /// The least and the greatest key of the entries of all the table's
    /// indexes.
    pub fn all_index_bound<'a>(&'a self, table_name: &str) -> (r: (BumpBytes<'a>, BumpBytes<'a>))
        ensures
            r.0@ == key_prefix_of(CodecType::Index, table_name@).push(BOUND_MIN_TAG),
            r.1@ == key_prefix_of(CodecType::Index, table_name@).push(BOUND_MAX_TAG),
    {
        (
            self.bounded(CodecType::Index, table_name, BOUND_MIN_TAG),
            self.bounded(CodecType::Index, table_name, BOUND_MAX_TAG),
        )
    }

    /// The least and the greatest key of the catalog entries of tables.
    pub fn root_table_bound<'a>(&'a self) -> (r: (BumpBytes<'a>, BumpBytes<'a>))
        ensures
            r.0@ == root_bytes().push(BOUND_MIN_TAG),
            r.1@ == root_bytes().push(BOUND_MAX_TAG),
    {
        let mut min = BumpBytes::new_in(&self.arena);
        min.push(0x52);
        min.push(0x6F);
        min.push(0x6F);
        min.push(0x74);
        min.push(BOUND_MIN_TAG);
        assert(min@ =~= root_bytes().push(BOUND_MIN_TAG));
        let mut max = BumpBytes::new_in(&self.arena);
        max.push(0x52);
        max.push(0x6F);
        max.push(0x6F);
        max.push(0x74);
        max.push(BOUND_MAX_TAG);
        assert(max@ =~= root_bytes().push(BOUND_MAX_TAG));
        (min, max)
    }

    /// From the least key of the table's columns to the greatest key of its
    /// index descriptions: all of the table's catalog entries.
    pub fn table_bound<'a>(&'a self, table_name: &str) -> (r: (BumpBytes<'a>, BumpBytes<'a>))
        ensures
            r.0@ == key_prefix_of(CodecType::Column, table_name@).push(BOUND_MIN_TAG),
            r.1@ == key_prefix_of(CodecType::IndexMeta, table_name@).push(BOUND_MAX_TAG),
    {
        (
            self.bounded(CodecType::Column, table_name, BOUND_MIN_TAG),
            self.bounded(CodecType::IndexMeta, table_name, BOUND_MAX_TAG),
        )
    }

    /// The least and the greatest key of the table's columns.
    pub fn columns_bound<'a>(&'a self, table_name: &str) -> (r: (BumpBytes<'a>, BumpBytes<'a>))
        ensures
            r.0@ == key_prefix_of(CodecType::Column, table_name@).push(BOUND_MIN_TAG),
            r.1@ == key_prefix_of(CodecType::Column, table_name@).push(BOUND_MAX_TAG),
    {
        (
            self.bounded(CodecType::Column, table_name, BOUND_MIN_TAG),
            self.bounded(CodecType::Column, table_name, BOUND_MAX_TAG),
        )
    }

    /// The least and the greatest key of the table's statistics entries.
    pub fn statistics_bound<'a>(&'a self, table_name: &str) -> (r: (BumpBytes<'a>, BumpBytes<'a>))
        ensures
            r.0@ == key_prefix_of(CodecType::Statistics, table_name@).push(BOUND_MIN_TAG),
            r.1@ == key_prefix_of(CodecType::Statistics, table_name@).push(BOUND_MAX_TAG),
    {
        (
            self.bounded(CodecType::Statistics, table_name, BOUND_MIN_TAG),
            self.bounded(CodecType::Statistics, table_name, BOUND_MAX_TAG),
        )
    }

    /// The least and the greatest key of the catalog entries of views.
    pub fn view_bound<'a>(&'a self) -> (r: (BumpBytes<'a>, BumpBytes<'a>))
        ensures
            r.0@ == view_bytes().push(BOUND_MIN_TAG),
            r.1@ == view_bytes().push(BOUND_MAX_TAG),
    {
        let mut min = BumpBytes::new_in(&self.arena);
        min.push(0x56);
        min.push(0x69);
        min.push(0x65);
        min.push(0x77);
        min.push(BOUND_MIN_TAG);
        assert(min@ =~= view_bytes().push(BOUND_MIN_TAG));
        let mut max = BumpBytes::new_in(&self.arena);
        max.push(0x56);
        max.push(0x69);
        max.push(0x65);
        max.push(0x77);
        max.push(BOUND_MAX_TAG);
        assert(max@ =~= view_bytes().push(BOUND_MAX_TAG));
        (min, max)
    }

    /// The key and the stored form of a row. A row without a primary key is
    /// refused with `PrimaryKeyNotFound`, then a key that cannot be one with
    /// its fault, then a row that cannot be stored.
    pub fn encode_tuple<'a>(&'a self, table_name: &str, tuple: &Tuple, types: &[LogicalType]) -> (r:
        Result<(BumpBytes<'a>, BumpBytes<'a>), DatabaseError>)
        ensures
            match tuple@.pk {
                None => r matches Err(e) && e is PrimaryKeyNotFound,
                Some(pk) => match key_fault(pk, 0) {
                    Some(f) => r matches Err(e) && is_fault(e, f),
                    None => if has_nested(tuple@.values) {
                        r matches Err(e) && e is InvalidType
                    } else {
                        match row_encode(tuple@.values) {
                            Some(bytes) => r matches Ok(kv) && kv.0@ == tuple_key_of(
                                table_name@,
                                pk,
                            ) && kv.1@ == bytes,
                            None => r matches Err(e) && e is TooLong,
                        }
                    },
                },
            },
    {
        let tuple_id = match &tuple.pk {
            Some(id) => id,
            None => {
                return Err(DatabaseError::PrimaryKeyNotFound);
            },
        };
        let key = match self.encode_tuple_key(table_name, tuple_id) {
            Ok(key) => key,
            Err(e) => {
                return Err(e);
            },
        };
        match tuple.serialize_to(types, &self.arena) {
            Ok(value) => Ok((key, value)),
            Err(e) => Err(e),
        }
    }

    /// The key of the row with primary key `tuple_id`; a value that cannot
    /// be a primary key is refused with its fault.
    pub fn encode_tuple_key<'a>(&'a self, table_name: &str, tuple_id: &TupleId) -> (r: Result<
        BumpBytes<'a>,
        DatabaseError,
    >)
        ensures
            match key_fault(tuple_id@, 0) {
                Some(f) => r matches Err(e) && is_fault(e, f),
                None => r matches Ok(key) && key@ == tuple_key_of(table_name@, tuple_id@),
            },
    {
        match TableCodec::check_primary_key(tuple_id, 0) {
            Ok(_) => {},
            Err(e) => {
                return Err(e);
            },
        }
        let mut key_prefix = self.bounded(CodecType::Tuple, table_name, BOUND_MIN_TAG);
        let _ = tuple_id.memcomparable_encode(&mut key_prefix);
        Ok(key_prefix)
    }

    /// Reads the columns `projections` of a stored row.
    pub fn decode_tuple(
        table_types: &[LogicalType],
        pk_indices: &[usize],
        projections: &[usize],
        schema: &Schema,
        bytes: &[u8],
        with_pk: bool,
    ) -> (r: Result<Tuple, DatabaseError>)
        ensures
            match row_decode(type_models(table_types@), projections@, bytes@) {
                RowOutcome::Values(vs) => if with_pk && !pk_indices_ok(
                    pk_indices@,
                    projections@.len(),
                ) {
                    r matches Err(e) && e is PrimaryKeyNotFound
                } else {
                    r matches Ok(t) && t@.values == vs && t@.pk == (if with_pk {
                        Some(pk_of(pk_indices@, vs))
                    } else {
                        None
                    })
                },
                RowOutcome::Eof => r matches Err(e) && e is Io,
                RowOutcome::BadText => r matches Err(e) && e is FromUtf8Error,
            },
    {
        Tuple::deserialize_from(table_types, pk_indices, projections, schema, bytes, with_pk)
    }

    /// The key of the description of index `index_id`.
    pub fn encode_index_meta_key<'a>(&'a self, table_name: &str, index_id: IndexId) -> (r: Result<
        BumpBytes<'a>,
        DatabaseError,
    >)
        ensures
            r matches Ok(key) && key@ == key_prefix_of(CodecType::IndexMeta, table_name@).push(
                BOUND_MIN_TAG,
            ) + le_bytes(index_id as nat, 4),
    {
        let mut key_prefix = self.bounded(CodecType::IndexMeta, table_name, BOUND_MIN_TAG);
        push_le(&mut key_prefix, index_id as u64, 4);
        Ok(key_prefix)
    }

    /// The key of an indexed value as a bound of a scan.
    pub fn encode_index_bound_key<'a>(&'a self, name: &str, index: &Index, is_upper: bool) -> (r:
        Result<BumpBytes<'a>, DatabaseError>)
        ensures
            r matches Ok(key) && key@ == index_bound_key_of(name@, index.id, index.value@, is_upper),
    {
        let mut key_prefix = self.bounded(CodecType::Index, name, BOUND_MIN_TAG);
        push_le(&mut key_prefix, index.id as u64, 4);
        key_prefix.push(BOUND_MIN_TAG);
        let _ = index.value.memcomparable_encode(&mut key_prefix);
        if is_upper {
            key_prefix.push(BOUND_MAX_TAG);
        }
        assert(key_prefix@ =~= index_bound_key_of(name@, index.id, index.value@, is_upper));
        Ok(key_prefix)
    }

    /// The key of an index entry for the row `tuple_id`.
    pub fn encode_index_key<'a>(
        &'a self,
        name: &str,
        index: &Index,
        tuple_id: Option<&TupleId>,
    ) -> (r: Result<BumpBytes<'a>, DatabaseError>)
        ensures
            r matches Ok(key) && key@ == index_key_of(
                name@,
                index.id,
                index.value@,
                index.ty,
                match tuple_id {
                    Some(id) => Some(id@),
                    None => None,
                },
            ),
    {
        let mut key_prefix = match self.encode_index_bound_key(name, index, false) {
            Ok(key) => key,
            Err(e) => {
                return Err(e);
            },
        };
        let ghost head = key_prefix@;
        if let Some(tuple_id) = tuple_id {
            match index.ty {
                IndexType::Normal | IndexType::Composite => {
                    let _ = tuple_id.memcomparable_encode(&mut key_prefix);
                },
                _ => {
                    assert(key_prefix@ =~= head + Seq::<u8>::empty());
                },
            }
        } else {
            assert(key_prefix@ =~= head + Seq::<u8>::empty());
        }
        Ok(key_prefix)
    }

    /// The key of a column's catalog entry. A column that does not belong to
    /// a stored table is refused with `InvalidColumn`.
    pub fn encode_column_key<'a>(&'a self, col: &ColumnRef) -> (r: Result<
        BumpBytes<'a>,
        DatabaseError,
    >)
        ensures
            match col@.relation {
                RelationModel::Table { column_id, table_name, is_temp: false } => r matches Ok(key)
                    && key@ == key_prefix_of(CodecType::Column, table_name).push(BOUND_MIN_TAG)
                    + column_id_bytes(column_id),
                _ => r matches Err(e) && e is InvalidColumn,
            },
    {
        let stored = match col.table_name() {
            Some(table_name) => match col.id() {
                Some(column_id) => if col.is_temp() {
                    None
                } else {
                    Some((table_name, column_id))
                },
                None => None,
            },
            None => None,
        };
        match stored {
            Some((table_name, column_id)) => {
                let mut key_prefix = self.bounded(
                    CodecType::Column,
                    table_name.as_str(),
                    BOUND_MIN_TAG,
                );
                push_be(&mut key_prefix, (column_id / 0x1_0000_0000_0000_0000) as u64, 8);
                push_be(&mut key_prefix, (column_id % 0x1_0000_0000_0000_0000) as u64, 8);
                assert(key_prefix@ =~= key_prefix_of(CodecType::Column, table_name@).push(
                    BOUND_MIN_TAG,
                ) + column_id_bytes(column_id));
                Ok(key_prefix)
            },
            None => Err(
                DatabaseError::InvalidColumn("column does not belong to table".to_string()),
            ),
        }
    }

    /// The key and the value of a statistics entry: the value is the path's
    /// bytes.
    pub fn encode_statistics_path<'a>(&'a self, table_name: &str, index_id: IndexId, path: String) -> (r:
        (BumpBytes<'a>, BumpBytes<'a>))
        ensures
            r.0@ == key_prefix_of(CodecType::Statistics, table_name@).push(BOUND_MIN_TAG)
                + le_bytes(index_id as nat, 4),
            r.1@ == encode_utf8(path@),
    {
        let key = self.encode_statistics_path_key(table_name, index_id);
        let mut value = BumpBytes::new_in(&self.arena);
        value.extend_from_slice(path.as_str().as_bytes());
        assert(value@ =~= encode_utf8(path@));
        (key, value)
    }

    /// The key of the statistics entry of index `index_id`.
    pub fn encode_statistics_path_key<'a>(&'a self, table_name: &str, index_id: IndexId) -> (r:
        BumpBytes<'a>)
        ensures
            r@ == key_prefix_of(CodecType::Statistics, table_name@).push(BOUND_MIN_TAG) + le_bytes(
                index_id as nat,
                4,
            ),
    {
        let mut key_prefix = self.bounded(CodecType::Statistics, table_name, BOUND_MIN_TAG);
        push_le(&mut key_prefix, index_id as u64, 4);
        key_prefix
    }

    /// The path that a statistics entry holds; bytes that are no UTF-8 are
    /// refused with `FromUtf8Error`.
    pub fn decode_statistics_path(bytes: &[u8]) -> (r: Result<String, DatabaseError>)
        ensures
            valid_utf8(bytes@) ==> (r matches Ok(s) && s@ == decode_utf8(bytes@)),
            !valid_utf8(bytes@) ==> (r matches Err(e) && e is FromUtf8Error),
    {
        match string_from_bytes(bytes) {
            Some(s) => Ok(s),
            None => Err(DatabaseError::FromUtf8Error),
        }
    }

    /// The key of a view's catalog entry.
    pub fn encode_view_key<'a>(&'a self, view_name: &str) -> (r: BumpBytes<'a>)
        ensures
            r@ == key_prefix_of(CodecType::View, view_name@),
    {
        self.key_prefix(CodecType::View, view_name)
    }

    /// The key of a table's catalog entry.
    pub fn encode_root_table_key<'a>(&'a self, table_name: &str) -> (r: BumpBytes<'a>)
        ensures
            r@ == key_prefix_of(CodecType::Root, table_name@),
    {
        self.key_prefix(CodecType::Root, table_name)
    }

    /// The key of a table's marker.
    pub fn encode_table_hash_key<'a>(&'a self, table_name: &str) -> (r: BumpBytes<'a>)
        ensures
            r@ == key_prefix_of(CodecType::Hash, table_name@),
    {
        self.key_prefix(CodecType::Hash, table_name)
    }

    /// The key and the empty value of a table's marker.
    pub fn encode_table_hash<'a>(&'a self, table_name: &str) -> (r: (BumpBytes<'a>, BumpBytes<'a>))
        ensures
            r.0@ == key_prefix_of(CodecType::Hash, table_name@),
            r.1@ == Seq::<u8>::empty(),
    {
        (self.key_prefix(CodecType::Hash, table_name), BumpBytes::new_in(&self.arena))
    }
}

} // verus!
