use crate::arena::BumpBytes;
use crate::catalog::ColumnRef;
use crate::errors::DatabaseError;
use crate::raw::{raw_encode, raw_read, RawOutcome};
use crate::types::{type_models, LogicalType, TypeModel};
use crate::value::{lemma_tuple_view, value_eq, value_models, DataValue, Value};
use vstd::prelude::*;

verus! {

/// The primary key of a row.
pub type TupleId = DataValue;

/// The columns of a row, in order.
pub type Schema = Vec<ColumnRef>;

/// A row: its values, and its primary key where it was asked for.
#[derive(Debug)]
pub struct Tuple {
    pub pk: Option<TupleId>,
    pub values: Vec<DataValue>,
}

/// Model of a [`Tuple`].
pub struct TupleModel {
    pub pk: Option<Value>,
    pub values: Seq<Value>,
}

impl View for Tuple {
    type V = TupleModel;

    open spec fn view(&self) -> TupleModel {
        TupleModel {
            pk: match self.pk {
                Some(v) => Some(v@),
                None => None,
            },
            values: value_models(self.values@),
        }
    }
}

/// Equality of two runs of values, position by position.
pub open spec fn values_eq(a: Seq<Value>, b: Seq<Value>) -> bool {
    a.len() == b.len() && forall|i: int| 0 <= i < a.len() ==> value_eq(a[i], #[trigger] b[i])
}

/// Equality of rows: equal keys, or none on both sides, and equal values.
pub open spec fn tuple_eq(a: TupleModel, b: TupleModel) -> bool {
    &&& match (a.pk, b.pk) {
        (Some(x), Some(y)) => value_eq(x, y),
        (None, None) => true,
        _ => false,
    }
    &&& values_eq(a.values, b.values)
}

/// The weight of position `k` inside a byte of the null bitmap: the first
/// position is the top bit.
pub open spec fn weight(k: int) -> int {
    if k == 0 {
        128
    } else if k == 1 {
        64
    } else if k == 2 {
        32
    } else if k == 3 {
        16
    } else if k == 4 {
        8
    } else if k == 5 {
        4
    } else if k == 6 {
        2
    } else {
        1
    }
}

/// The bits of the nulls among the `k` values from position `base` on.
pub open spec fn null_bits(vs: Seq<Value>, base: int, k: nat) -> int
    decreases k,
{
    if k == 0 {
        0
    } else {
        null_bits(vs, base, (k - 1) as nat) + if base + k - 1 < vs.len() && vs[base + k - 1] is Null {
            weight(k - 1)
        } else {
            0
        }
    }
}

/// The number of bitmap bytes for `n` values: one bit each, rounded up to
/// whole bytes.
pub open spec fn bitmap_len(n: nat) -> nat {
    (n + 7) / 8
}

/// The null bitmap of a row: one bit per value, most significant bit first,
/// set where the value is null.
pub open spec fn null_bitmap(vs: Seq<Value>) -> Seq<u8> {
    Seq::new(bitmap_len(vs.len()), |j: int| null_bits(vs, 8 * j, 8) as u8)
}

/// The stored forms of the first `n` values in a row, nulls left out; nothing
/// where one of them cannot be stored.
pub open spec fn payload(vs: Seq<Value>, n: nat) -> Option<Seq<u8>>
    decreases n,
{
    if n == 0 {
        Some(Seq::empty())
    } else {
        match (payload(vs, (n - 1) as nat), raw_encode(vs[n - 1])) {
            (Some(a), Some(b)) => Some(a + b),
            _ => None,
        }
    }
}

/// Whether one of the values is a tuple, which a row cannot hold.
pub open spec fn has_nested(vs: Seq<Value>) -> bool {
    exists|i: int| 0 <= i < vs.len() && vs[i] is Tuple
}

/// The stored form of a row: its null bitmap, then its values that are not
/// null in order.
pub open spec fn row_encode(vs: Seq<Value>) -> Option<Seq<u8>> {
    match payload(vs, vs.len()) {
        Some(p) => Some(null_bitmap(vs) + p),
        None => None,
    }
}

/// Whether the bitmap in front of `bytes` marks value `i` as null.
pub open spec fn is_null_at(bytes: Seq<u8>, i: int) -> bool {
    (bytes[i / 8] as int / weight(i % 8)) % 2 == 1
}

/// What reading a row comes to.
pub enum RowOutcome {
    Values(Seq<Value>),
    Eof,
    BadText,
}

/// Reading a row from column `i` on, with the read position at `pos`, the
/// next wanted column at place `pi` of `proj`, and `acc` read so far. A
/// column is decoded where it is the next wanted one and stepped over where
/// it is not; a null column takes no bytes.
pub open spec fn row_decode_from(
    types: Seq<TypeModel>,
    proj: Seq<usize>,
    bytes: Seq<u8>,
    i: nat,
    pos: nat,
    pi: nat,
    acc: Seq<Value>,
) -> RowOutcome
    decreases types.len() - i,
{
    if i >= types.len() || pi >= proj.len() {
        RowOutcome::Values(acc)
    } else {
        let wanted = proj[pi as int] == i;
        if is_null_at(bytes, i as int) {
            row_decode_from(
                types,
                proj,
                bytes,
                i + 1,
                pos,
                if wanted {
                    pi + 1
                } else {
                    pi
                },
                acc,
            )
        } else {
            match raw_read(bytes, pos, types[i as int], wanted) {
                RawOutcome::Value(v, p) => row_decode_from(
                    types,
                    proj,
                    bytes,
                    i + 1,
                    p,
                    pi + 1,
                    acc.update(pi as int, v),
                ),
                RawOutcome::Skipped(p) => row_decode_from(types, proj, bytes, i + 1, p, pi, acc),
                RawOutcome::Eof => RowOutcome::Eof,
                RawOutcome::BadText => RowOutcome::BadText,
            }
        }
    }
}

/// `n` nulls.
pub open spec fn nulls(n: nat) -> Seq<Value> {
    Seq::new(n, |i: int| Value::Null)
}

/// Reading the columns `proj` of a row of `types` from its stored form: one
/// value for each place of `proj`, null where the column is null or is never
/// reached.
pub open spec fn row_decode(types: Seq<TypeModel>, proj: Seq<usize>, bytes: Seq<u8>) -> RowOutcome {
    if bytes.len() < bitmap_len(types.len()) {
        RowOutcome::Eof
    } else {
        row_decode_from(types, proj, bytes, 0, bitmap_len(types.len()), 0, nulls(proj.len()))
    }
}

/// Whether `pk_indices` names at least one value and only values of `n`.
pub open spec fn pk_indices_ok(pk_indices: Seq<usize>, n: nat) -> bool {
    pk_indices.len() >= 1 && forall|k: int| 0 <= k < pk_indices.len() ==> pk_indices[k] < n
}

/// The primary key of a row: the one key value, or the plain tuple of the
/// key values where there are several.
pub open spec fn pk_of(pk_indices: Seq<usize>, vs: Seq<Value>) -> Value {
    if pk_indices.len() > 1 {
        Value::Tuple(Seq::new(pk_indices.len(), |k: int| vs[pk_indices[k] as int]), false)
    } else {
        vs[pk_indices[0] as int]
    }
}

/// The types of a schema's columns, in order.
pub fn types(schema: &Schema) -> (r: Vec<LogicalType>)
    ensures
        r@.len() == schema@.len(),
        forall|i: int| 0 <= i < schema@.len() ==> r@[i]@ == schema@[i]@.datatype,
{
    let mut out: Vec<LogicalType> = Vec::new();
    let mut i: usize = 0;
    while i < schema.len()
        invariant
            i <= schema.len(),
            out.len() == i,
            forall|k: int| 0 <= k < i ==> out@[k]@ == schema@[k]@.datatype,
        decreases schema.len() - i,
    {
        out.push(schema[i].datatype().clone());
        i += 1;
    }
    out
}

/// The weight of position `k` inside a bitmap byte.
fn bit_weight(k: usize) -> (w: u8)
    requires
        k < 8,
    ensures
        w == weight(k as int),
{
    if k == 0 {
        128
    } else if k == 1 {
        64
    } else if k == 2 {
        32
    } else if k == 3 {
        16
    } else if k == 4 {
        8
    } else if k == 5 {
        4
    } else if k == 6 {
        2
    } else {
        1
    }
}

impl Clone for Tuple {
    fn clone(&self) -> (r: Self)
        ensures
            r@ == self@,
    {
        let mut values: Vec<DataValue> = Vec::new();
        let mut i: usize = 0;
        while i < self.values.len()
            invariant
                i <= self.values.len(),
                values.len() == i,
                forall|k: int| 0 <= k < i ==> values@[k]@ == self.values@[k]@,
            decreases self.values.len() - i,
        {
            values.push(self.values[i].clone());
            i += 1;
        }
        assert(value_models(values@) =~= value_models(self.values@));
        Tuple {
            pk: match &self.pk {
                Some(v) => Some(v.clone()),
                None => None,
            },
            values,
        }
    }
}

/// Whether two runs of values are equal, position by position.
pub fn values_equal(a: &[DataValue], b: &[DataValue]) -> (r: bool)
    ensures
        r == values_eq(value_models(a@), value_models(b@)),
{
    if a.len() != b.len() {
        return false;
    }
    let mut i: usize = 0;
    while i < a.len()
        invariant
            i <= a@.len(),
            a@.len() == b@.len(),
            forall|k: int| 0 <= k < i ==> value_eq(a@[k]@, b@[k]@),
        decreases a@.len() - i,
    {
        if !a[i].eq(&b[i]) {
            assert(value_models(a@)[i as int] == a@[i as int]@);
            assert(value_models(b@)[i as int] == b@[i as int]@);
            return false;
        }
        i += 1;
    }
    assert forall|k: int| 0 <= k < a@.len() implies value_eq(
        value_models(a@)[k],
        #[trigger] value_models(b@)[k],
    ) by {
        assert(value_models(a@)[k] == a@[k]@);
        assert(value_models(b@)[k] == b@[k]@);
    }
    true
}

impl PartialEq for Tuple {
    fn eq(&self, other: &Self) -> (r: bool) {
        let same_pk = match (&self.pk, &other.pk) {
            (Some(x), Some(y)) => x.eq(y),
            (None, None) => true,
            _ => false,
        };
        same_pk && values_equal(self.values.as_slice(), other.values.as_slice())
    }
}

impl vstd::std_specs::cmp::PartialEqSpecImpl for Tuple {
    open spec fn obeys_eq_spec() -> bool {
        true
    }

    open spec fn eq_spec(&self, other: &Self) -> bool {
        tuple_eq(self@, other@)
    }
}

impl Tuple {
    /// A row of `values` with the key `pk`.
    pub fn new(pk: Option<TupleId>, values: Vec<DataValue>) -> (r: Tuple)
        ensures
            r.pk == pk,
            r.values == values,
    {
        Tuple { pk, values }
    }

    /// The primary key that the values at `pk_indices` make.
    pub fn primary_projection(pk_indices: &[usize], values: &[DataValue]) -> (r: TupleId)
        requires
            pk_indices_ok(pk_indices@, values@.len()),
        ensures
            r@ == pk_of(pk_indices@, value_models(values@)),
    {
        if pk_indices.len() > 1 {
            let mut out: Vec<DataValue> = Vec::new();
            let mut k: usize = 0;
            while k < pk_indices.len()
                invariant
                    k <= pk_indices@.len(),
                    out.len() == k,
                    pk_indices_ok(pk_indices@, values@.len()),
                    forall|j: int| 0 <= j < k ==> out@[j]@ == values@[pk_indices@[j] as int]@,
                decreases pk_indices@.len() - k,
            {
                out.push(values[pk_indices[k]].clone());
                k += 1;
            }
            proof {
                lemma_tuple_view(out, false);
                let want = Seq::new(
                    pk_indices@.len(),
                    |k: int| value_models(values@)[pk_indices@[k] as int],
                );
                assert(value_models(out@) =~= want);
            }
            DataValue::Tuple(out, false)
        } else {
            values[pk_indices[0]].clone()
        }
    }

    /// The stored form of the row, in a byte string of `arena`: the null
    /// bitmap, then the values that are not null. A row that holds a tuple
    /// is refused with `InvalidType`, a text too long to store with
    /// `TooLong`.
    pub fn serialize_to<'a>(&self, types: &[LogicalType], arena: &'a bumpalo::Bump) -> (r: Result<
        BumpBytes<'a>,
        DatabaseError,
    >)
        ensures
            has_nested(self@.values) ==> (r matches Err(e) && e is InvalidType),
            !has_nested(self@.values) ==> match row_encode(self@.values) {
                Some(bytes) => r matches Ok(b) && b@ == bytes,
                None => r matches Err(e) && e is TooLong,
            },
    {
        let n: usize = self.values.len();
        let mut t: usize = 0;
        while t < n
            invariant
                t <= n == self.values@.len(),
                forall|i: int| 0 <= i < t ==> !(#[trigger] self.values@[i]@ is Tuple),
            decreases n - t,
        {
            if let DataValue::Tuple(vs, up) = &self.values[t] {
                proof {
                    lemma_tuple_view(*vs, *up);
                    assert(value_models(self.values@)[t as int] == self.values@[t as int]@);
                }
                return Err(DatabaseError::InvalidType);
            }
            t += 1;
        }
        assert(!has_nested(self@.values)) by {
            if has_nested(self@.values) {
                let i = choose|i: int| 0 <= i < self@.values.len() && self@.values[i] is Tuple;
                assert(value_models(self.values@)[i] == self.values@[i]@);
            }
        }
        let bits_len: usize = n / 8 + if n % 8 != 0 {
            1
        } else {
            0
        };
        let ghost vs = self@.values;
        let mut bytes = BumpBytes::new_in(arena);
        let mut j: usize = 0;
        while j < bits_len
            invariant
                j <= bits_len == bitmap_len(n as nat),
                n == self.values@.len(),
                vs == value_models(self.values@),
                bytes@ == null_bitmap(vs).subrange(0, j as int),
            decreases bits_len - j,
        {
            let mut acc: u8 = 0;
            let mut k: usize = 0;
            while k < 8
                invariant
                    k <= 8,
                    j < bits_len == bitmap_len(n as nat),
                    n == self.values@.len(),
                    vs == value_models(self.values@),
                    acc == null_bits(vs, 8 * j, k as nat),
                    k < 8 ==> acc + 2 * weight(k as int) <= 256,
                decreases 8 - k,
            {
                let i: usize = j * 8 + k;
                if i < n && self.values[i].is_null() {
                    acc = acc + bit_weight(k);
                }
                k += 1;
            }
            bytes.push(acc);
            assert(bytes@ =~= null_bitmap(vs).subrange(0, j + 1));
            j += 1;
        }
        assert(bytes@ =~= null_bitmap(vs));
        let mut i: usize = 0;
        assert(bytes@ =~= null_bitmap(vs) + payload(vs, 0)->0);
        while i < n
            invariant
                i <= n == self.values@.len(),
                vs == value_models(self.values@),
                forall|i: int|
                    0 <= i < self.values@.len() ==> !(#[trigger] self.values@[i]@ is Tuple),
                payload(vs, i as nat) is Some,
                bytes@ == null_bitmap(vs) + payload(vs, i as nat)->0,
            decreases n - i,
        {
            assert(vs[i as int] == self.values@[i as int]@);
            assert(!(self.values@[i as int]@ is Tuple));
            let ghost before = bytes@;
            match self.values[i].to_raw(&mut bytes) {
                Ok(_) => {},
                Err(e) => {
                    proof {
                        lemma_payload_fails(vs, (i + 1) as nat, n as nat);
                    }
                    return Err(e);
                },
            }
            assert(bytes@ =~= null_bitmap(vs) + payload(vs, (i + 1) as nat)->0);
            i += 1;
        }
        Ok(bytes)
    }

    /// Reads the columns `projections` of a row of `table_types` from its
    /// stored form: one value for each place of `projections`, in the order
    /// of the columns. With `with_pk` the row gets the key that its values
    /// at `pk_indices` make; where those do not all name a value that was
    /// read, that is refused with `PrimaryKeyNotFound`.
    pub fn deserialize_from(
        table_types: &[LogicalType],
        pk_indices: &[usize],
        projections: &[usize],
        schema: &Schema,
        bytes: &[u8],
        with_pk: bool,
    ) -> (r: Result<Tuple, DatabaseError>)
        ensures
            match row_decode(type_models(table_types@), projections@, bytes@) {
                RowOutcome::Values(vs) => if with_pk && !pk_indices_ok(
                    pk_indices@,
                    projections@.len(),
                ) {
                    r matches Err(e) && e is PrimaryKeyNotFound
                } else {
                    r matches Ok(t) && t@.values == vs && t@.pk == (if with_pk {
                        Some(pk_of(pk_indices@, vs))
                    } else {
                        None
                    })
                },
                RowOutcome::Eof => r matches Err(e) && e is Io,
                RowOutcome::BadText => r matches Err(e) && e is FromUtf8Error,
            },
    {
        let types_len: usize = table_types.len();
        let bits_len: usize = types_len / 8 + if types_len % 8 != 0 {
            1
        } else {
            0
        };
        if bytes.len() < bits_len {
            return Err(DatabaseError::Io);
        }
        let ghost tys = type_models(table_types@);
        let mut values: Vec<DataValue> = Vec::new();
        let mut k: usize = 0;
        while k < projections.len()
            invariant
                k <= projections@.len(),
                values.len() == k,
                forall|j: int| 0 <= j < k ==> values@[j]@ is Null,
            decreases projections@.len() - k,
        {
            values.push(DataValue::Null);
            k += 1;
        }
        assert(value_models(values@) =~= nulls(projections@.len()));
        let mut projection_i: usize = 0;
        let mut pos: usize = bits_len;
        let mut i: usize = 0;
        while i < types_len && projection_i < projections.len()
            invariant
                i <= types_len == table_types@.len(),
                bits_len == bitmap_len(types_len as nat) <= bytes@.len(),
                tys == type_models(table_types@),
                values.len() == projections@.len(),
                projection_i <= projections@.len(),
                row_decode(tys, projections@, bytes@) == row_decode_from(
                    tys,
                    projections@,
                    bytes@,
                    i as nat,
                    pos as nat,
                    projection_i as nat,
                    value_models(values@),
                ),
            decreases types_len - i,
        {
            let wanted: bool = projections[projection_i] == i;
            assert(tys[i as int] == table_types@[i as int]@);
            let byte: u8 = bytes[i / 8];
            let marked: bool = (byte / bit_weight(i % 8)) % 2 == 1;
            if marked {
                if wanted {
                    projection_i += 1;
                }
            } else {
                let ghost before = value_models(values@);
                match DataValue::from_raw(bytes, &mut pos, &table_types[i], wanted) {
                    Ok(Some(value)) => {
                        values.set(projection_i, value);
                        assert(value_models(values@) =~= before.update(
                            projection_i as int,
                            value@,
                        ));
                        projection_i += 1;
                    },
                    Ok(None) => {},
                    Err(e) => {
                        return Err(e);
                    },
                }
            }
            i += 1;
        }
        let pk = if with_pk {
            let mut ok: bool = pk_indices.len() >= 1;
            let mut k: usize = 0;
            while k < pk_indices.len()
                invariant
                    k <= pk_indices@.len(),
                    values.len() == projections@.len(),
                    ok == (pk_indices@.len() >= 1 && forall|j: int|
                        0 <= j < k ==> pk_indices@[j] < values@.len()),
                decreases pk_indices@.len() - k,
            {
                if pk_indices[k] >= values.len() {
                    ok = false;
                }
                k += 1;
            }
            if !ok {
                return Err(DatabaseError::PrimaryKeyNotFound);
            }
            Some(Tuple::primary_projection(pk_indices, values.as_slice()))
        } else {
            None
        };
        Ok(Tuple { pk, values })
    }
}

/// Once a value cannot be stored, the row cannot be.
proof fn lemma_payload_fails(vs: Seq<Value>, k: nat, n: nat)
    requires
        k <= n,
        payload(vs, k) is None,
    ensures
        payload(vs, n) is None,
    decreases n - k,
{
    if k < n {
        lemma_payload_fails(vs, k, (n - 1) as nat);
    }
}

} // verus!
