use crate::bytes::{bytes_lt, bytes_lt_at};
use crate::decimal::{decimal_order_of, order_of_sign, Decimal, ValueOrder};
use crate::errors::DatabaseError;
use crate::types::{lemma_tuple_type_view, type_models, CharLengthUnits, LogicalType, TypeModel};
use vstd::prelude::*;
use vstd::utf8::encode_utf8;

verus! {

/// Days from 0001-01-01 (day 1) to 1970-01-01, the default of the `Date` type.
pub const UNIX_EPOCH_DAYS_FROM_CE: i32 = 719163;

/// Whether a text value was declared with a variable or a fixed length.
#[derive(Debug, Clone, Copy, PartialEq, Eq, Structural)]
pub enum Utf8Type {
    Variable(Option<u32>),
    Fixed(u32),
}

/// A scalar of the engine, or a tuple of them.
///
/// `Float32` and `Float64` hold the IEEE-754 bit pattern of the number.
/// `Tuple(values, is_upper)`: with `is_upper` the tuple stands for the open
/// upper end of all tuples that extend it.
#[derive(Debug)]
pub enum DataValue {
    Null,
    Boolean(bool),
    Float32(u32),
    Float64(u64),
    Int8(i8),
    Int16(i16),
    Int32(i32),
    Int64(i64),
    UInt8(u8),
    UInt16(u16),
    UInt32(u32),
    UInt64(u64),
    Utf8 { value: String, ty: Utf8Type, unit: CharLengthUnits },
    /// Days since 0001-01-01 counted as day 1.
    Date32(i32),
    /// Seconds since the Unix epoch.
    Date64(i64),
    /// (packed time of day, precision)
    Time32(u32, u64),
    /// (timestamp, precision, has a zone)
    Time64(i64, u64, bool),
    Decimal(Decimal),
    /// (values, is_upper)
    Tuple(Vec<DataValue>, bool),
}

/// Mathematical model of a [`DataValue`].
pub enum Value {
    Null,
    Boolean(bool),
    Float32(u32),
    Float64(u64),
    Int8(i8),
    Int16(i16),
    Int32(i32),
    Int64(i64),
    UInt8(u8),
    UInt16(u16),
    UInt32(u32),
    UInt64(u64),
    Utf8 { value: Seq<char>, ty: Utf8Type, unit: CharLengthUnits },
    Date32(i32),
    Date64(i64),
    Time32(u32, u64),
    Time64(i64, u64, bool),
    Decimal(Decimal),
    Tuple(Seq<Value>, bool),
}

/// The model of one value.
pub open spec fn value_model(v: DataValue) -> Value
    decreases v,
{
    match v {
        DataValue::Null => Value::Null,
        DataValue::Boolean(x) => Value::Boolean(x),
        DataValue::Float32(x) => Value::Float32(x),
        DataValue::Float64(x) => Value::Float64(x),
        DataValue::Int8(x) => Value::Int8(x),
        DataValue::Int16(x) => Value::Int16(x),
        DataValue::Int32(x) => Value::Int32(x),
        DataValue::Int64(x) => Value::Int64(x),
        DataValue::UInt8(x) => Value::UInt8(x),
        DataValue::UInt16(x) => Value::UInt16(x),
        DataValue::UInt32(x) => Value::UInt32(x),
        DataValue::UInt64(x) => Value::UInt64(x),
        DataValue::Utf8 { value, ty, unit } => Value::Utf8 { value: value@, ty, unit },
        DataValue::Date32(x) => Value::Date32(x),
        DataValue::Date64(x) => Value::Date64(x),
        DataValue::Time32(x, p) => Value::Time32(x, p),
        DataValue::Time64(x, p, z) => Value::Time64(x, p, z),
        DataValue::Decimal(d) => Value::Decimal(d),
        DataValue::Tuple(vs, up) => Value::Tuple(
            Seq::new(
                vs@.len(),
                |i: int|
                    if 0 <= i < vs@.len() {
                        value_model(vs@[i])
                    } else {
                        Value::Null
                    },
            ),
            up,
        ),
    }
}

impl View for DataValue {
    type V = Value;

    open spec fn view(&self) -> Value {
        value_model(*self)
    }
}

/// The models of a run of values, position by position.
pub open spec fn value_models(vs: Seq<DataValue>) -> Seq<Value> {
    Seq::new(vs.len(), |i: int| vs[i]@)
}

/// A tuple is modelled by the models of its components and its flag.
pub proof fn lemma_tuple_view(vs: Vec<DataValue>, up: bool)
    ensures
        DataValue::Tuple(vs, up)@ == Value::Tuple(value_models(vs@), up),
{
    reveal_with_fuel(value_model, 2);
    let t = DataValue::Tuple(vs, up);
    assert(t@->Tuple_0 =~= value_models(vs@));
}

/// Where a 32-bit float stands in the total order of its kind: negative
/// numbers below zero, both zeros at 0, every NaN at one place above
/// infinity.
pub open spec fn float32_rank(bits: u32) -> int {
    let mag = bits as int % 0x8000_0000;
    if mag > 0x7F80_0000 {
        0x8000_0000
    } else if bits >= 0x8000_0000 {
        -mag
    } else {
        mag
    }
}

/// Where a 64-bit float stands in the total order of its kind.
pub open spec fn float64_rank(bits: u64) -> int {
    let mag = bits as int % 0x8000_0000_0000_0000;
    if mag > 0x7FF0_0000_0000_0000 {
        0x8000_0000_0000_0000
    } else if bits >= 0x8000_0000_0000_0000 {
        -mag
    } else {
        mag
    }
}

/// The order of two byte strings, byte by byte; a proper prefix sorts first.
pub open spec fn bytes_order(a: Seq<u8>, b: Seq<u8>) -> ValueOrder {
    if a == b {
        ValueOrder::Equal
    } else if bytes_lt(a, b) {
        ValueOrder::Less
    } else {
        ValueOrder::Greater
    }
}

/// Equality of values as the engine sees it: two nulls are equal, text
/// compares by content only, times by their first field, decimals and floats
/// by number, tuples component by component and by flag. Values of different
/// kinds are never equal.
#[verifier::opaque]
pub open spec fn value_eq(a: Value, b: Value) -> bool
    decreases a,
{
    match (a, b) {
        (Value::Null, Value::Null) => true,
        (Value::Boolean(x), Value::Boolean(y)) => x == y,
        (Value::Float32(x), Value::Float32(y)) => float32_rank(x) == float32_rank(y),
        (Value::Float64(x), Value::Float64(y)) => float64_rank(x) == float64_rank(y),
        (Value::Int8(x), Value::Int8(y)) => x == y,
        (Value::Int16(x), Value::Int16(y)) => x == y,
        (Value::Int32(x), Value::Int32(y)) => x == y,
        (Value::Int64(x), Value::Int64(y)) => x == y,
        (Value::UInt8(x), Value::UInt8(y)) => x == y,
        (Value::UInt16(x), Value::UInt16(y)) => x == y,
        (Value::UInt32(x), Value::UInt32(y)) => x == y,
        (Value::UInt64(x), Value::UInt64(y)) => x == y,
        (Value::Utf8 { value: x, .. }, Value::Utf8 { value: y, .. }) => x == y,
        (Value::Date32(x), Value::Date32(y)) => x == y,
        (Value::Date64(x), Value::Date64(y)) => x == y,
        (Value::Time32(x, _), Value::Time32(y, _)) => x == y,
        (Value::Time64(x, _, _), Value::Time64(y, _, _)) => x == y,
        (Value::Decimal(x), Value::Decimal(y)) => decimal_order_of(x.m(), x.s(), y.m(), y.s())
            == ValueOrder::Equal,
        (Value::Tuple(xs, ux), Value::Tuple(ys, uy)) => {
            &&& ux == uy
            &&& xs.len() == ys.len()
            &&& forall|i: int| 0 <= i < xs.len() ==> value_eq(xs[i], #[trigger] ys[i])
        },
        _ => false,
    }
}

/// The order of two values, where they have one: values of the same scalar
/// kind order by number, by truth value (`false` first), or byte by byte for
/// text; two nulls are equal. Values of different kinds, and tuples, have
/// none.
#[verifier::opaque]
pub open spec fn value_order(a: Value, b: Value) -> Option<ValueOrder> {
    match (a, b) {
        (Value::Null, Value::Null) => Some(ValueOrder::Equal),
        (Value::Boolean(x), Value::Boolean(y)) => Some(
            order_of_sign(
                (if x {
                    1int
                } else {
                    0int
                }) - (if y {
                    1int
                } else {
                    0int
                }),
            ),
        ),
        (Value::Float32(x), Value::Float32(y)) => Some(
            order_of_sign(float32_rank(x) - float32_rank(y)),
        ),
        (Value::Float64(x), Value::Float64(y)) => Some(
            order_of_sign(float64_rank(x) - float64_rank(y)),
        ),
        (Value::Int8(x), Value::Int8(y)) => Some(order_of_sign(x - y)),
        (Value::Int16(x), Value::Int16(y)) => Some(order_of_sign(x - y)),
        (Value::Int32(x), Value::Int32(y)) => Some(order_of_sign(x - y)),
        (Value::Int64(x), Value::Int64(y)) => Some(order_of_sign(x - y)),
        (Value::UInt8(x), Value::UInt8(y)) => Some(order_of_sign(x - y)),
        (Value::UInt16(x), Value::UInt16(y)) => Some(order_of_sign(x - y)),
        (Value::UInt32(x), Value::UInt32(y)) => Some(order_of_sign(x - y)),
        (Value::UInt64(x), Value::UInt64(y)) => Some(order_of_sign(x - y)),
        (Value::Utf8 { value: x, .. }, Value::Utf8 { value: y, .. }) => Some(
            bytes_order(encode_utf8(x), encode_utf8(y)),
        ),
        (Value::Date32(x), Value::Date32(y)) => Some(order_of_sign(x - y)),
        (Value::Date64(x), Value::Date64(y)) => Some(order_of_sign(x - y)),
        (Value::Time32(x, _), Value::Time32(y, _)) => Some(order_of_sign(x - y)),
        (Value::Time64(x, _, _), Value::Time64(y, _, _)) => Some(order_of_sign(x - y)),
        (Value::Decimal(x), Value::Decimal(y)) => Some(
            decimal_order_of(x.m(), x.s(), y.m(), y.s()),
        ),
        _ => None,
    }
}

/// The type that a value reports for itself.
pub open spec fn type_of(v: Value) -> TypeModel
    decreases v,
{
    match v {
        Value::Null => TypeModel::SqlNull,
        Value::Boolean(_) => TypeModel::Boolean,
        Value::Float32(_) => TypeModel::Float,
        Value::Float64(_) => TypeModel::Double,
        Value::Int8(_) => TypeModel::Tinyint,
        Value::Int16(_) => TypeModel::Smallint,
        Value::Int32(_) => TypeModel::Integer,
        Value::Int64(_) => TypeModel::Bigint,
        Value::UInt8(_) => TypeModel::UTinyint,
        Value::UInt16(_) => TypeModel::USmallint,
        Value::UInt32(_) => TypeModel::UInteger,
        Value::UInt64(_) => TypeModel::UBigint,
        Value::Utf8 { ty: Utf8Type::Variable(len), unit, .. } => TypeModel::Varchar(len, unit),
        Value::Utf8 { ty: Utf8Type::Fixed(len), unit, .. } => TypeModel::Char(len, unit),
        Value::Date32(_) => TypeModel::Date,
        Value::Date64(_) => TypeModel::DateTime,
        Value::Time32(_, _) => TypeModel::Time(None),
        Value::Time64(_, _, _) => TypeModel::TimeStamp(None, false),
        Value::Decimal(_) => TypeModel::Decimal(None, None),
        Value::Tuple(vs, _) => TypeModel::Tuple(
            Seq::new(
                vs.len(),
                |i: int|
                    if 0 <= i < vs.len() {
                        type_of(vs[i])
                    } else {
                        TypeModel::SqlNull
                    },
            ),
        ),
    }
}

/// The default value of a type: zero, the empty text, the Unix epoch, and
/// for a tuple type the tuple of its components' defaults.
pub open spec fn init_value(ty: TypeModel) -> Value
    decreases ty,
{
    match ty {
        TypeModel::SqlNull => Value::Null,
        TypeModel::Boolean => Value::Boolean(false),
        TypeModel::Tinyint => Value::Int8(0),
        TypeModel::UTinyint => Value::UInt8(0),
        TypeModel::Smallint => Value::Int16(0),
        TypeModel::USmallint => Value::UInt16(0),
        TypeModel::Integer => Value::Int32(0),
        TypeModel::UInteger => Value::UInt32(0),
        TypeModel::Bigint => Value::Int64(0),
        TypeModel::UBigint => Value::UInt64(0),
        TypeModel::Float => Value::Float32(0),
        TypeModel::Double => Value::Float64(0),
        TypeModel::Char(len, unit) => Value::Utf8 {
            value: Seq::empty(),
            ty: Utf8Type::Fixed(len),
            unit,
        },
        TypeModel::Varchar(len, unit) => Value::Utf8 {
            value: Seq::empty(),
            ty: Utf8Type::Variable(len),
            unit,
        },
        TypeModel::Date => Value::Date32(UNIX_EPOCH_DAYS_FROM_CE),
        TypeModel::DateTime => Value::Date64(0),
        TypeModel::Time(p) => Value::Time32(
            0,
            match p {
                Some(i) => i,
                None => 0,
            },
        ),
        TypeModel::TimeStamp(p, zone) => Value::Time64(
            0,
            match p {
                Some(i) => i,
                None => 0,
            },
            zone,
        ),
        TypeModel::Decimal(_, _) => Value::Decimal(zero_decimal()),
        TypeModel::Tuple(tys) => Value::Tuple(
            Seq::new(
                tys.len(),
                |i: int|
                    if 0 <= i < tys.len() {
                        init_value(tys[i])
                    } else {
                        Value::Null
                    },
            ),
            false,
        ),
    }
}

/// The decimal `0` with no fractional digits.
pub open spec fn zero_decimal() -> Decimal {
    choose|d: Decimal| d.m() == 0 && d.s() == 0
}

/// A lone value stands for itself, several stand as a plain tuple, none as
/// nothing.
pub open spec fn tuple_of_values(vs: Seq<Value>) -> Option<Value> {
    if vs.len() > 1 {
        Some(Value::Tuple(vs, false))
    } else if vs.len() == 1 {
        Some(vs[0])
    } else {
        None
    }
}

/// The number of leading positions on which two byte strings agree.
pub open spec fn common_prefix(a: Seq<u8>, b: Seq<u8>) -> nat
    decreases a.len(),
{
    if a.len() == 0 || b.len() == 0 || a[0] != b[0] {
        0
    } else {
        1 + common_prefix(a.skip(1), b.skip(1))
    }
}

/// No byte string sorts both before and after another.
pub proof fn lemma_bytes_lt_asym(a: Seq<u8>, b: Seq<u8>)
    requires
        bytes_lt(a, b),
    ensures
        !bytes_lt(b, a),
        a != b,
{
    let k = choose|k: int| bytes_lt_at(a, b, k);
    if bytes_lt(b, a) {
        let j = choose|j: int| bytes_lt_at(b, a, j);
        if j < k {
            assert(a.subrange(0, k)[j] == b.subrange(0, k)[j]);
        } else if k < j {
            assert(b.subrange(0, j)[k] == a.subrange(0, j)[k]);
        }
    }
}

/// The order of two byte slices, byte by byte.
pub fn order_bytes(a: &[u8], b: &[u8]) -> (r: ValueOrder)
    ensures
        r == bytes_order(a@, b@),
{
    let mut i: usize = 0;
    while i < a.len() && i < b.len()
        invariant
            i <= a@.len(),
            i <= b@.len(),
            a@.subrange(0, i as int) == b@.subrange(0, i as int),
        decreases a@.len() - i,
    {
        if a[i] < b[i] {
            assert(bytes_lt_at(a@, b@, i as int));
            return ValueOrder::Less;
        }
        if a[i] > b[i] {
            assert(bytes_lt_at(b@, a@, i as int));
            proof {
                lemma_bytes_lt_asym(b@, a@);
            }
            return ValueOrder::Greater;
        }
        assert(a@.subrange(0, i + 1) =~= a@.subrange(0, i as int).push(a@[i as int]));
        assert(b@.subrange(0, i + 1) =~= b@.subrange(0, i as int).push(b@[i as int]));
        i += 1;
    }
    if a.len() == b.len() {
        assert(a@ =~= a@.subrange(0, i as int));
        assert(b@ =~= b@.subrange(0, i as int));
        ValueOrder::Equal
    } else if a.len() < b.len() {
        assert(a@ =~= a@.subrange(0, i as int));
        assert(bytes_lt_at(a@, b@, i as int));
        ValueOrder::Less
    } else {
        assert(b@ =~= b@.subrange(0, i as int));
        assert(bytes_lt_at(b@, a@, i as int));
        proof {
            lemma_bytes_lt_asym(b@, a@);
        }
        ValueOrder::Greater
    }
}

/// The order of two machine integers.
pub fn order_i128(x: i128, y: i128) -> (r: ValueOrder)
    ensures
        r == order_of_sign(x - y),
{
    if x < y {
        ValueOrder::Less
    } else if x == y {
        ValueOrder::Equal
    } else {
        ValueOrder::Greater
    }
}

/// The rank of a 32-bit float given by its bits.
pub fn rank_float32(bits: u32) -> (r: i64)
    ensures
        r == float32_rank(bits),
{
    let mag: u32 = bits % 0x8000_0000;
    if mag > 0x7F80_0000 {
        0x8000_0000
    } else if bits >= 0x8000_0000 {
        -(mag as i64)
    } else {
        mag as i64
    }
}

/// The rank of a 64-bit float given by its bits.
pub fn rank_float64(bits: u64) -> (r: i128)
    ensures
        r == float64_rank(bits),
{
    let mag: u64 = bits % 0x8000_0000_0000_0000;
    if mag > 0x7FF0_0000_0000_0000 {
        0x8000_0000_0000_0000
    } else if bits >= 0x8000_0000_0000_0000 {
        -(mag as i128)
    } else {
        mag as i128
    }
}

impl Clone for DataValue {
    fn clone(&self) -> (r: Self)
        ensures
            r@ == self@,
        decreases self,
    {
        match self {
            DataValue::Null => DataValue::Null,
            DataValue::Boolean(x) => DataValue::Boolean(*x),
            DataValue::Float32(x) => DataValue::Float32(*x),
            DataValue::Float64(x) => DataValue::Float64(*x),
            DataValue::Int8(x) => DataValue::Int8(*x),
            DataValue::Int16(x) => DataValue::Int16(*x),
            DataValue::Int32(x) => DataValue::Int32(*x),
            DataValue::Int64(x) => DataValue::Int64(*x),
            DataValue::UInt8(x) => DataValue::UInt8(*x),
            DataValue::UInt16(x) => DataValue::UInt16(*x),
            DataValue::UInt32(x) => DataValue::UInt32(*x),
            DataValue::UInt64(x) => DataValue::UInt64(*x),
            DataValue::Utf8 { value, ty, unit } => DataValue::Utf8 {
                value: value.clone(),
                ty: *ty,
                unit: *unit,
            },
            DataValue::Date32(x) => DataValue::Date32(*x),
            DataValue::Date64(x) => DataValue::Date64(*x),
            DataValue::Time32(x, p) => DataValue::Time32(*x, *p),
            DataValue::Time64(x, p, z) => DataValue::Time64(*x, *p, *z),
            DataValue::Decimal(d) => DataValue::Decimal(*d),
            DataValue::Tuple(vs, up) => {
                let mut out: Vec<DataValue> = Vec::new();
                let mut i: usize = 0;
                while i < vs.len()
                    invariant
                        i <= vs.len(),
                        out.len() == i,
                        *self == DataValue::Tuple(*vs, *up),
                        forall|k: int| 0 <= k < i ==> out@[k]@ == vs@[k]@,
                    decreases vs.len() - i,
                {
                    assert(decreases_to!(self => self->Tuple_0));
                    assert(decreases_to!(*vs => vs@));
                    assert(decreases_to!(vs@ => vs@[i as int]));
                    out.push(vs[i].clone());
                    i += 1;
                }
                proof {
                    lemma_tuple_view(out, *up);
                    lemma_tuple_view(*vs, *up);
                    assert(value_models(out@) =~= value_models(vs@));
                }
                DataValue::Tuple(out, *up)
            },
        }
    }
}

impl PartialEq for DataValue {
    fn eq(&self, other: &Self) -> (r: bool)
        decreases self,
    {
        reveal_with_fuel(value_eq, 2);
        match (self, other) {
            (DataValue::Null, DataValue::Null) => true,
            (DataValue::Boolean(x), DataValue::Boolean(y)) => *x == *y,
            (DataValue::Float32(x), DataValue::Float32(y)) => rank_float32(*x) == rank_float32(
                *y,
            ),
            (DataValue::Float64(x), DataValue::Float64(y)) => rank_float64(*x) == rank_float64(
                *y,
            ),
            (DataValue::Int8(x), DataValue::Int8(y)) => *x == *y,
            (DataValue::Int16(x), DataValue::Int16(y)) => *x == *y,
            (DataValue::Int32(x), DataValue::Int32(y)) => *x == *y,
            (DataValue::Int64(x), DataValue::Int64(y)) => *x == *y,
            (DataValue::UInt8(x), DataValue::UInt8(y)) => *x == *y,
            (DataValue::UInt16(x), DataValue::UInt16(y)) => *x == *y,
            (DataValue::UInt32(x), DataValue::UInt32(y)) => *x == *y,
            (DataValue::UInt64(x), DataValue::UInt64(y)) => *x == *y,
            (DataValue::Utf8 { value: x, .. }, DataValue::Utf8 { value: y, .. }) => (*x).eq(y),
            (DataValue::Date32(x), DataValue::Date32(y)) => *x == *y,
            (DataValue::Date64(x), DataValue::Date64(y)) => *x == *y,
            (DataValue::Time32(x, _), DataValue::Time32(y, _)) => *x == *y,
            (DataValue::Time64(x, _, _), DataValue::Time64(y, _, _)) => *x == *y,
            (DataValue::Decimal(x), DataValue::Decimal(y)) => {
                match x.order(y) {
                    ValueOrder::Equal => true,
                    _ => false,
                }
            },
            (DataValue::Tuple(a, ua), DataValue::Tuple(b, ub)) => {
                proof {
                    lemma_tuple_view(*a, *ua);
                    lemma_tuple_view(*b, *ub);
                }
                if *ua != *ub || a.len() != b.len() {
                    return false;
                }
                let mut i: usize = 0;
                while i < a.len()
                    invariant
                        i <= a.len(),
                        a.len() == b.len(),
                        *ua == *ub,
                        *self == DataValue::Tuple(*a, *ua),
                        *other == DataValue::Tuple(*b, *ub),
                        self@ == Value::Tuple(value_models(a@), *ua),
                        other@ == Value::Tuple(value_models(b@), *ub),
                        forall|k: int| 0 <= k < i ==> value_eq(a@[k]@, b@[k]@),
                    decreases a.len() - i,
                {
                    assert(decreases_to!(self => self->Tuple_0));
                    assert(decreases_to!(*a => a@));
                    assert(decreases_to!(a@ => a@[i as int]));
                    if !a[i].eq(&b[i]) {
                        proof {
                            reveal_with_fuel(value_eq, 2);
                            assert(value_models(a@)[i as int] == a@[i as int]@);
                            assert(value_models(b@)[i as int] == b@[i as int]@);
                        }
                        return false;
                    }
                    i += 1;
                }
                proof {
                    reveal_with_fuel(value_eq, 2);
                    assert forall|k: int| 0 <= k < a@.len() implies value_eq(
                        value_models(a@)[k],
                        #[trigger] value_models(b@)[k],
                    ) by {
                        assert(value_models(a@)[k] == a@[k]@);
                        assert(value_models(b@)[k] == b@[k]@);
                    }
                }
                true
            },
            _ => false,
        }
    }
}

impl vstd::std_specs::cmp::PartialEqSpecImpl for DataValue {
    open spec fn obeys_eq_spec() -> bool {
        true
    }

    open spec fn eq_spec(&self, other: &Self) -> bool {
        value_eq(self@, other@)
    }
}

impl DataValue {
    /// Text with no declared length, counted in characters.
    pub fn text(value: String) -> (r: DataValue)
        ensures
            r@ == (Value::Utf8 {
                value: value@,
                ty: Utf8Type::Variable(None),
                unit: CharLengthUnits::Characters,
            }),
    {
        DataValue::Utf8 {
            value,
            ty: Utf8Type::Variable(None),
            unit: CharLengthUnits::Characters,
        }
    }

    /// Whether the value is the SQL null.
    pub fn is_null(&self) -> (r: bool)
        ensures
            r == (self@ is Null),
    {
        match self {
            DataValue::Null => true,
            _ => false,
        }
    }

    /// The text of a text value.
    pub fn utf8(&self) -> (r: Option<&str>)
        ensures
            match self@ {
                Value::Utf8 { value, .. } => r is Some && r->0@ == value,
                _ => r is None,
            },
    {
        match self {
            DataValue::Utf8 { value, .. } => Some(value.as_str()),
            _ => None,
        }
    }

    /// The truth value of a boolean.
    pub fn bool(&self) -> (r: Option<bool>)
        ensures
            r == (match self@ {
                Value::Boolean(x) => Some(x),
                _ => None,
            }),
    {
        match self {
            DataValue::Boolean(x) => Some(*x),
            _ => None,
        }
    }

    /// The number of an `Int8`.
    pub fn i8(&self) -> (r: Option<i8>)
        ensures
            r == (match self@ {
                Value::Int8(x) => Some(x),
                _ => None,
            }),
    {
        match self {
            DataValue::Int8(x) => Some(*x),
            _ => None,
        }
    }

    /// The number of an `Int16`.
    pub fn i16(&self) -> (r: Option<i16>)
        ensures
            r == (match self@ {
                Value::Int16(x) => Some(x),
                _ => None,
            }),
    {
        match self {
            DataValue::Int16(x) => Some(*x),
            _ => None,
        }
    }

    /// The number of an `Int32`.
    pub fn i32(&self) -> (r: Option<i32>)
        ensures
            r == (match self@ {
                Value::Int32(x) => Some(x),
                _ => None,
            }),
    {
        match self {
            DataValue::Int32(x) => Some(*x),
            _ => None,
        }
    }

    /// The number of an `Int64`.
    pub fn i64(&self) -> (r: Option<i64>)
        ensures
            r == (match self@ {
                Value::Int64(x) => Some(x),
                _ => None,
            }),
    {
        match self {
            DataValue::Int64(x) => Some(*x),
            _ => None,
        }
    }

    /// The number of a `UInt8`.
    pub fn u8(&self) -> (r: Option<u8>)
        ensures
            r == (match self@ {
                Value::UInt8(x) => Some(x),
                _ => None,
            }),
    {
        match self {
            DataValue::UInt8(x) => Some(*x),
            _ => None,
        }
    }

    /// The number of a `UInt16`.
    pub fn u16(&self) -> (r: Option<u16>)
        ensures
            r == (match self@ {
                Value::UInt16(x) => Some(x),
                _ => None,
            }),
    {
        match self {
            DataValue::UInt16(x) => Some(*x),
            _ => None,
        }
    }

    /// The number of a `UInt32`.
    pub fn u32(&self) -> (r: Option<u32>)
        ensures
            r == (match self@ {
                Value::UInt32(x) => Some(x),
                _ => None,
            }),
    {
        match self {
            DataValue::UInt32(x) => Some(*x),
            _ => None,
        }
    }

    /// The number of a `UInt64`.
    pub fn u64(&self) -> (r: Option<u64>)
        ensures
            r == (match self@ {
                Value::UInt64(x) => Some(x),
                _ => None,
            }),
    {
        match self {
            DataValue::UInt64(x) => Some(*x),
            _ => None,
        }
    }

    /// The number of a decimal value.
    pub fn decimal(&self) -> (r: Option<Decimal>)
        ensures
            r == (match self@ {
                Value::Decimal(x) => Some(x),
                _ => None,
            }),
    {
        match self {
            DataValue::Decimal(x) => Some(*x),
            _ => None,
        }
    }

    /// A boolean as a condition: null counts as false; anything but a
    /// boolean or null is refused.
    pub fn is_true(&self) -> (r: Result<bool, DatabaseError>)
        ensures
            match self@ {
                Value::Null => r == Ok::<bool, DatabaseError>(false),
                Value::Boolean(x) => r == Ok::<bool, DatabaseError>(x),
                _ => r is Err && r->Err_0 is InvalidType,
            },
    {
        match self {
            DataValue::Null => Ok(false),
            DataValue::Boolean(x) => Ok(*x),
            _ => Err(DatabaseError::InvalidType),
        }
    }

    /// How `self` stands to `other`, where the two have an order.
    pub fn compare(&self, other: &DataValue) -> (r: Option<ValueOrder>)
        ensures
            r == value_order(self@, other@),
    {
        reveal(value_order);
        match (self, other) {
            (DataValue::Null, DataValue::Null) => Some(ValueOrder::Equal),
            (DataValue::Boolean(x), DataValue::Boolean(y)) => {
                let a: i128 = if *x {
                    1
                } else {
                    0
                };
                let b: i128 = if *y {
                    1
                } else {
                    0
                };
                Some(order_i128(a, b))
            },
            (DataValue::Float32(x), DataValue::Float32(y)) => Some(
                order_i128(rank_float32(*x) as i128, rank_float32(*y) as i128),
            ),
            (DataValue::Float64(x), DataValue::Float64(y)) => Some(
                order_i128(rank_float64(*x), rank_float64(*y)),
            ),
            (DataValue::Int8(x), DataValue::Int8(y)) => Some(order_i128(*x as i128, *y as i128)),
            (DataValue::Int16(x), DataValue::Int16(y)) => Some(order_i128(*x as i128, *y as i128)),
            (DataValue::Int32(x), DataValue::Int32(y)) => Some(order_i128(*x as i128, *y as i128)),
            (DataValue::Int64(x), DataValue::Int64(y)) => Some(order_i128(*x as i128, *y as i128)),
            (DataValue::UInt8(x), DataValue::UInt8(y)) => Some(order_i128(*x as i128, *y as i128)),
            (DataValue::UInt16(x), DataValue::UInt16(y)) => Some(
                order_i128(*x as i128, *y as i128),
            ),
            (DataValue::UInt32(x), DataValue::UInt32(y)) => Some(
                order_i128(*x as i128, *y as i128),
            ),
            (DataValue::UInt64(x), DataValue::UInt64(y)) => Some(
                order_i128(*x as i128, *y as i128),
            ),
            (DataValue::Utf8 { value: x, .. }, DataValue::Utf8 { value: y, .. }) => Some(
                order_bytes(x.as_str().as_bytes(), y.as_str().as_bytes()),
            ),
            (DataValue::Date32(x), DataValue::Date32(y)) => Some(order_i128(*x as i128, *y as i128)),
            (DataValue::Date64(x), DataValue::Date64(y)) => Some(order_i128(*x as i128, *y as i128)),
            (DataValue::Time32(x, _), DataValue::Time32(y, _)) => Some(
                order_i128(*x as i128, *y as i128),
            ),
            (DataValue::Time64(x, _, _), DataValue::Time64(y, _, _)) => Some(
                order_i128(*x as i128, *y as i128),
            ),
            (DataValue::Decimal(x), DataValue::Decimal(y)) => Some(x.order(y)),
            _ => None,
        }
    }

    /// The default value of a type.
    pub fn init(logic_type: &LogicalType) -> (r: DataValue)
        ensures
            r@ == init_value(logic_type@),
        decreases logic_type,
    {
        match logic_type {
            LogicalType::SqlNull => DataValue::Null,
            LogicalType::Boolean => DataValue::Boolean(false),
            LogicalType::Tinyint => DataValue::Int8(0),
            LogicalType::UTinyint => DataValue::UInt8(0),
            LogicalType::Smallint => DataValue::Int16(0),
            LogicalType::USmallint => DataValue::UInt16(0),
            LogicalType::Integer => DataValue::Int32(0),
            LogicalType::UInteger => DataValue::UInt32(0),
            LogicalType::Bigint => DataValue::Int64(0),
            LogicalType::UBigint => DataValue::UInt64(0),
            LogicalType::Float => DataValue::Float32(0),
            LogicalType::Double => DataValue::Float64(0),
            LogicalType::Char(len, unit) => DataValue::Utf8 {
                value: String::new(),
                ty: Utf8Type::Fixed(*len),
                unit: *unit,
            },
            LogicalType::Varchar(len, unit) => DataValue::Utf8 {
                value: String::new(),
                ty: Utf8Type::Variable(*len),
                unit: *unit,
            },
            LogicalType::Date => DataValue::Date32(UNIX_EPOCH_DAYS_FROM_CE),
            LogicalType::DateTime => DataValue::Date64(0),
            LogicalType::Time(precision) => match precision {
                Some(i) => DataValue::Time32(0, *i),
                None => DataValue::Time32(0, 0),
            },
            LogicalType::TimeStamp(precision, zone) => match precision {
                Some(i) => DataValue::Time64(0, *i, *zone),
                None => DataValue::Time64(0, 0, *zone),
            },
            LogicalType::Decimal(_, _) => {
                let d = Decimal::new(0, 0);
                proof {
                    Decimal::lemma_same(d, zero_decimal());
                }
                DataValue::Decimal(d)
            },
            LogicalType::Tuple(types) => {
                let mut values: Vec<DataValue> = Vec::new();
                let mut i: usize = 0;
                while i < types.len()
                    invariant
                        i <= types.len(),
                        values.len() == i,
                        *logic_type == LogicalType::Tuple(*types),
                        forall|k: int| 0 <= k < i ==> values@[k]@ == init_value(types@[k]@),
                    decreases types.len() - i,
                {
                    assert(decreases_to!(logic_type => logic_type->Tuple_0));
                    assert(decreases_to!(*types => types@));
                    assert(decreases_to!(types@ => types@[i as int]));
                    values.push(DataValue::init(&types[i]));
                    i += 1;
                }
                proof {
                    lemma_tuple_view(values, false);
                    lemma_tuple_type_view(*types);
                    reveal_with_fuel(init_value, 2);
                    let want = init_value(logic_type@);
                    assert(want->Tuple_0 =~= value_models(values@)) by {
                        assert forall|k: int| 0 <= k < types@.len() implies want->Tuple_0[k]
                            == value_models(values@)[k] by {
                            assert(type_models(types@)[k] == types@[k]@);
                        }
                    }
                }
                DataValue::Tuple(values, false)
            },
        }
    }

    /// The type that the value reports for itself. Times and decimals
    /// report their type without precision.
    pub fn logical_type(&self) -> (r: LogicalType)
        ensures
            r@ == type_of(self@),
        decreases self,
    {
        match self {
            DataValue::Null => LogicalType::SqlNull,
            DataValue::Boolean(_) => LogicalType::Boolean,
            DataValue::Float32(_) => LogicalType::Float,
            DataValue::Float64(_) => LogicalType::Double,
            DataValue::Int8(_) => LogicalType::Tinyint,
            DataValue::Int16(_) => LogicalType::Smallint,
            DataValue::Int32(_) => LogicalType::Integer,
            DataValue::Int64(_) => LogicalType::Bigint,
            DataValue::UInt8(_) => LogicalType::UTinyint,
            DataValue::UInt16(_) => LogicalType::USmallint,
            DataValue::UInt32(_) => LogicalType::UInteger,
            DataValue::UInt64(_) => LogicalType::UBigint,
            DataValue::Utf8 { ty: Utf8Type::Variable(len), unit, .. } => LogicalType::Varchar(
                *len,
                *unit,
            ),
            DataValue::Utf8 { ty: Utf8Type::Fixed(len), unit, .. } => LogicalType::Char(
                *len,
                *unit,
            ),
            DataValue::Date32(_) => LogicalType::Date,
            DataValue::Date64(_) => LogicalType::DateTime,
            DataValue::Time32(_, _) => LogicalType::Time(None),
            DataValue::Time64(_, _, _) => LogicalType::TimeStamp(None, false),
            DataValue::Decimal(_) => LogicalType::Decimal(None, None),
            DataValue::Tuple(values, up) => {
                let mut types: Vec<LogicalType> = Vec::new();
                let mut i: usize = 0;
                while i < values.len()
                    invariant
                        i <= values.len(),
                        types.len() == i,
                        *self == DataValue::Tuple(*values, *up),
                        forall|k: int| 0 <= k < i ==> types@[k]@ == type_of(values@[k]@),
                    decreases values.len() - i,
                {
                    assert(decreases_to!(self => self->Tuple_0));
                    assert(decreases_to!(*values => values@));
                    assert(decreases_to!(values@ => values@[i as int]));
                    types.push(values[i].logical_type());
                    i += 1;
                }
                proof {
                    lemma_tuple_view(*values, *up);
                    lemma_tuple_type_view(types);
                    reveal_with_fuel(type_of, 2);
                    let want = type_of(self@);
                    assert(want->Tuple_0 =~= type_models(types@)) by {
                        assert forall|k: int| 0 <= k < values@.len() implies want->Tuple_0[k]
                            == type_models(types@)[k] by {
                            assert(value_models(values@)[k] == values@[k]@);
                        }
                    }
                }
                LogicalType::Tuple(types)
            },
        }
    }

    /// A lone value stands for itself, several stand as a plain tuple, none
    /// as nothing.
    pub fn values_to_tuple(values: Vec<DataValue>) -> (r: Option<DataValue>)
        ensures
            match tuple_of_values(value_models(values@)) {
                Some(v) => r is Some && r->0@ == v,
                None => r is None,
            },
    {
        let mut values = values;
        if values.len() > 1 {
            proof {
                lemma_tuple_view(values, false);
            }
            Some(DataValue::Tuple(values, false))
        } else {
            let ghost before = values@;
            let r = values.pop();
            proof {
                if before.len() == 1 {
                    assert(value_models(before)[0] == before[0]@);
                }
            }
            r
        }
    }

    /// For two texts, the number of leading bytes on which they agree; 0 for
    /// two nulls and for two other values; nothing where exactly one is null.
    pub fn common_prefix_length(&self, target: &DataValue) -> (r: Option<usize>)
        ensures
            match (self@, target@) {
                (Value::Null, Value::Null) => r == Some(0usize),
                (Value::Null, _) => r is None,
                (_, Value::Null) => r is None,
                (Value::Utf8 { value: x, .. }, Value::Utf8 { value: y, .. }) => r is Some && r->0
                    == common_prefix(encode_utf8(x), encode_utf8(y)),
                _ => r == Some(0usize),
            },
    {
        match (self, target) {
            (DataValue::Null, DataValue::Null) => Some(0),
            (DataValue::Null, _) => None,
            (_, DataValue::Null) => None,
            (DataValue::Utf8 { value: v1, .. }, DataValue::Utf8 { value: v2, .. }) => {
                let a = v1.as_str().as_bytes();
                let b = v2.as_str().as_bytes();
                let mut i: usize = 0;
                assert(a@.skip(0) =~= a@);
                assert(b@.skip(0) =~= b@);
                while i < a.len() && i < b.len() && a[i] == b[i]
                    invariant
                        i <= a@.len(),
                        i <= b@.len(),
                        common_prefix(a@, b@) == i + common_prefix(
                            a@.skip(i as int),
                            b@.skip(i as int),
                        ),
                    decreases a@.len() - i,
                {
                    proof {
                        let sa = a@.skip(i as int);
                        let sb = b@.skip(i as int);
                        assert(sa[0] == a@[i as int]);
                        assert(sb[0] == b@[i as int]);
                        assert(sa.skip(1) =~= a@.skip(i + 1));
                        assert(sb.skip(1) =~= b@.skip(i + 1));
                    }
                    i += 1;
                }
                proof {
                    let sa = a@.skip(i as int);
                    let sb = b@.skip(i as int);
                    if i < a@.len() && i < b@.len() {
                        assert(sa[0] == a@[i as int]);
                        assert(sb[0] == b@[i as int]);
                    }
                    assert(common_prefix(sa, sb) == 0);
                }
                Some(i)
            },
            _ => Some(0),
        }
    }
}

} // verus!
