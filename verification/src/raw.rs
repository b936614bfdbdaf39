use crate::arena::BumpBytes;
use crate::bytes::{le_bytes, le_value, lemma_pow256_bound, pow256, push_le, read_le};
use crate::decimal::{decimal_decode, decimal_raw, Decimal};
use crate::errors::DatabaseError;
use crate::types::{CharLengthUnits, LogicalType, TypeModel};
use crate::value::{DataValue, Utf8Type, Value};
use vstd::prelude::*;
use vstd::slice::{slice_subrange, slice_to_vec};
use vstd::utf8::{decode_utf8, encode_utf8, valid_utf8};

verus! {

/// The byte of a space, with which fixed-length text is filled up.
pub const SPACE: u8 = 0x20;

/// The number of bytes in `bytes` that start a character of UTF-8 text:
/// all but those of the form `10xxxxxx`.
pub open spec fn text_chars(bytes: Seq<u8>) -> nat
    decreases bytes.len(),
{
    if bytes.len() == 0 {
        0
    } else {
        text_chars(bytes.drop_last()) + if 0x80 <= bytes.last() < 0xC0 {
            0nat
        } else {
            1nat
        }
    }
}

/// `n` spaces.
pub open spec fn spaces(n: nat) -> Seq<u8> {
    Seq::new(n, |i: int| SPACE)
}

/// A signed number of `w` bytes as the unsigned number with the same bits.
pub open spec fn twos(x: int, w: nat) -> nat {
    if x < 0 {
        (x + pow256(w)) as nat
    } else {
        x as nat
    }
}

/// The signed number of `w` bytes with the same bits as `u`.
pub open spec fn untwos(u: nat, w: nat) -> int {
    if 2 * u >= pow256(w) {
        u - pow256(w)
    } else {
        u as int
    }
}

/// The length of `bytes` without the spaces at its end.
pub open spec fn trimmed_len(bytes: Seq<u8>) -> nat
    decreases bytes.len(),
{
    if bytes.len() > 0 && bytes.last() == SPACE {
        trimmed_len(bytes.drop_last())
    } else {
        bytes.len()
    }
}

/// The stored form of a text of a fixed number of characters: filled up with
/// spaces to `len` characters.
pub open spec fn padded_chars(bytes: Seq<u8>, len: nat) -> Seq<u8> {
    if text_chars(bytes) < len {
        bytes + spaces((len - text_chars(bytes)) as nat)
    } else {
        bytes
    }
}

/// The stored form of a value in a row, or nothing where the value is text
/// too long to store. Integers, floats, dates and times are little-endian;
/// text of variable length, and text of a fixed number of characters, has
/// its byte length in front as four bytes; text of a fixed number of bytes
/// is filled up with spaces and has none. Null is stored as nothing.
pub open spec fn raw_encode(v: Value) -> Option<Seq<u8>> {
    match v {
        Value::Null => Some(Seq::empty()),
        Value::Boolean(x) => Some(
            seq![if x {
                1u8
            } else {
                0u8
            }],
        ),
        Value::Float32(x) => Some(le_bytes(x as nat, 4)),
        Value::Float64(x) => Some(le_bytes(x as nat, 8)),
        Value::Int8(x) => Some(le_bytes(twos(x as int, 1), 1)),
        Value::Int16(x) => Some(le_bytes(twos(x as int, 2), 2)),
        Value::Int32(x) => Some(le_bytes(twos(x as int, 4), 4)),
        Value::Int64(x) => Some(le_bytes(twos(x as int, 8), 8)),
        Value::UInt8(x) => Some(le_bytes(x as nat, 1)),
        Value::UInt16(x) => Some(le_bytes(x as nat, 2)),
        Value::UInt32(x) => Some(le_bytes(x as nat, 4)),
        Value::UInt64(x) => Some(le_bytes(x as nat, 8)),
        Value::Utf8 { value, ty: Utf8Type::Variable(_), .. } => {
            let bytes = encode_utf8(value);
            if bytes.len() <= u32::MAX {
                Some(le_bytes(bytes.len(), 4) + bytes)
            } else {
                None
            }
        },
        Value::Utf8 { value, ty: Utf8Type::Fixed(len), unit: CharLengthUnits::Characters } => {
            let bytes = padded_chars(encode_utf8(value), len as nat);
            if bytes.len() <= u32::MAX {
                Some(le_bytes(bytes.len(), 4) + bytes)
            } else {
                None
            }
        },
        Value::Utf8 { value, ty: Utf8Type::Fixed(len), unit: CharLengthUnits::Octets } => {
            let bytes = encode_utf8(value);
            if bytes.len() <= len {
                Some(bytes + spaces((len - bytes.len()) as nat))
            } else {
                None
            }
        },
        Value::Date32(x) => Some(le_bytes(twos(x as int, 4), 4)),
        Value::Date64(x) => Some(le_bytes(twos(x as int, 8), 8)),
        Value::Time32(x, _) => Some(le_bytes(x as nat, 4)),
        Value::Time64(x, _, _) => Some(le_bytes(twos(x as int, 8), 8)),
        Value::Decimal(d) => Some(decimal_raw(d.m(), d.s())),
        Value::Tuple(_, _) => None,
    }
}

/// What reading one stored value comes to.
pub enum RawOutcome {
    /// The value, and the position behind it.
    Value(Value, nat),
    /// Not asked for: only the position behind it.
    Skipped(nat),
    /// The bytes end before the value does.
    Eof,
    /// The bytes of a text are not UTF-8.
    BadText,
}

/// The number of bytes that a value of a type without a length of its own
/// takes in a row.
pub open spec fn fixed_width(ty: TypeModel) -> nat {
    match ty {
        TypeModel::Boolean | TypeModel::Tinyint | TypeModel::UTinyint => 1,
        TypeModel::Smallint | TypeModel::USmallint => 2,
        TypeModel::Integer | TypeModel::UInteger | TypeModel::Float | TypeModel::Date
        | TypeModel::Time(_) => 4,
        TypeModel::Bigint | TypeModel::UBigint | TypeModel::Double | TypeModel::DateTime
        | TypeModel::TimeStamp(_, _) => 8,
        TypeModel::Decimal(_, _) => 16,
        _ => 0,
    }
}

/// The precision that a type declares, 0 where it declares none.
pub open spec fn precision_of(p: Option<u64>) -> u64 {
    match p {
        Some(x) => x,
        None => 0,
    }
}

/// The value of a type of fixed width that `w` stored bytes spell.
pub open spec fn fixed_decode(ty: TypeModel, w: Seq<u8>) -> Value {
    let u = le_value(w);
    match ty {
        TypeModel::Boolean => Value::Boolean(u != 0),
        TypeModel::Tinyint => Value::Int8(untwos(u, 1) as i8),
        TypeModel::UTinyint => Value::UInt8(u as u8),
        TypeModel::Smallint => Value::Int16(untwos(u, 2) as i16),
        TypeModel::USmallint => Value::UInt16(u as u16),
        TypeModel::Integer => Value::Int32(untwos(u, 4) as i32),
        TypeModel::UInteger => Value::UInt32(u as u32),
        TypeModel::Bigint => Value::Int64(untwos(u, 8) as i64),
        TypeModel::UBigint => Value::UInt64(u as u64),
        TypeModel::Float => Value::Float32(u as u32),
        TypeModel::Double => Value::Float64(u as u64),
        TypeModel::Date => Value::Date32(untwos(u, 4) as i32),
        TypeModel::DateTime => Value::Date64(untwos(u, 8) as i64),
        TypeModel::Time(p) => Value::Time32(u as u32, precision_of(p)),
        TypeModel::TimeStamp(p, z) => Value::Time64(untwos(u, 8) as i64, precision_of(p), z),
        TypeModel::Decimal(_, _) => Value::Decimal(decimal_decode(w)),
        _ => Value::Null,
    }
}

/// Reading a text of `n` bytes at `at`: skipped, or decoded, without the
/// spaces at its end where `trim` says so.
pub open spec fn text_read(
    bytes: Seq<u8>,
    at: nat,
    n: nat,
    ty: Utf8Type,
    unit: CharLengthUnits,
    trim: bool,
    proj: bool,
) -> RawOutcome {
    if at + n > usize::MAX {
        RawOutcome::Eof
    } else if !proj {
        RawOutcome::Skipped(at + n)
    } else if at + n > bytes.len() {
        RawOutcome::Eof
    } else {
        let whole = bytes.subrange(at as int, (at + n) as int);
        let content = if trim {
            whole.subrange(0, trimmed_len(whole) as int)
        } else {
            whole
        };
        if valid_utf8(content) {
            RawOutcome::Value(Value::Utf8 { value: decode_utf8(content), ty, unit }, at + n)
        } else {
            RawOutcome::BadText
        }
    }
}

/// Reading the stored value of type `ty` at `pos`. With `proj` the value is
/// decoded; without, it is only stepped over, which does not look whether
/// the bytes reach that far.
pub open spec fn raw_read(bytes: Seq<u8>, pos: nat, ty: TypeModel, proj: bool) -> RawOutcome {
    match ty {
        TypeModel::SqlNull | TypeModel::Tuple(_) => if proj {
            RawOutcome::Value(Value::Null, pos)
        } else {
            RawOutcome::Skipped(pos)
        },
        TypeModel::Varchar(len, unit) => if pos + 4 > bytes.len() {
            RawOutcome::Eof
        } else {
            text_read(
                bytes,
                pos + 4,
                le_value(bytes.subrange(pos as int, (pos + 4) as int)),
                Utf8Type::Variable(len),
                unit,
                false,
                proj,
            )
        },
        TypeModel::Char(len, CharLengthUnits::Characters) => if pos + 4 > bytes.len() {
            RawOutcome::Eof
        } else {
            text_read(
                bytes,
                pos + 4,
                le_value(bytes.subrange(pos as int, (pos + 4) as int)),
                Utf8Type::Fixed(len),
                CharLengthUnits::Characters,
                true,
                proj,
            )
        },
        TypeModel::Char(len, CharLengthUnits::Octets) => text_read(
            bytes,
            pos,
            len as nat,
            Utf8Type::Fixed(len),
            CharLengthUnits::Octets,
            true,
            proj,
        ),
        _ => {
            let w = fixed_width(ty);
            if pos + w > usize::MAX {
                RawOutcome::Eof
            } else if !proj {
                RawOutcome::Skipped(pos + w)
            } else if pos + w > bytes.len() {
                RawOutcome::Eof
            } else {
                RawOutcome::Value(
                    fixed_decode(ty, bytes.subrange(pos as int, (pos + w) as int)),
                    pos + w,
                )
            }
        },
    }
}

/// `String::from_utf8` of std: the text whose UTF-8 form the bytes are, or
/// nothing where they are no UTF-8.
#[verifier::external_body]
fn string_from_utf8(bytes: Vec<u8>) -> (r: Option<String>)
    ensures
        r is Some <==> valid_utf8(bytes@),
        r matches Some(s) ==> s@ == decode_utf8(bytes@),
{
    String::from_utf8(bytes).ok()
}

/// The text whose UTF-8 form `bytes` are, if they are one.
pub fn string_from_bytes(bytes: &[u8]) -> (r: Option<String>)
    ensures
        r is Some <==> valid_utf8(bytes@),
        r matches Some(s) ==> s@ == decode_utf8(bytes@),
{
    string_from_utf8(slice_to_vec(bytes))
}

/// The number of bytes of `bytes` that start a character.
pub fn count_chars(bytes: &[u8]) -> (n: usize)
    ensures
        n == text_chars(bytes@),
{
    let mut n: usize = 0;
    let mut i: usize = 0;
    assert(bytes@.subrange(0, 0) =~= Seq::<u8>::empty());
    while i < bytes.len()
        invariant
            i <= bytes@.len(),
            n <= i,
            n == text_chars(bytes@.subrange(0, i as int)),
        decreases bytes@.len() - i,
    {
        proof {
            let next = bytes@.subrange(0, i + 1);
            assert(next.drop_last() =~= bytes@.subrange(0, i as int));
            assert(next.last() == bytes@[i as int]);
        }
        if !(bytes[i] >= 0x80 && bytes[i] < 0xC0) {
            n += 1;
        }
        i += 1;
    }
    assert(bytes@.subrange(0, i as int) =~= bytes@);
    n
}

/// Appends `n` spaces.
fn push_spaces(b: &mut BumpBytes, n: usize)
    ensures
        final(b)@ == old(b)@ + spaces(n as nat),
{
    let mut i: usize = 0;
    assert(b@ =~= old(b)@ + spaces(0));
    while i < n
        invariant
            i <= n,
            b@ == old(b)@ + spaces(i as nat),
        decreases n - i,
    {
        b.push(SPACE);
        assert(b@ =~= old(b)@ + spaces((i + 1) as nat));
        i += 1;
    }
}

/// The length of `bytes` without the spaces at its end.
fn trim_end(bytes: &[u8]) -> (n: usize)
    ensures
        n == trimmed_len(bytes@),
        n <= bytes@.len(),
{
    let mut n: usize = bytes.len();
    assert(bytes@.subrange(0, n as int) =~= bytes@);
    while n > 0 && bytes[n - 1] == SPACE
        invariant
            n <= bytes@.len(),
            trimmed_len(bytes@) == trimmed_len(bytes@.subrange(0, n as int)),
        decreases n,
    {
        proof {
            let cur = bytes@.subrange(0, n as int);
            assert(cur.drop_last() =~= bytes@.subrange(0, n - 1));
        }
        n -= 1;
    }
    n
}

/// The unsigned number with the same `n` bytes as the signed `x`.
pub fn to_twos(x: i64, n: usize) -> (u: u64)
    requires
        n == 1 || n == 2 || n == 4 || n == 8,
        -(pow256(n as nat) as int) <= 2 * x < pow256(n as nat),
    ensures
        u == twos(x as int, n as nat),
        u < pow256(n as nat),
{
    proof {
        lemma_pow256_bound(n as nat);
    }
    if x >= 0 {
        x as u64
    } else if n == 1 {
        (x + 0x100) as u64
    } else if n == 2 {
        (x + 0x1_0000) as u64
    } else if n == 4 {
        (x + 0x1_0000_0000) as u64
    } else {
        (x as i128 + 0x1_0000_0000_0000_0000) as u64
    }
}

/// The signed number with the same `n` bytes as the unsigned `u`.
pub fn from_twos(u: u64, n: usize) -> (x: i64)
    requires
        n == 1 || n == 2 || n == 4 || n == 8,
        u < pow256(n as nat),
    ensures
        x == untwos(u as nat, n as nat),
        -(pow256(n as nat) as int) <= 2 * x < pow256(n as nat),
{
    proof {
        lemma_pow256_bound(n as nat);
    }
    if n == 1 {
        if u >= 0x80 {
            u as i64 - 0x100
        } else {
            u as i64
        }
    } else if n == 2 {
        if u >= 0x8000 {
            u as i64 - 0x1_0000
        } else {
            u as i64
        }
    } else if n == 4 {
        if u >= 0x8000_0000 {
            u as i64 - 0x1_0000_0000
        } else {
            u as i64
        }
    } else {
        if u >= 0x8000_0000_0000_0000 {
            (u as i128 - 0x1_0000_0000_0000_0000) as i64
        } else {
            u as i64
        }
    }
}

impl DataValue {
    /// Appends the stored form of the value, as a row holds it. Text that is
    /// too long to store in its form is refused with `TooLong`, and nothing
    /// is appended.
    pub fn to_raw(&self, writer: &mut BumpBytes) -> (r: Result<(), DatabaseError>)
        requires
            !(self@ is Tuple),
        ensures
            match raw_encode(self@) {
                Some(bytes) => r is Ok && final(writer)@ == old(writer)@ + bytes,
                None => r is Err && r->Err_0 is TooLong && final(writer)@ == old(writer)@,
            },
    {
        proof {
            lemma_pow256_bound(1);
            lemma_pow256_bound(2);
            lemma_pow256_bound(4);
            lemma_pow256_bound(8);
        }
        match self {
            DataValue::Null => {
                assert(writer@ =~= old(writer)@ + Seq::<u8>::empty());
            },
            DataValue::Boolean(v) => {
                writer.push(
                    if *v {
                        1
                    } else {
                        0
                    },
                );
                assert(writer@ =~= old(writer)@ + raw_encode(self@)->0);
            },
            DataValue::Float32(v) => push_le(writer, *v as u64, 4),
            DataValue::Float64(v) => push_le(writer, *v, 8),
            DataValue::Int8(v) => push_le(writer, to_twos(*v as i64, 1), 1),
            DataValue::Int16(v) => push_le(writer, to_twos(*v as i64, 2), 2),
            DataValue::Int32(v) => push_le(writer, to_twos(*v as i64, 4), 4),
            DataValue::Int64(v) => push_le(writer, to_twos(*v, 8), 8),
            DataValue::UInt8(v) => push_le(writer, *v as u64, 1),
            DataValue::UInt16(v) => push_le(writer, *v as u64, 2),
            DataValue::UInt32(v) => push_le(writer, *v as u64, 4),
            DataValue::UInt64(v) => push_le(writer, *v, 8),
            DataValue::Utf8 { value, ty, unit } => {
                let bytes = value.as_str().as_bytes();
                match ty {
                    Utf8Type::Variable(_) => {
                        if bytes.len() > u32::MAX as usize {
                            return Err(DatabaseError::TooLong);
                        }
                        push_le(writer, bytes.len() as u64, 4);
                        writer.extend_from_slice(bytes);
                        assert(writer@ =~= old(writer)@ + raw_encode(self@)->0);
                    },
                    Utf8Type::Fixed(len) => match unit {
                        CharLengthUnits::Characters => {
                            let chars: usize = count_chars(bytes);
                            let pad: usize = if chars < *len as usize {
                                *len as usize - chars
                            } else {
                                0
                            };
                            if pad > u32::MAX as usize - 0 || bytes.len() > u32::MAX as usize
                                - pad {
                                proof {
                                    assert(padded_chars(bytes@, *len as nat).len() == bytes@.len()
                                        + pad);
                                }
                                return Err(DatabaseError::TooLong);
                            }
                            push_le(writer, (bytes.len() + pad) as u64, 4);
                            writer.extend_from_slice(bytes);
                            if pad > 0 {
                                push_spaces(writer, pad);
                            }
                            assert(writer@ =~= old(writer)@ + raw_encode(self@)->0);
                        },
                        CharLengthUnits::Octets => {
                            if bytes.len() > *len as usize {
                                return Err(DatabaseError::TooLong);
                            }
                            writer.extend_from_slice(bytes);
                            push_spaces(writer, *len as usize - bytes.len());
                            assert(writer@ =~= old(writer)@ + raw_encode(self@)->0);
                        },
                    },
                }
            },
            DataValue::Date32(v) => push_le(writer, to_twos(*v as i64, 4), 4),
            DataValue::Date64(v) => push_le(writer, to_twos(*v, 8), 8),
            DataValue::Time32(v, _) => push_le(writer, *v as u64, 4),
            DataValue::Time64(v, _, _) => push_le(writer, to_twos(*v, 8), 8),
            DataValue::Decimal(v) => {
                let raw = v.to_raw_bytes();
                writer.extend_from_slice(raw.as_slice());
            },
            DataValue::Tuple(_, _) => {
                proof {
                    crate::value::lemma_tuple_view(self->Tuple_0, self->Tuple_1);
                }
            },
        }
        Ok(())
    }

    /// Reads the stored value of type `ty` at `*pos` and moves `*pos` behind
    /// it. With `is_projection` the value is decoded and handed out; without,
    /// it is only stepped over. A type of tuples stores nothing.
    pub fn from_raw(bytes: &[u8], pos: &mut usize, ty: &LogicalType, is_projection: bool) -> (r:
        Result<Option<DataValue>, DatabaseError>)
        ensures
            match raw_read(bytes@, *old(pos) as nat, ty@, is_projection) {
                RawOutcome::Value(v, p) => r matches Ok(Some(x)) && x@ == v && *final(pos) == p,
                RawOutcome::Skipped(p) => r matches Ok(None) && *final(pos) == p,
                RawOutcome::Eof => r matches Err(e) && e is Io,
                RawOutcome::BadText => r matches Err(e) && e is FromUtf8Error,
            },
    {
        proof {
            lemma_pow256_bound(1);
            lemma_pow256_bound(2);
            lemma_pow256_bound(4);
            lemma_pow256_bound(8);
        }
        let at: usize = *pos;
        let len: usize = bytes.len();
        let stores_nothing: bool = match ty {
            LogicalType::SqlNull => true,
            LogicalType::Tuple(_) => {
                proof {
                    crate::types::lemma_tuple_type_view(ty->Tuple_0);
                }
                true
            },
            _ => false,
        };
        if stores_nothing {
            return if is_projection {
                Ok(Some(DataValue::Null))
            } else {
                Ok(None)
            };
        }
        let (width, text): (usize, Option<(Utf8Type, CharLengthUnits, bool, bool)>) = match ty {
            LogicalType::SqlNull | LogicalType::Tuple(_) => (0, None),
            LogicalType::Boolean | LogicalType::Tinyint | LogicalType::UTinyint => (1, None),
            LogicalType::Smallint | LogicalType::USmallint => (2, None),
            LogicalType::Integer | LogicalType::UInteger | LogicalType::Float | LogicalType::Date
            | LogicalType::Time(_) => (4, None),
            LogicalType::Bigint | LogicalType::UBigint | LogicalType::Double
            | LogicalType::DateTime | LogicalType::TimeStamp(_, _) => (8, None),
            LogicalType::Decimal(_, _) => (16, None),
            LogicalType::Varchar(l, unit) => (0, Some((Utf8Type::Variable(*l), *unit, false, true))),
            LogicalType::Char(l, unit) => match unit {
                CharLengthUnits::Characters => (0, Some((Utf8Type::Fixed(*l), *unit, true, true))),
                CharLengthUnits::Octets => (
                    *l as usize,
                    Some((Utf8Type::Fixed(*l), *unit, true, false)),
                ),
            },
        };
        if let Some((text_ty, unit, trim, prefixed)) = text {
            let (start, n): (usize, usize) = if prefixed {
                if at > len || len - at < 4 {
                    return Err(DatabaseError::Io);
                }
                (at + 4, read_le(bytes, at, 4) as usize)
            } else {
                (at, width)
            };
            if n > usize::MAX - start {
                return Err(DatabaseError::Io);
            }
            if !is_projection {
                *pos = start + n;
                return Ok(None);
            }
            if start + n > len {
                return Err(DatabaseError::Io);
            }
            let whole = slice_subrange(bytes, start, start + n);
            let keep: usize = if trim {
                trim_end(whole)
            } else {
                n
            };
            let content = slice_to_vec(slice_subrange(whole, 0, keep));
            assert(whole@.subrange(0, n as int) =~= whole@);
            return match string_from_utf8(content) {
                Some(value) => {
                    *pos = start + n;
                    Ok(Some(DataValue::Utf8 { value, ty: text_ty, unit }))
                },
                None => Err(DatabaseError::FromUtf8Error),
            };
        }
        if width > usize::MAX - at {
            return Err(DatabaseError::Io);
        }
        if !is_projection {
            *pos = at + width;
            return Ok(None);
        }
        if at + width > len {
            return Err(DatabaseError::Io);
        }
        let value = match ty {
            LogicalType::Boolean => DataValue::Boolean(read_le(bytes, at, 1) != 0),
            LogicalType::Tinyint => DataValue::Int8(from_twos(read_le(bytes, at, 1), 1) as i8),
            LogicalType::UTinyint => DataValue::UInt8(read_le(bytes, at, 1) as u8),
            LogicalType::Smallint => DataValue::Int16(from_twos(read_le(bytes, at, 2), 2) as i16),
            LogicalType::USmallint => DataValue::UInt16(read_le(bytes, at, 2) as u16),
            LogicalType::Integer => DataValue::Int32(from_twos(read_le(bytes, at, 4), 4) as i32),
            LogicalType::UInteger => DataValue::UInt32(read_le(bytes, at, 4) as u32),
            LogicalType::Bigint => DataValue::Int64(from_twos(read_le(bytes, at, 8), 8)),
            LogicalType::UBigint => DataValue::UInt64(read_le(bytes, at, 8)),
            LogicalType::Float => DataValue::Float32(read_le(bytes, at, 4) as u32),
            LogicalType::Double => DataValue::Float64(read_le(bytes, at, 8)),
            LogicalType::Date => DataValue::Date32(from_twos(read_le(bytes, at, 4), 4) as i32),
            LogicalType::DateTime => DataValue::Date64(from_twos(read_le(bytes, at, 8), 8)),
            LogicalType::Time(precision) => DataValue::Time32(
                read_le(bytes, at, 4) as u32,
                match precision {
                    Some(p) => *p,
                    None => 0,
                },
            ),
            LogicalType::TimeStamp(precision, zone) => DataValue::Time64(
                from_twos(read_le(bytes, at, 8), 8),
                match precision {
                    Some(p) => *p,
                    None => 0,
                },
                *zone,
            ),
            LogicalType::Decimal(_, _) => DataValue::Decimal(
                Decimal::from_raw_bytes(slice_subrange(bytes, at, at + 16)),
            ),
            _ => DataValue::Null,
        };
        *pos = at + width;
        Ok(Some(value))
    }
}

} // verus!
