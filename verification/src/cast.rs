use crate::decimal::{
    decimal_parsed, decimal_text, decimal_with, magnitude, pow10, truncated_to, Decimal,
    DECIMAL_MAX_MANTISSA,
};
use crate::errors::DatabaseError;
use crate::memcomparable::digits10;
use crate::raw::{count_chars, precision_of, text_chars};
use crate::text::{
    append_text, bool_to_string, false_text, has_byte, int_text, integer_to_string, parse_bool,
    parse_signed, parse_unsigned, signed_parsed, true_text, unsigned_parsed,
};
use crate::time::{
    chrono_clock, chrono_date_text, chrono_datetime_text, chrono_midnight, chrono_parse_date,
    chrono_parse_datetime, chrono_parse_time, chrono_parse_zoned, chrono_time_text,
    chrono_timestamp_text, clock_at, date_parsed, date_text_of, datetime_parsed, datetime_text_of,
    midnight_at, packed, time_format, time_format_of, time_parsed, time_text_of, timestamp_parts,
    timestamp_text_of, unpacked, zoned_format, zoned_format_of, zoned_parsed, ONE_DAY_TO_SEC,
    ONE_SEC_TO_NANO,
};
use crate::types::{lemma_tuple_type_view, type_models, CharLengthUnits, LogicalType, TypeModel};
use crate::value::{lemma_tuple_view, type_of, value_models, DataValue, Utf8Type, Value};
use vstd::prelude::*;
use vstd::utf8::encode_utf8;

verus! {

/// Why a value cannot be brought to a type.
#[derive(Debug, Clone, Copy, PartialEq, Eq, Structural)]
pub enum CastFault {
    /// There is no conversion between the two types, or the value has none.
    CastFail,
    /// An integer is outside the target integer type.
    TryFromInt,
    /// A float is at or below zero, or above the target integer type.
    OverFlow,
    /// A text is not `true` or `false`.
    ParseBool,
    /// A text is no integer of the target type.
    ParseInt,
    /// A text is no date or time.
    ParseDate,
    /// A text is no decimal number.
    ParseDecimal,
    /// The result is longer than the type allows.
    TooLong,
    /// The conversion computes with floating-point numbers, which this
    /// library holds as bit patterns only.
    NeedsFloat,
}

/// What bringing a value to a type comes to.
pub enum Cast {
    Done(Value),
    Fault(CastFault),
}

/// Whether `e` is the error that stands for the fault `f`.
pub open spec fn is_cast_error(e: DatabaseError, f: CastFault) -> bool {
    match f {
        CastFault::CastFail => e is CastFail,
        CastFault::TryFromInt => e is TryFromInt,
        CastFault::OverFlow => e is OverFlow,
        CastFault::ParseBool => e is ParseBool,
        CastFault::ParseInt => e is ParseInt,
        CastFault::ParseDate => e is ParseDate,
        CastFault::ParseDecimal => e is ParseDecimal,
        CastFault::TooLong => e is TooLong,
        CastFault::NeedsFloat => e is UnsupportedStmt,
    }
}

/// The least and the greatest number of an integer type.
pub open spec fn int_range(ty: TypeModel) -> Option<(int, int)> {
    match ty {
        TypeModel::Tinyint => Some((-0x80int, 0x7Fint)),
        TypeModel::Smallint => Some((-0x8000int, 0x7FFFint)),
        TypeModel::Integer => Some((-0x8000_0000int, 0x7FFF_FFFFint)),
        TypeModel::Bigint => Some((-0x8000_0000_0000_0000int, 0x7FFF_FFFF_FFFF_FFFFint)),
        TypeModel::UTinyint => Some((0int, 0xFFint)),
        TypeModel::USmallint => Some((0int, 0xFFFFint)),
        TypeModel::UInteger => Some((0int, 0xFFFF_FFFFint)),
        TypeModel::UBigint => Some((0int, 0xFFFF_FFFF_FFFF_FFFFint)),
        _ => None,
    }
}

/// The value of an integer type that holds `x`.
pub open spec fn int_value(x: int, ty: TypeModel) -> Value {
    match ty {
        TypeModel::Tinyint => Value::Int8(x as i8),
        TypeModel::Smallint => Value::Int16(x as i16),
        TypeModel::Integer => Value::Int32(x as i32),
        TypeModel::Bigint => Value::Int64(x as i64),
        TypeModel::UTinyint => Value::UInt8(x as u8),
        TypeModel::USmallint => Value::UInt16(x as u16),
        TypeModel::UInteger => Value::UInt32(x as u32),
        _ => Value::UInt64(x as u64),
    }
}

/// The number of an integer value.
pub open spec fn int_of(v: Value) -> Option<int> {
    match v {
        Value::Int8(x) => Some(x as int),
        Value::Int16(x) => Some(x as int),
        Value::Int32(x) => Some(x as int),
        Value::Int64(x) => Some(x as int),
        Value::UInt8(x) => Some(x as int),
        Value::UInt16(x) => Some(x as int),
        Value::UInt32(x) => Some(x as int),
        Value::UInt64(x) => Some(x as int),
        _ => None,
    }
}

/// Whether a text is longer than `len` characters or bytes.
pub open spec fn too_long(text: Seq<char>, len: u32, unit: CharLengthUnits) -> bool {
    match unit {
        CharLengthUnits::Characters => text_chars(encode_utf8(text)) > len,
        CharLengthUnits::Octets => encode_utf8(text).len() > len,
    }
}

/// A text as a value of a text type; for any other type there is no
/// conversion, and no text is no value.
pub open spec fn text_to(text: Option<Seq<char>>, to: TypeModel) -> Cast {
    match (text, to) {
        (Some(t), TypeModel::Char(len, unit)) => if too_long(t, len, unit) {
            Cast::Fault(CastFault::TooLong)
        } else {
            Cast::Done(Value::Utf8 { value: t, ty: Utf8Type::Fixed(len), unit })
        },
        (Some(t), TypeModel::Varchar(len, unit)) => if len is Some && too_long(t, len->0, unit) {
            Cast::Fault(CastFault::TooLong)
        } else {
            Cast::Done(Value::Utf8 { value: t, ty: Utf8Type::Variable(len), unit })
        },
        _ => Cast::Fault(CastFault::CastFail),
    }
}

/// Whether a value is within the length that a type declares: text within
/// the characters or bytes of a text type of its own kind, a decimal within
/// the digits and the fractional digits of a decimal type.
pub open spec fn len_ok(v: Value, ty: TypeModel) -> bool {
    match (ty, v) {
        (
            TypeModel::Varchar(Some(len), CharLengthUnits::Characters),
            Value::Utf8 { value, ty: Utf8Type::Variable(_), unit: CharLengthUnits::Characters },
        ) => !too_long(value, len, CharLengthUnits::Characters),
        (
            TypeModel::Char(len, CharLengthUnits::Characters),
            Value::Utf8 { value, ty: Utf8Type::Fixed(_), unit: CharLengthUnits::Characters },
        ) => !too_long(value, len, CharLengthUnits::Characters),
        (
            TypeModel::Varchar(Some(len), CharLengthUnits::Octets),
            Value::Utf8 { value, ty: Utf8Type::Variable(_), unit: CharLengthUnits::Octets },
        ) => !too_long(value, len, CharLengthUnits::Octets),
        (
            TypeModel::Char(len, CharLengthUnits::Octets),
            Value::Utf8 { value, ty: Utf8Type::Fixed(_), unit: CharLengthUnits::Octets },
        ) => !too_long(value, len, CharLengthUnits::Octets),
        (TypeModel::Decimal(full_len, scale_len), Value::Decimal(d)) => {
            &&& full_len matches Some(len) ==> digits10(magnitude(d.m())) <= len
            &&& scale_len matches Some(len) ==> d.s() <= len
        },
        _ => true,
    }
}

/// An integer brought to a type: to an integer type where it is in its
/// range, to a boolean where it is 0 or 1, to text as its decimal digits,
/// to a decimal, cut to the scale the type declares.
pub open spec fn cast_int(x: int, to: TypeModel) -> Cast {
    match to {
        TypeModel::SqlNull => Cast::Done(Value::Null),
        TypeModel::Boolean => if x == 0 {
            Cast::Done(Value::Boolean(false))
        } else if x == 1 {
            Cast::Done(Value::Boolean(true))
        } else {
            Cast::Fault(CastFault::CastFail)
        },
        TypeModel::Float | TypeModel::Double => Cast::Fault(CastFault::NeedsFloat),
        TypeModel::Char(_, _) | TypeModel::Varchar(_, _) => text_to(Some(int_text(x)), to),
        TypeModel::Decimal(_, scale) => match scale {
            Some(s) => match truncated_to(x, 0, s as nat) {
                Some(d) => Cast::Done(Value::Decimal(d)),
                None => Cast::Fault(CastFault::CastFail),
            },
            None => Cast::Done(Value::Decimal(decimal_with(x, 0))),
        },
        _ => match int_range(to) {
            Some((lo, hi)) => if lo <= x <= hi {
                Cast::Done(int_value(x, to))
            } else {
                Cast::Fault(CastFault::TryFromInt)
            },
            None => Cast::Fault(CastFault::CastFail),
        },
    }
}

/// A boolean brought to a type: to the integers 0 and 1, to the floats 0
/// and 1, to the text `false` or `true`.
pub open spec fn cast_bool(b: bool, to: TypeModel) -> Cast {
    match to {
        TypeModel::SqlNull => Cast::Done(Value::Null),
        TypeModel::Boolean => Cast::Done(Value::Boolean(b)),
        TypeModel::Float => Cast::Done(
            Value::Float32(
                if b {
                    0x3F80_0000
                } else {
                    0
                },
            ),
        ),
        TypeModel::Double => Cast::Done(
            Value::Float64(
                if b {
                    0x3FF0_0000_0000_0000
                } else {
                    0
                },
            ),
        ),
        TypeModel::Char(_, _) | TypeModel::Varchar(_, _) => text_to(
            Some(
                if b {
                    true_text()
                } else {
                    false_text()
                },
            ),
            to,
        ),
        _ => match int_range(to) {
            Some(_) => Cast::Done(
                int_value(
                    if b {
                        1
                    } else {
                        0
                    },
                    to,
                ),
            ),
            None => Cast::Fault(CastFault::CastFail),
        },
    }
}

/// 2 to the power `n`.
pub open spec fn pow2(n: nat) -> nat
    decreases n,
{
    if n == 0 {
        1
    } else {
        2 * pow2((n - 1) as nat)
    }
}

/// A float that is a number above zero, `m` times 2 to the power `e`,
/// brought to an integer type: cut to a whole number, which must not lie
/// above `bound`, the type's greatest number as a float of that width; a
/// number that the type cannot hold becomes its greatest.
pub open spec fn positive_float_to_int(m: nat, e: int, bound: int, max: int) -> Option<int> {
    let whole = if e >= 0 {
        (m * pow2(e as nat)) as int
    } else {
        (m / pow2((-e) as nat)) as int
    };
    let rest = e < 0 && m % pow2((-e) as nat) != 0;
    if whole > bound || (whole == bound && rest) {
        None
    } else if whole > max {
        Some(max)
    } else {
        Some(whole)
    }
}

/// A float given by its exponent field `ex` and fraction field `fr`, of
/// `frac_bits` fraction bits, brought to an integer type: not-a-number
/// becomes 0; zero, every negative number, infinity and every number above
/// the type are refused.
pub open spec fn float_to_int(
    negative: bool,
    ex: int,
    fr: int,
    frac_bits: nat,
    ex_max: int,
    bias: int,
    bound: int,
    max: int,
) -> Result<int, CastFault> {
    if ex == ex_max && fr != 0 {
        Ok(0)
    } else if negative || (ex == 0 && fr == 0) || ex == ex_max {
        Err(CastFault::OverFlow)
    } else {
        let m = if ex == 0 {
            fr as nat
        } else {
            (pow2(frac_bits) + fr) as nat
        };
        let e = (if ex == 0 {
            1
        } else {
            ex
        }) - bias - frac_bits;
        match positive_float_to_int(m, e, bound, max) {
            Some(x) => Ok(x),
            None => Err(CastFault::OverFlow),
        }
    }
}

/// The greatest number of an integer type as a float of 24 (`single`) or
/// 53 bits of precision.
pub open spec fn float_bound(ty: TypeModel, single: bool) -> int {
    match ty {
        TypeModel::Integer => if single {
            0x8000_0000
        } else {
            0x7FFF_FFFF
        },
        TypeModel::UInteger => if single {
            0x1_0000_0000
        } else {
            0xFFFF_FFFF
        },
        TypeModel::Bigint => 0x8000_0000_0000_0000,
        TypeModel::UBigint => 0x1_0000_0000_0000_0000,
        _ => match int_range(ty) {
            Some((_, hi)) => hi,
            None => 0,
        },
    }
}

/// A 32-bit float brought to a type: to itself, or cut to an integer.
pub open spec fn cast_float32(bits: u32, to: TypeModel) -> Cast {
    match to {
        TypeModel::SqlNull => Cast::Done(Value::Null),
        TypeModel::Float => Cast::Done(Value::Float32(bits)),
        TypeModel::Double | TypeModel::Char(_, _) | TypeModel::Varchar(_, _) | TypeModel::Decimal(
            _,
            _,
        ) => Cast::Fault(CastFault::NeedsFloat),
        _ => match int_range(to) {
            Some((_, hi)) => match float_to_int(
                bits >= 0x8000_0000,
                (bits as int % 0x8000_0000) / 0x80_0000,
                bits as int % 0x80_0000,
                23,
                255,
                127,
                float_bound(to, true),
                hi,
            ) {
                Ok(x) => Cast::Done(int_value(x, to)),
                Err(f) => Cast::Fault(f),
            },
            None => Cast::Fault(CastFault::CastFail),
        },
    }
}

/// A 64-bit float brought to a type: to itself, or cut to an integer.
pub open spec fn cast_float64(bits: u64, to: TypeModel) -> Cast {
    match to {
        TypeModel::SqlNull => Cast::Done(Value::Null),
        TypeModel::Double => Cast::Done(Value::Float64(bits)),
        TypeModel::Float | TypeModel::Char(_, _) | TypeModel::Varchar(_, _) | TypeModel::Decimal(
            _,
            _,
        ) => Cast::Fault(CastFault::NeedsFloat),
        _ => match int_range(to) {
            Some((_, hi)) => match float_to_int(
                bits >= 0x8000_0000_0000_0000,
                (bits as int % 0x8000_0000_0000_0000) / 0x10_0000_0000_0000,
                bits as int % 0x10_0000_0000_0000,
                52,
                2047,
                1023,
                float_bound(to, false),
                hi,
            ) {
                Ok(x) => Cast::Done(int_value(x, to)),
                Err(f) => Cast::Fault(f),
            },
            None => Cast::Fault(CastFault::CastFail),
        },
    }
}

/// A decimal cut to a whole number, towards zero.
pub open spec fn decimal_whole(m: int, s: nat) -> int {
    if m >= 0 {
        m / (pow10(s) as int)
    } else {
        -((-m) / (pow10(s) as int))
    }
}

/// A decimal brought to a type: to itself, to its text, or to an integer,
/// cut to a whole number and held inside the integer type's range.
pub open spec fn cast_decimal(d: Decimal, to: TypeModel) -> Cast {
    match to {
        TypeModel::SqlNull => Cast::Done(Value::Null),
        TypeModel::Decimal(_, _) => Cast::Done(Value::Decimal(d)),
        TypeModel::Float | TypeModel::Double => Cast::Fault(CastFault::NeedsFloat),
        TypeModel::Char(_, _) | TypeModel::Varchar(_, _) => text_to(
            Some(decimal_text(d.m(), d.s())),
            to,
        ),
        _ => match int_range(to) {
            Some((lo, hi)) => {
                let whole = decimal_whole(d.m(), d.s());
                Cast::Done(
                    int_value(
                        if whole < lo {
                            lo
                        } else if whole > hi {
                            hi
                        } else {
                            whole
                        },
                        to,
                    ),
                )
            },
            None => Cast::Fault(CastFault::CastFail),
        },
    }
}

/// The byte of `+`, which marks a zone in the text of a timestamp.
pub const PLUS: u8 = 0x2B;

/// The text `+00:00`.
pub open spec fn utc_text() -> Seq<char> {
    seq!['+', '0', '0', ':', '0', '0']
}

/// A time of day given as second of the day and nanoseconds, as a packed
/// value of the given precision; nothing where one of the three is out of
/// range.
pub open spec fn time_value(secs: u32, nanos: u32, precision: u64, shown: u64) -> Cast {
    if secs <= ONE_DAY_TO_SEC && nanos <= ONE_SEC_TO_NANO && precision <= 9 {
        Cast::Done(Value::Time32(packed(secs, nanos, precision) as u32, shown))
    } else {
        Cast::Fault(CastFault::CastFail)
    }
}

/// The timestamp of the given precision for a moment given in seconds and
/// nanoseconds; nothing where it does not fit or the precision is none of
/// 0, 3, 6 and 9.
pub open spec fn timestamp_value(secs: i64, nanos: u32, precision: u64) -> Option<i64> {
    let v = if precision == 0 {
        secs as int
    } else if precision == 3 {
        secs * 1_000 + nanos as int / 1_000_000
    } else if precision == 6 {
        secs * 1_000_000 + nanos as int / 1_000
    } else {
        secs * 1_000_000_000 + nanos as int
    };
    if (precision == 0 || precision == 3 || precision == 6 || precision == 9)
        && -0x8000_0000_0000_0000 <= v <= 0x7FFF_FFFF_FFFF_FFFF {
        Some(v as i64)
    } else {
        None
    }
}

/// A text brought to a timestamp type.
pub open spec fn text_to_timestamp(text: Seq<char>, precision: u64, zone: bool) -> Cast {
    if precision == 0 && !zone {
        match datetime_parsed(text) {
            Some(ts) => Cast::Done(Value::Time64(ts, precision, zone)),
            None => Cast::Fault(CastFault::ParseDate),
        }
    } else {
        let complete = if zone && !encode_utf8(text).contains(PLUS) {
            text + utc_text()
        } else {
            text
        };
        match zoned_parsed(complete, zoned_format(!(precision == 0 && zone))) {
            Some((secs, nanos)) => match timestamp_value(secs, nanos, precision) {
                Some(v) => Cast::Done(Value::Time64(v, precision, zone)),
                None => Cast::Fault(CastFault::CastFail),
            },
            None => Cast::Fault(CastFault::ParseDate),
        }
    }
}

/// A text brought to a type: parsed as a boolean, an integer, a date, a
/// time or a decimal, or taken over as text.
pub open spec fn cast_text(text: Seq<char>, to: TypeModel) -> Cast {
    match to {
        TypeModel::SqlNull => Cast::Done(Value::Null),
        TypeModel::Boolean => if text == true_text() {
            Cast::Done(Value::Boolean(true))
        } else if text == false_text() {
            Cast::Done(Value::Boolean(false))
        } else {
            Cast::Fault(CastFault::ParseBool)
        },
        TypeModel::Float | TypeModel::Double => Cast::Fault(CastFault::NeedsFloat),
        TypeModel::Char(_, _) | TypeModel::Varchar(_, _) => text_to(Some(text), to),
        TypeModel::Date => match date_parsed(text) {
            Some(days) => Cast::Done(Value::Date32(days)),
            None => Cast::Fault(CastFault::ParseDate),
        },
        TypeModel::DateTime => match datetime_parsed(text) {
            Some(ts) => Cast::Done(Value::Date64(ts)),
            None => match date_parsed(text) {
                Some(days) => match midnight_at(days) {
                    Some(ts) => Cast::Done(Value::Date64(ts)),
                    None => Cast::Fault(CastFault::ParseDate),
                },
                None => Cast::Fault(CastFault::ParseDate),
            },
        },
        TypeModel::Time(p) => match time_parsed(text, time_format(precision_of(p) != 0)) {
            Some((secs, nanos)) => time_value(
                secs,
                if precision_of(p) == 0 {
                    0
                } else {
                    nanos
                },
                precision_of(p),
                precision_of(p),
            ),
            None => Cast::Fault(CastFault::ParseDate),
        },
        TypeModel::TimeStamp(p, zone) => text_to_timestamp(text, precision_of(p), zone),
        TypeModel::Decimal(_, _) => match decimal_parsed(text) {
            Some(d) => Cast::Done(Value::Decimal(d)),
            None => Cast::Fault(CastFault::ParseDecimal),
        },
        TypeModel::Tuple(_) => Cast::Fault(CastFault::CastFail),
        _ => match int_range(to) {
            Some((lo, hi)) => if lo < 0 {
                match signed_parsed(text) {
                    Some(x) => if lo <= x <= hi {
                        Cast::Done(int_value(x as int, to))
                    } else {
                        Cast::Fault(CastFault::ParseInt)
                    },
                    None => Cast::Fault(CastFault::ParseInt),
                }
            } else {
                match unsigned_parsed(text) {
                    Some(x) => if x <= hi {
                        Cast::Done(int_value(x as int, to))
                    } else {
                        Cast::Fault(CastFault::ParseInt)
                    },
                    None => Cast::Fault(CastFault::ParseInt),
                }
            },
            None => Cast::Fault(CastFault::CastFail),
        },
    }
}

/// A date brought to a type.
pub open spec fn cast_date32(days: i32, to: TypeModel) -> Cast {
    match to {
        TypeModel::SqlNull => Cast::Done(Value::Null),
        TypeModel::Char(_, _) | TypeModel::Varchar(_, _) => text_to(date_text_of(days), to),
        TypeModel::Date => Cast::Done(Value::Date32(days)),
        TypeModel::DateTime => match midnight_at(days) {
            Some(ts) => Cast::Done(Value::Date64(ts)),
            None => Cast::Fault(CastFault::CastFail),
        },
        _ => Cast::Fault(CastFault::CastFail),
    }
}

/// A moment in seconds brought to a type.
pub open spec fn cast_date64(secs: i64, to: TypeModel) -> Cast {
    match to {
        TypeModel::SqlNull => Cast::Done(Value::Null),
        TypeModel::Char(_, _) | TypeModel::Varchar(_, _) => text_to(datetime_text_of(secs), to),
        TypeModel::Date => match clock_at(secs, 0) {
            Some((days, _)) => Cast::Done(Value::Date32(days)),
            None => Cast::Fault(CastFault::CastFail),
        },
        TypeModel::DateTime => Cast::Done(Value::Date64(secs)),
        TypeModel::Time(p) => match clock_at(secs, 0) {
            Some((_, second)) => time_value(second, 0, 0, precision_of(p)),
            None => Cast::Fault(CastFault::CastFail),
        },
        TypeModel::TimeStamp(p, zone) => Cast::Done(Value::Time64(secs, precision_of(p), zone)),
        _ => Cast::Fault(CastFault::CastFail),
    }
}

/// A time of day brought to a type.
pub open spec fn cast_time32(v: u32, precision: u64, to: TypeModel) -> Cast {
    match to {
        TypeModel::SqlNull => Cast::Done(Value::Null),
        TypeModel::Char(_, _) | TypeModel::Varchar(_, _) => text_to(
            if precision <= 9 && 0 <= unpacked(v, precision).1 <= u32::MAX {
                time_text_of(unpacked(v, precision).0 as u32, unpacked(v, precision).1 as u32)
            } else {
                None
            },
            to,
        ),
        TypeModel::Time(p) => Cast::Done(Value::Time32(v, precision_of(p))),
        _ => Cast::Fault(CastFault::CastFail),
    }
}

/// A timestamp brought to a type.
pub open spec fn cast_time64(v: i64, precision: u64, to: TypeModel) -> Cast {
    let parts = timestamp_parts(v, precision);
    match to {
        TypeModel::SqlNull => Cast::Done(Value::Null),
        TypeModel::Char(_, _) | TypeModel::Varchar(_, _) => text_to(
            match parts {
                Some((secs, nanos)) => timestamp_text_of(secs as i64, nanos as u32),
                None => None,
            },
            to,
        ),
        TypeModel::TimeStamp(p, zone) => Cast::Done(Value::Time64(v, precision_of(p), zone)),
        TypeModel::Date | TypeModel::DateTime | TypeModel::Time(_) => match parts {
            Some((secs, nanos)) => match clock_at(secs as i64, nanos as u32) {
                Some((days, second)) => match to {
                    TypeModel::Date => Cast::Done(Value::Date32(days)),
                    TypeModel::DateTime => Cast::Done(Value::Date64(secs as i64)),
                    TypeModel::Time(p) => time_value(
                        second,
                        nanos as u32,
                        precision_of(p),
                        precision_of(p),
                    ),
                    _ => Cast::Fault(CastFault::CastFail),
                },
                None => Cast::Fault(CastFault::CastFail),
            },
            None => Cast::Fault(CastFault::CastFail),
        },
        _ => Cast::Fault(CastFault::CastFail),
    }
}

/// A value brought to a type, before its length is held against the type.
/// Null stays null whatever the type. A tuple is brought to a tuple type
/// component by component; a component that already reports the type it
/// should have stays as it is.
#[verifier::opaque]
pub open spec fn pre_cast(v: Value, to: TypeModel) -> Cast
    decreases v, 1nat, 0nat,
{
    match v {
        Value::Null => Cast::Done(Value::Null),
        Value::Boolean(b) => cast_bool(b, to),
        Value::Float32(x) => cast_float32(x, to),
        Value::Float64(x) => cast_float64(x, to),
        Value::Utf8 { value, .. } => cast_text(value, to),
        Value::Date32(x) => cast_date32(x, to),
        Value::Date64(x) => cast_date64(x, to),
        Value::Time32(x, p) => cast_time32(x, p, to),
        Value::Time64(x, p, _) => cast_time64(x, p, to),
        Value::Decimal(d) => cast_decimal(d, to),
        Value::Tuple(vs, up) => match to {
            TypeModel::Tuple(tys) => if tys.len() < vs.len() {
                Cast::Fault(CastFault::CastFail)
            } else {
                match cast_all(vs, tys, vs.len()) {
                    Ok(done) => Cast::Done(Value::Tuple(done, up)),
                    Err(f) => Cast::Fault(f),
                }
            },
            _ => Cast::Fault(CastFault::CastFail),
        },
        _ => match int_of(v) {
            Some(x) => cast_int(x, to),
            None => Cast::Fault(CastFault::CastFail),
        },
    }
}

/// The first `n` components of a tuple brought to their types; the first
/// fault where one of them cannot be.
pub open spec fn cast_all(vs: Seq<Value>, tys: Seq<TypeModel>, n: nat) -> Result<
    Seq<Value>,
    CastFault,
>
    decreases vs, 0nat, n,
{
    if n == 0 || n > vs.len() || n > tys.len() {
        Ok(Seq::empty())
    } else {
        match cast_all(vs, tys, (n - 1) as nat) {
            Ok(done) => if tys[n - 1] == type_of(vs[n - 1]) {
                Ok(done.push(vs[n - 1]))
            } else {
                match cast_of(vs[n - 1], tys[n - 1]) {
                    Cast::Done(x) => Ok(done.push(x)),
                    Cast::Fault(f) => Err(f),
                }
            },
            Err(f) => Err(f),
        }
    }
}

/// A value brought to a type: converted, and refused with `TooLong` where
/// the result is longer than the type allows.
#[verifier::opaque]
pub open spec fn cast_of(v: Value, to: TypeModel) -> Cast
    decreases v, 1nat, 1nat,
{
    match pre_cast(v, to) {
        Cast::Done(x) => if len_ok(x, to) {
            Cast::Done(x)
        } else {
            Cast::Fault(CastFault::TooLong)
        },
        f => f,
    }
}

/// The outcome of a conversion as a model.
pub open spec fn outcome_of(r: Result<DataValue, CastFault>) -> Cast {
    match r {
        Ok(v) => Cast::Done(v@),
        Err(f) => Cast::Fault(f),
    }
}

/// The model of a text that may be missing.
pub open spec fn text_model(text: Option<String>) -> Option<Seq<char>> {
    match text {
        Some(t) => Some(t@),
        None => None,
    }
}

/// Whether a text is longer than `len` characters or bytes.
pub fn check_string_len(string: &str, len: usize, unit: CharLengthUnits) -> (r: bool)
    ensures
        r == (match unit {
            CharLengthUnits::Characters => text_chars(encode_utf8(string@)) > len,
            CharLengthUnits::Octets => encode_utf8(string@).len() > len,
        }),
{
    match unit {
        CharLengthUnits::Characters => count_chars(string.as_bytes()) > len,
        CharLengthUnits::Octets => string.as_bytes().len() > len,
    }
}

fn text_value(text: Option<String>, to: &LogicalType) -> (r: Result<DataValue, CastFault>)
    ensures
        outcome_of(r) == text_to(text_model(text), to@),
{
    match (text, to) {
        (Some(t), LogicalType::Char(len, unit)) => {
            if check_string_len(t.as_str(), *len as usize, *unit) {
                Err(CastFault::TooLong)
            } else {
                Ok(DataValue::Utf8 { value: t, ty: Utf8Type::Fixed(*len), unit: *unit })
            }
        },
        (Some(t), LogicalType::Varchar(len, unit)) => {
            let over: bool = match len {
                Some(l) => check_string_len(t.as_str(), *l as usize, *unit),
                None => false,
            };
            if over {
                Err(CastFault::TooLong)
            } else {
                Ok(DataValue::Utf8 { value: t, ty: Utf8Type::Variable(*len), unit: *unit })
            }
        },
        (_, LogicalType::Tuple(tys)) => {
            proof {
                lemma_tuple_type_view(*tys);
            }
            Err(CastFault::CastFail)
        },
        _ => Err(CastFault::CastFail),
    }
}

fn int_limits(to: &LogicalType) -> (r: Option<(i128, i128)>)
    ensures
        match int_range(to@) {
            Some((lo, hi)) => r matches Some(x) && x.0 == lo && x.1 == hi,
            None => r is None,
        },
{
    match to {
        LogicalType::Tinyint => Some((-0x80, 0x7F)),
        LogicalType::Smallint => Some((-0x8000, 0x7FFF)),
        LogicalType::Integer => Some((-0x8000_0000, 0x7FFF_FFFF)),
        LogicalType::Bigint => Some((-0x8000_0000_0000_0000, 0x7FFF_FFFF_FFFF_FFFF)),
        LogicalType::UTinyint => Some((0, 0xFF)),
        LogicalType::USmallint => Some((0, 0xFFFF)),
        LogicalType::UInteger => Some((0, 0xFFFF_FFFF)),
        LogicalType::UBigint => Some((0, 0xFFFF_FFFF_FFFF_FFFF)),
        LogicalType::Tuple(tys) => {
            proof {
                lemma_tuple_type_view(*tys);
            }
            None
        },
        _ => None,
    }
}

fn make_int(x: i128, to: &LogicalType) -> (r: DataValue)
    requires
        int_range(to@) matches Some((lo, hi)) && lo <= x <= hi,
    ensures
        r@ == int_value(x as int, to@),
{
    match to {
        LogicalType::Tinyint => DataValue::Int8(x as i8),
        LogicalType::Smallint => DataValue::Int16(x as i16),
        LogicalType::Integer => DataValue::Int32(x as i32),
        LogicalType::Bigint => DataValue::Int64(x as i64),
        LogicalType::UTinyint => DataValue::UInt8(x as u8),
        LogicalType::USmallint => DataValue::UInt16(x as u16),
        LogicalType::UInteger => DataValue::UInt32(x as u32),
        LogicalType::UBigint => DataValue::UInt64(x as u64),
        LogicalType::Tuple(tys) => {
            proof {
                lemma_tuple_type_view(*tys);
            }
            DataValue::Null
        },
        _ => DataValue::Null,
    }
}

fn int_to(x: i128, to: &LogicalType) -> (r: Result<DataValue, CastFault>)
    requires
        -0x8000_0000_0000_0000 <= x <= 0xFFFF_FFFF_FFFF_FFFF,
    ensures
        outcome_of(r) == cast_int(x as int, to@),
{
    match to {
        LogicalType::SqlNull => Ok(DataValue::Null),
        LogicalType::Boolean => if x == 0 {
            Ok(DataValue::Boolean(false))
        } else if x == 1 {
            Ok(DataValue::Boolean(true))
        } else {
            Err(CastFault::CastFail)
        },
        LogicalType::Float | LogicalType::Double => Err(CastFault::NeedsFloat),
        LogicalType::Char(_, _) | LogicalType::Varchar(_, _) => text_value(
            Some(integer_to_string(x)),
            to,
        ),
        LogicalType::Decimal(_, scale) => {
            match Decimal::from_parts(x, 0) {
                Some(d) => {
                    match scale {
                        Some(s) => match d.trunc_with_scale(*s as u32) {
                            Some(cut) => Ok(DataValue::Decimal(cut)),
                            None => Err(CastFault::CastFail),
                        },
                        None => {
                            proof {
                                Decimal::lemma_same(d, decimal_with(x as int, 0));
                            }
                            Ok(DataValue::Decimal(d))
                        },
                    }
                },
                None => Err(CastFault::CastFail),
            }
        },
        _ => match int_limits(to) {
            Some((lo, hi)) => if lo <= x && x <= hi {
                Ok(make_int(x, to))
            } else {
                Err(CastFault::TryFromInt)
            },
            None => Err(CastFault::CastFail),
        },
    }
}

fn bool_to(b: bool, to: &LogicalType) -> (r: Result<DataValue, CastFault>)
    ensures
        outcome_of(r) == cast_bool(b, to@),
{
    match to {
        LogicalType::SqlNull => Ok(DataValue::Null),
        LogicalType::Boolean => Ok(DataValue::Boolean(b)),
        LogicalType::Float => Ok(
            DataValue::Float32(
                if b {
                    0x3F80_0000
                } else {
                    0
                },
            ),
        ),
        LogicalType::Double => Ok(
            DataValue::Float64(
                if b {
                    0x3FF0_0000_0000_0000
                } else {
                    0
                },
            ),
        ),
        LogicalType::Char(_, _) | LogicalType::Varchar(_, _) => text_value(
            Some(bool_to_string(b)),
            to,
        ),
        _ => match int_limits(to) {
            Some(_) => Ok(
                make_int(
                    if b {
                        1
                    } else {
                        0
                    },
                    to,
                ),
            ),
            None => Err(CastFault::CastFail),
        },
    }
}

fn power_of_two(n: u32) -> (r: u128)
    requires
        n <= 100,
    ensures
        r == pow2(n as nat),
        r >= 1,
{
    let mut r: u128 = 1;
    let mut i: u32 = 0;
    while i < n
        invariant
            i <= n <= 100,
            r == pow2(i as nat),
            r >= 1,
        decreases n - i,
    {
        proof {
            lemma_pow2_monotone((i + 1) as nat, 100);
            lemma_pow2_100();
        }
        r = r * 2;
        i += 1;
    }
    r
}

proof fn lemma_pow2_100()
    ensures
        pow2(100) == 0x10_0000_0000_0000_0000_0000_0000,
        pow2(64) == 0x1_0000_0000_0000_0000,
        pow2(52) == 0x10_0000_0000_0000,
        pow2(23) == 0x80_0000,
        pow2(75) == 0x8_00_0000_0000_0000_0000,
        pow2(74) == 0x4_00_0000_0000_0000_0000,
        pow2(53) == 0x20_0000_0000_0000,
{
    reveal_with_fuel(pow2, 26);
    assert(pow2(25) == 0x200_0000);
    assert(pow2(50) == pow2(25) * pow2(25)) by {
        lemma_pow2_add(25, 25);
    }
    assert(pow2(100) == pow2(50) * pow2(50)) by {
        lemma_pow2_add(50, 50);
    }
    assert(pow2(64) == pow2(50) * pow2(14)) by {
        lemma_pow2_add(50, 14);
    }
    assert(pow2(52) == pow2(50) * pow2(2)) by {
        lemma_pow2_add(50, 2);
    }
    assert(pow2(75) == pow2(50) * pow2(25)) by {
        lemma_pow2_add(50, 25);
    }
    assert(pow2(74) == pow2(50) * pow2(24)) by {
        lemma_pow2_add(50, 24);
    }
    assert(pow2(53) == pow2(50) * pow2(3)) by {
        lemma_pow2_add(50, 3);
    }
}

proof fn lemma_pow2_add(a: nat, b: nat)
    ensures
        pow2(a + b) == pow2(a) * pow2(b),
    decreases b,
{
    if b == 0 {
        assert(pow2(a) * 1 == pow2(a));
    } else {
        lemma_pow2_add(a, (b - 1) as nat);
        assert(pow2(a) * (2 * pow2((b - 1) as nat)) == 2 * (pow2(a) * pow2((b - 1) as nat)))
            by (nonlinear_arith);
    }
}

proof fn lemma_pow2_monotone(a: nat, b: nat)
    requires
        a <= b,
    ensures
        pow2(a) <= pow2(b),
        pow2(a) >= 1,
    decreases b,
{
    if a < b {
        lemma_pow2_monotone(a, (b - 1) as nat);
    } else if a > 0 {
        lemma_pow2_monotone((a - 1) as nat, (a - 1) as nat);
    }
}

/// A float that is a number above zero, `m` times 2 to the power `e`, cut
/// to an integer.
fn positive_to_int(m: u64, e: i32, bound: u128, max: u128) -> (r: Option<u128>)
    requires
        0 < m < 0x20_0000_0000_0000,
        -2000 <= e <= 2000,
        max <= bound <= 0x1_0000_0000_0000_0000,
    ensures
        match positive_float_to_int(m as nat, e as int, bound as int, max as int) {
            Some(x) => r == Some(x as u128) && r->0 == x,
            None => r is None,
        },
{
    proof {
        lemma_pow2_100();
    }
    if e >= 75 {
        proof {
            lemma_pow2_monotone(75, e as nat);
            let big = pow2(e as nat) as int;
            let mi = m as int;
            assert(mi * big >= big) by (nonlinear_arith)
                requires
                    mi >= 1,
                    big >= 0,
            ;
        }
        None
    } else if e >= 0 {
        let scale: u128 = power_of_two(e as u32);
        proof {
            lemma_pow2_monotone(e as nat, 74);
            let si = scale as int;
            let mi = m as int;
            assert(mi * si <= 0x20_0000_0000_0000 * 0x4_00_0000_0000_0000_0000) by (nonlinear_arith)
                requires
                    0 <= mi < 0x20_0000_0000_0000,
                    0 <= si <= 0x4_00_0000_0000_0000_0000,
            ;
        }
        let whole: u128 = m as u128 * scale;
        if whole > bound {
            None
        } else if whole > max {
            Some(max)
        } else {
            Some(whole)
        }
    } else if e <= -54 {
        proof {
            lemma_pow2_monotone(53, (-e) as nat);
            let d = pow2((-e) as nat) as int;
            let mi = m as int;
            assert(mi / d == 0 && mi % d == mi) by (nonlinear_arith)
                requires
                    0 < mi < d,
            ;
        }
        if bound == 0 {
            None
        } else {
            Some(0)
        }
    } else {
        let scale: u128 = power_of_two((-e) as u32);
        let whole: u128 = m as u128 / scale;
        let rest: bool = m as u128 % scale != 0;
        if whole > bound || (whole == bound && rest) {
            None
        } else if whole > max {
            Some(max)
        } else {
            Some(whole)
        }
    }
}

fn float_parts_to_int(
    negative: bool,
    ex: u32,
    fr: u64,
    frac_bits: u32,
    ex_max: u32,
    bias: u32,
    bound: u128,
    max: u128,
) -> (r: Result<u128, CastFault>)
    requires
        (frac_bits == 23 && ex_max == 255 && bias == 127) || (frac_bits == 52 && ex_max == 2047
            && bias == 1023),
        ex <= ex_max,
        fr < pow2(frac_bits as nat),
        max <= bound <= 0x1_0000_0000_0000_0000,
    ensures
        match float_to_int(
            negative,
            ex as int,
            fr as int,
            frac_bits as nat,
            ex_max as int,
            bias as int,
            bound as int,
            max as int,
        ) {
            Ok(x) => r == Ok::<u128, CastFault>(x as u128) && r->Ok_0 == x,
            Err(f) => r == Err::<u128, CastFault>(f),
        },
{
    proof {
        lemma_pow2_100();
    }
    if ex == ex_max && fr != 0 {
        Ok(0)
    } else if negative || (ex == 0 && fr == 0) || ex == ex_max {
        Err(CastFault::OverFlow)
    } else {
        let hidden: u64 = if frac_bits == 23 {
            0x80_0000
        } else {
            0x10_0000_0000_0000
        };
        let m: u64 = if ex == 0 {
            fr
        } else {
            hidden + fr
        };
        let field: i32 = if ex == 0 {
            1
        } else {
            ex as i32
        };
        let e: i32 = field - bias as i32 - frac_bits as i32;
        match positive_to_int(m, e, bound, max) {
            Some(x) => Ok(x),
            None => Err(CastFault::OverFlow),
        }
    }
}

fn float_limit(to: &LogicalType, single: bool) -> (r: u128)
    requires
        int_range(to@) is Some,
    ensures
        r == float_bound(to@, single),
        int_range(to@) matches Some((lo, hi)) && hi <= r,
        r <= 0x1_0000_0000_0000_0000,
{
    match to {
        LogicalType::Integer => if single {
            0x8000_0000
        } else {
            0x7FFF_FFFF
        },
        LogicalType::UInteger => if single {
            0x1_0000_0000
        } else {
            0xFFFF_FFFF
        },
        LogicalType::Bigint => 0x8000_0000_0000_0000,
        LogicalType::UBigint => 0x1_0000_0000_0000_0000,
        _ => match int_limits(to) {
            Some((_, hi)) => hi as u128,
            None => 0,
        },
    }
}

fn float32_to(bits: u32, to: &LogicalType) -> (r: Result<DataValue, CastFault>)
    ensures
        outcome_of(r) == cast_float32(bits, to@),
{
    match to {
        LogicalType::SqlNull => Ok(DataValue::Null),
        LogicalType::Float => Ok(DataValue::Float32(bits)),
        LogicalType::Double
        | LogicalType::Char(_, _)
        | LogicalType::Varchar(_, _)
        | LogicalType::Decimal(_, _) => Err(CastFault::NeedsFloat),
        _ => match int_limits(to) {
            Some((_, hi)) => {
                proof {
                    lemma_pow2_100();
                }
                let mag: u32 = bits % 0x8000_0000;
                match float_parts_to_int(
                    bits >= 0x8000_0000,
                    mag / 0x80_0000,
                    (bits % 0x80_0000) as u64,
                    23,
                    255,
                    127,
                    float_limit(to, true),
                    hi as u128,
                ) {
                    Ok(x) => Ok(make_int(x as i128, to)),
                    Err(f) => Err(f),
                }
            },
            None => Err(CastFault::CastFail),
        },
    }
}

fn float64_to(bits: u64, to: &LogicalType) -> (r: Result<DataValue, CastFault>)
    ensures
        outcome_of(r) == cast_float64(bits, to@),
{
    match to {
        LogicalType::SqlNull => Ok(DataValue::Null),
        LogicalType::Double => Ok(DataValue::Float64(bits)),
        LogicalType::Float
        | LogicalType::Char(_, _)
        | LogicalType::Varchar(_, _)
        | LogicalType::Decimal(_, _) => Err(CastFault::NeedsFloat),
        _ => match int_limits(to) {
            Some((_, hi)) => {
                proof {
                    lemma_pow2_100();
                }
                let mag: u64 = bits % 0x8000_0000_0000_0000;
                match float_parts_to_int(
                    bits >= 0x8000_0000_0000_0000,
                    (mag / 0x10_0000_0000_0000) as u32,
                    bits % 0x10_0000_0000_0000,
                    52,
                    2047,
                    1023,
                    float_limit(to, false),
                    hi as u128,
                ) {
                    Ok(x) => Ok(make_int(x as i128, to)),
                    Err(f) => Err(f),
                }
            },
            None => Err(CastFault::CastFail),
        },
    }
}

/// A decimal cut to a whole number, towards zero.
pub fn decimal_to_whole(d: &Decimal) -> (r: i128)
    ensures
        r == decimal_whole(d.m(), d.s()),
        -DECIMAL_MAX_MANTISSA <= r <= DECIMAL_MAX_MANTISSA,
{
    let m: i128 = d.mantissa();
    let s: u32 = d.scale();
    let mut mag: i128 = if m < 0 {
        -m
    } else {
        m
    };
    let ghost start = mag as int;
    let mut i: u32 = 0;
    assert(start / 1 == start);
    while i < s
        invariant
            i <= s,
            0 <= mag <= start <= DECIMAL_MAX_MANTISSA,
            mag == start / (pow10(i as nat) as int),
            pow10(i as nat) >= 1,
        decreases s - i,
    {
        proof {
            let p = pow10(i as nat) as int;
            assert((start / p) / 10 == start / (p * 10)) by (nonlinear_arith)
                requires
                    p >= 1,
                    start >= 0,
            ;
            assert(pow10((i + 1) as nat) == 10 * pow10(i as nat));
        }
        mag = mag / 10;
        i += 1;
    }
    if m < 0 {
        -mag
    } else {
        mag
    }
}

fn decimal_to(d: Decimal, to: &LogicalType) -> (r: Result<DataValue, CastFault>)
    ensures
        outcome_of(r) == cast_decimal(d, to@),
{
    match to {
        LogicalType::SqlNull => Ok(DataValue::Null),
        LogicalType::Decimal(_, _) => Ok(DataValue::Decimal(d)),
        LogicalType::Float | LogicalType::Double => Err(CastFault::NeedsFloat),
        LogicalType::Char(_, _) | LogicalType::Varchar(_, _) => text_value(Some(d.to_text()), to),
        _ => match int_limits(to) {
            Some((lo, hi)) => {
                let whole: i128 = decimal_to_whole(&d);
                let held: i128 = if whole < lo {
                    lo
                } else if whole > hi {
                    hi
                } else {
                    whole
                };
                Ok(make_int(held, to))
            },
            None => Err(CastFault::CastFail),
        },
    }
}

fn time_to(secs: u32, nanos: u32, precision: u64, shown: u64) -> (r: Result<DataValue, CastFault>)
    ensures
        outcome_of(r) == time_value(secs, nanos, precision, shown),
{
    if secs <= ONE_DAY_TO_SEC && nanos <= ONE_SEC_TO_NANO && precision <= 9 {
        Ok(DataValue::Time32(DataValue::pack(secs, nanos, precision), shown))
    } else {
        Err(CastFault::CastFail)
    }
}

fn to_timestamp(secs: i64, nanos: u32, precision: u64) -> (r: Option<i64>)
    ensures
        r == timestamp_value(secs, nanos, precision),
{
    let v: i128 = if precision == 0 {
        secs as i128
    } else if precision == 3 {
        secs as i128 * 1_000 + (nanos / 1_000_000) as i128
    } else if precision == 6 {
        secs as i128 * 1_000_000 + (nanos / 1_000) as i128
    } else if precision == 9 {
        secs as i128 * 1_000_000_000 + nanos as i128
    } else {
        return None;
    };
    if v >= -0x8000_0000_0000_0000 && v <= 0x7FFF_FFFF_FFFF_FFFF {
        Some(v as i64)
    } else {
        None
    }
}

fn text_to_stamp(text: &String, precision: u64, zone: bool) -> (r: Result<DataValue, CastFault>)
    ensures
        outcome_of(r) == text_to_timestamp(text@, precision, zone),
{
    if precision == 0 && !zone {
        match chrono_parse_datetime(text.as_str()) {
            Some(ts) => Ok(DataValue::Time64(ts, precision, zone)),
            None => Err(CastFault::ParseDate),
        }
    } else {
        proof {
            reveal_strlit("+00:00");
            assert("+00:00"@ =~= utc_text());
        }
        let parsed = if zone && !has_byte(text.as_str(), PLUS) {
            let complete = append_text(text.as_str(), "+00:00");
            chrono_parse_zoned(complete.as_str(), zoned_format_of(!(precision == 0 && zone)))
        } else {
            chrono_parse_zoned(text.as_str(), zoned_format_of(!(precision == 0 && zone)))
        };
        match parsed {
            Some((secs, nanos)) => match to_timestamp(secs, nanos, precision) {
                Some(v) => Ok(DataValue::Time64(v, precision, zone)),
                None => Err(CastFault::CastFail),
            },
            None => Err(CastFault::ParseDate),
        }
    }
}

fn precision(p: &Option<u64>) -> (r: u64)
    ensures
        r == precision_of(*p),
{
    match p {
        Some(x) => *x,
        None => 0,
    }
}

fn text_cast(text: String, to: &LogicalType) -> (r: Result<DataValue, CastFault>)
    ensures
        outcome_of(r) == cast_text(text@, to@),
{
    match to {
        LogicalType::SqlNull => Ok(DataValue::Null),
        LogicalType::Boolean => match parse_bool(&text) {
            Some(b) => Ok(DataValue::Boolean(b)),
            None => Err(CastFault::ParseBool),
        },
        LogicalType::Float | LogicalType::Double => Err(CastFault::NeedsFloat),
        LogicalType::Char(_, _) | LogicalType::Varchar(_, _) => text_value(Some(text), to),
        LogicalType::Date => match chrono_parse_date(text.as_str()) {
            Some(days) => Ok(DataValue::Date32(days)),
            None => Err(CastFault::ParseDate),
        },
        LogicalType::DateTime => match chrono_parse_datetime(text.as_str()) {
            Some(ts) => Ok(DataValue::Date64(ts)),
            None => match chrono_parse_date(text.as_str()) {
                Some(days) => match chrono_midnight(days) {
                    Some(ts) => Ok(DataValue::Date64(ts)),
                    None => Err(CastFault::ParseDate),
                },
                None => Err(CastFault::ParseDate),
            },
        },
        LogicalType::Time(p) => {
            let p: u64 = precision(p);
            match chrono_parse_time(text.as_str(), time_format_of(p != 0)) {
                Some((secs, nanos)) => time_to(
                    secs,
                    if p == 0 {
                        0
                    } else {
                        nanos
                    },
                    p,
                    p,
                ),
                None => Err(CastFault::ParseDate),
            }
        },
        LogicalType::TimeStamp(p, zone) => text_to_stamp(&text, precision(p), *zone),
        LogicalType::Decimal(_, _) => match Decimal::parse(text.as_str()) {
            Some(d) => Ok(DataValue::Decimal(d)),
            None => Err(CastFault::ParseDecimal),
        },
        LogicalType::Tuple(tys) => {
            proof {
                lemma_tuple_type_view(*tys);
            }
            Err(CastFault::CastFail)
        },
        _ => match int_limits(to) {
            Some((lo, hi)) => if lo < 0 {
                match parse_signed(text.as_str()) {
                    Some(x) => if lo <= x && x <= hi {
                        Ok(make_int(x, to))
                    } else {
                        Err(CastFault::ParseInt)
                    },
                    None => Err(CastFault::ParseInt),
                }
            } else {
                match parse_unsigned(text.as_str()) {
                    Some(x) => if x <= hi as u128 {
                        Ok(make_int(x as i128, to))
                    } else {
                        Err(CastFault::ParseInt)
                    },
                    None => Err(CastFault::ParseInt),
                }
            },
            None => Err(CastFault::CastFail),
        },
    }
}

fn date32_to(days: i32, to: &LogicalType) -> (r: Result<DataValue, CastFault>)
    ensures
        outcome_of(r) == cast_date32(days, to@),
{
    match to {
        LogicalType::SqlNull => Ok(DataValue::Null),
        LogicalType::Char(_, _) | LogicalType::Varchar(_, _) => text_value(
            chrono_date_text(days),
            to,
        ),
        LogicalType::Date => Ok(DataValue::Date32(days)),
        LogicalType::DateTime => match chrono_midnight(days) {
            Some(ts) => Ok(DataValue::Date64(ts)),
            None => Err(CastFault::CastFail),
        },
        LogicalType::Tuple(tys) => {
            proof {
                lemma_tuple_type_view(*tys);
            }
            Err(CastFault::CastFail)
        },
        _ => Err(CastFault::CastFail),
    }
}

fn date64_to(secs: i64, to: &LogicalType) -> (r: Result<DataValue, CastFault>)
    ensures
        outcome_of(r) == cast_date64(secs, to@),
{
    match to {
        LogicalType::SqlNull => Ok(DataValue::Null),
        LogicalType::Char(_, _) | LogicalType::Varchar(_, _) => text_value(
            chrono_datetime_text(secs),
            to,
        ),
        LogicalType::Date => match chrono_clock(secs, 0) {
            Some((days, _)) => Ok(DataValue::Date32(days)),
            None => Err(CastFault::CastFail),
        },
        LogicalType::DateTime => Ok(DataValue::Date64(secs)),
        LogicalType::Time(p) => match chrono_clock(secs, 0) {
            Some((_, second)) => time_to(second, 0, 0, precision(p)),
            None => Err(CastFault::CastFail),
        },
        LogicalType::TimeStamp(p, zone) => Ok(DataValue::Time64(secs, precision(p), *zone)),
        LogicalType::Tuple(tys) => {
            proof {
                lemma_tuple_type_view(*tys);
            }
            Err(CastFault::CastFail)
        },
        _ => Err(CastFault::CastFail),
    }
}

fn time32_to(v: u32, p: u64, to: &LogicalType) -> (r: Result<DataValue, CastFault>)
    ensures
        outcome_of(r) == cast_time32(v, p, to@),
{
    match to {
        LogicalType::SqlNull => Ok(DataValue::Null),
        LogicalType::Char(_, _) | LogicalType::Varchar(_, _) => {
            let text = if p <= 9 {
                let (secs, nanos) = DataValue::unpack(v, p);
                chrono_time_text(secs, nanos)
            } else {
                None
            };
            text_value(text, to)
        },
        LogicalType::Time(tp) => Ok(DataValue::Time32(v, precision(tp))),
        LogicalType::Tuple(tys) => {
            proof {
                lemma_tuple_type_view(*tys);
            }
            Err(CastFault::CastFail)
        },
        _ => Err(CastFault::CastFail),
    }
}

fn time64_to(v: i64, p: u64, to: &LogicalType) -> (r: Result<DataValue, CastFault>)
    ensures
        outcome_of(r) == cast_time64(v, p, to@),
{
    let parts = DataValue::from_timestamp_precision(v, p);
    match to {
        LogicalType::SqlNull => Ok(DataValue::Null),
        LogicalType::Char(_, _) | LogicalType::Varchar(_, _) => {
            let text = match parts {
                Some((secs, nanos)) => chrono_timestamp_text(secs, nanos),
                None => None,
            };
            text_value(text, to)
        },
        LogicalType::TimeStamp(tp, zone) => Ok(DataValue::Time64(v, precision(tp), *zone)),
        LogicalType::Date | LogicalType::DateTime | LogicalType::Time(_) => match parts {
            Some((secs, nanos)) => match chrono_clock(secs, nanos) {
                Some((days, second)) => match to {
                    LogicalType::Date => Ok(DataValue::Date32(days)),
                    LogicalType::DateTime => Ok(DataValue::Date64(secs)),
                    LogicalType::Time(tp) => time_to(second, nanos, precision(tp), precision(tp)),
                    _ => Err(CastFault::CastFail),
                },
                None => Err(CastFault::CastFail),
            },
            None => Err(CastFault::CastFail),
        },
        LogicalType::Tuple(tys) => {
            proof {
                lemma_tuple_type_view(*tys);
            }
            Err(CastFault::CastFail)
        },
        _ => Err(CastFault::CastFail),
    }
}

/// A number has at most as many digits as it counts.
proof fn lemma_digits10_small(m: nat)
    ensures
        digits10(m) <= m,
    decreases m,
{
    if m != 0 {
        lemma_digits10_small(m / 10);
    }
}

/// The number of decimal digits of `m`.
fn count_digits(m: u128) -> (r: u128)
    ensures
        r == digits10(m as nat),
{
    let mut t: u128 = m;
    let mut n: u128 = 0;
    proof {
        lemma_digits10_small(m as nat);
    }
    while t != 0
        invariant
            digits10(m as nat) == n + digits10(t as nat),
            digits10(m as nat) <= m,
        decreases t,
    {
        t = t / 10;
        n += 1;
    }
    n
}

impl DataValue {
    /// Whether the value is within the length that `logic_type` declares.
    pub fn check_len(&self, logic_type: &LogicalType) -> (r: Result<(), DatabaseError>)
        ensures
            len_ok(self@, logic_type@) ==> r is Ok,
            !len_ok(self@, logic_type@) ==> (r matches Err(e) && e is TooLong),
    {
        let is_over_len: bool = match (logic_type, self) {
            (
                LogicalType::Varchar(Some(len), CharLengthUnits::Characters),
                DataValue::Utf8 {
                    value: val,
                    ty: Utf8Type::Variable(_),
                    unit: CharLengthUnits::Characters,
                },
            ) => check_string_len(val.as_str(), *len as usize, CharLengthUnits::Characters),
            (
                LogicalType::Char(len, CharLengthUnits::Characters),
                DataValue::Utf8 {
                    value: val,
                    ty: Utf8Type::Fixed(_),
                    unit: CharLengthUnits::Characters,
                },
            ) => check_string_len(val.as_str(), *len as usize, CharLengthUnits::Characters),
            (
                LogicalType::Varchar(Some(len), CharLengthUnits::Octets),
                DataValue::Utf8 {
                    value: val,
                    ty: Utf8Type::Variable(_),
                    unit: CharLengthUnits::Octets,
                },
            ) => check_string_len(val.as_str(), *len as usize, CharLengthUnits::Octets),
            (
                LogicalType::Char(len, CharLengthUnits::Octets),
                DataValue::Utf8 { value: val, ty: Utf8Type::Fixed(_), unit: CharLengthUnits::Octets },
            ) => check_string_len(val.as_str(), *len as usize, CharLengthUnits::Octets),
            (LogicalType::Decimal(full_len, scale_len), DataValue::Decimal(val)) => {
                let m: i128 = val.mantissa();
                let mag: u128 = if m < 0 {
                    (-m) as u128
                } else {
                    m as u128
                };
                let too_many: bool = match full_len {
                    Some(len) => count_digits(mag) > *len as u128,
                    None => false,
                };
                let too_fine: bool = match scale_len {
                    Some(len) => val.scale() > *len as u32,
                    None => false,
                };
                too_many || too_fine
            },
            (LogicalType::Tuple(tys), _) => {
                proof {
                    lemma_tuple_type_view(*tys);
                }
                false
            },
            (_, DataValue::Tuple(vs, up)) => {
                proof {
                    lemma_tuple_view(*vs, *up);
                }
                false
            },
            _ => false,
        };
        if is_over_len {
            return Err(DatabaseError::TooLong);
        }
        Ok(())
    }

    fn tuple_to(values: Vec<DataValue>, is_upper: bool, to: &LogicalType) -> (r: Result<
        DataValue,
        CastFault,
    >)
        ensures
            outcome_of(r) == pre_cast(Value::Tuple(value_models(values@), is_upper), to@),
        decreases values, 0nat,
    {
        reveal_with_fuel(pre_cast, 2);
        match to {
            LogicalType::Tuple(types) => {
                proof {
                    lemma_tuple_type_view(*types);
                }
                if types.len() < values.len() {
                    return Err(CastFault::CastFail);
                }
                let ghost vs = value_models(values@);
                let ghost tys = type_models(types@);
                let n: usize = values.len();
                let mut rest: Vec<DataValue> = Vec::new();
                let mut list = values;
                let ghost orig = values@;
                while list.len() > 0
                    invariant
                        list.len() + rest.len() == n,
                        n == orig.len(),
                        forall|j: int| 0 <= j < list@.len() ==> #[trigger] list@[j] == orig[j],
                        forall|j: int|
                            0 <= j < rest@.len() ==> #[trigger] rest@[j] == orig[n - 1 - j],
                    decreases list.len(),
                {
                    match list.pop() {
                        Some(x) => rest.push(x),
                        None => {},
                    }
                }
                let mut out: Vec<DataValue> = Vec::new();
                let mut i: usize = 0;
                assert(value_models(out@) =~= Seq::<Value>::empty());
                while i < n
                    invariant
                        i <= n == orig.len(),
                        orig == values@,
                        n <= types@.len(),
                        rest.len() == n - i,
                        forall|j: int|
                            0 <= j < rest@.len() ==> #[trigger] rest@[j] == orig[n - 1 - j],
                        vs == value_models(orig),
                        tys == type_models(types@),
                        to@ == TypeModel::Tuple(tys),
                        cast_all(vs, tys, i as nat) == Ok::<Seq<Value>, CastFault>(
                            value_models(out@),
                        ),
                    decreases n - i,
                {
                    match rest.pop() {
                        Some(value) => {
                            assert(value == orig[i as int]);
                            assert(vs[i as int] == value@);
                            assert(tys[i as int] == types@[i as int]@);
                            let ghost before = value_models(out@);
                            proof {
                                lemma_cast_all_step(vs, tys, (i + 1) as nat);
                            }
                            if types[i].eq(&value.logical_type()) {
                                out.push(value);
                                assert(value_models(out@) =~= before.push(value@));
                            } else {
                                assert(decreases_to!(values => values@));
                                assert(decreases_to!(orig => orig[i as int]));
                                match value.convert(&types[i]) {
                                    Ok(x) => {
                                        out.push(x);
                                        assert(value_models(out@) =~= before.push(x@));
                                    },
                                    Err(f) => {
                                        proof {
                                            reveal_with_fuel(pre_cast, 2);
                                            lemma_cast_all_fails(vs, tys, (i + 1) as nat, n as nat);
                                        }
                                        return Err(f);
                                    },
                                }
                            }
                        },
                        None => {},
                    }
                    i += 1;
                }
                proof {
                    reveal_with_fuel(pre_cast, 2);
                    lemma_tuple_view(out, is_upper);
                }
                Ok(DataValue::Tuple(out, is_upper))
            },
            _ => Err(CastFault::CastFail),
        }
    }

    fn convert(self, to: &LogicalType) -> (r: Result<DataValue, CastFault>)
        ensures
            outcome_of(r) == cast_of(self@, to@),
        decreases self, 1nat,
    {
        reveal_with_fuel(pre_cast, 2);
        reveal_with_fuel(cast_of, 2);
        let ghost me = self@;
        let done = match self {
            DataValue::Null => Ok(DataValue::Null),
            DataValue::Boolean(b) => bool_to(b, to),
            DataValue::Float32(x) => float32_to(x, to),
            DataValue::Float64(x) => float64_to(x, to),
            DataValue::Int8(x) => int_to(x as i128, to),
            DataValue::Int16(x) => int_to(x as i128, to),
            DataValue::Int32(x) => int_to(x as i128, to),
            DataValue::Int64(x) => int_to(x as i128, to),
            DataValue::UInt8(x) => int_to(x as i128, to),
            DataValue::UInt16(x) => int_to(x as i128, to),
            DataValue::UInt32(x) => int_to(x as i128, to),
            DataValue::UInt64(x) => int_to(x as i128, to),
            DataValue::Utf8 { value, .. } => text_cast(value, to),
            DataValue::Date32(x) => date32_to(x, to),
            DataValue::Date64(x) => date64_to(x, to),
            DataValue::Time32(x, p) => time32_to(x, p, to),
            DataValue::Time64(x, p, _) => time64_to(x, p, to),
            DataValue::Decimal(d) => decimal_to(d, to),
            DataValue::Tuple(values, is_upper) => {
                assert(decreases_to!(self => self->Tuple_0));
                proof {
                    lemma_tuple_view(values, is_upper);
                }
                DataValue::tuple_to(values, is_upper, to)
            },
        };
        match done {
            Ok(value) => match value.check_len(to) {
                Ok(_) => Ok(value),
                Err(_) => Err(CastFault::TooLong),
            },
            Err(f) => Err(f),
        }
    }

    /// Brings the value to the type `to`. Null stays null. Integers go to
    /// integer types where they fit, booleans to 0 and 1, decimals to whole
    /// numbers held inside the target's range, floats to integers by
    /// cutting; text is parsed, and everything but floats is printed to
    /// text; dates and times go to one another. What the type cannot hold
    /// is refused with the fault's error, a result that is too long with
    /// `TooLong`. Conversions that compute with floating-point numbers are
    /// refused with `UnsupportedStmt`.
    pub fn cast(self, to: &LogicalType) -> (r: Result<DataValue, DatabaseError>)
        ensures
            match cast_of(self@, to@) {
                Cast::Done(v) => r matches Ok(x) && x@ == v,
                Cast::Fault(f) => r matches Err(e) && is_cast_error(e, f),
            },
            r matches Err(DatabaseError::CastFail { from, to: target }) ==> from@ == type_of(self@)
                && target@ == to@,
    {
        let from = self.logical_type();
        match self.convert(to) {
            Ok(v) => Ok(v),
            Err(f) => Err(
                match f {
                    CastFault::CastFail => DatabaseError::CastFail { from, to: to.clone() },
                    CastFault::TryFromInt => DatabaseError::TryFromInt,
                    CastFault::OverFlow => DatabaseError::OverFlow,
                    CastFault::ParseBool => DatabaseError::ParseBool,
                    CastFault::ParseInt => DatabaseError::ParseInt,
                    CastFault::ParseDate => DatabaseError::ParseDate,
                    CastFault::ParseDecimal => DatabaseError::ParseDecimal,
                    CastFault::TooLong => DatabaseError::TooLong,
                    CastFault::NeedsFloat => DatabaseError::UnsupportedStmt(
                        "floating-point conversion".to_string(),
                    ),
                },
            ),
        }
    }
}

/// Unfolds one step of [`cast_all`].
proof fn lemma_cast_all_step(vs: Seq<Value>, tys: Seq<TypeModel>, n: nat)
    requires
        0 < n <= vs.len(),
        n <= tys.len(),
    ensures
        cast_all(vs, tys, n) == (match cast_all(vs, tys, (n - 1) as nat) {
            Ok(done) => if tys[n - 1] == type_of(vs[n - 1]) {
                Ok(done.push(vs[n - 1]))
            } else {
                match cast_of(vs[n - 1], tys[n - 1]) {
                    Cast::Done(x) => Ok(done.push(x)),
                    Cast::Fault(f) => Err(f),
                }
            },
            Err(f) => Err(f),
        }),
{
    reveal_with_fuel(cast_all, 2);
    reveal_with_fuel(cast_of, 2);
}

/// Once a component cannot be converted, the tuple cannot be.
proof fn lemma_cast_all_fails(vs: Seq<Value>, tys: Seq<TypeModel>, k: nat, n: nat)
    requires
        0 < k <= n <= vs.len(),
        n <= tys.len(),
        cast_all(vs, tys, k) is Err,
    ensures
        cast_all(vs, tys, n) == cast_all(vs, tys, k),
    decreases n - k,
{
    if k < n {
        lemma_cast_all_fails(vs, tys, k, (n - 1) as nat);
        lemma_cast_all_step(vs, tys, n);
    }
}

} // verus!
