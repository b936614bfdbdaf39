use kite_core::cast::decimal_to_whole;
use kite_core::decimal::Decimal;
use kite_core::errors::DatabaseError;
use kite_core::types::{CharLengthUnits, LogicalType};
use kite_core::value::{DataValue, Utf8Type};

fn varchar(len: Option<u32>) -> LogicalType {
    LogicalType::Varchar(len, CharLengthUnits::Characters)
}

fn text(s: &str) -> DataValue {
    DataValue::text(s.to_string())
}

#[test]
fn null_stays_null() {
    for ty in [LogicalType::Integer, LogicalType::Double, varchar(None), LogicalType::SqlNull] {
        assert_eq!(DataValue::Null.cast(&ty).unwrap(), DataValue::Null);
    }
    assert_eq!(
        DataValue::Int32(4).cast(&LogicalType::SqlNull).unwrap(),
        DataValue::Null
    );
}

#[test]
fn integers_go_where_they_fit() {
    assert_eq!(
        DataValue::Int32(300).cast(&LogicalType::Bigint).unwrap(),
        DataValue::Int64(300)
    );
    assert_eq!(
        DataValue::Int64(-1).cast(&LogicalType::Tinyint).unwrap(),
        DataValue::Int8(-1)
    );
    assert_eq!(
        DataValue::UInt64(u64::MAX).cast(&LogicalType::UBigint).unwrap(),
        DataValue::UInt64(u64::MAX)
    );
    assert!(matches!(
        DataValue::Int32(300).cast(&LogicalType::Tinyint),
        Err(DatabaseError::TryFromInt)
    ));
    assert!(matches!(
        DataValue::Int8(-1).cast(&LogicalType::UInteger),
        Err(DatabaseError::TryFromInt)
    ));
    assert!(matches!(
        DataValue::UInt64(u64::MAX).cast(&LogicalType::Bigint),
        Err(DatabaseError::TryFromInt)
    ));
    assert_eq!(
        DataValue::Int16(1).cast(&LogicalType::Boolean).unwrap(),
        DataValue::Boolean(true)
    );
    assert_eq!(
        DataValue::UInt8(0).cast(&LogicalType::Boolean).unwrap(),
        DataValue::Boolean(false)
    );
    match DataValue::Int16(2).cast(&LogicalType::Boolean) {
        Err(DatabaseError::CastFail { from, to }) => {
            assert_eq!(from, LogicalType::Smallint);
            assert_eq!(to, LogicalType::Boolean);
        }
        other => panic!("{:?}", other),
    }
    assert!(matches!(
        DataValue::Int32(1).cast(&LogicalType::Date),
        Err(DatabaseError::CastFail { .. })
    ));
    assert_eq!(DataValue::Int32(-45).cast(&varchar(None)).unwrap(), text("-45"));
    assert!(matches!(
        DataValue::Int32(-45).cast(&varchar(Some(2))),
        Err(DatabaseError::TooLong)
    ));
    assert_eq!(
        DataValue::Int32(7).cast(&LogicalType::Char(3, CharLengthUnits::Octets)).unwrap().utf8(),
        Some("7")
    );
    assert_eq!(
        DataValue::Int32(12).cast(&LogicalType::Decimal(None, None)).unwrap(),
        DataValue::Decimal(Decimal::new(12, 0))
    );
    assert_eq!(
        DataValue::Int32(12).cast(&LogicalType::Decimal(None, Some(2))).unwrap(),
        DataValue::Decimal(Decimal::new(12, 0))
    );
    assert!(matches!(
        DataValue::Int32(12).cast(&LogicalType::Double),
        Err(DatabaseError::UnsupportedStmt(_))
    ));
}

#[test]
fn booleans_go_to_numbers_and_text() {
    assert_eq!(
        DataValue::Boolean(true).cast(&LogicalType::UTinyint).unwrap(),
        DataValue::UInt8(1)
    );
    assert_eq!(
        DataValue::Boolean(false).cast(&LogicalType::Bigint).unwrap(),
        DataValue::Int64(0)
    );
    assert_eq!(
        DataValue::Boolean(true).cast(&LogicalType::Float).unwrap(),
        DataValue::Float32(1.0_f32.to_bits())
    );
    assert_eq!(
        DataValue::Boolean(true).cast(&LogicalType::Double).unwrap(),
        DataValue::Float64(1.0_f64.to_bits())
    );
    assert_eq!(
        DataValue::Boolean(false).cast(&LogicalType::Double).unwrap(),
        DataValue::Float64(0.0_f64.to_bits())
    );
    assert_eq!(DataValue::Boolean(true).cast(&varchar(None)).unwrap(), text("true"));
    assert_eq!(DataValue::Boolean(false).cast(&varchar(Some(5))).unwrap(), text("false"));
    assert!(matches!(
        DataValue::Boolean(false).cast(&varchar(Some(4))),
        Err(DatabaseError::TooLong)
    ));
}

#[test]
fn floats_are_cut_to_integers_as_the_machine_does() {
    let types = [
        LogicalType::Tinyint,
        LogicalType::Smallint,
        LogicalType::Integer,
        LogicalType::Bigint,
        LogicalType::UTinyint,
        LogicalType::USmallint,
        LogicalType::UInteger,
        LogicalType::UBigint,
    ];
    let doubles = [
        0.0_f64,
        -0.0,
        1.0,
        1.5,
        0.999,
        5e-324,
        -1.0,
        126.9,
        127.0,
        127.5,
        128.0,
        255.0,
        255.9,
        256.0,
        32767.5,
        65535.0,
        2147483647.0,
        2147483647.5,
        2147483648.0,
        4294967295.0,
        4294967295.9,
        4294967296.0,
        9007199254740993.0,
        9223372036854775807.0,
        9223372036854775808.0,
        9223372036854777856.0,
        18446744073709549568.0,
        18446744073709551615.0,
        36893488147419103232.0,
        1e300,
        f64::INFINITY,
        f64::NEG_INFINITY,
        f64::NAN,
        f64::MIN_POSITIVE,
    ];
    for ty in &types {
        for d in doubles {
            let want: Result<i128, ()> = if d.is_nan() {
                Ok(0)
            } else {
                let (max_as_float, cut): (f64, i128) = match ty {
                    LogicalType::Tinyint => (i8::MAX as f64, (d as i8) as i128),
                    LogicalType::Smallint => (i16::MAX as f64, (d as i16) as i128),
                    LogicalType::Integer => (i32::MAX as f64, (d as i32) as i128),
                    LogicalType::Bigint => (i64::MAX as f64, (d as i64) as i128),
                    LogicalType::UTinyint => (u8::MAX as f64, (d as u8) as i128),
                    LogicalType::USmallint => (u16::MAX as f64, (d as u16) as i128),
                    LogicalType::UInteger => (u32::MAX as f64, (d as u32) as i128),
                    _ => (u64::MAX as f64, (d as u64) as i128),
                };
                if d <= 0.0 || d > max_as_float {
                    Err(())
                } else {
                    Ok(cut)
                }
            };
            let got = DataValue::Float64(d.to_bits()).cast(ty);
            match (want, got) {
                (Ok(w), Ok(v)) => {
                    let n: i128 = match v {
                        DataValue::Int8(x) => x as i128,
                        DataValue::Int16(x) => x as i128,
                        DataValue::Int32(x) => x as i128,
                        DataValue::Int64(x) => x as i128,
                        DataValue::UInt8(x) => x as i128,
                        DataValue::UInt16(x) => x as i128,
                        DataValue::UInt32(x) => x as i128,
                        DataValue::UInt64(x) => x as i128,
                        other => panic!("{:?}", other),
                    };
                    assert_eq!(n, w, "{} to {:?}", d, ty);
                }
                (Err(()), Err(DatabaseError::OverFlow)) => {}
                (w, g) => panic!("{} to {:?}: {:?} against {:?}", d, ty, w, g),
            }
        }
        for s in [0.0_f32, 0.75, 1.0, 127.0, 127.5, 128.0, 2147483520.0, 2147483648.0, 4294967296.0,
            9223372036854775808.0, 18446744073709551616.0, 1e38, f32::NAN, -3.0]
        {
            let want: Result<i128, ()> = if s.is_nan() {
                Ok(0)
            } else {
                let (max_as_float, cut): (f32, i128) = match ty {
                    LogicalType::Tinyint => (i8::MAX as f32, (s as i8) as i128),
                    LogicalType::Smallint => (i16::MAX as f32, (s as i16) as i128),
                    LogicalType::Integer => (i32::MAX as f32, (s as i32) as i128),
                    LogicalType::Bigint => (i64::MAX as f32, (s as i64) as i128),
                    LogicalType::UTinyint => (u8::MAX as f32, (s as u8) as i128),
                    LogicalType::USmallint => (u16::MAX as f32, (s as u16) as i128),
                    LogicalType::UInteger => (u32::MAX as f32, (s as u32) as i128),
                    _ => (u64::MAX as f32, (s as u64) as i128),
                };
                if s <= 0.0 || s > max_as_float {
                    Err(())
                } else {
                    Ok(cut)
                }
            };
            let got = DataValue::Float32(s.to_bits()).cast(ty);
            match (want, &got) {
                (Ok(w), Ok(v)) => {
                    let as_big = v.clone().cast(&LogicalType::Decimal(None, None)).unwrap();
                    assert_eq!(as_big.decimal().unwrap().mantissa(), w, "{} to {:?}", s, ty);
                }
                (Err(()), Err(DatabaseError::OverFlow)) => {}
                (w, g) => panic!("{} to {:?}: {:?} against {:?}", s, ty, w, g),
            }
        }
    }
    assert_eq!(
        DataValue::Float64(2.5_f64.to_bits()).cast(&LogicalType::Double).unwrap(),
        DataValue::Float64(2.5_f64.to_bits())
    );
    assert!(matches!(
        DataValue::Float64(2.5_f64.to_bits()).cast(&LogicalType::Float),
        Err(DatabaseError::UnsupportedStmt(_))
    ));
    assert!(matches!(
        DataValue::Float32(2.5_f32.to_bits()).cast(&varchar(None)),
        Err(DatabaseError::UnsupportedStmt(_))
    ));
}

#[test]
fn text_is_parsed() {
    assert_eq!(text("true").cast(&LogicalType::Boolean).unwrap(), DataValue::Boolean(true));
    assert_eq!(text("false").cast(&LogicalType::Boolean).unwrap(), DataValue::Boolean(false));
    assert!(matches!(text("True").cast(&LogicalType::Boolean), Err(DatabaseError::ParseBool)));
    assert_eq!(text("-12").cast(&LogicalType::Tinyint).unwrap(), DataValue::Int8(-12));
    assert_eq!(text("+12").cast(&LogicalType::UTinyint).unwrap(), DataValue::UInt8(12));
    assert_eq!(
        text("18446744073709551615").cast(&LogicalType::UBigint).unwrap(),
        DataValue::UInt64(u64::MAX)
    );
    for (s, ty) in [
        ("128", LogicalType::Tinyint),
        ("-1", LogicalType::UInteger),
        ("-0", LogicalType::UInteger),
        ("1.0", LogicalType::Integer),
        ("", LogicalType::Integer),
        ("18446744073709551616", LogicalType::UBigint),
    ] {
        assert!(matches!(text(s).cast(&ty), Err(DatabaseError::ParseInt)), "{}", s);
    }
    assert_eq!(
        text("12.50").cast(&LogicalType::Decimal(None, None)).unwrap().decimal().map(|d| (d.mantissa(), d.scale())),
        Some((1250, 2))
    );
    assert!(matches!(
        text("12.50").cast(&LogicalType::Decimal(Some(3), None)),
        Err(DatabaseError::TooLong)
    ));
    assert!(matches!(
        text("12.50").cast(&LogicalType::Decimal(None, Some(1))),
        Err(DatabaseError::TooLong)
    ));
    assert!(matches!(
        text("x").cast(&LogicalType::Decimal(None, None)),
        Err(DatabaseError::ParseDecimal)
    ));
    assert_eq!(
        text("abc").cast(&LogicalType::Char(3, CharLengthUnits::Characters)).unwrap(),
        DataValue::Utf8 {
            value: "abc".to_string(),
            ty: Utf8Type::Fixed(3),
            unit: CharLengthUnits::Characters
        }
    );
    assert!(matches!(
        text("héé").cast(&LogicalType::Varchar(Some(4), CharLengthUnits::Octets)),
        Err(DatabaseError::TooLong)
    ));
    assert_eq!(
        text("héé").cast(&LogicalType::Varchar(Some(3), CharLengthUnits::Characters)).unwrap().utf8(),
        Some("héé")
    );
    assert!(matches!(text("1").cast(&LogicalType::Double), Err(DatabaseError::UnsupportedStmt(_))));
    assert!(matches!(
        text("1").cast(&LogicalType::Tuple(vec![])),
        Err(DatabaseError::CastFail { .. })
    ));
}

#[test]
fn dates_and_times_go_to_one_another() {
    assert_eq!(text("1970-01-01").cast(&LogicalType::Date).unwrap(), DataValue::Date32(719163));
    assert_eq!(text("1970-01-02").cast(&LogicalType::Date).unwrap(), DataValue::Date32(719164));
    assert!(matches!(text("1970-13-01").cast(&LogicalType::Date), Err(DatabaseError::ParseDate)));
    assert_eq!(
        text("1970-01-02 00:00:05").cast(&LogicalType::DateTime).unwrap(),
        DataValue::Date64(86405)
    );
    assert_eq!(
        text("1970-01-02").cast(&LogicalType::DateTime).unwrap(),
        DataValue::Date64(86400)
    );
    assert!(matches!(text("noon").cast(&LogicalType::DateTime), Err(DatabaseError::ParseDate)));
    assert_eq!(
        text("01:02:03").cast(&LogicalType::Time(None)).unwrap(),
        DataValue::Time32(3723, 0)
    );
    assert_eq!(
        text("01:02:03.5").cast(&LogicalType::Time(Some(1))).unwrap(),
        DataValue::Time32(DataValue::pack(3723, 500_000_000, 1), 1)
    );
    assert!(matches!(
        text("25:00:00").cast(&LogicalType::Time(None)),
        Err(DatabaseError::ParseDate)
    ));
    assert_eq!(
        text("1970-01-01 00:00:07").cast(&LogicalType::TimeStamp(None, false)).unwrap(),
        DataValue::Time64(7, 0, false)
    );
    assert_eq!(
        text("1970-01-01 00:00:07").cast(&LogicalType::TimeStamp(None, true)).unwrap(),
        DataValue::Time64(7, 0, true)
    );
    assert_eq!(
        text("1970-01-01 01:00:07+01:00").cast(&LogicalType::TimeStamp(None, true)).unwrap(),
        DataValue::Time64(7, 0, true)
    );
    assert_eq!(
        text("1970-01-01 00:00:07.25").cast(&LogicalType::TimeStamp(Some(3), true)).unwrap(),
        DataValue::Time64(7250, 3, true)
    );
    assert_eq!(
        text("1970-01-01 00:00:07.25").cast(&LogicalType::TimeStamp(Some(6), true)).unwrap(),
        DataValue::Time64(7_250_000, 6, true)
    );
    assert_eq!(
        text("1969-12-31 23:59:59.5").cast(&LogicalType::TimeStamp(Some(9), true)).unwrap(),
        DataValue::Time64(-500_000_000, 9, true)
    );
    assert!(matches!(
        text("1970-01-01 00:00:07").cast(&LogicalType::TimeStamp(Some(3), false)),
        Err(DatabaseError::ParseDate)
    ));
    assert!(matches!(
        text("1970-01-01 00:00:07").cast(&LogicalType::TimeStamp(Some(4), true)),
        Err(DatabaseError::CastFail { .. })
    ));

    assert_eq!(DataValue::Date32(719163).cast(&varchar(None)).unwrap(), text("1970-01-01"));
    assert_eq!(
        DataValue::Date32(719164).cast(&LogicalType::DateTime).unwrap(),
        DataValue::Date64(86400)
    );
    assert!(matches!(
        DataValue::Date32(i32::MAX).cast(&LogicalType::DateTime),
        Err(DatabaseError::CastFail { .. })
    ));
    assert!(matches!(
        DataValue::Date32(1).cast(&LogicalType::Integer),
        Err(DatabaseError::CastFail { .. })
    ));
    assert_eq!(DataValue::Date64(86405).cast(&varchar(None)).unwrap(), text("1970-01-02 00:00:05"));
    assert_eq!(
        DataValue::Date64(86405).cast(&LogicalType::Date).unwrap(),
        DataValue::Date32(719164)
    );
    assert_eq!(
        DataValue::Date64(-1).cast(&LogicalType::Time(Some(3))).unwrap(),
        DataValue::Time32(86399, 3)
    );
    assert_eq!(
        DataValue::Date64(5).cast(&LogicalType::TimeStamp(Some(3), true)).unwrap(),
        DataValue::Time64(5, 3, true)
    );
    assert!(matches!(
        DataValue::Date64(i64::MAX).cast(&LogicalType::Date),
        Err(DatabaseError::CastFail { .. })
    ));
    assert_eq!(DataValue::Time32(3723, 0).cast(&varchar(None)).unwrap(), text("01:02:03"));
    assert_eq!(
        DataValue::Time32(DataValue::pack(3723, 500_000_000, 1), 1).cast(&varchar(None)).unwrap(),
        text("01:02:03.500")
    );
    assert_eq!(
        DataValue::Time32(9, 2).cast(&LogicalType::Time(Some(4))).unwrap(),
        DataValue::Time32(9, 4)
    );
    assert_eq!(
        DataValue::Time64(86_405_250, 3, false).cast(&varchar(None)).unwrap(),
        text("1970-01-02 00:00:05.250")
    );
    assert_eq!(
        DataValue::Time64(86_405_250, 3, false).cast(&LogicalType::Date).unwrap(),
        DataValue::Date32(719164)
    );
    assert_eq!(
        DataValue::Time64(-1, 3, false).cast(&LogicalType::DateTime).unwrap(),
        DataValue::Date64(-1)
    );
    assert_eq!(
        DataValue::Time64(86_405_250, 3, false).cast(&LogicalType::Time(Some(3))).unwrap(),
        DataValue::Time32(DataValue::pack(5, 250_000_000, 3), 3)
    );
    assert_eq!(
        DataValue::Time64(4, 0, false).cast(&LogicalType::TimeStamp(Some(9), true)).unwrap(),
        DataValue::Time64(4, 9, true)
    );
    assert!(matches!(
        DataValue::Time64(4, 5, false).cast(&LogicalType::Date),
        Err(DatabaseError::CastFail { .. })
    ));
}

#[test]
fn decimals_are_cut_and_held_inside_the_range() {
    let d = |m, s| DataValue::Decimal(Decimal::new(m, s));
    assert_eq!(d(1299, 2).cast(&LogicalType::Integer).unwrap(), DataValue::Int32(12));
    assert_eq!(d(-1299, 2).cast(&LogicalType::Integer).unwrap(), DataValue::Int32(-12));
    assert_eq!(d(-1299, 2).cast(&LogicalType::UInteger).unwrap(), DataValue::UInt32(0));
    assert_eq!(d(99999, 1).cast(&LogicalType::Tinyint).unwrap(), DataValue::Int8(127));
    assert_eq!(d(-99999, 1).cast(&LogicalType::Tinyint).unwrap(), DataValue::Int8(-128));
    assert_eq!(
        DataValue::Decimal(Decimal::max_value()).cast(&LogicalType::UBigint).unwrap(),
        DataValue::UInt64(u64::MAX)
    );
    assert_eq!(
        DataValue::Decimal(Decimal::min_value()).cast(&LogicalType::Bigint).unwrap(),
        DataValue::Int64(i64::MIN)
    );
    assert_eq!(d(1250, 2).cast(&varchar(None)).unwrap(), text("12.50"));
    assert_eq!(d(1250, 2).cast(&LogicalType::Decimal(None, None)).unwrap(), d(1250, 2));
    assert!(matches!(
        d(1250, 2).cast(&LogicalType::Decimal(None, Some(1))),
        Err(DatabaseError::TooLong)
    ));
    assert!(matches!(d(1, 0).cast(&LogicalType::Double), Err(DatabaseError::UnsupportedStmt(_))));
    assert!(matches!(d(1, 0).cast(&LogicalType::Boolean), Err(DatabaseError::CastFail { .. })));
    assert_eq!(decimal_to_whole(&Decimal::new(-5, 1)), 0);
    assert_eq!(decimal_to_whole(&Decimal::new(123456, 3)), 123);
    assert!(d(5, 0).check_len(&LogicalType::Decimal(Some(1), Some(0))).is_ok());
    assert!(matches!(
        d(50, 1).check_len(&LogicalType::Decimal(Some(1), None)),
        Err(DatabaseError::TooLong)
    ));
    assert!(d(0, 0).check_len(&LogicalType::Decimal(Some(0), None)).is_ok());
}

#[test]
fn tuples_are_cast_component_by_component() {
    let tuple = DataValue::Tuple(
        vec![DataValue::Int32(1), text("2"), DataValue::Null],
        true,
    );
    let ty = LogicalType::Tuple(vec![
        LogicalType::Bigint,
        LogicalType::Integer,
        LogicalType::Integer,
        LogicalType::Boolean,
    ]);
    assert_eq!(
        tuple.clone().cast(&ty).unwrap(),
        DataValue::Tuple(
            vec![DataValue::Int64(1), DataValue::Int32(2), DataValue::Null],
            true
        )
    );
    assert!(matches!(
        tuple.clone().cast(&LogicalType::Tuple(vec![LogicalType::Bigint])),
        Err(DatabaseError::CastFail { .. })
    ));
    assert!(matches!(
        tuple
            .clone()
            .cast(&LogicalType::Tuple(vec![LogicalType::Tinyint, LogicalType::Boolean, LogicalType::Date])),
        Err(DatabaseError::ParseBool)
    ));
    assert!(matches!(tuple.cast(&LogicalType::Integer), Err(DatabaseError::CastFail { .. })));
}

#[test]
fn times_of_day_are_packed() {
    assert_eq!(DataValue::pack(3723, 0, 0), 3723);
    assert_eq!(DataValue::pack(86400, 1_000_000_000, 0), (1 << 31) | 86400);
    assert_eq!(DataValue::pack(5, 500_000_000, 1), (5 << 28) | 5);
    assert_eq!(DataValue::pack(5, 250_000_000, 2), (25 << 25) | 5);
    assert_eq!(DataValue::pack(5, 999_000_000, 3), (999 << 22) | 5);
    assert_eq!(DataValue::pack(5, 123_400_000, 4), (1234 << 18) | 5);
    assert_eq!(DataValue::pack(5, 3, 9), ((3_u64 << 31) as u32) | 5);
    assert_eq!(DataValue::unpack(DataValue::pack(5, 500_000_000, 1), 1), (5, 500_000_000));
    assert_eq!(DataValue::unpack(DataValue::pack(86399, 999_000_000, 3), 3), (86399, 999_000_000));
    assert_eq!(DataValue::unpack(DataValue::pack(7, 123_400_000, 4), 4), (7, 123_400_000));
    assert_eq!(DataValue::unpack(42, 0), (42, 0));
    assert_eq!(DataValue::from_timestamp_precision(-1, 3), Some((-1, 999_000_000)));
    assert_eq!(DataValue::from_timestamp_precision(1_500, 3), Some((1, 500_000_000)));
    assert_eq!(DataValue::from_timestamp_precision(-1_500_000, 6), Some((-2, 500_000_000)));
    assert_eq!(DataValue::from_timestamp_precision(7, 9), Some((0, 7)));
    assert_eq!(DataValue::from_timestamp_precision(7, 0), Some((7, 0)));
    assert_eq!(DataValue::from_timestamp_precision(7, 2), None);
}

#[test]
fn integers_are_spelled_in_decimal_digits() {
    let spelled = |v: DataValue| match v.cast(&varchar(None)).unwrap() {
        DataValue::Utf8 { value, .. } => value,
        other => panic!("{:?} is no text", other),
    };
    assert_eq!(spelled(DataValue::Int32(0)), "0");
    assert_eq!(spelled(DataValue::Int32(-7)), "-7");
    assert_eq!(spelled(DataValue::Int64(i64::MIN)), "-9223372036854775808");
    assert_eq!(spelled(DataValue::UInt64(u64::MAX)), "18446744073709551615");
    assert_eq!(spelled(DataValue::Int16(1050)), "1050");
}

#[test]
fn days_and_seconds_go_to_one_another_by_the_day() {
    assert_eq!(
        DataValue::Date32(719_163).cast(&LogicalType::DateTime).unwrap(),
        DataValue::Date64(0)
    );
    assert_eq!(
        DataValue::Date32(719_162).cast(&LogicalType::DateTime).unwrap(),
        DataValue::Date64(-86_400)
    );
    assert_eq!(
        DataValue::Date64(-1).cast(&LogicalType::Date).unwrap(),
        DataValue::Date32(719_162)
    );
    assert_eq!(
        DataValue::Date64(86_400 * 2 + 5).cast(&LogicalType::Date).unwrap(),
        DataValue::Date32(719_165)
    );
}
