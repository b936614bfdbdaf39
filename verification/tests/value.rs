use bumpalo::Bump;
use kite_core::arena::BumpBytes;
use kite_core::decimal::{Decimal, ValueOrder};
use kite_core::errors::DatabaseError;
use kite_core::types::{CharLengthUnits, LogicalType};
use kite_core::value::{DataValue, Utf8Type};

fn key_of(arena: &Bump, value: DataValue) -> Vec<u8> {
    let mut key = BumpBytes::new_in(arena);
    value.memcomparable_encode(&mut key).unwrap();
    key.as_slice().to_vec()
}

#[test]
fn test_mem_comparable_null() -> Result<(), DatabaseError> {
    let arena = Bump::new();
    let mut key_i8_0 = BumpBytes::new_in(&arena);
    let mut key_i8_1 = BumpBytes::new_in(&arena);
    let mut key_i8_2 = BumpBytes::new_in(&arena);
    let mut key_i8_3 = BumpBytes::new_in(&arena);

    DataValue::Null.memcomparable_encode(&mut key_i8_0)?;
    DataValue::Int8(i8::MIN).memcomparable_encode(&mut key_i8_1)?;
    DataValue::Int8(-1_i8).memcomparable_encode(&mut key_i8_2)?;
    DataValue::Int8(i8::MAX).memcomparable_encode(&mut key_i8_3)?;

    println!("{:?} < {:?}", key_i8_0, key_i8_1);
    println!("{:?} < {:?}", key_i8_1, key_i8_2);
    println!("{:?} < {:?}", key_i8_2, key_i8_3);
    assert!(key_i8_0 < key_i8_1);
    assert!(key_i8_1 < key_i8_2);
    assert!(key_i8_2 < key_i8_3);

    Ok(())
}

#[test]
fn test_mem_comparable_int() -> Result<(), DatabaseError> {
    let arena = Bump::new();
    let mut key_i8_1 = BumpBytes::new_in(&arena);
    let mut key_i8_2 = BumpBytes::new_in(&arena);
    let mut key_i8_3 = BumpBytes::new_in(&arena);

    DataValue::Int8(i8::MIN).memcomparable_encode(&mut key_i8_1)?;
    DataValue::Int8(-1_i8).memcomparable_encode(&mut key_i8_2)?;
    DataValue::Int8(i8::MAX).memcomparable_encode(&mut key_i8_3)?;

    println!("{:?} < {:?}", key_i8_1, key_i8_2);
    println!("{:?} < {:?}", key_i8_2, key_i8_3);
    assert!(key_i8_1 < key_i8_2);
    assert!(key_i8_2 < key_i8_3);

    let mut key_i16_1 = BumpBytes::new_in(&arena);
    let mut key_i16_2 = BumpBytes::new_in(&arena);
    let mut key_i16_3 = BumpBytes::new_in(&arena);

    DataValue::Int16(i16::MIN).memcomparable_encode(&mut key_i16_1)?;
    DataValue::Int16(-1_i16).memcomparable_encode(&mut key_i16_2)?;
    DataValue::Int16(i16::MAX).memcomparable_encode(&mut key_i16_3)?;

    println!("{:?} < {:?}", key_i16_1, key_i16_2);
    println!("{:?} < {:?}", key_i16_2, key_i16_3);
    assert!(key_i16_1 < key_i16_2);
    assert!(key_i16_2 < key_i16_3);

    let mut key_i32_1 = BumpBytes::new_in(&arena);
    let mut key_i32_2 = BumpBytes::new_in(&arena);
    let mut key_i32_3 = BumpBytes::new_in(&arena);

    DataValue::Int32(i32::MIN).memcomparable_encode(&mut key_i32_1)?;
    DataValue::Int32(-1_i32).memcomparable_encode(&mut key_i32_2)?;
    DataValue::Int32(i32::MAX).memcomparable_encode(&mut key_i32_3)?;

    println!("{:?} < {:?}", key_i32_1, key_i32_2);
    println!("{:?} < {:?}", key_i32_2, key_i32_3);
    assert!(key_i32_1 < key_i32_2);
    assert!(key_i32_2 < key_i32_3);

    let mut key_i64_1 = BumpBytes::new_in(&arena);
    let mut key_i64_2 = BumpBytes::new_in(&arena);
    let mut key_i64_3 = BumpBytes::new_in(&arena);

    DataValue::Int64(i64::MIN).memcomparable_encode(&mut key_i64_1)?;
    DataValue::Int64(-1_i64).memcomparable_encode(&mut key_i64_2)?;
    DataValue::Int64(i64::MAX).memcomparable_encode(&mut key_i64_3)?;

    println!("{:?} < {:?}", key_i64_1, key_i64_2);
    println!("{:?} < {:?}", key_i64_2, key_i64_3);
    assert!(key_i64_1 < key_i64_2);
    assert!(key_i64_2 < key_i64_3);

    Ok(())
}

#[test]
fn test_mem_comparable_float() -> Result<(), DatabaseError> {
    let arena = Bump::new();
    let mut key_f32_1 = BumpBytes::new_in(&arena);
    let mut key_f32_2 = BumpBytes::new_in(&arena);
    let mut key_f32_3 = BumpBytes::new_in(&arena);

    DataValue::Float32(f32::MIN.to_bits()).memcomparable_encode(&mut key_f32_1)?;
    DataValue::Float32((-1_f32).to_bits()).memcomparable_encode(&mut key_f32_2)?;
    DataValue::Float32(f32::MAX.to_bits()).memcomparable_encode(&mut key_f32_3)?;

    println!("{:?} < {:?}", key_f32_1, key_f32_2);
    println!("{:?} < {:?}", key_f32_2, key_f32_3);
    assert!(key_f32_1 < key_f32_2);
    assert!(key_f32_2 < key_f32_3);

    let mut key_f64_1 = BumpBytes::new_in(&arena);
    let mut key_f64_2 = BumpBytes::new_in(&arena);
    let mut key_f64_3 = BumpBytes::new_in(&arena);

    DataValue::Float64(f64::MIN.to_bits()).memcomparable_encode(&mut key_f64_1)?;
    DataValue::Float64((-1_f64).to_bits()).memcomparable_encode(&mut key_f64_2)?;
    DataValue::Float64(f64::MAX.to_bits()).memcomparable_encode(&mut key_f64_3)?;

    println!("{:?} < {:?}", key_f64_1, key_f64_2);
    println!("{:?} < {:?}", key_f64_2, key_f64_3);
    assert!(key_f64_1 < key_f64_2);
    assert!(key_f64_2 < key_f64_3);

    Ok(())
}

#[test]
fn test_mem_comparable_decimal() -> Result<(), DatabaseError> {
    let arena = Bump::new();
    let mut key_deciaml_1 = BumpBytes::new_in(&arena);
    let mut key_deciaml_2 = BumpBytes::new_in(&arena);
    let mut key_deciaml_3 = BumpBytes::new_in(&arena);

    DataValue::Decimal(Decimal::min_value()).memcomparable_encode(&mut key_deciaml_1)?;
    DataValue::Decimal(Decimal::new(-1, 0)).memcomparable_encode(&mut key_deciaml_2)?;
    DataValue::Decimal(Decimal::max_value()).memcomparable_encode(&mut key_deciaml_3)?;

    println!("{:?} < {:?}", key_deciaml_1, key_deciaml_2);
    println!("{:?} < {:?}", key_deciaml_2, key_deciaml_3);
    assert!(key_deciaml_1 < key_deciaml_2);
    assert!(key_deciaml_2 < key_deciaml_3);

    Ok(())
}

#[test]
fn test_mem_comparable_tuple_lower() -> Result<(), DatabaseError> {
    let arena = Bump::new();
    let mut key_tuple_1 = BumpBytes::new_in(&arena);
    let mut key_tuple_2 = BumpBytes::new_in(&arena);
    let mut key_tuple_3 = BumpBytes::new_in(&arena);

    DataValue::Tuple(
        vec![DataValue::Null, DataValue::Int8(0), DataValue::Int8(1)],
        false,
    )
    .memcomparable_encode(&mut key_tuple_1)?;
    DataValue::Tuple(
        vec![DataValue::Int8(0), DataValue::Int8(0), DataValue::Int8(1)],
        false,
    )
    .memcomparable_encode(&mut key_tuple_2)?;
    DataValue::Tuple(
        vec![DataValue::Int8(0), DataValue::Int8(0), DataValue::Int8(2)],
        false,
    )
    .memcomparable_encode(&mut key_tuple_3)?;

    println!("{:?} < {:?}", key_tuple_1, key_tuple_2);
    println!("{:?} < {:?}", key_tuple_2, key_tuple_3);
    assert!(key_tuple_1 < key_tuple_2);
    assert!(key_tuple_2 < key_tuple_3);

    Ok(())
}

#[test]
fn test_mem_comparable_tuple_upper() -> Result<(), DatabaseError> {
    let arena = Bump::new();
    let mut key_tuple_1 = BumpBytes::new_in(&arena);
    let mut key_tuple_2 = BumpBytes::new_in(&arena);
    let mut key_tuple_3 = BumpBytes::new_in(&arena);

    DataValue::Tuple(
        vec![DataValue::Null, DataValue::Int8(0), DataValue::Int8(1)],
        true,
    )
    .memcomparable_encode(&mut key_tuple_1)?;
    DataValue::Tuple(
        vec![DataValue::Int8(0), DataValue::Int8(0), DataValue::Int8(1)],
        true,
    )
    .memcomparable_encode(&mut key_tuple_2)?;
    DataValue::Tuple(
        vec![DataValue::Int8(0), DataValue::Int8(0), DataValue::Int8(2)],
        true,
    )
    .memcomparable_encode(&mut key_tuple_3)?;

    println!("{:?} < {:?}", key_tuple_2, key_tuple_3);
    println!("{:?} < {:?}", key_tuple_3, key_tuple_1);
    assert!(key_tuple_2 < key_tuple_3);
    assert!(key_tuple_3 < key_tuple_1);

    Ok(())
}

#[test]
fn key_bytes_of_integers_are_offset_binary() {
    let arena = Bump::new();
    assert_eq!(key_of(&arena, DataValue::Int8(-128)), vec![0x00]);
    assert_eq!(key_of(&arena, DataValue::Int8(0)), vec![0x80]);
    assert_eq!(key_of(&arena, DataValue::Int8(127)), vec![0xFF]);
    assert_eq!(key_of(&arena, DataValue::Int16(-1)), vec![0x7F, 0xFF]);
    assert_eq!(key_of(&arena, DataValue::Int32(1)), vec![0x80, 0, 0, 1]);
    assert_eq!(key_of(&arena, DataValue::Date32(1)), vec![0x80, 0, 0, 1]);
    assert_eq!(
        key_of(&arena, DataValue::Int64(-2)),
        vec![0x7F, 0xFF, 0xFF, 0xFF, 0xFF, 0xFF, 0xFF, 0xFE]
    );
    assert_eq!(key_of(&arena, DataValue::UInt16(0x0102)), vec![1, 2]);
    assert_eq!(key_of(&arena, DataValue::UInt32(0x01020304)), vec![1, 2, 3, 4]);
    assert_eq!(key_of(&arena, DataValue::Time32(7, 0)), vec![0, 0, 0, 7]);
    assert_eq!(
        key_of(&arena, DataValue::UInt64(0x0102030405060708)),
        vec![1, 2, 3, 4, 5, 6, 7, 8]
    );
}

#[test]
fn key_bytes_of_booleans_and_null() {
    let arena = Bump::new();
    assert_eq!(key_of(&arena, DataValue::Boolean(false)), vec![b'0']);
    assert_eq!(key_of(&arena, DataValue::Boolean(true)), vec![b'1']);
    assert_eq!(key_of(&arena, DataValue::Null), Vec::<u8>::new());
}

#[test]
fn key_bytes_of_floats() {
    let arena = Bump::new();
    assert_eq!(
        key_of(&arena, DataValue::Float32(1.0_f32.to_bits())),
        vec![0xBF, 0x80, 0x00, 0x00]
    );
    assert_eq!(
        key_of(&arena, DataValue::Float32((-1.0_f32).to_bits())),
        vec![0x40, 0x7F, 0xFF, 0xFF]
    );
    assert_eq!(
        key_of(&arena, DataValue::Float32(0.0_f32.to_bits())),
        key_of(&arena, DataValue::Float32((-0.0_f32).to_bits()))
    );
    let a = key_of(&arena, DataValue::Float64((-2.5_f64).to_bits()));
    let b = key_of(&arena, DataValue::Float64((-0.5_f64).to_bits()));
    let c = key_of(&arena, DataValue::Float64(0.25_f64.to_bits()));
    let d = key_of(&arena, DataValue::Float64(f64::INFINITY.to_bits()));
    assert!(a < b && b < c && c < d);
}

#[test]
fn key_bytes_of_text_are_grouped() {
    let arena = Bump::new();
    let text = |s: &str| DataValue::text(s.to_string());
    assert_eq!(key_of(&arena, text("")), vec![0, 0, 0, 0, 0, 0, 0, 0, 247]);
    assert_eq!(
        key_of(&arena, text("\u{1}\u{2}\u{3}")),
        vec![1, 2, 3, 0, 0, 0, 0, 0, 250]
    );
    assert_eq!(
        key_of(&arena, text("\u{1}\u{2}\u{3}\u{0}")),
        vec![1, 2, 3, 0, 0, 0, 0, 0, 251]
    );
    assert_eq!(
        key_of(&arena, text("\u{1}\u{2}\u{3}\u{4}\u{5}\u{6}\u{7}\u{8}")),
        vec![1, 2, 3, 4, 5, 6, 7, 8, 255, 0, 0, 0, 0, 0, 0, 0, 0, 247]
    );
    assert!(key_of(&arena, text("abc")) < key_of(&arena, text("abcd")));
    assert!(key_of(&arena, text("abcdefgh")) < key_of(&arena, text("abcdefghi")));
    assert!(key_of(&arena, text("abcdefg")) < key_of(&arena, text("abd")));
}

#[test]
fn key_bytes_of_decimals() {
    let arena = Bump::new();
    assert_eq!(key_of(&arena, DataValue::Decimal(Decimal::new(0, 0))), vec![0x15]);
    assert_eq!(key_of(&arena, DataValue::Decimal(Decimal::new(0, 5))), vec![0x15]);
    assert_eq!(key_of(&arena, DataValue::Decimal(Decimal::new(1, 0))), vec![0x18, 0x02]);
    assert_eq!(key_of(&arena, DataValue::Decimal(Decimal::new(-1, 0))), vec![0x12, 0xFD]);
    assert_eq!(
        key_of(&arena, DataValue::Decimal(Decimal::new(11111, 2))),
        vec![0x19, 0x03, 0x17, 0x16]
    );
    assert_eq!(key_of(&arena, DataValue::Decimal(Decimal::new(1, 3))), vec![0x16, 0xFE, 0x14]);
    let order = [
        Decimal::min_value(),
        Decimal::new(-12345, 1),
        Decimal::new(-1, 0),
        Decimal::new(-1, 4),
        Decimal::new(0, 0),
        Decimal::new(1, 4),
        Decimal::new(5, 1),
        Decimal::new(1, 0),
        Decimal::new(12345, 1),
        Decimal::max_value(),
    ];
    for pair in order.windows(2) {
        assert!(
            key_of(&arena, DataValue::Decimal(pair[0])) < key_of(&arena, DataValue::Decimal(pair[1]))
        );
        assert_eq!(pair[0].order(&pair[1]), ValueOrder::Less);
    }
    assert_eq!(Decimal::new(10, 1).order(&Decimal::new(1, 0)), ValueOrder::Equal);
}

#[test]
fn upper_tuple_sorts_after_every_extension() {
    let arena = Bump::new();
    let prefix = vec![DataValue::Int32(7), DataValue::Int32(10)];
    let upper = key_of(&arena, DataValue::Tuple(prefix.clone(), true));
    for last in [i32::MIN, -1, 0, 2, i32::MAX] {
        let mut extended = prefix.clone();
        extended.push(DataValue::Int32(last));
        assert!(key_of(&arena, DataValue::Tuple(extended, false)) < upper);
    }
    let lower = key_of(&arena, DataValue::Tuple(prefix, false));
    assert!(lower < upper);
    assert_eq!(
        key_of(
            &arena,
            DataValue::Tuple(vec![DataValue::Null, DataValue::Int8(1)], true)
        ),
        vec![0xFF, 0x81, 0xFF]
    );
    assert_eq!(
        key_of(
            &arena,
            DataValue::Tuple(vec![DataValue::Null, DataValue::Int8(1)], false)
        ),
        vec![0x00, 0x81, 0x00]
    );
}

#[test]
fn equality_follows_the_engine() {
    assert_eq!(DataValue::Null, DataValue::Null);
    assert_ne!(DataValue::Null, DataValue::Int32(0));
    assert_ne!(DataValue::Int32(1), DataValue::Int64(1));
    assert_eq!(
        DataValue::text("a".to_string()),
        DataValue::Utf8 {
            value: "a".to_string(),
            ty: Utf8Type::Fixed(3),
            unit: CharLengthUnits::Octets
        }
    );
    assert_eq!(DataValue::Time32(5, 0), DataValue::Time32(5, 3));
    assert_eq!(
        DataValue::Decimal(Decimal::new(10, 1)),
        DataValue::Decimal(Decimal::new(1, 0))
    );
    assert_eq!(
        DataValue::Float32(f32::NAN.to_bits()),
        DataValue::Float32(f32::NAN.to_bits())
    );
    assert_eq!(
        DataValue::Float64(0.0_f64.to_bits()),
        DataValue::Float64((-0.0_f64).to_bits())
    );
    assert_ne!(
        DataValue::Tuple(vec![DataValue::Int32(1)], false),
        DataValue::Tuple(vec![DataValue::Int32(1)], true)
    );
}

#[test]
fn order_exists_within_one_kind_only() {
    assert_eq!(
        DataValue::Int32(1).compare(&DataValue::Int32(2)),
        Some(ValueOrder::Less)
    );
    assert_eq!(
        DataValue::Int32(2).compare(&DataValue::Int32(2)),
        Some(ValueOrder::Equal)
    );
    assert_eq!(DataValue::Int32(1).compare(&DataValue::Int64(2)), None);
    assert_eq!(DataValue::Null.compare(&DataValue::Null), Some(ValueOrder::Equal));
    assert_eq!(DataValue::Null.compare(&DataValue::Int32(2)), None);
    assert_eq!(
        DataValue::text("b".to_string()).compare(&DataValue::text("ab".to_string())),
        Some(ValueOrder::Greater)
    );
    assert_eq!(
        DataValue::Float64((-1.5_f64).to_bits()).compare(&DataValue::Float64(0.5_f64.to_bits())),
        Some(ValueOrder::Less)
    );
    assert_eq!(
        DataValue::Float32(f32::NAN.to_bits()).compare(&DataValue::Float32(f32::INFINITY.to_bits())),
        Some(ValueOrder::Greater)
    );
    assert_eq!(
        DataValue::Tuple(vec![], false).compare(&DataValue::Tuple(vec![], false)),
        None
    );
}

#[test]
fn defaults_and_types() {
    assert_eq!(DataValue::init(&LogicalType::Integer), DataValue::Int32(0));
    assert_eq!(DataValue::init(&LogicalType::Date), DataValue::Date32(719163));
    assert_eq!(
        DataValue::init(&LogicalType::Tuple(vec![
            LogicalType::Boolean,
            LogicalType::Varchar(None, CharLengthUnits::Characters)
        ])),
        DataValue::Tuple(
            vec![DataValue::Boolean(false), DataValue::text(String::new())],
            false
        )
    );
    assert_eq!(
        DataValue::Tuple(vec![DataValue::Int8(1), DataValue::Null], false).logical_type(),
        LogicalType::Tuple(vec![LogicalType::Tinyint, LogicalType::SqlNull])
    );
    assert_eq!(DataValue::Time32(1, 3).logical_type(), LogicalType::Time(None));
    assert!(matches!(DataValue::Int32(1).is_true(), Err(DatabaseError::InvalidType)));
    assert!(matches!(DataValue::Null.is_true(), Ok(false)));
    assert!(matches!(DataValue::Boolean(true).is_true(), Ok(true)));
    assert_eq!(DataValue::values_to_tuple(vec![]), None);
    assert_eq!(
        DataValue::values_to_tuple(vec![DataValue::Int8(1)]),
        Some(DataValue::Int8(1))
    );
    assert_eq!(
        DataValue::values_to_tuple(vec![DataValue::Int8(1), DataValue::Int8(2)]),
        Some(DataValue::Tuple(vec![DataValue::Int8(1), DataValue::Int8(2)], false))
    );
    assert_eq!(
        DataValue::text("abcx".to_string()).common_prefix_length(&DataValue::text("abd".to_string())),
        Some(2)
    );
    assert_eq!(DataValue::Null.common_prefix_length(&DataValue::Int8(1)), None);
}

#[test]
fn equal_decimals_share_a_key_and_close_ones_do_not() {
    let arena = Bump::new();
    let key = |num: i64, scale: u32| key_of(&arena, DataValue::Decimal(Decimal::new(num, scale)));
    assert_eq!(key(10, 1), key(1, 0));
    assert_eq!(key(-2500, 3), key(-25, 1));
    assert_eq!(key(1_000_000, 0), key(10_000_000, 1));
    let order = [
        (-10001, 2),
        (-100, 0),
        (-9999, 2),
        (-15001, 4),
        (-15, 1),
        (-1, 1),
        (-999, 4),
        (-5, 2),
        (5, 2),
        (999, 4),
        (1, 1),
        (15, 1),
        (15001, 4),
        (9999, 2),
        (100, 0),
        (10001, 2),
        (123456789012, 0),
        (1234567890121, 1),
    ];
    for pair in order.windows(2) {
        let (a, b) = (pair[0], pair[1]);
        assert_eq!(
            Decimal::new(a.0, a.1).order(&Decimal::new(b.0, b.1)),
            ValueOrder::Less
        );
        assert!(key(a.0, a.1) < key(b.0, b.1), "{:?} against {:?}", a, b);
    }
}
