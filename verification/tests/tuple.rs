use bumpalo::Bump;
use kite_core::catalog::{ColumnCatalog, ColumnDesc, ColumnRef};
use kite_core::decimal::Decimal;
use kite_core::errors::DatabaseError;
use kite_core::tuple::{types, Tuple};
use kite_core::types::{CharLengthUnits, LogicalType};
use kite_core::value::{DataValue, Utf8Type};

fn column(name: &str, ty: LogicalType, primary: Option<usize>) -> ColumnRef {
    ColumnRef::from(ColumnCatalog::new(
        name.to_string(),
        false,
        ColumnDesc::new(ty, primary, false, None).unwrap(),
    ))
}

fn sixteen_columns() -> Vec<ColumnRef> {
    vec![
        column("c1", LogicalType::Integer, Some(0)),
        column("c2", LogicalType::UInteger, None),
        column("c3", LogicalType::Varchar(Some(2), CharLengthUnits::Characters), None),
        column("c4", LogicalType::Smallint, None),
        column("c5", LogicalType::USmallint, None),
        column("c6", LogicalType::Float, None),
        column("c7", LogicalType::Double, None),
        column("c8", LogicalType::Tinyint, None),
        column("c9", LogicalType::UTinyint, None),
        column("c10", LogicalType::Boolean, None),
        column("c11", LogicalType::DateTime, None),
        column("c12", LogicalType::Date, None),
        column("c13", LogicalType::Decimal(None, None), None),
        column("c14", LogicalType::Char(1, CharLengthUnits::Characters), None),
        column("c15", LogicalType::Varchar(Some(2), CharLengthUnits::Octets), None),
        column("c16", LogicalType::Char(10, CharLengthUnits::Octets), None),
    ]
}

fn sixteen_values() -> Vec<DataValue> {
    vec![
        DataValue::Int32(0),
        DataValue::UInt32(1),
        DataValue::Utf8 {
            value: "LOL".to_string(),
            ty: Utf8Type::Variable(Some(2)),
            unit: CharLengthUnits::Characters,
        },
        DataValue::Int16(1),
        DataValue::UInt16(1),
        DataValue::Float32(0.1_f32.to_bits()),
        DataValue::Float64(0.1_f64.to_bits()),
        DataValue::Int8(1),
        DataValue::UInt8(1),
        DataValue::Boolean(true),
        DataValue::Date64(0),
        DataValue::Date32(0),
        DataValue::Decimal(Decimal::new(0, 3)),
        DataValue::Utf8 {
            value: "K".to_string(),
            ty: Utf8Type::Fixed(1),
            unit: CharLengthUnits::Characters,
        },
        DataValue::Utf8 {
            value: "LOL".to_string(),
            ty: Utf8Type::Variable(Some(2)),
            unit: CharLengthUnits::Octets,
        },
        DataValue::Utf8 {
            value: "K".to_string(),
            ty: Utf8Type::Fixed(10),
            unit: CharLengthUnits::Octets,
        },
    ]
}

#[test]
fn test_tuple_serialize_to_and_deserialize_from() {
    let columns = sixteen_columns();
    let mut nulls = vec![DataValue::Int32(1)];
    for _ in 0..15 {
        nulls.push(DataValue::Null);
    }
    let tuples = vec![
        Tuple::new(Some(DataValue::Int32(0)), sixteen_values()),
        Tuple::new(Some(DataValue::Int32(1)), nulls),
    ];
    let types = types(&columns);
    let arena = Bump::new();
    {
        let tuple_0 = Tuple::deserialize_from(
            &types,
            &vec![0],
            &[0, 1, 2, 3, 4, 5, 6, 7, 8, 9, 10, 11, 12, 13, 14, 15],
            &columns,
            tuples[0].serialize_to(&types, &arena).unwrap().as_slice(),
            true,
        )
        .unwrap();

        assert_eq!(tuples[0], tuple_0);
    }
    {
        let tuple_1 = Tuple::deserialize_from(
            &types,
            &vec![0],
            &[0, 1, 2, 3, 4, 5, 6, 7, 8, 9, 10, 11, 12, 13, 14, 15],
            &columns,
            tuples[1].serialize_to(&types, &arena).unwrap().as_slice(),
            true,
        )
        .unwrap();

        assert_eq!(tuples[1], tuple_1);
    }
}

#[test]
fn stored_row_has_bitmap_then_values() {
    let arena = Bump::new();
    let tuple = Tuple::new(
        None,
        vec![
            DataValue::Int16(-2),
            DataValue::Null,
            DataValue::Boolean(true),
            DataValue::UInt32(0x01020304),
            DataValue::Null,
            DataValue::text("hi".to_string()),
            DataValue::Int8(-1),
            DataValue::Null,
            DataValue::Null,
        ],
    );
    let bytes = tuple.serialize_to(&[], &arena).unwrap();
    assert_eq!(
        bytes.as_slice(),
        &[
            0b0100_1001,
            0b1000_0000,
            0xFE,
            0xFF,
            1,
            4,
            3,
            2,
            1,
            2,
            0,
            0,
            0,
            b'h',
            b'i',
            0xFF
        ]
    );
    let eight = Tuple::new(None, vec![DataValue::Null; 8]);
    assert_eq!(eight.serialize_to(&[], &arena).unwrap().as_slice(), &[0xFF]);
    let none = Tuple::new(None, vec![]);
    assert_eq!(none.serialize_to(&[], &arena).unwrap().as_slice(), &[] as &[u8]);
}

#[test]
fn fixed_text_is_padded_and_trimmed() {
    let arena = Bump::new();
    let octets = DataValue::Utf8 {
        value: "K".to_string(),
        ty: Utf8Type::Fixed(4),
        unit: CharLengthUnits::Octets,
    };
    let chars = DataValue::Utf8 {
        value: "é".to_string(),
        ty: Utf8Type::Fixed(3),
        unit: CharLengthUnits::Characters,
    };
    let tuple = Tuple::new(None, vec![octets.clone(), chars.clone()]);
    let bytes = tuple.serialize_to(&[], &arena).unwrap();
    assert_eq!(
        bytes.as_slice(),
        &[0, b'K', b' ', b' ', b' ', 4, 0, 0, 0, 0xC3, 0xA9, b' ', b' ']
    );
    let types = vec![
        LogicalType::Char(4, CharLengthUnits::Octets),
        LogicalType::Char(3, CharLengthUnits::Characters),
    ];
    let back =
        Tuple::deserialize_from(&types, &[0], &[0, 1], &vec![], bytes.as_slice(), false).unwrap();
    assert_eq!(back.values.len(), 2);
    assert_eq!(back.values[0].utf8(), Some("K"));
    assert_eq!(back.values[1].utf8(), Some("é"));
    let too_long = Tuple::new(
        None,
        vec![DataValue::Utf8 {
            value: "toolong".to_string(),
            ty: Utf8Type::Fixed(4),
            unit: CharLengthUnits::Octets,
        }],
    );
    assert!(matches!(
        too_long.serialize_to(&[], &arena),
        Err(DatabaseError::TooLong)
    ));
    let nested = Tuple::new(None, vec![DataValue::Tuple(vec![], false)]);
    assert!(matches!(
        nested.serialize_to(&[], &arena),
        Err(DatabaseError::InvalidType)
    ));
}

#[test]
fn partial_projection_reads_the_selected_columns() {
    let columns = sixteen_columns();
    let types = types(&columns);
    let arena = Bump::new();
    let mut values = sixteen_values();
    values[1] = DataValue::Null;
    values[6] = DataValue::Null;
    let tuple = Tuple::new(None, values.clone());
    let bytes = tuple.serialize_to(&types, &arena).unwrap();
    let projections = [0, 2, 6, 9, 12, 15];
    let back = Tuple::deserialize_from(
        &types,
        &[0, 1],
        &projections,
        &columns,
        bytes.as_slice(),
        true,
    )
    .unwrap();
    assert_eq!(back.values.len(), projections.len());
    for (k, i) in projections.iter().enumerate() {
        assert_eq!(back.values[k], values[*i]);
    }
    assert_eq!(
        back.pk,
        Some(DataValue::Tuple(
            vec![values[0].clone(), values[2].clone()],
            false
        ))
    );
    let one = Tuple::deserialize_from(&types, &[0], &[15], &columns, bytes.as_slice(), true)
        .unwrap();
    assert_eq!(one.values, vec![values[15].clone()]);
    assert_eq!(one.pk, Some(values[15].clone()));
}

#[test]
fn short_or_broken_rows_are_refused() {
    let types = vec![LogicalType::Integer, LogicalType::Varchar(None, CharLengthUnits::Characters)];
    assert!(matches!(
        Tuple::deserialize_from(&types, &[0], &[0, 1], &vec![], &[], false),
        Err(DatabaseError::Io)
    ));
    assert!(matches!(
        Tuple::deserialize_from(&types, &[0], &[0, 1], &vec![], &[0, 1, 2], false),
        Err(DatabaseError::Io)
    ));
    assert!(matches!(
        Tuple::deserialize_from(
            &types,
            &[0],
            &[0, 1],
            &vec![],
            &[0, 1, 0, 0, 0, 1, 0, 0, 0, 0xFF],
            false
        ),
        Err(DatabaseError::FromUtf8Error)
    ));
    assert!(matches!(
        Tuple::deserialize_from(&types, &[5], &[0], &vec![], &[0, 1, 0, 0, 0], true),
        Err(DatabaseError::PrimaryKeyNotFound)
    ));
    let ok = Tuple::deserialize_from(&types, &[0], &[0], &vec![], &[0, 1, 0, 0, 0], true).unwrap();
    assert_eq!(ok, Tuple::new(Some(DataValue::Int32(1)), vec![DataValue::Int32(1)]));
}

#[test]
fn decimal_raw_form_round_trips() {
    let d = Decimal::new(-12345, 3);
    let raw = d.to_raw_bytes();
    assert_eq!(
        raw,
        vec![0, 0, 3, 0x80, 0x39, 0x30, 0, 0, 0, 0, 0, 0, 0, 0, 0, 0]
    );
    let back = Decimal::from_raw_bytes(&raw);
    assert_eq!(back.mantissa(), -12345);
    assert_eq!(back.scale(), 3);
    let odd = Decimal::from_raw_bytes(&[0, 0, 29, 0, 15, 0, 0, 0, 0, 0, 0, 0, 0, 0, 0, 0]);
    assert_eq!(odd.scale(), 28);
    assert_eq!(odd.mantissa(), 2);
    assert_eq!(Decimal::parse("1.50").map(|d| (d.mantissa(), d.scale())), Some((150, 2)));
    assert!(Decimal::parse("x").is_none());
    assert_eq!(Decimal::new(150, 2).to_text(), "1.50");
    let cut = Decimal::new(12399, 3).trunc_with_scale(1).unwrap();
    assert_eq!((cut.mantissa(), cut.scale()), (123, 1));
    let wide = Decimal::new(1, 0).trunc_with_scale(40);
    assert!(wide.map_or(true, |d| d.scale() <= 28));
    assert!(Decimal::from_parts(1, 20).unwrap().trunc_with_scale(30).is_none());
}
