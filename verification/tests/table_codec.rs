use kite_core::arena::BumpBytes;
use kite_core::catalog::{ColumnCatalog, ColumnDesc, ColumnRef};
use kite_core::decimal::Decimal;
use kite_core::errors::DatabaseError;
use kite_core::index::{Index, IndexType};
use kite_core::table_codec::{CodecType, TableCodec};
use kite_core::tuple::Tuple;
use kite_core::types::LogicalType;
use kite_core::value::DataValue;
use std::collections::BTreeSet;
use std::ops::Bound;

fn build_table_codec() -> Vec<ColumnRef> {
    vec![
        ColumnRef::from(ColumnCatalog::new(
            "c1".into(),
            false,
            ColumnDesc::new(LogicalType::Integer, Some(0), false, None).unwrap(),
        )),
        ColumnRef::from(ColumnCatalog::new(
            "c2".into(),
            false,
            ColumnDesc::new(LogicalType::Decimal(None, None), None, false, None).unwrap(),
        )),
    ]
}

#[test]
fn test_table_codec_tuple() -> Result<(), DatabaseError> {
    let table_codec = TableCodec::default();
    let schema = build_table_codec();

    let mut tuple = Tuple::new(
        Some(DataValue::Int32(0)),
        vec![DataValue::Int32(0), DataValue::Decimal(Decimal::new(1, 0))],
    );
    let (_, bytes) = table_codec.encode_tuple(
        "t1",
        &tuple,
        &[LogicalType::Integer, LogicalType::Decimal(None, None)],
    )?;
    let pk_indices = vec![0];

    tuple.pk = None;
    assert_eq!(
        TableCodec::decode_tuple(
            &kite_core::tuple::types(&schema),
            &pk_indices,
            &[0, 1],
            &schema,
            bytes.as_slice(),
            false
        )?,
        tuple
    );

    Ok(())
}

#[test]
fn test_table_codec_statistics_meta_path() {
    let table_codec = TableCodec::default();
    let path = String::from("./lol");
    let (_, bytes) = table_codec.encode_statistics_path("t1", 0, path.clone());
    let decode_path = TableCodec::decode_statistics_path(bytes.as_slice()).unwrap();

    assert_eq!(path, decode_path);
}

#[test]
fn test_table_codec_column_bound() {
    let table_codec = TableCodec::default();
    let mut set = BTreeSet::new();
    let op = |col_id: usize, table_name: &str| {
        let mut col = ColumnCatalog::new(
            "".to_string(),
            false,
            ColumnDesc::new(LogicalType::SqlNull, None, false, None).unwrap(),
        );

        col.set_ref_table(table_name.to_string(), col_id as u128, false);

        table_codec.encode_column_key(&ColumnRef::from(col)).unwrap()
    };

    set.insert(op(0, "T0"));
    set.insert(op(1, "T0"));
    set.insert(op(2, "T0"));

    set.insert(op(0, "T1"));
    set.insert(op(1, "T1"));
    set.insert(op(2, "T1"));

    set.insert(op(0, "T2"));
    set.insert(op(0, "T2"));
    set.insert(op(0, "T2"));

    let (min, max) = table_codec.columns_bound("T1");

    let vec = set
        .range::<BumpBytes, (Bound<&BumpBytes>, Bound<&BumpBytes>)>((
            Bound::Included(&min),
            Bound::Included(&max),
        ))
        .collect::<Vec<_>>();

    assert_eq!(vec.len(), 3);

    assert_eq!(vec[0], &op(0, "T1"));
    assert_eq!(vec[1], &op(1, "T1"));
    assert_eq!(vec[2], &op(2, "T1"));
}

#[test]
fn test_table_codec_index_meta_bound() {
    let table_codec = TableCodec::default();
    let mut set = BTreeSet::new();
    let op = |index_id: usize, table_name: &str| {
        table_codec
            .encode_index_meta_key(table_name, index_id as u32)
            .unwrap()
    };

    set.insert(op(0, "T0"));
    set.insert(op(1, "T0"));
    set.insert(op(2, "T0"));

    set.insert(op(0, "T1"));
    set.insert(op(1, "T1"));
    set.insert(op(2, "T1"));

    set.insert(op(0, "T2"));
    set.insert(op(1, "T2"));
    set.insert(op(2, "T2"));

    let (min, max) = table_codec.index_meta_bound("T1");

    let vec = set
        .range::<BumpBytes, (Bound<&BumpBytes>, Bound<&BumpBytes>)>((
            Bound::Included(&min),
            Bound::Included(&max),
        ))
        .collect::<Vec<_>>();

    assert_eq!(vec.len(), 3);

    assert_eq!(vec[0], &op(0, "T1"));
    assert_eq!(vec[1], &op(1, "T1"));
    assert_eq!(vec[2], &op(2, "T1"));
}

#[test]
fn test_table_codec_index_bound() {
    let table_codec = TableCodec::default();
    let mut set = BTreeSet::new();
    let table_name = "T0".to_string();

    let op = |value: DataValue, index_id: usize, table_name: &String| {
        let index = Index::new(
            index_id as u32,
            &value,
            IndexType::PrimaryKey { is_multiple: false },
        );

        table_codec
            .encode_index_key(table_name, &index, None)
            .unwrap()
    };

    set.insert(op(DataValue::Int32(0), 0, &table_name));
    set.insert(op(DataValue::Int32(1), 0, &table_name));
    set.insert(op(DataValue::Int32(2), 0, &table_name));

    set.insert(op(DataValue::Int32(0), 1, &table_name));
    set.insert(op(DataValue::Int32(1), 1, &table_name));
    set.insert(op(DataValue::Int32(2), 1, &table_name));

    set.insert(op(DataValue::Int32(0), 2, &table_name));
    set.insert(op(DataValue::Int32(1), 2, &table_name));
    set.insert(op(DataValue::Int32(2), 2, &table_name));

    println!("{:#?}", set);

    let (min, max) = table_codec.index_bound(&table_name, 1).unwrap();

    println!("{:?}", min);
    println!("{:?}", max);

    let vec = set
        .range::<BumpBytes, (Bound<&BumpBytes>, Bound<&BumpBytes>)>((
            Bound::Included(&min),
            Bound::Included(&max),
        ))
        .collect::<Vec<_>>();

    assert_eq!(vec.len(), 3);

    assert_eq!(vec[0], &op(DataValue::Int32(0), 1, &table_name));
    assert_eq!(vec[1], &op(DataValue::Int32(1), 1, &table_name));
    assert_eq!(vec[2], &op(DataValue::Int32(2), 1, &table_name));
}

#[test]
fn test_table_codec_index_all_bound() {
    let table_codec = TableCodec::default();
    let mut set = BTreeSet::new();
    let op = |value: DataValue, index_id: usize, table_name: &str| {
        let index = Index::new(
            index_id as u32,
            &value,
            IndexType::PrimaryKey { is_multiple: false },
        );

        table_codec
            .encode_index_key(table_name, &index, None)
            .unwrap()
    };

    set.insert(op(DataValue::Int32(0), 0, "T0"));
    set.insert(op(DataValue::Int32(1), 0, "T0"));
    set.insert(op(DataValue::Int32(2), 0, "T0"));

    set.insert(op(DataValue::Int32(0), 0, "T1"));
    set.insert(op(DataValue::Int32(1), 0, "T1"));
    set.insert(op(DataValue::Int32(2), 0, "T1"));

    set.insert(op(DataValue::Int32(0), 0, "T2"));
    set.insert(op(DataValue::Int32(1), 0, "T2"));
    set.insert(op(DataValue::Int32(2), 0, "T2"));

    let (min, max) = table_codec.all_index_bound("T1");

    let vec = set
        .range::<BumpBytes, (Bound<&BumpBytes>, Bound<&BumpBytes>)>((
            Bound::Included(&min),
            Bound::Included(&max),
        ))
        .collect::<Vec<_>>();

    assert_eq!(vec.len(), 3);

    assert_eq!(vec[0], &op(DataValue::Int32(0), 0, "T1"));
    assert_eq!(vec[1], &op(DataValue::Int32(1), 0, "T1"));
    assert_eq!(vec[2], &op(DataValue::Int32(2), 0, "T1"));
}

#[test]
fn test_table_codec_tuple_bound() {
    let table_codec = TableCodec::default();
    let mut set = BTreeSet::new();
    let op = |tuple_id: DataValue, table_name: &str| {
        table_codec
            .encode_tuple_key(table_name, &tuple_id)
            .unwrap()
    };

    set.insert(op(DataValue::Int32(0), "T0"));
    set.insert(op(DataValue::Int32(1), "T0"));
    set.insert(op(DataValue::Int32(2), "T0"));

    set.insert(op(DataValue::Int32(0), "T1"));
    set.insert(op(DataValue::Int32(1), "T1"));
    set.insert(op(DataValue::Int32(2), "T1"));

    set.insert(op(DataValue::Int32(0), "T2"));
    set.insert(op(DataValue::Int32(1), "T2"));
    set.insert(op(DataValue::Int32(2), "T2"));

    let (min, max) = table_codec.tuple_bound("T1");

    let vec = set
        .range::<BumpBytes, (Bound<&BumpBytes>, Bound<&BumpBytes>)>((
            Bound::Included(&min),
            Bound::Included(&max),
        ))
        .collect::<Vec<_>>();

    assert_eq!(vec.len(), 3);

    assert_eq!(vec[0], &op(DataValue::Int32(0), "T1"));
    assert_eq!(vec[1], &op(DataValue::Int32(1), "T1"));
    assert_eq!(vec[2], &op(DataValue::Int32(2), "T1"));
}

#[test]
fn test_root_codec_name_bound() {
    let table_codec = TableCodec::default();
    let arena = bumpalo::Bump::new();
    let mut set: BTreeSet<BumpBytes> = BTreeSet::new();
    let op = |table_name: &str| table_codec.encode_root_table_key(table_name);

    let mut value_0 = BumpBytes::new_in(&arena);
    value_0.push(b'A');
    let mut value_1 = BumpBytes::new_in(&arena);
    value_1.push(b'Z');

    set.insert(value_0);
    set.insert(value_1);
    set.insert(op("T0"));
    set.insert(op("T1"));
    set.insert(op("T2"));

    let (min, max) = table_codec.root_table_bound();

    let vec = set
        .range::<BumpBytes, (Bound<&BumpBytes>, Bound<&BumpBytes>)>((
            Bound::Included(&min),
            Bound::Included(&max),
        ))
        .collect::<Vec<_>>();

    assert_eq!(vec[0], &op("T0"));
    assert_eq!(vec[1], &op("T1"));
    assert_eq!(vec[2], &op("T2"));
}

#[test]
fn test_view_codec_name_bound() {
    let table_codec = TableCodec::default();
    let arena = bumpalo::Bump::new();
    let mut set = BTreeSet::new();
    let op = |view_name: &str| table_codec.encode_view_key(view_name);

    let mut value_0 = BumpBytes::new_in(&arena);
    value_0.push(b'A');
    let mut value_1 = BumpBytes::new_in(&arena);
    value_1.push(b'Z');

    set.insert(value_0);
    set.insert(value_1);

    set.insert(op("V0"));
    set.insert(op("V1"));
    set.insert(op("V2"));

    let (min, max) = table_codec.view_bound();

    let vec = set
        .range::<BumpBytes, (Bound<&BumpBytes>, Bound<&BumpBytes>)>((
            Bound::Included(&min),
            Bound::Included(&max),
        ))
        .collect::<Vec<_>>();

    assert_eq!(vec[2], &op("V0"));
    assert_eq!(vec[0], &op("V1"));
    assert_eq!(vec[1], &op("V2"));
}

#[test]
fn key_layout_is_prefix_tag_and_body() {
    let codec = TableCodec::default();
    let column = codec.key_prefix(CodecType::Column, "t1");
    let tuple = codec.key_prefix(CodecType::Tuple, "t1");
    let hash = column.as_slice()[..8].to_vec();
    assert_eq!(column.as_slice().len(), 9);
    assert_eq!(column.as_slice()[8], b'0');
    assert_eq!(&tuple.as_slice()[..8], &hash[..]);
    assert_eq!(tuple.as_slice()[8], b'8');
    assert_eq!(codec.key_prefix(CodecType::IndexMeta, "t1").as_slice()[8], b'1');
    assert_eq!(codec.key_prefix(CodecType::Index, "t1").as_slice()[8], b'3');
    assert_eq!(codec.key_prefix(CodecType::Statistics, "t1").as_slice()[8], b'4');
    assert_ne!(&codec.key_prefix(CodecType::Column, "t2").as_slice()[..8], &hash[..]);
    assert_ne!(hash, b"t1\0\0\0\0\0\0".to_vec());

    let mut root = b"Root\0".to_vec();
    root.extend_from_slice(&hash);
    assert_eq!(codec.encode_root_table_key("t1").as_slice(), &root[..]);
    let mut view = b"View\0".to_vec();
    view.extend_from_slice(&hash);
    assert_eq!(codec.encode_view_key("t1").as_slice(), &view[..]);
    let mut marker = b"Hash\0".to_vec();
    marker.extend_from_slice(&hash);
    assert_eq!(codec.encode_table_hash_key("t1").as_slice(), &marker[..]);
    let (key, value) = codec.encode_table_hash("t1");
    assert_eq!(key.as_slice(), &marker[..]);
    assert!(value.as_slice().is_empty());

    let mut tuple_key = hash.clone();
    tuple_key.extend_from_slice(&[b'8', 0, 0x80, 0, 0, 5]);
    assert_eq!(
        codec.encode_tuple_key("t1", &DataValue::Int32(5)).unwrap().as_slice(),
        &tuple_key[..]
    );

    let value = DataValue::Int8(1);
    let pk = DataValue::Int8(2);
    let mut index_key = hash.clone();
    index_key.extend_from_slice(&[b'3', 0, 7, 0, 0, 0, 0, 0x81]);
    let unique = Index::new(7, &value, IndexType::Unique);
    assert_eq!(
        codec.encode_index_key("t1", &unique, Some(&pk)).unwrap().as_slice(),
        &index_key[..]
    );
    let mut upper = index_key.clone();
    upper.push(0xFF);
    assert_eq!(
        codec.encode_index_bound_key("t1", &unique, true).unwrap().as_slice(),
        &upper[..]
    );
    let normal = Index::new(7, &value, IndexType::Normal);
    index_key.push(0x82);
    assert_eq!(
        codec.encode_index_key("t1", &normal, Some(&pk)).unwrap().as_slice(),
        &index_key[..]
    );
    let composite = Index::new(7, &value, IndexType::Composite);
    assert_eq!(
        codec.encode_index_key("t1", &composite, Some(&pk)).unwrap().as_slice(),
        &index_key[..]
    );

    let mut stats = hash.clone();
    stats.extend_from_slice(&[b'4', 0, 1, 1, 0, 0]);
    assert_eq!(codec.encode_statistics_path_key("t1", 257).as_slice(), &stats[..]);
    let mut meta = hash.clone();
    meta.extend_from_slice(&[b'1', 0, 2, 0, 0, 0]);
    assert_eq!(codec.encode_index_meta_key("t1", 2).unwrap().as_slice(), &meta[..]);

    let mut col = ColumnCatalog::new(
        "c".to_string(),
        false,
        ColumnDesc::new(LogicalType::Integer, None, false, None).unwrap(),
    );
    assert!(matches!(
        codec.encode_column_key(&col),
        Err(DatabaseError::InvalidColumn(_))
    ));
    col.set_ref_table("t1".to_string(), 0x0102, true);
    assert!(matches!(
        codec.encode_column_key(&col),
        Err(DatabaseError::InvalidColumn(_))
    ));
    col.set_ref_table("t1".to_string(), 0x0102, false);
    let mut col_key = hash.clone();
    col_key.extend_from_slice(&[b'0', 0, 0, 0, 0, 0, 0, 0, 0, 0, 0, 0, 0, 0, 0, 0, 1, 2]);
    assert_eq!(codec.encode_column_key(&col).unwrap().as_slice(), &col_key[..]);
}

#[test]
fn primary_keys_are_checked() {
    let codec = TableCodec::default();
    assert!(matches!(
        codec.encode_tuple_key("t", &DataValue::Null),
        Err(DatabaseError::NotNull)
    ));
    assert!(matches!(
        codec.encode_tuple_key("t", &DataValue::Boolean(true)),
        Err(DatabaseError::InvalidType)
    ));
    assert!(matches!(
        codec.encode_tuple_key(
            "t",
            &DataValue::Tuple(vec![DataValue::Int8(1), DataValue::Null], false)
        ),
        Err(DatabaseError::NotNull)
    ));
    assert!(matches!(
        codec.encode_tuple_key(
            "t",
            &DataValue::Tuple(
                vec![DataValue::Tuple(vec![DataValue::Tuple(vec![], false)], false)],
                false
            )
        ),
        Err(DatabaseError::PrimaryKeyTooManyLayers)
    ));
    assert!(TableCodec::check_primary_key(
        &DataValue::Tuple(
            vec![DataValue::Int8(1), DataValue::text("a".to_string())],
            false
        ),
        0
    )
    .is_ok());
    assert!(matches!(
        TableCodec::check_primary_key(&DataValue::Int8(1), 2),
        Err(DatabaseError::PrimaryKeyTooManyLayers)
    ));
    assert!(TableCodec::check_primary_key_type(&LogicalType::UBigint).is_ok());
    assert!(matches!(
        TableCodec::check_primary_key_type(&LogicalType::Double),
        Err(DatabaseError::InvalidType)
    ));
    let tuple = Tuple::new(None, vec![DataValue::Int32(1)]);
    assert!(matches!(
        codec.encode_tuple("t", &tuple, &[LogicalType::Integer]),
        Err(DatabaseError::PrimaryKeyNotFound)
    ));
}
