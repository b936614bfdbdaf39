use kite_core::catalog::{ColumnCatalog, ColumnDesc, ColumnRef};
use kite_core::errors::DatabaseError;
use kite_core::eval::{Produced, Projection};
use kite_core::expression::{BinaryOperator, ScalarExpression};
use kite_core::join::NestedLoopJoin;
use kite_core::planner::{JoinCondition, JoinOperator, JoinType};
use kite_core::tuple::Tuple;
use kite_core::types::LogicalType;
use kite_core::value::DataValue;

fn build_integers(ints: Vec<Option<i32>>) -> Vec<DataValue> {
    ints.into_iter()
        .map(|x| {
            x.map(DataValue::Int32)
                .unwrap_or(DataValue::Null)
        })
        .collect()
}

fn rows(values: &[[i32; 3]]) -> Vec<Tuple> {
    values
        .iter()
        .map(|r| Tuple::new(None, r.iter().map(|v| DataValue::Int32(*v)).collect()))
        .collect()
}

fn build_join_values(
    eq: bool,
) -> (
    Vec<(ScalarExpression, ScalarExpression)>,
    (Vec<ColumnRef>, Vec<Tuple>),
    (Vec<ColumnRef>, Vec<Tuple>),
    ScalarExpression,
) {
    let desc = || ColumnDesc::new(LogicalType::Integer, None, false, None).unwrap();

    let t1_columns = vec![
        ColumnRef::from(ColumnCatalog::new("c1".to_string(), true, desc())),
        ColumnRef::from(ColumnCatalog::new("c2".to_string(), true, desc())),
        ColumnRef::from(ColumnCatalog::new("c3".to_string(), true, desc())),
    ];

    let t2_columns = vec![
        ColumnRef::from(ColumnCatalog::new("c4".to_string(), true, desc())),
        ColumnRef::from(ColumnCatalog::new("c5".to_string(), true, desc())),
        ColumnRef::from(ColumnCatalog::new("c6".to_string(), true, desc())),
    ];

    let on_keys = if eq {
        vec![(
            ScalarExpression::ColumnRef(t1_columns[1].clone()),
            ScalarExpression::ColumnRef(t2_columns[1].clone()),
        )]
    } else {
        vec![]
    };

    let values_t1 = rows(&[[0, 2, 4], [1, 2, 5], [1, 3, 5], [3, 5, 7]]);
    let values_t2 = rows(&[[0, 2, 4], [1, 3, 5], [4, 6, 8], [1, 1, 1]]);

    let filter = ScalarExpression::Binary {
        op: BinaryOperator::Gt,
        left_expr: Box::new(ScalarExpression::ColumnRef(ColumnRef::from(
            ColumnCatalog::new("c1".to_owned(), true, desc()),
        ))),
        right_expr: Box::new(ScalarExpression::ColumnRef(ColumnRef::from(
            ColumnCatalog::new("c4".to_owned(), true, desc()),
        ))),
        ty: LogicalType::Boolean,
    };

    (on_keys, (t1_columns, values_t1), (t2_columns, values_t2), filter)
}

fn valid_result(expected: &mut Vec<Vec<DataValue>>, actual: &[Tuple]) {
    assert_eq!(actual.len(), expected.len());

    for tuple in actual {
        let at = expected.iter().position(|e| e == &tuple.values);
        assert!(at.is_some());
        expected.remove(at.unwrap());
    }

    assert!(expected.is_empty());
}

fn run(
    join_type: JoinType,
    eq: bool,
    with_filter: bool,
) -> Result<Vec<Tuple>, DatabaseError> {
    let (keys, left, right, filter) = build_join_values(eq);
    let op = JoinOperator {
        on: JoinCondition::On {
            on: keys,
            filter: if with_filter { Some(filter) } else { None },
        },
        join_type,
    };
    let produced = NestedLoopJoin::from(op, left.0, right.0).execute(left.1, right.1);
    match produced.error {
        Some(e) => Err(e),
        None => Ok(produced.tuples),
    }
}

#[test]
fn test_nested_inner_join() -> Result<(), DatabaseError> {
    let tuples = run(JoinType::Inner, true, true)?;

    let mut expected_set = Vec::with_capacity(1);
    let tuple = build_integers(vec![Some(1), Some(2), Some(5), Some(0), Some(2), Some(4)]);
    expected_set.push(tuple);

    valid_result(&mut expected_set, &tuples);

    Ok(())
}

#[test]
fn test_nested_left_out_join() -> Result<(), DatabaseError> {
    let tuples = run(JoinType::LeftOuter, true, true)?;

    assert_eq!(
        tuples[0].values,
        build_integers(vec![Some(0), Some(2), Some(4), None, None, None])
    );

    let mut expected_set = Vec::with_capacity(4);
    let tuple = build_integers(vec![Some(0), Some(2), Some(4), None, None, None]);
    expected_set.push(tuple);
    let tuple = build_integers(vec![Some(1), Some(2), Some(5), Some(0), Some(2), Some(4)]);
    expected_set.push(tuple);

    let tuple = build_integers(vec![Some(1), Some(3), Some(5), None, None, None]);
    expected_set.push(tuple);
    let tuple = build_integers(vec![Some(3), Some(5), Some(7), None, None, None]);
    expected_set.push(tuple);

    valid_result(&mut expected_set, &tuples);

    Ok(())
}

#[test]
fn test_nested_cross_join_with_on() -> Result<(), DatabaseError> {
    let tuples = run(JoinType::Cross, true, true)?;

    let mut expected_set = Vec::with_capacity(1);

    let tuple = build_integers(vec![Some(1), Some(2), Some(5), Some(0), Some(2), Some(4)]);
    expected_set.push(tuple);

    valid_result(&mut expected_set, &tuples);

    Ok(())
}

#[test]
fn test_nested_cross_join_without_filter() -> Result<(), DatabaseError> {
    let tuples = run(JoinType::Cross, true, false)?;

    let mut expected_set = Vec::with_capacity(3);

    let tuple = build_integers(vec![Some(0), Some(2), Some(4), Some(0), Some(2), Some(4)]);
    expected_set.push(tuple);
    let tuple = build_integers(vec![Some(1), Some(2), Some(5), Some(0), Some(2), Some(4)]);
    expected_set.push(tuple);
    let tuple = build_integers(vec![Some(1), Some(3), Some(5), Some(1), Some(3), Some(5)]);
    expected_set.push(tuple);

    valid_result(&mut expected_set, &tuples);
    Ok(())
}

#[test]
fn test_nested_cross_join_without_on() -> Result<(), DatabaseError> {
    let tuples = run(JoinType::Cross, false, false)?;

    assert_eq!(tuples.len(), 16);

    Ok(())
}

#[test]
fn test_nested_left_semi_join() -> Result<(), DatabaseError> {
    let tuples = run(JoinType::LeftSemi, true, true)?;

    let mut expected_set = Vec::with_capacity(1);
    expected_set.push(build_integers(vec![Some(1), Some(2), Some(5)]));

    valid_result(&mut expected_set, &tuples);

    Ok(())
}

#[test]
fn test_nested_left_anti_join() -> Result<(), DatabaseError> {
    let tuples = run(JoinType::LeftAnti, true, true)?;

    let mut expected_set = Vec::with_capacity(3);
    expected_set.push(build_integers(vec![Some(0), Some(2), Some(4)]));
    expected_set.push(build_integers(vec![Some(1), Some(3), Some(5)]));
    expected_set.push(build_integers(vec![Some(3), Some(5), Some(7)]));

    valid_result(&mut expected_set, &tuples);

    Ok(())
}

#[test]
fn test_nested_right_out_join() -> Result<(), DatabaseError> {
    let tuples = run(JoinType::RightOuter, true, true)?;

    let mut expected_set = Vec::with_capacity(4);
    let tuple = build_integers(vec![Some(1), Some(2), Some(5), Some(0), Some(2), Some(4)]);
    expected_set.push(tuple);
    let tuple = build_integers(vec![None, None, None, Some(1), Some(3), Some(5)]);
    expected_set.push(tuple);
    let tuple = build_integers(vec![None, None, None, Some(1), Some(1), Some(1)]);
    expected_set.push(tuple);
    let tuple = build_integers(vec![None, None, None, Some(4), Some(6), Some(8)]);
    expected_set.push(tuple);

    valid_result(&mut expected_set, &tuples);

    Ok(())
}

#[test]
fn test_nested_full_join() -> Result<(), DatabaseError> {
    let tuples = run(JoinType::Full, true, true)?;

    assert_eq!(
        tuples[0].values,
        build_integers(vec![Some(0), Some(2), Some(4), None, None, None])
    );

    let mut expected_set = Vec::with_capacity(7);
    let tuple = build_integers(vec![Some(0), Some(2), Some(4), None, None, None]);
    expected_set.push(tuple);
    let tuple = build_integers(vec![Some(1), Some(2), Some(5), Some(0), Some(2), Some(4)]);
    expected_set.push(tuple);

    let tuple = build_integers(vec![Some(1), Some(3), Some(5), None, None, None]);
    expected_set.push(tuple);
    let tuple = build_integers(vec![Some(3), Some(5), Some(7), None, None, None]);
    expected_set.push(tuple);
    let tuple = build_integers(vec![None, None, None, Some(1), Some(3), Some(5)]);
    expected_set.push(tuple);
    let tuple = build_integers(vec![None, None, None, Some(4), Some(6), Some(8)]);
    expected_set.push(tuple);
    let tuple = build_integers(vec![None, None, None, Some(1), Some(1), Some(1)]);
    expected_set.push(tuple);

    valid_result(&mut expected_set, &tuples);

    Ok(())
}

#[test]
fn rows_come_out_outer_by_outer_row() {
    let tuples = run(JoinType::Full, true, true).unwrap();
    let got: Vec<Vec<DataValue>> = tuples.into_iter().map(|t| t.values).collect();
    assert_eq!(
        got,
        vec![
            build_integers(vec![Some(0), Some(2), Some(4), None, None, None]),
            build_integers(vec![Some(1), Some(2), Some(5), Some(0), Some(2), Some(4)]),
            build_integers(vec![Some(1), Some(3), Some(5), None, None, None]),
            build_integers(vec![Some(3), Some(5), Some(7), None, None, None]),
            build_integers(vec![None, None, None, Some(1), Some(3), Some(5)]),
            build_integers(vec![None, None, None, Some(4), Some(6), Some(8)]),
            build_integers(vec![None, None, None, Some(1), Some(1), Some(1)]),
        ]
    );
    let inner = run(JoinType::Inner, true, false).unwrap();
    assert_eq!(inner.len(), 3);
    let semi = run(JoinType::LeftSemi, true, false).unwrap();
    assert_eq!(semi.len(), 3);
    let anti = run(JoinType::LeftAnti, true, false).unwrap();
    assert_eq!(anti.len(), 1);
    assert_eq!(anti[0].values, build_integers(vec![Some(3), Some(5), Some(7)]));
}

#[test]
fn a_filter_that_is_no_boolean_ends_the_join() {
    let (keys, left, right, _) = build_join_values(true);
    let op = JoinOperator {
        on: JoinCondition::On {
            on: keys,
            filter: Some(ScalarExpression::Constant(DataValue::Int32(1))),
        },
        join_type: JoinType::Inner,
    };
    let produced = NestedLoopJoin::from(op, left.0, right.0).execute(left.1, right.1);
    assert!(produced.tuples.is_empty());
    assert!(matches!(produced.error, Some(DatabaseError::InvalidType)));
}

#[test]
fn emitted_rows_follow_the_kind_of_join() {
    let l = Tuple::new(Some(DataValue::Int32(7)), build_integers(vec![Some(1), Some(2)]));
    let r = Tuple::new(Some(DataValue::Int32(8)), build_integers(vec![Some(3)]));
    let both = build_integers(vec![Some(1), Some(2), Some(3)]);
    let emit = |ty, matched| NestedLoopJoin::emit_tuple(&l, &r, ty, matched).map(|t| t.values);
    assert_eq!(emit(JoinType::Inner, true), Some(both.clone()));
    assert_eq!(emit(JoinType::Inner, false), None);
    assert_eq!(emit(JoinType::Cross, false), None);
    assert_eq!(emit(JoinType::LeftSemi, false), None);
    assert_eq!(emit(JoinType::LeftSemi, true), Some(build_integers(vec![Some(1), Some(2)])));
    assert_eq!(emit(JoinType::LeftAnti, true), None);
    assert_eq!(emit(JoinType::LeftAnti, false), Some(build_integers(vec![Some(1), Some(2)])));
    assert_eq!(
        emit(JoinType::LeftOuter, false),
        Some(build_integers(vec![Some(1), Some(2), None]))
    );
    assert_eq!(emit(JoinType::Full, false), Some(build_integers(vec![Some(1), Some(2), None])));
    assert_eq!(emit(JoinType::Full, true), Some(both.clone()));
    assert_eq!(
        emit(JoinType::RightOuter, false),
        Some(build_integers(vec![None, None, Some(3)]))
    );
    assert_eq!(
        NestedLoopJoin::emit_tuple(&l, &r, JoinType::Inner, true).unwrap().pk,
        Some(DataValue::Int32(7))
    );
    let no_pk = Tuple::new(None, build_integers(vec![Some(1)]));
    assert_eq!(
        NestedLoopJoin::emit_tuple(&no_pk, &r, JoinType::Inner, true).unwrap().pk,
        Some(DataValue::Int32(8))
    );
    assert_eq!(
        NestedLoopJoin::merge_tuple(&l, &r, &JoinType::RightOuter).values,
        build_integers(vec![Some(3), Some(1), Some(2)])
    );
    assert!(JoinType::RightOuter.is_right());
    assert!(!JoinType::Full.is_right());
}

#[test]
fn join_schema_marks_the_sides_that_can_be_null() {
    let desc = || ColumnDesc::new(LogicalType::Integer, None, false, None).unwrap();
    let column = |name: &str, nullable: bool| {
        ColumnRef::from(ColumnCatalog::new(name.to_string(), nullable, desc()))
    };
    let left = vec![column("c1", false), column("c2", true), column("c3", false)];
    let right = vec![column("c4", false), column("c5", false), column("c6", true)];
    let nullable = |ty| -> Vec<bool> {
        NestedLoopJoin::merge_schema(&left, &right, ty)
            .iter()
            .map(|c| c.nullable())
            .collect()
    };
    let as_given = vec![false, true, false, false, false, true];
    assert_eq!(nullable(JoinType::Inner), as_given);
    assert_eq!(nullable(JoinType::Cross), as_given);
    assert_eq!(nullable(JoinType::LeftSemi), as_given);
    assert_eq!(nullable(JoinType::LeftAnti), as_given);
    assert_eq!(
        nullable(JoinType::LeftOuter),
        vec![false, true, false, true, true, true]
    );
    assert_eq!(
        nullable(JoinType::RightOuter),
        vec![true, true, true, false, false, true]
    );
    assert_eq!(nullable(JoinType::Full), vec![true; 6]);
    let names: Vec<String> = NestedLoopJoin::merge_schema(&left, &right, JoinType::Inner)
        .iter()
        .map(|c| c.name().to_string())
        .collect();
    assert_eq!(names, vec!["c1", "c2", "c3", "c4", "c5", "c6"]);
}

#[test]
fn projection_evaluates_each_expression() {
    let (_, left, _, filter) = build_join_values(true);
    let tuple = Tuple::new(None, build_integers(vec![Some(5), None, Some(7)]));
    let exprs = vec![
        ScalarExpression::ColumnRef(left.0[2].clone()),
        ScalarExpression::Constant(DataValue::Boolean(true)),
        ScalarExpression::IsNull {
            negated: false,
            expr: Box::new(ScalarExpression::ColumnRef(left.0[1].clone())),
        },
        filter,
        ScalarExpression::TypeCast {
            expr: Box::new(ScalarExpression::ColumnRef(left.0[0].clone())),
            ty: LogicalType::Bigint,
        },
    ];
    assert_eq!(
        Projection::projection(&tuple, &exprs, &left.0).unwrap(),
        vec![
            DataValue::Int32(7),
            DataValue::Boolean(true),
            DataValue::Boolean(true),
            DataValue::Null,
            DataValue::Int64(5),
        ]
    );
    let bad = vec![ScalarExpression::Binary {
        op: BinaryOperator::And,
        left_expr: Box::new(ScalarExpression::Constant(DataValue::Int32(1))),
        right_expr: Box::new(ScalarExpression::Constant(DataValue::Boolean(true))),
        ty: LogicalType::Boolean,
    }];
    assert!(matches!(
        Projection::projection(&tuple, &bad, &left.0),
        Err(DatabaseError::InvalidType)
    ));
}

fn run_inputs(
    join_type: JoinType,
    left_error: bool,
    right_error: bool,
) -> (Vec<Tuple>, Option<DatabaseError>) {
    let (keys, left, right, filter) = build_join_values(true);
    let op = JoinOperator {
        on: JoinCondition::On {
            on: keys,
            filter: Some(filter),
        },
        join_type,
    };
    let produced = NestedLoopJoin::from(op, left.0, right.0).execute_inputs(
        Produced {
            tuples: left.1,
            error: if left_error {
                Some(DatabaseError::InvalidColumn("left".to_string()))
            } else {
                None
            },
        },
        Produced {
            tuples: right.1,
            error: if right_error {
                Some(DatabaseError::InvalidColumn("right".to_string()))
            } else {
                None
            },
        },
    );
    (produced.tuples, produced.error)
}

#[test]
fn an_error_of_the_outer_input_comes_behind_the_rows_before_it() {
    let (rows, error) = run_inputs(JoinType::LeftOuter, true, false);
    let (all, _) = run_inputs(JoinType::LeftOuter, false, false);
    assert_eq!(rows.len(), 4);
    assert_eq!(rows, all);
    assert!(matches!(error, Some(DatabaseError::InvalidColumn(name)) if name == "left"));
    let (rows, error) = run_inputs(JoinType::Full, true, false);
    assert_eq!(rows.len(), 4);
    assert!(matches!(error, Some(DatabaseError::InvalidColumn(name)) if name == "left"));
}

#[test]
fn an_error_of_the_inner_input_ends_the_first_pass_over_it() {
    let (rows, error) = run_inputs(JoinType::Inner, false, true);
    assert!(rows.is_empty());
    assert!(matches!(error, Some(DatabaseError::InvalidColumn(name)) if name == "right"));
    let (rows, error) = run_inputs(JoinType::RightOuter, true, false);
    assert!(rows.len() <= 1);
    assert!(matches!(error, Some(DatabaseError::InvalidColumn(name)) if name == "left"));
    let (rows, error) = run_inputs(JoinType::Inner, false, false);
    assert_eq!(rows.len(), 1);
    assert!(error.is_none());
}
