use kite_core::catalog::{ColumnCatalog, ColumnDesc, ColumnRef};
use kite_core::create_index::{CreateIndex, MetaDecision};
use kite_core::errors::DatabaseError;
use kite_core::expression::{BinaryOperator, ScalarExpression};
use kite_core::index::{IndexMeta, IndexType};
use kite_core::planner::{
    Childrens, CreateIndexOperator, DeleteImplementation, DeleteOperator, FilterOperator,
    HashJoinImplementation, JoinCondition, JoinOperator, JoinType, LogicalPlan, Operator,
    PhysicalOption, ProjectOperator, ProjectionImplementation, TableCatalog, TableScanOperator,
};
use kite_core::pushdown::{
    is_subset_cols, reduce_filters, split_conjunctive_predicates, PushPredicateIntoScan,
    PushPredicateThroughJoin,
};
use kite_core::range::{Bound, Range};
use kite_core::tuple::Tuple;
use kite_core::types::LogicalType;
use kite_core::value::DataValue;

fn table(name: &str, first: &str, second: &str) -> TableCatalog {
    let mut table = TableCatalog::new(
        name.to_string(),
        vec![
            ColumnCatalog::new(
                first.to_string(),
                false,
                ColumnDesc::new(LogicalType::Integer, Some(0), false, None).unwrap(),
            ),
            ColumnCatalog::new(
                second.to_string(),
                true,
                ColumnDesc::new(LogicalType::Integer, None, false, None).unwrap(),
            ),
        ],
    )
    .unwrap();
    let pk = table.columns()[0].id().unwrap();
    table.add_index(IndexMeta {
        id: 0,
        column_ids: vec![pk],
        table_name: name.to_string(),
        pk_ty: LogicalType::Integer,
        value_ty: LogicalType::Integer,
        name: "pk_index".to_string(),
        ty: IndexType::PrimaryKey { is_multiple: false },
    });
    table
}

fn col(table: &TableCatalog, name: &str) -> ScalarExpression {
    ScalarExpression::ColumnRef(
        table
            .columns()
            .iter()
            .find(|c| c.name() == name)
            .unwrap()
            .clone(),
    )
}

fn bin(op: BinaryOperator, l: ScalarExpression, r: ScalarExpression) -> ScalarExpression {
    ScalarExpression::Binary {
        op,
        left_expr: Box::new(l),
        right_expr: Box::new(r),
        ty: LogicalType::Boolean,
    }
}

fn lit(v: i32) -> ScalarExpression {
    ScalarExpression::Constant(DataValue::Int32(v))
}

/// select * from t1 <join> t2 on c1 = c3 where c1 > 1 and c3 < 2
fn plan_of(join_type: JoinType) -> LogicalPlan {
    let t1 = table("t1", "c1", "c2");
    let t2 = table("t2", "c3", "c4");
    let join = JoinOperator::build(
        TableScanOperator::build("t1".to_string(), &t1, false),
        TableScanOperator::build("t2".to_string(), &t2, false),
        JoinCondition::On {
            on: vec![(col(&t1, "c1"), col(&t2, "c3"))],
            filter: None,
        },
        join_type,
    );
    let filter = LogicalPlan::new(
        Operator::Filter(FilterOperator {
            predicate: bin(
                BinaryOperator::And,
                bin(BinaryOperator::Gt, col(&t1, "c1"), lit(1)),
                bin(BinaryOperator::Lt, col(&t2, "c3"), lit(2)),
            ),
            is_optimized: false,
            having: false,
        }),
        Childrens::Only(join),
    );
    let optimized = PushPredicateThroughJoin::apply(filter);
    LogicalPlan::new(
        Operator::Project(ProjectOperator {
            exprs: vec![col(&t1, "c1"), col(&t1, "c2"), col(&t2, "c3"), col(&t2, "c4")],
        }),
        Childrens::Only(optimized),
    )
}

#[test]
fn test_push_predicate_into_scan() -> Result<(), DatabaseError> {
    let t1 = table("t1", "c1", "c2");
    // 1 - c1 < 0 => c1 > 1
    let filter = FilterOperator {
        predicate: bin(BinaryOperator::Gt, col(&t1, "c1"), lit(1)),
        is_optimized: false,
        having: false,
    };
    let scan_plan = TableScanOperator::build("t1".to_string(), &t1, false);
    let mut scan_op = scan_plan.operator;
    if let Operator::TableScan(op) = &mut scan_op {
        PushPredicateIntoScan::apply(&filter, op)?;
    }
    if let Operator::TableScan(op) = &scan_op {
        let mock_range = Range::Scope {
            min: Bound::Excluded(DataValue::Int32(1)),
            max: Bound::Unbounded,
        };

        assert_eq!(op.index_infos[0].range, Some(mock_range));
    } else {
        unreachable!("Should be a filter operator")
    }

    Ok(())
}

#[test]
fn test_push_predicate_through_join_in_left_join() -> Result<(), DatabaseError> {
    let best_plan = plan_of(JoinType::LeftOuter);

    let filter_op = best_plan.childrens.pop_only();
    if let Operator::Filter(op) = &filter_op.operator {
        match op.predicate {
            ScalarExpression::Binary {
                op: BinaryOperator::Lt,
                ty: LogicalType::Boolean,
                ..
            } => (),
            _ => unreachable!(),
        }
    } else {
        unreachable!("Should be a filter operator")
    }

    let filter_op = filter_op.childrens.pop_only().childrens.pop_twins().0;
    if let Operator::Filter(op) = &filter_op.operator {
        match op.predicate {
            ScalarExpression::Binary {
                op: BinaryOperator::Gt,
                ty: LogicalType::Boolean,
                ..
            } => (),
            _ => unreachable!(),
        }
    } else {
        unreachable!("Should be a filter operator")
    }

    Ok(())
}

#[test]
fn test_push_predicate_through_join_in_right_join() -> Result<(), DatabaseError> {
    let best_plan = plan_of(JoinType::RightOuter);

    let filter_op = best_plan.childrens.pop_only();
    if let Operator::Filter(op) = &filter_op.operator {
        match op.predicate {
            ScalarExpression::Binary {
                op: BinaryOperator::Gt,
                ty: LogicalType::Boolean,
                ..
            } => (),
            _ => unreachable!(),
        }
    } else {
        unreachable!("Should be a filter operator")
    }

    let filter_op = filter_op.childrens.pop_only().childrens.pop_twins().1;
    if let Operator::Filter(op) = &filter_op.operator {
        match op.predicate {
            ScalarExpression::Binary {
                op: BinaryOperator::Lt,
                ty: LogicalType::Boolean,
                ..
            } => (),
            _ => unreachable!(),
        }
    } else {
        unreachable!("Should be a filter operator")
    }

    Ok(())
}

#[test]
fn test_push_predicate_through_join_in_inner_join() -> Result<(), DatabaseError> {
    let best_plan = plan_of(JoinType::Inner);

    let join_op = best_plan.childrens.pop_only();
    if let Operator::Join(_) = &join_op.operator {
    } else {
        unreachable!("Should be a filter operator")
    }

    let (left_filter_op, right_filter_op) = join_op.childrens.pop_twins();
    if let Operator::Filter(op) = &left_filter_op.operator {
        match op.predicate {
            ScalarExpression::Binary {
                op: BinaryOperator::Gt,
                ty: LogicalType::Boolean,
                ..
            } => (),
            _ => unreachable!(),
        }
    } else {
        unreachable!("Should be a filter operator")
    }

    if let Operator::Filter(op) = &right_filter_op.operator {
        match op.predicate {
            ScalarExpression::Binary {
                op: BinaryOperator::Lt,
                ty: LogicalType::Boolean,
                ..
            } => (),
            _ => unreachable!(),
        }
    } else {
        unreachable!("Should be a filter operator")
    }

    Ok(())
}

#[test]
fn nothing_is_pushed_through_full_and_cross_joins() {
    for ty in [JoinType::Full, JoinType::Cross] {
        let plan = plan_of(ty);
        let top = plan.childrens.pop_only();
        assert!(matches!(top.operator, Operator::Filter(_)));
        let join = top.childrens.pop_only();
        assert!(matches!(join.operator, Operator::Join(_)));
        let (l, r) = join.childrens.pop_twins();
        assert!(matches!(l.operator, Operator::TableScan(_)));
        assert!(matches!(r.operator, Operator::TableScan(_)));
    }
    let t1 = table("t1", "c1", "c2");
    let scan = TableScanOperator::build("t1".to_string(), &t1, true);
    let same = PushPredicateThroughJoin::apply(scan);
    assert!(matches!(same.operator, Operator::TableScan(_)));
    assert!(matches!(*same.childrens, Childrens::Leaf));
}

#[test]
fn predicates_are_split_and_joined_again() {
    let t1 = table("t1", "c1", "c2");
    let a = bin(BinaryOperator::Gt, col(&t1, "c1"), lit(1));
    let b = bin(BinaryOperator::Lt, col(&t1, "c2"), lit(2));
    let c = bin(BinaryOperator::Or, a.clone(), b.clone());
    let all = bin(
        BinaryOperator::And,
        bin(BinaryOperator::And, a.clone(), c.clone()),
        b.clone(),
    );
    let parts = split_conjunctive_predicates(&all);
    assert_eq!(parts.len(), 3);
    assert!(matches!(parts[0], ScalarExpression::Binary { op: BinaryOperator::Gt, .. }));
    assert!(matches!(parts[1], ScalarExpression::Binary { op: BinaryOperator::Or, .. }));
    assert!(matches!(parts[2], ScalarExpression::Binary { op: BinaryOperator::Lt, .. }));
    assert!(reduce_filters(vec![], false).is_none());
    let one = reduce_filters(vec![a.clone()], true).unwrap();
    assert!(one.having && !one.is_optimized);
    assert!(matches!(one.predicate, ScalarExpression::Binary { op: BinaryOperator::Gt, .. }));
    let joined = reduce_filters(parts, false).unwrap();
    match joined.predicate {
        ScalarExpression::Binary { op: BinaryOperator::And, left_expr, right_expr, .. } => {
            assert!(matches!(*right_expr, ScalarExpression::Binary { op: BinaryOperator::Lt, .. }));
            assert!(matches!(*left_expr, ScalarExpression::Binary { op: BinaryOperator::And, .. }));
        }
        _ => unreachable!(),
    }
    let cols: Vec<ColumnRef> = t1.columns().clone();
    assert_eq!(all.referenced_columns().len(), 4);
    assert!(is_subset_cols(&all.referenced_columns(), &cols));
    assert!(is_subset_cols(&[], &cols));
    assert!(!is_subset_cols(&cols, &cols[..1]));
    assert!(is_subset_cols(&cols[..1], &cols));
}

#[test]
fn composite_indexes_get_tuple_ranges() {
    let t1 = table("t1", "c1", "c2");
    let ids: Vec<u128> = t1.columns().iter().map(|c| c.id().unwrap()).collect();
    let meta = IndexMeta {
        id: 1,
        column_ids: ids.clone(),
        table_name: "t1".to_string(),
        pk_ty: LogicalType::Integer,
        value_ty: LogicalType::Tuple(vec![LogicalType::Integer, LogicalType::Integer]),
        name: "c1_c2".to_string(),
        ty: IndexType::Composite,
    };
    let filter = |predicate| FilterOperator {
        predicate,
        is_optimized: false,
        having: false,
    };
    let c1_eq = bin(BinaryOperator::Eq, col(&t1, "c1"), lit(7));
    let c2_gt = bin(BinaryOperator::Gt, col(&t1, "c2"), lit(2));
    let both = filter(bin(BinaryOperator::And, c1_eq.clone(), c2_gt.clone()));
    let tuple = |vs: &[i32], up| {
        DataValue::Tuple(vs.iter().map(|v| DataValue::Int32(*v)).collect(), up)
    };
    assert_eq!(
        PushPredicateIntoScan::composite_range(&both, &meta).unwrap(),
        Some(Range::Scope {
            min: Bound::Excluded(tuple(&[7, 2], false)),
            max: Bound::Excluded(tuple(&[7], true)),
        })
    );
    assert_eq!(
        PushPredicateIntoScan::composite_range(&filter(c1_eq.clone()), &meta).unwrap(),
        Some(Range::Scope {
            min: Bound::Excluded(tuple(&[7], false)),
            max: Bound::Excluded(tuple(&[7], true)),
        })
    );
    let c2_eq = bin(BinaryOperator::Eq, col(&t1, "c2"), lit(3));
    let points = filter(bin(BinaryOperator::And, c1_eq, c2_eq));
    assert_eq!(
        PushPredicateIntoScan::composite_range(&points, &meta).unwrap(),
        Some(Range::Eq(tuple(&[7, 3], false)))
    );
    assert_eq!(
        PushPredicateIntoScan::composite_range(&filter(c2_gt.clone()), &meta).unwrap(),
        None
    );
    assert_eq!(
        PushPredicateIntoScan::index_range(&filter(c2_gt), &meta).unwrap(),
        None
    );
    let mut scan = match TableScanOperator::build("t1".to_string(), &t1, false).operator {
        Operator::TableScan(op) => op,
        _ => unreachable!(),
    };
    scan.index_infos[0].range = Some(Range::Dummy);
    PushPredicateIntoScan::apply(&both, &mut scan).unwrap();
    assert_eq!(scan.index_infos[0].range, Some(Range::Dummy));
}

#[test]
fn scans_and_rules() {
    let t1 = table("t1", "c1", "c2");
    let plan = TableScanOperator::build("t1".to_string(), &t1, true);
    match &plan.operator {
        Operator::TableScan(op) => {
            assert_eq!(op.table_name, "t1");
            assert_eq!(op.primary_keys, vec![0]);
            assert_eq!(op.columns.len(), 2);
            assert_eq!(op.columns.keys().copied().collect::<Vec<usize>>(), vec![0, 1]);
            assert_eq!(op.columns[&1].name(), "c2");
            assert_eq!(op.limit, (None, None));
            assert!(op.with_pk);
            assert_eq!(op.index_infos.len(), 1);
            assert!(op.index_infos[0].range.is_none());
            assert_eq!(op.index_infos[0].meta.name, "pk_index");
        }
        _ => unreachable!(),
    }
    assert!(plan.physical_option.is_none());
    assert_eq!(
        HashJoinImplementation.to_expression(&plan.operator),
        None
    );
    let join = JoinOperator::build(
        TableScanOperator::build("t1".to_string(), &t1, false),
        TableScanOperator::build("t1".to_string(), &t1, false),
        JoinCondition::NoCondition,
        JoinType::Cross,
    );
    assert!(matches!(*join.childrens, Childrens::Twins { .. }));
    assert_eq!(
        HashJoinImplementation.to_expression(&join.operator),
        Some(PhysicalOption::HashJoin)
    );
    assert_eq!(
        ProjectionImplementation.to_expression(&Operator::Project(ProjectOperator { exprs: vec![] })),
        Some(PhysicalOption::Project)
    );
    assert_eq!(
        DeleteImplementation.to_expression(&Operator::Delete(DeleteOperator {
            table_name: "t1".to_string()
        })),
        Some(PhysicalOption::Delete)
    );
    assert_eq!(DeleteImplementation.to_expression(&join.operator), None);
}

#[test]
fn index_entries_are_decided_row_by_row() {
    let t1 = table("t1", "c1", "c2");
    let loose = ColumnCatalog::new(
        "x".to_string(),
        true,
        ColumnDesc::new(LogicalType::Integer, None, false, None).unwrap(),
    );
    let op = |if_not_exists| CreateIndexOperator {
        table_name: "t1".to_string(),
        columns: vec![t1.columns()[1].clone(), loose.clone(), t1.columns()[0].clone()],
        index_name: "i".to_string(),
        if_not_exists,
        ty: IndexType::Composite,
    };
    let executor = CreateIndex::from(op(true));
    let (ids, exprs) = executor.prepare();
    assert_eq!(ids, vec![1, 0]);
    assert_eq!(exprs.len(), 2);
    assert!(matches!(executor.on_index_meta(Ok(4)), MetaDecision::Proceed(4)));
    assert!(matches!(
        executor.on_index_meta(Err(DatabaseError::DuplicateIndex("i".to_string()))),
        MetaDecision::Finish
    ));
    assert!(matches!(
        executor.on_index_meta(Err(DatabaseError::Io)),
        MetaDecision::Fail(DatabaseError::Io)
    ));
    assert!(matches!(
        CreateIndex::from(op(false))
            .on_index_meta(Err(DatabaseError::DuplicateIndex("i".to_string()))),
        MetaDecision::Fail(DatabaseError::DuplicateIndex(_))
    ));
    let schema: Vec<ColumnRef> = t1.columns().clone();
    let row = Tuple::new(
        Some(DataValue::Int32(5)),
        vec![DataValue::Int32(5), DataValue::Int32(6)],
    );
    assert_eq!(
        CreateIndex::entry(&row, &exprs, &schema).unwrap(),
        Some((
            DataValue::Tuple(vec![DataValue::Int32(6), DataValue::Int32(5)], false),
            DataValue::Int32(5)
        ))
    );
    assert_eq!(
        CreateIndex::entry(&row, &exprs[..1], &schema).unwrap(),
        Some((DataValue::Int32(6), DataValue::Int32(5)))
    );
    assert_eq!(CreateIndex::entry(&row, &[], &schema).unwrap(), None);
    let keyless = Tuple::new(None, vec![DataValue::Int32(5), DataValue::Int32(6)]);
    assert_eq!(CreateIndex::entry(&keyless, &exprs, &schema).unwrap(), None);
    assert_eq!(
        CreateIndex::summary(),
        Tuple::new(None, vec![DataValue::text("1".to_string())])
    );
}
