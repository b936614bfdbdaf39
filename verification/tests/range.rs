use kite_core::catalog::{ColumnCatalog, ColumnDesc, ColumnRef};
use kite_core::decimal::ValueOrder;
use kite_core::detacher::RangeDetacher;
use kite_core::errors::DatabaseError;
use kite_core::expression::{BinaryOperator, ScalarExpression, UnaryOperator};
use kite_core::planner::TableCatalog;
use kite_core::range::{Bound, Range};
use kite_core::types::{CharLengthUnits, LogicalType};
use kite_core::value::DataValue;

struct T1 {
    columns: Vec<ColumnRef>,
}

fn build_t1_table() -> T1 {
    let table = TableCatalog::new(
        "t1".to_string(),
        vec![
            ColumnCatalog::new(
                "c1".to_string(),
                false,
                ColumnDesc::new(LogicalType::Integer, Some(0), false, None).unwrap(),
            ),
            ColumnCatalog::new(
                "c2".to_string(),
                true,
                ColumnDesc::new(LogicalType::Integer, None, false, None).unwrap(),
            ),
        ],
    )
    .unwrap();
    T1 {
        columns: table.columns().clone(),
    }
}

impl T1 {
    fn col(&self, name: &str) -> ScalarExpression {
        ScalarExpression::ColumnRef(
            self.columns
                .iter()
                .find(|c| c.name() == name)
                .unwrap()
                .clone(),
        )
    }

    fn column_id_by_name(&self, name: &str) -> u128 {
        self.columns
            .iter()
            .find(|c| c.name() == name)
            .unwrap()
            .id()
            .unwrap()
    }

    fn c1(&self, op: BinaryOperator, v: i32) -> ScalarExpression {
        bin(op, self.col("c1"), lit(v))
    }

    fn c2(&self, op: BinaryOperator, v: i32) -> ScalarExpression {
        bin(op, self.col("c2"), lit(v))
    }

    fn c1_is_null(&self) -> ScalarExpression {
        ScalarExpression::IsNull {
            negated: false,
            expr: Box::new(self.col("c1")),
        }
    }

    fn c1_is(&self, v: DataValue) -> ScalarExpression {
        bin(BinaryOperator::Eq, self.col("c1"), ScalarExpression::Constant(v))
    }

    fn detach(&self, predicate: &ScalarExpression) -> Result<Option<Range>, DatabaseError> {
        let id = self.column_id_by_name("c1");
        RangeDetacher::new("t1", &id).detach(predicate)
    }
}

fn lit(v: i32) -> ScalarExpression {
    ScalarExpression::Constant(DataValue::Int32(v))
}

fn bin(op: BinaryOperator, l: ScalarExpression, r: ScalarExpression) -> ScalarExpression {
    ScalarExpression::Binary {
        op,
        left_expr: Box::new(l),
        right_expr: Box::new(r),
        ty: LogicalType::Boolean,
    }
}

fn and(l: ScalarExpression, r: ScalarExpression) -> ScalarExpression {
    bin(BinaryOperator::And, l, r)
}

fn or(l: ScalarExpression, r: ScalarExpression) -> ScalarExpression {
    bin(BinaryOperator::Or, l, r)
}

fn open(lo: i32, hi: i32) -> Range {
    Range::Scope {
        min: Bound::Excluded(DataValue::Int32(lo)),
        max: Bound::Excluded(DataValue::Int32(hi)),
    }
}

const EQ: BinaryOperator = BinaryOperator::Eq;
const GT: BinaryOperator = BinaryOperator::Gt;
const GT_EQ: BinaryOperator = BinaryOperator::GtEq;
const LT: BinaryOperator = BinaryOperator::Lt;
const LT_EQ: BinaryOperator = BinaryOperator::LtEq;
const NOT_EQ: BinaryOperator = BinaryOperator::NotEq;

#[test]
fn test_detach_ideal_cases() -> Result<(), DatabaseError> {
    let t = build_t1_table();
    {
        let range = t.detach(&t.c1(EQ, 1))?.unwrap();
        println!("c1 = 1 => {:?}", range);
        assert_eq!(range, Range::Eq(DataValue::Int32(1)))
    }
    {
        let predicate = t.c1_is(DataValue::Float64(1.0_f64.to_bits()));
        let range = t.detach(&predicate)?.unwrap();
        println!("c1 = 1.0 => {:?}", range);
        assert_eq!(range, Range::Eq(DataValue::Int32(1)))
    }
    {
        let range = t.detach(&t.c1(NOT_EQ, 1))?;
        println!("c1 != 1 => {:#?}", range);
        assert_eq!(range, None)
    }
    {
        let range = t.detach(&t.c1(GT, 1))?.unwrap();
        println!("c1 > 1 => c1: {:?}", range);
        assert_eq!(
            range,
            Range::Scope {
                min: Bound::Excluded(DataValue::Int32(1)),
                max: Bound::Unbounded,
            }
        )
    }
    {
        let range = t.detach(&t.c1(GT_EQ, 1))?.unwrap();
        println!("c1 >= 1 => c1: {:?}", range);
        assert_eq!(
            range,
            Range::Scope {
                min: Bound::Included(DataValue::Int32(1)),
                max: Bound::Unbounded,
            }
        )
    }
    {
        let range = t.detach(&t.c1(LT, 1))?.unwrap();
        println!("c1 < 1 => c1: {:?}", range);
        assert_eq!(
            range,
            Range::Scope {
                min: Bound::Unbounded,
                max: Bound::Excluded(DataValue::Int32(1)),
            }
        )
    }
    {
        let range = t.detach(&t.c1(LT_EQ, 1))?.unwrap();
        println!("c1 <= 1 => c1: {:?}", range);
        assert_eq!(
            range,
            Range::Scope {
                min: Bound::Unbounded,
                max: Bound::Included(DataValue::Int32(1)),
            }
        )
    }
    {
        let range = t.detach(&and(t.c1(LT, 1), t.c1(GT_EQ, 0)))?.unwrap();
        println!("c1 < 1 and c1 >= 0 => c1: {:?}", range);
        assert_eq!(
            range,
            Range::Scope {
                min: Bound::Included(DataValue::Int32(0)),
                max: Bound::Excluded(DataValue::Int32(1)),
            }
        )
    }
    {
        let range = t.detach(&or(t.c1(LT, 1), t.c1(GT_EQ, 0)))?.unwrap();
        println!("c1 < 1 or c1 >= 0 => c1: {:?}", range);
        assert_eq!(
            range,
            Range::Scope {
                min: Bound::Unbounded,
                max: Bound::Unbounded,
            }
        )
    }
    // and & or
    {
        let range = t.detach(&and(t.c1(EQ, 1), t.c1(EQ, 0)))?.unwrap();
        println!("c1 = 1 and c1 = 0 => c1: {:?}", range);
        assert_eq!(range, Range::Dummy)
    }
    {
        let range = t.detach(&or(t.c1(EQ, 1), t.c1(EQ, 0)))?.unwrap();
        println!("c1 = 1 or c1 = 0 => c1: {:?}", range);
        assert_eq!(
            range,
            Range::SortedRanges(vec![
                Range::Eq(DataValue::Int32(0)),
                Range::Eq(DataValue::Int32(1)),
            ])
        )
    }
    {
        let range = t.detach(&and(t.c1(EQ, 1), t.c1(EQ, 1)))?.unwrap();
        println!("c1 = 1 and c1 = 1 => c1: {:?}", range);
        assert_eq!(range, Range::Eq(DataValue::Int32(1)))
    }
    {
        let range = t.detach(&or(t.c1(EQ, 1), t.c1(EQ, 1)))?.unwrap();
        println!("c1 = 1 or c1 = 1 => c1: {:?}", range);
        assert_eq!(range, Range::Eq(DataValue::Int32(1)))
    }

    {
        let range = t.detach(&and(t.c1(GT, 1), t.c1(EQ, 1)))?.unwrap();
        println!("c1 > 1 and c1 = 1 => c1: {:?}", range);
        assert_eq!(range, Range::Dummy)
    }
    {
        let range = t.detach(&and(t.c1(GT_EQ, 1), t.c1(EQ, 1)))?.unwrap();
        println!("c1 >= 1 and c1 = 1 => c1: {:?}", range);
        assert_eq!(range, Range::Eq(DataValue::Int32(1)))
    }
    {
        let range = t.detach(&or(t.c1(GT, 1), t.c1(EQ, 1)))?.unwrap();
        println!("c1 > 1 or c1 = 1 => c1: {:?}", range);
        assert_eq!(
            range,
            Range::Scope {
                min: Bound::Included(DataValue::Int32(1)),
                max: Bound::Unbounded,
            }
        )
    }
    {
        let range = t.detach(&or(t.c1(GT_EQ, 1), t.c1(EQ, 1)))?.unwrap();
        println!("c1 >= 1 or c1 = 1 => c1: {:?}", range);
        assert_eq!(
            range,
            Range::Scope {
                min: Bound::Included(DataValue::Int32(1)),
                max: Bound::Unbounded,
            }
        )
    }
    // scope
    let s03 = || and(t.c1(GT, 0), t.c1(LT, 3));
    let s14 = || and(t.c1(GT, 1), t.c1(LT, 4));
    {
        let range = t.detach(&and(s03(), s14()))?.unwrap();
        println!("(c1 > 0 and c1 < 3) and (c1 > 1 and c1 < 4) => c1: {:?}", range);
        assert_eq!(range, open(1, 3))
    }
    {
        let range = t.detach(&or(s03(), s14()))?.unwrap();
        println!("(c1 > 0 and c1 < 3) or (c1 > 1 and c1 < 4) => c1: {:?}", range);
        assert_eq!(range, open(0, 4))
    }

    {
        let range = t.detach(&and(and(s03(), s14()), t.c1(EQ, 0)))?.unwrap();
        assert_eq!(range, Range::Dummy)
    }
    {
        let range = t.detach(&and(or(s03(), s14()), t.c1(EQ, 0)))?.unwrap();
        assert_eq!(range, Range::Dummy)
    }
    {
        let range = t.detach(&or(and(s03(), s14()), t.c1(EQ, 0)))?.unwrap();
        assert_eq!(
            range,
            Range::SortedRanges(vec![Range::Eq(DataValue::Int32(0)), open(1, 3)])
        )
    }
    {
        let range = t.detach(&or(or(s03(), s14()), t.c1(EQ, 0)))?.unwrap();
        assert_eq!(
            range,
            Range::Scope {
                min: Bound::Included(DataValue::Int32(0)),
                max: Bound::Excluded(DataValue::Int32(4)),
            }
        )
    }

    let c02 = || and(t.c1(GT_EQ, 0), t.c1(LT_EQ, 2));
    {
        let range = t
            .detach(&and(and(and(s03(), s14()), t.c1(EQ, 0)), c02()))?
            .unwrap();
        assert_eq!(range, Range::Dummy)
    }
    {
        let range = t
            .detach(&or(and(and(s03(), s14()), t.c1(EQ, 0)), c02()))?
            .unwrap();
        assert_eq!(
            range,
            Range::Scope {
                min: Bound::Included(DataValue::Int32(0)),
                max: Bound::Included(DataValue::Int32(2)),
            }
        )
    }
    // ranges and ranges
    let left = || {
        or(
            and(t.c1(LT, 2), t.c1(GT, 0)),
            and(t.c1(LT, 6), t.c1(GT, 4)),
        )
    };
    let right = || {
        or(
            and(t.c1(LT, 3), t.c1(GT, 1)),
            and(t.c1(LT, 7), t.c1(GT, 5)),
        )
    };
    {
        let range = t.detach(&and(left(), right()))?.unwrap();
        assert_eq!(range, Range::SortedRanges(vec![open(1, 2), open(5, 6)]))
    }
    {
        let range = t.detach(&or(left(), right()))?.unwrap();
        assert_eq!(range, Range::SortedRanges(vec![open(0, 3), open(4, 7)]))
    }
    // empty
    {
        let range = t.detach(&ScalarExpression::Constant(DataValue::Boolean(true)))?;
        println!("empty => c1: {:#?}", range);
        assert_eq!(range, None)
    }
    // other column
    {
        let range = t.detach(&t.c2(EQ, 1))?;
        println!("c2 = 1 => c1: {:#?}", range);
        assert_eq!(range, None)
    }
    {
        let range = t.detach(&or(t.c1(GT, 1), t.c2(GT, 1)))?;
        println!("c1 > 1 or c2 > 1 => c1: {:#?}", range);
        assert_eq!(range, None)
    }
    {
        let range = t.detach(&or(bin(GT, t.col("c1"), t.col("c2")), t.c2(GT, 1)))?;
        println!("c1 > c2 or c2 > 1 => c1: {:#?}", range);
        assert_eq!(range, None)
    }
    // a union inside an intersection inside a union
    {
        let predicate = or(
            t.c1(EQ, 5),
            and(
                and(t.c1(GT, 5), or(t.c1(GT, 6), t.c1(LT, 8))),
                t.c1(LT, 12),
            ),
        );
        let range = t.detach(&predicate)?.unwrap();
        assert_eq!(
            range,
            Range::Scope {
                min: Bound::Included(DataValue::Int32(5)),
                max: Bound::Excluded(DataValue::Int32(12)),
            }
        )
    }
    // two columns in one filter
    {
        let predicate = and(
            or(
                and(t.c2(GT_EQ, -8), bin(GT_EQ, lit(-4), t.col("c1"))),
                and(t.c1(GT_EQ, 0), bin(GT, lit(5), t.col("c2"))),
            ),
            or(
                and(t.c2(GT, 0), t.c1(LT_EQ, 1)),
                and(t.c1(GT, -8), t.c2(LT, -6)),
            ),
        );
        let range = t.detach(&predicate)?.unwrap();
        assert_eq!(
            range,
            Range::SortedRanges(vec![
                Range::Scope {
                    min: Bound::Unbounded,
                    max: Bound::Included(DataValue::Int32(-4)),
                },
                Range::Scope {
                    min: Bound::Included(DataValue::Int32(0)),
                    max: Bound::Unbounded,
                }
            ])
        )
    }

    Ok(())
}

// Tips: `null` should be First
#[test]
fn test_detach_null_cases() -> Result<(), DatabaseError> {
    let t = build_t1_table();
    let is_null = || t.c1_is(DataValue::Null);
    let not_null = || {
        bin(
            NOT_EQ,
            t.col("c1"),
            ScalarExpression::Constant(DataValue::Null),
        )
    };
    let s15 = || and(t.c1(GT, 1), t.c1(LT, 5));
    // eq
    {
        let range = t.detach(&is_null())?.unwrap();
        assert_eq!(range, Range::Eq(DataValue::Null))
    }
    {
        let range = t.detach(&or(is_null(), t.c1(EQ, 1)))?.unwrap();
        assert_eq!(
            range,
            Range::SortedRanges(vec![
                Range::Eq(DataValue::Null),
                Range::Eq(DataValue::Int32(1))
            ])
        )
    }
    {
        let range = t.detach(&or(is_null(), t.c1(LT, 5)))?.unwrap();
        assert_eq!(
            range,
            Range::Scope {
                min: Bound::Unbounded,
                max: Bound::Excluded(DataValue::Int32(5)),
            }
        )
    }
    {
        let range = t.detach(&or(is_null(), s15()))?.unwrap();
        assert_eq!(
            range,
            Range::SortedRanges(vec![Range::Eq(DataValue::Null), open(1, 5)])
        )
    }
    {
        let range = t.detach(&and(is_null(), t.c1(LT, 5)))?.unwrap();
        assert_eq!(range, Range::Eq(DataValue::Null))
    }
    {
        let range = t.detach(&and(is_null(), s15()))?.unwrap();
        assert_eq!(range, Range::Dummy)
    }
    // noteq
    {
        let range = t.detach(&not_null())?;
        assert_eq!(range, None)
    }
    {
        let range = t.detach(&or(is_null(), t.c1(NOT_EQ, 1)))?;
        assert_eq!(range, None)
    }
    {
        let range = t.detach(&or(not_null(), t.c1(LT, 5)))?;
        assert_eq!(range, None)
    }
    {
        let range = t.detach(&or(not_null(), s15()))?;
        assert_eq!(range, None)
    }
    {
        let range = t.detach(&and(not_null(), t.c1(LT, 5)))?.unwrap();
        assert_eq!(
            range,
            Range::Scope {
                min: Bound::Unbounded,
                max: Bound::Excluded(DataValue::Int32(5)),
            }
        )
    }
    {
        let range = t.detach(&and(not_null(), s15()))?.unwrap();
        assert_eq!(range, open(1, 5))
    }
    let s02 = || and(t.c1(LT, 2), t.c1(GT, 0));
    let s46 = || and(t.c1(LT, 6), t.c1(GT, 4));
    let s13 = || and(t.c1(LT, 3), t.c1(GT, 1));
    let s57 = || and(t.c1(LT, 7), t.c1(GT, 5));
    {
        let predicate = or(or(or(is_null(), s02()), s46()), or(s13(), s57()));
        let range = t.detach(&predicate)?.unwrap();
        assert_eq!(
            range,
            Range::SortedRanges(vec![Range::Eq(DataValue::Null), open(0, 3), open(4, 7)])
        )
    }
    {
        let predicate = or(or(s02(), s46()), or(or(is_null(), s13()), s57()));
        let range = t.detach(&predicate)?.unwrap();
        assert_eq!(
            range,
            Range::SortedRanges(vec![Range::Eq(DataValue::Null), open(0, 3), open(4, 7)])
        )
    }
    {
        let predicate = and(or(or(is_null(), s02()), s46()), or(s13(), s57()));
        let range = t.detach(&predicate)?.unwrap();
        assert_eq!(range, Range::SortedRanges(vec![open(1, 2), open(5, 6)]))
    }
    {
        let predicate = and(or(s02(), s46()), or(or(is_null(), s13()), s57()));
        let range = t.detach(&predicate)?.unwrap();
        assert_eq!(range, Range::SortedRanges(vec![open(1, 2), open(5, 6)]))
    }

    Ok(())
}

fn ints(values: &[Option<i32>], is_upper: bool) -> DataValue {
    DataValue::Tuple(
        values
            .iter()
            .map(|v| match v {
                Some(x) => DataValue::Int32(*x),
                None => DataValue::Null,
            })
            .collect(),
        is_upper,
    )
}

#[test]
fn test_to_tuple_range_some() {
    let eqs_ranges = vec![
        Range::Eq(DataValue::Int32(1)),
        Range::SortedRanges(vec![
            Range::Eq(DataValue::Null),
            Range::Eq(DataValue::Int32(1)),
            Range::Eq(DataValue::Int32(2)),
        ]),
        Range::SortedRanges(vec![
            Range::Eq(DataValue::Int32(1)),
            Range::Eq(DataValue::Int32(2)),
        ]),
    ];
    let prefixes: Vec<[Option<i32>; 3]> = vec![
        [Some(1), None, Some(1)],
        [Some(1), None, Some(2)],
        [Some(1), Some(1), Some(1)],
        [Some(1), Some(1), Some(2)],
        [Some(1), Some(2), Some(1)],
        [Some(1), Some(2), Some(2)],
    ];
    let with = |p: &[Option<i32>; 3], last: i32, is_upper: bool| {
        let mut v = p.to_vec();
        v.push(Some(last));
        ints(&v, is_upper)
    };

    let range = Range::Scope {
        min: Bound::Included(DataValue::Int32(1)),
        max: Bound::Unbounded,
    }
    .combining_eqs(&eqs_ranges);

    assert_eq!(
        range,
        Some(Range::SortedRanges(
            prefixes
                .iter()
                .map(|p| Range::Scope {
                    min: Bound::Included(with(p, 1, false)),
                    max: Bound::Excluded(ints(p, true)),
                })
                .collect()
        ))
    );

    let range = Range::Scope {
        min: Bound::Unbounded,
        max: Bound::Included(DataValue::Int32(1)),
    }
    .combining_eqs(&eqs_ranges);

    assert_eq!(
        range,
        Some(Range::SortedRanges(
            prefixes
                .iter()
                .map(|p| Range::Scope {
                    min: Bound::Excluded(ints(p, false)),
                    max: Bound::Included(with(p, 1, true)),
                })
                .collect()
        ))
    );

    let range = Range::Scope {
        min: Bound::Included(DataValue::Int32(1)),
        max: Bound::Included(DataValue::Int32(2)),
    }
    .combining_eqs(&eqs_ranges);

    assert_eq!(
        range,
        Some(Range::SortedRanges(
            prefixes
                .iter()
                .map(|p| Range::Scope {
                    min: Bound::Included(with(p, 1, false)),
                    max: Bound::Included(with(p, 2, true)),
                })
                .collect()
        ))
    )
}

#[test]
fn test_to_tuple_range_none() {
    let range = Range::Scope {
        min: Bound::Included(DataValue::Int32(2)),
        max: Bound::Unbounded,
    }
    .combining_eqs(&[
        Range::Eq(DataValue::Int32(7)),
        Range::Eq(DataValue::Int32(10)),
    ]);
    assert_eq!(
        range,
        Some(Range::Scope {
            min: Bound::Included(DataValue::Tuple(
                vec![
                    DataValue::Int32(7),
                    DataValue::Int32(10),
                    DataValue::Int32(2)
                ],
                false
            )),
            max: Bound::Excluded(DataValue::Tuple(
                vec![DataValue::Int32(7), DataValue::Int32(10)],
                true
            )),
        })
    );
    let Range::Scope {
        min: Bound::Included(min),
        max: Bound::Excluded(max),
    } = range.unwrap()
    else {
        unreachable!()
    };
    let arena = bumpalo::Bump::new();
    let mut low = kite_core::arena::BumpBytes::new_in(&arena);
    let mut high = kite_core::arena::BumpBytes::new_in(&arena);
    min.memcomparable_encode(&mut low).unwrap();
    max.memcomparable_encode(&mut high).unwrap();
    assert!(low < high);
}

#[test]
fn combining_stops_at_ranges_that_are_no_points() {
    let scope = Range::Scope {
        min: Bound::Unbounded,
        max: Bound::Unbounded,
    };
    assert_eq!(Range::Eq(DataValue::Int32(1)).combining_eqs(&[scope.clone()]), None);
    assert_eq!(
        Range::Eq(DataValue::Int32(1)).combining_eqs(&[
            Range::Eq(DataValue::Int32(3)),
            Range::SortedRanges(vec![Range::Eq(DataValue::Int32(4)), Range::Dummy])
        ]),
        None
    );
    assert_eq!(
        Range::Eq(DataValue::Int32(1)).combining_eqs(&[]),
        Some(Range::Eq(ints(&[Some(1)], false)))
    );
    assert_eq!(scope.combining_eqs(&[]), Some(scope.clone()));
    assert_eq!(Range::Dummy.combining_eqs(&[]), Some(Range::Dummy));
    assert_eq!(
        Range::Eq(DataValue::Int32(9)).combining_eqs(&[Range::SortedRanges(vec![])]),
        Some(Range::Dummy)
    );
    assert_eq!(
        Range::SortedRanges(vec![
            Range::Eq(DataValue::Int32(8)),
            Range::Eq(DataValue::Int32(9))
        ])
        .combining_eqs(&[Range::Eq(DataValue::Int32(1))]),
        Some(Range::SortedRanges(vec![
            Range::Eq(ints(&[Some(1), Some(8)], false)),
            Range::Eq(ints(&[Some(1), Some(9)], false)),
        ]))
    );
    assert!(Range::Eq(DataValue::Null).only_eq());
    assert!(!scope.only_eq());
    assert!(!Range::Dummy.only_eq());
}

#[test]
fn detached_lists_hold_at_least_two_single_pieces() {
    let t = build_t1_table();
    let points: Vec<ScalarExpression> = vec![
        t.c1(EQ, 5),
        t.c1(GT, 7),
        t.c1(LT, 3),
        t.c1(GT_EQ, 5),
        t.c1(LT_EQ, 5),
        t.c1_is(DataValue::Null),
        and(t.c1(GT, 0), t.c1(LT, 5)),
        and(t.c1(GT_EQ, 5), t.c1(LT, 8)),
        and(t.c1(GT_EQ, 5), t.c1(LT, 7)),
    ];
    let mut predicates = points.clone();
    for a in &points {
        for b in &points {
            predicates.push(or(a.clone(), b.clone()));
            predicates.push(and(a.clone(), b.clone()));
        }
    }
    let firsts = predicates.clone();
    for a in firsts.iter().skip(points.len()).step_by(7) {
        for b in &points {
            predicates.push(or(a.clone(), b.clone()));
            predicates.push(and(b.clone(), a.clone()));
        }
    }
    for p in &predicates {
        if let Some(Range::SortedRanges(members)) = t.detach(p).unwrap() {
            assert!(members.len() >= 2);
            for m in &members {
                assert!(!matches!(m, Range::SortedRanges(_)));
            }
        }
    }
}

#[test]
fn touching_intervals_are_kept_side_by_side() {
    let t = build_t1_table();
    let predicate = or(
        or(
            and(t.c1(GT, 0), t.c1(LT, 5)),
            and(t.c1(GT_EQ, 5), t.c1(LT, 8)),
        ),
        and(t.c1(GT_EQ, 5), t.c1(LT, 7)),
    );
    let range = t.detach(&predicate).unwrap().unwrap();
    assert_eq!(
        range,
        Range::SortedRanges(vec![
            open(0, 5),
            Range::Scope {
                min: Bound::Included(DataValue::Int32(5)),
                max: Bound::Excluded(DataValue::Int32(8)),
            }
        ])
    );
}

#[test]
fn detach_looks_through_names_only_and_reads_is_null() {
    let t = build_t1_table();
    let inner = t.c1(GT, 1);
    let wrapped = ScalarExpression::Alias {
        expr: Box::new(ScalarExpression::Unary {
            op: UnaryOperator::Not,
            expr: Box::new(ScalarExpression::TypeCast {
                expr: Box::new(inner.clone()),
                ty: LogicalType::Boolean,
            }),
            ty: LogicalType::Boolean,
        }),
        alias: "a".to_string(),
    };
    assert_eq!(t.detach(&wrapped).unwrap(), None);
    let named = ScalarExpression::Alias {
        expr: Box::new(inner.clone()),
        alias: "a".to_string(),
    };
    assert_eq!(t.detach(&named).unwrap(), t.detach(&inner).unwrap());
    let not = ScalarExpression::Unary {
        op: UnaryOperator::Not,
        expr: Box::new(inner.clone()),
        ty: LogicalType::Boolean,
    };
    assert_eq!(t.detach(&not).unwrap(), None);
    let compared = bin(EQ, inner.clone(), ScalarExpression::Constant(DataValue::Boolean(false)));
    assert_eq!(t.detach(&compared).unwrap(), None);
    let kept = and(inner.clone(), t.c2(EQ, 4));
    assert_eq!(t.detach(&kept).unwrap(), t.detach(&inner).unwrap());
    let unknown = ScalarExpression::IsNull {
        negated: false,
        expr: Box::new(inner.clone()),
    };
    assert_eq!(t.detach(&unknown).unwrap(), None);
    let is_null = |negated| ScalarExpression::IsNull {
        negated,
        expr: Box::new(t.col("c1")),
    };
    assert_eq!(
        t.detach(&is_null(false)).unwrap(),
        Some(Range::Eq(DataValue::Null))
    );
    assert_eq!(t.detach(&is_null(true)).unwrap(), None);
    let other = ScalarExpression::IsNull {
        negated: false,
        expr: Box::new(t.col("c2")),
    };
    assert_eq!(t.detach(&other).unwrap(), None);
    let flipped = bin(LT, lit(3), t.col("c1"));
    assert_eq!(t.detach(&flipped).unwrap(), t.detach(&t.c1(GT, 3)).unwrap());
    let text = t.c1_is(DataValue::text("x".to_string()));
    assert!(matches!(t.detach(&text), Err(DatabaseError::ParseInt)));
    let spaceship = t.c1(BinaryOperator::Spaceship, 4);
    assert_eq!(
        t.detach(&spaceship).unwrap(),
        Some(Range::Eq(DataValue::Int32(4)))
    );
    let plus = bin(BinaryOperator::Plus, t.c1(GT, 1), t.c1(LT, 9));
    assert_eq!(t.detach(&plus).unwrap(), None);
}

fn at_or_above(bound: &Bound, v: &DataValue) -> bool {
    match bound {
        Bound::Included(b) => matches!(
            v.compare(b),
            Some(ValueOrder::Greater) | Some(ValueOrder::Equal)
        ),
        Bound::Excluded(b) => matches!(v.compare(b), Some(ValueOrder::Greater)),
        Bound::Unbounded => true,
    }
}

fn at_or_below(bound: &Bound, v: &DataValue) -> bool {
    match bound {
        Bound::Included(b) => matches!(
            v.compare(b),
            Some(ValueOrder::Less) | Some(ValueOrder::Equal)
        ),
        Bound::Excluded(b) => matches!(v.compare(b), Some(ValueOrder::Less)),
        Bound::Unbounded => true,
    }
}

fn member(range: &Range, v: &DataValue) -> bool {
    match range {
        Range::Scope { min, max } => at_or_above(min, v) && at_or_below(max, v),
        Range::Eq(x) => matches!(v.compare(x), Some(ValueOrder::Equal)),
        Range::Dummy => false,
        Range::SortedRanges(members) => members.iter().any(|r| member(r, v)),
    }
}

#[test]
fn plain_filters_give_ranges_that_hold_the_rows_they_accept() {
    let t = build_t1_table();
    let filters = vec![
        and(t.c1(GT, 1), t.c1(LT, 5)),
        or(t.c1(EQ, 3), t.c1(GT_EQ, 7)),
        bin(LT, lit(5), t.col("c1")),
        and(t.c1(GT_EQ, 0), t.c2(EQ, 4)),
        and(and(t.c1(GT, 1), t.c1(LT_EQ, 8)), or(t.c2(EQ, 4), t.c1(EQ, 2))),
        or(and(t.c1(GT, 1), t.c1(LT, 5)), and(t.c1(GT, 3), t.c1(LT, 9))),
        and(t.c1(NOT_EQ, 4), t.c1(LT, 6)),
        and(
            or(and(t.c1(GT, 0), t.c1(LT, 4)), and(t.c1(GT, 6), t.c1(LT, 12))),
            or(and(t.c1(GT, 2), t.c1(LT, 8)), and(t.c1(GT, 10), t.c1(LT, 13))),
        ),
        and(or(t.c1(EQ, 1), or(t.c1(EQ, 3), t.c1(GT, 8))), t.c1(GT_EQ, 3)),
    ];
    let mut accepted = 0;
    for filter in &filters {
        let range = t.detach(filter).unwrap();
        for c1 in -3..13 {
            for c2 in 3..6 {
                let row = vec![DataValue::Int32(c1), DataValue::Int32(c2)];
                let truth = filter.eval(&row, &t.columns).unwrap();
                if truth == DataValue::Boolean(true) {
                    accepted += 1;
                    if let Some(range) = &range {
                        assert!(
                            member(range, &DataValue::Int32(c1)),
                            "{:?} leaves out {}",
                            range,
                            c1
                        );
                    }
                }
            }
        }
    }
    assert!(accepted > 50);
    assert!(t.detach(&or(t.c1(EQ, 1), t.c2(EQ, 4))).unwrap().is_none());
    assert_eq!(
        t.detach(&and(t.c1(GT_EQ, 0), t.c2(EQ, 4))).unwrap(),
        Some(Range::Scope {
            min: Bound::Included(DataValue::Int32(0)),
            max: Bound::Unbounded,
        })
    );
}

#[test]
fn overlapping_intervals_with_open_ends_become_one() {
    let t = build_t1_table();
    let range = t
        .detach(&or(t.c1(LT, 3), and(t.c1(GT, 1), t.c1(LT, 9))))
        .unwrap();
    assert_eq!(
        range,
        Some(Range::Scope {
            min: Bound::Unbounded,
            max: Bound::Excluded(DataValue::Int32(9)),
        })
    );
    let range = t
        .detach(&and(
            or(t.c1(LT, 3), and(t.c1(GT, 1), t.c1(LT, 9))),
            t.c1(GT, 0),
        ))
        .unwrap();
    assert_eq!(range, Some(open(0, 9)));
    let range = t
        .detach(&or(
            or(t.c1(LT, 3), t.c1(GT, 7)),
            and(t.c1(GT, 2), t.c1(LT, 8)),
        ))
        .unwrap();
    assert_eq!(
        range,
        Some(Range::Scope {
            min: Bound::Unbounded,
            max: Bound::Unbounded,
        })
    );
    let range = t
        .detach(&or(or(t.c1(LT, 3), t.c1(GT, 7)), t.c1(EQ, 5)))
        .unwrap();
    assert_eq!(
        range,
        Some(Range::SortedRanges(vec![
            Range::Scope {
                min: Bound::Unbounded,
                max: Bound::Excluded(DataValue::Int32(3)),
            },
            Range::Eq(DataValue::Int32(5)),
            Range::Scope {
                min: Bound::Excluded(DataValue::Int32(7)),
                max: Bound::Unbounded,
            },
        ]))
    );
}

#[test]
fn unions_of_comparisons_come_out_in_increasing_order() {
    let t = build_t1_table();
    let filters = vec![
        or(or(t.c1(GT, 7), t.c1(EQ, 5)), or(t.c1(LT, 3), and(t.c1(GT, 3), t.c1(LT, 5)))),
        or(or(t.c1(EQ, 9), t.c1(EQ, 1)), or(t.c1(EQ, 5), t.c1(EQ, 1))),
        or(
            or(and(t.c1(GT_EQ, 8), t.c1(LT, 10)), and(t.c1(GT, 0), t.c1(LT_EQ, 2))),
            or(t.c1(EQ, 5), and(t.c1(GT, 5), t.c1(LT, 7))),
        ),
        and(
            or(and(t.c1(GT, 0), t.c1(LT, 4)), and(t.c1(GT, 6), t.c1(LT, 12))),
            or(and(t.c1(GT, 2), t.c1(LT, 8)), and(t.c1(GT, 10), t.c1(LT, 13))),
        ),
    ];
    for filter in &filters {
        let range = t.detach(filter).unwrap().unwrap();
        let members = match range {
            Range::SortedRanges(members) => members,
            other => panic!("{:?} is no list", other),
        };
        assert!(members.len() >= 2);
        for i in 0..members.len() {
            for j in (i + 1)..members.len() {
                for x in -3..13 {
                    for y in -3..13 {
                        if member(&members[i], &DataValue::Int32(x))
                            && member(&members[j], &DataValue::Int32(y))
                        {
                            assert!(x < y, "{:?} before {:?}", members[i], members[j]);
                        }
                    }
                }
            }
        }
    }
}

#[test]
fn detach_gives_the_expected_ranges() {
    let t = build_t1_table();
    assert_eq!(
        t.detach(&t.c1(EQ, 1)).unwrap(),
        Some(Range::Eq(DataValue::Int32(1)))
    );
    assert_eq!(
        t.detach(&and(t.c1(GT, 1), t.c1(LT, 3))).unwrap(),
        Some(open(1, 3))
    );
    assert_eq!(
        t.detach(&or(t.c1(EQ, 1), t.c1(EQ, 0))).unwrap(),
        Some(Range::SortedRanges(vec![
            Range::Eq(DataValue::Int32(0)),
            Range::Eq(DataValue::Int32(1)),
        ]))
    );
    let both = and(
        or(and(t.c1(LT, 2), t.c1(GT, 0)), and(t.c1(LT, 6), t.c1(GT, 4))),
        or(and(t.c1(LT, 3), t.c1(GT, 1)), and(t.c1(LT, 7), t.c1(GT, 5))),
    );
    assert_eq!(
        t.detach(&both).unwrap(),
        Some(Range::SortedRanges(vec![open(1, 2), open(5, 6)]))
    );
    assert_eq!(
        t.detach(&or(t.c1_is(DataValue::Null), t.c1(LT, 5))).unwrap(),
        Some(Range::Scope {
            min: Bound::Unbounded,
            max: Bound::Excluded(DataValue::Int32(5)),
        })
    );
    assert_eq!(t.detach(&t.c1(NOT_EQ, 1)).unwrap(), None);
}

#[test]
fn an_empty_intersection_is_the_empty_range() {
    let t = build_t1_table();
    assert_eq!(
        t.detach(&and(t.c1(GT, 1), t.c1(LT_EQ, 1))).unwrap(),
        Some(Range::Dummy)
    );
    assert_eq!(
        t.detach(&and(t.c1(GT_EQ, 1), t.c1(LT, 1))).unwrap(),
        Some(Range::Dummy)
    );
    assert_eq!(
        t.detach(&and(t.c1(GT_EQ, 1), t.c1(LT_EQ, 1))).unwrap(),
        Some(Range::Eq(DataValue::Int32(1)))
    );
    assert_eq!(
        t.detach(&and(t.c1(GT, 3), t.c1(LT, 2))).unwrap(),
        Some(Range::Dummy)
    );
}

#[test]
fn intervals_without_a_common_value_stay_two() {
    let t = build_t1_table();
    assert_eq!(
        t.detach(&or(
            and(t.c1(GT, 0), t.c1(LT, 2)),
            and(t.c1(GT, 2), t.c1(LT, 4))
        ))
        .unwrap(),
        Some(Range::SortedRanges(vec![open(0, 2), open(2, 4)]))
    );
    assert_eq!(
        t.detach(&or(
            and(t.c1(GT, 0), t.c1(LT_EQ, 2)),
            and(t.c1(GT_EQ, 2), t.c1(LT, 4))
        ))
        .unwrap(),
        Some(open(0, 4))
    );
}

#[test]
fn intersections_with_lists_go_member_by_member() {
    let t = build_t1_table();
    let both = and(
        or(and(t.c1(GT, 0), t.c1(LT, 10)), and(t.c1(GT, 20), t.c1(LT, 100))),
        or(and(t.c1(GT, 5), t.c1(LT, 30)), and(t.c1(GT, 90), t.c1(LT, 110))),
    );
    assert_eq!(
        t.detach(&both).unwrap(),
        Some(Range::SortedRanges(vec![
            open(5, 10),
            open(20, 30),
            open(90, 100)
        ]))
    );
    let one = and(
        or(and(t.c1(GT, 0), t.c1(LT, 1)), and(t.c1(GT, 5), t.c1(LT, 9))),
        t.c1(EQ, 5),
    );
    assert_eq!(t.detach(&one).unwrap(), Some(Range::Dummy));
    let cut = and(
        or(and(t.c1(GT, -5), t.c1(LT, -1)), and(t.c1(GT, 0), t.c1(LT, 10))),
        and(t.c1(GT, 10), t.c1(LT, 12)),
    );
    assert_eq!(t.detach(&cut).unwrap(), Some(Range::Dummy));
    let some = and(or(t.c1(EQ, 1), t.c1(EQ, 3)), t.c1(GT, 2));
    assert_eq!(
        t.detach(&some).unwrap(),
        Some(Range::Eq(DataValue::Int32(3)))
    );
}

#[test]
fn null_is_kept_beside_an_interval_that_does_not_reach_down_to_it() {
    let t = build_t1_table();
    assert_eq!(
        t.detach(&or(t.c1_is(DataValue::Null), t.c1(GT_EQ, 5))).unwrap(),
        Some(Range::SortedRanges(vec![
            Range::Eq(DataValue::Null),
            Range::Scope {
                min: Bound::Included(DataValue::Int32(5)),
                max: Bound::Unbounded,
            },
        ]))
    );
    assert_eq!(
        t.detach(&or(t.c1(LT_EQ, 5), t.c1_is(DataValue::Null))).unwrap(),
        Some(Range::Scope {
            min: Bound::Unbounded,
            max: Bound::Included(DataValue::Int32(5)),
        })
    );
}

#[test]
fn null_comes_first_whichever_side_names_it() {
    let t = build_t1_table();
    let want = Some(Range::SortedRanges(vec![
        Range::Eq(DataValue::Null),
        Range::Eq(DataValue::Int32(1)),
    ]));
    assert_eq!(
        t.detach(&or(t.c1_is(DataValue::Null), t.c1(EQ, 1))).unwrap(),
        want
    );
    assert_eq!(
        t.detach(&or(t.c1(EQ, 1), t.c1_is(DataValue::Null))).unwrap(),
        want
    );
    assert_eq!(
        t.detach(&or(or(t.c1(EQ, 3), t.c1(EQ, 1)), t.c1_is(DataValue::Null)))
            .unwrap(),
        Some(Range::SortedRanges(vec![
            Range::Eq(DataValue::Null),
            Range::Eq(DataValue::Int32(1)),
            Range::Eq(DataValue::Int32(3)),
        ]))
    );
    assert_eq!(
        t.detach(&or(and(t.c1(GT, 1), t.c1(LT, 5)), t.c1_is(DataValue::Null)))
            .unwrap(),
        Some(Range::SortedRanges(vec![
            Range::Eq(DataValue::Null),
            open(1, 5)
        ]))
    );
}

#[test]
fn ranges_over_a_text_column_hold_what_the_filter_accepts_and_stand_in_order() {
    let table = TableCatalog::new(
        "t2".to_string(),
        vec![ColumnCatalog::new(
            "name".to_string(),
            true,
            ColumnDesc::new(
                LogicalType::Varchar(None, CharLengthUnits::Characters),
                Some(0),
                false,
                None,
            )
            .unwrap(),
        )],
    )
    .unwrap();
    let column = table.columns()[0].clone();
    let id = column.id().unwrap();
    let name = || ScalarExpression::ColumnRef(column.clone());
    let word = |s: &str| ScalarExpression::Constant(DataValue::text(s.to_string()));
    let filter = or(
        or(bin(EQ, name(), word("m")), bin(LT, name(), word("c"))),
        and(bin(GT, name(), word("d")), bin(LT_EQ, name(), word("da"))),
    );
    let range = RangeDetacher::new("t2", &id)
        .detach(&filter)
        .unwrap()
        .unwrap();
    let members = match &range {
        Range::SortedRanges(members) => members.clone(),
        other => panic!("{:?} is no list", other),
    };
    assert_eq!(members.len(), 3);
    let words = ["", "a", "b", "bz", "c", "d", "d\u{0}", "da", "daa", "m", "ma", "z"];
    for w in words {
        let value = DataValue::text(w.to_string());
        let truth = filter
            .eval(&[value.clone()], std::slice::from_ref(&column))
            .unwrap();
        if truth == DataValue::Boolean(true) {
            assert!(member(&range, &value), "{:?} leaves out {:?}", range, w);
        }
    }
    for i in 0..members.len() {
        for j in (i + 1)..members.len() {
            for x in words {
                for y in words {
                    if member(&members[i], &DataValue::text(x.to_string()))
                        && member(&members[j], &DataValue::text(y.to_string()))
                    {
                        assert!(x < y);
                    }
                }
            }
        }
    }
}

fn reaches_null(range: &Range) -> bool {
    match range {
        Range::Eq(DataValue::Null) => true,
        Range::Scope {
            min: Bound::Unbounded,
            ..
        } => true,
        Range::SortedRanges(members) => members.iter().any(reaches_null),
        _ => false,
    }
}

#[test]
fn ranges_hold_null_where_the_filter_accepts_a_null_column() {
    let t = build_t1_table();
    let is_null = || t.c1_is_null();
    let filters = vec![
        is_null(),
        or(is_null(), t.c1(GT, 5)),
        or(t.c1(LT, 5), is_null()),
        and(or(is_null(), t.c1(GT, 5)), or(is_null(), t.c1(LT, 3))),
        and(or(is_null(), t.c1(GT, 5)), or(t.c1(EQ, 7), is_null())),
        or(and(is_null(), t.c1(GT, 5)), or(t.c1(EQ, 1), is_null())),
        and(is_null(), t.c1(GT, 5)),
        t.c1(EQ, 5),
    ];
    let mut accepted = 0;
    for filter in &filters {
        let row = vec![DataValue::Null, DataValue::Int32(4)];
        let truth = filter.eval(&row, &t.columns).unwrap();
        let range = t.detach(filter).unwrap();
        if truth == DataValue::Boolean(true) {
            accepted += 1;
            if let Some(range) = &range {
                assert!(reaches_null(range), "{:?} leaves out null", range);
            }
        }
    }
    assert_eq!(accepted, 6);
}
