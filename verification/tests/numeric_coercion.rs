//! Rewriting of comparisons between numbers of different types.

use std::sync::Arc;

use arrow::array::{ArrayRef, BooleanArray, Float32Array, Int64Array, RecordBatch};
use arrow::datatypes::{DataType, Field as ArrowField, IntervalUnit, Schema as ArrowSchema, TimeUnit};
use datafusion_common::{DFSchema, ScalarValue};
use sail_lance::cast::{cast_to, null_of};
use sail_lance::expr::{Column, Expr, Operator};
use sail_lance::literal::{
    extract_literal, fold_cast, int_bounds, is_float_type, is_integer_type, make_int_literal,
    negate_scalar, settle_cast,
};
use sail_lance::numeric_coercion::{
    ceil_for_lower, extract_column, false_preserving_null, floor_for_upper, is_rewritable,
    rewrite_between, rewrite_binary, rewrite_comparison, rewrite_float32_double, rewrite_in_list,
    rewrite_int_float, true_preserving_null, try_rewrite_between_expr, try_rewrite_in_list_expr,
};
use sail_lance::scalar::Scalar;
use sail_lance::schema::{resolve_column_type, Field, ProjectionError, Schema};
use sail_lance::value_type::ValueType;

fn col(name: &str) -> Expr {
    Expr::Column(Column { qualifier: vec![], name: name.to_string() })
}

fn lit(value: Scalar) -> Expr {
    Expr::Literal(value)
}

fn double(value: f64) -> Expr {
    lit(Scalar::Float64(Some(value.to_bits())))
}

fn text(value: &str) -> Expr {
    lit(Scalar::Utf8(Some(value.to_string())))
}

fn cast(expr: Expr, target: ValueType) -> Expr {
    Expr::Cast { expr: Box::new(expr), target }
}

fn try_cast(expr: Expr, target: ValueType) -> Expr {
    Expr::TryCast { expr: Box::new(expr), target }
}

fn binary(left: Expr, op: Operator, right: Expr) -> Expr {
    Expr::BinaryExpr { left: Box::new(left), op, right: Box::new(right) }
}

fn bits(value: f64) -> Option<u64> {
    Some(value.to_bits())
}

fn single(value: f32) -> Scalar {
    Scalar::Float32(Some(value.to_bits()))
}

fn schema() -> Schema {
    Schema {
        fields: vec![
            Field { name: "i".to_string(), value_type: ValueType::Int64 },
            Field { name: "x".to_string(), value_type: ValueType::Float32 },
            Field { name: "name".to_string(), value_type: ValueType::Utf8 },
        ],
    }
}

fn batch_schema() -> Arc<ArrowSchema> {
    Arc::new(ArrowSchema::new(vec![
        ArrowField::new("i", DataType::Int64, true),
        ArrowField::new("x", DataType::Float32, true),
    ]))
}

fn batch() -> RecordBatch {
    RecordBatch::try_new(
        batch_schema(),
        vec![
            Arc::new(Int64Array::from(vec![Some(1), Some(2), None])) as ArrayRef,
            Arc::new(Float32Array::from(vec![Some(0.5), Some(0.5), None])) as ArrayRef,
        ],
    )
    .unwrap()
}

fn to_scalar_value(value: &Scalar) -> ScalarValue {
    match value {
        Scalar::Null => ScalarValue::Null,
        Scalar::Boolean(v) => ScalarValue::Boolean(*v),
        Scalar::Int64(v) => ScalarValue::Int64(*v),
        Scalar::Float32(v) => ScalarValue::Float32(v.map(f32::from_bits)),
        Scalar::Float64(v) => ScalarValue::Float64(v.map(f64::from_bits)),
        _ => panic!("unexpected literal {value:?}"),
    }
}

fn to_operator(op: Operator) -> datafusion_expr::Operator {
    match op {
        Operator::Eq => datafusion_expr::Operator::Eq,
        Operator::NotEq => datafusion_expr::Operator::NotEq,
        Operator::Lt => datafusion_expr::Operator::Lt,
        Operator::LtEq => datafusion_expr::Operator::LtEq,
        Operator::Gt => datafusion_expr::Operator::Gt,
        Operator::GtEq => datafusion_expr::Operator::GtEq,
        Operator::And => datafusion_expr::Operator::And,
        Operator::Or => datafusion_expr::Operator::Or,
        _ => panic!("unexpected operator {op:?}"),
    }
}

fn to_datafusion(expr: &Expr) -> datafusion_expr::Expr {
    match expr {
        Expr::Column(column) => datafusion_expr::col(column.name.as_str()),
        Expr::Literal(value) => datafusion_expr::Expr::Literal(to_scalar_value(value), None),
        Expr::BinaryExpr { left, op, right } => datafusion_expr::binary_expr(
            to_datafusion(left),
            to_operator(*op),
            to_datafusion(right),
        ),
        Expr::Not(inner) => datafusion_expr::Expr::Not(Box::new(to_datafusion(inner))),
        Expr::IsNull(inner) => to_datafusion(inner).is_null(),
        Expr::IsNotNull(inner) => to_datafusion(inner).is_not_null(),
        Expr::Between { expr, negated: false, low, high } => {
            to_datafusion(expr).between(to_datafusion(low), to_datafusion(high))
        }
        Expr::Between { expr, low, high, .. } => {
            to_datafusion(expr).not_between(to_datafusion(low), to_datafusion(high))
        }
        Expr::InList { expr, list, negated } => {
            to_datafusion(expr).in_list(list.iter().map(to_datafusion).collect(), *negated)
        }
        _ => panic!("unexpected expression {expr:?}"),
    }
}

/// What DataFusion makes of an expression on each row of the batch.
fn evaluate(expr: &Expr) -> Vec<Option<bool>> {
    let df_schema = DFSchema::try_from(batch_schema()).unwrap();
    let physical = datafusion_physical_expr::create_physical_expr(
        &to_datafusion(expr),
        &df_schema,
        &Default::default(),
        &Default::default(),
    )
    .unwrap();
    let result = physical.evaluate(&batch()).unwrap().into_array(3).unwrap();
    result
        .as_any()
        .downcast_ref::<BooleanArray>()
        .unwrap()
        .iter()
        .collect()
}

fn rewritten(left: Expr, op: Operator, right: Expr) -> Expr {
    rewrite_binary(&left, op, &right, &schema()).unwrap()
}

#[test]
fn fractional_ordering_uses_floor() {
    let int32 = ValueType::Int32;
    let col_expr = col("i");
    assert_eq!(
        rewrite_int_float(&col_expr, &int32, Operator::Gt, bits(1.5)),
        Some(binary(col("i"), Operator::Gt, lit(Scalar::Int32(Some(1)))))
    );
    assert_eq!(
        rewrite_int_float(&col_expr, &int32, Operator::GtEq, bits(1.5)),
        Some(binary(col("i"), Operator::Gt, lit(Scalar::Int32(Some(1)))))
    );
    assert_eq!(
        rewrite_int_float(&col_expr, &int32, Operator::Lt, bits(1.5)),
        Some(binary(col("i"), Operator::LtEq, lit(Scalar::Int32(Some(1)))))
    );
    // A negative fractional rounds toward negative infinity, not toward zero.
    assert_eq!(
        rewrite_int_float(&col_expr, &int32, Operator::Gt, bits(-1.5)),
        Some(binary(col("i"), Operator::Gt, lit(Scalar::Int32(Some(-2)))))
    );
}

#[test]
fn integral_float_becomes_integer() {
    let int32 = ValueType::Int32;
    let col_expr = col("i");
    assert_eq!(
        rewrite_int_float(&col_expr, &int32, Operator::Gt, bits(2.0)),
        Some(binary(col("i"), Operator::Gt, lit(Scalar::Int32(Some(2)))))
    );
}

#[test]
fn out_of_range_clamps_to_constants() {
    let int8 = ValueType::Int8;
    let col_expr = col("i");
    // `i > 1000.5` never holds; `i <= 1000.5` always holds (nulls aside).
    assert_eq!(
        rewrite_int_float(&col_expr, &int8, Operator::Gt, bits(1000.5)),
        Some(false_preserving_null(&col_expr))
    );
    assert_eq!(
        rewrite_int_float(&col_expr, &int8, Operator::LtEq, bits(1000.5)),
        Some(true_preserving_null(&col_expr))
    );
    assert_eq!(
        rewrite_int_float(&col_expr, &int8, Operator::Eq, bits(1.5)),
        Some(false_preserving_null(&col_expr))
    );
    assert_eq!(
        rewrite_int_float(&col_expr, &int8, Operator::NotEq, bits(1.5)),
        Some(true_preserving_null(&col_expr))
    );
}

#[test]
fn int_float_plans_to_int_and_evaluates() {
    let greater = || binary(col("i"), Operator::Gt, lit(Scalar::Int64(Some(1))));
    // `i > 1.5` must plan as `i > 1`.
    assert_eq!(rewritten(col("i"), Operator::Gt, double(1.5)), greater());
    assert_eq!(rewritten(col("i"), Operator::GtEq, double(1.5)), greater());
    assert_eq!(
        rewritten(col("i"), Operator::Lt, double(1.5)),
        binary(col("i"), Operator::LtEq, lit(Scalar::Int64(Some(1))))
    );
    // Mirrored literal on the left swaps the operator.
    assert_eq!(rewritten(double(1.5), Operator::Lt, col("i")), greater());
    // `CAST(i AS double)` unwraps to the column.
    assert_eq!(
        rewritten(cast(col("i"), ValueType::Float64), Operator::Gt, double(1.5)),
        greater()
    );

    // `i > 1.5` keeps 2, drops 1, filters null (null, not false).
    assert_eq!(
        evaluate(&rewritten(col("i"), Operator::Gt, double(1.5))),
        vec![Some(false), Some(true), None]
    );
    // `i = 1.5` is false for non-null, null for null (so NOT preserves null).
    assert_eq!(
        evaluate(&rewritten(col("i"), Operator::Eq, double(1.5))),
        vec![Some(false), Some(false), None]
    );
    assert_eq!(
        evaluate(&rewritten(col("i"), Operator::NotEq, double(1.5))),
        vec![Some(true), Some(true), None]
    );
    assert_eq!(
        evaluate(&Expr::Not(Box::new(rewritten(
            col("i"),
            Operator::Eq,
            double(1.5)
        )))),
        vec![Some(true), Some(true), None]
    );
}

#[test]
fn float32_exact_double_uses_float32() {
    assert_eq!(
        rewritten(col("x"), Operator::Gt, cast(double(0.5), ValueType::Float64)),
        binary(col("x"), Operator::Gt, lit(single(0.5)))
    );
    assert_eq!(
        rewritten(col("x"), Operator::Lt, cast(text("-inf"), ValueType::Float64)),
        binary(col("x"), Operator::Lt, lit(single(f32::NEG_INFINITY)))
    );
    // Inexact doubles stay on the double path (correct, without the index).
    assert_eq!(
        rewrite_binary(
            &col("x"),
            Operator::Gt,
            &cast(double(0.1), ValueType::Float64),
            &schema()
        ),
        None
    );
}

#[test]
fn bare_double_is_left_alone() {
    assert_eq!(
        rewrite_binary(&col("x"), Operator::Gt, &double(0.5), &schema()),
        None
    );
    assert_eq!(
        rewrite_float32_double(&col("x"), Operator::Lt, &Scalar::Float64(bits(0.1)), true),
        None
    );
    assert_eq!(
        rewrite_float32_double(&col("x"), Operator::Lt, &Scalar::Float64(None), true),
        Some(binary(col("x"), Operator::Lt, lit(Scalar::Float32(None))))
    );
    assert_eq!(
        rewrite_float32_double(&col("x"), Operator::Lt, &Scalar::Int64(Some(1)), false),
        None
    );
    assert_eq!(
        evaluate(&rewritten(
            col("x"),
            Operator::GtEq,
            cast(double(0.5), ValueType::Float64)
        )),
        vec![Some(true), Some(true), None]
    );
}

#[test]
fn special_numbers_against_an_integer_column() {
    let int64 = ValueType::Int64;
    let rewrite = |op, value| rewrite_int_float(&col("i"), &int64, op, bits(value)).unwrap();
    let never = false_preserving_null(&col("i"));
    let always = true_preserving_null(&col("i"));
    assert_eq!(rewrite(Operator::Lt, f64::INFINITY), always);
    assert_eq!(rewrite(Operator::Gt, f64::INFINITY), never);
    assert_eq!(rewrite(Operator::Gt, f64::NEG_INFINITY), always);
    assert_eq!(rewrite(Operator::Eq, f64::NEG_INFINITY), never);
    assert_eq!(rewrite(Operator::NotEq, f64::INFINITY), always);
    // A NaN compares with nothing.
    assert_eq!(rewrite(Operator::Lt, f64::NAN), never);
    assert_eq!(rewrite(Operator::Eq, f64::NAN), never);
    assert_eq!(rewrite(Operator::GtEq, f64::NAN), never);
    assert_eq!(rewrite(Operator::NotEq, f64::NAN), always);
    // Two to the power of 63 is just out of range, and its negation just in it.
    assert_eq!(rewrite(Operator::GtEq, 9223372036854775808.0), never);
    assert_eq!(
        rewrite(Operator::GtEq, -9223372036854775808.0),
        binary(col("i"), Operator::GtEq, lit(Scalar::Int64(Some(i64::MIN))))
    );
    // A null compares as a null of the column's type.
    assert_eq!(
        rewrite_int_float(&col("i"), &int64, Operator::Eq, None),
        Some(binary(col("i"), Operator::Eq, lit(Scalar::Int64(None))))
    );
    assert_eq!(rewrite_int_float(&col("i"), &ValueType::Float64, Operator::Eq, bits(1.0)), None);
    assert_eq!(rewrite_int_float(&col("i"), &int64, Operator::Plus, bits(1.0)), None);
}

#[test]
fn rewriting_agrees_with_exact_comparison() {
    let numbers = [
        -3.0, -1.5, -1.0, -0.5, -0.0, 0.0, 0.5, 1.0, 1.25, 1.5, 2.0, 2.5, 3.0, 1e30, -1e30,
        f64::INFINITY, f64::NEG_INFINITY, f64::NAN,
    ];
    let rows = [Some(1_i64), Some(2), None];
    for number in numbers {
        for op in [
            Operator::Eq,
            Operator::NotEq,
            Operator::Lt,
            Operator::LtEq,
            Operator::Gt,
            Operator::GtEq,
        ] {
            let holds = |row: f64| match op {
                Operator::Eq => row == number,
                Operator::NotEq => row != number,
                Operator::Lt => row < number,
                Operator::LtEq => row <= number,
                Operator::Gt => row > number,
                _ => row >= number,
            };
            let expected: Vec<Option<bool>> =
                rows.iter().map(|row| row.map(|row| holds(row as f64))).collect();
            let direct = rewritten(col("i"), op, double(number));
            assert_eq!(evaluate(&direct), expected, "i {op:?} {number}");
            let mirrored = rewritten(double(number), op.swap().unwrap(), col("i"));
            assert_eq!(mirrored, direct);
        }
    }
}

#[test]
fn ranges_agree_with_exact_comparison() {
    let numbers = [-1e30, 0.5, 1.0, 1.5, 2.0, 2.5, 1e30, f64::INFINITY, f64::NAN];
    for low in numbers {
        for high in numbers {
            let expected: Vec<Option<bool>> = [Some(1.0), Some(2.0), None]
                .iter()
                .map(|row| row.map(|row: f64| row >= low && row <= high))
                .collect();
            let range = |negated| {
                try_rewrite_between_expr(
                    &col("i"),
                    &double(low),
                    &double(high),
                    negated,
                    &schema(),
                )
                .unwrap()
            };
            assert_eq!(evaluate(&range(false)), expected, "{low} {high}");
            let negation: Vec<Option<bool>> =
                expected.iter().map(|truth| truth.map(|truth| !truth)).collect();
            assert_eq!(evaluate(&range(true)), negation, "{low} {high}");
        }
    }
}

#[test]
fn bounds_of_ranges() {
    let int8 = ValueType::Int8;
    let at = |value| Ok(Scalar::Int8(Some(value)));
    assert_eq!(ceil_for_lower(&int8, 1.5_f64.to_bits()), at(2));
    assert_eq!(ceil_for_lower(&int8, (-1.5_f64).to_bits()), at(-1));
    assert_eq!(ceil_for_lower(&int8, (-128.5_f64).to_bits()), at(-128));
    assert_eq!(ceil_for_lower(&int8, (-129.5_f64).to_bits()), Err(true));
    assert_eq!(ceil_for_lower(&int8, 127.5_f64.to_bits()), Err(false));
    assert_eq!(ceil_for_lower(&int8, f64::NAN.to_bits()), Err(false));
    assert_eq!(floor_for_upper(&int8, 1.5_f64.to_bits()), at(1));
    assert_eq!(floor_for_upper(&int8, 127.5_f64.to_bits()), at(127));
    assert_eq!(floor_for_upper(&int8, 128.0_f64.to_bits()), Err(true));
    assert_eq!(floor_for_upper(&int8, (-128.5_f64).to_bits()), Err(false));
    assert_eq!(floor_for_upper(&int8, f64::INFINITY.to_bits()), Err(true));
}

#[test]
fn ranges_over_a_single_precision_column() {
    let typed = |value| cast(double(value), ValueType::Float64);
    assert_eq!(
        rewrite_between(&col("x"), &ValueType::Float32, &typed(0.25), &typed(0.5), true),
        Some(Expr::Between {
            expr: Box::new(col("x")),
            negated: true,
            low: Box::new(lit(single(0.25))),
            high: Box::new(lit(single(0.5))),
        })
    );
    assert_eq!(
        rewrite_between(&col("x"), &ValueType::Float32, &typed(0.1), &typed(0.5), false),
        None
    );
}

#[test]
fn a_null_bound_beside_one_that_never_holds() {
    let null = || lit(Scalar::Float64(None));
    // `BETWEEN NULL AND -1e30` is false of every number, whatever the null is.
    let range = |low: Expr, high: Expr, negated| {
        try_rewrite_between_expr(&col("i"), &low, &high, negated, &schema()).unwrap()
    };
    for (low, high) in [
        (null(), double(-1e30)),
        (null(), double(f64::NAN)),
        (double(1e30), null()),
        (double(f64::INFINITY), null()),
    ] {
        let plain = range(low.clone(), high.clone(), false);
        assert_eq!(plain, false_preserving_null(&col("i")));
        assert_eq!(evaluate(&plain), vec![Some(false), Some(false), None]);
        let negation = range(low, high, true);
        assert_eq!(negation, true_preserving_null(&col("i")));
        assert_eq!(evaluate(&negation), vec![Some(true), Some(true), None]);
    }
    assert_eq!(
        rewrite_between(&col("i"), &ValueType::Int8, &null(), &double(-1000.5), true),
        Some(true_preserving_null(&col("i")))
    );
}

#[test]
fn a_null_bound_beside_one_that_decides_some_rows() {
    let null = || lit(Scalar::Float64(None));
    let range = |low: Expr, high: Expr, negated| {
        try_rewrite_between_expr(&col("i"), &low, &high, negated, &schema()).unwrap()
    };
    assert_eq!(
        range(double(1.5), null(), true),
        Expr::Between {
            expr: Box::new(col("i")),
            negated: true,
            low: Box::new(lit(Scalar::Int64(Some(2)))),
            high: Box::new(lit(Scalar::Int64(None))),
        }
    );
    assert_eq!(evaluate(&range(double(1.5), null(), false)), vec![Some(false), None, None]);
    assert_eq!(evaluate(&range(double(1.5), null(), true)), vec![Some(true), None, None]);
    assert_eq!(evaluate(&range(null(), double(1.5), true)), vec![None, Some(true), None]);
    // A bound that always holds leaves the null to decide.
    assert_eq!(evaluate(&range(double(-1e30), null(), true)), vec![None, None, None]);
    assert_eq!(evaluate(&range(null(), null(), true)), vec![None, None, None]);
}

#[test]
fn a_nan_keeps_its_sign() {
    let negative_nan = f64::from_bits(f64::NAN.to_bits() | 1 << 63);
    let single_nan = f32::from_bits(0xffc0_0000);
    let typed = cast(double(0.5), ValueType::Float64);
    assert_eq!(
        rewrite_between(&col("x"), &ValueType::Float32, &double(negative_nan), &typed, false),
        Some(Expr::Between {
            expr: Box::new(col("x")),
            negated: false,
            low: Box::new(lit(single(single_nan))),
            high: Box::new(lit(single(0.5))),
        })
    );
    assert_eq!(
        try_rewrite_between_expr(
            &col("x"),
            &typed,
            &Expr::Negative(Box::new(double(f64::NAN))),
            true,
            &schema()
        ),
        Some(Expr::Between {
            expr: Box::new(col("x")),
            negated: true,
            low: Box::new(lit(single(0.5))),
            high: Box::new(lit(single(single_nan))),
        })
    );
    assert_eq!(
        rewrite_comparison(
            &col("x"),
            &ValueType::Float32,
            Operator::Eq,
            &Scalar::Float64(bits(negative_nan)),
            true
        ),
        Some(binary(col("x"), Operator::Eq, lit(single(single_nan))))
    );
    let typed_nan = || cast(double(negative_nan), ValueType::Float64);
    assert_eq!(
        rewritten(col("x"), Operator::NotEq, typed_nan()),
        binary(col("x"), Operator::NotEq, lit(single(single_nan)))
    );
    assert_eq!(
        rewritten(try_cast(typed_nan(), ValueType::Float64), Operator::Lt, col("x")),
        binary(col("x"), Operator::Gt, lit(single(single_nan)))
    );
    let narrowed = Some(Expr::InList {
        expr: Box::new(col("x")),
        list: vec![lit(single(single_nan)), lit(single(0.5))],
        negated: false,
    });
    let list = [typed_nan(), cast(double(0.5), ValueType::Float64)];
    assert_eq!(rewrite_in_list(&col("x"), &ValueType::Float32, &list, false), narrowed);
    assert_eq!(try_rewrite_in_list_expr(&col("x"), &list, false, &schema()), narrowed);
    assert_eq!(
        fold_cast(&Scalar::Float64(bits(negative_nan)), &ValueType::Float64, false),
        Some(Scalar::Float64(bits(negative_nan)))
    );
    assert_eq!(
        extract_literal(&double(negative_nan)),
        Some((Scalar::Float64(bits(negative_nan)), false))
    );
    assert_eq!(
        extract_literal(&Expr::Negative(Box::new(double(f64::NAN)))),
        Some((Scalar::Float64(bits(negative_nan)), false))
    );
}

#[test]
fn lists_keep_what_can_be_found() {
    let in_list = |list: Vec<Expr>, negated| {
        try_rewrite_in_list_expr(&col("i"), &list, negated, &schema())
    };
    let found = in_list(vec![double(1.0), double(1.5), double(1e30)], false).unwrap();
    assert_eq!(
        found,
        Expr::InList {
            expr: Box::new(col("i")),
            list: vec![lit(Scalar::Int64(Some(1)))],
            negated: false,
        }
    );
    assert_eq!(evaluate(&found), vec![Some(true), Some(false), None]);
    let none = in_list(vec![double(1.5), double(f64::NAN)], true).unwrap();
    assert_eq!(evaluate(&none), vec![Some(true), Some(true), None]);
    assert_eq!(in_list(vec![double(1.0), text("a")], false), None);
    assert_eq!(in_list(vec![double(1.0), col("i")], false), None);
    let typed = |value| cast(double(value), ValueType::Float64);
    assert_eq!(
        rewrite_in_list(&col("x"), &ValueType::Float32, &[typed(0.5), typed(0.25)], true),
        Some(Expr::InList {
            expr: Box::new(col("x")),
            list: vec![lit(single(0.5)), lit(single(0.25))],
            negated: true,
        })
    );
    assert_eq!(
        rewrite_in_list(&col("x"), &ValueType::Float32, &[typed(0.1)], true),
        None
    );
}

#[test]
fn only_comparisons_are_rewritten() {
    for op in [
        Operator::Eq,
        Operator::NotEq,
        Operator::Lt,
        Operator::LtEq,
        Operator::Gt,
        Operator::GtEq,
    ] {
        assert!(is_rewritable(op));
    }
    assert!(!is_rewritable(Operator::And));
    assert!(!is_rewritable(Operator::IsDistinctFrom));
    let rewrite = |left, op, right| rewrite_binary(&left, op, &right, &schema());
    assert_eq!(rewrite(col("i"), Operator::Plus, double(1.5)), None);
    assert_eq!(rewrite(col("i"), Operator::Eq, lit(Scalar::Int64(Some(1)))), None);
    assert_eq!(rewrite(col("name"), Operator::Eq, double(1.5)), None);
    assert_eq!(rewrite(col("missing"), Operator::Eq, double(1.5)), None);
    assert_eq!(
        rewrite_comparison(
            &col("i"),
            &ValueType::Int8,
            Operator::LtEq,
            &Scalar::Float32(Some(7.5_f32.to_bits())),
            false
        ),
        Some(binary(col("i"), Operator::LtEq, lit(Scalar::Int8(Some(7)))))
    );
}

#[test]
fn columns_are_found_behind_casts() {
    let found = |expr| extract_column(&expr, &schema());
    assert_eq!(found(col("i")), Some((col("i"), ValueType::Int64)));
    assert_eq!(
        found(cast(col("i"), ValueType::Float64)),
        Some((col("i"), ValueType::Int64))
    );
    assert_eq!(
        found(try_cast(col("i"), ValueType::Float64)),
        Some((col("i"), ValueType::Int64))
    );
    assert_eq!(found(cast(col("i"), ValueType::Utf8)), None);
    assert_eq!(found(double(1.0)), None);
    let nested = || Expr::Other { id: 7, field_type: Some(ValueType::Int16) };
    assert_eq!(found(nested()), Some((nested(), ValueType::Int16)));
    assert_eq!(resolve_column_type(&nested(), &schema()), Some(ValueType::Int16));
    assert_eq!(resolve_column_type(&col("x"), &schema()), Some(ValueType::Float32));
    assert_eq!(resolve_column_type(&col("missing"), &schema()), None);
}

#[test]
fn literals_are_found_behind_casts_and_signs() {
    let found = |expr| extract_literal(&expr);
    assert_eq!(found(double(1.5)), Some((Scalar::Float64(bits(1.5)), false)));
    assert_eq!(
        found(Expr::Negative(Box::new(double(1.5)))),
        Some((Scalar::Float64(bits(-1.5)), false))
    );
    assert_eq!(
        found(cast(lit(Scalar::Int64(Some(2))), ValueType::Float64)),
        Some((Scalar::Float64(bits(2.0)), true))
    );
    assert_eq!(
        found(Expr::Negative(Box::new(cast(text("inf"), ValueType::Float64)))),
        Some((Scalar::Float64(bits(f64::NEG_INFINITY)), true))
    );
    assert_eq!(found(col("i")), None);
    assert_eq!(found(cast(text("abc"), ValueType::Float64)), None);
    assert_eq!(
        found(try_cast(text("abc"), ValueType::Float64)),
        Some((Scalar::Float64(None), true))
    );
}

#[test]
fn casts_are_folded() {
    let fold = |value: Scalar, target| fold_cast(&value, &target, false);
    let string = |value: &str| Scalar::Utf8(Some(value.to_string()));
    assert_eq!(
        fold(string("1.5"), ValueType::Float64),
        Some(Scalar::Float64(bits(1.5)))
    );
    assert_eq!(
        fold(Scalar::Int32(Some(300)), ValueType::Int64),
        Some(Scalar::Int64(Some(300)))
    );
    assert_eq!(fold(Scalar::Int32(Some(300)), ValueType::Int8), None);
    assert_eq!(
        fold_cast(&Scalar::Int32(Some(300)), &ValueType::Int8, true),
        Some(Scalar::Int8(None))
    );
    assert_eq!(
        fold(Scalar::Float64(bits(0.5)), ValueType::Float32),
        Some(single(0.5))
    );
    assert_eq!(
        fold(Scalar::Float64(bits(0.5)), ValueType::Float16),
        Some(Scalar::Float16(Some(half::f16::from_f64(0.5).to_bits())))
    );
    assert_eq!(
        fold(string("inf"), ValueType::Float32),
        Some(single(f32::INFINITY))
    );
    assert_eq!(
        settle_cast(None, None, &string("-infinity"), &ValueType::Float64, false),
        Some(Scalar::Float64(bits(f64::NEG_INFINITY)))
    );
}

#[test]
fn spellings_that_the_cast_rejects_fold() {
    for spelling in ["\u{a0}-inf", "\u{b}-Infinity\u{2003}"] {
        let value = Scalar::Utf8(Some(spelling.to_string()));
        assert_eq!(cast_to(&value, &ValueType::Float64), Some(None), "{spelling:?}");
        for is_try in [false, true] {
            assert_eq!(
                fold_cast(&value, &ValueType::Float64, is_try),
                Some(Scalar::Float64(bits(f64::NEG_INFINITY)))
            );
            assert_eq!(
                fold_cast(&value, &ValueType::Float16, is_try),
                Some(Scalar::Float16(Some(0xfc00)))
            );
        }
        assert_eq!(
            extract_literal(&try_cast(text(spelling), ValueType::Float64)),
            Some((Scalar::Float64(bits(f64::NEG_INFINITY)), true))
        );
        assert_eq!(
            rewritten(col("x"), Operator::Gt, try_cast(text(spelling), ValueType::Float64)),
            binary(col("x"), Operator::Gt, lit(single(f32::NEG_INFINITY)))
        );
        // They stand for no integer.
        assert_eq!(fold_cast(&value, &ValueType::Int32, false), None);
        assert_eq!(fold_cast(&value, &ValueType::Int32, true), Some(Scalar::Int32(None)));
    }
    let other = Scalar::Utf8(Some("infinite".to_string()));
    assert_eq!(fold_cast(&other, &ValueType::Float64, false), None);
    assert_eq!(fold_cast(&other, &ValueType::Float64, true), Some(Scalar::Float64(None)));
    let null = || Some(Scalar::Float64(None));
    let infinite = Scalar::Utf8(Some("+inf".to_string()));
    assert_eq!(
        settle_cast(None, null(), &infinite, &ValueType::Float64, true),
        Some(Scalar::Float64(bits(f64::INFINITY)))
    );
    assert_eq!(settle_cast(None, null(), &other, &ValueType::Float64, true), null());
    assert_eq!(settle_cast(None, null(), &other, &ValueType::Float64, false), None);
    assert_eq!(
        settle_cast(Some(Scalar::Float64(bits(1.0))), null(), &infinite, &ValueType::Float64, true),
        Some(Scalar::Float64(bits(1.0)))
    );
}

#[test]
fn casts_are_made_by_datafusion() {
    let string = |value: &str| Scalar::Utf8(Some(value.to_string()));
    let dictionary = |key, value| {
        Scalar::Other(ScalarValue::Dictionary(Box::new(key), Box::new(value)))
    };
    for (value, target, expected) in [
        (string("7"), ValueType::Int8, Some(Scalar::Int8(Some(7)))),
        (string("x"), ValueType::Int8, None),
        (Scalar::Boolean(Some(true)), ValueType::UInt16, Some(Scalar::UInt16(Some(1)))),
        (Scalar::Null, ValueType::UInt32, Some(Scalar::UInt32(None))),
        (Scalar::UInt64(Some(9)), ValueType::Int16, Some(Scalar::Int16(Some(9)))),
        (Scalar::Int16(Some(-9)), ValueType::UInt8, None),
        (Scalar::Float32(Some(2.5_f32.to_bits())), ValueType::Int32, Some(Scalar::Int32(Some(2)))),
        (Scalar::Int64(Some(5)), ValueType::Utf8, Some(string("5"))),
        (
            Scalar::Utf8View(Some("5".to_string())),
            ValueType::LargeUtf8,
            Some(Scalar::LargeUtf8(Some("5".to_string()))),
        ),
        (
            Scalar::LargeUtf8(Some("5".to_string())),
            ValueType::Utf8View,
            Some(Scalar::Utf8View(Some("5".to_string()))),
        ),
        (Scalar::Float64(bits(1.0)), ValueType::Boolean, Some(Scalar::Boolean(Some(true)))),
        (Scalar::Float16(Some(0x3c00)), ValueType::UInt64, Some(Scalar::UInt64(Some(1)))),
        // Decimal numbers.
        (
            Scalar::Decimal128(Some(15), 2, 1),
            ValueType::Float64,
            Some(Scalar::Float64(bits(1.5))),
        ),
        (Scalar::Decimal128(Some(15), 2, 1), ValueType::Int64, Some(Scalar::Int64(Some(1)))),
        (Scalar::Decimal128(Some(15), 2, 1), ValueType::Utf8, Some(string("1.5"))),
        (
            Scalar::Decimal128(Some(15), 2, 1),
            ValueType::Decimal128(5, 3),
            Some(Scalar::Decimal128(Some(1500), 5, 3)),
        ),
        (Scalar::Decimal128(Some(15), 2, 1), ValueType::Decimal128(2, 2), None),
        (Scalar::Decimal128(Some(15), 1, 2), ValueType::Float64, None),
        (
            string("-2.25"),
            ValueType::Decimal128(10, 2),
            Some(Scalar::Decimal128(Some(-225), 10, 2)),
        ),
        (
            Scalar::Float64(bits(0.25)),
            ValueType::Decimal128(10, 2),
            Some(Scalar::Decimal128(Some(25), 10, 2)),
        ),
        (Scalar::Int8(Some(7)), ValueType::Decimal128(0, 0), None),
        (Scalar::Int8(Some(7)), ValueType::Decimal128(255, 127), None),
        (Scalar::Null, ValueType::Decimal128(5, 2), Some(Scalar::Decimal128(None, 5, 2))),
        (
            Scalar::Other(ScalarValue::Decimal64(Some(250), 5, 2)),
            ValueType::Float32,
            Some(single(2.5)),
        ),
        (
            Scalar::Other(ScalarValue::Decimal32(None, 200, -100)),
            ValueType::Int8,
            None,
        ),
        // Dates and instants.
        (
            Scalar::Other(ScalarValue::Date32(Some(3))),
            ValueType::Int32,
            Some(Scalar::Int32(Some(3))),
        ),
        (Scalar::Other(ScalarValue::Date32(Some(3))), ValueType::Float64, None),
        (
            Scalar::Other(ScalarValue::TimestampSecond(Some(3), Some("no zone".into()))),
            ValueType::Float64,
            Some(Scalar::Float64(bits(3.0))),
        ),
        // Entries of dictionaries.
        (
            dictionary(DataType::Int32, ScalarValue::Utf8(Some("1.5".to_string()))),
            ValueType::Float64,
            Some(Scalar::Float64(bits(1.5))),
        ),
        (
            dictionary(DataType::UInt8, ScalarValue::Null),
            ValueType::Int16,
            Some(Scalar::Int16(None)),
        ),
    ] {
        assert_eq!(cast_to(&value, &target), Some(expected), "{value:?} {target:?}");
    }
    assert_eq!(null_of(&ValueType::Float16), Some(Scalar::Float16(None)));
    assert_eq!(null_of(&ValueType::Boolean), Some(Scalar::Boolean(None)));
    assert_eq!(null_of(&ValueType::Null), Some(Scalar::Null));
    assert_eq!(null_of(&ValueType::LargeUtf8), Some(Scalar::LargeUtf8(None)));
    assert_eq!(null_of(&ValueType::Decimal128(5, 2)), Some(Scalar::Decimal128(None, 5, 2)));
    assert_eq!(
        null_of(&ValueType::Other(DataType::Date32)),
        Some(Scalar::Other(ScalarValue::Date32(None)))
    );
    assert_eq!(null_of(&ValueType::Other(DataType::Int8)), Some(Scalar::Int8(None)));
    assert_eq!(
        null_of(&ValueType::FixedSizeBinary(3)),
        Some(Scalar::Other(ScalarValue::FixedSizeBinary(3, None)))
    );
    assert_eq!(
        null_of(&ValueType::Other(DataType::Dictionary(
            Box::new(DataType::Int8),
            Box::new(DataType::Utf8)
        ))),
        Some(Scalar::Other(ScalarValue::Dictionary(
            Box::new(DataType::Int8),
            Box::new(ScalarValue::Utf8(None))
        )))
    );
    assert_eq!(null_of(&ValueType::FixedSizeList(Box::new(ValueType::Int8), 2)), None);
}

#[test]
fn casts_that_could_panic_are_not_made() {
    let dictionary = |key, value| {
        Scalar::Other(ScalarValue::Dictionary(Box::new(key), Box::new(value)))
    };
    let bytes = |size| Scalar::Other(ScalarValue::FixedSizeBinary(size, Some(vec![1, 2])));
    let item = || Arc::new(ArrowField::new("item", DataType::Int8, true));
    for (value, target) in [
        // A dictionary has to have integer keys.
        (dictionary(DataType::Utf8, ScalarValue::Int8(Some(1))), ValueType::Float64),
        (
            dictionary(
                DataType::Int8,
                ScalarValue::Dictionary(
                    Box::new(DataType::Utf8),
                    Box::new(ScalarValue::Int8(Some(1))),
                ),
            ),
            ValueType::Float64,
        ),
        // Bytes have to be as many as their type says.
        (bytes(3), ValueType::Float64),
        // The size of a list cannot be negative.
        (Scalar::Null, ValueType::FixedSizeList(Box::new(ValueType::Int8), -1)),
        (Scalar::Null, ValueType::Other(DataType::FixedSizeList(item(), -1))),
        (Scalar::Null, ValueType::FixedSizeBinary(-1)),
        (
            Scalar::Other(ScalarValue::Binary(Some(vec![1]))),
            ValueType::Other(DataType::FixedSizeBinary(-1)),
        ),
        // Digits and scales must not add up to too much.
        (Scalar::Decimal128(Some(1), 5, -128), ValueType::Decimal128(5, 2)),
        (Scalar::Decimal128(None, 127, 1), ValueType::Decimal128(5, 38)),
        (Scalar::Decimal128(None, 5, 127), ValueType::Decimal128(5, -2)),
        (Scalar::Decimal128(Some(1), 5, 2), ValueType::Decimal128(5, 127)),
        // A narrower decimal type cannot be trusted with more digits than the
        // literal says it has.
        (
            Scalar::Decimal128(Some(10_i128.pow(30)), 5, 0),
            ValueType::Other(DataType::Decimal32(9, 0)),
        ),
        // An instant must not leave the range of dates with its time zone.
        (
            Scalar::Other(ScalarValue::TimestampSecond(
                Some(8_210_266_876_799),
                Some("+05:30".into()),
            )),
            ValueType::Other(DataType::Date32),
        ),
        (
            Scalar::Other(ScalarValue::TimestampSecond(Some(8_210_266_876_799), None)),
            ValueType::Other(DataType::Timestamp(TimeUnit::Second, Some("-05:30".into()))),
        ),
        // Nor a time of day 64 bits in a finer unit.
        (
            Scalar::Other(ScalarValue::Time64Microsecond(Some(i64::MAX))),
            ValueType::Other(DataType::Time64(TimeUnit::Nanosecond)),
        ),
        (
            dictionary(DataType::Int8, ScalarValue::Date64(Some(i64::MAX))),
            ValueType::Other(DataType::Timestamp(TimeUnit::Nanosecond, None)),
        ),
        // What has not been looked into.
        (Scalar::Int32(Some(3)), ValueType::Other(DataType::Struct(vec![item()].into()))),
    ] {
        assert_eq!(cast_to(&value, &target), None, "{value:?} {target:?}");
        for is_try in [false, true] {
            assert_eq!(fold_cast(&value, &target, is_try), None);
        }
        assert_eq!(extract_literal(&try_cast(lit(value), target)), None);
    }
}

fn outside(value: &Scalar) -> ScalarValue {
    match value {
        Scalar::Null => ScalarValue::Null,
        Scalar::Boolean(v) => ScalarValue::Boolean(*v),
        Scalar::Float16(v) => ScalarValue::Float16(v.map(half::f16::from_bits)),
        Scalar::Float32(v) => ScalarValue::Float32(v.map(f32::from_bits)),
        Scalar::Float64(v) => ScalarValue::Float64(v.map(f64::from_bits)),
        Scalar::Int8(v) => ScalarValue::Int8(*v),
        Scalar::Int16(v) => ScalarValue::Int16(*v),
        Scalar::Int32(v) => ScalarValue::Int32(*v),
        Scalar::Int64(v) => ScalarValue::Int64(*v),
        Scalar::UInt8(v) => ScalarValue::UInt8(*v),
        Scalar::UInt16(v) => ScalarValue::UInt16(*v),
        Scalar::UInt32(v) => ScalarValue::UInt32(*v),
        Scalar::UInt64(v) => ScalarValue::UInt64(*v),
        Scalar::Utf8(v) => ScalarValue::Utf8(v.clone()),
        Scalar::LargeUtf8(v) => ScalarValue::LargeUtf8(v.clone()),
        Scalar::Utf8View(v) => ScalarValue::Utf8View(v.clone()),
        Scalar::Decimal128(v, precision, scale) => ScalarValue::Decimal128(*v, *precision, *scale),
        Scalar::Other(v) => v.clone(),
    }
}

/// Literals of every kind, the ordinary and the extreme.
fn literals() -> Vec<ScalarValue> {
    let mut values = vec![
        ScalarValue::Null,
        ScalarValue::Boolean(Some(true)),
        ScalarValue::Boolean(None),
        ScalarValue::Float16(Some(half::f16::from_f32(1.5))),
        ScalarValue::Float32(Some(f32::MAX)),
        ScalarValue::Float64(Some(f64::INFINITY)),
        ScalarValue::Float64(Some(-2.5)),
        ScalarValue::Float64(None),
        ScalarValue::Int8(Some(i8::MIN)),
        ScalarValue::Int16(Some(5)),
        ScalarValue::Int32(Some(i32::MIN)),
        ScalarValue::Int32(Some(5)),
        ScalarValue::Int64(Some(i64::MAX)),
        ScalarValue::Int64(Some(i64::MIN)),
        ScalarValue::UInt8(Some(5)),
        ScalarValue::UInt16(Some(5)),
        ScalarValue::UInt32(Some(u32::MAX)),
        ScalarValue::UInt64(Some(u64::MAX)),
        ScalarValue::UInt64(None),
        ScalarValue::Binary(Some(vec![0x31, 0x32])),
        ScalarValue::Binary(None),
        ScalarValue::LargeBinary(Some(vec![0xff])),
        ScalarValue::BinaryView(Some(vec![0x35; 40])),
        ScalarValue::FixedSizeBinary(2, Some(vec![1, 2])),
        ScalarValue::FixedSizeBinary(2, None),
        ScalarValue::try_new_null(&DataType::List(Arc::new(ArrowField::new(
            "item",
            DataType::Int8,
            true,
        ))))
        .unwrap(),
        ScalarValue::Int8(Some(3))
            .cast_to(&DataType::LargeList(Arc::new(ArrowField::new(
                "item",
                DataType::Float64,
                true,
            ))))
            .unwrap(),
        ScalarValue::try_new_null(&DataType::Struct(
            vec![Arc::new(ArrowField::new("a", DataType::Utf8, true))].into(),
        ))
        .unwrap(),
    ];
    for spelling in [
        "",
        "5",
        "-1.5e3",
        "abc",
        "\u{a0}inf",
        "true",
        "2020-01-02",
        "+262143-12-31",
        "-5877641-06-23",
        "9999-12-31T23:59:59.999999999999+23:59",
        "0000-01-01 00:00:00 America/New_York",
        "2020-01-02T03:04:05\u{e9}",
        "12:34:56.789 PM",
        "1 year 2.5 months -3 days 4 hours",
        "99999999999999999999999999999999999999999999999999",
        "1\u{e9}9999999999999999999999999999999999999999999999999",
        "0.00000000000000000000000000000000000000000000000000000000000000000000000000000000001",
    ] {
        values.push(ScalarValue::Utf8(Some(spelling.to_string())));
        values.push(ScalarValue::LargeUtf8(Some(spelling.to_string())));
        values.push(ScalarValue::Utf8View(Some(spelling.to_string())));
    }
    for (digits, precision, scale) in [
        (Some(15), 2, 1),
        (Some(-999_999_999), 9, -128),
        (Some(i32::MAX), 5, 2),
        (Some(1), 0, 0),
        (Some(7), 9, 9),
        (None, 200, 127),
        (None, 127, -128),
    ] {
        values.push(ScalarValue::Decimal32(digits, precision, scale));
        values.push(ScalarValue::Decimal64(digits.map(i64::from), precision, scale));
        values.push(ScalarValue::Decimal128(digits.map(i128::from), precision, scale));
        values.push(ScalarValue::Decimal256(
            digits.map(|v| arrow::datatypes::i256::from_i128(i128::from(v))),
            precision,
            scale,
        ));
    }
    values.push(ScalarValue::Decimal128(Some(i128::MAX), 38, 38));
    values.push(ScalarValue::Decimal128(Some(i128::MIN), 5, 0));
    values.push(ScalarValue::Decimal256(Some(arrow::datatypes::i256::MAX), 76, 10));
    values.push(ScalarValue::Decimal256(Some(arrow::datatypes::i256::MIN), 5, -76));
    for v in [
        Some(0_i64),
        Some(1_577_934_245),
        Some(-8_000_000_000_000),
        Some(8_000_000_000_000_000),
        Some(-8_000_000_000_000_000_000),
        Some(8_210_266_876_799),
        Some(9_223_372_036_854_775),
        Some(i64::MAX),
        Some(i64::MIN),
        None,
    ] {
        let small = v.map(|v| v.clamp(i64::from(i32::MIN), i64::from(i32::MAX)) as i32);
        values.push(ScalarValue::Date32(small));
        values.push(ScalarValue::Date64(v));
        values.push(ScalarValue::Time32Second(small));
        values.push(ScalarValue::Time32Millisecond(small));
        values.push(ScalarValue::Time64Microsecond(v));
        values.push(ScalarValue::Time64Nanosecond(v));
        values.push(ScalarValue::DurationSecond(v));
        values.push(ScalarValue::DurationMillisecond(v));
        values.push(ScalarValue::DurationMicrosecond(v));
        values.push(ScalarValue::DurationNanosecond(v));
        values.push(ScalarValue::IntervalYearMonth(small));
        values.push(ScalarValue::new_interval_dt(small.unwrap_or(1), small.unwrap_or(1)));
        values.push(ScalarValue::new_interval_mdn(
            small.unwrap_or(1),
            small.unwrap_or(1),
            v.unwrap_or(1),
        ));
        for zone in [None, Some("+05:30".into()), Some("Asia/Tokyo".into()), Some("".into())] {
            values.push(ScalarValue::TimestampSecond(v, zone.clone()));
            values.push(ScalarValue::TimestampMillisecond(v, zone.clone()));
            values.push(ScalarValue::TimestampMicrosecond(v, zone.clone()));
            values.push(ScalarValue::TimestampNanosecond(v, zone));
        }
    }
    let entries = values.clone();
    for entry in entries {
        values.push(ScalarValue::Dictionary(Box::new(DataType::UInt8), Box::new(entry)));
    }
    values
}

/// Types of every kind, the ordinary and the extreme.
fn types() -> Vec<DataType> {
    let mut types = vec![
        DataType::Null,
        DataType::Boolean,
        DataType::Int8,
        DataType::Int16,
        DataType::Int32,
        DataType::Int64,
        DataType::UInt8,
        DataType::UInt16,
        DataType::UInt32,
        DataType::UInt64,
        DataType::Float16,
        DataType::Float32,
        DataType::Float64,
        DataType::Utf8,
        DataType::LargeUtf8,
        DataType::Utf8View,
        DataType::Binary,
        DataType::LargeBinary,
        DataType::BinaryView,
        DataType::FixedSizeBinary(2),
        DataType::FixedSizeBinary(0),
        DataType::FixedSizeBinary(-1),
        DataType::Date32,
        DataType::Date64,
        DataType::Interval(IntervalUnit::YearMonth),
        DataType::Interval(IntervalUnit::DayTime),
        DataType::Interval(IntervalUnit::MonthDayNano),
    ];
    for (precision, scale) in [(5, 2), (9, 9), (38, 0), (76, 40), (0, 0), (255, 127), (5, -128)] {
        types.push(DataType::Decimal32(precision, scale));
        types.push(DataType::Decimal64(precision, scale));
        types.push(DataType::Decimal128(precision, scale));
        types.push(DataType::Decimal256(precision, scale));
    }
    for unit in
        [TimeUnit::Second, TimeUnit::Millisecond, TimeUnit::Microsecond, TimeUnit::Nanosecond]
    {
        types.push(DataType::Time32(unit));
        types.push(DataType::Time64(unit));
        types.push(DataType::Duration(unit));
        types.push(DataType::Timestamp(unit, None));
        types.push(DataType::Timestamp(unit, Some("-08:00".into())));
        types.push(DataType::Timestamp(unit, Some("Europe/Paris".into())));
        types.push(DataType::Timestamp(unit, Some("nowhere".into())));
    }
    let items = types.clone();
    for item in items {
        let field = |nullable| Arc::new(ArrowField::new("item", item.clone(), nullable));
        types.push(DataType::List(field(true)));
        types.push(DataType::LargeList(field(false)));
        types.push(DataType::FixedSizeList(field(true), -1));
        types.push(DataType::Dictionary(Box::new(DataType::Int8), Box::new(item.clone())));
        types.push(DataType::Dictionary(Box::new(DataType::Utf8), Box::new(item)));
    }
    types
}

#[test]
fn every_cast_that_is_made_is_datafusions() {
    let mut made: usize = 0;
    for value in literals() {
        for target in types() {
            let literal = Scalar::Other(value.clone());
            let cast = cast_to(&literal, &ValueType::Other(target.clone()));
            let Some(cast) = cast else { continue };
            made += 1;
            let expected = value.cast_to(&target).ok();
            assert_eq!(
                cast.as_ref().map(outside),
                expected,
                "{value:?} {target:?}"
            );
            assert!(null_of(&ValueType::Other(target)).is_some());
        }
    }
    assert!(made > 20_000, "{made}");
}

#[test]
fn chains_of_casts_fold() {
    let double = |expr| cast(expr, ValueType::Float64);
    let other = |expr, target| cast(expr, ValueType::Other(target));
    let seconds = DataType::Timestamp(TimeUnit::Second, None);
    let five = || lit(Scalar::Int64(Some(5)));
    let range = |low| try_rewrite_between_expr(&col("i"), &low, &lit_double(9.5), false, &schema());
    let between = |low| {
        Some(Expr::Between {
            expr: Box::new(col("i")),
            negated: false,
            low: Box::new(lit(Scalar::Int64(Some(low)))),
            high: Box::new(lit(Scalar::Int64(Some(9)))),
        })
    };
    assert_eq!(range(double(other(five(), seconds.clone()))), between(5));
    assert_eq!(
        range(double(other(text("1970-01-01T00:00:05"), seconds.clone()))),
        between(5)
    );
    assert_eq!(
        range(double(other(text("4.5"), DataType::Decimal256(50, 2)))),
        between(5)
    );
    assert_eq!(
        range(double(other(
            text("4.5"),
            DataType::Dictionary(Box::new(DataType::Int8), Box::new(DataType::Utf8))
        ))),
        between(5)
    );
    // Over dates and instants with a time zone.
    let zoned = DataType::Timestamp(TimeUnit::Second, Some("+00:01".into()));
    let local = |expr| other(other(expr, seconds.clone()), zoned.clone());
    assert_eq!(range(double(local(lit(Scalar::Int64(Some(65)))))), between(5));
    assert_eq!(
        range(double(cast(
            other(
                other(lit(Scalar::Int64(Some(-55))), zoned.clone()),
                DataType::Time32(TimeUnit::Second)
            ),
            ValueType::Int32
        ))),
        between(5)
    );
    assert_eq!(
        range(double(cast(
            other(
                other(lit(Scalar::Int64(Some(432_000))), zoned.clone()),
                DataType::Date32
            ),
            ValueType::Int32
        ))),
        between(5)
    );
    let date = |expr| cast(other(expr, DataType::Date32), ValueType::Int32);
    assert_eq!(range(double(date(text("1970-01-06")))), between(5));
    assert_eq!(range(double(date(lit(Scalar::Int32(Some(5)))))), between(5));
    // Over a single precision column too.
    assert_eq!(
        try_rewrite_between_expr(
            &col("x"),
            &double(other(five(), seconds)),
            &lit_double(9.5),
            false,
            &schema()
        ),
        Some(Expr::Between {
            expr: Box::new(col("x")),
            negated: false,
            low: Box::new(lit(single(5.0))),
            high: Box::new(lit(single(9.5))),
        })
    );
    // A cast that fails is a null where it may fail.
    let bytes = || lit(Scalar::Other(ScalarValue::Binary(Some(vec![1]))));
    assert_eq!(extract_literal(&double(bytes())), None);
    assert_eq!(
        extract_literal(&try_cast(bytes(), ValueType::Float64)),
        Some((Scalar::Float64(None), true))
    );
    assert_eq!(
        try_rewrite_in_list_expr(
            &col("i"),
            &[lit_double(1.0), try_cast(bytes(), ValueType::Float64)],
            false,
            &schema()
        ),
        Some(Expr::InList {
            expr: Box::new(col("i")),
            list: vec![lit(Scalar::Int64(Some(1))), lit(Scalar::Int64(None))],
            negated: false,
        })
    );
    assert_eq!(
        fold_cast(
            &Scalar::Utf8(Some("no date".to_string())),
            &ValueType::Other(DataType::Date32),
            true
        ),
        Some(Scalar::Other(ScalarValue::Date32(None)))
    );
}

fn lit_double(value: f64) -> Expr {
    double(value)
}

#[test]
fn numbers_are_negated() {
    assert_eq!(negate_scalar(&Scalar::Int8(Some(5))), Some(Scalar::Int8(Some(-5))));
    assert_eq!(negate_scalar(&Scalar::Int8(Some(i8::MIN))), None);
    assert_eq!(negate_scalar(&Scalar::Int64(None)), Some(Scalar::Int64(None)));
    assert_eq!(
        negate_scalar(&Scalar::Float64(bits(0.0))),
        Some(Scalar::Float64(bits(-0.0)))
    );
    assert_eq!(negate_scalar(&single(-2.5)), Some(single(2.5)));
    assert_eq!(negate_scalar(&Scalar::UInt8(Some(5))), None);
    assert_eq!(negate_scalar(&Scalar::Utf8(None)), None);
}

#[test]
fn integer_types_have_bounds() {
    assert_eq!(int_bounds(&ValueType::Int8), Some((-128, 128)));
    assert_eq!(int_bounds(&ValueType::UInt64), Some((0, 1 << 64)));
    assert_eq!(int_bounds(&ValueType::Float32), None);
    assert!(is_integer_type(&ValueType::UInt16));
    assert!(!is_integer_type(&ValueType::Float16));
    assert!(is_float_type(&ValueType::Float16));
    assert!(!is_float_type(&ValueType::Utf8));
    assert_eq!(
        make_int_literal(&ValueType::UInt8, 255),
        Some(Scalar::UInt8(Some(255)))
    );
    assert_eq!(make_int_literal(&ValueType::Float64, 1), None);
}

#[test]
fn columns_are_picked_by_index() {
    let picked = schema().project(&vec![2, 0, 2]).unwrap();
    let names: Vec<&str> = picked.fields.iter().map(|field| field.name.as_str()).collect();
    assert_eq!(names, ["name", "i", "name"]);
    let error = schema().project(&vec![0, 3, 9]).unwrap_err();
    assert_eq!(error, ProjectionError { index: 3, fields: 3 });
    assert_eq!(error.message(), "project index 3 out of bounds, max field 3");
    assert_eq!(
        batch_schema().project(&[7]).unwrap_err().to_string(),
        format!(
            "Schema error: {}",
            ProjectionError { index: 7, fields: 2 }.message()
        )
    );
}

#[test]
fn a_rewritten_comparison_is_not_rewritten_again() {
    for number in [-1e30, -1.5, 0.0, 1.5, 1e30, f64::NAN] {
        for op in [Operator::Eq, Operator::NotEq, Operator::Lt, Operator::GtEq] {
            match rewritten(col("i"), op, double(number)) {
                Expr::BinaryExpr { left, op, right } => {
                    assert_eq!(rewrite_binary(&left, op, &right, &schema()), None);
                }
                other => panic!("unexpected expression {other:?}"),
            }
        }
    }
}
