//! Rendering of filters as SQL.

use datafusion_common::ScalarValue;
use sail_lance::expr::{Column, Expr, Operator};
use sail_lance::filter::{
    combine_lance_filters, render_float, render_identifier, render_literal, render_operator,
    render_string, to_lance_filter,
};
use sail_lance::scalar::Scalar;
use sail_lance::value_type::ValueType;

fn col(name: &str) -> Expr {
    Expr::Column(Column { qualifier: vec![], name: name.to_string() })
}

fn lit(value: Scalar) -> Expr {
    Expr::Literal(value)
}

fn integer(value: i64) -> Expr {
    lit(Scalar::Int64(Some(value)))
}

fn double(value: f64) -> Expr {
    lit(Scalar::Float64(Some(value.to_bits())))
}

fn text(value: &str) -> Expr {
    lit(Scalar::Utf8(Some(value.to_string())))
}

fn binary(left: Expr, op: Operator, right: Expr) -> Expr {
    Expr::BinaryExpr { left: Box::new(left), op, right: Box::new(right) }
}

fn like(negated: bool, case_insensitive: bool, escape_char: Option<char>) -> Expr {
    Expr::Like {
        negated,
        expr: Box::new(col("name")),
        pattern: Box::new(text("lan%")),
        escape_char,
        case_insensitive,
    }
}

fn rendered(expr: &Expr) -> String {
    match to_lance_filter(expr) {
        Some(filter) => filter,
        None => panic!("not rendered: {expr:?}"),
    }
}

#[test]
fn comparisons_and_conjunctions_are_rendered() {
    let expr = binary(
        binary(col("id"), Operator::Gt, integer(3)),
        Operator::And,
        binary(col("name"), Operator::Eq, text("lance")),
    );
    assert_eq!(
        to_lance_filter(&expr).as_deref(),
        Some("((id > 3) AND (name = 'lance'))")
    );
}

#[test]
fn null_checks_in_lists_and_patterns_are_rendered() {
    assert_eq!(
        to_lance_filter(&Expr::IsNull(Box::new(col("id")))).as_deref(),
        Some("(id IS NULL)")
    );
    assert_eq!(
        to_lance_filter(&Expr::InList {
            expr: Box::new(col("id")),
            list: vec![integer(1), integer(2)],
            negated: true,
        })
        .as_deref(),
        Some("(id NOT IN (1, 2))")
    );
    assert_eq!(
        to_lance_filter(&like(false, false, None)).as_deref(),
        Some("(name LIKE 'lan%')")
    );
}

#[test]
fn string_literals_are_escaped() {
    assert_eq!(
        to_lance_filter(&binary(col("name"), Operator::Eq, text("o'brien"))).as_deref(),
        Some("(name = 'o''brien')")
    );
}

#[test]
fn float_literals_keep_their_type() {
    assert_eq!(
        to_lance_filter(&binary(col("score"), Operator::Gt, double(1.0))).as_deref(),
        Some("(score > 1.0)")
    );
    assert_eq!(
        to_lance_filter(&binary(col("score"), Operator::Gt, double(f64::NAN))),
        None,
        "a literal that has no SQL spelling must not be pushed down"
    );
}

#[test]
fn unsupported_expressions_stay_with_datafusion() {
    let timestamp = binary(
        col("at"),
        Operator::Gt,
        lit(Scalar::Other(ScalarValue::TimestampMicrosecond(Some(0), None))),
    );
    assert_eq!(to_lance_filter(&timestamp), None);
    let unknown = binary(
        binary(col("id"), Operator::Eq, integer(1)),
        Operator::Or,
        Expr::Other { id: 0, field_type: None },
    );
    assert_eq!(to_lance_filter(&unknown), None);
}

#[test]
fn identifiers_that_need_quoting_are_not_pushed_down() {
    let quoted = col("with space");
    assert_eq!(to_lance_filter(&binary(quoted, Operator::Eq, integer(1))), None);
}

#[test]
fn filters_are_combined_with_and() {
    assert_eq!(combine_lance_filters(&[]), None);
    assert_eq!(
        combine_lance_filters(&["(a = 1)".to_string()]).as_deref(),
        Some("(a = 1)")
    );
    assert_eq!(
        combine_lance_filters(&["(a = 1)".to_string(), "(b = 2)".to_string()]).as_deref(),
        Some("(a = 1) AND (b = 2)")
    );
}

#[test]
fn three_filters_are_combined_in_order() {
    let filters = ["a".to_string(), String::new(), "c".to_string()];
    assert_eq!(combine_lance_filters(&filters), Some(filters.join(" AND ")));
}

#[test]
fn every_predicate_has_its_spelling() {
    let id = || Box::new(col("id"));
    assert_eq!(rendered(&Expr::Not(id())), "(NOT id)");
    assert_eq!(rendered(&Expr::Negative(id())), "(- id)");
    assert_eq!(rendered(&Expr::IsNotNull(id())), "(id IS NOT NULL)");
    assert_eq!(rendered(&Expr::IsTrue(id())), "(id IS TRUE)");
    assert_eq!(rendered(&Expr::IsFalse(id())), "(id IS FALSE)");
    assert_eq!(rendered(&Expr::IsNotTrue(id())), "(id IS NOT TRUE)");
    assert_eq!(rendered(&Expr::IsNotFalse(id())), "(id IS NOT FALSE)");
    let between = |negated| Expr::Between {
        expr: id(),
        negated,
        low: Box::new(integer(-1)),
        high: Box::new(integer(9)),
    };
    assert_eq!(rendered(&between(false)), "(id BETWEEN -1 AND 9)");
    assert_eq!(rendered(&between(true)), "(id NOT BETWEEN -1 AND 9)");
    let in_list = |list| Expr::InList { expr: id(), list, negated: false };
    assert_eq!(rendered(&in_list(vec![])), "(id IN ())");
    assert_eq!(rendered(&in_list(vec![integer(1)])), "(id IN (1))");
    assert_eq!(
        rendered(&in_list(vec![integer(1), text("b"), lit(Scalar::Null)])),
        "(id IN (1, 'b', NULL))"
    );
    assert_eq!(rendered(&like(true, false, None)), "(name NOT LIKE 'lan%')");
    assert_eq!(rendered(&like(false, true, None)), "(name ILIKE 'lan%')");
    assert_eq!(rendered(&like(true, true, None)), "(name NOT ILIKE 'lan%')");
    assert_eq!(to_lance_filter(&like(false, false, Some('!'))), None);
}

#[test]
fn a_part_without_a_spelling_spoils_the_whole() {
    let bad = || Box::new(col("with space"));
    let good = || Box::new(col("id"));
    for expr in [
        Expr::Not(bad()),
        Expr::IsNull(bad()),
        binary(*bad(), Operator::Eq, *good()),
        binary(*good(), Operator::Eq, *bad()),
        binary(*good(), Operator::StringConcat, *good()),
        Expr::Between { expr: good(), negated: false, low: bad(), high: good() },
        Expr::Between { expr: good(), negated: false, low: good(), high: bad() },
        Expr::InList { expr: good(), list: vec![integer(1), *bad()], negated: false },
        Expr::InList { expr: bad(), list: vec![integer(1)], negated: false },
        Expr::Cast { expr: good(), target: ValueType::Int64 },
        Expr::TryCast { expr: good(), target: ValueType::Int64 },
    ] {
        assert_eq!(to_lance_filter(&expr), None, "{expr:?}");
    }
}

#[test]
fn qualifiers_are_left_out() {
    let column = Expr::Column(Column {
        qualifier: vec!["catalog".to_string(), "table".to_string()],
        name: "id".to_string(),
    });
    assert_eq!(rendered(&column), "id");
}

#[test]
fn identifiers_are_ascii_words() {
    for name in ["a", "_", "Z9", "a_b_1", "__x", "SELECT"] {
        assert_eq!(render_identifier(name).as_deref(), Some(name));
    }
    for name in ["", "9a", "a b", "a-b", "a.b", "\u{e9}", "a\u{e9}", "a'b", "a\"b", "@", "[", "`", "{"] {
        assert_eq!(render_identifier(name), None, "{name:?}");
    }
}

#[test]
fn strings_read_back() {
    for (value, literal) in [
        ("", "''"),
        ("'", "''''"),
        ("''", "''''''"),
        ("a'b'c", "'a''b''c'"),
        ("\u{1f980} \\ \n", "'\u{1f980} \\ \n'"),
    ] {
        assert_eq!(render_string(value), literal);
        assert_eq!(literal[1..literal.len() - 1].replace("''", "'"), value);
    }
}

#[test]
fn literals_have_their_spelling() {
    for (value, literal) in [
        (Scalar::Null, "NULL"),
        (Scalar::Boolean(Some(true)), "true"),
        (Scalar::Boolean(Some(false)), "false"),
        (Scalar::Int8(Some(i8::MIN)), "-128"),
        (Scalar::Int16(Some(-300)), "-300"),
        (Scalar::Int32(Some(0)), "0"),
        (Scalar::Int64(Some(i64::MIN)), "-9223372036854775808"),
        (Scalar::UInt8(Some(10)), "10"),
        (Scalar::UInt16(Some(65535)), "65535"),
        (Scalar::UInt32(Some(1)), "1"),
        (Scalar::UInt64(Some(u64::MAX)), "18446744073709551615"),
        (Scalar::Utf8(Some("x".to_string())), "'x'"),
        (Scalar::LargeUtf8(Some("y".to_string())), "'y'"),
        (Scalar::Utf8View(Some("z".to_string())), "'z'"),
        (Scalar::Boolean(None), "NULL"),
        (Scalar::Int8(None), "NULL"),
        (Scalar::Int16(None), "NULL"),
        (Scalar::Int32(None), "NULL"),
        (Scalar::Int64(None), "NULL"),
        (Scalar::UInt8(None), "NULL"),
        (Scalar::UInt16(None), "NULL"),
        (Scalar::UInt32(None), "NULL"),
        (Scalar::UInt64(None), "NULL"),
        (Scalar::Float32(None), "NULL"),
        (Scalar::Float64(None), "NULL"),
        (Scalar::Utf8(None), "NULL"),
        (Scalar::LargeUtf8(None), "NULL"),
        (Scalar::Utf8View(None), "NULL"),
    ] {
        assert_eq!(render_literal(&value).as_deref(), Some(literal), "{value:?}");
    }
    assert_eq!(render_literal(&Scalar::Float16(None)), None);
    assert_eq!(render_literal(&Scalar::Float16(Some(0x3c00))), None);
    assert_eq!(render_literal(&Scalar::Other(ScalarValue::Date32(Some(1)))), None);
    assert_eq!(render_literal(&Scalar::Decimal128(Some(15), 2, 1)), None);
    assert_eq!(render_literal(&Scalar::Decimal128(None, 2, 1)), None);
}

#[test]
fn floats_have_their_spelling() {
    let special = |value: f64| {
        if value.fract() == 0.0 {
            format!("{value:.1}")
        } else {
            value.to_string()
        }
    };
    for value in [
        0.0,
        -0.0,
        1.0,
        -1.0,
        0.5,
        -2.5,
        0.1,
        1e-300,
        123456.789,
        1e15,
        1e16,
        1e22,
        1.7976931348623157e308,
        -1e300,
        9007199254740993.0,
        4503599627370497.5,
        5e-324,
        f64::MIN_POSITIVE,
        std::f64::consts::PI,
    ] {
        assert_eq!(render_float(value.to_bits()), Some(special(value)), "{value}");
    }
    assert_eq!(render_float(0.1_f64.to_bits()).as_deref(), Some("0.1"));
    assert_eq!(render_float((-0.0_f64).to_bits()).as_deref(), Some("-0.0"));
    assert_eq!(
        render_float(1e23_f64.to_bits()).as_deref(),
        Some("99999999999999991611392.0")
    );
    for value in [f64::NAN, -f64::NAN, f64::INFINITY, f64::NEG_INFINITY] {
        assert_eq!(render_float(value.to_bits()), None);
    }
    // A single is spelled as the double of the same value.
    let single = |value: f32| render_literal(&Scalar::Float32(Some(value.to_bits())));
    assert_eq!(single(0.1).as_deref(), Some("0.10000000149011612"));
    assert_eq!(single(2.0).as_deref(), Some("2.0"));
    assert_eq!(single(f32::INFINITY), None);
}

#[test]
fn fractions_are_spelled_without_an_exponent() {
    for value in [0.1, -2.5, 1e-300, 5e-324, -5e-324, f64::MIN_POSITIVE, 4503599627370495.5] {
        let text = render_float(value.to_bits()).unwrap();
        let digits = text.strip_prefix('-').unwrap_or(&text);
        let (whole, fraction) = digits.split_once('.').unwrap();
        for part in [whole, fraction] {
            assert!(!part.is_empty(), "{text}");
            assert!(part.chars().all(|c| c.is_ascii_digit()), "{text}");
        }
        assert_eq!(text.parse(), Ok(value));
    }
}

#[test]
fn operators_have_their_spelling() {
    for (op, spelling) in [
        (Operator::Eq, "="),
        (Operator::NotEq, "!="),
        (Operator::Lt, "<"),
        (Operator::LtEq, "<="),
        (Operator::Gt, ">"),
        (Operator::GtEq, ">="),
        (Operator::And, "AND"),
        (Operator::Or, "OR"),
        (Operator::Plus, "+"),
        (Operator::Minus, "-"),
        (Operator::Multiply, "*"),
        (Operator::Divide, "/"),
        (Operator::Modulo, "%"),
    ] {
        assert_eq!(render_operator(op), Some(spelling));
    }
    assert_eq!(render_operator(Operator::IsDistinctFrom), None);
    assert_eq!(render_operator(Operator::RegexMatch), None);
}

#[test]
fn different_filters_have_different_sql() {
    let not = || Box::new(col("NOT"));
    let id = || Box::new(col("id"));
    let list = |items: Vec<Expr>| Expr::InList { expr: id(), list: items, negated: false };
    let exprs = [
        Expr::Not(id()),
        Expr::Not(Box::new(Expr::Negative(id()))),
        binary(*not(), Operator::Minus, *id()),
        Expr::Negative(id()),
        Expr::Negative(Box::new(integer(5))),
        integer(-5),
        double(-5.0),
        text("-5"),
        text("(id IS NULL)"),
        Expr::IsNull(id()),
        Expr::IsNull(not()),
        Expr::Not(Box::new(col("IS"))),
        binary(*id(), Operator::And, binary(*id(), Operator::Or, *not())),
        binary(binary(*id(), Operator::And, *id()), Operator::Or, *not()),
        list(vec![]),
        list(vec![text("a, b")]),
        list(vec![text("a"), text("b")]),
        list(vec![text("a', 'b")]),
        Expr::Between {
            expr: id(),
            negated: false,
            low: id(),
            high: Box::new(binary(*id(), Operator::And, *id())),
        },
        binary(
            Expr::Between { expr: id(), negated: false, low: id(), high: id() },
            Operator::And,
            *id(),
        ),
    ];
    for (i, a) in exprs.iter().enumerate() {
        for b in &exprs[i + 1..] {
            assert_ne!(rendered(a), rendered(b), "{a:?} {b:?}");
        }
    }
}
