//! What predicates say of a row, and the laws of the rewrites.
//!
//! A row gives the column a number or a null; a predicate is true, false or
//! null of a row, as in SQL. Numbers are compared by what they are worth, with
//! no rounding. A comparison with a NaN is false, and `!=` is true.

use crate::cast;
use crate::expr::{ExprView, Operator};
use crate::float::{self, Worth};
use crate::literal;
use crate::numeric_coercion::{self as rewrite, Bound};
use crate::scalar::{Scalar, ScalarView};
use crate::schema::Schema;
use crate::special;
use crate::value_type::ValueType;
use vstd::arithmetic::div_mod::*;
use vstd::arithmetic::mul::*;
use vstd::arithmetic::power2::*;
use vstd::prelude::*;

verus! {

/// The worth of an integer.
pub open spec fn integer_worth(value: int) -> Worth {
    Worth::Finite(value * one_int())
}

/// How many units make the number one.
pub open spec fn one_int() -> int {
    float::one() as int
}

/// Whether one number is less than another. A NaN is not, and nothing is less
/// than it.
pub open spec fn less(a: Worth, b: Worth) -> bool {
    match (a, b) {
        (Worth::Nan, _) | (_, Worth::Nan) => false,
        (Worth::NegInfinity, _) => !(b is NegInfinity),
        (_, Worth::Infinity) => !(a is Infinity),
        (Worth::Finite(x), Worth::Finite(y)) => x < y,
        _ => false,
    }
}

/// Whether two numbers are equal. A NaN equals nothing.
pub open spec fn same(a: Worth, b: Worth) -> bool {
    a == b && !(a is Nan)
}

/// Whether a comparison holds of two numbers.
pub open spec fn holds(a: Worth, op: Operator, b: Worth) -> bool {
    match op {
        Operator::Eq => same(a, b),
        Operator::NotEq => !same(a, b),
        Operator::Lt => less(a, b),
        Operator::LtEq => less(a, b) || same(a, b),
        Operator::Gt => less(b, a),
        Operator::GtEq => less(b, a) || same(a, b),
        _ => false,
    }
}

/// What a comparison says of two numbers, either of which may be null.
pub open spec fn compared(a: Option<Worth>, op: Operator, b: Option<Worth>) -> Option<bool> {
    match (a, b) {
        (Some(x), Some(y)) => Some(holds(x, op, y)),
        _ => None,
    }
}

/// Conjunction, with null for unknown.
pub open spec fn both(a: Option<bool>, b: Option<bool>) -> Option<bool> {
    if a == Some(false) || b == Some(false) {
        Some(false)
    } else if a is None || b is None {
        None
    } else {
        Some(true)
    }
}

/// Disjunction, with null for unknown.
pub open spec fn either(a: Option<bool>, b: Option<bool>) -> Option<bool> {
    if a == Some(true) || b == Some(true) {
        Some(true)
    } else if a is None || b is None {
        None
    } else {
        Some(false)
    }
}

/// Negation, if asked for, with null for unknown.
pub open spec fn negated_if(negate: bool, a: Option<bool>) -> Option<bool> {
    match a {
        Some(truth) => Some(truth != negate),
        None => None,
    }
}

/// What `x [NOT] BETWEEN low AND high` says.
pub open spec fn within(
    x: Option<Worth>,
    low: Option<Worth>,
    high: Option<Worth>,
    negated: bool,
) -> Option<bool> {
    negated_if(negated, both(compared(x, Operator::GtEq, low), compared(x, Operator::LtEq, high)))
}

/// Whether a list has a number that equals `x`.
pub open spec fn has_number(x: Worth, list: Seq<Option<Worth>>) -> bool {
    exists|i: int| 0 <= i < list.len() && is_number(x, #[trigger] list[i])
}

/// Whether an element of a list is a number that equals `x`.
pub open spec fn is_number(x: Worth, element: Option<Worth>) -> bool {
    element matches Some(y) && same(x, y)
}

/// Whether a list has a null.
pub open spec fn has_null(list: Seq<Option<Worth>>) -> bool {
    exists|i: int| 0 <= i < list.len() && #[trigger] list[i] is None
}

/// What `x [NOT] IN (list)` says.
pub open spec fn member(x: Option<Worth>, list: Seq<Option<Worth>>, negated: bool) -> Option<bool> {
    match x {
        None => None,
        Some(x) => negated_if(
            negated,
            if has_number(x, list) {
                Some(true)
            } else if has_null(list) {
                None
            } else {
                Some(false)
            },
        ),
    }
}

/// The number that a literal stands for: a null for a null literal and for a
/// literal that is not a number.
pub open spec fn number_of(value: ScalarView) -> Option<Worth> {
    match literal::float_worth(value) {
        Some(worth) => worth,
        None => match rewrite::integer_value(value) {
            Some(v) => Some(integer_worth(v)),
            None => None,
        },
    }
}

/// The number that an operand stands for in a row that gives the column `col`
/// the number `row`.
pub open spec fn operand(expr: ExprView, col: ExprView, row: Option<Worth>) -> Option<Worth> {
    if expr == col {
        row
    } else {
        match expr {
            ExprView::Literal(value) => number_of(value),
            _ => None,
        }
    }
}

/// The numbers that the elements of a list stand for.
pub open spec fn operands(list: Seq<ExprView>, col: ExprView, row: Option<Worth>) -> Seq<
    Option<Worth>,
> {
    list.map_values(|item: ExprView| operand(item, col, row))
}

/// What a predicate says of a row that gives the column `col` the number `row`.
pub open spec fn says(expr: ExprView, col: ExprView, row: Option<Worth>) -> Option<bool>
    decreases expr,
{
    match expr {
        ExprView::Literal(ScalarView::Boolean(truth)) => truth,
        ExprView::Not(inner) => negated_if(true, says(*inner, col, row)),
        ExprView::IsNull(inner) => Some(operand(*inner, col, row) is None),
        ExprView::IsNotNull(inner) => Some(operand(*inner, col, row) is Some),
        ExprView::BinaryExpr { left, op, right } => if op == Operator::And {
            both(says(*left, col, row), says(*right, col, row))
        } else if op == Operator::Or {
            either(says(*left, col, row), says(*right, col, row))
        } else if op.is_comparison() {
            compared(operand(*left, col, row), op, operand(*right, col, row))
        } else {
            None
        },
        ExprView::Between { expr, negated, low, high } => within(
            operand(*expr, col, row),
            operand(*low, col, row),
            operand(*high, col, row),
            negated,
        ),
        ExprView::InList { expr, list, negated } => member(
            operand(*expr, col, row),
            operands(list, col, row),
            negated,
        ),
        _ => None,
    }
}

/// The number that a row gives an integer column.
pub open spec fn integer_row(row: Option<int>) -> Option<Worth> {
    match row {
        Some(value) => Some(integer_worth(value)),
        None => None,
    }
}

/// Whether an integer column of the type can have the value.
pub open spec fn in_range(value_type: ValueType, row: Option<int>) -> bool {
    row matches Some(value) ==> value_type.least() <= value <= value_type.greatest()
}

/// An integer against a number of units, by the floor of the units.
proof fn lemma_integer_against_units(value: int, units: int)
    ensures
        value * one_int() < units <==> value < float::floor_units(units) || (value
            == float::floor_units(units) && !float::integral_units(units)),
        value * one_int() == units <==> value == float::floor_units(units)
            && float::integral_units(units),
        one_int() > 0,
{
    lemma_pow2_pos(1074);
    let d = one_int();
    let f = units / d;
    let r = units % d;
    lemma_fundamental_div_mod(units, d);
    lemma_mod_bound(units, d);
    assert(units == f * d + r) by {
        lemma_mul_is_commutative(d, f);
    }
    if value < f {
        assert((f - value) * d >= d) by (nonlinear_arith)
            requires
                f - value >= 1,
                d > 0,
        ;
        lemma_mul_is_distributive_sub_other_way(d, f, value);
    } else if value > f {
        assert((value - f) * d >= d) by (nonlinear_arith)
            requires
                value - f >= 1,
                d > 0,
        ;
        lemma_mul_is_distributive_sub_other_way(d, value, f);
    }
}

/// Integers are ordered as their worths are.
proof fn lemma_integers_ordered(a: int, b: int)
    ensures
        less(integer_worth(a), integer_worth(b)) <==> a < b,
        same(integer_worth(a), integer_worth(b)) <==> a == b,
{
    lemma_integer_against_units(a, b * one_int());
    lemma_integer_is_its_floor(b);
}

/// The floor of an integer is the integer.
proof fn lemma_integer_is_its_floor(value: int)
    ensures
        float::floor_units(value * one_int()) == value,
        float::integral_units(value * one_int()),
{
    lemma_pow2_pos(1074);
    lemma_fundamental_div_mod_converse(value * one_int(), one_int(), value, 0);
}

/// The literal of an integer type stands for its value.
proof fn lemma_integer_literal(value_type: ValueType, value: int)
    requires
        value_type.is_integer(),
        value_type.least() <= value <= value_type.greatest(),
    ensures
        number_of(literal::integer_literal(value_type, value)) == Some(integer_worth(value)),
        number_of(rewrite::integer_null(value_type)) is None,
{
}

/// A constant says its truth of every row that is not null, and null of the
/// others.
pub proof fn law_constant_preserves_null(col: ExprView, truth: bool, row: Option<Worth>)
    ensures
        says(rewrite::constant(col, truth), col, row) == match row {
            Some(_) => Some(truth),
            None => None,
        },
{
    reveal_with_fuel(says, 3);
}

/// Comparing an integer column with a floating point literal says of every row
/// exactly what the rewritten comparison says of it: for every comparison,
/// every integer type, every row and every literal, null, infinite and NaN
/// ones among them.
pub proof fn law_int_float_exact(
    col: ExprView,
    value_type: ValueType,
    op: Operator,
    number: Option<Worth>,
    row: Option<int>,
)
    requires
        value_type.is_integer(),
        op.is_comparison(),
        !(col is Literal),
        in_range(value_type, row),
    ensures
        rewrite::rewritten_int_float(col, value_type, op, number) is Some,
        says(
            rewrite::rewritten_int_float(col, value_type, op, number)->0,
            col,
            integer_row(row),
        ) == compared(integer_row(row), op, number),
{
    reveal_with_fuel(says, 3);
    match number {
        None => {},
        Some(worth) => {
            law_constant_preserves_null(col, true, integer_row(row));
            law_constant_preserves_null(col, false, integer_row(row));
            if let Worth::Finite(units) = worth {
                let floor = float::floor_units(units);
                if let Some(value) = row {
                    lemma_integer_against_units(value, units);
                    lemma_integers_ordered(value, floor);
                }
                if value_type.least() <= floor <= value_type.greatest() {
                    lemma_integer_literal(value_type, floor);
                }
            }
        },
    }
}

/// The `Float32` literal of a double that keeps its worth in single precision
/// stands for the same number.
pub proof fn law_single_literal_keeps_number(number: Option<u64>)
    requires
        number matches Some(bits) ==> float::is_exact(bits),
    ensures
        number_of(rewrite::single_literal(number)) == number_of(ScalarView::Float64(number)),
{
    if let Some(bits) = number {
        float::lemma_narrow_keeps_worth(bits);
    }
}

/// Comparing a `Float32` column with a typed double says of every row exactly
/// what the rewritten comparison says of it.
pub proof fn law_float32_double_exact(
    col: ExprView,
    op: Operator,
    value: ScalarView,
    was_cast: bool,
    row: Option<Worth>,
)
    requires
        op.is_comparison(),
        !(col is Literal),
    ensures
        rewrite::rewritten_float32_double(col, op, value, was_cast) matches Some(rewritten) ==> says(
            rewritten,
            col,
            row,
        ) == compared(row, op, number_of(value)),
{
    reveal_with_fuel(says, 2);
    if rewrite::rewritten_float32_double(col, op, value, was_cast) is Some {
        law_single_literal_keeps_number(value->Float64_0);
    }
}

/// A comparison holds of two numbers exactly when the mirrored comparison
/// holds of them in the other order, and mirroring twice gives the operator
/// back.
pub proof fn law_mirrored_comparison(a: Option<Worth>, op: Operator, b: Option<Worth>)
    requires
        op.is_comparison(),
    ensures
        op.mirrored() is Some,
        op.mirrored()->0.is_comparison(),
        op.mirrored()->0.mirrored() == Some(op),
        compared(a, op, b) == compared(b, op.mirrored()->0, a),
{
}

/// Whether a column of the type can have the number: a value in the range of
/// an integer type, any number for another type, or null.
pub open spec fn is_row(value_type: ValueType, row: Option<Worth>) -> bool {
    value_type.is_integer() ==> exists|value: Option<int>|
        in_range(value_type, value) && row == #[trigger] integer_row(value)
}

/// A rewritten comparison says of every row exactly what comparing the column
/// with the literal says of it.
pub proof fn law_comparison_exact(
    col: ExprView,
    value_type: ValueType,
    op: Operator,
    value: ScalarView,
    was_cast: bool,
    row: Option<Worth>,
)
    requires
        op.is_comparison(),
        !(col is Literal),
        is_row(value_type, row),
    ensures
        rewrite::rewritten_comparison(col, value_type, op, value, was_cast) matches Some(rewritten)
            ==> says(rewritten, col, row) == compared(row, op, number_of(value)),
{
    if value_type.is_integer() {
        let value_row = choose|v: Option<int>|
            in_range(value_type, v) && row == #[trigger] integer_row(v);
        if let Some(worth) = literal::float_worth(value) {
            law_int_float_exact(col, value_type, op, worth, value_row);
        }
    } else {
        law_float32_double_exact(col, op, value, was_cast, row);
    }
}

/// The column behind casts is not a cast, and not a literal.
pub proof fn law_column_is_bare(expr: ExprView, schema: Schema)
    ensures
        rewrite::column_behind(expr, schema) matches Some((col, value_type)) ==> {
            &&& col is Column || col is Other
            &&& schema.column_type(col) == Some(value_type)
        },
    decreases expr,
{
    match expr {
        ExprView::Cast { expr: inner, .. } | ExprView::TryCast { expr: inner, .. } => {
            law_column_is_bare(*inner, schema);
        },
        _ => {},
    }
}

/// A comparison with the column on the left, rewritten, says of every row
/// exactly what comparing the column with the folded literal says of it; one
/// with the column on the right, what comparing the folded literal with the
/// column says of it.
pub proof fn law_binary_exact(
    left: ExprView,
    op: Operator,
    right: ExprView,
    schema: Schema,
    row: Option<Worth>,
)
    ensures
        rewrite::rewritten_binary(left, op, right, schema) matches Some(rewritten) ==> {
            ||| {
                &&& rewrite::rewritten_side(left, op, right, schema) == Some(rewritten)
                &&& rewrite::column_behind(left, schema) matches Some((col, value_type))
                &&& literal::folded_literal(right) matches Some((value, _))
                &&& is_row(value_type, row) ==> says(rewritten, col, row) == compared(
                    row,
                    op,
                    number_of(value),
                )
            }
            ||| {
                &&& rewrite::rewritten_side(left, op, right, schema) is None
                &&& rewrite::column_behind(right, schema) matches Some((col, value_type))
                &&& literal::folded_literal(left) matches Some((value, _))
                &&& is_row(value_type, row) ==> says(rewritten, col, row) == compared(
                    number_of(value),
                    op,
                    row,
                )
            }
        },
{
    if let Some(rewritten) = rewrite::rewritten_binary(left, op, right, schema) {
        law_column_is_bare(left, schema);
        law_column_is_bare(right, schema);
        if rewrite::rewritten_side(left, op, right, schema) is Some {
            let (col, value_type) = rewrite::column_behind(left, schema)->0;
            let (value, was_cast) = literal::folded_literal(right)->0;
            if is_row(value_type, row) {
                law_comparison_exact(col, value_type, op, value, was_cast, row);
            }
        } else {
            let (col, value_type) = rewrite::column_behind(right, schema)->0;
            let (value, was_cast) = literal::folded_literal(left)->0;
            law_mirrored_comparison(number_of(value), op, row);
            if is_row(value_type, row) {
                law_comparison_exact(
                    col,
                    value_type,
                    op.mirrored()->0,
                    value,
                    was_cast,
                    row,
                );
            }
        }
    }
}

/// What a bound says of a value.
proof fn lemma_lower_bound(value_type: ValueType, worth: Worth, value: int)
    requires
        value_type.is_integer(),
        value_type.least() <= value <= value_type.greatest(),
    ensures
        holds(integer_worth(value), Operator::GtEq, worth) <==> match rewrite::lower_bound(
            value_type,
            worth,
        ) {
            Bound::Never => false,
            Bound::Always => true,
            Bound::At(bound) => value >= bound,
        },
{
    if let Worth::Finite(units) = worth {
        lemma_integer_against_units(value, units);
        float::lemma_ceil_of_floor(units);
    }
}

/// What a bound says of a value.
proof fn lemma_upper_bound(value_type: ValueType, worth: Worth, value: int)
    requires
        value_type.is_integer(),
        value_type.least() <= value <= value_type.greatest(),
    ensures
        holds(integer_worth(value), Operator::LtEq, worth) <==> match rewrite::upper_bound(
            value_type,
            worth,
        ) {
            Bound::Never => false,
            Bound::Always => true,
            Bound::At(bound) => value <= bound,
        },
{
    if let Worth::Finite(units) = worth {
        lemma_integer_against_units(value, units);
    }
}

/// A range over an integer column with floating point bounds.
proof fn lemma_int_between(
    col: ExprView,
    value_type: ValueType,
    low: Option<Worth>,
    high: Option<Worth>,
    negated: bool,
    row: Option<int>,
)
    requires
        value_type.is_integer(),
        !(col is Literal),
        in_range(value_type, row),
    ensures
        says(
            rewrite::rewritten_int_between(col, value_type, low, high, negated),
            col,
            integer_row(row),
        ) == within(integer_row(row), low, high, negated),
{
    reveal_with_fuel(says, 2);
    let x = integer_row(row);
    law_constant_preserves_null(col, true, x);
    law_constant_preserves_null(col, false, x);
    if let Some(l) = low {
        if let Some(value) = row {
            lemma_lower_bound(value_type, l, value);
        }
        if let Bound::At(bound) = rewrite::lower_bound(value_type, l) {
            lemma_integer_literal(value_type, bound);
            if let Some(value) = row {
                lemma_integers_ordered(value, bound);
                lemma_integers_ordered(bound, value);
            }
        }
    }
    if let Some(h) = high {
        if let Some(value) = row {
            lemma_upper_bound(value_type, h, value);
        }
        if let Bound::At(bound) = rewrite::upper_bound(value_type, h) {
            lemma_integer_literal(value_type, bound);
            if let Some(value) = row {
                lemma_integers_ordered(value, bound);
                lemma_integers_ordered(bound, value);
            }
        }
    }
    lemma_integer_literal(value_type, value_type.least());
}

/// A range with a null bound is never true of a row, and neither is the
/// rewritten predicate.
pub proof fn law_between_null_never_true(
    col: ExprView,
    value_type: ValueType,
    low: Option<Worth>,
    high: Option<Worth>,
    row: Option<int>,
)
    requires
        value_type.is_integer(),
        !(col is Literal),
        low is None || high is None,
    ensures
        within(integer_row(row), low, high, false) != Some(true),
        says(
            rewrite::rewritten_int_between(col, value_type, low, high, false),
            col,
            integer_row(row),
        ) != Some(true),
{
    reveal_with_fuel(says, 2);
    law_constant_preserves_null(col, false, integer_row(row));
    lemma_integer_literal(value_type, value_type.least());
}

/// Where the rewrite of a range is exact: over an integer column everywhere,
/// and over a `Float32` column where the bounds that did not go through a cast
/// are worth what some single is worth. There, such a bound is rounded; a bound
/// that did go through a cast never is.
pub open spec fn between_is_exact(
    value_type: ValueType,
    low: (ScalarView, bool),
    high: (ScalarView, bool),
) -> bool {
    value_type.is_integer() || ((low.1 || is_single(number_of(low.0))) && (high.1 || is_single(
        number_of(high.0),
    )))
}

/// Whether a number is null or what some single is worth.
pub open spec fn is_single(number: Option<Worth>) -> bool {
    number matches Some(worth) ==> exists|single: u32| #[trigger] float::worth_32(single) == worth
}

/// A double is worth what some single is worth exactly if it keeps its worth in
/// single precision.
proof fn lemma_single_is_exact(bits: u64)
    ensures
        is_single(Some(float::worth_64(bits))) <==> float::is_exact(bits),
{
    if float::is_exact(bits) {
        float::lemma_narrow_keeps_worth(bits);
        assert(float::worth_32(float::single_of(bits)) == float::worth_64(bits));
    } else {
        if is_single(Some(float::worth_64(bits))) {
            let single = choose|single: u32| #[trigger]
                float::worth_32(single) == float::worth_64(bits);
            assert(float::is_finite_32(single));
            assert(float::units_32(single) == float::units_64(bits));
        }
    }
}

/// A range is rewritten only so that it says of every row exactly what the range
/// says of it; over a `Float32` column a bound that did not go through a cast
/// may be rounded, and no other bound.
pub proof fn law_between_exact(
    col: ExprView,
    value_type: ValueType,
    low: (ScalarView, bool),
    high: (ScalarView, bool),
    negated: bool,
    row: Option<Worth>,
)
    requires
        !(col is Literal),
        is_row(value_type, row),
        between_is_exact(value_type, low, high),
    ensures
        rewrite::rewritten_between(col, value_type, low, high, negated) matches Some(rewritten)
            ==> says(rewritten, col, row) == within(
            row,
            number_of(low.0),
            number_of(high.0),
            negated,
        ),
{
    reveal_with_fuel(says, 2);
    if rewrite::rewritten_between(col, value_type, low, high, negated) is Some {
        if value_type.is_integer() {
            let value = choose|v: Option<int>|
                in_range(value_type, v) && row == #[trigger] integer_row(v);
            lemma_int_between(
                col,
                value_type,
                number_of(low.0),
                number_of(high.0),
                negated,
                value,
            );
        } else {
            if let Some(bits) = low.0->Float64_0 {
                lemma_single_is_exact(bits);
            }
            if let Some(bits) = high.0->Float64_0 {
                lemma_single_is_exact(bits);
            }
            law_single_literal_keeps_number(low.0->Float64_0);
            law_single_literal_keeps_number(high.0->Float64_0);
        }
    }
}

/// The number that a double bound stands for in single precision: its own where
/// it went through a cast, and otherwise that of the nearest single.
pub open spec fn single_bound(bound: (ScalarView, bool)) -> Option<Worth> {
    match bound.0 {
        ScalarView::Float64(Some(bits)) => if bound.1 {
            Some(float::worth_64(bits))
        } else {
            Some(float::worth_32(float::single_of(bits)))
        },
        _ => None,
    }
}

/// A rewritten range over a `Float32` column says of every row what the range
/// says with each bound that did not go through a cast rounded to the nearest
/// single, and with the other bounds as they are.
pub proof fn law_between_rounds_bare_bounds(
    col: ExprView,
    low: (ScalarView, bool),
    high: (ScalarView, bool),
    negated: bool,
    row: Option<Worth>,
)
    requires
        !(col is Literal),
    ensures
        rewrite::rewritten_between(col, ValueType::Float32, low, high, negated) matches Some(
            rewritten,
        ) ==> says(rewritten, col, row) == within(
            row,
            single_bound(low),
            single_bound(high),
            negated,
        ),
{
    reveal_with_fuel(says, 2);
    if rewrite::rewritten_between(col, ValueType::Float32, low, high, negated) is Some {
        if let Some(bits) = low.0->Float64_0 {
            float::lemma_single_of_nan(bits);
            if low.1 {
                law_single_literal_keeps_number(low.0->Float64_0);
            }
        }
        if let Some(bits) = high.0->Float64_0 {
            float::lemma_single_of_nan(bits);
            if high.1 {
                law_single_literal_keeps_number(high.0->Float64_0);
            }
        }
    }
}

/// Whether a literal is a double, or a null of that type, that a `Float32`
/// column is compared with in single precision: one that went through a cast,
/// and is worth what some single is worth.
pub open spec fn suits_single(literal: (ScalarView, bool)) -> bool {
    literal.0 is Float64 && literal.1 && is_single(number_of(literal.0))
}

/// Which ranges are rewritten: over an integer column those with floating point
/// bounds; over a `Float32` column those with double bounds, at least one of
/// which went through a cast, if no bound that went through a cast would be
/// rounded; over other columns none.
pub proof fn law_which_ranges_are_rewritten(
    col: ExprView,
    value_type: ValueType,
    low: (ScalarView, bool),
    high: (ScalarView, bool),
    negated: bool,
)
    ensures
        rewrite::rewritten_between(col, value_type, low, high, negated) is Some <==> {
            ||| value_type.is_integer() && low.0.is_float() && high.0.is_float()
            ||| {
                &&& value_type is Float32
                &&& low.0 is Float64 && high.0 is Float64
                &&& low.1 || high.1
                &&& low.1 ==> suits_single(low)
                &&& high.1 ==> suits_single(high)
            }
        },
{
    if let ScalarView::Float64(Some(bits)) = low.0 {
        lemma_single_is_exact(bits);
    }
    if let ScalarView::Float64(Some(bits)) = high.0 {
        lemma_single_is_exact(bits);
    }
}

/// Which comparisons are rewritten: those of an integer column with a floating
/// point literal, and those of a `Float32` column with a double, or a null of
/// that type, that went through a cast and is worth what some single is worth.
pub proof fn law_which_comparisons_are_rewritten(
    col: ExprView,
    value_type: ValueType,
    op: Operator,
    value: ScalarView,
    was_cast: bool,
)
    requires
        op.is_comparison(),
    ensures
        rewrite::rewritten_comparison(col, value_type, op, value, was_cast) is Some <==> {
            ||| value_type.is_integer() && value.is_float()
            ||| value_type is Float32 && suits_single((value, was_cast))
        },
{
    if let ScalarView::Float64(Some(bits)) = value {
        lemma_single_is_exact(bits);
    }
}

/// Which lists are rewritten: over an integer column those of floating point
/// literals; over a `Float32` column those with an element that went through a
/// cast and of which each is a null double, or a double that went through a cast
/// and is worth what some single is worth; over other columns none.
pub proof fn law_which_lists_are_rewritten(
    col: ExprView,
    value_type: ValueType,
    items: Seq<(ScalarView, bool)>,
    negated: bool,
)
    ensures
        rewrite::rewritten_in_list(col, value_type, items, negated) is Some <==> {
            ||| {
                &&& value_type.is_integer()
                &&& forall|i: int| 0 <= i < items.len() ==> (#[trigger] items[i]).0.is_float()
            }
            ||| {
                &&& value_type is Float32
                &&& exists|i: int| 0 <= i < items.len() && (#[trigger] items[i]).1
                &&& forall|i: int|
                    0 <= i < items.len() ==> suits_single(#[trigger] items[i]) || items[i].0
                        == ScalarView::Float64(None)
            }
        },
{
    if value_type.is_integer() {
        if rewrite::all_floats(items) {
            assert forall|i: int| 0 <= i < items.len() implies (#[trigger] items[i]).0.is_float() by {
                assert(literal::float_worth(items[i].0) is Some);
            }
        }
        if forall|i: int| 0 <= i < items.len() ==> (#[trigger] items[i]).0.is_float() {
            assert forall|i: int| 0 <= i < items.len() implies literal::float_worth(
                (#[trigger] items[i]).0,
            ) is Some by {
                assert(items[i].0.is_float());
            }
        }
    } else {
        assert forall|i: int| 0 <= i < items.len() implies (rewrite::is_single_item(
            #[trigger] items[i],
        ) <==> suits_single(items[i]) || items[i].0 == ScalarView::Float64(None)) by {
            if let ScalarView::Float64(Some(bits)) = items[i].0 {
                lemma_single_is_exact(bits);
            }
        }
    }
}

/// The survivors of a list have the numbers and the nulls of the list, as far
/// as a value of the type can equal a number.
proof fn lemma_survivors(
    col: ExprView,
    value_type: ValueType,
    worths: Seq<Option<Worth>>,
    value: int,
    row: Option<Worth>,
)
    requires
        value_type.is_integer(),
        !(col is Literal),
        value_type.least() <= value <= value_type.greatest(),
    ensures
        has_number(
            integer_worth(value),
            operands(rewrite::survivors(value_type, worths), col, row),
        ) == has_number(integer_worth(value), worths),
        has_null(operands(rewrite::survivors(value_type, worths), col, row)) == has_null(worths),
    decreases worths.len(),
{
    let x = integer_worth(value);
    let list = operands(rewrite::survivors(value_type, worths), col, row);
    if worths.len() == 0 {
    } else {
        let rest = worths.drop_last();
        let last = worths.last();
        lemma_survivors(col, value_type, rest, value, row);
        let before = operands(rewrite::survivors(value_type, rest), col, row);
        assert(worths == rest.push(last));
        lemma_push(x, rest, last);
        match rewrite::surviving(value_type, last) {
            Some(literal) => {
                let element = operand(ExprView::Literal(literal), col, row);
                assert(list =~= before.push(element));
                lemma_push(x, before, element);
                match last {
                    None => {
                        lemma_integer_literal(value_type, value_type.least());
                    },
                    Some(worth) => {
                        let units = worth->Finite_0;
                        let floor = float::floor_units(units);
                        lemma_integer_literal(value_type, floor);
                        lemma_integer_against_units(floor, units);
                        assert(element == last);
                    },
                }
            },
            None => {
                assert(list == before);
                if let Some(Worth::Finite(units)) = last {
                    lemma_integer_against_units(value, units);
                }
            },
        }
    }
}

/// What one more element adds to a list.
proof fn lemma_push(x: Worth, list: Seq<Option<Worth>>, element: Option<Worth>)
    ensures
        has_number(x, list.push(element)) == (has_number(x, list) || is_number(x, element)),
        has_null(list.push(element)) == (has_null(list) || element is None),
{
    let longer = list.push(element);
    if has_number(x, list) {
        let i = choose|i: int| 0 <= i < list.len() && is_number(x, #[trigger] list[i]);
        assert(longer[i] == list[i]);
    }
    if has_number(x, longer) {
        let i = choose|i: int| 0 <= i < longer.len() && is_number(x, #[trigger] longer[i]);
        if i < list.len() {
            assert(longer[i] == list[i]);
        }
    }
    if has_null(list) {
        let i = choose|i: int| 0 <= i < list.len() && #[trigger] list[i] is None;
        assert(longer[i] == list[i]);
    }
    if has_null(longer) {
        let i = choose|i: int| 0 <= i < longer.len() && #[trigger] longer[i] is None;
        if i < list.len() {
            assert(longer[i] == list[i]);
        }
    }
    assert(longer[list.len() as int] == element);
}

/// The numbers that the elements of a list of literals stand for.
pub open spec fn list_numbers(items: Seq<(ScalarView, bool)>) -> Seq<Option<Worth>> {
    items.map_values(|item: (ScalarView, bool)| number_of(item.0))
}

/// Membership of an integer column in a list of floating point literals.
proof fn lemma_int_in_list(
    col: ExprView,
    value_type: ValueType,
    items: Seq<(ScalarView, bool)>,
    negated: bool,
    row: Option<int>,
)
    requires
        value_type.is_integer(),
        !(col is Literal),
        in_range(value_type, row),
        rewrite::all_floats(items),
    ensures
        rewrite::rewritten_in_list(col, value_type, items, negated) is Some,
        says(
            rewrite::rewritten_in_list(col, value_type, items, negated)->0,
            col,
            integer_row(row),
        ) == member(integer_row(row), list_numbers(items), negated),
{
    reveal_with_fuel(says, 2);
    let worths = rewrite::list_worths(items);
    assert(worths =~= list_numbers(items)) by {
        assert forall|i: int| 0 <= i < items.len() implies worths[i] == list_numbers(items)[i] by {
            assert(literal::float_worth(items[i].0) is Some);
        }
    }
    let list = rewrite::survivors(value_type, worths);
    law_constant_preserves_null(col, true, integer_row(row));
    law_constant_preserves_null(col, false, integer_row(row));
    if let Some(value) = row {
        lemma_survivors(col, value_type, worths, value, integer_row(row));
        if list.len() == 0 {
            assert(operands(list, col, integer_row(row)).len() == 0);
        }
    }
}

/// Membership of a `Float32` column in a list of typed doubles.
proof fn lemma_float32_in_list(
    col: ExprView,
    items: Seq<(ScalarView, bool)>,
    negated: bool,
    row: Option<Worth>,
)
    requires
        !(col is Literal),
    ensures
        rewrite::rewritten_in_list(col, ValueType::Float32, items, negated) matches Some(rewritten)
            ==> says(rewritten, col, row) == member(row, list_numbers(items), negated),
{
    reveal_with_fuel(says, 2);
    if rewrite::rewritten_in_list(col, ValueType::Float32, items, negated) is Some {
        assert(operands(rewrite::single_items(items), col, row) =~= list_numbers(items)) by {
            assert forall|i: int| 0 <= i < items.len() implies #[trigger] operands(
                rewrite::single_items(items),
                col,
                row,
            )[i] == list_numbers(items)[i] by {
                assert(rewrite::is_single_item(items[i]));
                law_single_literal_keeps_number(items[i].0->Float64_0);
            }
        }
    }
}

/// A rewritten `IN` list says of every row exactly what membership in the list
/// says of it, and over an integer column every list of floating point
/// literals is rewritten.
pub proof fn law_in_list_exact(
    col: ExprView,
    value_type: ValueType,
    items: Seq<(ScalarView, bool)>,
    negated: bool,
    row: Option<Worth>,
)
    requires
        !(col is Literal),
        is_row(value_type, row),
    ensures
        value_type.is_integer() && (forall|i: int|
            0 <= i < items.len() ==> (#[trigger] items[i]).0.is_float())
            ==> rewrite::rewritten_in_list(col, value_type, items, negated) is Some,
        rewrite::rewritten_in_list(col, value_type, items, negated) matches Some(rewritten)
            ==> says(rewritten, col, row) == member(row, list_numbers(items), negated),
{
    law_which_lists_are_rewritten(col, value_type, items, negated);
    if rewrite::rewritten_in_list(col, value_type, items, negated) is Some {
        if value_type.is_integer() {
            let value = choose|v: Option<int>|
                in_range(value_type, v) && row == #[trigger] integer_row(v);
            lemma_int_in_list(col, value_type, items, negated, value);
        } else {
            lemma_float32_in_list(col, items, negated, row);
        }
    }
}

/// A rewritten comparison with an integer column is not rewritten again.
pub proof fn law_rewrite_is_final(
    col: ExprView,
    value_type: ValueType,
    op: Operator,
    worth: Option<Worth>,
    schema: Schema,
)
    ensures
        rewrite::rewritten_int_float(col, value_type, op, worth) matches Some(rewritten) ==> {
            &&& rewritten matches ExprView::BinaryExpr { left, op: comparison, right }
            &&& rewrite::rewritten_binary(*left, comparison, *right, schema) is None
        },
{
}

/// Negating twice gives the literal back, and a number and its negation are
/// worth opposite amounts.
pub proof fn law_negation(value: ScalarView)
    requires
        value matches ScalarView::Float16(bits) ==> bits == crate::scalar::one_nan_16(bits),
        value matches ScalarView::Float32(bits) ==> bits == crate::scalar::one_nan_32(bits),
        value matches ScalarView::Float64(bits) ==> bits == crate::scalar::one_nan_64(bits),
    ensures
        literal::negated(value) matches Some(negation) ==> {
            &&& literal::negated(negation) == Some(value)
            &&& number_of(negation) == opposite(number_of(value))
        },
{
    match value {
        ScalarView::Float16(Some(bits)) => lemma_flip_16(bits),
        ScalarView::Float32(Some(bits)) => lemma_flip_32(bits),
        ScalarView::Float64(Some(bits)) => lemma_flip_64(bits),
        _ => {
            if let Some(v) = rewrite::integer_value(value) {
                lemma_mul_unary_negation(v, one_int());
            }
        },
    }
}

/// Flipping the sign of a half flips what it is worth, and flipping it again
/// gives the half back.
proof fn lemma_flip_16(bits: u16)
    ensures
        literal::flip_16(literal::flip_16(bits)) == bits,
        float::is_nan_16(literal::flip_16(bits)) == float::is_nan_16(bits),
        Some(float::worth_16(literal::flip_16(bits))) == opposite(Some(float::worth_16(bits))),
{
    let flipped = literal::flip_16(bits);
    assert(float::fraction_16(flipped) == float::fraction_16(bits));
    assert(float::exponent_16(flipped) == float::exponent_16(bits));
    assert(float::magnitude_16(flipped) == float::magnitude_16(bits));
}

/// Flipping the sign of a single flips what it is worth, and flipping it again
/// gives the single back.
proof fn lemma_flip_32(bits: u32)
    ensures
        literal::flip_32(literal::flip_32(bits)) == bits,
        float::is_nan_32(literal::flip_32(bits)) == float::is_nan_32(bits),
        Some(float::worth_32(literal::flip_32(bits))) == opposite(Some(float::worth_32(bits))),
{
    let flipped = literal::flip_32(bits);
    assert(float::fraction_32(flipped) == float::fraction_32(bits));
    assert(float::exponent_32(flipped) == float::exponent_32(bits));
    assert(float::magnitude_32(flipped) == float::magnitude_32(bits));
}

/// Flipping the sign of a double flips what it is worth, and flipping it again
/// gives the double back.
proof fn lemma_flip_64(bits: u64)
    ensures
        literal::flip_64(literal::flip_64(bits)) == bits,
        float::is_nan_64(literal::flip_64(bits)) == float::is_nan_64(bits),
        Some(float::worth_64(literal::flip_64(bits))) == opposite(Some(float::worth_64(bits))),
{
    let flipped = literal::flip_64(bits);
    assert(float::fraction_64(flipped) == float::fraction_64(bits));
    assert(float::exponent_64(flipped) == float::exponent_64(bits));
    assert(float::magnitude_64(flipped) == float::magnitude_64(bits));
}

/// The number of the other sign.
pub open spec fn opposite(number: Option<Worth>) -> Option<Worth> {
    match number {
        Some(Worth::NegInfinity) => Some(Worth::Infinity),
        Some(Worth::Infinity) => Some(Worth::NegInfinity),
        Some(Worth::Finite(units)) => Some(Worth::Finite(-units)),
        _ => number,
    }
}

/// Whether two literals are of the same number type.
pub open spec fn same_number_type(a: ScalarView, b: ScalarView) -> bool {
    match a {
        ScalarView::Float16(_) => b is Float16,
        ScalarView::Float32(_) => b is Float32,
        ScalarView::Float64(_) => b is Float64,
        ScalarView::Int8(_) => b is Int8,
        ScalarView::Int16(_) => b is Int16,
        ScalarView::Int32(_) => b is Int32,
        ScalarView::Int64(_) => b is Int64,
        _ => false,
    }
}

/// The sign of a floating point literal that is not null; a zero has one too.
pub open spec fn sign_of(value: ScalarView) -> Option<bool> {
    match value {
        ScalarView::Float16(Some(bits)) => Some(float::negative_16(bits)),
        ScalarView::Float32(Some(bits)) => Some(float::negative_32(bits)),
        ScalarView::Float64(Some(bits)) => Some(float::negative_64(bits)),
        _ => None,
    }
}

/// Whether the type of a literal can hold its opposite: a floating point type
/// always can, a signed integer type unless the literal is its least value.
pub open spec fn has_opposite(value: ScalarView) -> bool {
    match value {
        ScalarView::Float16(_) | ScalarView::Float32(_) | ScalarView::Float64(_) => true,
        ScalarView::Int8(number) => number matches Some(v) ==> -v <= i8::MAX,
        ScalarView::Int16(number) => number matches Some(v) ==> -v <= i16::MAX,
        ScalarView::Int32(number) => number matches Some(v) ==> -v <= i32::MAX,
        ScalarView::Int64(number) => number matches Some(v) ==> -v <= i64::MAX,
        _ => false,
    }
}

/// A minus in front of an expression folds to the opposite of what the
/// expression folds to, of the same type and with the same mark of a cast,
/// whatever casts and signs the expression is made of; and it folds wherever
/// the type can hold the opposite.
pub proof fn law_minus_folds_to_the_opposite(expr: ExprView)
    ensures
        match (
            literal::folded_literal(expr),
            literal::folded_literal(ExprView::Negative(Box::new(expr))),
        ) {
            (Some((value, was_cast)), Some((negation, still_cast))) => {
                &&& has_opposite(value)
                &&& number_of(negation) == opposite(number_of(value))
                &&& same_number_type(value, negation)
                &&& still_cast == was_cast
                &&& number_of(value) != Some(Worth::Nan) ==> match sign_of(value) {
                    Some(negative) => sign_of(negation) == Some(!negative),
                    None => sign_of(negation) is None,
                }
            },
            (Some((value, _)), None) => !has_opposite(value),
            (None, negation) => negation is None,
        },
{
    if let Some((value, _)) = literal::folded_literal(expr) {
        match value {
            ScalarView::Float16(Some(bits)) => lemma_flip_16(bits),
            ScalarView::Float32(Some(bits)) => lemma_flip_32(bits),
            ScalarView::Float64(Some(bits)) => lemma_flip_64(bits),
            _ => {
                if let Some(v) = rewrite::integer_value(value) {
                    lemma_mul_unary_negation(v, one_int());
                }
            },
        }
    }
}

/// A cast in front of an expression.
pub open spec fn cast_of(expr: ExprView, target: ValueType, is_try: bool) -> ExprView {
    if is_try {
        ExprView::TryCast { expr: Box::new(expr), target }
    } else {
        ExprView::Cast { expr: Box::new(expr), target }
    }
}

/// What the spelling of infinity or NaN in a string literal is worth, if there
/// is one in it.
pub open spec fn spelled_worth(value: ScalarView) -> Option<Worth> {
    match literal::literal_text(value) {
        Some(text) => match special::special_float(text) {
            Some(bits) => Some(float::worth_64(bits)),
            None => None,
        },
        None => None,
    }
}

/// A literal folds to itself and is not marked; a cast of an expression that
/// folds, where it is made, is marked, and folds to what the cast gives. Where
/// the cast fails, a spelling of infinity or NaN folds to a literal of the
/// target type that is worth what it spells, and of what is left a `TRY_CAST`
/// folds to a null of the target type, and a `CAST` does not fold.
pub proof fn law_casts_fold(expr: ExprView, value: ScalarView, target: ValueType, is_try: bool)
    requires
        target.is_number(),
    ensures
        literal::folded_literal(ExprView::Literal(value)) == Some((value, false)),
        literal::folded_literal(expr) is None ==> literal::folded_literal(
            cast_of(expr, target, is_try),
        ) is None,
        literal::folded_literal(expr) matches Some((inner, _)) ==> {
            let folded = literal::folded_literal(cast_of(expr, target, is_try));
            let given = cast::cast_scalar(cast::held(inner), target);
            if !cast::castable(cast::held(inner), target) {
                folded is None
            } else if given is Some {
                folded == Some((given->0, true))
            } else if target.is_float() && spelled_worth(inner) is Some {
                &&& folded matches Some((number, true))
                &&& cast::is_of_type(number, target)
                &&& number_of(number) == spelled_worth(inner)
            } else if is_try {
                &&& folded matches Some((number, true))
                &&& cast::is_of_type(number, target)
                &&& number_of(number) is None
            } else {
                folded is None
            }
        },
{
    if let Some((inner, _)) = literal::folded_literal(expr) {
        if let Some(text) = literal::literal_text(inner) {
            if let Some(bits) = special::special_float(text) {
                float::lemma_narrow_keeps_worth(bits);
            }
        }
    }
}

/// Whether every column of an expression stands in it as it is, with nothing
/// around it that changes its type, and every literal is a truth value or of
/// the type of the column.
pub open spec fn is_bare(expr: ExprView, col: ExprView, value_type: ValueType) -> bool
    decreases expr,
{
    expr == col || match expr {
        ExprView::Literal(value) => value is Boolean || cast::is_of_type(value, value_type),
        ExprView::IsNull(inner) | ExprView::IsNotNull(inner) => *inner == col,
        ExprView::BinaryExpr { left, op, right } => is_bare(*left, col, value_type) && is_bare(
            *right,
            col,
            value_type,
        ),
        ExprView::Between { expr, low, high, .. } => {
            &&& *expr == col
            &&& is_bare(*low, col, value_type)
            &&& is_bare(*high, col, value_type)
        },
        ExprView::InList { expr, list, .. } => {
            &&& *expr == col
            &&& forall|i: int|
                0 <= i < list.len() ==> (#[trigger] list[i] matches ExprView::Literal(value)
                    && cast::is_of_type(value, value_type))
        },
        _ => false,
    }
}

/// Every rewrite leaves the column as it is and compares it with literals of its
/// own type.
pub proof fn law_rewrites_leave_the_column_bare(
    col: ExprView,
    value_type: ValueType,
    op: Operator,
    low: (ScalarView, bool),
    high: (ScalarView, bool),
    items: Seq<(ScalarView, bool)>,
    negated: bool,
)
    ensures
        rewrite::rewritten_comparison(col, value_type, op, low.0, low.1) matches Some(rewritten)
            ==> is_bare(rewritten, col, value_type),
        rewrite::rewritten_between(col, value_type, low, high, negated) matches Some(rewritten)
            ==> is_bare(rewritten, col, value_type),
        rewrite::rewritten_in_list(col, value_type, items, negated) matches Some(rewritten)
            ==> is_bare(rewritten, col, value_type),
{
    reveal_with_fuel(is_bare, 4);
    if value_type.is_integer() {
        lemma_survivors_are_bare(value_type, rewrite::list_worths(items));
    }
}

proof fn lemma_survivors_are_bare(value_type: ValueType, worths: Seq<Option<Worth>>)
    requires
        value_type.is_integer(),
    ensures
        forall|i: int|
            0 <= i < rewrite::survivors(value_type, worths).len() ==> (
            #[trigger] rewrite::survivors(value_type, worths)[i] matches ExprView::Literal(value)
                && cast::is_of_type(value, value_type)),
    decreases worths.len(),
{
    if worths.len() > 0 {
        lemma_survivors_are_bare(value_type, worths.drop_last());
    }
}

/// The column of a side of a comparison is found behind casts to floating point
/// types and behind no others, and behind a cast only if it is a number column.
/// Without a cast it is the side itself, if the side is a column.
pub proof fn law_column_is_found_behind_float_casts(
    expr: ExprView,
    target: ValueType,
    is_try: bool,
    schema: Schema,
)
    ensures
        rewrite::column_behind(cast_of(expr, target, is_try), schema)
            == match rewrite::column_behind(expr, schema) {
            Some((col, value_type)) if target.is_float() && value_type.is_number() => Some(
                (col, value_type),
            ),
            _ => None,
        },
        !(expr is Cast) && !(expr is TryCast) ==> rewrite::column_behind(expr, schema)
            == match schema.column_type(expr) {
            Some(value_type) => Some((expr, value_type)),
            None => None,
        },
{
}

/// Whether a comparison has a column on one side, and on the other what it is
/// rewritten for.
pub open spec fn is_rewritten_side(side: ExprView, other: ExprView, schema: Schema) -> bool {
    match (rewrite::column_behind(side, schema), literal::folded_literal(other)) {
        (Some((_, value_type)), Some((value, was_cast))) => {
            ||| value_type.is_integer() && value.is_float()
            ||| value_type is Float32 && suits_single((value, was_cast))
        },
        _ => false,
    }
}

/// A comparison is rewritten where either side is a column that can be compared
/// with what the other side folds to, and nothing but a comparison is.
pub proof fn law_which_sides_are_rewritten(
    left: ExprView,
    op: Operator,
    right: ExprView,
    schema: Schema,
)
    ensures
        rewrite::rewritten_binary(left, op, right, schema) is Some <==> op.is_comparison() && (
        is_rewritten_side(left, right, schema) || is_rewritten_side(right, left, schema)),
{
    if op.is_comparison() {
        if let (Some((col, value_type)), Some((value, was_cast))) = (
            rewrite::column_behind(left, schema),
            literal::folded_literal(right),
        ) {
            law_which_comparisons_are_rewritten(col, value_type, op, value, was_cast);
        }
        if let (Some((col, value_type)), Some((value, was_cast))) = (
            rewrite::column_behind(right, schema),
            literal::folded_literal(left),
        ) {
            law_which_comparisons_are_rewritten(
                col,
                value_type,
                op.mirrored()->0,
                value,
                was_cast,
            );
        }
    }
}

/// The elements of a list fold each to its own literal, in their order, and the
/// list folds exactly if every element does.
pub proof fn law_lists_fold_element_by_element(list: Seq<ExprView>, i: int)
    requires
        0 <= i < list.len(),
    ensures
        match rewrite::folded_literals(list) {
            Some(items) => {
                &&& items.len() == list.len()
                &&& literal::folded_literal(list[i]) == Some(items[i])
            },
            None => exists|j: int|
                0 <= j < list.len() && literal::folded_literal(#[trigger] list[j]) is None,
        },
{
}

/// A number literal stands for its number: a floating point one for what its
/// bits are worth in its precision, an integer for its value; a null, and a
/// literal that is not a number, stands for none.
pub proof fn law_literals_stand_for_their_numbers(value: ScalarView)
    ensures
        number_of(value) == match value {
            ScalarView::Float16(Some(bits)) => Some(float::worth_16(bits)),
            ScalarView::Float32(Some(bits)) => Some(float::worth_32(bits)),
            ScalarView::Float64(Some(bits)) => Some(float::worth_64(bits)),
            ScalarView::Int8(Some(v)) => Some(Worth::Finite(v * float::one())),
            ScalarView::Int16(Some(v)) => Some(Worth::Finite(v * float::one())),
            ScalarView::Int32(Some(v)) => Some(Worth::Finite(v * float::one())),
            ScalarView::Int64(Some(v)) => Some(Worth::Finite(v * float::one())),
            ScalarView::UInt8(Some(v)) => Some(Worth::Finite(v * float::one())),
            ScalarView::UInt16(Some(v)) => Some(Worth::Finite(v * float::one())),
            ScalarView::UInt32(Some(v)) => Some(Worth::Finite(v * float::one())),
            ScalarView::UInt64(Some(v)) => Some(Worth::Finite(v * float::one())),
            _ => None,
        },
        literal::float_worth(value) is Some <==> value is Float16 || value is Float32
            || value is Float64,
        value.is_float() <==> value is Float16 || value is Float32 || value is Float64,
{
}

/// The literal of an integer type and a value that the type can hold is of that
/// type and stands for that value, and the null of the type for none.
pub proof fn law_integer_literal_stands_for_its_value(value_type: ValueType, value: int)
    requires
        value_type.is_integer(),
        value_type.least() <= value <= value_type.greatest(),
    ensures
        number_of(literal::integer_literal(value_type, value)) == Some(
            Worth::Finite(value * float::one()),
        ),
        cast::is_of_type(literal::integer_literal(value_type, value), value_type),
        number_of(rewrite::integer_null(value_type)) is None,
        cast::is_of_type(rewrite::integer_null(value_type), value_type),
{
    lemma_integer_literal(value_type, value);
}

/// Two comparisons of the same column with literals that stand for the same
/// number, rewritten, say the same of every row, whatever types the literals
/// have and whichever side of the comparison they stand on.
pub proof fn law_equal_literals_rewrite_alike(
    col: ExprView,
    value_type: ValueType,
    op: Operator,
    a: (ScalarView, bool),
    b: (ScalarView, bool),
    row: Option<Worth>,
)
    requires
        op.is_comparison(),
        !(col is Literal),
        is_row(value_type, row),
        number_of(a.0) == number_of(b.0),
    ensures
        match (
            rewrite::rewritten_comparison(col, value_type, op, a.0, a.1),
            rewrite::rewritten_comparison(col, value_type, op, b.0, b.1),
        ) {
            (Some(x), Some(y)) => says(x, col, row) == says(y, col, row),
            _ => true,
        },
{
    law_comparison_exact(col, value_type, op, a.0, a.1, row);
    law_comparison_exact(col, value_type, op, b.0, b.1, row);
}

/// The other sign, in each precision: the sign bit is the other one, and every
/// other bit stays, of a NaN too.
pub proof fn law_flipping_changes_the_sign_alone(half: u16, single: u32, double: u64)
    ensures
        float::negative_16(literal::flip_16(half)) != float::negative_16(half),
        literal::flip_16(half) % 0x8000 == half % 0x8000,
        float::negative_32(literal::flip_32(single)) != float::negative_32(single),
        literal::flip_32(single) % 0x8000_0000 == single % 0x8000_0000,
        float::negative_64(literal::flip_64(double)) != float::negative_64(double),
        literal::flip_64(double) % 0x8000_0000_0000_0000 == double % 0x8000_0000_0000_0000,
{
}

/// A cast to any type folds where it is made, to what the cast gives; where it
/// fails and there is no spelling of infinity or NaN to fall back on, a
/// `TRY_CAST` folds to the null of the type and a `CAST` does not fold.
pub proof fn law_casts_to_any_type_fold(expr: ExprView, target: ValueType, is_try: bool)
    ensures
        literal::folded_literal(cast_of(expr, target, is_try)) matches Some((_, was_cast))
            ==> was_cast && literal::folded_literal(expr) is Some,
        literal::folded_literal(expr) matches Some((inner, _)) ==> {
            let folded = literal::folded_literal(cast_of(expr, target, is_try));
            let meaning = cast::meant(target);
            let given = cast::cast_scalar(cast::held(inner), meaning);
            &&& !cast::castable(cast::held(inner), meaning) ==> folded is None
            &&& cast::castable(cast::held(inner), meaning) && given is Some ==> folded == Some(
                (given->0, true),
            )
            &&& cast::castable(cast::held(inner), meaning) && given is None && (
            !meaning.is_float() || spelled_worth(inner) is None) ==> match folded {
                Some((null, _)) => is_try && cast::typed_null(meaning) == Some(null),
                None => !is_try,
            }
        },
{
}

/// What the outcome for a lower bound says of every value of an integer type:
/// where it is a literal, the values from its value on are at or above the
/// number, and where it is not, all values are, or none.
pub proof fn law_lower_bound_outcome(
    value_type: ValueType,
    worth: Worth,
    outcome: Result<Scalar, bool>,
    value: int,
)
    requires
        value_type.is_integer(),
        value_type.least() <= value <= value_type.greatest(),
        rewrite::is_bound(value_type, rewrite::lower_bound(value_type, worth), outcome),
    ensures
        match outcome {
            Ok(literal) => {
                &&& cast::is_of_type(literal@, value_type)
                &&& rewrite::integer_value(literal@) matches Some(bound)
                &&& holds(integer_worth(value), Operator::GtEq, worth) <==> value >= bound
            },
            Err(always) => holds(integer_worth(value), Operator::GtEq, worth) == always,
        },
{
    lemma_lower_bound(value_type, worth, value);
}

/// What the outcome for an upper bound says of every value of an integer type:
/// where it is a literal, the values up to its value are at or below the number,
/// and where it is not, all values are, or none.
pub proof fn law_upper_bound_outcome(
    value_type: ValueType,
    worth: Worth,
    outcome: Result<Scalar, bool>,
    value: int,
)
    requires
        value_type.is_integer(),
        value_type.least() <= value <= value_type.greatest(),
        rewrite::is_bound(value_type, rewrite::upper_bound(value_type, worth), outcome),
    ensures
        match outcome {
            Ok(literal) => {
                &&& cast::is_of_type(literal@, value_type)
                &&& rewrite::integer_value(literal@) matches Some(bound)
                &&& holds(integer_worth(value), Operator::LtEq, worth) <==> value <= bound
            },
            Err(always) => holds(integer_worth(value), Operator::LtEq, worth) == always,
        },
{
    lemma_upper_bound(value_type, worth, value);
}

} // verus!
