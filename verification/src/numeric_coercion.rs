//! Exact rewrites for numeric comparisons that keep the filter on the column.
//!
//! An integer column that is compared with a floating point literal is
//! compared with an integer literal instead, or the comparison is replaced by
//! a constant where the literal is out of the range of the column: `i > 1.5`
//! becomes `i > 1`, and `i = 1.5` becomes false for every row that is not
//! null. A `Float32` column that is compared with a double-typed literal is
//! compared with a `Float32` literal instead, if that is worth the same.
//! `CAST(i AS double)` around the column is unwrapped first. Every rewrite
//! leaves the column as it is, so that an index on it still applies.

use crate::cast::{self, null_of};
use crate::expr::{Expr, ExprView, Operator};
use crate::float::{self, Worth};
use crate::literal::{
    self, extract_literal, float_scalar_to_f64, int_bounds, is_float_type, is_integer_type,
    make_int_literal,
};
use crate::scalar::{self, Scalar, ScalarView};
use crate::schema::{resolve_column_type, Schema};
use crate::value_type::ValueType;
use vstd::prelude::*;

verus! {

/// The null literal of truth values.
pub open spec fn null_truth() -> ExprView {
    ExprView::Literal(ScalarView::Boolean(None))
}

/// `truth` for every row in which `col` is not null, and null for the others:
/// `col IS NOT NULL OR NULL`, or `col IS NULL AND NULL`.
pub open spec fn constant(col: ExprView, truth: bool) -> ExprView {
    if truth {
        ExprView::BinaryExpr {
            left: Box::new(ExprView::IsNotNull(Box::new(col))),
            op: Operator::Or,
            right: Box::new(null_truth()),
        }
    } else {
        ExprView::BinaryExpr {
            left: Box::new(ExprView::IsNull(Box::new(col))),
            op: Operator::And,
            right: Box::new(null_truth()),
        }
    }
}

/// `col op value`.
pub open spec fn comparison(col: ExprView, op: Operator, value: ScalarView) -> ExprView {
    ExprView::BinaryExpr {
        left: Box::new(col),
        op,
        right: Box::new(ExprView::Literal(value)),
    }
}

/// `col [NOT] BETWEEN low AND high`.
pub open spec fn between(col: ExprView, low: ScalarView, high: ScalarView, negated: bool) -> ExprView {
    ExprView::Between {
        expr: Box::new(col),
        negated,
        low: Box::new(ExprView::Literal(low)),
        high: Box::new(ExprView::Literal(high)),
    }
}

/// The null of an integer type.
pub open spec fn integer_null(value_type: ValueType) -> ScalarView {
    cast::typed_null(value_type)->0
}

/// What an expression that may be missing is.
pub open spec fn expr_view(expr: Option<Expr>) -> Option<ExprView> {
    match expr {
        Some(e) => Some(e@),
        None => None,
    }
}

/// False for rows that are not null, null for null rows: `col IS NULL AND
/// NULL`.
pub fn false_preserving_null(col: &Expr) -> (expr: Expr)
    ensures
        expr@ == constant(col@, false),
{
    proof {
        reveal_with_fuel(Expr::shape, 3);
    }
    Expr::BinaryExpr {
        left: Box::new(Expr::IsNull(Box::new(col.clone()))),
        op: Operator::And,
        right: Box::new(Expr::Literal(Scalar::Boolean(None))),
    }
}

/// True for rows that are not null, null for null rows: `col IS NOT NULL OR
/// NULL`.
pub fn true_preserving_null(col: &Expr) -> (expr: Expr)
    ensures
        expr@ == constant(col@, true),
{
    proof {
        reveal_with_fuel(Expr::shape, 3);
    }
    Expr::BinaryExpr {
        left: Box::new(Expr::IsNotNull(Box::new(col.clone()))),
        op: Operator::Or,
        right: Box::new(Expr::Literal(Scalar::Boolean(None))),
    }
}

/// `truth` for rows that are not null, null for null rows.
fn constant_preserving_null(col: &Expr, truth: bool) -> (expr: Expr)
    ensures
        expr@ == constant(col@, truth),
{
    if truth {
        true_preserving_null(col)
    } else {
        false_preserving_null(col)
    }
}

fn compare(col: &Expr, op: Operator, value: Scalar) -> (expr: Expr)
    ensures
        expr@ == comparison(col@, op, value@),
        expr matches Expr::BinaryExpr { right, .. } && *right == Expr::Literal(value),
{
    proof {
        reveal_with_fuel(Expr::shape, 2);
    }
    Expr::BinaryExpr {
        left: Box::new(col.clone()),
        op,
        right: Box::new(Expr::Literal(value)),
    }
}

fn range(col: &Expr, low: Scalar, high: Scalar, negated: bool) -> (expr: Expr)
    ensures
        expr@ == between(col@, low@, high@, negated),
        expr matches Expr::Between { low: l, high: h, .. } && *l == Expr::Literal(low) && *h
            == Expr::Literal(high),
{
    proof {
        reveal_with_fuel(Expr::shape, 2);
    }
    Expr::Between {
        expr: Box::new(col.clone()),
        negated,
        low: Box::new(Expr::Literal(low)),
        high: Box::new(Expr::Literal(high)),
    }
}

/// The column behind casts to floating point types, and its type. Only an
/// integer or floating point column is found behind a cast.
pub open spec fn column_behind(expr: ExprView, schema: Schema) -> Option<(ExprView, ValueType)>
    decreases expr,
{
    match expr {
        ExprView::Cast { expr: inner, target } | ExprView::TryCast { expr: inner, target } => {
            if !target.is_float() {
                None
            } else {
                match column_behind(*inner, schema) {
                    Some((col, value_type)) => if value_type.is_integer() || value_type.is_float() {
                        Some((col, value_type))
                    } else {
                        None
                    },
                    None => None,
                }
            }
        },
        _ => match schema.column_type(expr) {
            Some(value_type) => Some((expr, value_type)),
            None => None,
        },
    }
}

/// What a column and its type are.
pub open spec fn column_view(column: Option<(Expr, ValueType)>) -> Option<(ExprView, ValueType)> {
    match column {
        Some((col, value_type)) => Some((col@, value_type)),
        None => None,
    }
}

/// The underlying column behind `CAST(col AS float)` chains, if any: the
/// expression to keep in the rewritten filter, and its type.
pub fn extract_column(expr: &Expr, schema: &Schema) -> (column: Option<(Expr, ValueType)>)
    ensures
        column_view(column) == column_behind(expr@, *schema),
    decreases expr,
{
    match expr {
        Expr::Cast { expr: inner, target } | Expr::TryCast { expr: inner, target } => {
            if !is_float_type(target) {
                return None;
            }
            match extract_column(inner, schema) {
                Some((col, value_type)) => {
                    if is_integer_type(&value_type) || is_float_type(&value_type) {
                        Some((col, value_type))
                    } else {
                        None
                    }
                },
                None => None,
            }
        },
        _ => match resolve_column_type(expr, schema) {
            Some(value_type) => Some((expr.clone(), value_type)),
            None => None,
        },
    }
}

/// Whether a number is below every value of an integer type.
pub open spec fn below_range(value_type: ValueType, worth: Worth) -> bool {
    match worth {
        Worth::NegInfinity => true,
        Worth::Finite(units) => float::floor_units(units) < value_type.least(),
        _ => false,
    }
}

/// Whether a number is above every value of an integer type by one or more.
pub open spec fn above_range(value_type: ValueType, worth: Worth) -> bool {
    match worth {
        Worth::Infinity => true,
        Worth::Finite(units) => float::floor_units(units) > value_type.greatest(),
        _ => false,
    }
}

/// `col op number` for an integer column, without a floating point number.
pub open spec fn rewritten_number(
    col: ExprView,
    value_type: ValueType,
    op: Operator,
    worth: Worth,
) -> ExprView {
    if worth is Nan {
        constant(col, op == Operator::NotEq)
    } else if below_range(value_type, worth) {
        constant(col, op == Operator::NotEq || op == Operator::Gt || op == Operator::GtEq)
    } else if above_range(value_type, worth) {
        constant(col, op == Operator::NotEq || op == Operator::Lt || op == Operator::LtEq)
    } else {
        let units = worth->Finite_0;
        let floor = literal::integer_literal(value_type, float::floor_units(units));
        if float::integral_units(units) {
            comparison(col, op, floor)
        } else if op == Operator::Eq {
            constant(col, false)
        } else if op == Operator::NotEq {
            constant(col, true)
        } else if op == Operator::Gt || op == Operator::GtEq {
            comparison(col, Operator::Gt, floor)
        } else {
            comparison(col, Operator::LtEq, floor)
        }
    }
}

/// `col op number` for an integer column, without a floating point number; a
/// null number stays a null. `None` for a column of another type and for an
/// operator that is not a comparison.
pub open spec fn rewritten_int_float(
    col: ExprView,
    value_type: ValueType,
    op: Operator,
    worth: Option<Worth>,
) -> Option<ExprView> {
    if !value_type.is_integer() || !op.is_comparison() {
        None
    } else {
        match worth {
            Some(worth) => Some(rewritten_number(col, value_type, op, worth)),
            None => Some(comparison(col, op, integer_null(value_type))),
        }
    }
}

/// What the double of a number that may be null is worth.
pub open spec fn optional_worth(number: Option<u64>) -> Option<Worth> {
    match number {
        Some(bits) => Some(float::worth_64(bits)),
        None => None,
    }
}

/// Whether `op` is one of the six comparisons.
pub fn is_rewritable(op: Operator) -> (rewritable: bool)
    ensures
        rewritable == op.is_comparison(),
{
    match op {
        Operator::Eq
        | Operator::NotEq
        | Operator::Lt
        | Operator::LtEq
        | Operator::Gt
        | Operator::GtEq => true,
        _ => false,
    }
}

/// Rewrites `col op number` where `col` is an integer column and the number is
/// a double or null.
pub fn rewrite_int_float(
    col: &Expr,
    value_type: &ValueType,
    op: Operator,
    number: Option<u64>,
) -> (rewritten: Option<Expr>)
    ensures
        expr_view(rewritten) == rewritten_int_float(col@, *value_type, op, optional_worth(number)),
{
    let (min, max_exclusive): (i128, i128) = match int_bounds(value_type) {
        Some(bounds) => bounds,
        None => return None,
    };
    if !is_rewritable(op) {
        return None;
    }
    let bits: u64 = match number {
        Some(bits) => bits,
        None => {
            // `i op NULL` is null for every row.
            return match null_of(value_type) {
                Some(null) => Some(compare(col, op, null)),
                None => None,
            };
        },
    };
    let equal = matches!(op, Operator::Eq);
    let unequal = matches!(op, Operator::NotEq);
    let less = matches!(op, Operator::Lt | Operator::LtEq);
    let greater = matches!(op, Operator::Gt | Operator::GtEq);
    if float::is_nan(bits) {
        return Some(constant_preserving_null(col, unequal));
    }
    if float::is_infinite(bits) {
        return Some(
            if float::is_sign_negative(bits) {
                constant_preserving_null(col, unequal || greater)
            } else {
                constant_preserving_null(col, unequal || less)
            },
        );
    }
    let whole = float::floor_saturating(bits);
    // Out of range: the column can never equal the literal, and ordering is
    // decided by which side of the range the literal sits on.
    if whole.floor < min {
        return Some(constant_preserving_null(col, unequal || greater));
    }
    if whole.floor >= max_exclusive {
        return Some(constant_preserving_null(col, unequal || less));
    }
    let literal = match make_int_literal(value_type, whole.floor) {
        Some(literal) => literal,
        None => return None,
    };
    if whole.integral {
        return Some(compare(col, op, literal));
    }
    // Fractional value: equality never holds; ordering goes through the floor.
    if equal || unequal {
        return Some(constant_preserving_null(col, unequal));
    }
    Some(compare(col, if greater { Operator::Gt } else { Operator::LtEq }, literal))
}

/// The `Float32` literal nearest to a double.
pub open spec fn single_literal(number: Option<u64>) -> ScalarView {
    ScalarView::Float32(
        match number {
            Some(bits) => scalar::one_nan_32(Some(float::single_of(bits))),
            None => None,
        },
    )
}

/// `col op literal` for a `Float32` column, with a `Float32` literal that is
/// worth the same. `None` unless the literal is a double that went through a
/// cast and keeps its worth in single precision, or a null of that type.
pub open spec fn rewritten_float32_double(
    col: ExprView,
    op: Operator,
    literal: ScalarView,
    was_cast: bool,
) -> Option<ExprView> {
    match literal {
        ScalarView::Float64(number) => if was_cast && (number matches Some(bits)
            ==> float::is_exact(bits)) {
            Some(comparison(col, op, single_literal(number)))
        } else {
            None
        },
        _ => None,
    }
}

/// The `Float32` literal nearest to a double. The sign of a NaN is kept.
fn narrow_literal(number: Option<u64>) -> (literal: Scalar)
    ensures
        literal@ == single_literal(number),
        literal@ == single_literal(scalar::one_nan_64(number)),
        number matches Some(bits) ==> literal == Scalar::Float32(Some(float::single_of(bits))),
{
    match number {
        Some(bits) => {
            proof {
                float::lemma_single_of_nan(bits);
                float::lemma_single_of_nan(float::NAN_64);
            }
            Scalar::Float32(Some(float::narrow(bits)))
        },
        None => Scalar::Float32(None),
    }
}

/// Whether the right side of a comparison is the `Float32` literal of the
/// given bits.
pub open spec fn compares_with_single(expr: Expr, bits: u32) -> bool {
    expr matches Expr::BinaryExpr { right, .. } && *right == Expr::Literal(
        Scalar::Float32(Some(bits)),
    )
}

/// Rewrites `col op literal` where `col` is `Float32`.
///
/// Only a literal that went through a cast is considered. The sign of a NaN is
/// kept.
pub fn rewrite_float32_double(
    col: &Expr,
    op: Operator,
    literal: &Scalar,
    was_cast: bool,
) -> (rewritten: Option<Expr>)
    ensures
        expr_view(rewritten) == rewritten_float32_double(col@, op, literal@, was_cast),
        *literal matches Scalar::Float64(Some(bits)) ==> (rewritten matches Some(expr)
            ==> compares_with_single(expr, float::single_of(bits))),
{
    if !was_cast {
        return None;
    }
    match literal {
        Scalar::Float64(number) => {
            if let Some(bits) = *number {
                if !float::is_exact_f64_to_f32(bits) {
                    return None;
                }
            }
            Some(compare(col, op, narrow_literal(*number)))
        },
        _ => None,
    }
}

/// `col op literal` with a literal that suits the type of the column. `None`
/// where neither rewrite applies.
pub open spec fn rewritten_comparison(
    col: ExprView,
    value_type: ValueType,
    op: Operator,
    literal: ScalarView,
    was_cast: bool,
) -> Option<ExprView> {
    if value_type.is_integer() {
        match literal::float_worth(literal) {
            Some(worth) => rewritten_int_float(col, value_type, op, worth),
            None => None,
        }
    } else if value_type is Float32 {
        rewritten_float32_double(col, op, literal, was_cast)
    } else {
        None
    }
}

/// Tries to rewrite one comparison with the column on the left.
pub fn rewrite_comparison(
    col: &Expr,
    value_type: &ValueType,
    op: Operator,
    literal: &Scalar,
    was_cast: bool,
) -> (rewritten: Option<Expr>)
    ensures
        expr_view(rewritten) == rewritten_comparison(col@, *value_type, op, literal@, was_cast),
        value_type is Float32 ==> (*literal matches Scalar::Float64(Some(bits)) ==> (
        rewritten matches Some(expr) ==> compares_with_single(expr, float::single_of(bits)))),
{
    if is_integer_type(value_type) {
        return match float_scalar_to_f64(literal) {
            Some(number) => rewrite_int_float(col, value_type, op, number),
            None => None,
        };
    }
    match value_type {
        ValueType::Float32 => rewrite_float32_double(col, op, literal, was_cast),
        _ => None,
    }
}

/// `side op other`, where `side` is a column and `other` folds to a literal.
pub open spec fn rewritten_side(
    side: ExprView,
    op: Operator,
    other: ExprView,
    schema: Schema,
) -> Option<ExprView> {
    match (column_behind(side, schema), literal::folded_literal(other)) {
        (Some((col, value_type)), Some((value, was_cast))) => rewritten_comparison(
            col,
            value_type,
            op,
            value,
            was_cast,
        ),
        _ => None,
    }
}

/// `left op right` with the column on the left, if either side is a column
/// that is compared with a literal.
pub open spec fn rewritten_binary(
    left: ExprView,
    op: Operator,
    right: ExprView,
    schema: Schema,
) -> Option<ExprView> {
    if !op.is_comparison() {
        None
    } else {
        match rewritten_side(left, op, right, schema) {
            Some(rewritten) => Some(rewritten),
            None => rewritten_side(right, op.mirrored()->0, left, schema),
        }
    }
}

/// Whether a rewritten comparison of a `Float32` column compares it with the
/// single nearest to the double that `other` is, if it is one that no cast has
/// changed, bit for bit, the sign of a NaN among the bits.
pub open spec fn narrows_side(side: Expr, other: Expr, schema: Schema, rewritten: Expr) -> bool {
    column_behind(side@, schema) matches Some((_, ValueType::Float32)) ==> (literal::exact_double(
        other,
    ) matches Some(bits) ==> compares_with_single(rewritten, float::single_of(bits)))
}

fn rewrite_side(side: &Expr, op: Operator, other: &Expr, schema: &Schema) -> (rewritten: Option<
    Expr,
>)
    ensures
        expr_view(rewritten) == rewritten_side(side@, op, other@, *schema),
        rewritten matches Some(expr) ==> narrows_side(*side, *other, *schema, expr),
{
    match extract_column(side, schema) {
        Some((col, value_type)) => match extract_literal(other) {
            Some((value, was_cast)) => rewrite_comparison(&col, &value_type, op, &value, was_cast),
            None => None,
        },
        None => None,
    }
}

/// Rewrites a comparison, handling a column on either side.
///
/// Unwraps casts on the column side and folds casts on the literal side. `AND`
/// and `OR` are left for the caller.
pub fn rewrite_binary(left: &Expr, op: Operator, right: &Expr, schema: &Schema) -> (rewritten:
    Option<Expr>)
    ensures
        expr_view(rewritten) == rewritten_binary(left@, op, right@, *schema),
        rewritten matches Some(expr) ==> if rewritten_side(left@, op, right@, *schema) is Some {
            narrows_side(*left, *right, *schema, expr)
        } else {
            narrows_side(*right, *left, *schema, expr)
        },
{
    if !is_rewritable(op) {
        return None;
    }
    if let Some(rewritten) = rewrite_side(left, op, right, schema) {
        return Some(rewritten);
    }
    match op.swap() {
        Some(swapped) => rewrite_side(right, swapped, left, schema),
        None => None,
    }
}

/// What a bound of a range says of an integer column.
pub enum Bound {
    /// No value satisfies the bound.
    Never,
    /// Every value satisfies the bound.
    Always,
    /// The bound is this value of the type of the column.
    At(int),
}

/// The bound `col >= number` of an integer column.
pub open spec fn lower_bound(value_type: ValueType, worth: Worth) -> Bound {
    match worth {
        Worth::Nan | Worth::Infinity => Bound::Never,
        Worth::NegInfinity => Bound::Always,
        Worth::Finite(units) => {
            let ceil = float::ceil_units(units);
            if ceil < value_type.least() {
                Bound::Always
            } else if ceil > value_type.greatest() {
                Bound::Never
            } else {
                Bound::At(ceil)
            }
        },
    }
}

/// The bound `col <= number` of an integer column.
pub open spec fn upper_bound(value_type: ValueType, worth: Worth) -> Bound {
    match worth {
        Worth::Nan | Worth::NegInfinity => Bound::Never,
        Worth::Infinity => Bound::Always,
        Worth::Finite(units) => {
            let floor = float::floor_units(units);
            if floor < value_type.least() {
                Bound::Never
            } else if floor > value_type.greatest() {
                Bound::Always
            } else {
                Bound::At(floor)
            }
        },
    }
}

/// Whether the outcome of `ceil_for_lower` or `floor_for_upper` says what the
/// bound says: `Ok` with the literal of the bound, `Err(true)` where every
/// value satisfies it, `Err(false)` where none does.
pub open spec fn is_bound(value_type: ValueType, bound: Bound, outcome: Result<Scalar, bool>) -> bool {
    match bound {
        Bound::Never => outcome == Err::<Scalar, bool>(false),
        Bound::Always => outcome == Err::<Scalar, bool>(true),
        Bound::At(value) => outcome matches Ok(literal) && literal@ == literal::integer_literal(
            value_type,
            value,
        ),
    }
}

/// Whether the outcome for a bound that may be null says what the bound says.
pub open spec fn is_optional_bound(
    value_type: ValueType,
    bound: Option<Bound>,
    outcome: Option<Result<Scalar, bool>>,
) -> bool {
    match (bound, outcome) {
        (Some(b), Some(o)) => is_bound(value_type, b, o),
        (None, None) => true,
        _ => false,
    }
}

/// The ceiling of a double as a literal of an integer type, for the bound
/// `>=`; or `Err(true)` where the bound is always satisfied, and `Err(false)`
/// where it never is. For a type that is not an integer type it never is.
pub fn ceil_for_lower(value_type: &ValueType, bits: u64) -> (outcome: Result<Scalar, bool>)
    ensures
        value_type.is_integer() ==> is_bound(
            *value_type,
            lower_bound(*value_type, float::worth_64(bits)),
            outcome,
        ),
        !value_type.is_integer() ==> outcome == Err::<Scalar, bool>(false),
{
    let (min, max_exclusive): (i128, i128) = match int_bounds(value_type) {
        Some(bounds) => bounds,
        None => return Err(false),
    };
    if float::is_nan(bits) {
        return Err(false);
    }
    if float::is_infinite(bits) {
        return Err(float::is_sign_negative(bits));
    }
    let whole = float::floor_saturating(bits);
    proof {
        float::lemma_ceil_of_floor(float::units_64(bits));
    }
    if whole.floor < min - 1 {
        return Err(true);
    }
    if whole.floor >= max_exclusive {
        return Err(false);
    }
    let ceil: i128 = if whole.integral { whole.floor } else { whole.floor + 1 };
    if ceil < min {
        return Err(true);
    }
    if ceil >= max_exclusive {
        return Err(false);
    }
    match make_int_literal(value_type, ceil) {
        Some(literal) => Ok(literal),
        None => Err(false),
    }
}

/// The floor of a double as a literal of an integer type, for the bound `<=`;
/// or `Err(true)` where the bound is always satisfied, and `Err(false)` where
/// it never is. For a type that is not an integer type it never is.
pub fn floor_for_upper(value_type: &ValueType, bits: u64) -> (outcome: Result<Scalar, bool>)
    ensures
        value_type.is_integer() ==> is_bound(
            *value_type,
            upper_bound(*value_type, float::worth_64(bits)),
            outcome,
        ),
        !value_type.is_integer() ==> outcome == Err::<Scalar, bool>(false),
{
    let (min, max_exclusive): (i128, i128) = match int_bounds(value_type) {
        Some(bounds) => bounds,
        None => return Err(false),
    };
    if float::is_nan(bits) {
        return Err(false);
    }
    if float::is_infinite(bits) {
        return Err(!float::is_sign_negative(bits));
    }
    let whole = float::floor_saturating(bits);
    if whole.floor < min {
        return Err(false);
    }
    if whole.floor >= max_exclusive {
        return Err(true);
    }
    match make_int_literal(value_type, whole.floor) {
        Some(literal) => Ok(literal),
        None => Err(false),
    }
}

/// The literal that stands for a bound beside a null one: the value of the
/// bound, or a null where it has none.
pub open spec fn bound_or_null(value_type: ValueType, bound: Option<Bound>) -> ScalarView {
    match bound {
        Some(Bound::At(value)) => literal::integer_literal(value_type, value),
        _ => integer_null(value_type),
    }
}

/// `col [NOT] BETWEEN low AND high` for an integer column, without floating
/// point numbers, by what the bounds say; `None` is a null bound. A bound that
/// no value satisfies decides the predicate, whatever the other bound is;
/// beside a null bound that does not, the predicate keeps its shape.
pub open spec fn rewritten_bounds(
    col: ExprView,
    value_type: ValueType,
    low: Option<Bound>,
    high: Option<Bound>,
    negated: bool,
) -> ExprView {
    match (low, high) {
        (Some(Bound::Never), _) | (_, Some(Bound::Never)) => constant(col, negated),
        (None, _) | (_, None) => between(
            col,
            bound_or_null(value_type, low),
            bound_or_null(value_type, high),
            negated,
        ),
        (Some(Bound::Always), Some(Bound::Always)) => constant(col, !negated),
        (Some(Bound::Always), Some(Bound::At(h))) => comparison(
            col,
            if negated {
                Operator::Gt
            } else {
                Operator::LtEq
            },
            literal::integer_literal(value_type, h),
        ),
        (Some(Bound::At(l)), Some(Bound::Always)) => comparison(
            col,
            if negated {
                Operator::Lt
            } else {
                Operator::GtEq
            },
            literal::integer_literal(value_type, l),
        ),
        (Some(Bound::At(l)), Some(Bound::At(h))) => if l > h {
            constant(col, negated)
        } else {
            between(
                col,
                literal::integer_literal(value_type, l),
                literal::integer_literal(value_type, h),
                negated,
            )
        },
    }
}

/// The bound `col >= number` of an integer column, where the number may be
/// null.
pub open spec fn optional_lower_bound(value_type: ValueType, number: Option<Worth>) -> Option<Bound> {
    match number {
        Some(worth) => Some(lower_bound(value_type, worth)),
        None => None,
    }
}

/// The bound `col <= number` of an integer column, where the number may be
/// null.
pub open spec fn optional_upper_bound(value_type: ValueType, number: Option<Worth>) -> Option<Bound> {
    match number {
        Some(worth) => Some(upper_bound(value_type, worth)),
        None => None,
    }
}

/// `col [NOT] BETWEEN low AND high` for an integer column, without floating
/// point numbers.
pub open spec fn rewritten_int_between(
    col: ExprView,
    value_type: ValueType,
    low: Option<Worth>,
    high: Option<Worth>,
    negated: bool,
) -> ExprView {
    rewritten_bounds(
        col,
        value_type,
        optional_lower_bound(value_type, low),
        optional_upper_bound(value_type, high),
        negated,
    )
}

/// Whether a literal, if it went through a cast, is one that keeps its worth
/// in single precision.
pub open spec fn single_suits(number: Option<u64>, was_cast: bool) -> bool {
    was_cast ==> (number matches Some(bits) ==> float::is_exact(bits))
}

/// `col [NOT] BETWEEN low AND high` for literals, each with the mark of a
/// cast, with literals that suit the type of the column. `None` where neither
/// rewrite applies.
pub open spec fn rewritten_between(
    col: ExprView,
    value_type: ValueType,
    low: (ScalarView, bool),
    high: (ScalarView, bool),
    negated: bool,
) -> Option<ExprView> {
    if value_type.is_integer() {
        match (literal::float_worth(low.0), literal::float_worth(high.0)) {
            (Some(l), Some(h)) => Some(rewritten_int_between(col, value_type, l, h, negated)),
            _ => None,
        }
    } else if value_type is Float32 {
        match (low.0, high.0) {
            (ScalarView::Float64(l), ScalarView::Float64(h)) => if (low.1 || high.1)
                && single_suits(l, low.1) && single_suits(h, high.1) {
                Some(between(col, single_literal(l), single_literal(h), negated))
            } else {
                None
            },
            _ => None,
        }
    } else {
        None
    }
}

/// Whether an expression is the `Float32` literal nearest to the double that
/// another one is, if it is one that no cast has changed, bit for bit, the sign
/// of a NaN among the bits.
pub open spec fn is_exactly_narrowed(double: Expr, expr: Expr) -> bool {
    literal::exact_double(double) matches Some(bits) ==> expr == Expr::Literal(
        Scalar::Float32(Some(float::single_of(bits))),
    )
}

/// Whether the bounds of a rewritten range are exactly narrowed.
pub open spec fn narrows_bounds(low: Expr, high: Expr, rewritten: Expr) -> bool {
    &&& rewritten matches Expr::Between { low: l, high: h, .. }
    &&& is_exactly_narrowed(low, *l)
    &&& is_exactly_narrowed(high, *h)
}

/// Whether an expression is the `Float32` literal nearest to a double literal
/// that is not null, bit for bit.
pub open spec fn is_narrowed(value: Scalar, expr: Expr) -> bool {
    value matches Scalar::Float64(Some(bits)) ==> expr == Expr::Literal(
        Scalar::Float32(Some(float::single_of(bits))),
    )
}

fn single_suits_literal(number: Option<u64>, was_cast: bool) -> (suits: bool)
    ensures
        suits == single_suits(number, was_cast),
        suits == single_suits(scalar::one_nan_64(number), was_cast),
{
    match number {
        Some(bits) => !was_cast || float::is_exact_f64_to_f32(bits),
        None => true,
    }
}

fn integer_null_literal(value_type: &ValueType) -> (literal: Scalar)
    requires
        value_type.is_integer(),
    ensures
        literal@ == integer_null(*value_type),
{
    match null_of(value_type) {
        Some(null) => null,
        None => Scalar::Null,
    }
}

/// The value of an integer literal.
pub open spec fn integer_value(value: ScalarView) -> Option<int> {
    match value {
        ScalarView::Int8(Some(v)) => Some(v as int),
        ScalarView::Int16(Some(v)) => Some(v as int),
        ScalarView::Int32(Some(v)) => Some(v as int),
        ScalarView::Int64(Some(v)) => Some(v as int),
        ScalarView::UInt8(Some(v)) => Some(v as int),
        ScalarView::UInt16(Some(v)) => Some(v as int),
        ScalarView::UInt32(Some(v)) => Some(v as int),
        ScalarView::UInt64(Some(v)) => Some(v as int),
        _ => None,
    }
}

/// The value of an integer literal.
fn literal_value(value: &Scalar) -> (number: Option<i128>)
    ensures
        match number {
            Some(n) => integer_value(value@) == Some(n as int),
            None => integer_value(value@) is None,
        },
{
    match value {
        Scalar::Int8(Some(v)) => Some(*v as i128),
        Scalar::Int16(Some(v)) => Some(*v as i128),
        Scalar::Int32(Some(v)) => Some(*v as i128),
        Scalar::Int64(Some(v)) => Some(*v as i128),
        Scalar::UInt8(Some(v)) => Some(*v as i128),
        Scalar::UInt16(Some(v)) => Some(*v as i128),
        Scalar::UInt32(Some(v)) => Some(*v as i128),
        Scalar::UInt64(Some(v)) => Some(*v as i128),
        _ => None,
    }
}

/// What `ceil_for_lower` says of a lower bound that may be null.
fn lower_outcome(value_type: &ValueType, number: Option<u64>) -> (outcome: Option<Result<Scalar, bool>>)
    requires
        value_type.is_integer(),
    ensures
        is_optional_bound(
            *value_type,
            optional_lower_bound(*value_type, optional_worth(number)),
            outcome,
        ),
{
    match number {
        Some(bits) => Some(ceil_for_lower(value_type, bits)),
        None => None,
    }
}

/// What `floor_for_upper` says of an upper bound that may be null.
fn upper_outcome(value_type: &ValueType, number: Option<u64>) -> (outcome: Option<Result<Scalar, bool>>)
    requires
        value_type.is_integer(),
    ensures
        is_optional_bound(
            *value_type,
            optional_upper_bound(*value_type, optional_worth(number)),
            outcome,
        ),
{
    match number {
        Some(bits) => Some(floor_for_upper(value_type, bits)),
        None => None,
    }
}

/// The literal that stands for a bound beside a null one.
fn literal_or_null(
    value_type: &ValueType,
    outcome: Option<Result<Scalar, bool>>,
    Ghost(bound): Ghost<Option<Bound>>,
) -> (literal: Scalar)
    requires
        value_type.is_integer(),
        is_optional_bound(*value_type, bound, outcome),
    ensures
        literal@ == bound_or_null(*value_type, bound),
{
    match outcome {
        Some(Ok(literal)) => literal,
        _ => integer_null_literal(value_type),
    }
}

/// Rewrites `col [NOT] BETWEEN low AND high` over an integer column, for
/// doubles and nulls.
fn rewrite_bounds(
    col: &Expr,
    value_type: &ValueType,
    low: Option<u64>,
    high: Option<u64>,
    negated: bool,
) -> (rewritten: Expr)
    requires
        value_type.is_integer(),
    ensures
        rewritten@ == rewritten_int_between(
            col@,
            *value_type,
            optional_worth(low),
            optional_worth(high),
            negated,
        ),
{
    let ghost low_bound = optional_lower_bound(*value_type, optional_worth(low));
    let ghost high_bound = optional_upper_bound(*value_type, optional_worth(high));
    match (lower_outcome(value_type, low), upper_outcome(value_type, high)) {
        (Some(Err(false)), _) | (_, Some(Err(false))) => {
            // The predicate without the negation never holds.
            constant_preserving_null(col, negated)
        },
        (Some(Err(true)), Some(Err(true))) => constant_preserving_null(col, !negated),
        (Some(Err(true)), Some(Ok(high))) => {
            compare(col, if negated { Operator::Gt } else { Operator::LtEq }, high)
        },
        (Some(Ok(low)), Some(Err(true))) => {
            compare(col, if negated { Operator::Lt } else { Operator::GtEq }, low)
        },
        (Some(Ok(low)), Some(Ok(high))) => {
            // Empty range when the integer low exceeds the integer high.
            let empty = match (literal_value(&low), literal_value(&high)) {
                (Some(l), Some(h)) => l > h,
                _ => false,
            };
            if empty {
                constant_preserving_null(col, negated)
            } else {
                range(col, low, high, negated)
            }
        },
        (low, high) => {
            // A null bound stays a typed null, and one that every value
            // satisfies becomes one, so that the predicate is null wherever
            // the other bound does not decide it.
            let low = literal_or_null(value_type, low, Ghost(low_bound));
            let high = literal_or_null(value_type, high, Ghost(high_bound));
            range(col, low, high, negated)
        },
    }
}

/// Rewrites `col [NOT] BETWEEN low AND high` for two literals, each with the
/// mark of a cast.
pub fn rewrite_between_literals(
    col: &Expr,
    value_type: &ValueType,
    low: &(Scalar, bool),
    high: &(Scalar, bool),
    negated: bool,
) -> (rewritten: Option<Expr>)
    ensures
        expr_view(rewritten) == rewritten_between(
            col@,
            *value_type,
            (low.0@, low.1),
            (high.0@, high.1),
            negated,
        ),
        value_type is Float32 ==> (rewritten matches Some(expr) ==> {
            &&& expr matches Expr::Between { low: l, high: h, .. }
            &&& is_narrowed(low.0, *l)
            &&& is_narrowed(high.0, *h)
        }),
{
    if !is_integer_type(value_type) {
        // `Float32` with typed double bounds that keep their worth: convert
        // both, or leave the whole predicate alone.
        return match (value_type, &low.0, &high.0) {
            (ValueType::Float32, Scalar::Float64(l), Scalar::Float64(h)) => {
                if !single_suits_literal(*l, low.1) || !single_suits_literal(*h, high.1) {
                    return None;
                }
                if !low.1 && !high.1 {
                    return None;
                }
                Some(range(col, narrow_literal(*l), narrow_literal(*h), negated))
            },
            _ => None,
        };
    }
    let low_number = match float_scalar_to_f64(&low.0) {
        Some(number) => number,
        None => return None,
    };
    let high_number = match float_scalar_to_f64(&high.0) {
        Some(number) => number,
        None => return None,
    };
    Some(rewrite_bounds(col, value_type, low_number, high_number, negated))
}

/// Rewrites `col BETWEEN low AND high`, or `NOT BETWEEN`, over an integer
/// column with floating point bounds, or over a `Float32` column with typed
/// double bounds. Returns `None` when the bounds are not such literals.
pub fn rewrite_between(
    col: &Expr,
    value_type: &ValueType,
    low: &Expr,
    high: &Expr,
    negated: bool,
) -> (rewritten: Option<Expr>)
    ensures
        expr_view(rewritten) == match (
            literal::folded_literal(low@),
            literal::folded_literal(high@),
        ) {
            (Some(l), Some(h)) => rewritten_between(col@, *value_type, l, h, negated),
            _ => None,
        },
        value_type is Float32 ==> (rewritten matches Some(expr) ==> narrows_bounds(
            *low,
            *high,
            expr,
        )),
{
    match (extract_literal(low), extract_literal(high)) {
        (Some(low), Some(high)) => rewrite_between_literals(col, value_type, &low, &high, negated),
        _ => None,
    }
}

/// Tries to rewrite a `BETWEEN` predicate, unwrapping `CAST(col AS float)`.
pub fn try_rewrite_between_expr(
    inner: &Expr,
    low: &Expr,
    high: &Expr,
    negated: bool,
    schema: &Schema,
) -> (rewritten: Option<Expr>)
    ensures
        expr_view(rewritten) == match (
            column_behind(inner@, *schema),
            literal::folded_literal(low@),
            literal::folded_literal(high@),
        ) {
            (Some((col, value_type)), Some(l), Some(h)) => rewritten_between(
                col,
                value_type,
                l,
                h,
                negated,
            ),
            _ => None,
        },
        column_behind(inner@, *schema) matches Some((_, ValueType::Float32)) ==> (
        rewritten matches Some(expr) ==> narrows_bounds(*low, *high, expr)),
{
    match extract_column(inner, schema) {
        Some((col, value_type)) => rewrite_between(&col, &value_type, low, high, negated),
        None => None,
    }
}

/// `col [NOT] IN (list)`.
pub open spec fn in_list(col: ExprView, list: Seq<ExprView>, negated: bool) -> ExprView {
    ExprView::InList { expr: Box::new(col), list, negated }
}

/// The literal that an element of a list stands for in a list of an integer
/// type: a null stays one, a number that no value of the type equals has none.
pub open spec fn surviving(value_type: ValueType, worth: Option<Worth>) -> Option<ScalarView> {
    match worth {
        None => Some(integer_null(value_type)),
        Some(Worth::Finite(units)) => if float::integral_units(units) && value_type.least()
            <= float::floor_units(units) <= value_type.greatest() {
            Some(literal::integer_literal(value_type, float::floor_units(units)))
        } else {
            None
        },
        Some(_) => None,
    }
}

/// The literals that the elements of a list stand for, in their order.
pub open spec fn survivors(value_type: ValueType, worths: Seq<Option<Worth>>) -> Seq<ExprView>
    decreases worths.len(),
{
    if worths.len() == 0 {
        Seq::empty()
    } else {
        let rest = survivors(value_type, worths.drop_last());
        match surviving(value_type, worths.last()) {
            Some(value) => rest.push(ExprView::Literal(value)),
            None => rest,
        }
    }
}

/// What the elements of a list of floating point literals are worth.
pub open spec fn list_worths(items: Seq<(ScalarView, bool)>) -> Seq<Option<Worth>> {
    items.map_values(|item: (ScalarView, bool)| literal::float_worth(item.0)->0)
}

/// Whether every element of a list is a floating point literal.
pub open spec fn all_floats(items: Seq<(ScalarView, bool)>) -> bool {
    forall|i: int| 0 <= i < items.len() ==> literal::float_worth((#[trigger] items[i]).0) is Some
}

/// Whether an element of a list has a `Float32` literal of the same worth: a
/// null double, or one that went through a cast and keeps its worth.
pub open spec fn is_single_item(item: (ScalarView, bool)) -> bool {
    item.0 matches ScalarView::Float64(number) && (number matches Some(bits) ==> item.1
        && float::is_exact(bits))
}

/// Whether every element of a list has a `Float32` literal of the same worth.
pub open spec fn all_singles(items: Seq<(ScalarView, bool)>) -> bool {
    forall|i: int| 0 <= i < items.len() ==> is_single_item(#[trigger] items[i])
}

/// Whether an element of a list went through a cast.
pub open spec fn any_cast(items: Seq<(ScalarView, bool)>) -> bool {
    exists|i: int| 0 <= i < items.len() && (#[trigger] items[i]).1
}

/// The `Float32` literals of the elements of a list of doubles.
pub open spec fn single_items(items: Seq<(ScalarView, bool)>) -> Seq<ExprView> {
    items.map_values(
        |item: (ScalarView, bool)| ExprView::Literal(single_literal(item.0->Float64_0)),
    )
}

/// `col [NOT] IN (items)` for literals, each with the mark of a cast, with
/// literals that suit the type of the column. `None` where neither rewrite
/// applies.
pub open spec fn rewritten_in_list(
    col: ExprView,
    value_type: ValueType,
    items: Seq<(ScalarView, bool)>,
    negated: bool,
) -> Option<ExprView> {
    if value_type.is_integer() {
        if all_floats(items) {
            let list = survivors(value_type, list_worths(items));
            if list.len() == 0 {
                Some(constant(col, negated))
            } else {
                Some(in_list(col, list, negated))
            }
        } else {
            None
        }
    } else if value_type is Float32 && all_singles(items) && any_cast(items) {
        Some(in_list(col, single_items(items), negated))
    } else {
        None
    }
}

/// What literals with the mark of a cast are.
pub open spec fn item_views(items: Seq<(Scalar, bool)>) -> Seq<(ScalarView, bool)> {
    items.map_values(|item: (Scalar, bool)| (item.0@, item.1))
}

/// What the literals that expressions fold to are; `None` if one does not fold
/// to a literal.
pub open spec fn folded_literals(list: Seq<ExprView>) -> Option<Seq<(ScalarView, bool)>> {
    if forall|i: int| 0 <= i < list.len() ==> literal::folded_literal(#[trigger] list[i]) is Some {
        Some(list.map_values(|item: ExprView| literal::folded_literal(item)->0))
    } else {
        None
    }
}

fn membership(col: &Expr, list: Vec<Expr>, negated: bool) -> (expr: Expr)
    ensures
        expr@ == in_list(col@, crate::expr::views(list@), negated),
        expr matches Expr::InList { list: l, .. } && l == list,
{
    let expr = Expr::InList { expr: Box::new(col.clone()), list, negated };
    assert(expr@->InList_list =~= crate::expr::views(list@));
    expr
}

/// The literal that an element of a list stands for in a list of an integer
/// type.
fn survivor(value_type: &ValueType, number: Option<u64>) -> (literal: Option<Scalar>)
    requires
        value_type.is_integer(),
    ensures
        cast::scalar_view(literal) == surviving(*value_type, optional_worth(number)),
{
    let bits: u64 = match number {
        Some(bits) => bits,
        None => return Some(integer_null_literal(value_type)),
    };
    if float::is_nan(bits) || float::is_infinite(bits) {
        return None;
    }
    let (min, max_exclusive): (i128, i128) = match int_bounds(value_type) {
        Some(bounds) => bounds,
        None => return None,
    };
    let whole = float::floor_saturating(bits);
    if whole.integral && min <= whole.floor && whole.floor < max_exclusive {
        make_int_literal(value_type, whole.floor)
    } else {
        None
    }
}

/// Rewrites `col [NOT] IN (items)` over an integer column.
fn rewrite_int_list(
    col: &Expr,
    value_type: &ValueType,
    items: &Vec<(Scalar, bool)>,
    negated: bool,
) -> (rewritten: Option<Expr>)
    requires
        value_type.is_integer(),
    ensures
        expr_view(rewritten) == rewritten_in_list(
            col@,
            *value_type,
            item_views(items@),
            negated,
        ),
{
    let ghost seen = item_views(items@);
    let ghost worths = list_worths(seen);
    let mut list: Vec<Expr> = Vec::new();
    assert(crate::expr::views(list@) == survivors(*value_type, worths.take(0)));
    for i in 0..items.len()
        invariant
            value_type.is_integer(),
            seen == item_views(items@),
            worths == list_worths(seen),
            forall|j: int|
                0 <= j < i ==> literal::float_worth((#[trigger] seen[j]).0) is Some,
            crate::expr::views(list@) == survivors(*value_type, worths.take(i as int)),
    {
        assert(seen[i as int].0 == items@[i as int].0@);
        let number = match float_scalar_to_f64(&items[i].0) {
            Some(number) => number,
            None => return None,
        };
        assert(worths.take(i + 1).drop_last() == worths.take(i as int));
        assert(worths[i as int] == optional_worth(number));
        let ghost before = list@;
        if let Some(literal) = survivor(value_type, number) {
            let element = Expr::Literal(literal);
            list.push(element);
            assert(crate::expr::views(list@) == crate::expr::views(before).push(element@));
        }
    }
    assert(worths.take(items@.len() as int) == worths);
    assert(crate::expr::views(list@).len() == list@.len());
    if list.len() == 0 {
        return Some(constant_preserving_null(col, negated));
    }
    Some(membership(col, list, negated))
}

/// Rewrites `col [NOT] IN (items)` over a `Float32` column.
fn rewrite_single_list(
    col: &Expr,
    value_type: &ValueType,
    items: &Vec<(Scalar, bool)>,
    negated: bool,
) -> (rewritten: Option<Expr>)
    requires
        value_type is Float32,
    ensures
        expr_view(rewritten) == rewritten_in_list(
            col@,
            *value_type,
            item_views(items@),
            negated,
        ),
        rewritten matches Some(expr) ==> {
            &&& expr matches Expr::InList { list, .. }
            &&& list@.len() == items@.len()
            &&& forall|i: int|
                0 <= i < items@.len() ==> is_narrowed((#[trigger] items@[i]).0, list@[i])
        },
{
    let ghost seen = item_views(items@);
    let mut list: Vec<Expr> = Vec::new();
    let mut needs_rewrite = false;
    for i in 0..items.len()
        invariant
            value_type is Float32,
            seen == item_views(items@),
            list@.len() == i,
            forall|j: int| 0 <= j < i ==> is_single_item(#[trigger] seen[j]),
            forall|j: int| #![trigger list@[j]] 0 <= j < i ==> list@[j]@ == single_items(seen)[j],
            forall|j: int| 0 <= j < i ==> is_narrowed((#[trigger] items@[j]).0, list@[j]),
            needs_rewrite == exists|j: int| 0 <= j < i && (#[trigger] seen[j]).1,
    {
        assert(seen[i as int].0 == items@[i as int].0@);
        assert(seen[i as int].1 == items@[i as int].1);
        let was_cast = items[i].1;
        match &items[i].0 {
            Scalar::Float64(number) => {
                if number.is_some() && !(was_cast && single_suits_literal(*number, was_cast)) {
                    assert(!is_single_item(seen[i as int]));
                    return None;
                }
                list.push(Expr::Literal(narrow_literal(*number)));
            },
            _ => {
                assert(!is_single_item(seen[i as int]));
                return None;
            },
        }
        needs_rewrite = needs_rewrite || was_cast;
    }
    if !needs_rewrite {
        return None;
    }
    assert(crate::expr::views(list@) =~= single_items(seen));
    Some(membership(col, list, negated))
}

/// Rewrites `col [NOT] IN (items)` for literals, each with the mark of a cast.
pub fn rewrite_in_list_literals(
    col: &Expr,
    value_type: &ValueType,
    items: &Vec<(Scalar, bool)>,
    negated: bool,
) -> (rewritten: Option<Expr>)
    ensures
        expr_view(rewritten) == rewritten_in_list(
            col@,
            *value_type,
            item_views(items@),
            negated,
        ),
        value_type is Float32 ==> (rewritten matches Some(expr) ==> {
            &&& expr matches Expr::InList { list, .. }
            &&& list@.len() == items@.len()
            &&& forall|i: int|
                0 <= i < items@.len() ==> is_narrowed((#[trigger] items@[i]).0, list@[i])
        }),
{
    if is_integer_type(value_type) {
        return rewrite_int_list(col, value_type, items, negated);
    }
    match value_type {
        ValueType::Float32 => rewrite_single_list(col, value_type, items, negated),
        _ => None,
    }
}

/// Whether a literal is the double that an expression is, if it is one that no
/// cast has changed, bit for bit.
pub open spec fn is_exact_item(expr: Expr, value: Scalar) -> bool {
    literal::exact_double(expr) matches Some(bits) ==> value == Scalar::Float64(Some(bits))
}

/// Whether the elements of a rewritten list are exactly narrowed.
pub open spec fn narrows_items(list: Seq<Expr>, rewritten: Expr) -> bool {
    &&& rewritten matches Expr::InList { list: narrowed, .. }
    &&& narrowed@.len() == list.len()
    &&& forall|i: int|
        0 <= i < list.len() ==> is_exactly_narrowed(#[trigger] list[i], narrowed@[i])
}

/// The literals that expressions fold to; `None` if one does not fold to a
/// literal.
fn extract_literals(list: &[Expr]) -> (items: Option<Vec<(Scalar, bool)>>)
    ensures
        match items {
            Some(items) => {
                &&& folded_literals(crate::expr::views(list@)) == Some(item_views(items@))
                &&& forall|i: int|
                    0 <= i < list@.len() ==> is_exact_item(#[trigger] list@[i], items@[i].0)
            },
            None => folded_literals(crate::expr::views(list@)) is None,
        },
{
    let ghost shapes = crate::expr::views(list@);
    let mut items: Vec<(Scalar, bool)> = Vec::new();
    for i in 0..list.len()
        invariant
            shapes == crate::expr::views(list@),
            items@.len() == i,
            forall|j: int|
                0 <= j < i ==> literal::folded_literal(#[trigger] shapes[j]) == Some(
                    item_views(items@)[j],
                ),
            forall|j: int| 0 <= j < i ==> is_exact_item(#[trigger] list@[j], items@[j].0),
    {
        assert(shapes[i as int] == list@[i as int]@);
        match extract_literal(&list[i]) {
            Some(item) => {
                let ghost before = items@;
                items.push(item);
                assert(item_views(items@) == item_views(before).push((item.0@, item.1)));
            },
            None => return None,
        }
    }
    assert(item_views(items@) =~= folded_literals(shapes)->0);
    Some(items)
}

/// Rewrites `col IN (list)`, or `NOT IN`, over an integer column with floating
/// point elements, or over a `Float32` column with typed doubles.
///
/// Over an integer column, elements that no value equals are dropped, and a
/// list without survivors becomes a constant.
pub fn rewrite_in_list(
    col: &Expr,
    value_type: &ValueType,
    list: &[Expr],
    negated: bool,
) -> (rewritten: Option<Expr>)
    ensures
        expr_view(rewritten) == match folded_literals(crate::expr::views(list@)) {
            Some(items) => rewritten_in_list(col@, *value_type, items, negated),
            None => None,
        },
        value_type is Float32 ==> (rewritten matches Some(expr) ==> narrows_items(list@, expr)),
{
    match extract_literals(list) {
        Some(items) => rewrite_in_list_literals(col, value_type, &items, negated),
        None => None,
    }
}

/// Tries to rewrite an `IN` list, unwrapping `CAST(col AS float)`.
pub fn try_rewrite_in_list_expr(
    col: &Expr,
    list: &[Expr],
    negated: bool,
    schema: &Schema,
) -> (rewritten: Option<Expr>)
    ensures
        expr_view(rewritten) == match (
            column_behind(col@, *schema),
            folded_literals(crate::expr::views(list@)),
        ) {
            (Some((column, value_type)), Some(items)) => rewritten_in_list(
                column,
                value_type,
                items,
                negated,
            ),
            _ => None,
        },
        column_behind(col@, *schema) matches Some((_, ValueType::Float32)) ==> (
        rewritten matches Some(expr) ==> narrows_items(list@, expr)),
{
    match extract_column(col, schema) {
        Some((column, value_type)) => rewrite_in_list(&column, &value_type, list, negated),
        None => None,
    }
}

} // verus!
