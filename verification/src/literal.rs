//! Reading literals out of expressions, and making integer literals.

use crate::cast::{self, cast_to, meant_type, null_of};
use crate::expr::{Expr, ExprView};
use crate::float::{self, Worth};
use crate::scalar::{self, Scalar, ScalarView};
use crate::special::{self, parse_special_float};
use crate::value_type::ValueType;
use vstd::prelude::*;
use vstd::string::*;

verus! {

/// Whether this is one of the eight integer types.
pub fn is_integer_type(value_type: &ValueType) -> (integer: bool)
    ensures
        integer == value_type.is_integer(),
{
    match value_type {
        ValueType::Int8
        | ValueType::Int16
        | ValueType::Int32
        | ValueType::Int64
        | ValueType::UInt8
        | ValueType::UInt16
        | ValueType::UInt32
        | ValueType::UInt64 => true,
        _ => false,
    }
}

/// Whether this is one of the three floating point types.
pub fn is_float_type(value_type: &ValueType) -> (is_float: bool)
    ensures
        is_float == value_type.is_float(),
{
    match value_type {
        ValueType::Float16 | ValueType::Float32 | ValueType::Float64 => true,
        _ => false,
    }
}

/// Inclusive minimum and exclusive maximum of an integer type.
pub fn int_bounds(value_type: &ValueType) -> (bounds: Option<(i128, i128)>)
    ensures
        bounds is Some <==> value_type.is_integer(),
        bounds matches Some(b) ==> b.0 == value_type.least() && b.1 == value_type.greatest() + 1,
{
    match value_type {
        ValueType::Int8 => Some((-0x80, 0x80)),
        ValueType::Int16 => Some((-0x8000, 0x8000)),
        ValueType::Int32 => Some((-0x8000_0000, 0x8000_0000)),
        ValueType::Int64 => Some((-0x8000_0000_0000_0000, 0x8000_0000_0000_0000)),
        ValueType::UInt8 => Some((0, 0x100)),
        ValueType::UInt16 => Some((0, 0x1_0000)),
        ValueType::UInt32 => Some((0, 0x1_0000_0000)),
        ValueType::UInt64 => Some((0, 0x1_0000_0000_0000_0000)),
        _ => None,
    }
}

/// The literal of an integer type and a value that the type can hold.
pub open spec fn integer_literal(value_type: ValueType, value: int) -> ScalarView {
    match value_type {
        ValueType::Int8 => ScalarView::Int8(Some(value as i8)),
        ValueType::Int16 => ScalarView::Int16(Some(value as i16)),
        ValueType::Int32 => ScalarView::Int32(Some(value as i32)),
        ValueType::Int64 => ScalarView::Int64(Some(value as i64)),
        ValueType::UInt8 => ScalarView::UInt8(Some(value as u8)),
        ValueType::UInt16 => ScalarView::UInt16(Some(value as u16)),
        ValueType::UInt32 => ScalarView::UInt32(Some(value as u32)),
        _ => ScalarView::UInt64(Some(value as u64)),
    }
}

/// The literal of an integer type and a value that the type can hold; `None`
/// for a type that is not an integer type.
pub fn make_int_literal(value_type: &ValueType, value: i128) -> (literal: Option<Scalar>)
    requires
        value_type.is_integer() ==> value_type.least() <= value <= value_type.greatest(),
    ensures
        literal is Some <==> value_type.is_integer(),
        literal matches Some(l) ==> l@ == integer_literal(*value_type, value as int),
{
    match value_type {
        ValueType::Int8 => Some(Scalar::Int8(Some(value as i8))),
        ValueType::Int16 => Some(Scalar::Int16(Some(value as i16))),
        ValueType::Int32 => Some(Scalar::Int32(Some(value as i32))),
        ValueType::Int64 => Some(Scalar::Int64(Some(value as i64))),
        ValueType::UInt8 => Some(Scalar::UInt8(Some(value as u8))),
        ValueType::UInt16 => Some(Scalar::UInt16(Some(value as u16))),
        ValueType::UInt32 => Some(Scalar::UInt32(Some(value as u32))),
        ValueType::UInt64 => Some(Scalar::UInt64(Some(value as u64))),
        _ => None,
    }
}

/// What a floating point literal is worth: `None` for a literal of another
/// kind, `Some(None)` for a null.
pub open spec fn float_worth(value: ScalarView) -> Option<Option<Worth>> {
    match value {
        ScalarView::Float16(Some(bits)) => Some(Some(float::worth_16(bits))),
        ScalarView::Float32(Some(bits)) => Some(Some(float::worth_32(bits))),
        ScalarView::Float64(Some(bits)) => Some(Some(float::worth_64(bits))),
        ScalarView::Float16(None) | ScalarView::Float32(None) | ScalarView::Float64(None) => Some(
            None,
        ),
        _ => None,
    }
}

/// What the double of a floating point literal is worth.
pub open spec fn double_worth(double: Option<Option<u64>>) -> Option<Option<Worth>> {
    match double {
        Some(Some(bits)) => Some(Some(float::worth_64(bits))),
        Some(None) => Some(None),
        None => None,
    }
}

/// A floating point literal as a double of the same worth, or `None` when it
/// is not a floating point literal. A null one gives `Some(None)`.
pub fn float_scalar_to_f64(value: &Scalar) -> (double: Option<Option<u64>>)
    ensures
        double_worth(double) == float_worth(value@),
{
    match value {
        Scalar::Float16(v) => match v {
            Some(bits) => Some(Some(float::widen_16(*bits))),
            None => Some(None),
        },
        Scalar::Float32(v) => match v {
            Some(bits) => Some(Some(float::widen_32(*bits))),
            None => Some(None),
        },
        Scalar::Float64(v) => Some(*v),
        _ => None,
    }
}

/// The text of a string literal that is not null.
pub open spec fn literal_text(value: ScalarView) -> Option<Seq<char>> {
    match value {
        ScalarView::Utf8(text) | ScalarView::LargeUtf8(text) | ScalarView::Utf8View(text) => text,
        _ => None,
    }
}

/// The literal of a floating point type that a spelling of infinity or NaN
/// stands for.
pub open spec fn special_literal(text: Seq<char>, target: ValueType) -> Option<ScalarView> {
    match special::special_float(text) {
        None => None,
        Some(bits) => match target {
            ValueType::Float16 => Some(
                ScalarView::Float16(
                    Some(
                        if bits == float::INFINITY_64 {
                            0x7c00u16
                        } else if bits == float::NEG_INFINITY_64 {
                            0xfc00u16
                        } else {
                            0x7e00u16
                        },
                    ),
                ),
            ),
            ValueType::Float32 => Some(ScalarView::Float32(Some(float::single_of(bits)))),
            ValueType::Float64 => Some(ScalarView::Float64(Some(bits))),
            _ => None,
        },
    }
}

/// The literal of a floating point type that a string literal stands for, if
/// its text is a spelling of infinity or NaN.
pub open spec fn special_number(value: ScalarView, target: ValueType) -> Option<ScalarView> {
    match literal_text(value) {
        Some(text) => special_literal(text, target),
        None => None,
    }
}

/// What a cast of the literal `inner` folds to, when the cast itself gives
/// `converted` and the target type has the null `null`: what the cast gives;
/// where it fails, what a spelling of infinity or NaN stands for; and where
/// there is neither, the null if a failure is to give null.
pub open spec fn settled_cast(
    converted: Option<ScalarView>,
    null: Option<ScalarView>,
    inner: ScalarView,
    target: ValueType,
    is_try: bool,
) -> Option<ScalarView> {
    if converted is Some {
        converted
    } else if special_number(inner, target) is Some {
        special_number(inner, target)
    } else if is_try {
        null
    } else {
        None
    }
}

/// What a cast of the literal `inner` folds to; nothing where the cast is not
/// made.
pub open spec fn folded_cast(inner: ScalarView, target: ValueType, is_try: bool) -> Option<
    ScalarView,
> {
    let meaning = cast::meant(target);
    if cast::castable(cast::held(inner), meaning) {
        settled_cast(
            cast::cast_scalar(cast::held(inner), meaning),
            cast::typed_null(meaning),
            inner,
            meaning,
            is_try,
        )
    } else {
        None
    }
}

/// The literal of a floating point type that a string literal stands for, if
/// its text is a spelling of infinity or NaN.
fn parse_special_literal(value: &Scalar, target: &ValueType) -> (special: Option<Scalar>)
    ensures
        cast::scalar_view(special) == special_number(value@, *target),
{
    let text = match value {
        Scalar::Utf8(v) | Scalar::LargeUtf8(v) | Scalar::Utf8View(v) => match v {
            Some(text) => text,
            None => return None,
        },
        _ => return None,
    };
    let bits: u64 = match parse_special_float(text.as_str()) {
        Some(bits) => bits,
        None => return None,
    };
    match target {
        ValueType::Float16 => {
            let half: u16 = if bits == float::INFINITY_64 {
                0x7c00
            } else if bits == float::NEG_INFINITY_64 {
                0xfc00
            } else {
                0x7e00
            };
            Some(Scalar::Float16(Some(half)))
        },
        ValueType::Float32 => Some(Scalar::Float32(Some(float::narrow(bits)))),
        ValueType::Float64 => Some(Scalar::Float64(Some(bits))),
        _ => None,
    }
}

/// What a cast of the literal `inner` folds to, when the cast itself gives
/// `converted` and the target type has the null `null`.
pub fn settle_cast(
    converted: Option<Scalar>,
    null: Option<Scalar>,
    inner: &Scalar,
    target: &ValueType,
    is_try: bool,
) -> (folded: Option<Scalar>)
    ensures
        cast::scalar_view(folded) == settled_cast(
            cast::scalar_view(converted),
            cast::scalar_view(null),
            inner@,
            *target,
            is_try,
        ),
        converted is Some ==> folded == converted,
{
    if let Some(converted) = converted {
        return Some(converted);
    }
    if let Some(special) = parse_special_literal(inner, target) {
        return Some(special);
    }
    if is_try {
        null
    } else {
        None
    }
}

/// Folds a cast of a literal. The spellings of infinity and NaN fold to what
/// they stand for even where the cast rejects them; where it rejects another
/// literal, `is_try` gives a null. A cast that is not known not to panic is not
/// made, and does not fold, though it need not panic.
pub fn fold_cast(inner: &Scalar, target: &ValueType, is_try: bool) -> (folded: Option<Scalar>)
    ensures
        cast::scalar_view(folded) == folded_cast(inner@, *target, is_try),
        cast::is_of_type(inner@, *target) ==> folded == Some(*inner),
{
    let converted = match cast_to(inner, target) {
        Some(converted) => converted,
        None => return None,
    };
    let null = if is_try && converted.is_none() {
        null_of(target)
    } else {
        None
    };
    settle_cast(converted, null, inner, &meant_type(target), is_try)
}

/// The spellings of infinity and NaN fold through a cast to a floating point
/// type, a `TRY_CAST` among them, and where the cast itself rejects them they
/// fold to what they stand for.
pub proof fn law_special_spellings_fold(value: ScalarView, target: ValueType, is_try: bool)
    requires
        target.is_float(),
        literal_text(value) matches Some(text) && special::special_float(text) is Some
            && vstd::utf8::encode_utf8(text).len() <= cast::MAX_BYTES,
    ensures
        folded_cast(value, target, is_try) is Some,
        cast::cast_scalar(value, target) is None ==> folded_cast(value, target, is_try)
            == special_literal(literal_text(value)->0, target),
{
}

/// A `TRY_CAST` that is made always folds: where the cast fails, to a null
/// unless the literal is a spelling of infinity or NaN.
pub proof fn law_try_cast_folds(value: ScalarView, target: ValueType)
    requires
        cast::castable(cast::held(value), cast::meant(target)),
    ensures
        folded_cast(value, target, true) is Some,
        cast::cast_scalar(cast::held(value), cast::meant(target)) is None && special_number(
            value,
            cast::meant(target),
        ) is None ==> folded_cast(value, target, true) == cast::typed_null(cast::meant(target)),
{
}

/// A double with the other sign.
pub open spec fn flip_64(bits: u64) -> u64 {
    if float::negative_64(bits) {
        (bits - 0x8000_0000_0000_0000) as u64
    } else {
        (bits + 0x8000_0000_0000_0000) as u64
    }
}

/// A single with the other sign.
pub open spec fn flip_32(bits: u32) -> u32 {
    if float::negative_32(bits) {
        (bits - 0x8000_0000) as u32
    } else {
        (bits + 0x8000_0000) as u32
    }
}

/// A half with the other sign.
pub open spec fn flip_16(bits: u16) -> u16 {
    if float::negative_16(bits) {
        (bits - 0x8000) as u16
    } else {
        (bits + 0x8000) as u16
    }
}

/// The negation of a literal: a floating point literal with the other sign, a
/// signed integer whose negation its type can hold, and a null of one of these
/// types. Nothing else has one.
pub open spec fn negated(value: ScalarView) -> Option<ScalarView> {
    match value {
        ScalarView::Float16(Some(bits)) => Some(
            ScalarView::Float16(scalar::one_nan_16(Some(flip_16(bits)))),
        ),
        ScalarView::Float32(Some(bits)) => Some(
            ScalarView::Float32(scalar::one_nan_32(Some(flip_32(bits)))),
        ),
        ScalarView::Float64(Some(bits)) => Some(
            ScalarView::Float64(scalar::one_nan_64(Some(flip_64(bits)))),
        ),
        ScalarView::Int8(Some(x)) => if x == i8::MIN {
            None
        } else {
            Some(ScalarView::Int8(Some((-x) as i8)))
        },
        ScalarView::Int16(Some(x)) => if x == i16::MIN {
            None
        } else {
            Some(ScalarView::Int16(Some((-x) as i16)))
        },
        ScalarView::Int32(Some(x)) => if x == i32::MIN {
            None
        } else {
            Some(ScalarView::Int32(Some((-x) as i32)))
        },
        ScalarView::Int64(Some(x)) => if x == i64::MIN {
            None
        } else {
            Some(ScalarView::Int64(Some((-x) as i64)))
        },
        ScalarView::Float16(None)
        | ScalarView::Float32(None)
        | ScalarView::Float64(None)
        | ScalarView::Int8(None)
        | ScalarView::Int16(None)
        | ScalarView::Int32(None)
        | ScalarView::Int64(None) => Some(value),
        _ => None,
    }
}

/// The negation of a literal; `None` where it has none.
pub fn negate_scalar(value: &Scalar) -> (negation: Option<Scalar>)
    ensures
        cast::scalar_view(negation) == negated(value@),
        *value matches Scalar::Float16(Some(bits)) ==> negation == Some(
            Scalar::Float16(Some(flip_16(bits))),
        ),
        *value matches Scalar::Float32(Some(bits)) ==> negation == Some(
            Scalar::Float32(Some(flip_32(bits))),
        ),
        *value matches Scalar::Float64(Some(bits)) ==> negation == Some(
            Scalar::Float64(Some(flip_64(bits))),
        ),
{
    match value {
        Scalar::Float16(v) => Some(
            Scalar::Float16(
                match *v {
                    Some(bits) => Some(
                        if bits >= 0x8000 {
                            bits - 0x8000
                        } else {
                            bits + 0x8000
                        },
                    ),
                    None => None,
                },
            ),
        ),
        Scalar::Float32(v) => Some(
            Scalar::Float32(
                match *v {
                    Some(bits) => Some(
                        if bits >= 0x8000_0000 {
                            bits - 0x8000_0000
                        } else {
                            bits + 0x8000_0000
                        },
                    ),
                    None => None,
                },
            ),
        ),
        Scalar::Float64(v) => Some(
            Scalar::Float64(
                match *v {
                    Some(bits) => Some(
                        if bits >= 0x8000_0000_0000_0000 {
                            bits - 0x8000_0000_0000_0000
                        } else {
                            bits + 0x8000_0000_0000_0000
                        },
                    ),
                    None => None,
                },
            ),
        ),
        Scalar::Int8(v) => match *v {
            None => Some(Scalar::Int8(None)),
            Some(x) => if x == i8::MIN {
                None
            } else {
                Some(Scalar::Int8(Some(-x)))
            },
        },
        Scalar::Int16(v) => match *v {
            None => Some(Scalar::Int16(None)),
            Some(x) => if x == i16::MIN {
                None
            } else {
                Some(Scalar::Int16(Some(-x)))
            },
        },
        Scalar::Int32(v) => match *v {
            None => Some(Scalar::Int32(None)),
            Some(x) => if x == i32::MIN {
                None
            } else {
                Some(Scalar::Int32(Some(-x)))
            },
        },
        Scalar::Int64(v) => match *v {
            None => Some(Scalar::Int64(None)),
            Some(x) => if x == i64::MIN {
                None
            } else {
                Some(Scalar::Int64(Some(-x)))
            },
        },
        _ => None,
    }
}

/// The literal that an expression folds to, and whether a cast was folded on
/// the way.
pub open spec fn folded_literal(expr: ExprView) -> Option<(ScalarView, bool)>
    decreases expr,
{
    match expr {
        ExprView::Literal(value) => Some((value, false)),
        ExprView::Cast { expr, target } => match folded_literal(*expr) {
            Some((inner, _)) => match folded_cast(inner, target, false) {
                Some(value) => Some((value, true)),
                None => None,
            },
            None => None,
        },
        ExprView::TryCast { expr, target } => match folded_literal(*expr) {
            Some((inner, _)) => match folded_cast(inner, target, true) {
                Some(value) => Some((value, true)),
                None => None,
            },
            None => None,
        },
        ExprView::Negative(inner) => match folded_literal(*inner) {
            Some((value, was_cast)) => match negated(value) {
                Some(negation) => Some((negation, was_cast)),
                None => None,
            },
            None => None,
        },
        _ => None,
    }
}

/// What a literal and the mark of a cast are.
pub open spec fn literal_view(literal: Option<(Scalar, bool)>) -> Option<(ScalarView, bool)> {
    match literal {
        Some((value, was_cast)) => Some((value@, was_cast)),
        None => None,
    }
}

/// The bits of a double that stands in an expression with nothing around it but
/// casts to its own type and negations, each of which gives it the other sign.
pub open spec fn exact_double(expr: Expr) -> Option<u64>
    decreases expr,
{
    match expr {
        Expr::Literal(Scalar::Float64(number)) => number,
        Expr::Cast { expr: inner, target } | Expr::TryCast { expr: inner, target } => {
            if target is Float64 {
                exact_double(*inner)
            } else {
                None
            }
        },
        Expr::Negative(inner) => match exact_double(*inner) {
            Some(bits) => Some(flip_64(bits)),
            None => None,
        },
        _ => None,
    }
}

/// Folds `CAST` and `TRY_CAST` around a literal, and negations of it, to a
/// literal. A literal keeps its bits where no cast changes its type, and with
/// them the sign of a NaN.
///
/// Returns the literal and whether a cast was folded: a bare literal reports
/// `false`, anything through a cast reports `true`.
pub fn extract_literal(expr: &Expr) -> (literal: Option<(Scalar, bool)>)
    ensures
        literal_view(literal) == folded_literal(expr@),
        *expr matches Expr::Literal(value) ==> literal == Some((value, false)),
        exact_double(*expr) matches Some(bits) ==> (literal matches Some((value, _)) && value
            == Scalar::Float64(Some(bits))),
    decreases expr,
{
    match expr {
        Expr::Literal(value) => Some((value.clone(), false)),
        Expr::Cast { expr: inner, target } => match extract_literal(inner) {
            Some((inner, _)) => match fold_cast(&inner, target, false) {
                Some(value) => Some((value, true)),
                None => None,
            },
            None => None,
        },
        Expr::TryCast { expr: inner, target } => match extract_literal(inner) {
            Some((inner, _)) => match fold_cast(&inner, target, true) {
                Some(value) => Some((value, true)),
                None => None,
            },
            None => None,
        },
        Expr::Negative(inner) => match extract_literal(inner) {
            Some((inner, was_cast)) => match negate_scalar(&inner) {
                Some(negation) => Some((negation, was_cast)),
                None => None,
            },
            None => None,
        },
        _ => None,
    }
}

} // verus!
