//! Literal values.

use crate::float;
use datafusion_common::ScalarValue;
use vstd::prelude::*;

verus! {

/// A literal that the library carries without looking inside.
#[verifier::external_type_specification]
#[verifier::external_body]
pub struct ExScalarValue(ScalarValue);

/// `Clone` of a DataFusion literal gives back an equal literal.
pub assume_specification[ <ScalarValue as Clone>::clone ](value: &ScalarValue) -> (copy:
    ScalarValue)
    ensures
        copy == *value,
;

/// A literal. Every kind but `Null` has a null of its own, which is `None`; a
/// floating point literal holds the bits of its IEEE 754 encoding.
#[derive(Debug, PartialEq)]
pub enum Scalar {
    Null,
    Boolean(Option<bool>),
    Float16(Option<u16>),
    Float32(Option<u32>),
    Float64(Option<u64>),
    Int8(Option<i8>),
    Int16(Option<i16>),
    Int32(Option<i32>),
    Int64(Option<i64>),
    UInt8(Option<u8>),
    UInt16(Option<u16>),
    UInt32(Option<u32>),
    UInt64(Option<u64>),
    Utf8(Option<String>),
    LargeUtf8(Option<String>),
    Utf8View(Option<String>),
    /// A decimal number: its digits, as an integer, how many digits its type
    /// holds, and how many of them stand behind the decimal point.
    Decimal128(Option<i128>, u8, i8),
    /// Every other literal.
    Other(ScalarValue),
}

/// A DataFusion literal, with one NaN for all inside it: the literal that
/// differs from it at most in the payload and the sign of NaNs, and is the same
/// for all that differ only there.
pub uninterp spec fn one_nan(value: ScalarValue) -> ScalarValue;

/// What a literal is. The payload and the sign of a NaN are not part of it:
/// what a cast makes of them depends on the machine.
pub enum ScalarView {
    Null,
    Boolean(Option<bool>),
    Float16(Option<u16>),
    Float32(Option<u32>),
    Float64(Option<u64>),
    Int8(Option<i8>),
    Int16(Option<i16>),
    Int32(Option<i32>),
    Int64(Option<i64>),
    UInt8(Option<u8>),
    UInt16(Option<u16>),
    UInt32(Option<u32>),
    UInt64(Option<u64>),
    Utf8(Option<Seq<char>>),
    LargeUtf8(Option<Seq<char>>),
    Utf8View(Option<Seq<char>>),
    Decimal128(Option<i128>, u8, i8),
    Other(ScalarValue),
}

/// A half, with one NaN for all.
pub open spec fn one_nan_16(bits: Option<u16>) -> Option<u16> {
    match bits {
        Some(b) => Some(if float::is_nan_16(b) { 0x7e00 } else { b }),
        None => None,
    }
}

/// A single, with one NaN for all.
pub open spec fn one_nan_32(bits: Option<u32>) -> Option<u32> {
    match bits {
        Some(b) => Some(if float::is_nan_32(b) { 0x7fc0_0000 } else { b }),
        None => None,
    }
}

/// A double, with one NaN for all.
pub open spec fn one_nan_64(bits: Option<u64>) -> Option<u64> {
    match bits {
        Some(b) => Some(if float::is_nan_64(b) { float::NAN_64 } else { b }),
        None => None,
    }
}

/// The characters of a string literal.
pub open spec fn text_of(text: Option<String>) -> Option<Seq<char>> {
    match text {
        Some(t) => Some(t@),
        None => None,
    }
}

impl View for Scalar {
    type V = ScalarView;

    open spec fn view(&self) -> ScalarView {
        match *self {
            Scalar::Null => ScalarView::Null,
            Scalar::Boolean(v) => ScalarView::Boolean(v),
            Scalar::Float16(v) => ScalarView::Float16(one_nan_16(v)),
            Scalar::Float32(v) => ScalarView::Float32(one_nan_32(v)),
            Scalar::Float64(v) => ScalarView::Float64(one_nan_64(v)),
            Scalar::Int8(v) => ScalarView::Int8(v),
            Scalar::Int16(v) => ScalarView::Int16(v),
            Scalar::Int32(v) => ScalarView::Int32(v),
            Scalar::Int64(v) => ScalarView::Int64(v),
            Scalar::UInt8(v) => ScalarView::UInt8(v),
            Scalar::UInt16(v) => ScalarView::UInt16(v),
            Scalar::UInt32(v) => ScalarView::UInt32(v),
            Scalar::UInt64(v) => ScalarView::UInt64(v),
            Scalar::Utf8(v) => ScalarView::Utf8(text_of(v)),
            Scalar::LargeUtf8(v) => ScalarView::LargeUtf8(text_of(v)),
            Scalar::Utf8View(v) => ScalarView::Utf8View(text_of(v)),
            Scalar::Decimal128(v, precision, scale) => ScalarView::Decimal128(v, precision, scale),
            Scalar::Other(v) => ScalarView::Other(one_nan(v)),
        }
    }
}

impl ScalarView {
    /// Whether this is a literal of one of the eight integer types.
    pub open spec fn is_integer(self) -> bool {
        ||| self is Int8
        ||| self is Int16
        ||| self is Int32
        ||| self is Int64
        ||| self is UInt8
        ||| self is UInt16
        ||| self is UInt32
        ||| self is UInt64
    }

    /// Whether this is a literal of one of the three floating point types.
    pub open spec fn is_float(self) -> bool {
        self is Float16 || self is Float32 || self is Float64
    }
}

fn clone_text(text: &Option<String>) -> (copy: Option<String>)
    ensures
        copy == *text,
{
    match text {
        Some(t) => Some(t.clone()),
        None => None,
    }
}

impl Clone for Scalar {
    fn clone(&self) -> (copy: Self)
        ensures
            copy == *self,
    {
        match self {
            Scalar::Null => Scalar::Null,
            Scalar::Boolean(v) => Scalar::Boolean(*v),
            Scalar::Float16(v) => Scalar::Float16(*v),
            Scalar::Float32(v) => Scalar::Float32(*v),
            Scalar::Float64(v) => Scalar::Float64(*v),
            Scalar::Int8(v) => Scalar::Int8(*v),
            Scalar::Int16(v) => Scalar::Int16(*v),
            Scalar::Int32(v) => Scalar::Int32(*v),
            Scalar::Int64(v) => Scalar::Int64(*v),
            Scalar::UInt8(v) => Scalar::UInt8(*v),
            Scalar::UInt16(v) => Scalar::UInt16(*v),
            Scalar::UInt32(v) => Scalar::UInt32(*v),
            Scalar::UInt64(v) => Scalar::UInt64(*v),
            Scalar::Utf8(v) => Scalar::Utf8(clone_text(v)),
            Scalar::LargeUtf8(v) => Scalar::LargeUtf8(clone_text(v)),
            Scalar::Utf8View(v) => Scalar::Utf8View(clone_text(v)),
            Scalar::Decimal128(v, precision, scale) => Scalar::Decimal128(*v, *precision, *scale),
            Scalar::Other(v) => Scalar::Other(v.clone()),
        }
    }
}

/// Literals that are the same to a reader are of the same kind and have the same
/// value; only NaNs of one type are not told apart.
pub proof fn law_literals_are_their_values(a: Scalar, b: Scalar)
    requires
        a@ == b@,
    ensures
        match (a, b) {
            (Scalar::Null, Scalar::Null) => true,
            (Scalar::Boolean(x), Scalar::Boolean(y)) => x == y,
            (Scalar::Float16(x), Scalar::Float16(y)) => x == y || (x is Some
                && float::is_nan_16(x->0) && y is Some && float::is_nan_16(y->0)),
            (Scalar::Float32(x), Scalar::Float32(y)) => x == y || (x is Some
                && float::is_nan_32(x->0) && y is Some && float::is_nan_32(y->0)),
            (Scalar::Float64(x), Scalar::Float64(y)) => x == y || (x is Some
                && float::is_nan_64(x->0) && y is Some && float::is_nan_64(y->0)),
            (Scalar::Int8(x), Scalar::Int8(y)) => x == y,
            (Scalar::Int16(x), Scalar::Int16(y)) => x == y,
            (Scalar::Int32(x), Scalar::Int32(y)) => x == y,
            (Scalar::Int64(x), Scalar::Int64(y)) => x == y,
            (Scalar::UInt8(x), Scalar::UInt8(y)) => x == y,
            (Scalar::UInt16(x), Scalar::UInt16(y)) => x == y,
            (Scalar::UInt32(x), Scalar::UInt32(y)) => x == y,
            (Scalar::UInt64(x), Scalar::UInt64(y)) => x == y,
            (Scalar::Utf8(x), Scalar::Utf8(y)) => text_of(x) == text_of(y) && (x is Some) == (
            y is Some),
            (Scalar::LargeUtf8(x), Scalar::LargeUtf8(y)) => text_of(x) == text_of(y) && (x is Some)
                == (y is Some),
            (Scalar::Utf8View(x), Scalar::Utf8View(y)) => text_of(x) == text_of(y) && (x is Some)
                == (y is Some),
            (Scalar::Decimal128(x, p, s), Scalar::Decimal128(y, q, t)) => x == y && p == q && s
                == t,
            (Scalar::Other(x), Scalar::Other(y)) => one_nan(x) == one_nan(y),
            _ => false,
        },
{
}

} // verus!
