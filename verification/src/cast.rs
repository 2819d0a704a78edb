//! Casts of literals.
//!
//! DataFusion computes what a cast makes of a literal; the functions here hand
//! it the literal and take the result back. Only casts that are known not to
//! panic are handed over: [`castable`] says which these are.

use crate::scalar::{self, Scalar, ScalarView};
use crate::value_type::ValueType;
use arrow::datatypes::{
    ArrowPrimitiveType, Decimal128Type, Decimal256Type, Decimal32Type, Decimal64Type, DecimalType,
    Float16Type, Float32Type, Float64Type,
};
use arrow_schema::{DataType, TimeUnit};
use datafusion_common::ScalarValue;
use vstd::prelude::*;
use vstd::slice::*;
use vstd::string::*;
use vstd::utf8::*;

verus! {

/// What a DataFusion literal holds: the view of the `Scalar` of the same kind
/// and value, where there is such a kind, and otherwise the literal itself,
/// with one NaN for all inside it.
pub uninterp spec fn contents(value: ScalarValue) -> ScalarView;

/// The type that an Arrow type is: the `ValueType` of the same kind, where
/// there is such a kind, and otherwise the Arrow type itself.
pub uninterp spec fn type_of(arrow_type: DataType) -> ValueType;

/// The bits of a DataFusion literal that is a floating point number.
pub uninterp spec fn float_bits(value: ScalarValue) -> Option<u64>;

/// The bits of a literal that is a floating point number.
pub open spec fn scalar_bits(value: Scalar) -> Option<u64> {
    match value {
        Scalar::Float16(Some(bits)) => Some(bits as u64),
        Scalar::Float32(Some(bits)) => Some(bits as u64),
        Scalar::Float64(Some(bits)) => Some(bits),
        _ => None,
    }
}

/// What `ScalarValue::cast_to` makes of a literal that holds `value`; `None`
/// where it fails.
pub uninterp spec fn cast_scalar(value: ScalarView, target: ValueType) -> Option<ScalarView>;

/// The type of a literal that holds `value`.
pub uninterp spec fn literal_type(value: ScalarView) -> ValueType;

/// The family of an Arrow type that has no kind of its own.
pub uninterp spec fn arrow_family(arrow_type: DataType) -> Family;

/// How many bytes a literal that holds `value` has, if it is one of bytes.
pub uninterp spec fn byte_count(value: ScalarView) -> Option<usize>;

/// Whether a decimal literal that holds `value` has no more digits than its
/// type says.
pub uninterp spec fn fits_precision(value: ScalarView) -> bool;

/// The date, instant or time of day of a literal that holds `value`.
pub uninterp spec fn instant_of(value: ScalarView) -> Option<Instant>;

/// The type of the keys and what the entry holds, of a literal that holds
/// `value` and is an entry of a dictionary.
pub uninterp spec fn dictionary_entry(value: ScalarView) -> Option<(ValueType, ScalarView)>;

/// What the null that `ScalarValue::try_new_null` makes of a type holds, for a
/// type that has no literals of a kind of their own.
pub uninterp spec fn null_scalar(target: ValueType) -> ScalarView;

/// What a type is like that has no kind of its own.
pub enum Family {
    /// A decimal number of 32 bits, with its digits and its scale.
    Decimal32(u8, i8),
    /// A decimal number of 64 bits, with its digits and its scale.
    Decimal64(u8, i8),
    /// A decimal number of 256 bits, with its digits and its scale.
    Decimal256(u8, i8),
    Date,
    /// A time of day in seconds or milliseconds.
    Time32,
    /// A time of day in microseconds or nanoseconds.
    Time64,
    /// An instant without a time zone.
    Timestamp,
    /// An instant with a time zone.
    ZonedTimestamp,
    Duration,
    Interval,
    /// Bytes whose number a signed integer of 32 bits counts.
    Bytes,
    /// Other bytes of any number.
    LargeBytes,
    /// A list of values of a type.
    List(Box<ValueType>),
    /// Entries of a type in a dictionary with keys of a type.
    Dictionary(Box<ValueType>, Box<ValueType>),
    /// A list of as many values as the number says.
    FixedList(i32),
    /// A structure, a map or a list of another kind.
    Nested,
    /// Every other type.
    Unknown,
}

impl Family {
    /// Whether this is a family of dates, times, instants or spans.
    pub open spec fn is_temporal(self) -> bool {
        ||| self is Date
        ||| self is Time32
        ||| self is Time64
        ||| self is Timestamp
        ||| self is ZonedTimestamp
        ||| self is Duration
        ||| self is Interval
    }

    /// Whether this is a family of decimal numbers.
    pub open spec fn is_decimal(self) -> bool {
        self is Decimal32 || self is Decimal64 || self is Decimal256
    }

    /// Whether values of this family are not made of other values.
    pub open spec fn is_flat(self) -> bool {
        self.is_temporal() || self.is_decimal() || self is Bytes || self is LargeBytes
    }
}

/// A date or an instant, counted from the start of 1970, or a time of day.
pub enum Instant {
    Days(i32),
    Seconds(i64),
    Milliseconds(i64),
    Microseconds(i64),
    Nanoseconds(i64),
}

/// A number of seconds, either side of the start of 1970, within which there is
/// a day more on either side for every time zone.
pub const NEAR_SECONDS: i64 = 8_000_000_000_000;

/// The greatest number of microseconds whose nanoseconds 64 bits count.
pub const MAX_MICROSECONDS: i64 = 9_223_372_036_854_775;

/// The greatest number of milliseconds whose nanoseconds 64 bits count.
pub const MAX_MILLISECONDS: i64 = 9_223_372_036_854;

impl Instant {
    /// Whether a time zone can be applied to this date or instant.
    pub open spec fn is_near(self) -> bool {
        match self {
            Instant::Days(n) => -NEAR_SECONDS <= n * 86_400 <= NEAR_SECONDS,
            Instant::Seconds(n) => -NEAR_SECONDS <= n <= NEAR_SECONDS,
            Instant::Milliseconds(n) => -NEAR_SECONDS * 1000 <= n <= NEAR_SECONDS * 1000,
            Instant::Microseconds(n) => -NEAR_SECONDS * 1_000_000 <= n <= NEAR_SECONDS * 1_000_000,
            Instant::Nanoseconds(_) => true,
        }
    }
}

/// What a literal holds once it is a DataFusion literal.
pub open spec fn held(value: ScalarView) -> ScalarView {
    match value {
        ScalarView::Other(other) => contents(other),
        _ => value,
    }
}

/// The views of a literal that may be missing.
pub open spec fn scalar_view(value: Option<Scalar>) -> Option<ScalarView> {
    match value {
        Some(v) => Some(v@),
        None => None,
    }
}

/// Whether a literal is of a number type.
pub open spec fn is_of_type(value: ScalarView, target: ValueType) -> bool {
    match target {
        ValueType::Int8 => value is Int8,
        ValueType::Int16 => value is Int16,
        ValueType::Int32 => value is Int32,
        ValueType::Int64 => value is Int64,
        ValueType::UInt8 => value is UInt8,
        ValueType::UInt16 => value is UInt16,
        ValueType::UInt32 => value is UInt32,
        ValueType::UInt64 => value is UInt64,
        ValueType::Float16 => value is Float16,
        ValueType::Float32 => value is Float32,
        ValueType::Float64 => value is Float64,
        _ => false,
    }
}

/// The type that is meant by a type: the kind of its own of an Arrow type, where
/// it has one.
pub open spec fn meant(value_type: ValueType) -> ValueType {
    match value_type {
        ValueType::Other(arrow_type) => type_of(arrow_type),
        _ => value_type,
    }
}

/// The family of a type.
pub open spec fn family(value_type: ValueType) -> Family {
    match value_type {
        ValueType::Other(arrow_type) => arrow_family(arrow_type),
        _ => Family::Unknown,
    }
}

/// The null of a type that has literals of a kind of their own.
pub open spec fn plain_null(value_type: ValueType) -> Option<ScalarView> {
    match value_type {
        ValueType::Null => Some(ScalarView::Null),
        ValueType::Boolean => Some(ScalarView::Boolean(None)),
        ValueType::Int8 => Some(ScalarView::Int8(None)),
        ValueType::Int16 => Some(ScalarView::Int16(None)),
        ValueType::Int32 => Some(ScalarView::Int32(None)),
        ValueType::Int64 => Some(ScalarView::Int64(None)),
        ValueType::UInt8 => Some(ScalarView::UInt8(None)),
        ValueType::UInt16 => Some(ScalarView::UInt16(None)),
        ValueType::UInt32 => Some(ScalarView::UInt32(None)),
        ValueType::UInt64 => Some(ScalarView::UInt64(None)),
        ValueType::Float16 => Some(ScalarView::Float16(None)),
        ValueType::Float32 => Some(ScalarView::Float32(None)),
        ValueType::Float64 => Some(ScalarView::Float64(None)),
        ValueType::Utf8 => Some(ScalarView::Utf8(None)),
        ValueType::LargeUtf8 => Some(ScalarView::LargeUtf8(None)),
        ValueType::Utf8View => Some(ScalarView::Utf8View(None)),
        ValueType::Decimal128(precision, scale) => Some(
            ScalarView::Decimal128(None, precision, scale),
        ),
        _ => None,
    }
}

/// Whether values of a type are not made of other values.
pub open spec fn is_flat(value_type: ValueType) -> bool {
    plain_null(value_type) is Some || value_type is FixedSizeBinary || family(value_type).is_flat()
}

/// Whether a type whose values are not made of other values has values.
pub open spec fn is_sound(value_type: ValueType) -> bool {
    is_flat(value_type) && (value_type matches ValueType::FixedSizeBinary(size) ==> size >= 0)
}

/// The null of a type.
pub open spec fn typed_null(value_type: ValueType) -> Option<ScalarView> {
    if plain_null(value_type) is Some {
        plain_null(value_type)
    } else if is_flat(value_type) || match family(value_type) {
        Family::List(item) => is_sound(*item),
        Family::Dictionary(_, entry) => is_flat(*entry),
        _ => false,
    } {
        Some(null_scalar(value_type))
    } else {
        None
    }
}

/// The greatest number of bytes that a signed integer of 32 bits counts.
pub const MAX_BYTES: usize = 0x7fff_ffff;

/// Whether values of a type are texts or bytes.
pub open spec fn is_byte_type(value_type: ValueType) -> bool {
    ||| value_type.is_text()
    ||| value_type is FixedSizeBinary
    ||| family(value_type) is Bytes
    ||| family(value_type) is LargeBytes
}

/// How many digits a decimal type can have, how many it has, and its scale.
pub open spec fn decimal_digits(value_type: ValueType) -> Option<(int, u8, i8)> {
    match value_type {
        ValueType::Decimal128(precision, scale) => Some((38, precision, scale)),
        _ => match family(value_type) {
            Family::Decimal32(precision, scale) => Some((9, precision, scale)),
            Family::Decimal64(precision, scale) => Some((18, precision, scale)),
            Family::Decimal256(precision, scale) => Some((76, precision, scale)),
            _ => None,
        },
    }
}

/// Whether a decimal literal can be given another decimal type: the digits and
/// the scales must not add up to more than eight bits hold, and a narrower type
/// has to be one whose digits it can hold, for a literal that keeps to its own.
pub open spec fn can_rescale(value: ScalarView, from: (int, u8, i8), to: (int, u8, i8)) -> bool {
    let shift = to.2 - from.2;
    &&& from.1 <= 127
    &&& -127 <= shift <= 127
    &&& -128 <= from.1 + shift <= 127
    &&& to.0 >= from.0 || (fits_precision(value) && to.1 <= to.0)
}

/// Whether a decimal literal, if the target is a decimal type, can be given it.
pub open spec fn rescales(value: ScalarView, from: ValueType, target: ValueType) -> bool {
    match (decimal_digits(from), decimal_digits(target)) {
        (Some(f), Some(t)) => can_rescale(value, f, t),
        _ => true,
    }
}

/// Whether a text that is not null fits where a signed integer of 32 bits
/// counts the bytes.
pub open spec fn text_fits(value: ScalarView) -> bool {
    match value {
        ScalarView::Utf8(Some(text))
        | ScalarView::LargeUtf8(Some(text))
        | ScalarView::Utf8View(Some(text)) => encode_utf8(text).len() <= MAX_BYTES,
        _ => true,
    }
}

/// Whether the cast of a literal of a kind of its own to a type whose values
/// are not made of other values is known not to panic.
pub open spec fn plainly_castable(value: ScalarView, target: ValueType) -> bool {
    is_flat(target) && match value {
        ScalarView::Null => is_sound(target),
        ScalarView::Utf8(_) => target.is_text() || text_fits(value),
        ScalarView::LargeUtf8(_) | ScalarView::Utf8View(_) => target.is_text() || text_fits(value)
            || !is_byte_type(target),
        ScalarView::Decimal128(_, precision, scale) => rescales(
            value,
            ValueType::Decimal128(precision, scale),
            target,
        ),
        ScalarView::Other(_) => false,
        _ => true,
    }
}

/// Whether a literal of bytes fits where a signed integer of 32 bits counts the
/// bytes.
pub open spec fn bytes_fit(value: ScalarView) -> bool {
    byte_count(value) matches Some(count) ==> count <= MAX_BYTES
}

/// Whether a time zone can be applied to a literal that is a date or an instant.
pub open spec fn is_near(value: ScalarView) -> bool {
    instant_of(value) matches Some(instant) ==> instant.is_near()
}

/// Whether 64 bits count the nanoseconds of a literal that is a time of day in
/// microseconds.
pub open spec fn has_nanoseconds(value: ScalarView) -> bool {
    instant_of(value) matches Some(Instant::Microseconds(n)) ==> -MAX_MICROSECONDS <= n
        <= MAX_MICROSECONDS
}

/// Whether 64 bits count the nanoseconds of a literal that is a date in
/// milliseconds.
pub open spec fn dates_nanoseconds(value: ScalarView) -> bool {
    instant_of(value) matches Some(Instant::Milliseconds(n)) ==> -MAX_MILLISECONDS <= n
        <= MAX_MILLISECONDS
}

/// Whether the cast of a literal without a kind of its own to a type whose
/// values are not made of other values is known not to panic. Entries of
/// dictionaries are left out.
pub open spec fn remotely_castable(value: ScalarView, target: ValueType) -> bool {
    let from = literal_type(value);
    let to = family(target);
    is_flat(target) && if let ValueType::FixedSizeBinary(size) = from {
        size >= 0 && (byte_count(value) matches Some(count) ==> count == size)
    } else {
        match family(from) {
            Family::Decimal32(..) | Family::Decimal64(..) | Family::Decimal256(..) => rescales(
                value,
                from,
                target,
            ),
            Family::Date | Family::Timestamp => to is ZonedTimestamp ==> is_near(value),
            Family::ZonedTimestamp => to is Date || target.is_text() ==> is_near(value),
            Family::Time64 => to is Time64 ==> has_nanoseconds(value),
            Family::Time32 | Family::Duration | Family::Interval => true,
            Family::Bytes => is_sound(target) && bytes_fit(value),
            Family::LargeBytes => is_sound(target) && (bytes_fit(value) || !is_byte_type(target)),
            Family::List(_) | Family::Nested => !target.is_text(),
            Family::FixedList(size) => size != 1,
            Family::Dictionary(..) | Family::Unknown => false,
        }
    }
}

/// Whether the cast of an entry of a dictionary to a type whose values are not
/// made of other values is known not to panic.
pub open spec fn entry_castable(entry: ScalarView, target: ValueType) -> bool {
    match entry {
        ScalarView::Other(_) => {
            &&& remotely_castable(entry, target)
            &&& is_flat(literal_type(entry))
            &&& family(literal_type(entry)) is Date && (family(target) is Timestamp || family(
                target,
            ) is ZonedTimestamp) ==> dates_nanoseconds(entry)
        },
        _ => plainly_castable(entry, target) && text_fits(entry),
    }
}

/// Whether the cast of a literal is known not to panic. What can panic is left
/// out: dictionaries whose keys are not integers, bytes that are not as many as
/// their type says, negative sizes, digits and scales whose sums overflow, texts
/// and bytes that are too long, and instants so far off that a time zone or a
/// finer unit takes them out of range. So is what is not known: casts of unions,
/// to structures, maps, unions and lists of lists, of lists to lists and texts,
/// and of literals without a kind of their own to lists and dictionaries. This
/// is enough for a cast not to panic; a cast that is left out need not panic.
pub open spec fn castable(value: ScalarView, target: ValueType) -> bool {
    match value {
        ScalarView::Other(_) => match dictionary_entry(value) {
            Some((key, entry)) => key.is_integer() && is_flat(target) && entry_castable(
                entry,
                target,
            ),
            None => remotely_castable(value, target),
        },
        _ => match family(target) {
            Family::List(item) => is_sound(*item) && plainly_castable(value, *item) && text_fits(
                value,
            ),
            Family::Dictionary(key, entry) => key.is_integer() && is_sound(*entry)
                && plainly_castable(value, *entry) && text_fits(value),
            _ => plainly_castable(value, target),
        },
    }
}

/// Whether a type that is not a number type has a kind of its own.
pub open spec fn is_plain_type(value_type: ValueType) -> bool {
    !value_type.is_number() && (plain_null(value_type) is Some || value_type is FixedSizeBinary)
}

/// Whether a family is neither one of dates, times, instants and spans nor one
/// of lists or dictionaries.
pub open spec fn is_other_family(family: Family) -> bool {
    family.is_decimal() || family is Bytes || family is LargeBytes || family is FixedList
        || family is Nested
}

/// The variants of `ScalarValue` for the integer types: the literal of the
/// same type and value as an integer literal.
#[verifier::external_body]
fn integer_value(value: &Scalar) -> (outside: Option<ScalarValue>)
    ensures
        outside is Some <==> value@.is_integer(),
        outside matches Some(v) ==> contents(v) == value@,
{
    Some(match value {
        Scalar::Int8(v) => ScalarValue::Int8(*v),
        Scalar::Int16(v) => ScalarValue::Int16(*v),
        Scalar::Int32(v) => ScalarValue::Int32(*v),
        Scalar::Int64(v) => ScalarValue::Int64(*v),
        Scalar::UInt8(v) => ScalarValue::UInt8(*v),
        Scalar::UInt16(v) => ScalarValue::UInt16(*v),
        Scalar::UInt32(v) => ScalarValue::UInt32(*v),
        Scalar::UInt64(v) => ScalarValue::UInt64(*v),
        _ => return None,
    })
}

/// The variants of `ScalarValue` for the floating point types: the literal of
/// the type of a floating point literal whose value has the same bits.
#[verifier::external_body]
fn float_value(value: &Scalar) -> (outside: Option<ScalarValue>)
    ensures
        outside is Some <==> value@.is_float(),
        outside matches Some(v) ==> contents(v) == value@,
        outside matches Some(v) ==> float_bits(v) == scalar_bits(*value),
{
    Some(match value {
        Scalar::Float16(v) => {
            ScalarValue::Float16(v.map(<Float16Type as ArrowPrimitiveType>::Native::from_bits))
        },
        Scalar::Float32(v) => {
            ScalarValue::Float32(v.map(<Float32Type as ArrowPrimitiveType>::Native::from_bits))
        },
        Scalar::Float64(v) => {
            ScalarValue::Float64(v.map(<Float64Type as ArrowPrimitiveType>::Native::from_bits))
        },
        _ => return None,
    })
}

/// The other variants of `ScalarValue`: the literal of the same kind and value
/// as a literal that is not a number, and the literal inside `Scalar::Other`.
#[verifier::external_body]
fn plain_value(value: &Scalar) -> (outside: ScalarValue)
    requires
        !value@.is_integer(),
        !value@.is_float(),
    ensures
        contents(outside) == held(value@),
{
    match value {
        Scalar::Boolean(v) => ScalarValue::Boolean(*v),
        Scalar::Utf8(v) => ScalarValue::Utf8(v.clone()),
        Scalar::LargeUtf8(v) => ScalarValue::LargeUtf8(v.clone()),
        Scalar::Utf8View(v) => ScalarValue::Utf8View(v.clone()),
        Scalar::Decimal128(v, precision, scale) => ScalarValue::Decimal128(*v, *precision, *scale),
        Scalar::Other(v) => v.clone(),
        _ => ScalarValue::Null,
    }
}

/// The variants of `ScalarValue` for the integer types, read back.
#[verifier::external_body]
fn integer_scalar(outside: &ScalarValue) -> (value: Option<Scalar>)
    ensures
        value is Some <==> contents(*outside).is_integer(),
        value matches Some(v) ==> v@ == contents(*outside),
{
    Some(match outside {
        ScalarValue::Int8(v) => Scalar::Int8(*v),
        ScalarValue::Int16(v) => Scalar::Int16(*v),
        ScalarValue::Int32(v) => Scalar::Int32(*v),
        ScalarValue::Int64(v) => Scalar::Int64(*v),
        ScalarValue::UInt8(v) => Scalar::UInt8(*v),
        ScalarValue::UInt16(v) => Scalar::UInt16(*v),
        ScalarValue::UInt32(v) => Scalar::UInt32(*v),
        ScalarValue::UInt64(v) => Scalar::UInt64(*v),
        _ => return None,
    })
}

/// The variants of `ScalarValue` for the floating point types, read back as
/// bits.
#[verifier::external_body]
fn float_scalar(outside: &ScalarValue) -> (value: Option<Scalar>)
    ensures
        value is Some <==> contents(*outside).is_float(),
        value matches Some(v) ==> v@ == contents(*outside),
        value matches Some(v) ==> scalar_bits(v) == float_bits(*outside),
{
    Some(match outside {
        ScalarValue::Float16(v) => Scalar::Float16(v.map(|v| v.to_bits())),
        ScalarValue::Float32(v) => Scalar::Float32(v.map(|v| v.to_bits())),
        ScalarValue::Float64(v) => Scalar::Float64(v.map(|v| v.to_bits())),
        _ => return None,
    })
}

/// The other variants of `ScalarValue`, read back; one that has no kind of its
/// own among the literals is carried whole.
#[verifier::external_body]
fn plain_scalar(outside: ScalarValue) -> (value: Scalar)
    requires
        !contents(outside).is_integer(),
        !contents(outside).is_float(),
    ensures
        value@ == contents(outside),
        value is Other ==> value@ == ScalarView::Other(scalar::one_nan(outside)),
{
    match outside {
        ScalarValue::Null => Scalar::Null,
        ScalarValue::Boolean(v) => Scalar::Boolean(v),
        ScalarValue::Utf8(v) => Scalar::Utf8(v),
        ScalarValue::LargeUtf8(v) => Scalar::LargeUtf8(v),
        ScalarValue::Utf8View(v) => Scalar::Utf8View(v),
        ScalarValue::Decimal128(v, precision, scale) => Scalar::Decimal128(v, precision, scale),
        v => Scalar::Other(v),
    }
}

/// The variants of `DataType` for the number types.
#[verifier::external_body]
fn number_type(value_type: &ValueType) -> (outside: Option<DataType>)
    ensures
        outside is Some <==> value_type.is_number(),
        outside matches Some(t) ==> type_of(t) == *value_type,
{
    Some(match value_type {
        ValueType::Int8 => DataType::Int8,
        ValueType::Int16 => DataType::Int16,
        ValueType::Int32 => DataType::Int32,
        ValueType::Int64 => DataType::Int64,
        ValueType::UInt8 => DataType::UInt8,
        ValueType::UInt16 => DataType::UInt16,
        ValueType::UInt32 => DataType::UInt32,
        ValueType::UInt64 => DataType::UInt64,
        ValueType::Float16 => DataType::Float16,
        ValueType::Float32 => DataType::Float32,
        ValueType::Float64 => DataType::Float64,
        _ => return None,
    })
}

/// The variants of `DataType` for the other types that have a kind of their
/// own.
#[verifier::external_body]
fn plain_type(value_type: &ValueType) -> (outside: Option<DataType>)
    ensures
        outside is Some <==> is_plain_type(*value_type),
        outside matches Some(t) ==> type_of(t) == *value_type,
{
    Some(match value_type {
        ValueType::Null => DataType::Null,
        ValueType::Boolean => DataType::Boolean,
        ValueType::Utf8 => DataType::Utf8,
        ValueType::LargeUtf8 => DataType::LargeUtf8,
        ValueType::Utf8View => DataType::Utf8View,
        ValueType::Decimal128(precision, scale) => DataType::Decimal128(*precision, *scale),
        ValueType::FixedSizeBinary(size) => DataType::FixedSizeBinary(*size),
        _ => return None,
    })
}

/// The variants of `DataType` for the number types, read back.
#[verifier::external_body]
fn read_number_type(outside: &DataType) -> (value_type: Option<ValueType>)
    ensures
        value_type is Some <==> type_of(*outside).is_number(),
        value_type matches Some(t) ==> t == type_of(*outside),
{
    Some(match outside {
        DataType::Int8 => ValueType::Int8,
        DataType::Int16 => ValueType::Int16,
        DataType::Int32 => ValueType::Int32,
        DataType::Int64 => ValueType::Int64,
        DataType::UInt8 => ValueType::UInt8,
        DataType::UInt16 => ValueType::UInt16,
        DataType::UInt32 => ValueType::UInt32,
        DataType::UInt64 => ValueType::UInt64,
        DataType::Float16 => ValueType::Float16,
        DataType::Float32 => ValueType::Float32,
        DataType::Float64 => ValueType::Float64,
        _ => return None,
    })
}

/// The other variants of `DataType`, read back; one that has no kind of its own
/// among the types is carried whole.
#[verifier::external_body]
fn read_plain_type(outside: &DataType) -> (value_type: ValueType)
    requires
        !type_of(*outside).is_number(),
    ensures
        value_type == type_of(*outside),
        value_type matches ValueType::Other(t) ==> t == *outside,
        !(value_type is FixedSizeList),
{
    match outside {
        DataType::Null => ValueType::Null,
        DataType::Boolean => ValueType::Boolean,
        DataType::Utf8 => ValueType::Utf8,
        DataType::LargeUtf8 => ValueType::LargeUtf8,
        DataType::Utf8View => ValueType::Utf8View,
        DataType::Decimal128(precision, scale) => ValueType::Decimal128(*precision, *scale),
        DataType::FixedSizeBinary(size) => ValueType::FixedSizeBinary(*size),
        other => ValueType::Other(other.clone()),
    }
}

/// The variants of `DataType` for dates, times, instants and spans, told apart.
/// A time of day in a unit that its width does not go with is none of them.
#[verifier::external_body]
fn temporal_family(outside: &DataType) -> (family: Option<Family>)
    ensures
        family is Some <==> arrow_family(*outside).is_temporal(),
        family matches Some(f) ==> f == arrow_family(*outside),
{
    Some(match outside {
        DataType::Date32 | DataType::Date64 => Family::Date,
        DataType::Time32(TimeUnit::Second | TimeUnit::Millisecond) => Family::Time32,
        DataType::Time64(TimeUnit::Microsecond | TimeUnit::Nanosecond) => Family::Time64,
        DataType::Timestamp(_, None) => Family::Timestamp,
        DataType::Timestamp(_, Some(_)) => Family::ZonedTimestamp,
        DataType::Duration(_) => Family::Duration,
        DataType::Interval(_) => Family::Interval,
        _ => return None,
    })
}

/// The variants of `DataType` for the decimal numbers that have no kind of their
/// own, for bytes of any number, and for nested values other than lists of any
/// length, told apart.
#[verifier::external_body]
fn other_family(outside: &DataType) -> (family: Option<Family>)
    ensures
        family is Some <==> is_other_family(arrow_family(*outside)),
        family matches Some(f) ==> f == arrow_family(*outside),
{
    Some(match outside {
        DataType::Decimal32(precision, scale) => Family::Decimal32(*precision, *scale),
        DataType::Decimal64(precision, scale) => Family::Decimal64(*precision, *scale),
        DataType::Decimal256(precision, scale) => Family::Decimal256(*precision, *scale),
        DataType::Binary => Family::Bytes,
        DataType::LargeBinary | DataType::BinaryView => Family::LargeBytes,
        DataType::FixedSizeList(_, size) => Family::FixedList(*size),
        DataType::Struct(_) | DataType::Map(..) => Family::Nested,
        DataType::ListView(_) | DataType::LargeListView(_) => Family::Nested,
        _ => return None,
    })
}

/// The variants of `DataType` for lists: the type of the items.
#[verifier::external_body]
fn list_item(outside: &DataType) -> (item: Option<DataType>)
    ensures
        match item {
            Some(t) => arrow_family(*outside) == Family::List(Box::new(type_of(t))),
            None => !(arrow_family(*outside) is List),
        },
{
    match outside {
        DataType::List(item) | DataType::LargeList(item) => Some(item.data_type().clone()),
        _ => None,
    }
}

/// The variant of `DataType` for dictionaries: the types of the keys and of the
/// entries.
#[verifier::external_body]
fn dictionary_types(outside: &DataType) -> (types: Option<(DataType, DataType)>)
    ensures
        match types {
            Some((k, v)) => arrow_family(*outside) == Family::Dictionary(
                Box::new(type_of(k)),
                Box::new(type_of(v)),
            ),
            None => !(arrow_family(*outside) is Dictionary),
        },
{
    match outside {
        DataType::Dictionary(k, v) => Some((k.as_ref().clone(), v.as_ref().clone())),
        _ => None,
    }
}

/// `ScalarValue::data_type`: the type of a literal. It is a function of the
/// literal.
#[verifier::external_body]
fn type_of_value(value: &ScalarValue) -> (outside: DataType)
    ensures
        type_of(outside) == literal_type(contents(*value)),
{
    value.data_type()
}

/// The variants of `ScalarValue` for bytes: how many bytes there are. That is a
/// function of the literal.
#[verifier::external_body]
fn count_bytes(value: &ScalarValue) -> (count: Option<usize>)
    ensures
        count == byte_count(contents(*value)),
{
    match value {
        ScalarValue::Binary(Some(bytes)) => Some(bytes.len()),
        ScalarValue::LargeBinary(Some(bytes)) => Some(bytes.len()),
        ScalarValue::BinaryView(Some(bytes)) => Some(bytes.len()),
        ScalarValue::FixedSizeBinary(_, Some(bytes)) => Some(bytes.len()),
        _ => None,
    }
}

/// `DecimalType::is_valid_decimal_precision` for the variants of `ScalarValue`
/// for decimal numbers: whether a number has no more digits than its type says.
/// That is a function of the literal; a null is taken to.
#[verifier::external_body]
fn precision_fits(value: &ScalarValue) -> (fits: bool)
    ensures
        fits == fits_precision(contents(*value)),
{
    match value {
        ScalarValue::Decimal32(Some(v), p, _) => Decimal32Type::is_valid_decimal_precision(*v, *p),
        ScalarValue::Decimal64(Some(v), p, _) => Decimal64Type::is_valid_decimal_precision(*v, *p),
        ScalarValue::Decimal128(Some(v), p, _) => {
            Decimal128Type::is_valid_decimal_precision(*v, *p)
        },
        ScalarValue::Decimal256(Some(v), p, _) => {
            Decimal256Type::is_valid_decimal_precision(*v, *p)
        },
        _ => true,
    }
}

/// The variants of `ScalarValue` for dates, instants and times of day in
/// microseconds: the number that they hold, and what it counts. That is a
/// function of the literal.
#[verifier::external_body]
fn find_instant(value: &ScalarValue) -> (instant: Option<Instant>)
    ensures
        instant == instant_of(contents(*value)),
{
    Some(match value {
        ScalarValue::Date32(Some(v)) => Instant::Days(*v),
        ScalarValue::Date64(Some(v)) => Instant::Milliseconds(*v),
        ScalarValue::Time64Microsecond(Some(v)) => Instant::Microseconds(*v),
        ScalarValue::TimestampSecond(Some(v), _) => Instant::Seconds(*v),
        ScalarValue::TimestampMillisecond(Some(v), _) => Instant::Milliseconds(*v),
        ScalarValue::TimestampMicrosecond(Some(v), _) => Instant::Microseconds(*v),
        ScalarValue::TimestampNanosecond(Some(v), _) => Instant::Nanoseconds(*v),
        _ => return None,
    })
}

/// The variant of `ScalarValue` for entries of dictionaries: the type of the
/// keys and the entry. They are a function of the literal.
#[verifier::external_body]
fn dictionary_value(value: &ScalarValue) -> (entry: Option<(DataType, ScalarValue)>)
    ensures
        match entry {
            Some((key, v)) => dictionary_entry(contents(*value)) == Some(
                (type_of(key), contents(v)),
            ),
            None => dictionary_entry(contents(*value)) is None,
        },
{
    match value {
        ScalarValue::Dictionary(key, v) => Some((key.as_ref().clone(), v.as_ref().clone())),
        _ => None,
    }
}

/// `ScalarValue::cast_to`, with the default options of DataFusion, under which
/// a value that its target cannot hold is an error. What it gives is a
/// function of the literal and the target, but for the payload and the sign of
/// NaNs, and a literal that is of the target type already is cloned, so that it
/// keeps even those. It does not panic on a literal and a target that are
/// castable; on others it can, on a dictionary with keys that are no integers
/// for one.
#[verifier::external_body]
fn cast_value(value: &ScalarValue, target: &DataType) -> (cast: Option<ScalarValue>)
    requires
        castable(contents(*value), type_of(*target)),
    ensures
        match cast {
            Some(v) => cast_scalar(contents(*value), type_of(*target)) == Some(contents(v)),
            None => cast_scalar(contents(*value), type_of(*target)) is None,
        },
        is_of_type(contents(*value), type_of(*target)) ==> cast is Some,
        is_of_type(contents(*value), type_of(*target)) ==> contents(cast->0) == contents(*value),
        is_of_type(contents(*value), type_of(*target)) ==> float_bits(cast->0) == float_bits(
            *value,
        ),
{
    value.cast_to(target).ok()
}

/// `ScalarValue::try_new_null`: the null of a type. It is a function of the
/// type, and of the kind of its own where the type has one.
#[verifier::external_body]
fn null_value(target: &DataType) -> (null: Option<ScalarValue>)
    requires
        typed_null(type_of(*target)) is Some,
    ensures
        null is Some,
        null matches Some(v) ==> contents(v) == match plain_null(type_of(*target)) {
            Some(plain) => plain,
            None => null_scalar(type_of(*target)),
        },
{
    ScalarValue::try_new_null(target).ok()
}

/// The DataFusion literal of a literal.
fn to_outside(value: &Scalar) -> (outside: ScalarValue)
    ensures
        contents(outside) == held(value@),
        value@.is_float() ==> float_bits(outside) == scalar_bits(*value),
{
    match integer_value(value) {
        Some(outside) => outside,
        None => match float_value(value) {
            Some(outside) => outside,
            None => plain_value(value),
        },
    }
}

/// The literal of a DataFusion literal.
fn from_outside(outside: ScalarValue) -> (value: Scalar)
    ensures
        value@ == contents(outside),
        value@.is_float() ==> scalar_bits(value) == float_bits(outside),
{
    match integer_scalar(&outside) {
        Some(value) => value,
        None => match float_scalar(&outside) {
            Some(value) => value,
            None => plain_scalar(outside),
        },
    }
}

/// The type that an Arrow type is.
fn read_type(outside: &DataType) -> (value_type: ValueType)
    ensures
        value_type == type_of(*outside),
        value_type matches ValueType::Other(t) ==> t == *outside,
{
    match read_number_type(outside) {
        Some(value_type) => value_type,
        None => read_plain_type(outside),
    }
}

/// The type that is meant by a type.
pub fn meant_type(value_type: &ValueType) -> (meaning: ValueType)
    ensures
        meaning == meant(*value_type),
        meaning matches ValueType::Other(t) ==> type_of(t) == meaning,
{
    match value_type {
        ValueType::Other(outside) => read_type(outside),
        _ => value_type.clone(),
    }
}

/// The Arrow type of a type.
fn outside_type(value_type: &ValueType) -> (outside: Option<DataType>)
    requires
        *value_type matches ValueType::Other(t) ==> type_of(t) == *value_type,
    ensures
        outside is None <==> value_type is FixedSizeList,
        outside matches Some(t) ==> type_of(t) == *value_type,
{
    match value_type {
        ValueType::Other(outside) => Some(outside.clone()),
        _ => match number_type(value_type) {
            Some(outside) => Some(outside),
            None => plain_type(value_type),
        },
    }
}

/// The family of a type.
fn find_family(value_type: &ValueType) -> (found: Family)
    ensures
        found == family(*value_type),
{
    match value_type {
        ValueType::Other(outside) => {
            if let Some(found) = temporal_family(outside) {
                return found;
            }
            if let Some(found) = other_family(outside) {
                return found;
            }
            if let Some(item) = list_item(outside) {
                return Family::List(Box::new(read_type(&item)));
            }
            match dictionary_types(outside) {
                Some((key, entry)) => Family::Dictionary(
                    Box::new(read_type(&key)),
                    Box::new(read_type(&entry)),
                ),
                None => Family::Unknown,
            }
        },
        _ => Family::Unknown,
    }
}

fn has_temporal_family(found: &Family) -> (temporal: bool)
    ensures
        temporal == found.is_temporal(),
{
    match found {
        Family::Date
        | Family::Time32
        | Family::Time64
        | Family::Timestamp
        | Family::ZonedTimestamp
        | Family::Duration
        | Family::Interval => true,
        _ => false,
    }
}

fn has_decimal_family(found: &Family) -> (decimal: bool)
    ensures
        decimal == found.is_decimal(),
{
    match found {
        Family::Decimal32(..) | Family::Decimal64(..) | Family::Decimal256(..) => true,
        _ => false,
    }
}

fn has_text_type(value_type: &ValueType) -> (text: bool)
    ensures
        text == value_type.is_text(),
{
    match value_type {
        ValueType::Utf8 | ValueType::LargeUtf8 | ValueType::Utf8View => true,
        _ => false,
    }
}

/// Whether values of a type are not made of other values.
fn has_flat_type(value_type: &ValueType) -> (flat: bool)
    ensures
        flat == is_flat(*value_type),
{
    match value_type {
        ValueType::FixedSizeList(..) => false,
        ValueType::Other(_) => {
            let found = find_family(value_type);
            has_temporal_family(&found) || has_decimal_family(&found) || match found {
                Family::Bytes | Family::LargeBytes => true,
                _ => false,
            }
        },
        _ => true,
    }
}

/// Whether a type whose values are not made of other values has values.
fn has_sound_type(value_type: &ValueType) -> (sound: bool)
    ensures
        sound == is_sound(*value_type),
{
    match value_type {
        ValueType::FixedSizeBinary(size) => *size >= 0,
        _ => has_flat_type(value_type),
    }
}

/// Whether values of a type are texts or bytes.
fn has_byte_type(value_type: &ValueType) -> (bytes: bool)
    ensures
        bytes == is_byte_type(*value_type),
{
    match value_type {
        ValueType::FixedSizeBinary(_) => true,
        _ => has_text_type(value_type) || match find_family(value_type) {
            Family::Bytes | Family::LargeBytes => true,
            _ => false,
        },
    }
}

/// What digits are.
pub open spec fn digits_view(digits: Option<(u8, u8, i8)>) -> Option<(int, u8, i8)> {
    match digits {
        Some((most, precision, scale)) => Some((most as int, precision, scale)),
        None => None,
    }
}

/// How many digits a decimal type can have, how many it has, and its scale.
fn find_digits(value_type: &ValueType) -> (digits: Option<(u8, u8, i8)>)
    ensures
        digits_view(digits) == decimal_digits(*value_type),
{
    match value_type {
        ValueType::Decimal128(precision, scale) => Some((38, *precision, *scale)),
        _ => match find_family(value_type) {
            Family::Decimal32(precision, scale) => Some((9, precision, scale)),
            Family::Decimal64(precision, scale) => Some((18, precision, scale)),
            Family::Decimal256(precision, scale) => Some((76, precision, scale)),
            _ => None,
        },
    }
}

/// Whether a decimal literal, if the target is a decimal type, can be given it.
fn find_rescales(outside: &ScalarValue, from: &ValueType, target: &ValueType) -> (can: bool)
    ensures
        can == rescales(contents(*outside), *from, *target),
{
    match (find_digits(from), find_digits(target)) {
        (Some((from_most, from_precision, from_scale)), Some((most, precision, scale))) => {
            let shift: i16 = scale as i16 - from_scale as i16;
            let sum: i16 = from_precision as i16 + shift;
            from_precision <= 127 && -127 <= shift && shift <= 127 && -128 <= sum && sum <= 127 && (
            most >= from_most || (precision_fits(outside) && precision <= most))
        },
        _ => true,
    }
}

/// Whether a text that is not null fits where a signed integer of 32 bits
/// counts the bytes.
fn find_text_fits(value: &Scalar) -> (fits: bool)
    ensures
        fits == text_fits(value@),
{
    match value {
        Scalar::Utf8(Some(text)) | Scalar::LargeUtf8(Some(text)) | Scalar::Utf8View(Some(text)) => {
            text.as_str().as_bytes().len() <= MAX_BYTES
        },
        _ => true,
    }
}

/// Whether a literal of bytes fits where a signed integer of 32 bits counts the
/// bytes.
fn find_bytes_fit(outside: &ScalarValue) -> (fits: bool)
    ensures
        fits == bytes_fit(contents(*outside)),
{
    match count_bytes(outside) {
        Some(count) => count <= MAX_BYTES,
        None => true,
    }
}

/// Whether a time zone can be applied to a literal that is a date or an instant.
fn find_near(outside: &ScalarValue) -> (near: bool)
    ensures
        near == is_near(contents(*outside)),
{
    match find_instant(outside) {
        Some(Instant::Days(n)) => {
            let seconds: i64 = n as i64 * 86_400;
            -NEAR_SECONDS <= seconds && seconds <= NEAR_SECONDS
        },
        Some(Instant::Seconds(n)) => -NEAR_SECONDS <= n && n <= NEAR_SECONDS,
        Some(Instant::Milliseconds(n)) => {
            -NEAR_SECONDS * 1000 <= n && n <= NEAR_SECONDS * 1000
        },
        Some(Instant::Microseconds(n)) => {
            -NEAR_SECONDS * 1_000_000 <= n && n <= NEAR_SECONDS * 1_000_000
        },
        Some(Instant::Nanoseconds(_)) | None => true,
    }
}

/// Whether 64 bits count the nanoseconds of a literal that is a time of day in
/// microseconds.
fn find_nanoseconds(outside: &ScalarValue) -> (fits: bool)
    ensures
        fits == has_nanoseconds(contents(*outside)),
{
    match find_instant(outside) {
        Some(Instant::Microseconds(n)) => -MAX_MICROSECONDS <= n && n <= MAX_MICROSECONDS,
        _ => true,
    }
}

/// Whether 64 bits count the nanoseconds of a literal that is a date in
/// milliseconds.
fn find_date_nanoseconds(outside: &ScalarValue) -> (fits: bool)
    ensures
        fits == dates_nanoseconds(contents(*outside)),
{
    match find_instant(outside) {
        Some(Instant::Milliseconds(n)) => -MAX_MILLISECONDS <= n && n <= MAX_MILLISECONDS,
        _ => true,
    }
}

/// Whether the cast of a literal of a kind of its own to a type whose values
/// are not made of other values is known not to panic.
fn can_cast_plainly(value: &Scalar, outside: &ScalarValue, target: &ValueType) -> (can: bool)
    requires
        value@ == contents(*outside),
    ensures
        can == plainly_castable(value@, *target),
{
    if !has_flat_type(target) {
        return false;
    }
    match value {
        Scalar::Null => has_sound_type(target),
        Scalar::Utf8(_) => has_text_type(target) || find_text_fits(value),
        Scalar::LargeUtf8(_) | Scalar::Utf8View(_) => {
            has_text_type(target) || find_text_fits(value) || !has_byte_type(target)
        },
        Scalar::Decimal128(_, precision, scale) => find_rescales(
            outside,
            &ValueType::Decimal128(*precision, *scale),
            target,
        ),
        Scalar::Other(_) => false,
        _ => true,
    }
}

/// Whether the cast of a literal without a kind of its own to a type whose
/// values are not made of other values is known not to panic.
fn can_cast_remotely(outside: &ScalarValue, target: &ValueType) -> (can: bool)
    ensures
        can == remotely_castable(contents(*outside), *target),
{
    if !has_flat_type(target) {
        return false;
    }
    let from = read_type(&type_of_value(outside));
    if let ValueType::FixedSizeBinary(size) = &from {
        let size: i32 = *size;
        return size >= 0 && match count_bytes(outside) {
            Some(count) => count == size as usize,
            None => true,
        };
    }
    let to = find_family(target);
    match find_family(&from) {
        Family::Decimal32(..) | Family::Decimal64(..) | Family::Decimal256(..) => find_rescales(
            outside,
            &from,
            target,
        ),
        Family::Date | Family::Timestamp => {
            !matches!(to, Family::ZonedTimestamp) || find_near(outside)
        },
        Family::ZonedTimestamp => {
            !(matches!(to, Family::Date) || has_text_type(target)) || find_near(outside)
        },
        Family::Time64 => !matches!(to, Family::Time64) || find_nanoseconds(outside),
        Family::Time32 | Family::Duration | Family::Interval => true,
        Family::Bytes => has_sound_type(target) && find_bytes_fit(outside),
        Family::LargeBytes => has_sound_type(target) && (find_bytes_fit(outside) || !has_byte_type(
            target,
        )),
        Family::List(_) | Family::Nested => !has_text_type(target),
        Family::FixedList(size) => size != 1,
        Family::Dictionary(..) | Family::Unknown => false,
    }
}

/// Whether the cast of an entry of a dictionary to a type whose values are not
/// made of other values is known not to panic.
fn can_cast_entry(outside: &ScalarValue, target: &ValueType) -> (can: bool)
    ensures
        can == entry_castable(contents(*outside), *target),
{
    let entry = from_outside(outside.clone());
    match entry {
        Scalar::Other(_) => {
            let from = read_type(&type_of_value(outside));
            can_cast_remotely(outside, target) && has_flat_type(&from) && (!(matches!(
                find_family(&from),
                Family::Date
            ) && matches!(find_family(target), Family::Timestamp | Family::ZonedTimestamp))
                || find_date_nanoseconds(outside))
        },
        _ => can_cast_plainly(&entry, outside, target) && find_text_fits(&entry),
    }
}

fn has_integer_type(value_type: &ValueType) -> (integer: bool)
    ensures
        integer == value_type.is_integer(),
{
    match value_type {
        ValueType::Int8
        | ValueType::Int16
        | ValueType::Int32
        | ValueType::Int64
        | ValueType::UInt8
        | ValueType::UInt16
        | ValueType::UInt32
        | ValueType::UInt64 => true,
        _ => false,
    }
}

/// Whether the cast of a literal is known not to panic.
fn can_cast(outside: &ScalarValue, target: &ValueType) -> (can: bool)
    ensures
        can == castable(contents(*outside), *target),
{
    let value = from_outside(outside.clone());
    match value {
        Scalar::Other(_) => match dictionary_value(outside) {
            Some((key, entry)) => {
                has_integer_type(&read_type(&key)) && has_flat_type(target) && can_cast_entry(
                    &entry,
                    target,
                )
            },
            None => can_cast_remotely(outside, target),
        },
        _ => match find_family(target) {
            Family::List(item) => {
                has_sound_type(&item) && can_cast_plainly(&value, outside, &item)
                    && find_text_fits(&value)
            },
            Family::Dictionary(key, entry) => {
                has_integer_type(&key) && has_sound_type(&entry) && can_cast_plainly(
                    &value,
                    outside,
                    &entry,
                ) && find_text_fits(&value)
            },
            _ => can_cast_plainly(&value, outside, target),
        },
    }
}

/// What a cast makes of a literal: `None` where the cast is not made, because
/// it is not known not to panic, though it need not, and `Some(None)` where it
/// fails.
pub fn cast_to(value: &Scalar, target: &ValueType) -> (cast: Option<Option<Scalar>>)
    ensures
        match cast {
            Some(c) => {
                &&& castable(held(value@), meant(*target))
                &&& scalar_view(c) == cast_scalar(held(value@), meant(*target))
            },
            None => !castable(held(value@), meant(*target)),
        },
        is_of_type(value@, *target) ==> cast == Some(Some(*value)),
{
    let outside = to_outside(value);
    let target = meant_type(target);
    if !can_cast(&outside, &target) {
        return None;
    }
    match outside_type(&target) {
        Some(target) => match cast_value(&outside, &target) {
            Some(cast) => Some(Some(from_outside(cast))),
            None => Some(None),
        },
        None => None,
    }
}

/// The null of a type, where one is known to be made without a panic.
pub fn null_of(target: &ValueType) -> (null: Option<Scalar>)
    ensures
        scalar_view(null) == typed_null(meant(*target)),
{
    let target = meant_type(target);
    let sure = has_flat_type(&target) || match find_family(&target) {
        Family::List(item) => has_sound_type(&item),
        Family::Dictionary(_, entry) => has_flat_type(&entry),
        _ => false,
    };
    if !sure {
        return None;
    }
    match outside_type(&target) {
        Some(target) => match null_value(&target) {
            Some(null) => Some(from_outside(null)),
            None => None,
        },
        None => None,
    }
}

/// Whether a literal of a kind of its own is short enough for every cast.
pub open spec fn is_short(value: ScalarView) -> bool {
    match value {
        ScalarView::Utf8(Some(text))
        | ScalarView::LargeUtf8(Some(text))
        | ScalarView::Utf8View(Some(text)) => encode_utf8(text).len() <= 0x7fff_ffff,
        _ => true,
    }
}

/// Casts of literals of a kind of their own to number types, truth values and
/// texts are made, and those of all of them but decimal numbers to dates, times,
/// instants, spans, bytes and decimal numbers too, wherever a text is not too
/// long.
pub proof fn law_ordinary_casts_are_made(value: ScalarView, target: ValueType)
    requires
        !(value is Other),
        is_short(value),
    ensures
        target.is_number() || target is Boolean || target is Null || target.is_text() ==> castable(
            value,
            target,
        ),
        !(value is Decimal128) && (family(target) is Date || family(target) is Time32 || family(
            target,
        ) is Time64 || family(target) is Timestamp || family(target) is ZonedTimestamp || family(
            target,
        ) is Duration || family(target) is Interval || family(target) is Bytes || family(
            target,
        ) is LargeBytes || family(target) is Decimal32 || family(target) is Decimal64 || family(
            target,
        ) is Decimal256 || target is Decimal128) ==> castable(value, target),
{
}

/// What can panic is not cast: dictionaries with keys that are not integers,
/// bytes that are not as many as their type says, nulls of a negative size, and
/// decimal numbers whose digits and scales add up to more than eight bits hold.
pub proof fn law_what_can_panic_is_not_cast(value: ScalarView, target: ValueType)
    requires
        castable(value, target),
    ensures
        value is Other ==> (dictionary_entry(value) matches Some((key, _)) ==> key.is_integer()),
        !(value is Other) ==> (family(target) matches Family::Dictionary(key, _)
            ==> key.is_integer()),
        value is Null ==> (target matches ValueType::FixedSizeBinary(size) ==> size >= 0),
        value is Other && dictionary_entry(value) is None ==> (literal_type(
            value,
        ) matches ValueType::FixedSizeBinary(size) ==> size >= 0 && (byte_count(
            value,
        ) matches Some(count) ==> count == size)),
        value matches ScalarView::Decimal128(_, p, s) ==> (
        target matches ValueType::Decimal128(_, t) ==> {
            &&& p <= 127
            &&& -127 <= t - s <= 127
            &&& -128 <= p + (t - s) <= 127
        }),
{
}

/// The null of a type that has literals of a kind of their own is the null of
/// that kind.
pub proof fn law_typed_nulls(value_type: ValueType)
    ensures
        value_type.is_number() ==> (typed_null(value_type) matches Some(null) && is_of_type(
            null,
            value_type,
        ) && match null {
            ScalarView::Int8(v) => v is None,
            ScalarView::Int16(v) => v is None,
            ScalarView::Int32(v) => v is None,
            ScalarView::Int64(v) => v is None,
            ScalarView::UInt8(v) => v is None,
            ScalarView::UInt16(v) => v is None,
            ScalarView::UInt32(v) => v is None,
            ScalarView::UInt64(v) => v is None,
            ScalarView::Float16(v) => v is None,
            ScalarView::Float32(v) => v is None,
            ScalarView::Float64(v) => v is None,
            _ => false,
        }),
        value_type is Null ==> typed_null(value_type) == Some(ScalarView::Null),
        value_type is Boolean ==> typed_null(value_type) == Some(ScalarView::Boolean(None)),
        value_type is Utf8 ==> typed_null(value_type) == Some(ScalarView::Utf8(None)),
        value_type is LargeUtf8 ==> typed_null(value_type) == Some(ScalarView::LargeUtf8(None)),
        value_type is Utf8View ==> typed_null(value_type) == Some(ScalarView::Utf8View(None)),
        value_type matches ValueType::Decimal128(precision, scale) ==> typed_null(value_type)
            == Some(ScalarView::Decimal128(None, precision, scale)),
{
}

/// Casts of dates, times, instants, spans, decimal numbers and bytes that are not
/// too many to number types are made.
pub proof fn law_other_literals_are_cast_to_numbers(value: ScalarView, target: ValueType)
    requires
        value is Other,
        dictionary_entry(value) is None,
        !(literal_type(value) is FixedSizeBinary),
        target.is_number(),
    ensures
        family(literal_type(value)) is Date || family(literal_type(value)) is Time32 || family(
            literal_type(value),
        ) is Time64 || family(literal_type(value)) is Timestamp || family(
            literal_type(value),
        ) is ZonedTimestamp || family(literal_type(value)) is Duration || family(
            literal_type(value),
        ) is Interval || family(literal_type(value)) is Decimal32 || family(
            literal_type(value),
        ) is Decimal64 || family(literal_type(value)) is Decimal256 ==> castable(value, target),
        (family(literal_type(value)) is Bytes || family(literal_type(value)) is LargeBytes) && (
        byte_count(value) matches Some(count) ==> count <= 0x7fff_ffff) ==> castable(
            value,
            target,
        ),
{
}

/// Whether a date or an instant is so many seconds from the start of 1970, or
/// fewer.
pub open spec fn is_within(instant: Instant, seconds: int) -> bool {
    match instant {
        Instant::Days(n) => -seconds <= 86_400 * n <= seconds,
        Instant::Seconds(n) => -seconds <= n <= seconds,
        Instant::Milliseconds(n) => -1000 * seconds <= n <= 1000 * seconds,
        Instant::Microseconds(n) => -1_000_000 * seconds <= n <= 1_000_000 * seconds,
        Instant::Nanoseconds(n) => -1_000_000_000 * seconds <= n <= 1_000_000_000 * seconds,
    }
}

/// A date or an instant that is cast to a time zone, or an instant that is cast
/// from one to a date or a text, is within the range that every time zone leaves
/// it in; and a time of day in microseconds that is cast to a finer unit has no
/// more than 64 bits of it.
pub proof fn law_far_instants_are_not_cast(value: ScalarView, target: ValueType)
    requires
        castable(value, target),
        value is Other,
        dictionary_entry(value) is None,
        !(literal_type(value) is FixedSizeBinary),
    ensures
        ({
            let from = family(literal_type(value));
            let to = family(target);
            &&& (from is Date || from is Timestamp) && to is ZonedTimestamp ==> (instant_of(
                value,
            ) matches Some(instant) ==> is_within(instant, 8_000_000_000_000))
            &&& from is ZonedTimestamp && (to is Date || target.is_text()) ==> (instant_of(
                value,
            ) matches Some(instant) ==> is_within(instant, 8_000_000_000_000))
            &&& from is Time64 && to is Time64 ==> (instant_of(value) matches Some(
                Instant::Microseconds(n),
            ) ==> i64::MIN <= 1000 * n <= i64::MAX)
        }),
{
}

} // verus!
