//! Column and literal types.

use vstd::prelude::*;

verus! {

/// An Arrow type that the library carries without looking inside.
#[verifier::external_type_specification]
#[verifier::external_body]
pub struct ExArrowDataType(arrow_schema::DataType);

/// `Clone` of an Arrow type gives back an equal type.
pub assume_specification[ <arrow_schema::DataType as Clone>::clone ](
    arrow_type: &arrow_schema::DataType,
) -> (copy: arrow_schema::DataType)
    ensures
        copy == *arrow_type,
;

/// The type of a column, of a literal or of the target of a cast.
#[derive(Debug, PartialEq)]
pub enum ValueType {
    Null,
    Boolean,
    Int8,
    Int16,
    Int32,
    Int64,
    UInt8,
    UInt16,
    UInt32,
    UInt64,
    Float16,
    Float32,
    Float64,
    Utf8,
    LargeUtf8,
    Utf8View,
    /// A decimal number of so many digits, so many of which stand behind the
    /// decimal point.
    Decimal128(u8, i8),
    /// So many bytes.
    FixedSizeBinary(i32),
    /// So many values of a type.
    FixedSizeList(Box<ValueType>, i32),
    /// Every other type.
    Other(arrow_schema::DataType),
}

impl Clone for ValueType {
    fn clone(&self) -> (copy: Self)
        ensures
            copy == *self,
        decreases self,
    {
        match self {
            ValueType::Null => ValueType::Null,
            ValueType::Boolean => ValueType::Boolean,
            ValueType::Int8 => ValueType::Int8,
            ValueType::Int16 => ValueType::Int16,
            ValueType::Int32 => ValueType::Int32,
            ValueType::Int64 => ValueType::Int64,
            ValueType::UInt8 => ValueType::UInt8,
            ValueType::UInt16 => ValueType::UInt16,
            ValueType::UInt32 => ValueType::UInt32,
            ValueType::UInt64 => ValueType::UInt64,
            ValueType::Float16 => ValueType::Float16,
            ValueType::Float32 => ValueType::Float32,
            ValueType::Float64 => ValueType::Float64,
            ValueType::Utf8 => ValueType::Utf8,
            ValueType::LargeUtf8 => ValueType::LargeUtf8,
            ValueType::Utf8View => ValueType::Utf8View,
            ValueType::Decimal128(precision, scale) => ValueType::Decimal128(*precision, *scale),
            ValueType::FixedSizeBinary(size) => ValueType::FixedSizeBinary(*size),
            ValueType::FixedSizeList(item, size) => ValueType::FixedSizeList(
                Box::new((**item).clone()),
                *size,
            ),
            ValueType::Other(other) => ValueType::Other(other.clone()),
        }
    }
}

impl ValueType {
    /// Whether this is one of the eight integer types.
    pub open spec fn is_integer(self) -> bool {
        ||| self is Int8
        ||| self is Int16
        ||| self is Int32
        ||| self is Int64
        ||| self is UInt8
        ||| self is UInt16
        ||| self is UInt32
        ||| self is UInt64
    }

    /// Whether this is one of the three floating point types.
    pub open spec fn is_float(self) -> bool {
        self is Float16 || self is Float32 || self is Float64
    }

    /// Whether this is one of the eleven number types.
    pub open spec fn is_number(self) -> bool {
        self.is_integer() || self.is_float()
    }

    /// Whether this is one of the three string types.
    pub open spec fn is_text(self) -> bool {
        self is Utf8 || self is LargeUtf8 || self is Utf8View
    }

    /// The least value of an integer type.
    pub open spec fn least(self) -> int {
        match self {
            ValueType::Int8 => i8::MIN as int,
            ValueType::Int16 => i16::MIN as int,
            ValueType::Int32 => i32::MIN as int,
            ValueType::Int64 => i64::MIN as int,
            _ => 0,
        }
    }

    /// The greatest value of an integer type.
    pub open spec fn greatest(self) -> int {
        match self {
            ValueType::Int8 => i8::MAX as int,
            ValueType::Int16 => i16::MAX as int,
            ValueType::Int32 => i32::MAX as int,
            ValueType::Int64 => i64::MAX as int,
            ValueType::UInt8 => u8::MAX as int,
            ValueType::UInt16 => u16::MAX as int,
            ValueType::UInt32 => u32::MAX as int,
            _ => u64::MAX as int,
        }
    }
}

/// The number types, and the values that the integer types can hold: those of so
/// many bits, on both sides of zero for a signed type.
pub proof fn law_number_types(value_type: ValueType)
    ensures
        match value_type {
            ValueType::Int8 => value_type.least() == -0x80 && value_type.greatest() == 0x7f,
            ValueType::Int16 => value_type.least() == -0x8000 && value_type.greatest() == 0x7fff,
            ValueType::Int32 => value_type.least() == -0x8000_0000 && value_type.greatest()
                == 0x7fff_ffff,
            ValueType::Int64 => value_type.least() == -0x8000_0000_0000_0000
                && value_type.greatest() == 0x7fff_ffff_ffff_ffff,
            ValueType::UInt8 => value_type.least() == 0 && value_type.greatest() == 0xff,
            ValueType::UInt16 => value_type.least() == 0 && value_type.greatest() == 0xffff,
            ValueType::UInt32 => value_type.least() == 0 && value_type.greatest() == 0xffff_ffff,
            ValueType::UInt64 => value_type.least() == 0 && value_type.greatest()
                == 0xffff_ffff_ffff_ffff,
            _ => !value_type.is_integer(),
        },
        value_type is Int8 || value_type is Int16 || value_type is Int32 || value_type is Int64
            || value_type is UInt8 || value_type is UInt16 || value_type is UInt32
            || value_type is UInt64 ==> value_type.is_integer(),
        value_type.is_float() <==> value_type is Float16 || value_type is Float32
            || value_type is Float64,
        value_type.is_text() <==> value_type is Utf8 || value_type is LargeUtf8
            || value_type is Utf8View,
        value_type.is_number() <==> value_type.is_integer() || value_type.is_float(),
{
}

} // verus!
