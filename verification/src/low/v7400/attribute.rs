//! Node attributes.
use vstd::prelude::*;

use crate::low::bytes::le_value;
use crate::pull_parser::error::{DataFault, Decoded};

verus! {

/// A number in the IEEE 754 binary32 format, by its bits.
#[derive(Debug, Clone, Copy, PartialEq, Eq, Hash, Structural)]
pub struct Binary32(pub u32);

impl View for Binary32 {
    type V = Binary32;

    open spec fn view(&self) -> Binary32 {
        *self
    }
}

/// A number in the IEEE 754 binary64 format, by its bits.
#[derive(Debug, Clone, Copy, PartialEq, Eq, Hash, Structural)]
pub struct Binary64(pub u64);

impl View for Binary64 {
    type V = Binary64;

    open spec fn view(&self) -> Binary64 {
        *self
    }
}

/// Type of an attribute.
#[derive(Debug, Clone, Copy, PartialEq, Eq, Hash, Structural)]
pub enum AttributeType {
    /// Single `bool`.
    Bool,
    /// Single `i16`.
    I16,
    /// Single `i32`.
    I32,
    /// Single `i64`.
    I64,
    /// Single 32-bit floating point number.
    F32,
    /// Single 64-bit floating point number.
    F64,
    /// Array of `bool`.
    ArrBool,
    /// Array of `i32`.
    ArrI32,
    /// Array of `i64`.
    ArrI64,
    /// Array of 32-bit floating point numbers.
    ArrF32,
    /// Array of 64-bit floating point numbers.
    ArrF64,
    /// Bytes.
    Binary,
    /// Text.
    String,
}

impl View for AttributeType {
    type V = AttributeType;

    open spec fn view(&self) -> AttributeType {
        *self
    }
}

impl AttributeType {
    /// The type that the letter `code` stands for.
    pub open spec fn of_code(code: u8) -> Option<AttributeType> {
        if code == 0x43 {
            Some(AttributeType::Bool)
        } else if code == 0x44 {
            Some(AttributeType::F64)
        } else if code == 0x46 {
            Some(AttributeType::F32)
        } else if code == 0x49 {
            Some(AttributeType::I32)
        } else if code == 0x4c {
            Some(AttributeType::I64)
        } else if code == 0x52 {
            Some(AttributeType::Binary)
        } else if code == 0x53 {
            Some(AttributeType::String)
        } else if code == 0x59 {
            Some(AttributeType::I16)
        } else if code == 0x62 {
            Some(AttributeType::ArrBool)
        } else if code == 0x64 {
            Some(AttributeType::ArrF64)
        } else if code == 0x66 {
            Some(AttributeType::ArrF32)
        } else if code == 0x69 {
            Some(AttributeType::ArrI32)
        } else if code == 0x6c {
            Some(AttributeType::ArrI64)
        } else {
            None
        }
    }

    /// Returns the type that the letter `code` stands for.
    pub fn from_type_code(code: u8) -> (ty: Option<AttributeType>)
        ensures
            ty == Self::of_code(code),
    {
        match code {
            0x43 => Some(AttributeType::Bool),
            0x44 => Some(AttributeType::F64),
            0x46 => Some(AttributeType::F32),
            0x49 => Some(AttributeType::I32),
            0x4c => Some(AttributeType::I64),
            0x52 => Some(AttributeType::Binary),
            0x53 => Some(AttributeType::String),
            0x59 => Some(AttributeType::I16),
            0x62 => Some(AttributeType::ArrBool),
            0x64 => Some(AttributeType::ArrF64),
            0x66 => Some(AttributeType::ArrF32),
            0x69 => Some(AttributeType::ArrI32),
            0x6c => Some(AttributeType::ArrI64),
            _ => None,
        }
    }

    /// The attribute type whose letter `rest` starts with.
    pub open spec fn decode(rest: Seq<u8>) -> Decoded<AttributeType> {
        if rest.len() < 1 {
            Decoded::Truncated
        } else {
            match Self::of_code(rest[0]) {
                Some(ty) => Decoded::Value(ty, 1),
                None => Decoded::Invalid(DataFault::InvalidAttributeTypeCode(rest[0])),
            }
        }
    }
}

/// The way in which the elements of an array are written.
#[derive(Debug, Clone, Copy, PartialEq, Eq, Hash, Structural)]
pub enum ArrayAttributeEncoding {
    /// One after the other.
    Direct,
    /// One after the other, the whole compressed in the zlib format.
    Zlib,
}

impl ArrayAttributeEncoding {
    /// The encoding that the number `raw` stands for.
    pub open spec fn of_raw(raw: u32) -> Option<ArrayAttributeEncoding> {
        if raw == 0 {
            Some(ArrayAttributeEncoding::Direct)
        } else if raw == 1 {
            Some(ArrayAttributeEncoding::Zlib)
        } else {
            None
        }
    }

    /// Returns the encoding that the number `raw` stands for.
    pub fn from_u32(raw: u32) -> (encoding: Option<ArrayAttributeEncoding>)
        ensures
            encoding == Self::of_raw(raw),
    {
        match raw {
            0 => Some(ArrayAttributeEncoding::Direct),
            1 => Some(ArrayAttributeEncoding::Zlib),
            _ => None,
        }
    }
}

/// The number of bytes that the header of an array attribute takes.
pub const ARRAY_HEADER_LEN: usize = 12;

/// Header of an array attribute.
#[derive(Debug, Clone, Copy, PartialEq, Eq, Hash, Structural)]
pub struct ArrayAttributeHeader {
    /// Number of elements.
    pub elements_count: u32,
    /// The way in which the elements are written.
    pub encoding: ArrayAttributeEncoding,
    /// Length of the elements as they are written, in bytes.
    pub bytelen: u32,
}

impl View for ArrayAttributeHeader {
    type V = ArrayAttributeHeader;

    open spec fn view(&self) -> ArrayAttributeHeader {
        *self
    }
}

impl ArrayAttributeHeader {
    /// The array header that `rest` starts with.
    pub open spec fn decode(rest: Seq<u8>) -> Decoded<ArrayAttributeHeader> {
        if rest.len() < ARRAY_HEADER_LEN {
            Decoded::Truncated
        } else {
            let raw = le_value(rest.subrange(4, 8)) as u32;
            match ArrayAttributeEncoding::of_raw(raw) {
                Some(encoding) => Decoded::Value(
                    ArrayAttributeHeader {
                        elements_count: le_value(rest.subrange(0, 4)) as u32,
                        encoding,
                        bytelen: le_value(rest.subrange(8, 12)) as u32,
                    },
                    ARRAY_HEADER_LEN as nat,
                ),
                None => Decoded::Invalid(DataFault::InvalidArrayAttributeEncoding(raw)),
            }
        }
    }

    /// Returns the number of elements.
    pub fn elements_count(&self) -> (count: u32)
        ensures
            count == self.elements_count,
    {
        self.elements_count
    }

    /// Returns the way in which the elements are written.
    pub fn encoding(&self) -> (encoding: ArrayAttributeEncoding)
        ensures
            encoding == self.encoding,
    {
        self.encoding
    }

    /// Returns the length of the elements as they are written, in bytes.
    pub fn bytelen(&self) -> (bytelen: u32)
        ensures
            bytelen == self.bytelen,
    {
        self.bytelen
    }
}

/// The number of bytes that the header of a binary or string attribute takes.
pub const SPECIAL_HEADER_LEN: usize = 4;

/// Header of a binary or string attribute.
#[derive(Debug, Clone, Copy, PartialEq, Eq, Hash, Structural)]
pub struct SpecialAttributeHeader {
    /// Length of the content, in bytes.
    pub bytelen: u32,
}

impl View for SpecialAttributeHeader {
    type V = SpecialAttributeHeader;

    open spec fn view(&self) -> SpecialAttributeHeader {
        *self
    }
}

impl SpecialAttributeHeader {
    /// The header that `rest` starts with.
    pub open spec fn decode(rest: Seq<u8>) -> Decoded<SpecialAttributeHeader> {
        if rest.len() < SPECIAL_HEADER_LEN {
            Decoded::Truncated
        } else {
            Decoded::Value(
                SpecialAttributeHeader { bytelen: le_value(rest.subrange(0, 4)) as u32 },
                SPECIAL_HEADER_LEN as nat,
            )
        }
    }

    /// Returns the length of the content, in bytes.
    pub fn bytelen(&self) -> (bytelen: u32)
        ensures
            bytelen == self.bytelen,
    {
        self.bytelen
    }
}

} // verus!
