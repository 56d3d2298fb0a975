//! Values that are read from a source.
use vstd::prelude::*;

use crate::low::bytes::{
    le_u16, le_u32, le_u64, le_value, signed_i16, signed_i32, signed_i64, signed_value,
};
use crate::low::v7400::attribute::{ARRAY_HEADER_LEN, SPECIAL_HEADER_LEN};
use crate::low::v7400::{
    ArrayAttributeEncoding, ArrayAttributeHeader, AttributeType, Binary32, Binary64,
    SpecialAttributeHeader,
};
use crate::pull_parser::error::{DataError, Decoded, Error, ErrorModel};
use crate::pull_parser::reader::{moves_on, shortage_or, IoError, ParserSource};

verus! {

/// Whether `e` is a failure of the input that a source may give to a request for
/// bytes, of which it has all unless `truncated`: one of the given failures, or the
/// shortage.
pub open spec fn input_failure(failures: Set<IoError>, truncated: bool, e: Error) -> bool {
    exists|io: IoError| #[trigger]
        ErrorModel::io(io) == e@ && shortage_or(failures, truncated, io)
}

/// Whether `r` may come of reading a value from the source `before`, which is
/// `after` afterwards, where the bytes there hold `want`.
pub open spec fn obtains<T: View, S: ParserSource>(
    want: Decoded<T::V>,
    before: S,
    after: S,
    r: Result<T, Error>,
) -> bool {
    &&& moves_on(before, after)
    &&& match r {
        Ok(value) => {
            &&& want matches Decoded::Value(v, len)
            &&& value@ == v
            &&& len <= before.stream().rest.len()
            &&& after.stream() == before.stream().advance(len)
        },
        Err(e) => {
            ||| want matches Decoded::Invalid(fault) && e@ == ErrorModel::data(fault)
            ||| input_failure(
                before.failures(),
                want is Truncated && after.stream() == before.stream().exhausted(),
                e,
            )
        },
    }
}

/// A value that can be read from a source.
pub trait FromReader: View + Sized {
    /// The value that `rest` starts with.
    spec fn decode(rest: Seq<u8>) -> Decoded<Self::V>;

    /// Reads the value from the source.
    fn from_reader<R: ParserSource>(reader: &mut R) -> (r: Result<Self, Error>)
        requires
            old(reader).wf(),
        ensures
            obtains(Self::decode(old(reader).stream().rest), *old(reader), *final(reader), r),
    ;
}

/// Reads `len` bytes.
pub(crate) fn read_array<R: ParserSource>(reader: &mut R, len: usize) -> (r: Result<Vec<u8>, Error>)
    requires
        old(reader).wf(),
    ensures
        moves_on(*old(reader), *final(reader)),
        match r {
            Ok(bytes) => {
                &&& len <= old(reader).stream().rest.len()
                &&& bytes@ == old(reader).stream().rest.take(len as int)
                &&& bytes@.len() == len
                &&& final(reader).stream() == old(reader).stream().advance(len as nat)
            },
            Err(e) => input_failure(
                old(reader).failures(),
                len > old(reader).stream().rest.len() && final(reader).stream() == old(
                    reader,
                ).stream().exhausted(),
                e,
            ),
        },
{
    match reader.read_exact(len) {
        Ok(bytes) => Ok(bytes),
        Err(io) => {
            let e = Error::io(io);
            assert(ErrorModel::io(io) == e@);
            Err(e)
        },
    }
}

impl FromReader for u8 {
    open spec fn decode(rest: Seq<u8>) -> Decoded<u8> {
        if rest.len() < 1 {
            Decoded::Truncated
        } else {
            Decoded::Value(rest[0], 1)
        }
    }

    fn from_reader<R: ParserSource>(reader: &mut R) -> (r: Result<u8, Error>) {
        match read_array(reader, 1) {
            Ok(bytes) => Ok(bytes[0]),
            Err(e) => Err(e),
        }
    }
}

impl FromReader for i16 {
    open spec fn decode(rest: Seq<u8>) -> Decoded<i16> {
        if rest.len() < 2 {
            Decoded::Truncated
        } else {
            Decoded::Value(signed_value(le_value(rest.take(2)), 0x1_0000) as i16, 2)
        }
    }

    fn from_reader<R: ParserSource>(reader: &mut R) -> (r: Result<i16, Error>) {
        match read_array(reader, 2) {
            Ok(bytes) => {
                assert(bytes@.subrange(0, 2) =~= bytes@);
                Ok(signed_i16(le_u16(&bytes, 0)))
            },
            Err(e) => Err(e),
        }
    }
}

impl FromReader for i32 {
    open spec fn decode(rest: Seq<u8>) -> Decoded<i32> {
        if rest.len() < 4 {
            Decoded::Truncated
        } else {
            Decoded::Value(signed_value(le_value(rest.take(4)), 0x1_0000_0000) as i32, 4)
        }
    }

    fn from_reader<R: ParserSource>(reader: &mut R) -> (r: Result<i32, Error>) {
        match read_array(reader, 4) {
            Ok(bytes) => {
                assert(bytes@.subrange(0, 4) =~= bytes@);
                Ok(signed_i32(le_u32(&bytes, 0)))
            },
            Err(e) => Err(e),
        }
    }
}

impl FromReader for i64 {
    open spec fn decode(rest: Seq<u8>) -> Decoded<i64> {
        if rest.len() < 8 {
            Decoded::Truncated
        } else {
            Decoded::Value(signed_value(le_value(rest.take(8)), 0x1_0000_0000_0000_0000) as i64, 8)
        }
    }

    fn from_reader<R: ParserSource>(reader: &mut R) -> (r: Result<i64, Error>) {
        match read_array(reader, 8) {
            Ok(bytes) => {
                assert(bytes@.subrange(0, 8) =~= bytes@);
                Ok(signed_i64(le_u64(&bytes, 0)))
            },
            Err(e) => Err(e),
        }
    }
}

impl FromReader for Binary32 {
    open spec fn decode(rest: Seq<u8>) -> Decoded<Binary32> {
        if rest.len() < 4 {
            Decoded::Truncated
        } else {
            Decoded::Value(Binary32(le_value(rest.take(4)) as u32), 4)
        }
    }

    fn from_reader<R: ParserSource>(reader: &mut R) -> (r: Result<Binary32, Error>) {
        match read_array(reader, 4) {
            Ok(bytes) => {
                assert(bytes@.subrange(0, 4) =~= bytes@);
                Ok(Binary32(le_u32(&bytes, 0)))
            },
            Err(e) => Err(e),
        }
    }
}

impl FromReader for Binary64 {
    open spec fn decode(rest: Seq<u8>) -> Decoded<Binary64> {
        if rest.len() < 8 {
            Decoded::Truncated
        } else {
            Decoded::Value(Binary64(le_value(rest.take(8)) as u64), 8)
        }
    }

    fn from_reader<R: ParserSource>(reader: &mut R) -> (r: Result<Binary64, Error>) {
        match read_array(reader, 8) {
            Ok(bytes) => {
                assert(bytes@.subrange(0, 8) =~= bytes@);
                Ok(Binary64(le_u64(&bytes, 0)))
            },
            Err(e) => Err(e),
        }
    }
}

impl FromReader for AttributeType {
    open spec fn decode(rest: Seq<u8>) -> Decoded<AttributeType> {
        AttributeType::decode(rest)
    }

    fn from_reader<R: ParserSource>(reader: &mut R) -> (r: Result<AttributeType, Error>) {
        match read_array(reader, 1) {
            Ok(bytes) => match AttributeType::from_type_code(bytes[0]) {
                Some(ty) => Ok(ty),
                None => Err(Error::data(DataError::InvalidAttributeTypeCode(bytes[0]))),
            },
            Err(e) => Err(e),
        }
    }
}

impl FromReader for ArrayAttributeHeader {
    open spec fn decode(rest: Seq<u8>) -> Decoded<ArrayAttributeHeader> {
        ArrayAttributeHeader::decode(rest)
    }

    fn from_reader<R: ParserSource>(reader: &mut R) -> (r: Result<ArrayAttributeHeader, Error>) {
        let ghost rest = reader.stream().rest;
        match read_array(reader, ARRAY_HEADER_LEN) {
            Ok(bytes) => {
                proof {
                    assert(bytes@.subrange(0, 4) =~= rest.subrange(0, 4));
                    assert(bytes@.subrange(4, 8) =~= rest.subrange(4, 8));
                    assert(bytes@.subrange(8, 12) =~= rest.subrange(8, 12));
                }
                let elements_count: u32 = le_u32(&bytes, 0);
                let raw: u32 = le_u32(&bytes, 4);
                let bytelen: u32 = le_u32(&bytes, 8);
                match ArrayAttributeEncoding::from_u32(raw) {
                    Some(encoding) => Ok(
                        ArrayAttributeHeader { elements_count, encoding, bytelen },
                    ),
                    None => Err(Error::data(DataError::InvalidArrayAttributeEncoding(raw))),
                }
            },
            Err(e) => Err(e),
        }
    }
}

impl FromReader for SpecialAttributeHeader {
    open spec fn decode(rest: Seq<u8>) -> Decoded<SpecialAttributeHeader> {
        SpecialAttributeHeader::decode(rest)
    }

    fn from_reader<R: ParserSource>(reader: &mut R) -> (r: Result<SpecialAttributeHeader, Error>) {
        let ghost rest = reader.stream().rest;
        match read_array(reader, SPECIAL_HEADER_LEN) {
            Ok(bytes) => {
                assert(bytes@.subrange(0, 4) =~= rest.subrange(0, 4));
                Ok(SpecialAttributeHeader { bytelen: le_u32(&bytes, 0) })
            },
            Err(e) => Err(e),
        }
    }
}

} // verus!
