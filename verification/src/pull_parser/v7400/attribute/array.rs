//! Array attributes.
use core::marker::PhantomData;
use vstd::prelude::*;

use crate::low::bytes::{
    le_u32, le_u64, le_value, signed_i32, signed_i64, signed_value,
};
use crate::low::v7400::{ArrayAttributeEncoding, Binary32, Binary64};
use crate::pull_parser::error::{DataError, DataFault, Error, ErrorModel};
use crate::pull_parser::reader::{lemma_reaches_reflexive, IoError, ParserSource};
use crate::pull_parser::v7400::attribute::inflate::{inflate, inflated};
use crate::pull_parser::v7400::attribute::payload::{load_content, AttributeReader, Payload};
use crate::pull_parser::v7400::read::input_failure;

verus! {

/// An element of an array of numbers.
pub trait ArrayElement: Sized {
    /// The number of bytes that an element takes.
    spec fn byte_len() -> nat;

    /// The element that `bytes` write down.
    spec fn value_of(bytes: Seq<u8>) -> Self;

    /// An element takes at least one byte and at most eight.
    proof fn lemma_byte_len()
        ensures
            1 <= Self::byte_len() <= 8,
    ;

    /// Returns the number of bytes that an element takes.
    fn element_len() -> (len: usize)
        ensures
            len == Self::byte_len(),
    ;

    /// Reads an element from its bytes.
    fn from_le_bytes(bytes: &Vec<u8>) -> (value: Self)
        requires
            bytes@.len() == Self::byte_len(),
        ensures
            value == Self::value_of(bytes@),
    ;
}

impl ArrayElement for i32 {
    open spec fn byte_len() -> nat {
        4
    }

    open spec fn value_of(bytes: Seq<u8>) -> i32 {
        signed_value(le_value(bytes), 0x1_0000_0000) as i32
    }

    proof fn lemma_byte_len() {
    }

    fn element_len() -> (len: usize) {
        4
    }

    fn from_le_bytes(bytes: &Vec<u8>) -> (value: i32) {
        assert(bytes@.subrange(0, 4) =~= bytes@);
        signed_i32(le_u32(bytes, 0))
    }
}

impl ArrayElement for i64 {
    open spec fn byte_len() -> nat {
        8
    }

    open spec fn value_of(bytes: Seq<u8>) -> i64 {
        signed_value(le_value(bytes), 0x1_0000_0000_0000_0000) as i64
    }

    proof fn lemma_byte_len() {
    }

    fn element_len() -> (len: usize) {
        8
    }

    fn from_le_bytes(bytes: &Vec<u8>) -> (value: i64) {
        assert(bytes@.subrange(0, 8) =~= bytes@);
        signed_i64(le_u64(bytes, 0))
    }
}

impl ArrayElement for Binary32 {
    open spec fn byte_len() -> nat {
        4
    }

    open spec fn value_of(bytes: Seq<u8>) -> Binary32 {
        Binary32(le_value(bytes) as u32)
    }

    proof fn lemma_byte_len() {
    }

    fn element_len() -> (len: usize) {
        4
    }

    fn from_le_bytes(bytes: &Vec<u8>) -> (value: Binary32) {
        assert(bytes@.subrange(0, 4) =~= bytes@);
        Binary32(le_u32(bytes, 0))
    }
}

impl ArrayElement for Binary64 {
    open spec fn byte_len() -> nat {
        8
    }

    open spec fn value_of(bytes: Seq<u8>) -> Binary64 {
        Binary64(le_value(bytes) as u64)
    }

    proof fn lemma_byte_len() {
    }

    fn element_len() -> (len: usize) {
        8
    }

    fn from_le_bytes(bytes: &Vec<u8>) -> (value: Binary64) {
        assert(bytes@.subrange(0, 8) =~= bytes@);
        Binary64(le_u64(bytes, 0))
    }
}

/// The given number of elements, written one after the other at the start of
/// `data`, if `data` holds them all.
pub open spec fn elements_in<T: ArrayElement>(data: Seq<u8>, count: nat) -> Option<Seq<T>>
    decreases count,
{
    if count == 0 {
        Some(Seq::empty())
    } else if data.len() < T::byte_len() {
        None
    } else {
        let first = T::value_of(data.take(T::byte_len() as int));
        match elements_in::<T>(data.skip(T::byte_len() as int), (count - 1) as nat) {
            Some(others) => Some(seq![first] + others),
            None => None,
        }
    }
}

/// The given number of truth values, written one after the other at the start of
/// `data`, if `data` holds them all.
pub open spec fn bools_in(data: Seq<u8>, count: nat) -> Option<Seq<bool>> {
    if data.len() < count {
        None
    } else {
        Some(Seq::new(count, |i: int| bool_of(data[i])))
    }
}

/// The truth value that the byte `raw` stands for.
pub open spec fn bool_of(raw: u8) -> bool {
    raw % 2 == 1
}

/// Returns the truth value that the byte `raw` stands for.
pub fn bool_from_raw(raw: u8) -> (value: bool)
    ensures
        value == bool_of(raw),
{
    assert((raw & 1 != 0) == (raw % 2 == 1)) by (bit_vector);
    (raw & 1) != 0
}

/// Bytes that are read from first to last.
#[derive(Debug)]
pub struct Inflated {
    /// All the bytes.
    pub bytes: Vec<u8>,
    /// How many have been read.
    pub next: usize,
}

/// The stream of the elements of an array.
pub struct AttributeStreamDecoder<'a, R> {
    /// The content of the attribute, as it is written.
    pub reader: &'a mut AttributeReader<R>,
    /// The elements, if they were compressed.
    pub inflated: Option<Inflated>,
}

/// Whether the content `raw` of a compressed array cannot be decompressed, which is
/// answered with `e`.
pub open spec fn inflate_failure(raw: Payload, e: Error) -> bool {
    ||| input_failure(raw.failures, raw.data.len() < raw.len, e)
    ||| {
        &&& raw.data.len() == raw.len
        &&& inflated(raw.data) is None
        &&& e@ == ErrorModel::data(DataFault::InvalidCompression)
    }
}

impl<'a, R: ParserSource> AttributeStreamDecoder<'a, R> {
    /// Whether the stream can be used.
    pub open spec fn wf(&self) -> bool {
        &&& self.reader.wf()
        &&& self.inflated matches Some(inflated) ==> inflated.next <= inflated.bytes@.len()
    }

    /// The elements that have not been read.
    pub open spec fn content(&self) -> Payload {
        match self.inflated {
            Some(inflated) => Payload::plain(inflated.bytes@.skip(inflated.next as int)),
            None => self.reader.payload(),
        }
    }

    /// Creates the stream of the elements that are written in `reader`.
    ///
    /// The elements of a compressed array are decompressed here, all at once.
    pub fn create(encoding: ArrayAttributeEncoding, reader: &'a mut AttributeReader<R>) -> (r:
        Result<Self, Error>)
        requires
            old(reader).wf(),
        ensures
            match encoding {
                ArrayAttributeEncoding::Direct => {
                    &&& r matches Ok(decoder)
                    &&& decoder.inflated is None
                    &&& *decoder.reader == *old(reader)
                    &&& *final(decoder.reader) == *final(reader)
                },
                ArrayAttributeEncoding::Zlib => match r {
                    Ok(decoder) => {
                        let raw = old(reader).payload();
                        &&& raw.data.len() == raw.len
                        &&& inflated(raw.data) matches Some(bytes)
                        &&& decoder.content() == Payload::plain(bytes)
                        &&& decoder.wf()
                        &&& old(reader).leads_to(*decoder.reader)
                        &&& *final(decoder.reader) == *final(reader)
                    },
                    Err(e) => {
                        &&& old(reader).leads_to(*final(reader))
                        &&& inflate_failure(old(reader).payload(), e)
                    },
                },
            },
    {
        match encoding {
            ArrayAttributeEncoding::Direct => Ok(AttributeStreamDecoder { reader, inflated: None }),
            ArrayAttributeEncoding::Zlib => {
                let content = match load_content(&mut *reader) {
                    Ok(content) => content,
                    Err(e) => {
                        return Err(e);
                    },
                };
                let bytes = inflate(&content);
                Self::from_inflated(bytes, reader)
            },
        }
    }

    /// Creates the stream of the elements of a compressed array out of what came of
    /// decompressing its content.
    pub fn from_inflated(bytes: Option<Vec<u8>>, reader: &'a mut AttributeReader<R>) -> (r: Result<
        Self,
        Error,
    >)
        requires
            old(reader).wf(),
        ensures
            match r {
                Ok(decoder) => {
                    &&& bytes matches Some(inflated)
                    &&& decoder.content() == Payload::plain(inflated@)
                    &&& decoder.wf()
                    &&& *decoder.reader == *old(reader)
                    &&& *final(decoder.reader) == *final(reader)
                },
                Err(e) => {
                    &&& bytes is None
                    &&& e@ == ErrorModel::data(DataFault::InvalidCompression)
                    &&& *final(reader) == *old(reader)
                },
            },
    {
        match bytes {
            Some(bytes) => {
                assert(bytes@.skip(0) =~= bytes@);
                Ok(AttributeStreamDecoder { reader, inflated: Some(Inflated { bytes, next: 0 }) })
            },
            None => Err(Error::data(DataError::InvalidCompression)),
        }
    }

    /// Reads exactly `len` bytes of elements.
    pub fn read_exact(&mut self, len: usize) -> (r: Result<Vec<u8>, Error>)
        requires
            old(self).wf(),
        ensures
            *final(final(self).reader) == *final(old(self).reader),
            final(self).wf(),
            old(self).reader.leads_to(*final(self).reader),
            final(self).content().failures == old(self).content().failures,
            match r {
                Ok(bytes) => {
                    &&& len <= old(self).content().data.len()
                    &&& bytes@ == old(self).content().data.take(len as int)
                    &&& final(self).content().data == old(self).content().data.skip(len as int)
                },
                Err(e) => input_failure(
                    old(self).content().failures,
                    len > old(self).content().data.len(),
                    e,
                ),
            },
    {
        match &mut self.inflated {
            Some(inflated) => {
                proof {
                    lemma_reaches_reflexive(self.reader.source().stream());
                }
                let ghost left = inflated.bytes@.skip(inflated.next as int);
                if inflated.bytes.len() - inflated.next < len {
                    let e = Error::io(IoError::UnexpectedEof);
                    assert(ErrorModel::io(IoError::UnexpectedEof) == e@);
                    return Err(e);
                }
                let mut piece: Vec<u8> = Vec::new();
                while piece.len() < len
                    invariant
                        left == inflated.bytes@.skip(inflated.next as int),
                        inflated.next + len <= inflated.bytes.len(),
                        piece@.len() <= len,
                        piece@ == left.take(piece@.len() as int),
                    decreases len - piece@.len(),
                {
                    piece.push(inflated.bytes[inflated.next + piece.len()]);
                    assert(piece@ =~= left.take(piece@.len() as int));
                }
                inflated.next = inflated.next + len;
                assert(inflated.bytes@.skip(inflated.next as int) =~= left.skip(len as int));
                Ok(piece)
            },
            None => match self.reader.read_exact(len) {
                Ok(bytes) => {
                    assert(self.reader.payload().data =~= old(self).reader.payload().data.skip(
                        len as int,
                    ));
                    Ok(bytes)
                },
                Err(io) => {
                    let e = Error::io(io);
                    assert(ErrorModel::io(io) == e@);
                    Err(e)
                },
            },
        }
    }
}

/// The elements of an array of numbers, from first to last.
pub struct ArrayAttributeValues<'a, R, T> {
    /// The stream of the elements.
    pub decoder: AttributeStreamDecoder<'a, R>,
    /// The number of elements that have not been read.
    pub rest_elements: u32,
    /// Whether an element could not be read.
    pub has_error: bool,
    /// The type of the elements.
    pub element: PhantomData<T>,
}

impl<'a, R: ParserSource, T: ArrayElement> ArrayAttributeValues<'a, R, T> {
    /// Creates the list of the given number of elements.
    pub fn new(decoder: AttributeStreamDecoder<'a, R>, count: u32) -> (values: Self)
        ensures
            values.decoder == decoder,
            values.rest_elements == count,
            !values.has_error,
    {
        ArrayAttributeValues {
            decoder,
            rest_elements: count,
            has_error: false,
            element: PhantomData,
        }
    }

    /// Returns the next element.
    ///
    /// Nothing follows an element that could not be read.
    pub fn next(&mut self) -> (r: Option<Result<T, Error>>)
        requires
            old(self).decoder.wf(),
        ensures
            *final(final(self).decoder.reader) == *final(old(self).decoder.reader),
            final(self).decoder.wf(),
            old(self).decoder.reader.leads_to(*final(self).decoder.reader),
            final(self).decoder.content().failures == old(self).decoder.content().failures,
            r is None <==> old(self).rest_elements == 0 || old(self).has_error,
            r is Some ==> final(self).rest_elements + 1 == old(self).rest_elements,
            match r {
                None => *final(self) == *old(self),
                Some(Ok(value)) => {
                    let data = old(self).decoder.content().data;
                    &&& !final(self).has_error
                    &&& T::byte_len() <= data.len()
                    &&& value == T::value_of(data.take(T::byte_len() as int))
                    &&& final(self).decoder.content().data == data.skip(T::byte_len() as int)
                },
                Some(Err(e)) => {
                    &&& final(self).has_error
                    &&& input_failure(
                        old(self).decoder.content().failures,
                        T::byte_len() > old(self).decoder.content().data.len(),
                        e,
                    )
                },
            },
    {
        proof {
            lemma_reaches_reflexive(self.decoder.reader.source().stream());
        }
        if self.rest_elements == 0 || self.has_error {
            return None;
        }
        self.rest_elements = self.rest_elements - 1;
        match self.decoder.read_exact(T::element_len()) {
            Ok(bytes) => Some(Ok(T::from_le_bytes(&bytes))),
            Err(e) => {
                self.has_error = true;
                Some(Err(e))
            },
        }
    }
}

/// The elements of an array of truth values, from first to last.
pub struct BooleanArrayAttributeValues<'a, R> {
    /// The stream of the elements.
    pub decoder: AttributeStreamDecoder<'a, R>,
    /// The number of elements that have not been read.
    pub rest_elements: u32,
    /// Whether an element could not be read.
    pub has_error: bool,
    /// Whether an element was written otherwise than by `T` or `Y`.
    pub has_incorrect_boolean_value: bool,
}

impl<'a, R: ParserSource> BooleanArrayAttributeValues<'a, R> {
    /// Creates the list of the given number of elements.
    pub fn new(decoder: AttributeStreamDecoder<'a, R>, count: u32) -> (values: Self)
        ensures
            values.decoder == decoder,
            values.rest_elements == count,
            !values.has_error,
            !values.has_incorrect_boolean_value,
    {
        BooleanArrayAttributeValues {
            decoder,
            rest_elements: count,
            has_error: false,
            has_incorrect_boolean_value: false,
        }
    }

    /// Returns whether an element was written otherwise than by `T` or `Y`.
    pub fn has_incorrect_boolean_value(&self) -> (incorrect: bool)
        ensures
            incorrect == self.has_incorrect_boolean_value,
    {
        self.has_incorrect_boolean_value
    }

    /// Returns the next element.
    ///
    /// Nothing follows an element that could not be read.
    pub fn next(&mut self) -> (r: Option<Result<bool, Error>>)
        requires
            old(self).decoder.wf(),
        ensures
            *final(final(self).decoder.reader) == *final(old(self).decoder.reader),
            final(self).decoder.wf(),
            old(self).decoder.reader.leads_to(*final(self).decoder.reader),
            final(self).decoder.content().failures == old(self).decoder.content().failures,
            r is None <==> old(self).rest_elements == 0 || old(self).has_error,
            r is Some ==> final(self).rest_elements + 1 == old(self).rest_elements,
            match r {
                None => *final(self) == *old(self),
                Some(Ok(value)) => {
                    let data = old(self).decoder.content().data;
                    &&& !final(self).has_error
                    &&& 1 <= data.len()
                    &&& value == bool_of(data[0])
                    &&& final(self).has_incorrect_boolean_value == (old(
                        self,
                    ).has_incorrect_boolean_value || data[0] != 0x54 && data[0] != 0x59)
                    &&& final(self).decoder.content().data == data.skip(1)
                },
                Some(Err(e)) => {
                    &&& final(self).has_error
                    &&& final(self).has_incorrect_boolean_value == old(
                        self,
                    ).has_incorrect_boolean_value
                    &&& input_failure(
                        old(self).decoder.content().failures,
                        old(self).decoder.content().data.len() < 1,
                        e,
                    )
                },
            },
    {
        proof {
            lemma_reaches_reflexive(self.decoder.reader.source().stream());
        }
        if self.rest_elements == 0 || self.has_error {
            return None;
        }
        self.rest_elements = self.rest_elements - 1;
        match self.decoder.read_exact(1) {
            Ok(bytes) => {
                let raw: u8 = bytes[0];
                if raw != 0x54 && raw != 0x59 {
                    self.has_incorrect_boolean_value = true;
                }
                Some(Ok(bool_from_raw(raw)))
            },
            Err(e) => {
                self.has_error = true;
                Some(Err(e))
            },
        }
    }
}

} // verus!
