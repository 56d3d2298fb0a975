//! Node attributes.
use vstd::prelude::*;

pub mod array;
pub mod contents;
pub mod direct;
pub mod handed;
pub mod inflate;
pub mod payload;
pub mod refused;
pub mod visitor;
pub mod written;

use crate::low::v7400::{
    ArrayAttributeEncoding, ArrayAttributeHeader, AttributeType, Binary32, Binary64,
    SpecialAttributeHeader,
};
use crate::pull_parser::error::{Decoded, Error, ErrorModel};
use crate::pull_parser::reader::{
    lemma_reaches_reflexive, lemma_reaches_transitive, moves_on, BufferedSource, IoError,
    ParserSource, Stream,
};
use crate::pull_parser::v7400::parser::Parser;
use crate::pull_parser::v7400::read::{input_failure, FromReader};
use crate::pull_parser::warning::{IgnoreWarnings, WarningHandler};

use self::array::{
    bool_from_raw, bool_of, inflate_failure, ArrayAttributeValues, AttributeStreamDecoder,
    BooleanArrayAttributeValues,
};
pub use self::direct::{DirectAttributeValue, DirectLoader};
pub use self::payload::AttributeReader;
use self::inflate::inflated;
use self::payload::Payload;
use self::visitor::AttributeModel;
pub use self::visitor::VisitAttribute;

verus! {

/// What is read of an attribute before a visitor gets to see it.
pub ghost enum Head {
    /// The whole attribute.
    Single(AttributeModel),
    /// The header of an array.
    Array(ArrayAttributeHeader),
    /// The length of the content.
    Special(u32),
}

impl Head {
    /// The number of bytes that follow the head.
    pub open spec fn content_len(self) -> u64 {
        match self {
            Head::Single(_) => 0,
            Head::Array(header) => header.bytelen as u64,
            Head::Special(bytelen) => bytelen as u64,
        }
    }

    /// The most bytes after the head that can be read, if the attribute has the given
    /// type.
    ///
    /// The elements of an array are read as they come, whatever length its header
    /// states, unless they are compressed.
    pub open spec fn reach(self, ty: AttributeType) -> u64 {
        match self {
            Head::Single(_) => 0,
            Head::Array(header) => match header.encoding {
                ArrayAttributeEncoding::Direct => (header.elements_count * element_len(
                    ty,
                )) as u64,
                ArrayAttributeEncoding::Zlib => header.bytelen as u64,
            },
            Head::Special(bytelen) => bytelen as u64,
        }
    }

    /// The attribute of the given type with this head and the content `raw`, unless
    /// the content is to be decompressed and cannot be.
    pub open spec fn attribute(
        self,
        ty: AttributeType,
        raw: Payload,
        buffered: bool,
    ) -> Option<AttributeModel> {
        match self {
            Head::Single(attribute) => Some(attribute),
            Head::Array(header) => {
                let count = header.elements_count;
                match header.encoding {
                    ArrayAttributeEncoding::Direct => Some(
                        AttributeModel::Array { ty, count, content: raw },
                    ),
                    ArrayAttributeEncoding::Zlib => match inflated(raw.data) {
                        Some(bytes) if raw.data.len() == raw.len => Some(
                            AttributeModel::Array { ty, count, content: Payload::plain(bytes) },
                        ),
                        _ => None,
                    },
                }
            },
            Head::Special(_) => Some(
                if ty == AttributeType::Binary {
                    AttributeModel::Binary { payload: raw, buffered }
                } else {
                    AttributeModel::Text { payload: raw, buffered }
                },
            ),
        }
    }

    /// Whether the content `raw` is to be decompressed and cannot be, which is
    /// answered with `e`.
    pub open spec fn refused(self, raw: Payload, e: Error) -> bool {
        &&& self matches Head::Array(header)
        &&& header.encoding == ArrayAttributeEncoding::Zlib
        &&& inflate_failure(raw, e)
    }
}

/// The number of bytes that an element of an array of the given type takes.
pub open spec fn element_len(ty: AttributeType) -> nat {
    match ty {
        AttributeType::ArrI32 | AttributeType::ArrF32 => 4,
        AttributeType::ArrI64 | AttributeType::ArrF64 => 8,
        _ => 1,
    }
}

/// The head of an attribute, given the number that its first bytes hold.
pub open spec fn single<T>(decoded: Decoded<T>, attribute: spec_fn(T) -> AttributeModel) -> Decoded<
    Head,
> {
    match decoded {
        Decoded::Value(value, len) => Decoded::Value(Head::Single(attribute(value)), len),
        Decoded::Truncated => Decoded::Truncated,
        Decoded::Invalid(fault) => Decoded::Invalid(fault),
    }
}

/// The head of the attribute of the given type that `rest` starts with.
pub open spec fn head_in(ty: AttributeType, rest: Seq<u8>) -> Decoded<Head> {
    match ty {
        AttributeType::Bool => single(
            u8::decode(rest),
            |raw: u8| AttributeModel::Bool(bool_of(raw)),
        ),
        AttributeType::I16 => single(i16::decode(rest), |value: i16| AttributeModel::I16(value)),
        AttributeType::I32 => single(i32::decode(rest), |value: i32| AttributeModel::I32(value)),
        AttributeType::I64 => single(i64::decode(rest), |value: i64| AttributeModel::I64(value)),
        AttributeType::F32 => single(
            Binary32::decode(rest),
            |value: Binary32| AttributeModel::F32(value),
        ),
        AttributeType::F64 => single(
            Binary64::decode(rest),
            |value: Binary64| AttributeModel::F64(value),
        ),
        AttributeType::Binary | AttributeType::String => match SpecialAttributeHeader::decode(
            rest,
        ) {
            Decoded::Value(header, len) => Decoded::Value(Head::Special(header.bytelen), len),
            Decoded::Truncated => Decoded::Truncated,
            Decoded::Invalid(fault) => Decoded::Invalid(fault),
        },
        _ => match ArrayAttributeHeader::decode(rest) {
            Decoded::Value(header, len) => Decoded::Value(Head::Array(header), len),
            Decoded::Truncated => Decoded::Truncated,
            Decoded::Invalid(fault) => Decoded::Invalid(fault),
        },
    }
}

/// An offset, or nothing for the offset 0.
pub open spec fn nonzero(offset: int) -> Option<u64> {
    if offset == 0 {
        None
    } else {
        Some(offset as u64)
    }
}

/// The attribute type that comes next in `s`, once the attribute that ends at
/// `prev_end` is out of the way.
pub open spec fn type_in(prev_end: Option<u64>, s: Stream) -> Decoded<AttributeType> {
    match prev_end {
        Some(end) if s.pos < end => if s.covers(end as nat) {
            match AttributeType::decode(s.at(end as nat).rest) {
                Decoded::Value(ty, len) => Decoded::Value(ty, (end - s.pos) as nat + len),
                other => other,
            }
        } else {
            Decoded::Truncated
        },
        _ => AttributeType::decode(s.rest),
    }
}

/// Whether `r` may come of showing a visitor the attribute of the given type whose
/// head comes next in `s`, where `after` is left of the stream afterwards.
///
/// `prev_end` is the end of an attribute that was known before and `end` the one
/// that is known afterwards. The visitor gets to see nothing if the head cannot be
/// read, or if the content cannot be decompressed.
pub open spec fn shows<V: VisitAttribute>(
    s: Stream,
    failures: Set<IoError>,
    after: Stream,
    prev_end: Option<u64>,
    end: Option<u64>,
    ty: AttributeType,
    buffered: bool,
    visitor: V,
    r: Result<V::Output, Error>,
) -> bool {
    let want = head_in(ty, s.rest);
    ||| {
        &&& want matches Decoded::Value(head, len)
        &&& len <= s.rest.len()
        &&& ({
            let content = s.advance(len);
            let raw = Payload::at(content.rest, head.reach(ty), failures);
            &&& end == nonzero(content.pos + head.content_len())
            &&& content.reaches(after)
            &&& after.pos <= content.pos + head.reach(ty)
            &&& {
                ||| head.attribute(ty, raw, buffered) matches Some(attribute) && visitor.visits(
                    attribute,
                    r,
                )
                ||| r matches Err(e) && head.refused(raw, e)
            }
        })
    }
    ||| {
        &&& r matches Err(e)
        &&& {
            ||| want matches Decoded::Invalid(fault) && e@ == ErrorModel::data(fault)
            ||| input_failure(failures, want is Truncated && after == s.exhausted(), e)
        }
        &&& end == prev_end
    }
}

/// What is read of an attribute before its content.
pub trait AttributeHead: FromReader {
    /// The number of bytes that follow the head.
    spec fn content_len(model: Self::V) -> u32;

    /// Returns the number of bytes that follow the head.
    fn following_len(&self) -> (len: u32)
        ensures
            len == Self::content_len(self@),
    ;
}

impl AttributeHead for u8 {
    open spec fn content_len(model: u8) -> u32 {
        0
    }

    fn following_len(&self) -> (len: u32) {
        0
    }
}

impl AttributeHead for i16 {
    open spec fn content_len(model: i16) -> u32 {
        0
    }

    fn following_len(&self) -> (len: u32) {
        0
    }
}

impl AttributeHead for i32 {
    open spec fn content_len(model: i32) -> u32 {
        0
    }

    fn following_len(&self) -> (len: u32) {
        0
    }
}

impl AttributeHead for i64 {
    open spec fn content_len(model: i64) -> u32 {
        0
    }

    fn following_len(&self) -> (len: u32) {
        0
    }
}

impl AttributeHead for Binary32 {
    open spec fn content_len(model: Binary32) -> u32 {
        0
    }

    fn following_len(&self) -> (len: u32) {
        0
    }
}

impl AttributeHead for Binary64 {
    open spec fn content_len(model: Binary64) -> u32 {
        0
    }

    fn following_len(&self) -> (len: u32) {
        0
    }
}

impl AttributeHead for ArrayAttributeHeader {
    open spec fn content_len(model: ArrayAttributeHeader) -> u32 {
        model.bytelen
    }

    fn following_len(&self) -> (len: u32) {
        self.bytelen()
    }
}

impl AttributeHead for SpecialAttributeHeader {
    open spec fn content_len(model: SpecialAttributeHeader) -> u32 {
        model.bytelen
    }

    fn following_len(&self) -> (len: u32) {
        self.bytelen()
    }
}

/// Returns the most bytes that can be read of the content of an array whose elements
/// take `element_len` bytes each.
fn content_limit(header: &ArrayAttributeHeader, element_len: u64) -> (limit: u64)
    requires
        element_len <= 8,
    ensures
        limit == match header.encoding {
            ArrayAttributeEncoding::Direct => header.elements_count * element_len,
            ArrayAttributeEncoding::Zlib => header.bytelen as int,
        },
{
    match header.encoding() {
        ArrayAttributeEncoding::Direct => {
            let count: u64 = header.elements_count() as u64;
            assert(count * element_len <= 0xffff_ffff * 8) by (nonlinear_arith)
                requires
                    count <= 0xffff_ffff,
                    element_len <= 8,
            ;
            count * element_len
        },
        ArrayAttributeEncoding::Zlib => header.bytelen() as u64,
    }
}

/// How far the attributes of a node have been visited.
#[derive(Debug)]
pub struct Progress {
    /// Number of attributes of the node.
    total_count: u64,
    /// Number of attributes that have not been visited.
    rest_count: u64,
    /// Offset of the byte after the last attribute visited, if known.
    prev_attr_end_offset: Option<u64>,
}

impl Progress {
    /// The number of attributes of the node.
    pub closed spec fn total(self) -> u64 {
        self.total_count
    }

    /// The number of attributes that have not been visited.
    pub closed spec fn left(self) -> u64 {
        self.rest_count
    }

    /// The offset of the byte after the last attribute visited, if known.
    pub closed spec fn prev_end(self) -> Option<u64> {
        self.prev_attr_end_offset
    }
}

/// Reader of the attributes of a node.
#[derive(Debug)]
pub struct Attributes<'a, R, W = IgnoreWarnings> {
    /// How far the attributes have been visited.
    pub progress: Progress,
    /// The parser, which has come to the attributes.
    pub parser: &'a mut Parser<R, W>,
}

impl<'a, R: ParserSource, W: WarningHandler> Attributes<'a, R, W> {
    /// The number of attributes of the node.
    pub open spec fn total(self) -> u64 {
        self.progress.total()
    }

    /// The number of attributes that have not been visited.
    pub open spec fn left(self) -> u64 {
        self.progress.left()
    }

    /// The offset of the byte after the last attribute visited, if known.
    pub open spec fn prev_end(self) -> Option<u64> {
        self.progress.prev_end()
    }

    /// Creates a reader of the attributes of the innermost open node.
    pub(crate) fn from_parser(parser: &'a mut Parser<R, W>) -> (attributes: Self)
        requires
            old(parser).wf(),
            old(parser).state().depth() > 0,
        ensures
            attributes.total() == old(parser).state().current().attributes,
            attributes.left() == attributes.total(),
            attributes.prev_end() is None,
            *attributes.parser == *old(parser),
            *final(attributes.parser) == *final(parser),
    {
        let total_count: u64 = parser.current_attributes_count();
        let progress = Progress {
            total_count,
            rest_count: total_count,
            prev_attr_end_offset: None,
        };
        Attributes { progress, parser }
    }

    /// Returns the number of attributes of the node.
    pub fn total_count(&self) -> (count: u64)
        ensures
            count == self.total(),
    {
        self.progress.total_count
    }

    /// Returns the number of attributes that have not been visited.
    pub fn rest_count(&self) -> (count: u64)
        ensures
            count == self.left(),
    {
        self.progress.rest_count
    }

    /// Takes note that the attribute ends `size` bytes after the next byte.
    fn update_attr_end_offset(&mut self, size: u64)
        requires
            old(self).parser.wf(),
            old(self).parser.stream().pos + size <= u64::MAX,
        ensures
            final(self).total() == old(self).total(),
            final(self).left() == old(self).left(),
            *final(self).parser == *old(self).parser,
            *final(final(self).parser) == *final(old(self).parser),
            final(self).prev_end() == nonzero(old(self).parser.stream().pos + size),
    {
        let end: u64 = self.parser.offset() + size;
        self.progress.prev_attr_end_offset = if end == 0 {
            None
        } else {
            Some(end)
        };
    }

    /// Reads the type of the next attribute.
    fn read_next_attr_type(&mut self) -> (r: Result<Option<AttributeType>, Error>)
        requires
            old(self).parser.wf(),
        ensures
            old(self).keeps(*final(self)),
            *final(final(self).parser) == *final(old(self).parser),
            final(self).prev_end() == old(self).prev_end(),
            if old(self).left() == 0 {
                &&& r == Ok::<Option<AttributeType>, Error>(None)
                &&& final(self).left() == 0
                &&& *final(self).parser == *old(self).parser
            } else {
                let want = type_in(old(self).prev_end(), old(self).parser.stream());
                &&& final(self).left() == old(self).left() - 1
                &&& match r {
                    Ok(Some(ty)) => {
                        &&& want matches Decoded::Value(next, len)
                        &&& ty == next
                        &&& len <= old(self).parser.stream().rest.len()
                        &&& final(self).parser.stream() == old(self).parser.stream().advance(len)
                    },
                    Ok(None) => false,
                    Err(e) => {
                        ||| want matches Decoded::Invalid(fault) && e@ == ErrorModel::data(fault)
                        ||| input_failure(
                            old(self).parser.source().failures(),
                            want is Truncated && final(self).parser.stream() == old(
                                self,
                            ).parser.stream().exhausted(),
                            e,
                        )
                    },
                }
            },
    {
        let ghost s0 = self.parser.stream();
        proof {
            lemma_reaches_reflexive(s0);
        }
        if self.rest_count() == 0 {
            return Ok(None);
        }
        self.progress.rest_count = self.progress.rest_count - 1;
        // Some of the attribute before may be unread.
        if let Some(prev_attr_end_offset) = self.progress.prev_attr_end_offset {
            if self.parser.offset() < prev_attr_end_offset {
                match self.parser.reader().skip_to(prev_attr_end_offset) {
                    Ok(()) => {},
                    Err(io) => {
                        let e = Error::io(io);
                        assert(ErrorModel::io(io) == e@);
                        return Err(e);
                    },
                }
            }
        }
        let ghost s1 = self.parser.stream();
        let r = self.parser.parse::<AttributeType>();
        proof {
            lemma_reaches_transitive(s0, s1, self.parser.stream());
        }
        match r {
            Ok(ty) => {
                assert(self.parser.stream().rest =~= s0.rest.skip(
                    self.parser.stream().pos - s0.pos,
                ));
                Ok(Some(ty))
            },
            Err(e) => Err(e),
        }
    }

    /// What stays as it is while attributes are read: the number of them all, and
    /// what the parser knows of the document.
    pub open spec fn keeps(self, after: Self) -> bool {
        &&& self.moves_to(after)
        &&& after.parser.state() == self.parser.state()
    }

    /// What stays as it is whatever comes of reading attributes: the number of them
    /// all, and what is told of warnings.
    pub open spec fn moves_to(self, after: Self) -> bool {
        &&& after.total() == self.total()
        &&& after.parser.wf()
        &&& after.parser.handler() == self.parser.handler()
        &&& moves_on(self.parser.source(), after.parser.source())
    }

    /// Reads the head of an attribute, and takes note of where the attribute ends.
    fn read_head<T: AttributeHead>(&mut self) -> (r: Result<T, Error>)
        requires
            old(self).parser.wf(),
        ensures
            old(self).keeps(*final(self)),
            *final(final(self).parser) == *final(old(self).parser),
            final(self).left() == old(self).left(),
            match r {
                Ok(head) => {
                    &&& T::decode(old(self).parser.stream().rest) matches Decoded::Value(model, len)
                    &&& head@ == model
                    &&& len <= old(self).parser.stream().rest.len()
                    &&& final(self).parser.stream() == old(self).parser.stream().advance(len)
                    &&& final(self).prev_end() == nonzero(
                        old(self).parser.stream().pos + len + T::content_len(model),
                    )
                },
                Err(e) => {
                    let want = T::decode(old(self).parser.stream().rest);
                    &&& final(self).prev_end() == old(self).prev_end()
                    &&& {
                        ||| want matches Decoded::Invalid(fault) && e@ == ErrorModel::data(fault)
                        ||| input_failure(
                            old(self).parser.source().failures(),
                            want is Truncated && final(self).parser.stream() == old(
                                self,
                            ).parser.stream().exhausted(),
                            e,
                        )
                    }
                },
            },
    {
        proof {
            self.parser.source().lemma_bounded();
        }
        match self.parser.parse::<T>() {
            Ok(head) => {
                self.update_attr_end_offset(head.following_len() as u64);
                Ok(head)
            },
            Err(e) => Err(e),
        }
    }

    /// Shows the visitor the next attribute, which has the given type.
    #[verifier::rlimit(40)]
    fn visit_next_impl<V: VisitAttribute>(&mut self, attr_type: AttributeType, visitor: V) -> (r:
        Result<V::Output, Error>)
        requires
            old(self).parser.wf(),
        ensures
            old(self).keeps(*final(self)),
            *final(final(self).parser) == *final(old(self).parser),
            final(self).left() == old(self).left(),
            shows(
                old(self).parser.stream(),
                old(self).parser.source().failures(),
                final(self).parser.stream(),
                old(self).prev_end(),
                final(self).prev_end(),
                attr_type,
                false,
                visitor,
                r,
            ),
    {
        proof {
            broadcast use lemma_reaches_transitive;

        }
        match attr_type {
            AttributeType::Bool => match self.read_head::<u8>() {
                Ok(raw) => {
                    proof {
                        lemma_reaches_reflexive(self.parser.stream());
                    }
                    visitor.visit_bool(bool_from_raw(raw))
                },
                Err(e) => Err(e),
            },
            AttributeType::I16 => match self.read_head::<i16>() {
                Ok(value) => {
                    proof {
                        lemma_reaches_reflexive(self.parser.stream());
                    }
                    visitor.visit_i16(value)
                },
                Err(e) => Err(e),
            },
            AttributeType::I32 => match self.read_head::<i32>() {
                Ok(value) => {
                    proof {
                        lemma_reaches_reflexive(self.parser.stream());
                    }
                    visitor.visit_i32(value)
                },
                Err(e) => Err(e),
            },
            AttributeType::I64 => match self.read_head::<i64>() {
                Ok(value) => {
                    proof {
                        lemma_reaches_reflexive(self.parser.stream());
                    }
                    visitor.visit_i64(value)
                },
                Err(e) => Err(e),
            },
            AttributeType::F32 => match self.read_head::<Binary32>() {
                Ok(value) => {
                    proof {
                        lemma_reaches_reflexive(self.parser.stream());
                    }
                    visitor.visit_f32(value)
                },
                Err(e) => Err(e),
            },
            AttributeType::F64 => match self.read_head::<Binary64>() {
                Ok(value) => {
                    proof {
                        lemma_reaches_reflexive(self.parser.stream());
                    }
                    visitor.visit_f64(value)
                },
                Err(e) => Err(e),
            },
            AttributeType::ArrBool => match self.read_head::<ArrayAttributeHeader>() {
                Ok(header) => {
                    let count: u32 = header.elements_count();
                    let reader = self.parser.payload_reader(content_limit(&header, 1));
                    match AttributeStreamDecoder::create(header.encoding(), reader) {
                        Ok(decoder) => {
                            let mut values = BooleanArrayAttributeValues::new(decoder, count);
                            visitor.visit_seq_bool(&mut values, count as usize)
                        },
                        Err(e) => Err(e),
                    }
                },
                Err(e) => Err(e),
            },
            AttributeType::ArrI32 => match self.read_head::<ArrayAttributeHeader>() {
                Ok(header) => {
                    let count: u32 = header.elements_count();
                    let reader = self.parser.payload_reader(content_limit(&header, 4));
                    match AttributeStreamDecoder::create(header.encoding(), reader) {
                        Ok(decoder) => {
                            let values = ArrayAttributeValues::<R, i32>::new(decoder, count);
                            visitor.visit_seq_i32(values, count as usize)
                        },
                        Err(e) => Err(e),
                    }
                },
                Err(e) => Err(e),
            },
            AttributeType::ArrI64 => match self.read_head::<ArrayAttributeHeader>() {
                Ok(header) => {
                    let count: u32 = header.elements_count();
                    let reader = self.parser.payload_reader(content_limit(&header, 8));
                    match AttributeStreamDecoder::create(header.encoding(), reader) {
                        Ok(decoder) => {
                            let values = ArrayAttributeValues::<R, i64>::new(decoder, count);
                            visitor.visit_seq_i64(values, count as usize)
                        },
                        Err(e) => Err(e),
                    }
                },
                Err(e) => Err(e),
            },
            AttributeType::ArrF32 => match self.read_head::<ArrayAttributeHeader>() {
                Ok(header) => {
                    let count: u32 = header.elements_count();
                    let reader = self.parser.payload_reader(content_limit(&header, 4));
                    match AttributeStreamDecoder::create(header.encoding(), reader) {
                        Ok(decoder) => {
                            let values = ArrayAttributeValues::<R, Binary32>::new(decoder, count);
                            visitor.visit_seq_f32(values, count as usize)
                        },
                        Err(e) => Err(e),
                    }
                },
                Err(e) => Err(e),
            },
            AttributeType::ArrF64 => match self.read_head::<ArrayAttributeHeader>() {
                Ok(header) => {
                    let count: u32 = header.elements_count();
                    let reader = self.parser.payload_reader(content_limit(&header, 8));
                    match AttributeStreamDecoder::create(header.encoding(), reader) {
                        Ok(decoder) => {
                            let values = ArrayAttributeValues::<R, Binary64>::new(decoder, count);
                            visitor.visit_seq_f64(values, count as usize)
                        },
                        Err(e) => Err(e),
                    }
                },
                Err(e) => Err(e),
            },
            AttributeType::Binary => match self.read_head::<SpecialAttributeHeader>() {
                Ok(header) => {
                    let bytelen: u64 = header.bytelen() as u64;
                    visitor.visit_binary(self.parser.payload_reader(bytelen), bytelen)
                },
                Err(e) => Err(e),
            },
            AttributeType::String => match self.read_head::<SpecialAttributeHeader>() {
                Ok(header) => {
                    let bytelen: u64 = header.bytelen() as u64;
                    visitor.visit_string(self.parser.payload_reader(bytelen), bytelen)
                },
                Err(e) => Err(e),
            },
        }
    }

    /// Shows the visitor the next attribute, which has the given type and comes
    /// from a source that can show bytes before they are taken.
    fn visit_next_buffered_impl<V: VisitAttribute>(
        &mut self,
        attr_type: AttributeType,
        visitor: V,
    ) -> (r: Result<V::Output, Error>) where R: BufferedSource
        requires
            old(self).parser.wf(),
        ensures
            old(self).keeps(*final(self)),
            *final(final(self).parser) == *final(old(self).parser),
            final(self).left() == old(self).left(),
            shows(
                old(self).parser.stream(),
                old(self).parser.source().failures(),
                final(self).parser.stream(),
                old(self).prev_end(),
                final(self).prev_end(),
                attr_type,
                true,
                visitor,
                r,
            ),
    {
        proof {
            broadcast use lemma_reaches_transitive;

        }
        match attr_type {
            AttributeType::Binary => match self.read_head::<SpecialAttributeHeader>() {
                Ok(header) => {
                    let bytelen: u64 = header.bytelen() as u64;
                    visitor.visit_binary_buffered(self.parser.payload_reader(bytelen), bytelen)
                },
                Err(e) => Err(e),
            },
            AttributeType::String => match self.read_head::<SpecialAttributeHeader>() {
                Ok(header) => {
                    let bytelen: u64 = header.bytelen() as u64;
                    visitor.visit_string_buffered(self.parser.payload_reader(bytelen), bytelen)
                },
                Err(e) => Err(e),
            },
            _ => self.visit_next_impl(attr_type, visitor),
        }
    }

    /// Whether the attributes may become `after` and `r` come of showing a visitor
    /// the next of them.
    ///
    /// The attribute counts as visited even if it could not be read. If the visit
    /// fails, the parser has failed at the place that it has come to.
    pub open spec fn attends<V: VisitAttribute>(
        self,
        after: Self,
        buffered: bool,
        visitor: V,
        r: Result<Option<V::Output>, Error>,
    ) -> bool {
        let want = type_in(self.prev_end(), self.parser.stream());
        let failures = self.parser.source().failures();
        &&& self.moves_to(after)
        &&& after.parser.state() == match r {
            Ok(_) => self.parser.state(),
            Err(_) => self.parser.state().failed_at(after.parser.place()),
        }
        &&& if self.left() == 0 {
            &&& r matches Ok(None)
            &&& after.left() == 0
            &&& after.prev_end() == self.prev_end()
            &&& *after.parser == *self.parser
        } else {
            &&& after.left() == self.left() - 1
            &&& {
                ||| {
                    &&& want matches Decoded::Value(ty, len)
                    &&& len <= self.parser.stream().rest.len()
                    &&& r matches Ok(None) ==> false
                    &&& shows(
                        self.parser.stream().advance(len),
                        failures,
                        after.parser.stream(),
                        self.prev_end(),
                        after.prev_end(),
                        ty,
                        buffered,
                        visitor,
                        match r {
                            Ok(out) => Ok(out.unwrap()),
                            Err(e) => Err(e),
                        },
                    )
                }
                ||| {
                    &&& r matches Err(e)
                    &&& {
                        ||| want matches Decoded::Invalid(fault) && e@ == ErrorModel::data(fault)
                        ||| input_failure(
                            failures,
                            want is Truncated && after.parser.stream()
                                == self.parser.stream().exhausted(),
                            e,
                        )
                    }
                    &&& after.prev_end() == self.prev_end()
                }
            }
        }
    }

    /// Lets the visitor visit the next attribute.
    ///
    /// Returns `None` if there is none. After an error the parser hands out no more
    /// events.
    pub fn visit_next<V: VisitAttribute>(&mut self, visitor: V) -> (r: Result<
        Option<V::Output>,
        Error,
    >)
        requires
            old(self).parser.wf(),
        ensures
            old(self).attends(*final(self), false, visitor, r),
            *final(final(self).parser) == *final(old(self).parser),
    {
        proof {
            broadcast use lemma_reaches_transitive;

        }
        let attr_type = match self.read_next_attr_type() {
            Ok(Some(ty)) => ty,
            Ok(None) => {
                return Ok(None);
            },
            Err(e) => {
                self.parser.set_failed();
                return Err(e);
            },
        };
        match self.visit_next_impl(attr_type, visitor) {
            Ok(out) => Ok(Some(out)),
            Err(e) => {
                self.parser.set_failed();
                Err(e)
            },
        }
    }

    /// Lets the visitor visit the next attribute.
    ///
    /// Returns `None` if there is none. After an error the parser hands out no more
    /// events.
    ///
    /// For bytes and text the visitor is called by the methods that are made for a
    /// source that can show bytes before they are taken.
    pub fn visit_next_buffered<V: VisitAttribute>(&mut self, visitor: V) -> (r: Result<
        Option<V::Output>,
        Error,
    >) where R: BufferedSource
        requires
            old(self).parser.wf(),
        ensures
            old(self).attends(*final(self), true, visitor, r),
            *final(final(self).parser) == *final(old(self).parser),
    {
        proof {
            broadcast use lemma_reaches_transitive;

        }
        let attr_type = match self.read_next_attr_type() {
            Ok(Some(ty)) => ty,
            Ok(None) => {
                return Ok(None);
            },
            Err(e) => {
                self.parser.set_failed();
                return Err(e);
            },
        };
        match self.visit_next_buffered_impl(attr_type, visitor) {
            Ok(out) => Ok(Some(out)),
            Err(e) => {
                self.parser.set_failed();
                Err(e)
            },
        }
    }
}

} // verus!
