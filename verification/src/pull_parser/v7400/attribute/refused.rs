//! What comes of attributes that cannot be read.
use vstd::prelude::*;
use vstd::utf8::valid_utf8;

use crate::low::encoding::{
    array_header_bytes, le_bytes, lemma_array_header_is_read_back,
    lemma_array_header_is_written_back, lemma_attribute_type_is_read_back,
    lemma_content_length_is_read_back, lemma_content_length_is_written_back,
    lemma_number_is_read_back, lemma_other_letters_are_refused, letter_of, starts_with,
};
use crate::low::v7400::{AttributeType, Binary32, Binary64};
use crate::pull_parser::error::{DataError, Decoded, Error, ErrorKind};
use crate::pull_parser::reader::{IoError, ParserSource, Stream};
use crate::pull_parser::v7400::attribute::direct::{
    lemma_elements_need_their_bytes, DirectAttributeValue, DirectLoader,
};
use crate::pull_parser::v7400::attribute::inflate::inflated;
use crate::pull_parser::v7400::attribute::payload::Payload;
use crate::pull_parser::v7400::attribute::visitor::{AttributeModel, VisitAttribute};
use crate::pull_parser::v7400::attribute::written::{
    element_count, next_start, type_of, writes,
};
use crate::pull_parser::v7400::attribute::{type_in, Attributes};
use crate::pull_parser::v7400::numbers::{
    lemma_cut_is_no_number, lemma_elements_are_read_back, lemma_elements_are_written_back,
    lemma_truth_is_the_lowest_bit,
};
use crate::pull_parser::warning::WarningHandler;

verus! {

/// Where no attribute is left, a visit gives `None` and changes nothing.
pub proof fn lemma_no_attribute_is_left<R: ParserSource, W: WarningHandler, V: VisitAttribute>(
    before: Attributes<'_, R, W>,
    after: Attributes<'_, R, W>,
    s: Stream,
    left: Stream,
    buffered: bool,
    visitor: V,
    r: Result<Option<V::Output>, Error>,
)
    requires
        s == before.parser.stream(),
        left == after.parser.stream(),
        before.left() == 0,
        before.attends(after, buffered, visitor, r),
    ensures
        r matches Ok(None),
        after.left() == 0,
        after.prev_end() == before.prev_end(),
        left == s,
{
}

/// A letter that stands for no type is refused, whoever visits.
pub proof fn lemma_unknown_letter_is_refused<R: ParserSource, W: WarningHandler, V: VisitAttribute>(
    letter: u8,
    s: Stream,
    before: Attributes<'_, R, W>,
    after: Attributes<'_, R, W>,
    failures: Set<IoError>,
    buffered: bool,
    visitor: V,
    r: Result<Option<V::Output>, Error>,
)
    requires
        forall|ty: AttributeType| letter != #[trigger] letter_of(ty) as u8,
        s == before.parser.stream(),
        failures == before.parser.source().failures(),
        failures == Set::<IoError>::empty(),
        s.covers(next_start(before.prev_end(), s.pos)),
        starts_with(s.at(next_start(before.prev_end(), s.pos)).rest, seq![letter]),
        before.left() > 0,
        before.attends(after, buffered, visitor, r),
    ensures
        r matches Err(e) && e.position is None && e.kind == ErrorKind::Data(
            DataError::InvalidAttributeTypeCode(letter),
        ),
        after.left() == before.left() - 1,
        after.prev_end() == before.prev_end(),
{
    let there = s.at(next_start(before.prev_end(), s.pos));
    assert(there.pos == s.pos ==> there.rest =~= s.rest);
    assert(there.rest[0] == there.rest.take(1)[0]);
    lemma_other_letters_are_refused(there.rest);
}

/// Where the input ends before the next attribute, that is what is told, whoever visits.
pub proof fn lemma_missing_attribute_is_refused<
    R: ParserSource,
    W: WarningHandler,
    V: VisitAttribute,
>(
    s: Stream,
    before: Attributes<'_, R, W>,
    after: Attributes<'_, R, W>,
    left: Stream,
    failures: Set<IoError>,
    buffered: bool,
    visitor: V,
    r: Result<Option<V::Output>, Error>,
)
    requires
        s == before.parser.stream(),
        left == after.parser.stream(),
        failures == before.parser.source().failures(),
        failures == Set::<IoError>::empty(),
        s.pos + s.rest.len() <= next_start(before.prev_end(), s.pos),
        before.left() > 0,
        before.attends(after, buffered, visitor, r),
    ensures
        r matches Err(e) && e.position is None && e.kind == ErrorKind::Io(IoError::UnexpectedEof),
        after.left() == before.left() - 1,
        after.prev_end() == before.prev_end(),
        left.rest.len() == 0,
        left.pos == s.pos + s.rest.len(),
{
    lemma_other_letters_are_refused(s.rest);
    let there = s.at(next_start(before.prev_end(), s.pos));
    if s.covers(there.pos) {
        lemma_other_letters_are_refused(there.rest);
    }
}

/// The types of arrays.
pub open spec fn is_array_type(ty: AttributeType) -> bool {
    ||| ty == AttributeType::ArrBool
    ||| ty == AttributeType::ArrI32
    ||| ty == AttributeType::ArrI64
    ||| ty == AttributeType::ArrF32
    ||| ty == AttributeType::ArrF64
}

/// The length of an element of an array of the given type, in bytes.
pub open spec fn len_of_element(ty: AttributeType) -> nat {
    if ty == AttributeType::ArrI64 || ty == AttributeType::ArrF64 {
        8
    } else if ty == AttributeType::ArrI32 || ty == AttributeType::ArrF32 {
        4
    } else {
        1
    }
}

/// The array that is written next, with the given numbers in its header, is found
/// there.
proof fn lemma_array_is_found(
    ty: AttributeType,
    count: u32,
    encoding: u32,
    bytelen: u32,
    s: Stream,
    prev_end: Option<u64>,
)
    requires
        is_array_type(ty),
        s.covers(next_start(prev_end, s.pos)),
        starts_with(
            s.at(next_start(prev_end, s.pos)).rest,
            seq![letter_of(ty) as u8] + array_header_bytes(count, encoding, bytelen),
        ),
    ensures
        ({
            &&& type_in(prev_end, s) matches Decoded::Value(found, type_len)
            &&& found == ty
            &&& type_len == next_start(prev_end, s.pos) - s.pos + 1
            &&& type_len + 12 <= s.rest.len()
            &&& starts_with(
                s.advance(type_len).rest,
                array_header_bytes(count, encoding, bytelen),
            )
            &&& s.advance(type_len).advance(12) == s.advance(type_len + 12)
        }),
{
    lemma_number_is_read_back(count as nat, 4);
    lemma_number_is_read_back(encoding as nat, 4);
    lemma_number_is_read_back(bytelen as nat, 4);
    let start = next_start(prev_end, s.pos);
    let there = s.at(start);
    let header = array_header_bytes(count, encoding, bytelen);
    let all = there.rest.take(13);
    assert(there.rest[0] == all[0]);
    lemma_attribute_type_is_read_back(ty, there.rest);
    assert(s.pos == start ==> there.rest =~= s.rest);
    let type_len: nat = (start - s.pos) as nat + 1;
    assert(s.advance(type_len).rest.take(12) =~= all.skip(1));
    assert(all.skip(1) =~= header);
    assert(s.advance(type_len).advance(12).rest =~= s.advance(type_len + 12).rest);
}

/// The elements of an array that is not compressed are read as they come, as many as the
/// header states, and the attribute ends where the header says.
pub proof fn lemma_plain_array_is_shown<R: ParserSource, W: WarningHandler, V: VisitAttribute>(
    ty: AttributeType,
    count: u32,
    bytelen: u32,
    s: Stream,
    before: Attributes<'_, R, W>,
    after: Attributes<'_, R, W>,
    failures: Set<IoError>,
    buffered: bool,
    visitor: V,
    r: Result<Option<V::Output>, Error>,
)
    requires
        is_array_type(ty),
        s == before.parser.stream(),
        failures == before.parser.source().failures(),
        failures == Set::<IoError>::empty() || r is Ok,
        s.bounded(),
        s.covers(next_start(before.prev_end(), s.pos)),
        starts_with(
            s.at(next_start(before.prev_end(), s.pos)).rest,
            seq![letter_of(ty) as u8] + array_header_bytes(count, 0, bytelen),
        ),
        before.left() > 0,
        before.attends(after, buffered, visitor, r),
    ensures
        ({
            let start = next_start(before.prev_end(), s.pos);
            let rest = s.rest.skip(start - s.pos + 13);
            let len: nat = count as nat * len_of_element(ty);
            let content = Payload {
                len: len as u64,
                data: if len <= rest.len() {
                    rest.take(len as int)
                } else {
                    rest
                },
                failures,
            };
            &&& r matches Ok(None) ==> false
            &&& visitor.visits(
                AttributeModel::Array { ty, count, content },
                match r {
                    Ok(out) => Ok(out.unwrap()),
                    Err(e) => Err(e),
                },
            )
            &&& after.prev_end() == Some((start + 13 + bytelen) as u64)
        }),
{
    lemma_array_is_found(ty, count, 0, bytelen, s, before.prev_end());
    let type_len = type_in(before.prev_end(), s)->Value_1;
    lemma_array_header_is_read_back(count, 0, bytelen, s.advance(type_len).rest);
    assert(count * len_of_element(ty) <= 0xffff_ffff * 8) by (nonlinear_arith)
        requires
            count <= 0xffff_ffff,
            len_of_element(ty) <= 8,
    ;
}

/// A compressed array whose content is all there, but cannot be decompressed, is
/// refused, whoever visits. So is an array that is written in an unknown way.
pub proof fn lemma_bad_array_is_refused<R: ParserSource, W: WarningHandler, V: VisitAttribute>(
    ty: AttributeType,
    count: u32,
    encoding: u32,
    content: Seq<u8>,
    s: Stream,
    before: Attributes<'_, R, W>,
    after: Attributes<'_, R, W>,
    failures: Set<IoError>,
    buffered: bool,
    visitor: V,
    r: Result<Option<V::Output>, Error>,
)
    requires
        is_array_type(ty),
        content.len() <= 0xffff_ffff,
        encoding > 0,
        encoding == 1 ==> inflated(content) is None,
        s == before.parser.stream(),
        failures == before.parser.source().failures(),
        failures == Set::<IoError>::empty(),
        s.covers(next_start(before.prev_end(), s.pos)),
        starts_with(
            s.at(next_start(before.prev_end(), s.pos)).rest,
            seq![letter_of(ty) as u8] + array_header_bytes(count, encoding, content.len() as u32)
                + content,
        ),
        before.left() > 0,
        before.attends(after, buffered, visitor, r),
    ensures
        r matches Err(e) && e.position is None && e.kind == ErrorKind::Data(
            if encoding == 1 {
                DataError::InvalidCompression
            } else {
                DataError::InvalidArrayAttributeEncoding(encoding)
            },
        ),
{
    let bytelen = content.len() as u32;
    lemma_number_is_read_back(count as nat, 4);
    lemma_number_is_read_back(encoding as nat, 4);
    lemma_number_is_read_back(bytelen as nat, 4);
    let start = next_start(before.prev_end(), s.pos);
    let there = s.at(start);
    let head = seq![letter_of(ty) as u8] + array_header_bytes(count, encoding, bytelen);
    let all = head + content;
    let found = there.rest.take(all.len() as int);
    assert(there.rest.take(13) =~= found.take(13));
    assert(found.take(13) =~= head);
    lemma_array_is_found(ty, count, encoding, bytelen, s, before.prev_end());
    let type_len = type_in(before.prev_end(), s)->Value_1;
    let headed = s.advance(type_len);
    lemma_array_header_is_read_back(count, encoding, bytelen, headed.rest);
    let rest = headed.advance(12).rest;
    assert(rest.take(content.len() as int) =~= found.skip(13));
    assert(found.skip(13) =~= content);
    assert(Payload::at(rest, bytelen as u64, failures).data == content);
}

/// Where the input ends within the lengths that come before the content of an array,
/// bytes or text, that is what is told, whoever visits.
pub proof fn lemma_cut_lengths_are_refused<R: ParserSource, W: WarningHandler, V: VisitAttribute>(
    ty: AttributeType,
    s: Stream,
    before: Attributes<'_, R, W>,
    after: Attributes<'_, R, W>,
    left: Stream,
    failures: Set<IoError>,
    buffered: bool,
    visitor: V,
    r: Result<Option<V::Output>, Error>,
)
    requires
        is_array_type(ty) || ty == AttributeType::Binary || ty == AttributeType::String,
        s == before.parser.stream(),
        left == after.parser.stream(),
        failures == before.parser.source().failures(),
        failures == Set::<IoError>::empty(),
        s.covers(next_start(before.prev_end(), s.pos)),
        starts_with(
            s.at(next_start(before.prev_end(), s.pos)).rest,
            seq![letter_of(ty) as u8],
        ),
        s.at(next_start(before.prev_end(), s.pos)).rest.len() < 1 + if is_array_type(ty) {
            12int
        } else {
            4
        },
        before.left() > 0,
        before.attends(after, buffered, visitor, r),
    ensures
        r matches Err(e) && e.position is None && e.kind == ErrorKind::Io(IoError::UnexpectedEof),
        left.rest.len() == 0,
        left.pos == s.pos + s.rest.len(),
{
    let start = next_start(before.prev_end(), s.pos);
    let there = s.at(start);
    assert(s.pos == start ==> there.rest =~= s.rest);
    assert(there.rest[0] == there.rest.take(1)[0]);
    lemma_attribute_type_is_read_back(ty, there.rest);
    let type_len: nat = (start - s.pos) as nat + 1;
    let rest = s.advance(type_len).rest;
    lemma_array_header_is_written_back(rest);
    lemma_content_length_is_written_back(rest);
}

/// Bytes or text of which the input holds less than the length that is written: that is
/// what is told to who loads them. Text that is whole but no UTF-8 is refused.
pub proof fn lemma_bad_content_is_not_loaded<R: ParserSource, W: WarningHandler>(
    text: bool,
    bytelen: u32,
    content: Seq<u8>,
    s: Stream,
    before: Attributes<'_, R, W>,
    after: Attributes<'_, R, W>,
    failures: Set<IoError>,
    buffered: bool,
    r: Result<Option<DirectAttributeValue>, Error>,
)
    requires
        content.len() < bytelen || content.len() == bytelen && text && !valid_utf8(content),
        s == before.parser.stream(),
        failures == before.parser.source().failures(),
        failures == Set::<IoError>::empty(),
        s.covers(next_start(before.prev_end(), s.pos)),
        ({
            let bytes = seq![
                letter_of(
                    if text {
                        AttributeType::String
                    } else {
                        AttributeType::Binary
                    },
                ) as u8,
            ] + le_bytes(bytelen as nat, 4) + content;
            let rest = s.at(next_start(before.prev_end(), s.pos)).rest;
            starts_with(rest, bytes) && (content.len() < bytelen ==> rest == bytes)
        }),
        before.left() > 0,
        before.attends(after, buffered, DirectLoader, r),
    ensures
        r matches Err(e) && e.position is None && if content.len() < bytelen {
            e.kind == ErrorKind::Io(IoError::UnexpectedEof)
        } else {
            e.kind matches ErrorKind::Data(DataError::InvalidStringEncoding(bytes)) && bytes@
                == content
        },
{
    let ty = if text {
        AttributeType::String
    } else {
        AttributeType::Binary
    };
    let start = next_start(before.prev_end(), s.pos);
    let there = s.at(start);
    let length = le_bytes(bytelen as nat, 4);
    let all = seq![letter_of(ty) as u8] + length + content;
    let found = there.rest.take(all.len() as int);
    lemma_number_is_read_back(bytelen as nat, 4);
    assert(s.pos == start ==> there.rest =~= s.rest);
    assert(there.rest[0] == found[0]);
    lemma_attribute_type_is_read_back(ty, there.rest);
    let type_len: nat = (start - s.pos) as nat + 1;
    let headed = s.advance(type_len);
    assert(headed.rest.take(4) =~= found.subrange(1, 5));
    assert(found.subrange(1, 5) =~= length);
    lemma_content_length_is_read_back(bytelen, headed.rest);
    let rest = headed.advance(4).rest;
    assert(rest.take(content.len() as int) =~= found.skip(5));
    assert(found.skip(5) =~= content);
    if content.len() < bytelen {
        assert(rest =~= content);
    }
    assert(Payload::at(rest, bytelen as u64, failures).data == content);
}

/// An array that is not compressed, and of whose elements the input lacks some, is not
/// loaded.
pub proof fn lemma_short_array_is_not_loaded<R: ParserSource, W: WarningHandler>(
    ty: AttributeType,
    count: u32,
    bytelen: u32,
    s: Stream,
    before: Attributes<'_, R, W>,
    after: Attributes<'_, R, W>,
    failures: Set<IoError>,
    buffered: bool,
    r: Result<Option<DirectAttributeValue>, Error>,
)
    requires
        is_array_type(ty),
        s == before.parser.stream(),
        failures == before.parser.source().failures(),
        failures == Set::<IoError>::empty(),
        s.bounded(),
        s.covers(next_start(before.prev_end(), s.pos)),
        starts_with(
            s.at(next_start(before.prev_end(), s.pos)).rest,
            seq![letter_of(ty) as u8] + array_header_bytes(count, 0, bytelen),
        ),
        s.at(next_start(before.prev_end(), s.pos)).rest.len() < 13 + count * len_of_element(ty),
        before.left() > 0,
        before.attends(after, buffered, DirectLoader, r),
    ensures
        r matches Err(e) && e.position is None && e.kind == ErrorKind::Io(IoError::UnexpectedEof),
{
    lemma_plain_array_is_shown(
        ty,
        count,
        bytelen,
        s,
        before,
        after,
        failures,
        buffered,
        DirectLoader,
        r,
    );
    lemma_number_is_read_back(count as nat, 4);
    lemma_number_is_read_back(0, 4);
    lemma_number_is_read_back(bytelen as nat, 4);
    let rest = s.rest.skip(next_start(before.prev_end(), s.pos) - s.pos + 13);
    lemma_elements_need_their_bytes::<i32>(rest, count as nat);
    lemma_elements_need_their_bytes::<i64>(rest, count as nat);
    lemma_elements_need_their_bytes::<Binary32>(rest, count as nat);
    lemma_elements_need_their_bytes::<Binary64>(rest, count as nat);
}

/// The length of a single value of the given type, in bytes.
pub open spec fn len_of_single(ty: AttributeType) -> nat {
    match ty {
        AttributeType::Bool => 1,
        AttributeType::I16 => 2,
        AttributeType::I32 => 4,
        AttributeType::I64 => 8,
        AttributeType::F32 => 4,
        AttributeType::F64 => 8,
        _ => 0,
    }
}

/// Where the input ends within a single value, that is what is told, whoever visits.
pub proof fn lemma_cut_single_is_refused<R: ParserSource, W: WarningHandler, V: VisitAttribute>(
    ty: AttributeType,
    s: Stream,
    before: Attributes<'_, R, W>,
    after: Attributes<'_, R, W>,
    left: Stream,
    failures: Set<IoError>,
    buffered: bool,
    visitor: V,
    r: Result<Option<V::Output>, Error>,
)
    requires
        s == before.parser.stream(),
        left == after.parser.stream(),
        failures == before.parser.source().failures(),
        failures == Set::<IoError>::empty(),
        s.covers(next_start(before.prev_end(), s.pos)),
        starts_with(
            s.at(next_start(before.prev_end(), s.pos)).rest,
            seq![letter_of(ty) as u8],
        ),
        s.at(next_start(before.prev_end(), s.pos)).rest.len() < 1 + len_of_single(ty),
        before.left() > 0,
        before.attends(after, buffered, visitor, r),
    ensures
        r matches Err(e) && e.position is None && e.kind == ErrorKind::Io(IoError::UnexpectedEof),
        left.rest.len() == 0,
        left.pos == s.pos + s.rest.len(),
{
    let start = next_start(before.prev_end(), s.pos);
    let there = s.at(start);
    assert(s.pos == start ==> there.rest =~= s.rest);
    assert(there.rest[0] == there.rest.take(1)[0]);
    lemma_attribute_type_is_read_back(ty, there.rest);
    let type_len: nat = (start - s.pos) as nat + 1;
    let rest = s.advance(type_len).rest;
    assert(rest.len() < len_of_single(ty));
    match ty {
        AttributeType::Bool => lemma_cut_is_no_number::<u8>(rest),
        AttributeType::I16 => lemma_cut_is_no_number::<i16>(rest),
        AttributeType::I32 => lemma_cut_is_no_number::<i32>(rest),
        AttributeType::I64 => lemma_cut_is_no_number::<i64>(rest),
        AttributeType::F32 => lemma_cut_is_no_number::<Binary32>(rest),
        AttributeType::F64 => lemma_cut_is_no_number::<Binary64>(rest),
        _ => {},
    }
}

/// An array is loaded from its content, decompressed if need be, exactly where the content
/// has all the elements. They are those that the content starts with.
pub proof fn lemma_array_is_loaded_or_cut(
    ty: AttributeType,
    count: u32,
    content: Payload,
    out: Result<DirectAttributeValue, Error>,
)
    requires
        is_array_type(ty),
        content.failures == Set::<IoError>::empty(),
        DirectLoader.visits(AttributeModel::Array { ty, count, content }, out),
    ensures
        if count * len_of_element(ty) <= content.data.len() {
            &&& out matches Ok(value)
            &&& type_of(value) == ty
            &&& element_count(value) == count
            &&& writes(value, content.data.take((count * len_of_element(ty)) as int))
        } else {
            &&& out matches Err(e)
            &&& e.position is None
            &&& e.kind == ErrorKind::Io(IoError::UnexpectedEof)
        },
{
    let data = content.data;
    lemma_elements_need_their_bytes::<i32>(data, count as nat);
    lemma_elements_need_their_bytes::<i64>(data, count as nat);
    lemma_elements_need_their_bytes::<Binary32>(data, count as nat);
    lemma_elements_need_their_bytes::<Binary64>(data, count as nat);
    if let Ok(value) = out {
        match value {
            DirectAttributeValue::ArrBool(values) => {
                assert forall|i: int| 0 <= i < count implies (data[i] & 1 == 1)
                    == #[trigger] values@[i] by {
                    lemma_truth_is_the_lowest_bit(data[i]);
                }
            },
            DirectAttributeValue::ArrI32(values) => {
                lemma_elements_are_written_back::<i32>(data, count as nat);
                lemma_elements_are_read_back(values@, data);
            },
            DirectAttributeValue::ArrI64(values) => {
                lemma_elements_are_written_back::<i64>(data, count as nat);
                lemma_elements_are_read_back(values@, data);
            },
            DirectAttributeValue::ArrF32(values) => {
                lemma_elements_are_written_back::<Binary32>(data, count as nat);
                lemma_elements_are_read_back(values@, data);
            },
            DirectAttributeValue::ArrF64(values) => {
                lemma_elements_are_written_back::<Binary64>(data, count as nat);
                lemma_elements_are_read_back(values@, data);
            },
            _ => {},
        }
    }
}

/// Of a compressed array the visitor is shown all that comes out of decompressing it, with
/// the number of elements that the header states. The attribute ends with the compressed
/// content.
pub proof fn lemma_compressed_array_is_shown<R: ParserSource, W: WarningHandler, V: VisitAttribute>(
    ty: AttributeType,
    count: u32,
    content: Seq<u8>,
    data: Seq<u8>,
    s: Stream,
    before: Attributes<'_, R, W>,
    after: Attributes<'_, R, W>,
    failures: Set<IoError>,
    buffered: bool,
    visitor: V,
    r: Result<Option<V::Output>, Error>,
)
    requires
        is_array_type(ty),
        content.len() <= 0xffff_ffff,
        inflated(content) == Some(data),
        s == before.parser.stream(),
        failures == before.parser.source().failures(),
        failures == Set::<IoError>::empty() || r is Ok,
        s.bounded(),
        s.covers(next_start(before.prev_end(), s.pos)),
        starts_with(
            s.at(next_start(before.prev_end(), s.pos)).rest,
            seq![letter_of(ty) as u8] + array_header_bytes(count, 1, content.len() as u32)
                + content,
        ),
        before.left() > 0,
        before.attends(after, buffered, visitor, r),
    ensures
        r matches Ok(None) ==> false,
        visitor.visits(
            AttributeModel::Array {
                ty,
                count,
                content: Payload { len: data.len() as u64, data, failures: Set::empty() },
            },
            match r {
                Ok(out) => Ok(out.unwrap()),
                Err(e) => Err(e),
            },
        ),
        after.prev_end() == Some(
            (next_start(before.prev_end(), s.pos) + 13 + content.len()) as u64,
        ),
{
    let bytelen = content.len() as u32;
    lemma_number_is_read_back(count as nat, 4);
    lemma_number_is_read_back(1, 4);
    lemma_number_is_read_back(bytelen as nat, 4);
    let start = next_start(before.prev_end(), s.pos);
    let there = s.at(start);
    let head = seq![letter_of(ty) as u8] + array_header_bytes(count, 1, bytelen);
    let all = head + content;
    let found = there.rest.take(all.len() as int);
    assert(there.rest.take(13) =~= found.take(13));
    assert(found.take(13) =~= head);
    lemma_array_is_found(ty, count, 1, bytelen, s, before.prev_end());
    let type_len = type_in(before.prev_end(), s)->Value_1;
    let headed = s.advance(type_len);
    lemma_array_header_is_read_back(count, 1, bytelen, headed.rest);
    let rest = headed.advance(12).rest;
    assert(rest.take(content.len() as int) =~= found.skip(13));
    assert(found.skip(13) =~= content);
    assert(Payload::at(rest, bytelen as u64, failures).data == content);
}

} // verus!
