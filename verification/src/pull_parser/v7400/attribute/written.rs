//! Attributes that are written down are shown and loaded as they were written.
use vstd::prelude::*;
use vstd::utf8::{encode_utf8, encode_utf8_decode_utf8, encode_utf8_valid_utf8};

use crate::low::encoding::{
    array_header_bytes, le_bytes, lemma_array_header_is_read_back,
    lemma_attribute_type_is_read_back, lemma_content_length_is_read_back,
    lemma_number_is_read_back, letter_of, starts_with,
};
use crate::low::v7400::AttributeType;
use crate::pull_parser::error::{Decoded, Error};
use crate::pull_parser::reader::{
    lemma_reaches_transitive, IoError, ParserSource, Stream,
};
use crate::pull_parser::v7400::attribute::direct::{DirectAttributeValue, DirectLoader};
use crate::pull_parser::v7400::attribute::inflate::inflated;
use crate::pull_parser::v7400::attribute::payload::Payload;
use crate::pull_parser::v7400::attribute::refused::lemma_no_attribute_is_left;
use crate::pull_parser::v7400::attribute::visitor::{AttributeModel, VisitAttribute};
use crate::pull_parser::v7400::attribute::{element_len, head_in, type_in, Attributes};
use crate::pull_parser::v7400::numbers::{
    all_bytes, lemma_elements_are_read_back, lemma_truth_is_the_lowest_bit,
    lemma_truths_are_read_back, LittleEndian, ReadBack,
};
use crate::pull_parser::warning::WarningHandler;

verus! {

/// The type of the attribute that holds the given value.
pub open spec fn type_of(value: DirectAttributeValue) -> AttributeType {
    match value {
        DirectAttributeValue::Bool(_) => AttributeType::Bool,
        DirectAttributeValue::I16(_) => AttributeType::I16,
        DirectAttributeValue::I32(_) => AttributeType::I32,
        DirectAttributeValue::I64(_) => AttributeType::I64,
        DirectAttributeValue::F32(_) => AttributeType::F32,
        DirectAttributeValue::F64(_) => AttributeType::F64,
        DirectAttributeValue::ArrBool(_) => AttributeType::ArrBool,
        DirectAttributeValue::ArrI32(_) => AttributeType::ArrI32,
        DirectAttributeValue::ArrI64(_) => AttributeType::ArrI64,
        DirectAttributeValue::ArrF32(_) => AttributeType::ArrF32,
        DirectAttributeValue::ArrF64(_) => AttributeType::ArrF64,
        DirectAttributeValue::Binary(_) => AttributeType::Binary,
        DirectAttributeValue::String(_) => AttributeType::String,
    }
}

/// Whether `data` is how the given value is written, without what comes before it.
///
/// A truth value is told by the lowest bit of a byte.
pub open spec fn writes(value: DirectAttributeValue, data: Seq<u8>) -> bool {
    match value {
        DirectAttributeValue::Bool(b) => data.len() == 1 && (data[0] & 1 == 1) == b,
        DirectAttributeValue::I16(x) => data == x.bytes_of(),
        DirectAttributeValue::I32(x) => data == x.bytes_of(),
        DirectAttributeValue::I64(x) => data == x.bytes_of(),
        DirectAttributeValue::F32(x) => data == x.bytes_of(),
        DirectAttributeValue::F64(x) => data == x.bytes_of(),
        DirectAttributeValue::ArrBool(values) => {
            &&& data.len() == values@.len()
            &&& forall|i: int|
                0 <= i < values@.len() ==> (data[i] & 1 == 1) == #[trigger] values@[i]
        },
        DirectAttributeValue::ArrI32(values) => data == all_bytes(values@),
        DirectAttributeValue::ArrI64(values) => data == all_bytes(values@),
        DirectAttributeValue::ArrF32(values) => data == all_bytes(values@),
        DirectAttributeValue::ArrF64(values) => data == all_bytes(values@),
        DirectAttributeValue::Binary(bytes) => data == bytes@,
        DirectAttributeValue::String(text) => data == encode_utf8(text@),
    }
}

/// The number of elements of an array.
pub open spec fn element_count(value: DirectAttributeValue) -> nat {
    match value {
        DirectAttributeValue::ArrBool(values) => values@.len(),
        DirectAttributeValue::ArrI32(values) => values@.len(),
        DirectAttributeValue::ArrI64(values) => values@.len(),
        DirectAttributeValue::ArrF32(values) => values@.len(),
        DirectAttributeValue::ArrF64(values) => values@.len(),
        _ => 0,
    }
}

/// Whether the value is an array.
pub open spec fn is_array(value: DirectAttributeValue) -> bool {
    match value {
        DirectAttributeValue::ArrBool(_) => true,
        DirectAttributeValue::ArrI32(_) => true,
        DirectAttributeValue::ArrI64(_) => true,
        DirectAttributeValue::ArrF32(_) => true,
        DirectAttributeValue::ArrF64(_) => true,
        _ => false,
    }
}

/// Whether two values are of the same type and hold the same.
pub open spec fn same_value(a: DirectAttributeValue, b: DirectAttributeValue) -> bool {
    match (a, b) {
        (DirectAttributeValue::Bool(x), DirectAttributeValue::Bool(y)) => x == y,
        (DirectAttributeValue::I16(x), DirectAttributeValue::I16(y)) => x == y,
        (DirectAttributeValue::I32(x), DirectAttributeValue::I32(y)) => x == y,
        (DirectAttributeValue::I64(x), DirectAttributeValue::I64(y)) => x == y,
        (DirectAttributeValue::F32(x), DirectAttributeValue::F32(y)) => x == y,
        (DirectAttributeValue::F64(x), DirectAttributeValue::F64(y)) => x == y,
        (DirectAttributeValue::ArrBool(x), DirectAttributeValue::ArrBool(y)) => x@ == y@,
        (DirectAttributeValue::ArrI32(x), DirectAttributeValue::ArrI32(y)) => x@ == y@,
        (DirectAttributeValue::ArrI64(x), DirectAttributeValue::ArrI64(y)) => x@ == y@,
        (DirectAttributeValue::ArrF32(x), DirectAttributeValue::ArrF32(y)) => x@ == y@,
        (DirectAttributeValue::ArrF64(x), DirectAttributeValue::ArrF64(y)) => x@ == y@,
        (DirectAttributeValue::Binary(x), DirectAttributeValue::Binary(y)) => x@ == y@,
        (DirectAttributeValue::String(x), DirectAttributeValue::String(y)) => x@ == y@,
        _ => false,
    }
}

/// An attribute as it is written.
pub ghost struct WrittenAttribute {
    /// What it holds.
    pub value: DirectAttributeValue,
    /// How that is written.
    pub data: Seq<u8>,
    /// What is written after the last element, if the attribute is an array.
    pub extra: Seq<u8>,
    /// What is written in place of both if they are compressed.
    pub compressed: Option<Seq<u8>>,
}

impl WrittenAttribute {
    /// What is written after the type and, for arrays, bytes and text, the lengths.
    pub open spec fn content(self) -> Seq<u8> {
        match self.compressed {
            Some(bytes) => bytes,
            None => self.data + self.extra,
        }
    }

    /// Whether the attribute can be written: its lengths fit in four bytes, and nothing
    /// but an array is compressed or has more in it than it holds.
    pub open spec fn valid(self) -> bool {
        &&& writes(self.value, self.data)
        &&& self.content().len() <= 0xffff_ffff
        &&& element_count(self.value) <= 0xffff_ffff
        &&& !is_array(self.value) ==> self.extra.len() == 0 && self.compressed is None
        &&& self.compressed matches Some(bytes) ==> inflated(bytes) == Some(self.data + self.extra)
    }

    /// The bytes between the type and the content: of an array the number of elements,
    /// 1 if they are compressed and 0 if not, and the length of the content; of bytes
    /// and text the length; of other values none.
    pub open spec fn lengths(self) -> Seq<u8> {
        if is_array(self.value) {
            array_header_bytes(
                element_count(self.value) as u32,
                if self.compressed is Some {
                    1
                } else {
                    0
                },
                self.content().len() as u32,
            )
        } else if self.value is Binary || self.value is String {
            le_bytes(self.content().len(), 4)
        } else {
            Seq::empty()
        }
    }

    /// All the bytes of the attribute.
    pub open spec fn bytes(self) -> Seq<u8> {
        seq![letter_of(type_of(self.value)) as u8] + self.lengths() + self.content()
    }

    /// The attribute as a visitor gets to see it.
    pub open spec fn shown(self, failures: Set<IoError>, buffered: bool) -> AttributeModel {
        let payload = Payload { len: self.data.len() as u64, data: self.data, failures };
        match self.value {
            DirectAttributeValue::Bool(b) => AttributeModel::Bool(b),
            DirectAttributeValue::I16(x) => AttributeModel::I16(x),
            DirectAttributeValue::I32(x) => AttributeModel::I32(x),
            DirectAttributeValue::I64(x) => AttributeModel::I64(x),
            DirectAttributeValue::F32(x) => AttributeModel::F32(x),
            DirectAttributeValue::F64(x) => AttributeModel::F64(x),
            DirectAttributeValue::Binary(_) => AttributeModel::Binary { payload, buffered },
            DirectAttributeValue::String(_) => AttributeModel::Text { payload, buffered },
            _ => AttributeModel::Array {
                ty: type_of(self.value),
                count: element_count(self.value) as u32,
                content: if self.compressed is Some {
                    Payload {
                        len: (self.data.len() + self.extra.len()) as u64,
                        data: self.data + self.extra,
                        failures: Set::empty(),
                    }
                } else {
                    payload
                },
            },
        }
    }
}

/// The head of an attribute that is written is read back.
proof fn lemma_head_is_read(
    a: WrittenAttribute,
    rest: Seq<u8>,
    failures: Set<IoError>,
    buffered: bool,
)
    requires
        a.valid(),
        starts_with(rest, a.lengths() + a.content()),
    ensures
        ({
            let ty = type_of(a.value);
            &&& head_in(ty, rest) matches Decoded::Value(head, len)
            &&& len + head.content_len() == a.lengths().len() + a.content().len()
            &&& head.reach(ty) <= head.content_len()
            &&& len <= rest.len()
            &&& head.attribute(
                ty,
                Payload::at(rest.skip(len as int), head.reach(ty), failures),
                buffered,
            ) == Some(a.shown(failures, buffered))
            &&& forall|e: Error|
                #[trigger]
                head.refused(Payload::at(rest.skip(len as int), head.reach(ty), failures), e)
                    ==> failures != Set::<IoError>::empty()
        }),
{
    let lengths = a.lengths();
    let content = a.content();
    let all = rest.take((lengths + content).len() as int);
    let after = rest.skip(lengths.len() as int);
    assert(rest.take(lengths.len() as int) =~= all.take(lengths.len() as int));
    assert(all.take(lengths.len() as int) =~= lengths);
    assert(after.take(content.len() as int) =~= all.skip(lengths.len() as int));
    assert(all.skip(lengths.len() as int) =~= content);
    lemma_number_is_read_back(element_count(a.value), 4);
    lemma_number_is_read_back(1, 4);
    lemma_number_is_read_back(0, 4);
    lemma_number_is_read_back(content.len(), 4);
    if a.compressed is None {
        let data = a.data;
        assert(after.take(data.len() as int) =~= content.take(data.len() as int));
        assert(content.take(data.len() as int) =~= data);
    }
    if !is_array(a.value) {
        assert(content =~= a.data);
    }
    match a.value {
        DirectAttributeValue::Bool(b) => {
            assert(all =~= content);
            assert(rest[0] == all[0]);
            lemma_truth_is_the_lowest_bit(rest[0]);
        },
        DirectAttributeValue::I16(x) => {
            assert(all =~= content);
            x.lemma_bytes_len();
            x.lemma_is_read_back(rest);
        },
        DirectAttributeValue::I32(x) => {
            assert(all =~= content);
            x.lemma_bytes_len();
            x.lemma_is_read_back(rest);
        },
        DirectAttributeValue::I64(x) => {
            assert(all =~= content);
            x.lemma_bytes_len();
            x.lemma_is_read_back(rest);
        },
        DirectAttributeValue::F32(x) => {
            assert(all =~= content);
            x.lemma_bytes_len();
            x.lemma_is_read_back(rest);
        },
        DirectAttributeValue::F64(x) => {
            assert(all =~= content);
            x.lemma_bytes_len();
            x.lemma_is_read_back(rest);
        },
        DirectAttributeValue::Binary(_) => {
            lemma_content_length_is_read_back(content.len() as u32, rest);
        },
        DirectAttributeValue::String(_) => {
            lemma_content_length_is_read_back(content.len() as u32, rest);
        },
        _ => {
            let encoding: u32 = if a.compressed is Some {
                1
            } else {
                0
            };
            lemma_array_header_is_read_back(
                element_count(a.value) as u32,
                encoding,
                content.len() as u32,
                rest,
            );
            lemma_elements_take_their_bytes(a.value, a.data);
        },
    }
}

/// The elements of an array take as many bytes as there are elements, times the length
/// of one.
proof fn lemma_elements_take_their_bytes(value: DirectAttributeValue, data: Seq<u8>)
    requires
        is_array(value),
        writes(value, data),
    ensures
        data.len() == element_count(value) * element_len(type_of(value)),
{
    assert(data.take(data.len() as int) =~= data);
    match value {
        DirectAttributeValue::ArrI32(values) => {
            lemma_elements_are_read_back(values@, data);
        },
        DirectAttributeValue::ArrI64(values) => {
            lemma_elements_are_read_back(values@, data);
        },
        DirectAttributeValue::ArrF32(values) => {
            lemma_elements_are_read_back(values@, data);
        },
        DirectAttributeValue::ArrF64(values) => {
            lemma_elements_are_read_back(values@, data);
        },
        _ => {},
    }
}

/// The offset at which the next attribute starts, where the attribute before it is known
/// to end at `prev_end` and the reader has come to the offset `pos`.
pub open spec fn next_start(prev_end: Option<u64>, pos: nat) -> nat {
    match prev_end {
        Some(end) => if pos < end {
            end as nat
        } else {
            pos
        },
        None => pos,
    }
}

/// The attribute that is written next is found there.
proof fn lemma_attribute_is_found(
    a: WrittenAttribute,
    s: Stream,
    prev_end: Option<u64>,
    failures: Set<IoError>,
    buffered: bool,
)
    requires
        a.valid(),
        s.covers(next_start(prev_end, s.pos)),
        starts_with(s.at(next_start(prev_end, s.pos)).rest, a.bytes()),
    ensures
        ({
            let ty = type_of(a.value);
            &&& type_in(prev_end, s) matches Decoded::Value(found, type_len)
            &&& found == ty
            &&& type_len <= s.rest.len()
            &&& head_in(ty, s.advance(type_len).rest) matches Decoded::Value(head, len)
            &&& len <= s.advance(type_len).rest.len()
            &&& s.reaches(s.advance(type_len).advance(len))
            &&& s.advance(type_len).advance(len).pos + head.content_len() == next_start(
                prev_end,
                s.pos,
            ) + a.bytes().len()
            &&& head.reach(ty) <= head.content_len()
            &&& head.attribute(
                ty,
                Payload::at(s.advance(type_len).advance(len).rest, head.reach(ty), failures),
                buffered,
            ) == Some(a.shown(failures, buffered))
            &&& forall|e: Error|
                #[trigger]
                head.refused(
                    Payload::at(s.advance(type_len).advance(len).rest, head.reach(ty), failures),
                    e,
                ) ==> failures != Set::<IoError>::empty()
        }),
{
    let start = next_start(prev_end, s.pos);
    let there = s.at(start);
    let ty = type_of(a.value);
    let bytes = a.bytes();
    let body = a.lengths() + a.content();
    let all = there.rest.take(bytes.len() as int);
    assert(there.rest[0] == all[0]);
    lemma_attribute_type_is_read_back(ty, there.rest);
    let headed = there.advance(1);
    assert(s.pos == start ==> there.rest =~= s.rest);
    let skipped: nat = (start - s.pos) as nat + 1;
    assert(s.advance(skipped).rest =~= headed.rest);
    assert(headed.rest.take(body.len() as int) =~= all.skip(1));
    assert(all.skip(1) =~= body);
    lemma_head_is_read(a, headed.rest, failures, buffered);
    assert(type_in(prev_end, s) == Decoded::Value(ty, skipped));
    let len = head_in(ty, headed.rest)->Value_1;
    let content = headed.advance(len);
    assert(s.rest.skip(content.pos - s.pos) =~= content.rest);
}

/// A visitor is shown the attribute that is written next, and the one after it starts
/// where its bytes end, however many of them the visitor has read.
pub proof fn lemma_written_attribute_is_shown<
    R: ParserSource,
    W: WarningHandler,
    V: VisitAttribute,
>(
    a: WrittenAttribute,
    s: Stream,
    before: Attributes<'_, R, W>,
    after: Attributes<'_, R, W>,
    left: Stream,
    failures: Set<IoError>,
    buffered: bool,
    visitor: V,
    r: Result<Option<V::Output>, Error>,
)
    requires
        a.valid(),
        s == before.parser.stream(),
        left == after.parser.stream(),
        failures == before.parser.source().failures(),
        s.bounded(),
        s.covers(next_start(before.prev_end(), s.pos)),
        starts_with(s.at(next_start(before.prev_end(), s.pos)).rest, a.bytes()),
        before.left() > 0,
        before.attends(after, buffered, visitor, r),
        failures == Set::<IoError>::empty() || r is Ok,
    ensures
        match r {
            Ok(out) => {
                &&& out matches Some(out)
                &&& visitor.visits(a.shown(failures, buffered), Ok(out))
            },
            Err(e) => visitor.visits(a.shown(failures, buffered), Err(e)),
        },
        after.left() == before.left() - 1,
        s.reaches(left),
        next_start(after.prev_end(), left.pos) == next_start(before.prev_end(), s.pos)
            + a.bytes().len(),
{
    lemma_attribute_is_found(a, s, before.prev_end(), failures, buffered);
    let ty = type_of(a.value);
    let type_len = type_in(before.prev_end(), s)->Value_1;
    let headed = s.advance(type_len);
    let head = head_in(ty, headed.rest)->Value_0;
    let content = headed.advance(head_in(ty, headed.rest)->Value_1);
    if content.reaches(left) {
        lemma_reaches_transitive(s, content, left);
    }
}

/// A value that is written is loaded as it was written.
proof fn lemma_shown_value_is_loaded(
    a: WrittenAttribute,
    buffered: bool,
    out: Result<DirectAttributeValue, Error>,
)
    requires
        a.valid(),
        DirectLoader.visits(a.shown(Set::empty(), buffered), out),
    ensures
        out matches Ok(value) && same_value(value, a.value),
{
    let data = if a.compressed is Some {
        a.data + a.extra
    } else {
        a.data
    };
    assert(data.take(a.data.len() as int) =~= a.data);
    match a.value {
        DirectAttributeValue::ArrBool(values) => {
            lemma_truths_are_read_back(values@, data);
        },
        DirectAttributeValue::ArrI32(values) => {
            lemma_elements_are_read_back(values@, data);
        },
        DirectAttributeValue::ArrI64(values) => {
            lemma_elements_are_read_back(values@, data);
        },
        DirectAttributeValue::ArrF32(values) => {
            lemma_elements_are_read_back(values@, data);
        },
        DirectAttributeValue::ArrF64(values) => {
            lemma_elements_are_read_back(values@, data);
        },
        DirectAttributeValue::String(text) => {
            encode_utf8_valid_utf8(text@);
            encode_utf8_decode_utf8(text@);
        },
        _ => {},
    }
}

/// Whatever value is written as the next attribute, loading that gives the same value.
pub proof fn lemma_written_value_is_loaded<R: ParserSource, W: WarningHandler>(
    a: WrittenAttribute,
    s: Stream,
    before: Attributes<'_, R, W>,
    after: Attributes<'_, R, W>,
    left: Stream,
    failures: Set<IoError>,
    buffered: bool,
    r: Result<Option<DirectAttributeValue>, Error>,
)
    requires
        a.valid(),
        s == before.parser.stream(),
        left == after.parser.stream(),
        failures == before.parser.source().failures(),
        failures == Set::<IoError>::empty(),
        s.bounded(),
        s.covers(next_start(before.prev_end(), s.pos)),
        starts_with(s.at(next_start(before.prev_end(), s.pos)).rest, a.bytes()),
        before.left() > 0,
        before.attends(after, buffered, DirectLoader, r),
    ensures
        r matches Ok(Some(value)) && same_value(value, a.value),
        after.left() == before.left() - 1,
        s.reaches(left),
        next_start(after.prev_end(), left.pos) == next_start(before.prev_end(), s.pos)
            + a.bytes().len(),
{
    lemma_written_attribute_is_shown(
        a,
        s,
        before,
        after,
        left,
        failures,
        buffered,
        DirectLoader,
        r,
    );
    lemma_shown_value_is_loaded(
        a,
        buffered,
        match r {
            Ok(out) => Ok(out.unwrap()),
            Err(e) => Err(e),
        },
    );
}

/// The bytes of some attributes, one after the other.
pub open spec fn node_bytes(all: Seq<WrittenAttribute>) -> Seq<u8>
    decreases all.len(),
{
    if all.len() == 0 {
        Seq::empty()
    } else {
        all[0].bytes() + node_bytes(all.drop_first())
    }
}

/// Whether `states` are the attributes of a node before the first visit and after each,
/// where each visit loads a value.
pub open spec fn loads_each<R: ParserSource, W: WarningHandler>(
    states: Seq<Attributes<'_, R, W>>,
    buffered: bool,
    results: Seq<Result<Option<DirectAttributeValue>, Error>>,
) -> bool {
    &&& states.len() == results.len() + 1
    &&& forall|i: int|
        #![trigger results[i]]
        0 <= i < results.len() ==> states[i].attends(
            states[i + 1],
            buffered,
            DirectLoader,
            results[i],
        )
}

/// What is left of the attributes of a node once a visit has loaded one.
pub open spec fn remaining(all: Seq<WrittenAttribute>) -> Seq<WrittenAttribute> {
    if all.len() > 0 {
        all.drop_first()
    } else {
        all
    }
}

/// Of bytes that follow each other the first come first, and the others after them.
proof fn lemma_bytes_follow(s: Stream, start: nat, first: Seq<u8>, others: Seq<u8>)
    requires
        s.covers(start),
        starts_with(s.at(start).rest, first + others),
    ensures
        starts_with(s.at(start).rest, first),
        s.covers(start + first.len()),
        starts_with(s.at(start + first.len()).rest, others),
{
    let there = s.at(start);
    let both = first + others;
    let found = there.rest.take(both.len() as int);
    assert(there.rest.take(first.len() as int) =~= found.take(first.len() as int));
    assert(found.take(first.len() as int) =~= first);
    let next = s.at(start + first.len());
    assert(next.rest.take(others.len() as int) =~= found.skip(first.len() as int));
    assert(found.skip(first.len() as int) =~= others);
}

/// A later place of a stream is the same, however it is come to.
proof fn lemma_same_later(s: Stream, left: Stream, offset: nat)
    requires
        s.reaches(left),
        left.pos <= offset,
        s.covers(offset),
    ensures
        left.covers(offset),
        left.at(offset) == s.at(offset),
{
    assert(left.at(offset).rest =~= s.at(offset).rest);
}

/// A visit loads the first of the attributes that are written, and the others are
/// written after it.
proof fn lemma_first_is_loaded<R: ParserSource, W: WarningHandler>(
    all: Seq<WrittenAttribute>,
    s: Stream,
    failures: Set<IoError>,
    before: Attributes<'_, R, W>,
    after: Attributes<'_, R, W>,
    left: Stream,
    buffered: bool,
    r: Result<Option<DirectAttributeValue>, Error>,
)
    requires
        all.len() > 0 ==> all[0].valid(),
        before.attends(after, buffered, DirectLoader, r),
        s == before.parser.stream(),
        left == after.parser.stream(),
        failures == before.parser.source().failures(),
        failures == Set::<IoError>::empty(),
        s.bounded(),
        before.left() == all.len(),
        s.covers(next_start(before.prev_end(), s.pos)),
        starts_with(s.at(next_start(before.prev_end(), s.pos)).rest, node_bytes(all)),
    ensures
        if all.len() > 0 {
            r matches Ok(Some(value)) && same_value(value, all[0].value)
        } else {
            r matches Ok(None)
        },
        left.bounded(),
        after.left() == remaining(all).len(),
        left.covers(next_start(after.prev_end(), left.pos)),
        starts_with(
            left.at(next_start(after.prev_end(), left.pos)).rest,
            node_bytes(remaining(all)),
        ),
{
    let start = next_start(before.prev_end(), s.pos);
    if all.len() > 0 {
        let first = all[0].bytes();
        lemma_bytes_follow(s, start, first, node_bytes(remaining(all)));
        lemma_written_value_is_loaded(all[0], s, before, after, left, failures, buffered, r);
        lemma_same_later(s, left, start + first.len());
    } else {
        lemma_no_attribute_is_left(before, after, s, left, buffered, DirectLoader, r);
    }
}

/// Whatever values are written as the attributes of a node, one after the other, loading
/// them one after the other gives the same values in the same order, and `None` after
/// the last.
pub proof fn lemma_written_node_is_loaded<R: ParserSource, W: WarningHandler>(
    all: Seq<WrittenAttribute>,
    s: Stream,
    failures: Set<IoError>,
    states: Seq<Attributes<'_, R, W>>,
    buffered: bool,
    results: Seq<Result<Option<DirectAttributeValue>, Error>>,
)
    requires
        forall|i: int| 0 <= i < all.len() ==> (#[trigger] all[i]).valid(),
        loads_each(states, buffered, results),
        s == states[0].parser.stream(),
        failures == states[0].parser.source().failures(),
        failures == Set::<IoError>::empty(),
        s.bounded(),
        states[0].left() == all.len(),
        s.covers(next_start(states[0].prev_end(), s.pos)),
        starts_with(s.at(next_start(states[0].prev_end(), s.pos)).rest, node_bytes(all)),
    ensures
        forall|i: int|
            #![trigger results[i]]
            0 <= i < results.len() ==> if i < all.len() {
                results[i] matches Ok(Some(value)) && same_value(value, all[i].value)
            } else {
                results[i] matches Ok(None)
            },
    decreases results.len(),
{
    if results.len() > 0 {
        let before = states[0];
        let after = states[1];
        let left = after.parser.stream();
        assert(before.attends(after, buffered, DirectLoader, results[0]));
        let others = states.drop_first();
        let later = results.drop_first();
        assert forall|i: int| #![trigger later[i]] 0 <= i < later.len() implies others[i].attends(
            others[i + 1],
            buffered,
            DirectLoader,
            later[i],
        ) by {
            assert(later[i] == results[i + 1]);
        }
        lemma_first_is_loaded(all, s, failures, before, after, left, buffered, results[0]);
        let rest = remaining(all);
        lemma_written_node_is_loaded(rest, left, failures, others, buffered, later);
        assert forall|i: int| #![trigger results[i]] 0 <= i < results.len() implies if i
            < all.len() {
            results[i] matches Ok(Some(value)) && same_value(value, all[i].value)
        } else {
            results[i] matches Ok(None)
        } by {
            if i > 0 {
                assert(results[i] == later[i - 1]);
            }
        }
    }
}

} // verus!
