//! What a visitor gets to read of the content of an attribute.
use vstd::prelude::*;
use vstd::utf8::{decode_utf8_encode_utf8, encode_utf8, valid_utf8};

use crate::low::encoding::starts_with;
use crate::pull_parser::error::{Error, ErrorKind};
use crate::pull_parser::reader::{BufferedSource, IoError, ParserSource};
use crate::pull_parser::v7400::attribute::array::{
    bool_from_raw, ArrayAttributeValues, ArrayElement, BooleanArrayAttributeValues,
};
use crate::pull_parser::v7400::attribute::direct::DirectAttributeValue;
use crate::pull_parser::v7400::attribute::payload::AttributeReader;
use crate::pull_parser::v7400::attribute::written::same_value;
use crate::pull_parser::v7400::numbers::{lemma_truth_is_the_lowest_bit, ElementReadBack};
use crate::pull_parser::v7400::text::string_from_utf8;

verus! {

/// A reader of a content delivers the bytes of the source in order and each once, up to
/// the end of the content.
pub proof fn lemma_content_is_delivered_once<R: ParserSource>(
    reader: &mut AttributeReader<R>,
    max: usize,
    r: Result<Vec<u8>, IoError>,
)
    requires
        old(reader).wf(),
        old(reader).source().failures() == Set::<IoError>::empty(),
        call_ensures(AttributeReader::<R>::read, (reader, max), r),
    ensures
        r matches Ok(bytes) && ({
            let s = old(reader).source().stream();
            let left = final(reader).source().stream();
            &&& s.rest == bytes@ + left.rest
            &&& left.pos == s.pos + bytes@.len()
            &&& bytes@.len() <= max
            &&& bytes@.len() + final(reader).limit() == old(reader).limit()
            &&& bytes@.len() == 0 ==> max == 0 || old(reader).limit() == 0 || s.rest.len() == 0
        }),
{
    if let Ok(bytes) = r {
        let s = old(reader).source().stream();
        let left = final(reader).source().stream();
        assert(s.rest =~= bytes@ + left.rest);
    }
}

/// As many bytes as are asked for are read, if the content and the source have them.
/// Otherwise that is told.
pub proof fn lemma_exact_content_is_read<R: ParserSource>(
    reader: &mut AttributeReader<R>,
    len: usize,
    r: Result<Vec<u8>, IoError>,
)
    requires
        old(reader).wf(),
        old(reader).source().failures() == Set::<IoError>::empty(),
        call_ensures(AttributeReader::<R>::read_exact, (reader, len), r),
    ensures
        ({
            let s = old(reader).source().stream();
            let left = final(reader).source().stream();
            if len <= old(reader).limit() && len <= s.rest.len() {
                r matches Ok(bytes) && bytes@.len() == len && s.rest == bytes@ + left.rest
                    && len + final(reader).limit() == old(reader).limit()
            } else {
                r == Err::<Vec<u8>, IoError>(IoError::UnexpectedEof)
            }
        }),
{
    if let Ok(bytes) = r {
        let s = old(reader).source().stream();
        let left = final(reader).source().stream();
        assert(s.rest =~= bytes@ + left.rest);
    }
}

/// All that is left of a content is read, as far as the source has it.
pub proof fn lemma_whole_content_is_read<R: ParserSource>(
    reader: &mut AttributeReader<R>,
    r: Result<Vec<u8>, IoError>,
)
    requires
        old(reader).wf(),
        old(reader).source().failures() == Set::<IoError>::empty(),
        call_ensures(AttributeReader::<R>::read_to_end, (reader,), r),
    ensures
        r matches Ok(bytes) && ({
            let s = old(reader).source().stream();
            let left = final(reader).source().stream();
            &&& s.rest == bytes@ + left.rest
            &&& left.pos == s.pos + bytes@.len()
            &&& bytes@.len() + final(reader).limit() == old(reader).limit()
            &&& final(reader).limit() == 0 || left.rest.len() == 0
        }),
{
    if let Ok(bytes) = r {
        let s = old(reader).source().stream();
        let left = final(reader).source().stream();
        assert(s.rest =~= bytes@ + left.rest);
    }
}

/// What is shown of a content comes next in the source and belongs to the content, and to
/// show it takes nothing.
pub proof fn lemma_shown_content_comes_next<R: BufferedSource>(
    reader: &mut AttributeReader<R>,
    r: Result<Vec<u8>, IoError>,
)
    requires
        old(reader).wf(),
        old(reader).source().failures() == Set::<IoError>::empty(),
        call_ensures(AttributeReader::<R>::peek, (reader,), r),
    ensures
        r matches Ok(bytes) && starts_with(old(reader).source().stream().rest, bytes@)
            && bytes@.len() <= old(reader).limit() && (bytes@.len() == 0 ==> old(reader).limit()
            == 0 || old(reader).source().stream().rest.len() == 0),
        final(reader).limit() == old(reader).limit(),
        final(reader).source().stream() == old(reader).source().stream(),
{
    if let Ok(bytes) = r {
        let s = old(reader).source().stream();
        let left = final(reader).source().stream();
        assert(s.rest.take(bytes@.len() as int) =~= bytes@);
        assert(left.rest =~= s.rest);
    }
}

/// The next element of an array is the number whose bytes come next. Where no element is
/// left, or one could not be read, nothing comes.
pub proof fn lemma_next_element_is_read<R: ParserSource, T: ElementReadBack>(
    values: &mut ArrayAttributeValues<'_, R, T>,
    value: T,
    r: Option<Result<T, Error>>,
)
    requires
        old(values).decoder.wf(),
        old(values).decoder.content().failures == Set::<IoError>::empty(),
        call_ensures(ArrayAttributeValues::<R, T>::next, (values,), r),
    ensures
        ({
            let data = old(values).decoder.content().data;
            let left = final(values).decoder.content().data;
            if old(values).rest_elements == 0 || old(values).has_error {
                r is None
            } else if starts_with(data, value.bytes_of()) {
                &&& r == Some(Ok::<T, Error>(value))
                &&& data == value.bytes_of() + left
                &&& !final(values).has_error
                &&& final(values).rest_elements == old(values).rest_elements - 1
            } else {
                data.len() < T::width() ==> {
                    &&& r matches Some(Err(e))
                    &&& e.kind == ErrorKind::Io(IoError::UnexpectedEof)
                    &&& final(values).has_error
                }
            }
        }),
{
    T::lemma_element_width();
    value.lemma_bytes_len();
    let data = old(values).decoder.content().data;
    let left = final(values).decoder.content().data;
    if starts_with(data, value.bytes_of()) {
        let bytes = value.bytes_of();
        assert(bytes.take(bytes.len() as int) =~= bytes);
        value.lemma_is_read_back(bytes);
        T::lemma_element_is_a_number(bytes);
        assert(data =~= bytes + data.skip(bytes.len() as int));
    }
}

/// The next truth value of an array is told by the lowest bit of the byte that comes next.
/// A byte other than the letters T and Y is remembered.
pub proof fn lemma_next_truth_is_read<R: ParserSource>(
    values: &mut BooleanArrayAttributeValues<'_, R>,
    r: Option<Result<bool, Error>>,
)
    requires
        old(values).decoder.wf(),
        old(values).decoder.content().failures == Set::<IoError>::empty(),
        call_ensures(BooleanArrayAttributeValues::<R>::next, (values,), r),
    ensures
        ({
            let data = old(values).decoder.content().data;
            let left = final(values).decoder.content().data;
            if old(values).rest_elements == 0 || old(values).has_error {
                r is None
            } else if data.len() > 0 {
                &&& r == Some(Ok::<bool, Error>(data[0] & 1 == 1))
                &&& data == seq![data[0]] + left
                &&& final(values).has_incorrect_boolean_value == (
                old(values).has_incorrect_boolean_value || !(data[0] == 'T' as u8 || data[0]
                    == 'Y' as u8))
                &&& !final(values).has_error
                &&& final(values).rest_elements == old(values).rest_elements - 1
            } else {
                &&& r matches Some(Err(e))
                &&& e.kind == ErrorKind::Io(IoError::UnexpectedEof)
                &&& final(values).has_error
            }
        }),
{
    let data = old(values).decoder.content().data;
    if data.len() > 0 {
        lemma_truth_is_the_lowest_bit(data[0]);
        assert(data =~= seq![data[0]] + data.skip(1));
    }
}

/// An array that is begun has as many elements as it is said to have, none of which could
/// not be read.
pub proof fn lemma_array_begins<R: ParserSource, T: ArrayElement>(
    values: ArrayAttributeValues<'_, R, T>,
    count: u32,
    begun: ArrayAttributeValues<'_, R, T>,
)
    requires
        call_ensures(ArrayAttributeValues::<R, T>::new, (values.decoder, count), begun),
    ensures
        begun.rest_elements == count,
        !begun.has_error,
        begun.decoder == values.decoder,
{
}

/// A byte is true where its lowest bit is set.
pub proof fn lemma_truth_is_told(raw: u8, value: bool)
    requires
        call_ensures(bool_from_raw, (raw,), value),
    ensures
        value == (raw & 1 == 1),
{
    lemma_truth_is_the_lowest_bit(raw);
}

/// Text is read from bytes exactly where it is written by them. Other bytes are given back.
pub proof fn lemma_text_is_read_back(bytes: Vec<u8>, r: Result<String, Vec<u8>>)
    requires
        call_ensures(string_from_utf8, (bytes,), r),
    ensures
        match r {
            Ok(text) => encode_utf8(text@) == bytes@,
            Err(same) => !valid_utf8(bytes@) && same@ == bytes@,
        },
{
    if r is Ok {
        decode_utf8_encode_utf8(bytes@);
    }
}

/// A copy of a value holds the same.
pub proof fn lemma_copy_holds_the_same(value: DirectAttributeValue, copy: DirectAttributeValue)
    requires
        call_ensures(<DirectAttributeValue as Clone>::clone, (&value,), copy),
    ensures
        same_value(copy, value),
{
}

} // verus!
