//! What a visitor is told of an attribute.
use vstd::prelude::*;

use crate::low::v7400::{AttributeType, Binary32, Binary64};
use crate::pull_parser::error::Error;
use crate::pull_parser::reader::{BufferedSource, ParserSource};
use crate::pull_parser::v7400::attribute::array::{
    ArrayAttributeValues, BooleanArrayAttributeValues,
};
use crate::pull_parser::v7400::attribute::payload::AttributeReader;
use crate::pull_parser::v7400::attribute::visitor::{AttributeModel, VisitAttribute};

verus! {

/// A visitor that is handed a single value answers to an attribute with that value.
pub proof fn lemma_single_value_is_handed_over<V: VisitAttribute>(
    visitor: V,
    truth: bool,
    short: i16,
    word: i32,
    long: i64,
    single: Binary32,
    double: Binary64,
    out: Result<V::Output, Error>,
)
    ensures
        call_ensures(<V as VisitAttribute>::visit_bool, (visitor, truth), out) ==> visitor.visits(
            AttributeModel::Bool(truth),
            out,
        ),
        call_ensures(<V as VisitAttribute>::visit_i16, (visitor, short), out) ==> visitor.visits(
            AttributeModel::I16(short),
            out,
        ),
        call_ensures(<V as VisitAttribute>::visit_i32, (visitor, word), out) ==> visitor.visits(
            AttributeModel::I32(word),
            out,
        ),
        call_ensures(<V as VisitAttribute>::visit_i64, (visitor, long), out) ==> visitor.visits(
            AttributeModel::I64(long),
            out,
        ),
        call_ensures(<V as VisitAttribute>::visit_f32, (visitor, single), out) ==> visitor.visits(
            AttributeModel::F32(single),
            out,
        ),
        call_ensures(<V as VisitAttribute>::visit_f64, (visitor, double), out) ==> visitor.visits(
            AttributeModel::F64(double),
            out,
        ),
{
}

/// A visitor that is handed an array of truth values is told how many are left, and
/// answers to the array of these.
pub proof fn lemma_array_of_truths_is_handed_over<V: VisitAttribute, R: ParserSource>(
    visitor: V,
    values: &mut BooleanArrayAttributeValues<'_, R>,
    len: usize,
    out: Result<V::Output, Error>,
)
    requires
        call_ensures(<V as VisitAttribute>::visit_seq_bool::<R>, (visitor, values, len), out),
    ensures
        len == old(values).rest_elements,
        visitor.visits(
            AttributeModel::Array {
                ty: AttributeType::ArrBool,
                count: old(values).rest_elements,
                content: old(values).decoder.content(),
            },
            out,
        ),
{
}

/// A visitor that is handed an array of `i32` is told how
/// many are left, and answers to the array of these.
pub proof fn lemma_array_of_i32_is_handed_over<V: VisitAttribute, R: ParserSource>(
    visitor: V,
    values: ArrayAttributeValues<'_, R, i32>,
    len: usize,
    out: Result<V::Output, Error>,
)
    requires
        call_ensures(<V as VisitAttribute>::visit_seq_i32::<R>, (visitor, values, len), out),
    ensures
        len == values.rest_elements,
        visitor.visits(
            AttributeModel::Array {
                ty: AttributeType::ArrI32,
                count: values.rest_elements,
                content: values.decoder.content(),
            },
            out,
        ),
{
}

/// A visitor that is handed an array of `i64` is told how
/// many are left, and answers to the array of these.
pub proof fn lemma_array_of_i64_is_handed_over<V: VisitAttribute, R: ParserSource>(
    visitor: V,
    values: ArrayAttributeValues<'_, R, i64>,
    len: usize,
    out: Result<V::Output, Error>,
)
    requires
        call_ensures(<V as VisitAttribute>::visit_seq_i64::<R>, (visitor, values, len), out),
    ensures
        len == values.rest_elements,
        visitor.visits(
            AttributeModel::Array {
                ty: AttributeType::ArrI64,
                count: values.rest_elements,
                content: values.decoder.content(),
            },
            out,
        ),
{
}

/// A visitor that is handed an array of 32-bit floating point numbers is told how
/// many are left, and answers to the array of these.
pub proof fn lemma_array_of_f32_is_handed_over<V: VisitAttribute, R: ParserSource>(
    visitor: V,
    values: ArrayAttributeValues<'_, R, Binary32>,
    len: usize,
    out: Result<V::Output, Error>,
)
    requires
        call_ensures(<V as VisitAttribute>::visit_seq_f32::<R>, (visitor, values, len), out),
    ensures
        len == values.rest_elements,
        visitor.visits(
            AttributeModel::Array {
                ty: AttributeType::ArrF32,
                count: values.rest_elements,
                content: values.decoder.content(),
            },
            out,
        ),
{
}

/// A visitor that is handed an array of 64-bit floating point numbers is told how
/// many are left, and answers to the array of these.
pub proof fn lemma_array_of_f64_is_handed_over<V: VisitAttribute, R: ParserSource>(
    visitor: V,
    values: ArrayAttributeValues<'_, R, Binary64>,
    len: usize,
    out: Result<V::Output, Error>,
)
    requires
        call_ensures(<V as VisitAttribute>::visit_seq_f64::<R>, (visitor, values, len), out),
    ensures
        len == values.rest_elements,
        visitor.visits(
            AttributeModel::Array {
                ty: AttributeType::ArrF64,
                count: values.rest_elements,
                content: values.decoder.content(),
            },
            out,
        ),
{
}

/// A visitor that is handed bytes is told their length, and answers to these bytes.
pub proof fn lemma_bytes_are_handed_over<V: VisitAttribute, R: ParserSource>(
    visitor: V,
    reader: &mut AttributeReader<R>,
    len: u64,
    out: Result<V::Output, Error>,
)
    requires
        call_ensures(<V as VisitAttribute>::visit_binary::<R>, (visitor, reader, len), out),
    ensures
        len == old(reader).limit(),
        visitor.visits(
            AttributeModel::Binary { payload: old(reader).payload(), buffered: false },
            out,
        ),
{
}

/// A visitor that is handed text is told its length in bytes, and answers to this text.
pub proof fn lemma_text_is_handed_over<V: VisitAttribute, R: ParserSource>(
    visitor: V,
    reader: &mut AttributeReader<R>,
    len: u64,
    out: Result<V::Output, Error>,
)
    requires
        call_ensures(<V as VisitAttribute>::visit_string::<R>, (visitor, reader, len), out),
    ensures
        len == old(reader).limit(),
        visitor.visits(
            AttributeModel::Text { payload: old(reader).payload(), buffered: false },
            out,
        ),
{
}

/// So does one that is handed bytes from a source that can show bytes before they are taken.
pub proof fn lemma_shown_bytes_are_handed_over<V: VisitAttribute, R: BufferedSource>(
    visitor: V,
    reader: &mut AttributeReader<R>,
    len: u64,
    out: Result<V::Output, Error>,
)
    requires
        call_ensures(<V as VisitAttribute>::visit_binary_buffered::<R>, (visitor, reader, len), out),
    ensures
        len == old(reader).limit(),
        visitor.visits(
            AttributeModel::Binary { payload: old(reader).payload(), buffered: true },
            out,
        ),
{
}

/// So does one that is handed text from a source that can show bytes before they are taken.
pub proof fn lemma_shown_text_is_handed_over<V: VisitAttribute, R: BufferedSource>(
    visitor: V,
    reader: &mut AttributeReader<R>,
    len: u64,
    out: Result<V::Output, Error>,
)
    requires
        call_ensures(<V as VisitAttribute>::visit_string_buffered::<R>, (visitor, reader, len), out),
    ensures
        len == old(reader).limit(),
        visitor.visits(
            AttributeModel::Text { payload: old(reader).payload(), buffered: true },
            out,
        ),
{
}

} // verus!
