//! Visitors of attributes.
use vstd::prelude::*;

use crate::low::v7400::{AttributeType, Binary32, Binary64};
use crate::pull_parser::error::Error;
use crate::pull_parser::reader::{BufferedSource, ParserSource};
use crate::pull_parser::v7400::attribute::array::{
    ArrayAttributeValues, BooleanArrayAttributeValues,
};
use crate::pull_parser::v7400::attribute::payload::{AttributeReader, Payload};

verus! {

/// An attribute as a visitor gets to see it.
pub ghost enum AttributeModel {
    Bool(bool),
    I16(i16),
    I32(i32),
    I64(i64),
    F32(Binary32),
    F64(Binary64),
    /// An array with the given number of elements, which are to be read from the
    /// given content, decompressed if need be.
    Array { ty: AttributeType, count: u32, content: Payload },
    /// Bytes, from a source that may be known to show bytes before they are
    /// taken.
    Binary { payload: Payload, buffered: bool },
    /// Text, from a source that may be known to show bytes before they are taken.
    Text { payload: Payload, buffered: bool },
}

/// Something that makes a value of an attribute.
pub trait VisitAttribute: Sized {
    /// The value.
    type Output;

    /// Whether the visitor may answer `attribute` with `out`.
    ///
    /// A visitor that does not say may answer anything.
    open spec fn visits(self, attribute: AttributeModel, out: Result<Self::Output, Error>) -> bool {
        true
    }

    /// Visits a `bool`.
    fn visit_bool(self, value: bool) -> (out: Result<Self::Output, Error>)
        ensures
            self.visits(AttributeModel::Bool(value), out),
    ;

    /// Visits an `i16`.
    fn visit_i16(self, value: i16) -> (out: Result<Self::Output, Error>)
        ensures
            self.visits(AttributeModel::I16(value), out),
    ;

    /// Visits an `i32`.
    fn visit_i32(self, value: i32) -> (out: Result<Self::Output, Error>)
        ensures
            self.visits(AttributeModel::I32(value), out),
    ;

    /// Visits an `i64`.
    fn visit_i64(self, value: i64) -> (out: Result<Self::Output, Error>)
        ensures
            self.visits(AttributeModel::I64(value), out),
    ;

    /// Visits a 32-bit floating point number.
    fn visit_f32(self, value: Binary32) -> (out: Result<Self::Output, Error>)
        ensures
            self.visits(AttributeModel::F32(value), out),
    ;

    /// Visits a 64-bit floating point number.
    fn visit_f64(self, value: Binary64) -> (out: Result<Self::Output, Error>)
        ensures
            self.visits(AttributeModel::F64(value), out),
    ;

    /// Visits an array of `bool`.
    fn visit_seq_bool<R: ParserSource>(
        self,
        values: &mut BooleanArrayAttributeValues<'_, R>,
        len: usize,
    ) -> (out: Result<Self::Output, Error>)
        requires
            old(values).decoder.wf(),
            old(values).rest_elements == len,
            !old(values).has_error,
        ensures
            len == old(values).rest_elements,
            self.visits(
                AttributeModel::Array {
                    ty: AttributeType::ArrBool,
                    count: old(values).rest_elements,
                    content: old(values).decoder.content(),
                },
                out,
            ),
            old(values).decoder.reader.leads_to(*final(values).decoder.reader),
            *final(final(values).decoder.reader) == *final(old(values).decoder.reader),
    ;

    /// Visits an array of `i32`.
    fn visit_seq_i32<R: ParserSource>(
        self,
        values: ArrayAttributeValues<'_, R, i32>,
        len: usize,
    ) -> (out: Result<Self::Output, Error>)
        requires
            values.decoder.wf(),
            values.rest_elements == len,
            !values.has_error,
        ensures
            len == values.rest_elements,
            self.visits(
                AttributeModel::Array {
                    ty: AttributeType::ArrI32,
                    count: values.rest_elements,
                    content: values.decoder.content(),
                },
                out,
            ),
            old(values.decoder.reader).leads_to(*final(values.decoder.reader)),
    ;

    /// Visits an array of `i64`.
    fn visit_seq_i64<R: ParserSource>(
        self,
        values: ArrayAttributeValues<'_, R, i64>,
        len: usize,
    ) -> (out: Result<Self::Output, Error>)
        requires
            values.decoder.wf(),
            values.rest_elements == len,
            !values.has_error,
        ensures
            len == values.rest_elements,
            self.visits(
                AttributeModel::Array {
                    ty: AttributeType::ArrI64,
                    count: values.rest_elements,
                    content: values.decoder.content(),
                },
                out,
            ),
            old(values.decoder.reader).leads_to(*final(values.decoder.reader)),
    ;

    /// Visits an array of 32-bit floating point numbers.
    fn visit_seq_f32<R: ParserSource>(
        self,
        values: ArrayAttributeValues<'_, R, Binary32>,
        len: usize,
    ) -> (out: Result<Self::Output, Error>)
        requires
            values.decoder.wf(),
            values.rest_elements == len,
            !values.has_error,
        ensures
            len == values.rest_elements,
            self.visits(
                AttributeModel::Array {
                    ty: AttributeType::ArrF32,
                    count: values.rest_elements,
                    content: values.decoder.content(),
                },
                out,
            ),
            old(values.decoder.reader).leads_to(*final(values.decoder.reader)),
    ;

    /// Visits an array of 64-bit floating point numbers.
    fn visit_seq_f64<R: ParserSource>(
        self,
        values: ArrayAttributeValues<'_, R, Binary64>,
        len: usize,
    ) -> (out: Result<Self::Output, Error>)
        requires
            values.decoder.wf(),
            values.rest_elements == len,
            !values.has_error,
        ensures
            len == values.rest_elements,
            self.visits(
                AttributeModel::Array {
                    ty: AttributeType::ArrF64,
                    count: values.rest_elements,
                    content: values.decoder.content(),
                },
                out,
            ),
            old(values.decoder.reader).leads_to(*final(values.decoder.reader)),
    ;

    /// Visits bytes.
    fn visit_binary<R: ParserSource>(
        self,
        reader: &mut AttributeReader<R>,
        len: u64,
    ) -> (out: Result<Self::Output, Error>)
        requires
            old(reader).wf(),
            old(reader).limit() == len,
        ensures
            len == old(reader).limit(),
            self.visits(
                AttributeModel::Binary { payload: old(reader).payload(), buffered: false },
                out,
            ),
            old(reader).leads_to(*final(reader)),
    ;

    /// Visits text.
    fn visit_string<R: ParserSource>(
        self,
        reader: &mut AttributeReader<R>,
        len: u64,
    ) -> (out: Result<Self::Output, Error>)
        requires
            old(reader).wf(),
            old(reader).limit() == len,
        ensures
            len == old(reader).limit(),
            self.visits(
                AttributeModel::Text { payload: old(reader).payload(), buffered: false },
                out,
            ),
            old(reader).leads_to(*final(reader)),
    ;

    /// Visits bytes of a source that can show bytes before they are taken.
    fn visit_binary_buffered<R: BufferedSource>(
        self,
        reader: &mut AttributeReader<R>,
        len: u64,
    ) -> (out: Result<Self::Output, Error>)
        requires
            old(reader).wf(),
            old(reader).limit() == len,
        ensures
            len == old(reader).limit(),
            self.visits(
                AttributeModel::Binary { payload: old(reader).payload(), buffered: true },
                out,
            ),
            old(reader).leads_to(*final(reader)),
    ;

    /// Visits text of a source that can show bytes before they are taken.
    fn visit_string_buffered<R: BufferedSource>(
        self,
        reader: &mut AttributeReader<R>,
        len: u64,
    ) -> (out: Result<Self::Output, Error>)
        requires
            old(reader).wf(),
            old(reader).limit() == len,
        ensures
            len == old(reader).limit(),
            self.visits(
                AttributeModel::Text { payload: old(reader).payload(), buffered: true },
                out,
            ),
            old(reader).leads_to(*final(reader)),
    ;
}

} // verus!
