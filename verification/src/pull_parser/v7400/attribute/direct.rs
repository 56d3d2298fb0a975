//! Attributes as plain values.
use vstd::prelude::*;
use vstd::utf8::{decode_utf8, valid_utf8};

use crate::low::v7400::{AttributeType, Binary32, Binary64};
use crate::pull_parser::error::{DataError, DataFault, Error, ErrorModel};
use crate::pull_parser::reader::{
    lemma_reaches_reflexive, lemma_reaches_transitive, BufferedSource, IoError, ParserSource,
};
use crate::pull_parser::v7400::attribute::array::{
    bool_of, bools_in, elements_in, ArrayAttributeValues, ArrayElement,
    BooleanArrayAttributeValues,
};
use crate::pull_parser::v7400::attribute::payload::{load_content, AttributeReader, Payload};
use crate::pull_parser::v7400::attribute::visitor::{AttributeModel, VisitAttribute};
use crate::pull_parser::v7400::read::input_failure;
use crate::pull_parser::v7400::text::string_from_utf8;

verus! {

/// The value of an attribute.
#[derive(Debug, PartialEq, Eq, Hash)]
pub enum DirectAttributeValue {
    /// Single `bool`.
    Bool(bool),
    /// Single `i16`.
    I16(i16),
    /// Single `i32`.
    I32(i32),
    /// Single `i64`.
    I64(i64),
    /// Single 32-bit floating point number.
    F32(Binary32),
    /// Single 64-bit floating point number.
    F64(Binary64),
    /// Array of `bool`.
    ArrBool(Vec<bool>),
    /// Array of `i32`.
    ArrI32(Vec<i32>),
    /// Array of `i64`.
    ArrI64(Vec<i64>),
    /// Array of 32-bit floating point numbers.
    ArrF32(Vec<Binary32>),
    /// Array of 64-bit floating point numbers.
    ArrF64(Vec<Binary64>),
    /// Bytes.
    Binary(Vec<u8>),
    /// Text.
    String(String),
}

/// What a [`DirectAttributeValue`] says.
pub ghost enum ValueModel {
    Bool(bool),
    I16(i16),
    I32(i32),
    I64(i64),
    F32(Binary32),
    F64(Binary64),
    ArrBool(Seq<bool>),
    ArrI32(Seq<i32>),
    ArrI64(Seq<i64>),
    ArrF32(Seq<Binary32>),
    ArrF64(Seq<Binary64>),
    Binary(Seq<u8>),
    String(Seq<char>),
}

impl View for DirectAttributeValue {
    type V = ValueModel;

    open spec fn view(&self) -> ValueModel {
        match self {
            DirectAttributeValue::Bool(value) => ValueModel::Bool(*value),
            DirectAttributeValue::I16(value) => ValueModel::I16(*value),
            DirectAttributeValue::I32(value) => ValueModel::I32(*value),
            DirectAttributeValue::I64(value) => ValueModel::I64(*value),
            DirectAttributeValue::F32(value) => ValueModel::F32(*value),
            DirectAttributeValue::F64(value) => ValueModel::F64(*value),
            DirectAttributeValue::ArrBool(values) => ValueModel::ArrBool(values@),
            DirectAttributeValue::ArrI32(values) => ValueModel::ArrI32(values@),
            DirectAttributeValue::ArrI64(values) => ValueModel::ArrI64(values@),
            DirectAttributeValue::ArrF32(values) => ValueModel::ArrF32(values@),
            DirectAttributeValue::ArrF64(values) => ValueModel::ArrF64(values@),
            DirectAttributeValue::Binary(values) => ValueModel::Binary(values@),
            DirectAttributeValue::String(text) => ValueModel::String(text@),
        }
    }
}

impl Clone for DirectAttributeValue {
    fn clone(&self) -> (copy: Self)
        ensures
            copy@ == self@,
    {
        match self {
            DirectAttributeValue::Bool(value) => DirectAttributeValue::Bool(*value),
            DirectAttributeValue::I16(value) => DirectAttributeValue::I16(*value),
            DirectAttributeValue::I32(value) => DirectAttributeValue::I32(*value),
            DirectAttributeValue::I64(value) => DirectAttributeValue::I64(*value),
            DirectAttributeValue::F32(value) => DirectAttributeValue::F32(*value),
            DirectAttributeValue::F64(value) => DirectAttributeValue::F64(*value),
            DirectAttributeValue::ArrBool(values) => {
                let copy = values.clone();
                assert(copy@ =~= values@);
                DirectAttributeValue::ArrBool(copy)
            },
            DirectAttributeValue::ArrI32(values) => {
                let copy = values.clone();
                assert(copy@ =~= values@);
                DirectAttributeValue::ArrI32(copy)
            },
            DirectAttributeValue::ArrI64(values) => {
                let copy = values.clone();
                assert(copy@ =~= values@);
                DirectAttributeValue::ArrI64(copy)
            },
            DirectAttributeValue::ArrF32(values) => {
                let copy = values.clone();
                assert(copy@ =~= values@);
                DirectAttributeValue::ArrF32(copy)
            },
            DirectAttributeValue::ArrF64(values) => {
                let copy = values.clone();
                assert(copy@ =~= values@);
                DirectAttributeValue::ArrF64(copy)
            },
            DirectAttributeValue::Binary(values) => {
                let copy = values.clone();
                assert(copy@ =~= values@);
                DirectAttributeValue::Binary(copy)
            },
            DirectAttributeValue::String(text) => DirectAttributeValue::String(text.clone()),
        }
    }
}

/// Whether `r` may come of loading an array of the given number of elements, which
/// are `want` if they are all there.
pub open spec fn loads<T>(
    want: Option<Seq<T>>,
    count: u32,
    failures: Set<IoError>,
    r: Result<Vec<T>, Error>,
) -> bool {
    match r {
        Ok(values) => want == Some(values@),
        Err(e) => count > 0 && input_failure(failures, want is None, e),
    }
}

/// Loads all elements of an array of numbers.
fn load_elements<R: ParserSource, T: ArrayElement>(values: ArrayAttributeValues<'_, R, T>) -> (r:
    Result<Vec<T>, Error>)
    requires
        values.decoder.wf(),
        !values.has_error,
    ensures
        old(values.decoder.reader).leads_to(*final(values.decoder.reader)),
        loads(
            elements_in::<T>(values.decoder.content().data, values.rest_elements as nat),
            values.rest_elements,
            values.decoder.content().failures,
            r,
        ),
{
    let mut left = values;
    let mut loaded: Vec<T> = Vec::new();
    let ghost start = *left.decoder.reader;
    let ghost count = left.rest_elements;
    let ghost content = left.decoder.content();
    let ghost want = elements_in::<T>(content.data, count as nat);
    proof {
        lemma_reaches_reflexive(start.source().stream());
        if let Some(others) = want {
            assert(Seq::<T>::empty() + others =~= others);
        }
    }
    loop
        invariant
            start == *values.decoder.reader,
            count == values.rest_elements,
            content == values.decoder.content(),
            want == elements_in::<T>(content.data, count as nat),
            !left.has_error,
            left.rest_elements <= count,
            left.decoder.wf(),
            left.decoder.content().failures == content.failures,
            start.leads_to(*left.decoder.reader),
            *final(left.decoder.reader) == *final(values.decoder.reader),
            want == match elements_in::<T>(
                left.decoder.content().data,
                left.rest_elements as nat,
            ) {
                Some(others) => Some(loaded@ + others),
                None => None,
            },
        decreases left.rest_elements,
    {
        let ghost before = *left.decoder.reader;
        let ghost rest = left.rest_elements;
        let ghost so_far = loaded@;
        let next = left.next();
        proof {
            lemma_reaches_transitive(
                start.source().stream(),
                before.source().stream(),
                left.decoder.reader.source().stream(),
            );
        }
        match next {
            Some(Ok(value)) => {
                loaded.push(value);
                proof {
                    let data = left.decoder.content().data;
                    if let Some(others) = elements_in::<T>(data, (rest - 1) as nat) {
                        assert(so_far + (seq![value] + others) =~= loaded@ + others);
                    }
                }
            },
            Some(Err(e)) => {
                return Err(e);
            },
            None => {
                assert(loaded@ + Seq::<T>::empty() =~= loaded@);
                return Ok(loaded);
            },
        }
    }
}

/// Loads all elements of an array of truth values.
fn load_bools<R: ParserSource>(values: &mut BooleanArrayAttributeValues<'_, R>) -> (r: Result<
    Vec<bool>,
    Error,
>)
    requires
        old(values).decoder.wf(),
        !old(values).has_error,
    ensures
        *final(final(values).decoder.reader) == *final(old(values).decoder.reader),
        old(values).decoder.reader.leads_to(*final(values).decoder.reader),
        loads(
            bools_in(old(values).decoder.content().data, old(values).rest_elements as nat),
            old(values).rest_elements,
            old(values).decoder.content().failures,
            r,
        ),
{
    let mut loaded: Vec<bool> = Vec::new();
    let ghost start = *values.decoder.reader;
    let ghost content = values.decoder.content();
    let ghost data = content.data;
    let ghost count = values.rest_elements;
    proof {
        lemma_reaches_reflexive(start.source().stream());
        assert(data.skip(0) =~= data);
    }
    loop
        invariant
            start == *old(values).decoder.reader,
            content == old(values).decoder.content(),
            data == content.data,
            count == old(values).rest_elements,
            !values.has_error,
            values.rest_elements + loaded@.len() == count,
            values.decoder.wf(),
            values.decoder.content().failures == content.failures,
            start.leads_to(*values.decoder.reader),
            *final(values.decoder.reader) == *final(old(values).decoder.reader),
            loaded@.len() <= data.len(),
            values.decoder.content().data == data.skip(loaded@.len() as int),
            forall|i: int| 0 <= i < loaded@.len() ==> loaded@[i] == bool_of(data[i]),
        decreases values.rest_elements,
    {
        let ghost before = *values.decoder.reader;
        let next = values.next();
        proof {
            lemma_reaches_transitive(
                start.source().stream(),
                before.source().stream(),
                values.decoder.reader.source().stream(),
            );
        }
        match next {
            Some(Ok(value)) => {
                loaded.push(value);
                proof {
                    let left = values.decoder.content().data;
                    assert(left =~= data.skip(loaded@.len() as int));
                }
            },
            Some(Err(e)) => {
                return Err(e);
            },
            None => {
                assert(loaded@ =~= bools_in(data, count as nat).unwrap());
                return Ok(loaded);
            },
        }
    }
}

/// Loads the whole text of an attribute.
fn load_text<R: ParserSource>(reader: &mut AttributeReader<R>) -> (r: Result<String, Error>)
    requires
        old(reader).wf(),
    ensures
        old(reader).leads_to(*final(reader)),
        text_loads(old(reader).payload(), r),
{
    match load_content(reader) {
        Ok(content) => match string_from_utf8(content) {
            Ok(text) => Ok(text),
            Err(content) => Err(Error::data(DataError::InvalidStringEncoding(content))),
        },
        Err(e) => Err(e),
    }
}

/// Whether `r` may come of loading the text of an attribute.
pub open spec fn text_loads(payload: Payload, r: Result<String, Error>) -> bool {
    match r {
        Ok(text) => {
            &&& payload.data.len() == payload.len
            &&& valid_utf8(payload.data)
            &&& text@ == decode_utf8(payload.data)
        },
        Err(e) => {
            ||| {
                &&& payload.data.len() == payload.len
                &&& !valid_utf8(payload.data)
                &&& e@ == ErrorModel::data(DataFault::InvalidStringEncoding(payload.data))
            }
            ||| input_failure(payload.failures, payload.data.len() < payload.len, e)
        },
    }
}

/// Whether `out` may come of loading an attribute.
pub open spec fn value_loads(
    attribute: AttributeModel,
    out: Result<DirectAttributeValue, Error>,
) -> bool {
    match attribute {
        AttributeModel::Bool(value) => out == Ok::<DirectAttributeValue, Error>(
            DirectAttributeValue::Bool(value),
        ),
        AttributeModel::I16(value) => out == Ok::<DirectAttributeValue, Error>(
            DirectAttributeValue::I16(value),
        ),
        AttributeModel::I32(value) => out == Ok::<DirectAttributeValue, Error>(
            DirectAttributeValue::I32(value),
        ),
        AttributeModel::I64(value) => out == Ok::<DirectAttributeValue, Error>(
            DirectAttributeValue::I64(value),
        ),
        AttributeModel::F32(value) => out == Ok::<DirectAttributeValue, Error>(
            DirectAttributeValue::F32(value),
        ),
        AttributeModel::F64(value) => out == Ok::<DirectAttributeValue, Error>(
            DirectAttributeValue::F64(value),
        ),
        AttributeModel::Array { ty, count, content } => match ty {
            AttributeType::ArrBool => {
                let want = bools_in(content.data, count as nat);
                match out {
                    Ok(DirectAttributeValue::ArrBool(values)) => loads(
                        want,
                        count,
                        content.failures,
                        Ok(values),
                    ),
                    Ok(_) => false,
                    Err(e) => count > 0 && input_failure(content.failures, want is None, e),
                }
            },
            AttributeType::ArrI32 => {
                let want = elements_in::<i32>(content.data, count as nat);
                match out {
                    Ok(DirectAttributeValue::ArrI32(values)) => loads(
                        want,
                        count,
                        content.failures,
                        Ok(values),
                    ),
                    Ok(_) => false,
                    Err(e) => count > 0 && input_failure(content.failures, want is None, e),
                }
            },
            AttributeType::ArrI64 => {
                let want = elements_in::<i64>(content.data, count as nat);
                match out {
                    Ok(DirectAttributeValue::ArrI64(values)) => loads(
                        want,
                        count,
                        content.failures,
                        Ok(values),
                    ),
                    Ok(_) => false,
                    Err(e) => count > 0 && input_failure(content.failures, want is None, e),
                }
            },
            AttributeType::ArrF32 => {
                let want = elements_in::<Binary32>(content.data, count as nat);
                match out {
                    Ok(DirectAttributeValue::ArrF32(values)) => loads(
                        want,
                        count,
                        content.failures,
                        Ok(values),
                    ),
                    Ok(_) => false,
                    Err(e) => count > 0 && input_failure(content.failures, want is None, e),
                }
            },
            AttributeType::ArrF64 => {
                let want = elements_in::<Binary64>(content.data, count as nat);
                match out {
                    Ok(DirectAttributeValue::ArrF64(values)) => loads(
                        want,
                        count,
                        content.failures,
                        Ok(values),
                    ),
                    Ok(_) => false,
                    Err(e) => count > 0 && input_failure(content.failures, want is None, e),
                }
            },
            _ => false,
        },
        AttributeModel::Binary { payload, .. } => match out {
            Ok(DirectAttributeValue::Binary(content)) => {
                &&& content@ == payload.data
                &&& content@.len() == payload.len
            },
            Ok(_) => false,
            Err(e) => input_failure(payload.failures, payload.data.len() < payload.len, e),
        },
        AttributeModel::Text { payload, .. } => match out {
            Ok(DirectAttributeValue::String(text)) => text_loads(payload, Ok(text)),
            Ok(_) => false,
            Err(e) => text_loads(payload, Err(e)),
        },
    }
}

/// A visitor that loads an attribute whole.
#[derive(Debug, Clone, Copy, PartialEq, Eq, Hash)]
pub struct DirectLoader;

impl VisitAttribute for DirectLoader {
    type Output = DirectAttributeValue;

    open spec fn visits(
        self,
        attribute: AttributeModel,
        out: Result<DirectAttributeValue, Error>,
    ) -> bool {
        value_loads(attribute, out)
    }

    fn visit_bool(self, value: bool) -> (out: Result<DirectAttributeValue, Error>) {
        Ok(DirectAttributeValue::Bool(value))
    }

    fn visit_i16(self, value: i16) -> (out: Result<DirectAttributeValue, Error>) {
        Ok(DirectAttributeValue::I16(value))
    }

    fn visit_i32(self, value: i32) -> (out: Result<DirectAttributeValue, Error>) {
        Ok(DirectAttributeValue::I32(value))
    }

    fn visit_i64(self, value: i64) -> (out: Result<DirectAttributeValue, Error>) {
        Ok(DirectAttributeValue::I64(value))
    }

    fn visit_f32(self, value: Binary32) -> (out: Result<DirectAttributeValue, Error>) {
        Ok(DirectAttributeValue::F32(value))
    }

    fn visit_f64(self, value: Binary64) -> (out: Result<DirectAttributeValue, Error>) {
        Ok(DirectAttributeValue::F64(value))
    }

    fn visit_seq_bool<R: ParserSource>(
        self,
        values: &mut BooleanArrayAttributeValues<'_, R>,
        len: usize,
    ) -> (out: Result<DirectAttributeValue, Error>) {
        match load_bools(values) {
            Ok(values) => Ok(DirectAttributeValue::ArrBool(values)),
            Err(e) => Err(e),
        }
    }

    fn visit_seq_i32<R: ParserSource>(
        self,
        values: ArrayAttributeValues<'_, R, i32>,
        len: usize,
    ) -> (out: Result<DirectAttributeValue, Error>) {
        match load_elements(values) {
            Ok(values) => Ok(DirectAttributeValue::ArrI32(values)),
            Err(e) => Err(e),
        }
    }

    fn visit_seq_i64<R: ParserSource>(
        self,
        values: ArrayAttributeValues<'_, R, i64>,
        len: usize,
    ) -> (out: Result<DirectAttributeValue, Error>) {
        match load_elements(values) {
            Ok(values) => Ok(DirectAttributeValue::ArrI64(values)),
            Err(e) => Err(e),
        }
    }

    fn visit_seq_f32<R: ParserSource>(
        self,
        values: ArrayAttributeValues<'_, R, Binary32>,
        len: usize,
    ) -> (out: Result<DirectAttributeValue, Error>) {
        match load_elements(values) {
            Ok(values) => Ok(DirectAttributeValue::ArrF32(values)),
            Err(e) => Err(e),
        }
    }

    fn visit_seq_f64<R: ParserSource>(
        self,
        values: ArrayAttributeValues<'_, R, Binary64>,
        len: usize,
    ) -> (out: Result<DirectAttributeValue, Error>) {
        match load_elements(values) {
            Ok(values) => Ok(DirectAttributeValue::ArrF64(values)),
            Err(e) => Err(e),
        }
    }

    fn visit_binary<R: ParserSource>(
        self,
        reader: &mut AttributeReader<R>,
        len: u64,
    ) -> (out: Result<DirectAttributeValue, Error>) {
        match load_content(reader) {
            Ok(content) => Ok(DirectAttributeValue::Binary(content)),
            Err(e) => Err(e),
        }
    }

    fn visit_string<R: ParserSource>(
        self,
        reader: &mut AttributeReader<R>,
        len: u64,
    ) -> (out: Result<DirectAttributeValue, Error>) {
        match load_text(reader) {
            Ok(content) => Ok(DirectAttributeValue::String(content)),
            Err(e) => Err(e),
        }
    }

    fn visit_binary_buffered<R: BufferedSource>(
        self,
        reader: &mut AttributeReader<R>,
        len: u64,
    ) -> (out: Result<DirectAttributeValue, Error>) {
        match load_content(reader) {
            Ok(content) => Ok(DirectAttributeValue::Binary(content)),
            Err(e) => Err(e),
        }
    }

    fn visit_string_buffered<R: BufferedSource>(
        self,
        reader: &mut AttributeReader<R>,
        len: u64,
    ) -> (out: Result<DirectAttributeValue, Error>) {
        match load_text(reader) {
            Ok(content) => Ok(DirectAttributeValue::String(content)),
            Err(e) => Err(e),
        }
    }
}

/// Whether the input holds the whole attribute, in a form that can be loaded.
pub open spec fn loadable(attribute: AttributeModel) -> bool {
    match attribute {
        AttributeModel::Array { ty, count, content } => {
            &&& content.failures == Set::<IoError>::empty()
            &&& match ty {
                AttributeType::ArrBool => bools_in(content.data, count as nat) is Some,
                AttributeType::ArrI32 => elements_in::<i32>(content.data, count as nat) is Some,
                AttributeType::ArrI64 => elements_in::<i64>(content.data, count as nat) is Some,
                AttributeType::ArrF32 => elements_in::<Binary32>(
                    content.data,
                    count as nat,
                ) is Some,
                AttributeType::ArrF64 => elements_in::<Binary64>(
                    content.data,
                    count as nat,
                ) is Some,
                _ => false,
            }
        },
        AttributeModel::Binary { payload, .. } => {
            &&& payload.failures == Set::<IoError>::empty()
            &&& payload.data.len() == payload.len
        },
        AttributeModel::Text { payload, .. } => {
            &&& payload.failures == Set::<IoError>::empty()
            &&& payload.data.len() == payload.len
            &&& valid_utf8(payload.data)
        },
        _ => true,
    }
}

/// What can be loaded is loaded.
pub proof fn lemma_loadable_is_loaded(
    attribute: AttributeModel,
    out: Result<DirectAttributeValue, Error>,
)
    requires
        DirectLoader.visits(attribute, out),
        loadable(attribute),
    ensures
        out is Ok,
{
}

/// The given number of elements can be read from bytes exactly where the bytes are
/// long enough.
pub proof fn lemma_elements_need_their_bytes<T: ArrayElement>(data: Seq<u8>, count: nat)
    ensures
        elements_in::<T>(data, count) is Some <==> count * T::byte_len() <= data.len(),
        elements_in::<T>(data, count) matches Some(values) ==> values.len() == count,
    decreases count,
{
    T::lemma_byte_len();
    let len = T::byte_len();
    if count > 0 {
        let rest = (count - 1) as nat;
        assert(count * len == rest * len + len) by (nonlinear_arith)
            requires
                count == rest + 1,
        ;
        if data.len() >= len {
            lemma_elements_need_their_bytes::<T>(data.skip(len as int), rest);
        } else {
            assert(rest * len >= 0) by (nonlinear_arith);
        }
    } else {
        assert(count * len == 0) by (nonlinear_arith)
            requires
                count == 0,
        ;
    }
}

} // verus!
