//! Headers that are written down are read back by a parser.
use vstd::prelude::*;

use crate::low::encoding::{
    array_header_bytes, footer_bytes, le_bytes, lemma_array_header_is_read_back,
    lemma_attribute_type_is_read_back, lemma_content_length_is_read_back,
    lemma_footer_is_read_back, lemma_node_header_is_read_back,
    lemma_other_letters_are_refused, letter_of, starts_with,
};
use crate::low::v7400::{
    ArrayAttributeEncoding, ArrayAttributeHeader, AttributeType, FbxFooter, NodeHeader,
    SpecialAttributeHeader,
};
use crate::pull_parser::error::{DataError, Error, ErrorKind};
use crate::pull_parser::reader::{IoError, ParserSource};
use crate::pull_parser::v7400::from_parser::FromParser;
use crate::pull_parser::v7400::grammar::header_len;
use crate::pull_parser::v7400::numbers::ReadBack;
use crate::pull_parser::v7400::parser::Parser;
use crate::pull_parser::v7400::read::{obtains, FromReader};
use crate::pull_parser::v7400::reading::WrittenHeader;
use crate::pull_parser::warning::WarningHandler;

verus! {

/// A parser reads the header of a node as it is written, in the width of the version of the
/// document, and goes on behind it.
pub proof fn lemma_written_node_header_is_read<R: ParserSource, W: WarningHandler>(
    parser: &mut Parser<R, W>,
    h: WrittenHeader,
    r: Result<NodeHeader, Error>,
)
    requires
        old(parser).wf(),
        old(parser).source().failures() == Set::<IoError>::empty(),
        h.fits(old(parser).state().version),
        starts_with(old(parser).stream().rest, h.bytes(old(parser).state().version)),
        call_ensures(<NodeHeader as FromParser>::read_from_parser::<R, W>, (parser,), r),
    ensures
        r == Ok::<NodeHeader, Error>(
            NodeHeader {
                end_offset: h.end,
                num_attributes: h.attributes,
                bytelen_attributes: h.attributes_len,
                bytelen_name: h.name_len,
            },
        ),
        final(parser).stream().pos == old(parser).stream().pos + header_len(
            old(parser).state().version,
        ),
        final(parser).stream().rest == old(parser).stream().rest.skip(
            header_len(old(parser).state().version) as int,
        ),
        final(parser).state() == old(parser).state(),
{
    lemma_node_header_is_read_back(
        old(parser).state().version,
        h.end,
        h.attributes,
        h.attributes_len,
        h.name_len,
        old(parser).stream().rest,
    );
}

/// A parser reads a footer as it is written.
pub proof fn lemma_written_footer_is_read<R: ParserSource, W: WarningHandler>(
    parser: &mut Parser<R, W>,
    first: Seq<u8>,
    padding: nat,
    last: Seq<u8>,
    r: Result<FbxFooter, Error>,
)
    requires
        old(parser).wf(),
        old(parser).source().failures() == Set::<IoError>::empty(),
        first.len() == 16,
        last.len() == 16,
        padding < 16,
        (old(parser).stream().pos + padding) % 16 == 0,
        starts_with(
            old(parser).stream().rest,
            footer_bytes(first, padding, old(parser).state().version, last),
        ),
        call_ensures(<FbxFooter as FromParser>::read_from_parser::<R, W>, (parser,), r),
    ensures
        r matches Ok(footer) && footer.unknown1@ == first && footer.padding_len == padding
            && footer.fbx_version == old(parser).state().version && footer.unknown3@ == last,
        final(parser).stream().pos == old(parser).stream().pos + 160 + padding,
{
    lemma_footer_is_read_back(
        old(parser).state().version,
        first,
        padding,
        last,
        old(parser).stream(),
    );
}

/// The header of an array is read as it is written. One that is marked neither as plain nor
/// as compressed is refused.
pub proof fn lemma_written_array_header_is_read<S: ParserSource>(
    reader: &mut S,
    count: u32,
    encoding: u32,
    bytelen: u32,
    r: Result<ArrayAttributeHeader, Error>,
)
    requires
        old(reader).failures() == Set::<IoError>::empty(),
        starts_with(old(reader).stream().rest, array_header_bytes(count, encoding, bytelen)),
        call_ensures(<ArrayAttributeHeader as FromReader>::from_reader::<S>, (reader,), r),
    ensures
        match r {
            Ok(header) => {
                &&& header.elements_count == count
                &&& header.encoding == ArrayAttributeEncoding::Direct <==> encoding == 0
                &&& header.encoding == ArrayAttributeEncoding::Zlib <==> encoding == 1
                &&& header.bytelen == bytelen
                &&& final(reader).stream().pos == old(reader).stream().pos + 12
            },
            Err(e) => {
                &&& encoding > 1
                &&& e.position is None
                &&& e.kind == ErrorKind::Data(DataError::InvalidArrayAttributeEncoding(encoding))
            },
        },
{
    lemma_array_header_is_read_back(count, encoding, bytelen, old(reader).stream().rest);
}

/// The length of bytes or text is read as it is written.
pub proof fn lemma_written_length_is_read<S: ParserSource>(
    reader: &mut S,
    bytelen: u32,
    r: Result<SpecialAttributeHeader, Error>,
)
    requires
        old(reader).failures() == Set::<IoError>::empty(),
        starts_with(old(reader).stream().rest, le_bytes(bytelen as nat, 4)),
        call_ensures(<SpecialAttributeHeader as FromReader>::from_reader::<S>, (reader,), r),
    ensures
        r == Ok::<SpecialAttributeHeader, Error>(SpecialAttributeHeader { bytelen }),
        final(reader).stream().pos == old(reader).stream().pos + 4,
{
    lemma_content_length_is_read_back(bytelen, old(reader).stream().rest);
}

/// The type of an attribute is read as it is written. A byte that stands for no type is
/// refused.
pub proof fn lemma_written_type_is_read<S: ParserSource>(
    reader: &mut S,
    letter: u8,
    r: Result<AttributeType, Error>,
)
    requires
        old(reader).failures() == Set::<IoError>::empty(),
        starts_with(old(reader).stream().rest, seq![letter]),
        call_ensures(<AttributeType as FromReader>::from_reader::<S>, (reader,), r),
    ensures
        match r {
            Ok(ty) => letter_of(ty) as u8 == letter,
            Err(e) => {
                &&& forall|ty: AttributeType| letter != #[trigger] letter_of(ty) as u8
                &&& e.position is None
                &&& e.kind == ErrorKind::Data(DataError::InvalidAttributeTypeCode(letter))
            },
        },
        r is Ok ==> final(reader).stream().pos == old(reader).stream().pos + 1,
{
    let rest = old(reader).stream().rest;
    assert(rest[0] == rest.take(1)[0]);
    lemma_other_letters_are_refused(rest);
    if let Err(e) = r {
        assert forall|ty: AttributeType| letter != #[trigger] letter_of(ty) as u8 by {
            if letter == letter_of(ty) as u8 {
                lemma_attribute_type_is_read_back(ty, rest);
            }
        }
    }
    if let Ok(ty) = r {
        if forall|ty: AttributeType| letter != #[trigger] letter_of(ty) as u8 {
            assert(false);
        }
        let other = choose|other: AttributeType| letter == #[trigger] letter_of(other) as u8;
        lemma_attribute_type_is_read_back(other, rest);
    }
}

/// A parser reads a number as it is written.
pub proof fn lemma_written_number_is_read<T: ReadBack, R: ParserSource, W: WarningHandler>(
    parser: &mut Parser<R, W>,
    value: T,
    r: Result<T, Error>,
)
    requires
        old(parser).wf(),
        old(parser).source().failures() == Set::<IoError>::empty(),
        starts_with(old(parser).stream().rest, value.bytes_of()),
        call_ensures(<T as FromParser>::read_from_parser::<R, W>, (parser,), r),
    ensures
        r == Ok::<T, Error>(value),
        final(parser).stream().pos == old(parser).stream().pos + T::width(),
        final(parser).state() == old(parser).state(),
{
    let s = old(parser).stream();
    value.lemma_is_read_back(s.rest);
    assert(obtains(T::decode(s.rest), old(parser).source(), final(parser).source(), r));
    if let Ok(got) = r {
        got.lemma_stands_for_itself();
    }
}

/// Headers say the numbers that they hold.
pub proof fn lemma_headers_say_their_numbers(
    array: ArrayAttributeHeader,
    count: u32,
    encoding: ArrayAttributeEncoding,
    bytelen: u32,
    special: SpecialAttributeHeader,
    len: u32,
)
    requires
        call_ensures(ArrayAttributeHeader::elements_count, (&array,), count),
        call_ensures(ArrayAttributeHeader::encoding, (&array,), encoding),
        call_ensures(ArrayAttributeHeader::bytelen, (&array,), bytelen),
        call_ensures(SpecialAttributeHeader::bytelen, (&special,), len),
    ensures
        array == (ArrayAttributeHeader { elements_count: count, encoding, bytelen }),
        special == (SpecialAttributeHeader { bytelen: len }),
{
}

} // verus!
