//! How data are written down, and that what is written is read back.
use vstd::prelude::*;

use crate::low::bytes::{le_value, signed_value};
use crate::low::v7400::footer::FooterModel;
use crate::low::v7400::{
    ArrayAttributeEncoding, ArrayAttributeHeader, AttributeType, FbxFooter, NodeHeader,
    SpecialAttributeHeader,
};
use crate::low::{magic, FbxHeader, FbxVersion, HeaderError, HEADER_LEN};
use crate::pull_parser::error::{DataFault, Decoded};
use crate::pull_parser::reader::Stream;

verus! {

/// The given number as bytes, lowest byte first.
pub open spec fn le_bytes(value: nat, width: nat) -> Seq<u8>
    decreases width,
{
    if width == 0 {
        Seq::empty()
    } else {
        seq![(value % 256) as u8] + le_bytes(value / 256, (width - 1) as nat)
    }
}

/// How many numbers the given number of bytes can tell apart.
pub open spec fn limit(width: nat) -> nat
    decreases width,
{
    if width == 0 {
        1
    } else {
        256 * limit((width - 1) as nat)
    }
}

/// The number that stands for a signed integer in two's complement.
pub open spec fn complement(value: int, width: nat) -> nat {
    if value < 0 {
        (value + limit(width)) as nat
    } else {
        value as nat
    }
}

/// What the bytes can tell apart, in numbers.
pub proof fn lemma_limits()
    ensures
        limit(1) == 0x100,
        limit(2) == 0x1_0000,
        limit(4) == 0x1_0000_0000,
        limit(8) == 0x1_0000_0000_0000_0000,
{
    reveal_with_fuel(limit, 9);
}

/// A number that is written in as many bytes as it needs is read back.
pub proof fn lemma_number_is_read_back(value: nat, width: nat)
    ensures
        le_bytes(value, width).len() == width,
        value < limit(width) ==> le_value(le_bytes(value, width)) == value,
    decreases width,
{
    if width > 0 {
        let rest = (width - 1) as nat;
        lemma_number_is_read_back(value / 256, rest);
        assert(le_bytes(value, width).drop_first() =~= le_bytes(value / 256, rest));
    }
}

/// Bytes that are read as a number are what the number is written as. So no two of
/// them are read as the same number.
pub proof fn lemma_bytes_are_written_back(bytes: Seq<u8>)
    ensures
        le_bytes(le_value(bytes), bytes.len()) == bytes,
        le_value(bytes) < limit(bytes.len()),
    decreases bytes.len(),
{
    if bytes.len() > 0 {
        let tail = bytes.drop_first();
        lemma_bytes_are_written_back(tail);
        assert(bytes =~= seq![bytes[0]] + tail);
    }
}

/// A signed integer that is written in two's complement is read back.
pub proof fn lemma_signed_is_read_back(value: int, width: nat)
    requires
        width > 0,
        -limit(width) <= 2 * value < limit(width),
    ensures
        complement(value, width) < limit(width),
        signed_value(complement(value, width), limit(width)) == value,
{
}

/// Whether `bytes` starts with `start`.
pub open spec fn starts_with(bytes: Seq<u8>, start: Seq<u8>) -> bool {
    &&& start.len() <= bytes.len()
    &&& bytes.take(start.len() as int) == start
}

/// The number of bytes of the wide fields of a node header: four before FBX 7.5, eight
/// from then on.
pub open spec fn wide_len(version: FbxVersion) -> nat {
    if version.0 < 7500 {
        4
    } else {
        8
    }
}

/// A node header as it is written.
pub open spec fn node_header_bytes(
    version: FbxVersion,
    end_offset: u64,
    num_attributes: u64,
    bytelen_attributes: u64,
    bytelen_name: u8,
) -> Seq<u8> {
    let w = wide_len(version);
    le_bytes(end_offset as nat, w) + le_bytes(num_attributes as nat, w) + le_bytes(
        bytelen_attributes as nat,
        w,
    ) + seq![bytelen_name]
}

/// Whether the number fits in a wide field of a node header.
pub open spec fn fits(version: FbxVersion, value: u64) -> bool {
    version.0 < 7500 ==> value <= 0xffff_ffff
}

/// A node header that is written is read back, whatever follows it.
pub proof fn lemma_node_header_is_read_back(
    version: FbxVersion,
    end_offset: u64,
    num_attributes: u64,
    bytelen_attributes: u64,
    bytelen_name: u8,
    bytes: Seq<u8>,
)
    requires
        fits(version, end_offset),
        fits(version, num_attributes),
        fits(version, bytelen_attributes),
        starts_with(
            bytes,
            node_header_bytes(
                version,
                end_offset,
                num_attributes,
                bytelen_attributes,
                bytelen_name,
            ),
        ),
    ensures
        NodeHeader::decode(version, bytes) == Decoded::Value(
            NodeHeader { end_offset, num_attributes, bytelen_attributes, bytelen_name },
            3 * wide_len(version) + 1,
        ),
{
    let w = wide_len(version);
    lemma_limits();
    lemma_number_is_read_back(end_offset as nat, w);
    lemma_number_is_read_back(num_attributes as nat, w);
    lemma_number_is_read_back(bytelen_attributes as nat, w);
    let start = node_header_bytes(
        version,
        end_offset,
        num_attributes,
        bytelen_attributes,
        bytelen_name,
    );
    let head = bytes.take(start.len() as int);
    assert(bytes.subrange(0, w as int) =~= head.subrange(0, w as int));
    assert(head.subrange(0, w as int) =~= le_bytes(end_offset as nat, w));
    assert(bytes.subrange(w as int, 2 * w as int) =~= head.subrange(w as int, 2 * w as int));
    assert(head.subrange(w as int, 2 * w as int) =~= le_bytes(num_attributes as nat, w));
    assert(bytes.subrange(2 * w as int, 3 * w as int) =~= head.subrange(
        2 * w as int,
        3 * w as int,
    ));
    assert(head.subrange(2 * w as int, 3 * w as int) =~= le_bytes(bytelen_attributes as nat, w));
    assert(bytes[3 * w as int] == head[3 * w as int]);
}

/// Bytes that are long enough are a node header, and what is read of them is what they
/// are written from. Shorter ones are none.
pub proof fn lemma_node_header_is_written_back(version: FbxVersion, bytes: Seq<u8>)
    ensures
        match NodeHeader::decode(version, bytes) {
            Decoded::Value(header, len) => {
                &&& len == 3 * wide_len(version) + 1
                &&& len <= bytes.len()
                &&& fits(version, header.end_offset)
                &&& fits(version, header.num_attributes)
                &&& fits(version, header.bytelen_attributes)
                &&& starts_with(
                    bytes,
                    node_header_bytes(
                        version,
                        header.end_offset,
                        header.num_attributes,
                        header.bytelen_attributes,
                        header.bytelen_name,
                    ),
                )
            },
            Decoded::Truncated => bytes.len() < 3 * wide_len(version) + 1,
            Decoded::Invalid(_) => false,
        },
{
    let w = wide_len(version) as int;
    lemma_limits();
    if bytes.len() >= 3 * w + 1 {
        let a = bytes.subrange(0, w);
        let b = bytes.subrange(w, 2 * w);
        let c = bytes.subrange(2 * w, 3 * w);
        lemma_bytes_are_written_back(a);
        lemma_bytes_are_written_back(b);
        lemma_bytes_are_written_back(c);
        assert(bytes.take(3 * w + 1) =~= a + b + c + seq![bytes[3 * w]]);
    }
}

/// The letter that an attribute type is written as.
pub open spec fn letter_of(ty: AttributeType) -> char {
    match ty {
        AttributeType::Bool => 'C',
        AttributeType::I16 => 'Y',
        AttributeType::I32 => 'I',
        AttributeType::I64 => 'L',
        AttributeType::F32 => 'F',
        AttributeType::F64 => 'D',
        AttributeType::ArrBool => 'b',
        AttributeType::ArrI32 => 'i',
        AttributeType::ArrI64 => 'l',
        AttributeType::ArrF32 => 'f',
        AttributeType::ArrF64 => 'd',
        AttributeType::Binary => 'R',
        AttributeType::String => 'S',
    }
}

/// An attribute type that is written is read back, whatever follows it.
pub proof fn lemma_attribute_type_is_read_back(ty: AttributeType, bytes: Seq<u8>)
    requires
        bytes.len() > 0,
        bytes[0] == letter_of(ty) as u8,
    ensures
        AttributeType::decode(bytes) == Decoded::Value(ty, 1),
{
}

/// A byte that is the letter of no attribute type is refused.
pub proof fn lemma_other_letters_are_refused(bytes: Seq<u8>)
    ensures
        bytes.len() == 0 ==> AttributeType::decode(bytes) is Truncated,
        bytes.len() > 0 && (forall|ty: AttributeType| bytes[0] != #[trigger] letter_of(ty) as u8)
            ==> AttributeType::decode(bytes) == Decoded::<AttributeType>::Invalid(
            DataFault::InvalidAttributeTypeCode(bytes[0]),
        ),
{
    if bytes.len() > 0 && forall|ty: AttributeType| bytes[0] != #[trigger] letter_of(ty) as u8 {
        assert(letter_of(AttributeType::Bool) == 'C');
        assert(letter_of(AttributeType::I16) == 'Y');
        assert(letter_of(AttributeType::I32) == 'I');
        assert(letter_of(AttributeType::I64) == 'L');
        assert(letter_of(AttributeType::F32) == 'F');
        assert(letter_of(AttributeType::F64) == 'D');
        assert(letter_of(AttributeType::ArrBool) == 'b');
        assert(letter_of(AttributeType::ArrI32) == 'i');
        assert(letter_of(AttributeType::ArrI64) == 'l');
        assert(letter_of(AttributeType::ArrF32) == 'f');
        assert(letter_of(AttributeType::ArrF64) == 'd');
        assert(letter_of(AttributeType::Binary) == 'R');
        assert(letter_of(AttributeType::String) == 'S');
    }
}

/// The header of an array as it is written.
pub open spec fn array_header_bytes(count: u32, encoding: u32, bytelen: u32) -> Seq<u8> {
    le_bytes(count as nat, 4) + le_bytes(encoding as nat, 4) + le_bytes(bytelen as nat, 4)
}

/// The header of an array that is written is read back, whatever follows it: plain
/// elements are marked by 0, compressed ones by 1, and no other mark is taken.
pub proof fn lemma_array_header_is_read_back(
    count: u32,
    encoding: u32,
    bytelen: u32,
    bytes: Seq<u8>,
)
    requires
        starts_with(bytes, array_header_bytes(count, encoding, bytelen)),
    ensures
        ArrayAttributeHeader::decode(bytes) == if encoding <= 1 {
            Decoded::Value(
                ArrayAttributeHeader {
                    elements_count: count,
                    encoding: if encoding == 0 {
                        ArrayAttributeEncoding::Direct
                    } else {
                        ArrayAttributeEncoding::Zlib
                    },
                    bytelen,
                },
                12,
            )
        } else {
            Decoded::Invalid(DataFault::InvalidArrayAttributeEncoding(encoding))
        },
{
    lemma_limits();
    lemma_number_is_read_back(count as nat, 4);
    lemma_number_is_read_back(encoding as nat, 4);
    lemma_number_is_read_back(bytelen as nat, 4);
    let head = bytes.take(12);
    assert(bytes.subrange(0, 4) =~= head.subrange(0, 4));
    assert(head.subrange(0, 4) =~= le_bytes(count as nat, 4));
    assert(bytes.subrange(4, 8) =~= head.subrange(4, 8));
    assert(head.subrange(4, 8) =~= le_bytes(encoding as nat, 4));
    assert(bytes.subrange(8, 12) =~= head.subrange(8, 12));
    assert(head.subrange(8, 12) =~= le_bytes(bytelen as nat, 4));
}

/// Fewer bytes than are written are no array header. As many are what is written of
/// some numbers.
pub proof fn lemma_array_header_is_written_back(bytes: Seq<u8>)
    ensures
        bytes.len() < 12 ==> ArrayAttributeHeader::decode(bytes) is Truncated,
        bytes.len() >= 12 ==> starts_with(
            bytes,
            array_header_bytes(
                le_value(bytes.subrange(0, 4)) as u32,
                le_value(bytes.subrange(4, 8)) as u32,
                le_value(bytes.subrange(8, 12)) as u32,
            ),
        ),
{
    lemma_limits();
    if bytes.len() >= 12 {
        lemma_bytes_are_written_back(bytes.subrange(0, 4));
        lemma_bytes_are_written_back(bytes.subrange(4, 8));
        lemma_bytes_are_written_back(bytes.subrange(8, 12));
        assert(bytes.take(12) =~= bytes.subrange(0, 4) + bytes.subrange(4, 8) + bytes.subrange(
            8,
            12,
        ));
    }
}

/// The length of bytes or text that is written is read back, whatever follows it.
pub proof fn lemma_content_length_is_read_back(bytelen: u32, bytes: Seq<u8>)
    requires
        starts_with(bytes, le_bytes(bytelen as nat, 4)),
    ensures
        SpecialAttributeHeader::decode(bytes) == Decoded::Value(
            SpecialAttributeHeader { bytelen },
            4,
        ),
{
    lemma_limits();
    lemma_number_is_read_back(bytelen as nat, 4);
    assert(bytes.subrange(0, 4) =~= bytes.take(4));
}

/// Fewer bytes than are written are no length. As many are what is written of some
/// number.
pub proof fn lemma_content_length_is_written_back(bytes: Seq<u8>)
    ensures
        bytes.len() < 4 ==> SpecialAttributeHeader::decode(bytes) is Truncated,
        bytes.len() >= 4 ==> starts_with(
            bytes,
            le_bytes(le_value(bytes.subrange(0, 4)) as u32 as nat, 4),
        ),
{
    lemma_limits();
    if bytes.len() >= 4 {
        lemma_bytes_are_written_back(bytes.subrange(0, 4));
        assert(bytes.take(4) =~= bytes.subrange(0, 4));
    }
}

/// The text that a document starts with.
pub open spec fn signature() -> Seq<char> {
    "Kaydara FBX Binary  "@ + seq!['\0', '\x1a', '\0']
}

/// A document starts with its signature, one byte for each character, and the version
/// follows. What is written so is read back, whatever follows it.
pub proof fn lemma_document_header_is_read_back(version: u32, bytes: Seq<u8>)
    requires
        starts_with(
            bytes,
            signature().map_values(|c: char| c as u8) + le_bytes(version as nat, 4),
        ),
    ensures
        FbxHeader::decode(bytes) == Ok::<FbxHeader, HeaderError>(
            FbxHeader { version: FbxVersion(version) },
        ),
        HEADER_LEN == 27,
{
    reveal_strlit("Kaydara FBX Binary  ");
    lemma_limits();
    lemma_number_is_read_back(version as nat, 4);
    let text = signature().map_values(|c: char| c as u8);
    assert(text =~= magic());
    let head = bytes.take(27);
    assert(bytes.take(23) =~= head.take(23));
    assert(head.take(23) =~= text);
    assert(bytes.subrange(23, 27) =~= head.subrange(23, 27));
    assert(head.subrange(23, 27) =~= le_bytes(version as nat, 4));
}

/// Bytes that do not start with the signature are no document.
pub proof fn lemma_other_documents_are_refused(bytes: Seq<u8>)
    ensures
        bytes.len() < 27 ==> FbxHeader::decode(bytes) == Err::<FbxHeader, HeaderError>(
            HeaderError::Truncated,
        ),
        bytes.len() >= 27 && !starts_with(bytes, signature().map_values(|c: char| c as u8))
            ==> FbxHeader::decode(bytes) == Err::<FbxHeader, HeaderError>(
            HeaderError::MagicNotDetected,
        ),
{
    reveal_strlit("Kaydara FBX Binary  ");
    assert(signature().map_values(|c: char| c as u8) =~= magic());
}

/// The given number of zeros.
pub open spec fn zeros(count: nat) -> Seq<u8> {
    Seq::new(count, |i: int| 0u8)
}

/// Zero is written by zeros.
pub proof fn lemma_zeros_are_written(width: nat)
    ensures
        le_bytes(0, width) == zeros(width),
    decreases width,
{
    if width > 0 {
        lemma_zeros_are_written((width - 1) as nat);
    }
    assert(le_bytes(0, width) =~= zeros(width));
}

/// A footer as it is written, where `padding` bytes fill up to a multiple of 16.
pub open spec fn footer_bytes(
    first: Seq<u8>,
    padding: nat,
    version: FbxVersion,
    last: Seq<u8>,
) -> Seq<u8> {
    first + zeros(padding) + zeros(4) + le_bytes(version.0 as nat, 4) + zeros(120) + last
}

/// A footer that is written is read back, whatever follows it.
pub proof fn lemma_footer_is_read_back(
    version: FbxVersion,
    first: Seq<u8>,
    padding: nat,
    last: Seq<u8>,
    s: Stream,
)
    requires
        first.len() == 16,
        last.len() == 16,
        padding < 16,
        (s.pos + 16 + padding) % 16 == 0,
        starts_with(s.rest, footer_bytes(first, padding, version, last)),
    ensures
        FbxFooter::decode(version, s) == Decoded::Value(
            FooterModel {
                unknown1: first,
                padding_len: padding as u8,
                fbx_version: version,
                unknown3: last,
            },
            160 + padding,
        ),
{
    lemma_limits();
    lemma_number_is_read_back(version.0 as nat, 4);
    let written = footer_bytes(first, padding, version, last);
    let pad = padding as int;
    assert(written.len() == 160 + pad);
    assert(FbxFooter::padding_at(s.pos) == padding);
    let head = s.rest.take(160 + pad);
    assert forall|i: int| 0 <= i < 160 + pad implies s.rest[i] == written[i] by {
        assert(head[i] == s.rest[i]);
    }
    let number = le_bytes(version.0 as nat, 4);
    let before = first + zeros(padding) + zeros(4);
    assert(before.len() == 20 + pad);
    assert(written == before + number + zeros(120) + last);
    let middle = before + number + zeros(120);
    assert(middle.len() == 144 + pad);
    assert forall|i: int| 0 <= i < 4 implies s.rest[20 + pad + i] == number[i] by {
        let at: int = 20 + pad + i;
        assert(s.rest[at] == written[at]);
        assert(written[at] == middle[at]);
        assert(middle[at] == (before + number)[at]);
        assert((before + number)[at] == number[at - before.len()]);
    }
    assert(s.rest.subrange(20 + pad, 24 + pad) =~= number);
    assert(s.rest.take(16) =~= first);
    assert forall|i: int| 0 <= i < 16 implies s.rest[144 + pad + i] == last[i] by {
        let at: int = 144 + pad + i;
        assert(s.rest[at] == written[at]);
        assert(written[at] == last[at - middle.len()]);
    }
    assert(s.rest.subrange(144 + pad, 160 + pad) =~= last);
    let filled = before + number;
    assert forall|i: int| 16 <= i < 20 + pad implies s.rest[i] == 0 by {
        assert(written[i] == middle[i]);
        assert(middle[i] == filled[i]);
        assert(filled[i] == before[i]);
    }
    assert forall|i: int| 24 + pad <= i < 144 + pad implies s.rest[i] == 0 by {
        assert(written[i] == middle[i]);
        assert(middle[i] == zeros(120)[i - filled.len()]);
    }
}

/// What is read as a footer is written as one. Bytes that are long enough and are
/// written in no way are refused, and shorter ones are none.
pub proof fn lemma_footer_is_written_back(version: FbxVersion, s: Stream)
    ensures
        match FbxFooter::decode(version, s) {
            Decoded::Value(footer, len) => {
                &&& footer.unknown1.len() == 16
                &&& footer.unknown3.len() == 16
                &&& footer.fbx_version == version
                &&& (s.pos + 16 + footer.padding_len) % 16 == 0
                &&& footer.padding_len < 16
                &&& starts_with(
                    s.rest,
                    footer_bytes(
                        footer.unknown1,
                        footer.padding_len as nat,
                        version,
                        footer.unknown3,
                    ),
                )
                &&& len == 160 + footer.padding_len
            },
            Decoded::Truncated => forall|padding: nat|
                (s.pos + 16 + padding) % 16 == 0 ==> s.rest.len() < #[trigger] (160 + padding),
            Decoded::Invalid(fault) => fault == DataFault::BrokenFbxFooter,
        },
{
    lemma_limits();
    let pad = FbxFooter::padding_at(s.pos) as int;
    if let Decoded::Value(footer, len) = FbxFooter::decode(version, s) {
        let number = s.rest.subrange(20 + pad, 24 + pad);
        lemma_bytes_are_written_back(number);
        let written = footer_bytes(footer.unknown1, pad as nat, version, footer.unknown3);
        assert(s.rest.take(160 + pad) =~= written);
    }
}

} // verus!
