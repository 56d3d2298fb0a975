//! What low-level data are read as.
use vstd::prelude::*;

use crate::low::bytes::{le_u16, le_u32, le_u64, signed_i16, signed_i32, signed_i64};
use crate::low::encoding::{
    complement, le_bytes, lemma_bytes_are_written_back, lemma_document_header_is_read_back,
    lemma_limits, lemma_other_documents_are_refused, letter_of, signature, starts_with,
};
use crate::low::v7400::{ArrayAttributeEncoding, AttributeType, FbxFooter, NodeHeader};
use crate::low::{FbxHeader, FbxVersion, HeaderError};

verus! {

/// The header of a document is read as it is written: the version is the number that
/// follows the signature, and the nodes follow after 27 bytes. Bytes without the
/// signature are refused, and so are too few.
pub proof fn lemma_document_header_is_read(
    version: u32,
    bytes: Vec<u8>,
    r: Result<FbxHeader, HeaderError>,
)
    requires
        call_ensures(FbxHeader::from_bytes, (&bytes,), r),
    ensures
        starts_with(
            bytes@,
            signature().map_values(|c: char| c as u8) + le_bytes(version as nat, 4),
        ) ==> r == Ok::<FbxHeader, HeaderError>(FbxHeader { version: FbxVersion(version) }),
        bytes@.len() < 27 ==> r == Err::<FbxHeader, HeaderError>(HeaderError::Truncated),
        bytes@.len() >= 27 && !starts_with(bytes@, signature().map_values(|c: char| c as u8))
            ==> r == Err::<FbxHeader, HeaderError>(HeaderError::MagicNotDetected),
{
    lemma_other_documents_are_refused(bytes@);
    if starts_with(
        bytes@,
        signature().map_values(|c: char| c as u8) + le_bytes(version as nat, 4),
    ) {
        lemma_document_header_is_read_back(version, bytes@);
    }
}

/// A header says its version and that it takes 27 bytes.
pub proof fn lemma_document_header_says(header: FbxHeader, version: FbxVersion, len: u64)
    requires
        call_ensures(FbxHeader::version, (&header,), version),
        call_ensures(FbxHeader::len, (&header,), len),
    ensures
        header == (FbxHeader { version }),
        len == 27,
{
}

/// The digits of a version: the thousands are the major version, the hundreds the minor
/// one.
pub proof fn lemma_version_is_told_by_its_digits(
    raw: u32,
    version: FbxVersion,
    same: u32,
    major: u32,
    minor: u32,
)
    requires
        call_ensures(FbxVersion::new, (raw,), version),
        call_ensures(FbxVersion::raw, (version,), same),
        call_ensures(FbxVersion::major, (version,), major),
        call_ensures(FbxVersion::minor, (version,), minor),
    ensures
        same == raw,
        minor < 10,
        1000 * major + 100 * minor <= raw < 1000 * major + 100 * minor + 100,
{
}

/// The letter of an attribute type stands for that type, and no other byte does for any.
pub proof fn lemma_letters_stand_for_types(code: u8, r: Option<AttributeType>)
    requires
        call_ensures(AttributeType::from_type_code, (code,), r),
    ensures
        forall|ty: AttributeType| #[trigger] letter_of(ty) as u8 == code <==> r == Some(ty),
{
}

/// Plain elements are marked by 0, compressed ones by 1, and no other mark is known.
pub proof fn lemma_marks_stand_for_encodings(raw: u32, r: Option<ArrayAttributeEncoding>)
    requires
        call_ensures(ArrayAttributeEncoding::from_u32, (raw,), r),
    ensures
        r == Some(ArrayAttributeEncoding::Direct) <==> raw == 0,
        r == Some(ArrayAttributeEncoding::Zlib) <==> raw == 1,
{
}

/// A header tells of an end if and only if none of its numbers is other than zero.
pub proof fn lemma_end_is_told_by_zeros(header: NodeHeader, end: bool)
    requires
        call_ensures(NodeHeader::is_node_end, (&header,), end),
    ensures
        end <==> header == (NodeHeader {
            end_offset: 0,
            num_attributes: 0,
            bytelen_attributes: 0,
            bytelen_name: 0,
        }),
{
}

/// The padding of a footer fills up to a multiple of 16, and is as short as can be.
pub proof fn lemma_padding_fills_up(pos: u64, len: u8)
    requires
        call_ensures(FbxFooter::padding_len_at, (pos,), len),
    ensures
        (pos + 16 + len) % 16 == 0,
        len < 16,
{
}

/// Numbers are read from the bytes that write them down, wherever these stand.
pub proof fn lemma_numbers_are_read_where_they_stand(
    bytes: Vec<u8>,
    at: usize,
    short: u16,
    word: u32,
    long: u64,
)
    requires
        at + 8 <= bytes@.len(),
        call_ensures(le_u16, (&bytes, at), short),
        call_ensures(le_u32, (&bytes, at), word),
        call_ensures(le_u64, (&bytes, at), long),
    ensures
        bytes@.subrange(at as int, at + 2) == le_bytes(short as nat, 2),
        bytes@.subrange(at as int, at + 4) == le_bytes(word as nat, 4),
        bytes@.subrange(at as int, at + 8) == le_bytes(long as nat, 8),
{
    lemma_bytes_are_written_back(bytes@.subrange(at as int, at + 2));
    lemma_bytes_are_written_back(bytes@.subrange(at as int, at + 4));
    lemma_bytes_are_written_back(bytes@.subrange(at as int, at + 8));
}

/// A signed integer is read from its two's complement.
pub proof fn lemma_signs_are_read(
    a: u16,
    b: u32,
    c: u64,
    short: i16,
    word: i32,
    long: i64,
)
    requires
        call_ensures(signed_i16, (a,), short),
        call_ensures(signed_i32, (b,), word),
        call_ensures(signed_i64, (c,), long),
    ensures
        complement(short as int, 2) == a,
        complement(word as int, 4) == b,
        complement(long as int, 8) == c,
{
    lemma_limits();
}

} // verus!
