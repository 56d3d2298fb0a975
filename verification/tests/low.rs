use fbx::low::bytes::{le_u16, le_u32, le_u64, signed_i16, signed_i32, signed_i64};
use fbx::low::v7400::{
    ArrayAttributeEncoding, AttributeType, FbxFooter, NodeHeader,
};
use fbx::low::{FbxHeader, FbxVersion, HeaderError};
use fbx::pull_parser::{DataError, ParserVersion};

fn magic_and(version: u32) -> Vec<u8> {
    let mut bytes = b"Kaydara FBX Binary  \0\x1a\0".to_vec();
    bytes.extend_from_slice(&version.to_le_bytes());
    bytes
}

#[test]
fn header_is_read() {
    let header = FbxHeader::from_bytes(&magic_and(7500)).unwrap();
    assert_eq!(header.version(), FbxVersion::new(7500));
    assert_eq!(header.version().raw(), 7500);
    assert_eq!(header.version().major(), 7);
    assert_eq!(header.version().minor(), 5);
    assert_eq!(header.len(), 27);
}

#[test]
fn header_with_too_few_bytes_is_refused() {
    let mut bytes = magic_and(7400);
    bytes.pop();
    assert_eq!(FbxHeader::from_bytes(&bytes), Err(HeaderError::Truncated));
    assert_eq!(FbxHeader::from_bytes(&Vec::new()), Err(HeaderError::Truncated));
}

#[test]
fn header_without_magic_is_refused() {
    for i in 0..23 {
        let mut bytes = magic_and(7400);
        bytes[i] ^= 0x80;
        assert_eq!(
            FbxHeader::from_bytes(&bytes),
            Err(HeaderError::MagicNotDetected)
        );
    }
}

#[test]
fn little_endian_numbers() {
    let bytes = vec![0x01u8, 0x02, 0x03, 0x04, 0x05, 0x06, 0x07, 0x08, 0xff];
    assert_eq!(le_u16(&bytes, 0), 0x0201);
    assert_eq!(le_u32(&bytes, 1), 0x0504_0302);
    assert_eq!(le_u64(&bytes, 1), 0xff08_0706_0504_0302);
    assert_eq!(signed_i16(0xffff), -1);
    assert_eq!(signed_i16(0x7fff), 32767);
    assert_eq!(signed_i32(0x8000_0000), i32::MIN);
    assert_eq!(signed_i64(0xffff_ffff_ffff_fffe), -2);
}

#[test]
fn attribute_type_codes() {
    let known = [
        (b'C', AttributeType::Bool),
        (b'Y', AttributeType::I16),
        (b'I', AttributeType::I32),
        (b'L', AttributeType::I64),
        (b'F', AttributeType::F32),
        (b'D', AttributeType::F64),
        (b'b', AttributeType::ArrBool),
        (b'i', AttributeType::ArrI32),
        (b'l', AttributeType::ArrI64),
        (b'f', AttributeType::ArrF32),
        (b'd', AttributeType::ArrF64),
        (b'R', AttributeType::Binary),
        (b'S', AttributeType::String),
    ];
    for code in 0..=255u8 {
        let expected = known.iter().find(|(c, _)| *c == code).map(|(_, ty)| *ty);
        assert_eq!(AttributeType::from_type_code(code), expected);
    }
}

#[test]
fn array_encodings() {
    assert_eq!(
        ArrayAttributeEncoding::from_u32(0),
        Some(ArrayAttributeEncoding::Direct)
    );
    assert_eq!(
        ArrayAttributeEncoding::from_u32(1),
        Some(ArrayAttributeEncoding::Zlib)
    );
    assert_eq!(ArrayAttributeEncoding::from_u32(2), None);
}

#[test]
fn only_the_zero_node_header_marks_an_end() {
    let zero = NodeHeader {
        end_offset: 0,
        num_attributes: 0,
        bytelen_attributes: 0,
        bytelen_name: 0,
    };
    assert!(zero.is_node_end());
    assert!(!NodeHeader { end_offset: 1, ..zero }.is_node_end());
    assert!(!NodeHeader { num_attributes: 1, ..zero }.is_node_end());
    assert!(!NodeHeader { bytelen_attributes: 1, ..zero }.is_node_end());
    assert!(!NodeHeader { bytelen_name: 1, ..zero }.is_node_end());
}

#[test]
fn parser_versions() {
    let read = |raw: u32| ParserVersion::from_fbx_version(FbxVersion::new(raw));
    assert_eq!(read(7400), Some(ParserVersion::V7400));
    assert_eq!(read(7500), Some(ParserVersion::V7400));
    assert_eq!(read(7999), Some(ParserVersion::V7400));
    assert_eq!(read(7399), None);
    assert_eq!(read(8000), None);
}

#[test]
fn padding_fills_up_to_a_multiple_of_sixteen() {
    assert_eq!(FbxFooter::padding_len_at(0), 0);
    assert_eq!(FbxFooter::padding_len_at(1), 15);
    assert_eq!(FbxFooter::padding_len_at(40), 8);
    assert_eq!(FbxFooter::padding_len_at(63), 1);
    assert_eq!(FbxFooter::padding_len_at(u64::MAX), 1);
}

fn footer_bytes(version: u32, pad: usize) -> Vec<u8> {
    let mut bytes = vec![7u8; 16];
    bytes.resize(20 + pad, 0);
    bytes.extend_from_slice(&version.to_le_bytes());
    bytes.resize(144 + pad, 0);
    bytes.extend_from_slice(&[9; 16]);
    bytes
}

#[test]
fn footer_is_read() {
    let version = FbxVersion::new(7400);
    let footer = FbxFooter::from_bytes(version, 5, &footer_bytes(7400, 5)).unwrap();
    assert_eq!(footer.unknown1, vec![7u8; 16]);
    assert_eq!(footer.padding_len, 5);
    assert_eq!(footer.fbx_version, version);
    assert_eq!(footer.unknown3, vec![9u8; 16]);
}

#[test]
fn broken_footer_is_refused() {
    let version = FbxVersion::new(7400);
    for i in 16..149 {
        let mut bytes = footer_bytes(7400, 5);
        bytes[i] ^= 1;
        assert_eq!(
            FbxFooter::from_bytes(version, 5, &bytes),
            Err(DataError::BrokenFbxFooter),
            "byte {}",
            i
        );
    }
    assert_eq!(
        FbxFooter::from_bytes(version, 5, &footer_bytes(7500, 5)),
        Err(DataError::BrokenFbxFooter)
    );
}
