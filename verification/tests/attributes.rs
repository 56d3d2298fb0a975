use fbx::low::v7400::{Binary32, Binary64};
use fbx::low::{FbxHeader, FbxVersion};
use fbx::pull_parser::v7400::attribute::array::{
    ArrayAttributeValues, AttributeStreamDecoder, BooleanArrayAttributeValues,
};
use fbx::pull_parser::v7400::attribute::{
    AttributeReader, Attributes, DirectAttributeValue, DirectLoader, VisitAttribute,
};
use fbx::pull_parser::v7400::{from_reader, Event, Parser};
use fbx::pull_parser::{
    BufferedSource, DataError, Error, ErrorKind, IgnoreWarnings, IoError, MemoryReader,
    OperationError, ParserSource, PlainSource,
};

/// A node to be written: its name, its attributes as bytes, its children.
struct Tree {
    name: &'static str,
    attributes: Vec<Vec<u8>>,
    children: Vec<Tree>,
}

fn node(name: &'static str, attributes: Vec<Vec<u8>>, children: Vec<Tree>) -> Tree {
    Tree {
        name,
        attributes,
        children,
    }
}

/// Writes a number into a field of a node header.
fn put_field(out: &mut Vec<u8>, at: usize, version: u32, value: u64) {
    let width: usize = if version < 7500 { 4 } else { 8 };
    let bytes = value.to_le_bytes();
    out[at..at + width].copy_from_slice(&bytes[..width]);
}

fn header_len(version: u32) -> usize {
    if version < 7500 {
        13
    } else {
        25
    }
}

/// Writes a node behind `out`, which starts at offset 27 of the document.
fn put_node(out: &mut Vec<u8>, version: u32, tree: &Tree) {
    let start = out.len();
    let width: usize = if version < 7500 { 4 } else { 8 };
    out.resize(start + header_len(version), 0);
    out[start + 3 * width] = tree.name.len() as u8;
    out.extend_from_slice(tree.name.as_bytes());
    let attributes_start = out.len();
    for attribute in &tree.attributes {
        out.extend_from_slice(attribute);
    }
    let attributes_len = out.len() - attributes_start;
    for child in &tree.children {
        put_node(out, version, child);
    }
    if tree.attributes.is_empty() || !tree.children.is_empty() {
        out.resize(out.len() + header_len(version), 0);
    }
    let end = out.len() + 27;
    put_field(out, start, version, end as u64);
    put_field(out, start + width, version, tree.attributes.len() as u64);
    put_field(out, start + 2 * width, version, attributes_len as u64);
}

/// Writes what follows the header of a document.
fn body(version: u32, trees: &[Tree]) -> Vec<u8> {
    let mut out = Vec::new();
    for tree in trees {
        put_node(&mut out, version, tree);
    }
    out.resize(out.len() + header_len(version), 0);
    let pad = (16 - (out.len() + 27) % 16) % 16;
    out.extend_from_slice(&[0xaa; 16]);
    out.resize(out.len() + pad + 4, 0);
    out.extend_from_slice(&version.to_le_bytes());
    out.resize(out.len() + 120, 0);
    out.extend_from_slice(&[0xbb; 16]);
    out
}

fn header(version: u32) -> FbxHeader {
    FbxHeader {
        version: FbxVersion::new(version),
    }
}

type PlainParser = Parser<PlainSource<MemoryReader>, IgnoreWarnings>;

fn parser_of(version: u32, bytes: Vec<u8>) -> PlainParser {
    match from_reader(header(version), MemoryReader::new(bytes)) {
        Ok(parser) => parser,
        Err(e) => panic!("{:?}", e),
    }
}

/// A document whose only node has the given attributes.
fn document(attributes: Vec<Vec<u8>>) -> PlainParser {
    parser_of(7400, body(7400, &[node("N", attributes, vec![])]))
}

fn attributes_of(parser: &mut PlainParser) -> Attributes<'_, PlainSource<MemoryReader>> {
    match parser.next_event() {
        Ok(Event::StartNode(start)) => start.attributes(),
        _ => panic!("no node"),
    }
}

fn special(code: u8, content: &[u8]) -> Vec<u8> {
    let mut bytes = vec![code];
    bytes.extend_from_slice(&(content.len() as u32).to_le_bytes());
    bytes.extend_from_slice(content);
    bytes
}

fn array(code: u8, count: u32, encoding: u32, content: &[u8]) -> Vec<u8> {
    let mut bytes = vec![code];
    bytes.extend_from_slice(&count.to_le_bytes());
    bytes.extend_from_slice(&encoding.to_le_bytes());
    bytes.extend_from_slice(&(content.len() as u32).to_le_bytes());
    bytes.extend_from_slice(content);
    bytes
}

fn single(code: u8, content: &[u8]) -> Vec<u8> {
    let mut bytes = vec![code];
    bytes.extend_from_slice(content);
    bytes
}

fn every_kind() -> Vec<Vec<u8>> {
    let mut longs = Vec::new();
    longs.extend_from_slice(&7i64.to_le_bytes());
    longs.extend_from_slice(&(-7i64).to_le_bytes());
    let mut doubles = Vec::new();
    doubles.extend_from_slice(&0.5f64.to_le_bytes());
    doubles.extend_from_slice(&(-2.0f64).to_le_bytes());
    vec![
        single(b'C', b"T"),
        single(b'C', b"F"),
        single(b'Y', &(-2i16).to_le_bytes()),
        single(b'I', &(-3i32).to_le_bytes()),
        single(b'L', &i64::MIN.to_le_bytes()),
        single(b'F', &1.5f32.to_le_bytes()),
        single(b'D', &(-0.25f64).to_le_bytes()),
        array(b'b', 3, 0, &[b'T', 0, 1]),
        array(b'i', 2, 0, &[1, 0, 0, 0, 0xff, 0xff, 0xff, 0xff]),
        array(b'l', 2, 0, &longs),
        array(b'f', 1, 0, &3.0f32.to_le_bytes()),
        array(b'd', 2, 0, &doubles),
        special(b'R', &[1, 2, 3]),
        special(b'S', "te\u{df}t".as_bytes()),
    ]
}

fn every_value() -> Vec<DirectAttributeValue> {
    vec![
        // The lowest bit of the letter decides, and `F` has it clear.
        DirectAttributeValue::Bool(false),
        DirectAttributeValue::Bool(false),
        DirectAttributeValue::I16(-2),
        DirectAttributeValue::I32(-3),
        DirectAttributeValue::I64(i64::MIN),
        DirectAttributeValue::F32(Binary32(1.5f32.to_bits())),
        DirectAttributeValue::F64(Binary64((-0.25f64).to_bits())),
        DirectAttributeValue::ArrBool(vec![false, false, true]),
        DirectAttributeValue::ArrI32(vec![1, -1]),
        DirectAttributeValue::ArrI64(vec![7, -7]),
        DirectAttributeValue::ArrF32(vec![Binary32(3.0f32.to_bits())]),
        DirectAttributeValue::ArrF64(vec![
            Binary64(0.5f64.to_bits()),
            Binary64((-2.0f64).to_bits()),
        ]),
        DirectAttributeValue::Binary(vec![1, 2, 3]),
        DirectAttributeValue::String("te\u{df}t".to_string()),
    ]
}

#[test]
fn every_kind_of_attribute_is_loaded() {
    let mut parser = document(every_kind());
    let mut attributes = attributes_of(&mut parser);
    assert_eq!(attributes.total_count(), 14);
    for (i, expected) in every_value().into_iter().enumerate() {
        assert_eq!(attributes.rest_count(), 14 - i as u64);
        assert_eq!(attributes.visit_next(DirectLoader), Ok(Some(expected)));
    }
    assert_eq!(attributes.rest_count(), 0);
    assert_eq!(attributes.visit_next(DirectLoader), Ok(None));
    assert_eq!(attributes.visit_next(DirectLoader), Ok(None));
    assert_eq!(attributes.total_count(), 14);
}

#[test]
fn every_kind_of_attribute_is_loaded_buffered() {
    let mut parser = document(every_kind());
    let mut attributes = attributes_of(&mut parser);
    for expected in every_value() {
        assert_eq!(
            attributes.visit_next_buffered(DirectLoader),
            Ok(Some(expected))
        );
    }
    assert_eq!(attributes.visit_next_buffered(DirectLoader), Ok(None));
}

#[test]
fn booleans_are_told_by_the_lowest_bit() {
    for (raw, expected) in [(b'T', false), (b'Y', true), (b'F', false), (1, true), (0, false)] {
        let mut parser = document(vec![single(b'C', &[raw])]);
        let mut attributes = attributes_of(&mut parser);
        assert_eq!(
            attributes.visit_next(DirectLoader),
            Ok(Some(DirectAttributeValue::Bool(expected)))
        );
    }
}

/// A visitor that takes one byte, or one element, of an attribute and leaves the
/// rest. It tells by which method it was called.
struct Taste;

fn first_of<T, R>(next: Option<Result<T, Error>>, out: R) -> Result<R, Error> {
    match next {
        Some(Err(e)) => Err(e),
        _ => Ok(out),
    }
}

impl VisitAttribute for Taste {
    type Output = &'static str;

    fn visit_bool(self, _: bool) -> Result<&'static str, Error> {
        Ok("bool")
    }

    fn visit_i16(self, _: i16) -> Result<&'static str, Error> {
        Ok("i16")
    }

    fn visit_i32(self, _: i32) -> Result<&'static str, Error> {
        Ok("i32")
    }

    fn visit_i64(self, _: i64) -> Result<&'static str, Error> {
        Ok("i64")
    }

    fn visit_f32(self, _: Binary32) -> Result<&'static str, Error> {
        Ok("f32")
    }

    fn visit_f64(self, _: Binary64) -> Result<&'static str, Error> {
        Ok("f64")
    }

    fn visit_seq_bool<R: ParserSource>(
        self,
        values: &mut BooleanArrayAttributeValues<'_, R>,
        _: usize,
    ) -> Result<&'static str, Error> {
        first_of(values.next(), "bools")
    }

    fn visit_seq_i32<R: ParserSource>(
        self,
        mut values: ArrayAttributeValues<'_, R, i32>,
        _: usize,
    ) -> Result<&'static str, Error> {
        first_of(values.next(), "i32s")
    }

    fn visit_seq_i64<R: ParserSource>(
        self,
        mut values: ArrayAttributeValues<'_, R, i64>,
        _: usize,
    ) -> Result<&'static str, Error> {
        first_of(values.next(), "i64s")
    }

    fn visit_seq_f32<R: ParserSource>(
        self,
        mut values: ArrayAttributeValues<'_, R, Binary32>,
        _: usize,
    ) -> Result<&'static str, Error> {
        first_of(values.next(), "f32s")
    }

    fn visit_seq_f64<R: ParserSource>(
        self,
        mut values: ArrayAttributeValues<'_, R, Binary64>,
        _: usize,
    ) -> Result<&'static str, Error> {
        first_of(values.next(), "f64s")
    }

    fn visit_binary<R: ParserSource>(
        self,
        reader: &mut AttributeReader<R>,
        _: u64,
    ) -> Result<&'static str, Error> {
        assert_eq!(reader.read(1), Ok(vec![1]));
        Ok("binary")
    }

    fn visit_string<R: ParserSource>(
        self,
        reader: &mut AttributeReader<R>,
        len: u64,
    ) -> Result<&'static str, Error> {
        assert_eq!(len, 5);
        assert_eq!(reader.read_exact(2), Ok(b"te".to_vec()));
        assert_eq!(reader.remaining(), 3);
        Ok("string")
    }

    fn visit_binary_buffered<R: BufferedSource>(
        self,
        reader: &mut AttributeReader<R>,
        _: u64,
    ) -> Result<&'static str, Error> {
        // What follows the attribute is not shown.
        assert_eq!(reader.peek(), Ok(vec![1, 2, 3]));
        assert_eq!(reader.read_exact(4), Err(IoError::UnexpectedEof));
        Ok("binary buffered")
    }

    fn visit_string_buffered<R: BufferedSource>(
        self,
        reader: &mut AttributeReader<R>,
        _: u64,
    ) -> Result<&'static str, Error> {
        assert_eq!(reader.read_to_end(), Ok("te\u{df}t".as_bytes().to_vec()));
        assert_eq!(reader.peek(), Ok(vec![]));
        Ok("string buffered")
    }
}

const TASTES: [&str; 12] = [
    "bool", "bool", "i16", "i32", "i64", "f32", "f64", "bools", "i32s", "i64s", "f32s", "f64s",
];

#[test]
fn unread_content_does_not_matter() {
    let mut parser = document(every_kind());
    let mut attributes = attributes_of(&mut parser);
    for taste in TASTES.iter() {
        assert_eq!(attributes.visit_next(Taste), Ok(Some(*taste)));
    }
    assert_eq!(attributes.visit_next(Taste), Ok(Some("binary")));
    assert_eq!(attributes.visit_next(Taste), Ok(Some("string")));
    assert_eq!(attributes.visit_next(Taste), Ok(None));
}

#[test]
fn buffering_matters_to_bytes_and_text() {
    let mut parser = document(every_kind());
    let mut attributes = attributes_of(&mut parser);
    for taste in TASTES.iter() {
        assert_eq!(attributes.visit_next_buffered(Taste), Ok(Some(*taste)));
    }
    assert_eq!(
        attributes.visit_next_buffered(Taste),
        Ok(Some("binary buffered"))
    );
    assert_eq!(
        attributes.visit_next_buffered(Taste),
        Ok(Some("string buffered"))
    );
    assert_eq!(attributes.visit_next_buffered(Taste), Ok(None));
}

#[test]
fn unread_attributes_do_not_matter_to_events() {
    for count in 0..15 {
        let mut parser = document(every_kind());
        let mut attributes = attributes_of(&mut parser);
        for _ in 0..count {
            attributes.visit_next(Taste).unwrap();
        }
        assert!(matches!(parser.next_event(), Ok(Event::EndNode)));
        assert!(matches!(parser.next_event(), Ok(Event::EndFbx(Ok(_)))));
    }
}

#[test]
fn unknown_attribute_type_is_refused() {
    let mut parser = document(vec![single(b'?', &[]), single(b'Y', &[5, 0])]);
    let mut attributes = attributes_of(&mut parser);
    let e = attributes.visit_next(DirectLoader).unwrap_err();
    assert_eq!(
        e.kind(),
        &ErrorKind::Data(DataError::InvalidAttributeTypeCode(b'?'))
    );
    // The attribute counts as visited, and the next can be visited still.
    assert_eq!(attributes.rest_count(), 1);
    assert_eq!(
        attributes.visit_next(DirectLoader),
        Ok(Some(DirectAttributeValue::I16(5)))
    );
}

#[test]
fn unknown_array_encoding_is_refused() {
    let mut parser = document(vec![array(b'i', 1, 2, &[0; 4])]);
    let e = attributes_of(&mut parser)
        .visit_next(DirectLoader)
        .unwrap_err();
    assert_eq!(
        e.kind(),
        &ErrorKind::Data(DataError::InvalidArrayAttributeEncoding(2))
    );
}

#[test]
fn text_that_is_no_utf8_is_refused() {
    let mut parser = document(vec![special(b'S', &[0x61, 0xff])]);
    let e = attributes_of(&mut parser)
        .visit_next(DirectLoader)
        .unwrap_err();
    assert_eq!(
        e.kind(),
        &ErrorKind::Data(DataError::InvalidStringEncoding(vec![0x61, 0xff]))
    );
}

/// A zlib stream that holds `content` in one block that is not compressed.
fn stored(content: &[u8]) -> Vec<u8> {
    let mut bytes = vec![0x78, 0x01, 0x01];
    let len = content.len() as u16;
    bytes.extend_from_slice(&len.to_le_bytes());
    bytes.extend_from_slice(&(!len).to_le_bytes());
    bytes.extend_from_slice(content);
    let (mut a, mut b) = (1u32, 0u32);
    for byte in content {
        a = (a + u32::from(*byte)) % 65521;
        b = (b + a) % 65521;
    }
    bytes.extend_from_slice(&(b << 16 | a).to_be_bytes());
    bytes
}

/// The text "Hello World!", compressed.
const HELLO: [u8; 20] = [
    120, 156, 243, 72, 205, 201, 201, 87, 8, 207, 47, 202, 73, 81, 4, 0, 28, 73, 4, 62,
];

#[test]
fn compressed_arrays_are_loaded() {
    let hello: Vec<i32> = b"Hello World!"
        .chunks(4)
        .map(|bytes| i32::from_le_bytes([bytes[0], bytes[1], bytes[2], bytes[3]]))
        .collect();
    let mut longs = Vec::new();
    longs.extend_from_slice(&7i64.to_le_bytes());
    longs.extend_from_slice(&(-7i64).to_le_bytes());
    let mut parser = document(vec![
        array(b'i', 3, 1, &HELLO),
        array(b'l', 2, 1, &stored(&longs)),
        array(b'f', 1, 1, &stored(&3.0f32.to_le_bytes())),
        array(b'd', 1, 1, &stored(&0.5f64.to_le_bytes())),
        array(b'b', 3, 1, &stored(b"YTY")),
        array(b'i', 0, 1, &stored(&[])),
        single(b'Y', &[5, 0]),
    ]);
    let mut attributes = attributes_of(&mut parser);
    for expected in vec![
        DirectAttributeValue::ArrI32(hello),
        DirectAttributeValue::ArrI64(vec![7, -7]),
        DirectAttributeValue::ArrF32(vec![Binary32(3.0f32.to_bits())]),
        DirectAttributeValue::ArrF64(vec![Binary64(0.5f64.to_bits())]),
        DirectAttributeValue::ArrBool(vec![true, false, true]),
        DirectAttributeValue::ArrI32(vec![]),
        DirectAttributeValue::I16(5),
    ] {
        assert_eq!(attributes.visit_next(DirectLoader), Ok(Some(expected)));
    }
    assert_eq!(attributes.visit_next(DirectLoader), Ok(None));
}

#[test]
fn compressed_array_with_too_few_elements_is_refused() {
    let mut parser = document(vec![array(b'i', 4, 1, &HELLO)]);
    let e = attributes_of(&mut parser)
        .visit_next(DirectLoader)
        .unwrap_err();
    assert_eq!(e.kind(), &ErrorKind::Io(IoError::UnexpectedEof));
}

/// A visitor that must not be called.
struct Nobody;

impl VisitAttribute for Nobody {
    type Output = ();

    fn visit_bool(self, _: bool) -> Result<(), Error> {
        unreachable!()
    }

    fn visit_i16(self, _: i16) -> Result<(), Error> {
        unreachable!()
    }

    fn visit_i32(self, _: i32) -> Result<(), Error> {
        unreachable!()
    }

    fn visit_i64(self, _: i64) -> Result<(), Error> {
        unreachable!()
    }

    fn visit_f32(self, _: Binary32) -> Result<(), Error> {
        unreachable!()
    }

    fn visit_f64(self, _: Binary64) -> Result<(), Error> {
        unreachable!()
    }

    fn visit_seq_bool<R: ParserSource>(
        self,
        _: &mut BooleanArrayAttributeValues<'_, R>,
        _: usize,
    ) -> Result<(), Error> {
        unreachable!()
    }

    fn visit_seq_i32<R: ParserSource>(
        self,
        _: ArrayAttributeValues<'_, R, i32>,
        _: usize,
    ) -> Result<(), Error> {
        unreachable!()
    }

    fn visit_seq_i64<R: ParserSource>(
        self,
        _: ArrayAttributeValues<'_, R, i64>,
        _: usize,
    ) -> Result<(), Error> {
        unreachable!()
    }

    fn visit_seq_f32<R: ParserSource>(
        self,
        _: ArrayAttributeValues<'_, R, Binary32>,
        _: usize,
    ) -> Result<(), Error> {
        unreachable!()
    }

    fn visit_seq_f64<R: ParserSource>(
        self,
        _: ArrayAttributeValues<'_, R, Binary64>,
        _: usize,
    ) -> Result<(), Error> {
        unreachable!()
    }

    fn visit_binary<R: ParserSource>(
        self,
        reader: &mut AttributeReader<R>,
        _: u64,
    ) -> Result<(), Error> {
        // What came of decompressing can be handed over by itself.
        let refused = AttributeStreamDecoder::from_inflated(None, reader).err().unwrap();
        assert_eq!(
            refused.kind(),
            &ErrorKind::Data(DataError::InvalidCompression)
        );
        let bytes = vec![1, 0, 0, 0, 0xfe, 0xff, 0xff, 0xff, 9];
        let decoder = AttributeStreamDecoder::from_inflated(Some(bytes), reader)?;
        let mut values = ArrayAttributeValues::<R, i32>::new(decoder, 4);
        assert_eq!(values.next(), Some(Ok(1)));
        assert_eq!(values.next(), Some(Ok(-2)));
        assert!(matches!(values.next(), Some(Err(_))));
        assert_eq!(values.next(), None);
        Ok(())
    }

    fn visit_string<R: ParserSource>(
        self,
        _: &mut AttributeReader<R>,
        _: u64,
    ) -> Result<(), Error> {
        unreachable!()
    }

    fn visit_binary_buffered<R: BufferedSource>(
        self,
        _: &mut AttributeReader<R>,
        _: u64,
    ) -> Result<(), Error> {
        unreachable!()
    }

    fn visit_string_buffered<R: BufferedSource>(
        self,
        _: &mut AttributeReader<R>,
        _: u64,
    ) -> Result<(), Error> {
        unreachable!()
    }
}

#[test]
fn elements_of_decompressed_content() {
    let mut parser = document(vec![special(b'R', &[1, 2, 3])]);
    assert_eq!(attributes_of(&mut parser).visit_next(Nobody), Ok(Some(())));
}

#[test]
fn broken_compression_is_refused_before_the_visitor_is_called() {
    let mut checksum = HELLO;
    checksum[19] ^= 1;
    for content in [&[0x78u8, 0x9c, 0, 0][..], &[], &HELLO[..19], &checksum] {
        for code in [b'b', b'i', b'l', b'f', b'd'] {
            let mut parser = document(vec![array(code, 1, 1, content)]);
            let mut attributes = attributes_of(&mut parser);
            let e = attributes.visit_next(Nobody).unwrap_err();
            assert_eq!(e.kind(), &ErrorKind::Data(DataError::InvalidCompression));
        }
    }
}

#[test]
fn truncated_compressed_array_is_refused_before_the_visitor_is_called() {
    let mut bytes = body(7400, &[node("N", vec![array(b'i', 3, 1, &HELLO)], vec![])]);
    bytes.truncate(14 + 13 + 19);
    let mut parser = parser_of(7400, bytes);
    let e = attributes_of(&mut parser).visit_next(Nobody).unwrap_err();
    assert_eq!(e.kind(), &ErrorKind::Io(IoError::UnexpectedEof));
}

#[test]
fn failed_visit_stops_the_events() {
    let mut parser = document(vec![single(b'?', &[]), single(b'Y', &[5, 0])]);
    assert!(attributes_of(&mut parser).visit_next(DirectLoader).is_err());
    let place = parser.position();
    assert_eq!(place.byte_pos, 42);
    for _ in 0..2 {
        match parser.next_event() {
            Err(e) => {
                assert_eq!(
                    e.kind(),
                    &ErrorKind::Operation(OperationError::AlreadyAborted)
                );
                assert_eq!(e.position(), Some(&place));
            }
            Ok(_) => panic!("an event"),
        }
    }
    assert_eq!(parser.current_depth(), 1);
}

#[test]
fn elements_are_read_whatever_length_the_array_states() {
    // The array states 2 elements and a length of 4 bytes. The second element is
    // what follows these bytes.
    let mut stated = array(b'i', 2, 0, &[1, 0, 0, 0]);
    stated.extend_from_slice(&[2, 0, 0, 0]);
    let mut parser = document(vec![stated, single(b'Y', &[5, 0])]);
    let mut attributes = attributes_of(&mut parser);
    assert_eq!(
        attributes.visit_next(DirectLoader),
        Ok(Some(DirectAttributeValue::ArrI32(vec![1, 2])))
    );
    assert_eq!(
        attributes.visit_next(DirectLoader),
        Ok(Some(DirectAttributeValue::I16(5)))
    );
}

#[test]
fn truncated_attributes_are_refused() {
    let whole = body(7400, &[node("N", every_kind(), vec![])]);
    let attributes_len: usize = every_kind().iter().map(|bytes| bytes.len()).sum();
    for len in 14..14 + attributes_len {
        let mut parser = parser_of(7400, whole[..len].to_vec());
        let mut attributes = attributes_of(&mut parser);
        let mut last = attributes.visit_next(DirectLoader);
        while matches!(last, Ok(Some(_))) {
            last = attributes.visit_next(DirectLoader);
        }
        let e = last.unwrap_err();
        assert_eq!(e.kind(), &ErrorKind::Io(IoError::UnexpectedEof), "{}", len);
    }
}

/// A visitor of an array of truth values that tells whether they were well
/// written.
struct Letters;

fn other() -> Result<(Vec<bool>, bool), Error> {
    Ok((vec![], false))
}

impl VisitAttribute for Letters {
    type Output = (Vec<bool>, bool);

    fn visit_bool(self, _: bool) -> Result<(Vec<bool>, bool), Error> {
        other()
    }

    fn visit_i16(self, _: i16) -> Result<(Vec<bool>, bool), Error> {
        other()
    }

    fn visit_i32(self, _: i32) -> Result<(Vec<bool>, bool), Error> {
        other()
    }

    fn visit_i64(self, _: i64) -> Result<(Vec<bool>, bool), Error> {
        other()
    }

    fn visit_f32(self, _: Binary32) -> Result<(Vec<bool>, bool), Error> {
        other()
    }

    fn visit_f64(self, _: Binary64) -> Result<(Vec<bool>, bool), Error> {
        other()
    }

    fn visit_seq_bool<R: ParserSource>(
        self,
        values: &mut BooleanArrayAttributeValues<'_, R>,
        _: usize,
    ) -> Result<(Vec<bool>, bool), Error> {
        let mut all = Vec::new();
        while let Some(value) = values.next() {
            all.push(value?);
        }
        Ok((all, values.has_incorrect_boolean_value()))
    }

    fn visit_seq_i32<R: ParserSource>(
        self,
        _: ArrayAttributeValues<'_, R, i32>,
        _: usize,
    ) -> Result<(Vec<bool>, bool), Error> {
        other()
    }

    fn visit_seq_i64<R: ParserSource>(
        self,
        _: ArrayAttributeValues<'_, R, i64>,
        _: usize,
    ) -> Result<(Vec<bool>, bool), Error> {
        other()
    }

    fn visit_seq_f32<R: ParserSource>(
        self,
        _: ArrayAttributeValues<'_, R, Binary32>,
        _: usize,
    ) -> Result<(Vec<bool>, bool), Error> {
        other()
    }

    fn visit_seq_f64<R: ParserSource>(
        self,
        _: ArrayAttributeValues<'_, R, Binary64>,
        _: usize,
    ) -> Result<(Vec<bool>, bool), Error> {
        other()
    }

    fn visit_binary<R: ParserSource>(
        self,
        _: &mut AttributeReader<R>,
        _: u64,
    ) -> Result<(Vec<bool>, bool), Error> {
        other()
    }

    fn visit_string<R: ParserSource>(
        self,
        _: &mut AttributeReader<R>,
        _: u64,
    ) -> Result<(Vec<bool>, bool), Error> {
        other()
    }

    fn visit_binary_buffered<R: BufferedSource>(
        self,
        _: &mut AttributeReader<R>,
        _: u64,
    ) -> Result<(Vec<bool>, bool), Error> {
        other()
    }

    fn visit_string_buffered<R: BufferedSource>(
        self,
        _: &mut AttributeReader<R>,
        _: u64,
    ) -> Result<(Vec<bool>, bool), Error> {
        other()
    }
}

#[test]
fn badly_written_truth_values_are_noticed() {
    let mut parser = document(vec![
        array(b'b', 2, 0, b"TY"),
        array(b'b', 3, 0, &[b'Y', 1, b'T']),
    ]);
    let mut attributes = attributes_of(&mut parser);
    assert_eq!(
        attributes.visit_next(Letters),
        Ok(Some((vec![false, true], false)))
    );
    assert_eq!(
        attributes.visit_next(Letters),
        Ok(Some((vec![true, true, false], true)))
    );
}

#[test]
fn refused_event_is_placed_where_the_parser_has_come_to() {
    let mut parser = document(vec![single(b'?', &[]), single(b'Y', &[5, 0])]);
    let mut attributes = attributes_of(&mut parser);
    assert!(format!("{:?}", attributes).starts_with("Attributes"));
    assert!(attributes.visit_next(DirectLoader).is_err());
    // A later visit succeeds, and moves the parser on.
    assert_eq!(
        attributes.visit_next(DirectLoader),
        Ok(Some(DirectAttributeValue::I16(5)))
    );
    let place = parser.position();
    assert_eq!(place.byte_pos, 45);
    for _ in 0..2 {
        match parser.next_event() {
            Err(e) => {
                assert_eq!(
                    e.kind(),
                    &ErrorKind::Operation(OperationError::AlreadyAborted)
                );
                assert_eq!(e.position(), Some(&place));
            }
            Ok(_) => panic!("an event"),
        }
    }
}

#[test]
fn visits_do_not_matter_to_events_that_fail() {
    let whole = body(7400, &[node("N", every_kind(), vec![])]);
    let attributes_len: usize = every_kind().iter().map(|bytes| bytes.len()).sum();
    // The input ends after the last attribute, where the header is to follow.
    let mut bytes = whole[..14 + attributes_len].to_vec();
    put_field(&mut bytes, 0, 7400, 100_000);
    for count in 0..15 {
        let mut parser = parser_of(7400, bytes.clone());
        let mut attributes = attributes_of(&mut parser);
        for _ in 0..count {
            attributes.visit_next(Taste).unwrap();
        }
        match parser.next_event() {
            Err(e) => assert_eq!(e.kind(), &ErrorKind::Io(IoError::UnexpectedEof)),
            Ok(_) => panic!("an event"),
        }
        assert_eq!(
            parser.position().byte_pos,
            (27 + 14 + attributes_len) as u64
        );
    }
}
