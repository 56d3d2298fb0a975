use fbx::low::{FbxHeader, FbxVersion};
use fbx::pull_parser::reader::Bytes;
use fbx::pull_parser::v7400::{from_reader, from_seekable_reader, Event, Parser};
use fbx::pull_parser::{
    ByteReader, DataError, Error, ErrorKind, IgnoreWarnings, IoError, MemoryReader, OperationError,
    ParserSource, ParserVersion, PlainSource, SeekableSource, SyntacticPosition, Warning,
    WarningHandler,
};

/// A node to be written: its name, its attributes as bytes, its children.
struct Tree {
    name: &'static str,
    attributes: Vec<Vec<u8>>,
    children: Vec<Tree>,
}

fn node(name: &'static str, attributes: Vec<Vec<u8>>, children: Vec<Tree>) -> Tree {
    Tree {
        name,
        attributes,
        children,
    }
}

/// Writes a number into a field of a node header.
fn put_field(out: &mut Vec<u8>, at: usize, version: u32, value: u64) {
    let width: usize = if version < 7500 { 4 } else { 8 };
    let bytes = value.to_le_bytes();
    out[at..at + width].copy_from_slice(&bytes[..width]);
}

fn header_len(version: u32) -> usize {
    if version < 7500 {
        13
    } else {
        25
    }
}

/// Writes a node behind `out`, which starts at offset 27 of the document.
fn put_node(out: &mut Vec<u8>, version: u32, tree: &Tree) {
    let start = out.len();
    let width: usize = if version < 7500 { 4 } else { 8 };
    out.resize(start + header_len(version), 0);
    out[start + 3 * width] = tree.name.len() as u8;
    out.extend_from_slice(tree.name.as_bytes());
    let attributes_start = out.len();
    for attribute in &tree.attributes {
        out.extend_from_slice(attribute);
    }
    let attributes_len = out.len() - attributes_start;
    for child in &tree.children {
        put_node(out, version, child);
    }
    if tree.attributes.is_empty() || !tree.children.is_empty() {
        out.resize(out.len() + header_len(version), 0);
    }
    let end = out.len() + 27;
    put_field(out, start, version, end as u64);
    put_field(out, start + width, version, tree.attributes.len() as u64);
    put_field(out, start + 2 * width, version, attributes_len as u64);
}

/// Writes what follows the header of a document.
fn body(version: u32, trees: &[Tree]) -> Vec<u8> {
    let mut out = Vec::new();
    for tree in trees {
        put_node(&mut out, version, tree);
    }
    out.resize(out.len() + header_len(version), 0);
    let pad = (16 - (out.len() + 27) % 16) % 16;
    out.extend_from_slice(&[0xaa; 16]);
    out.resize(out.len() + pad + 4, 0);
    out.extend_from_slice(&version.to_le_bytes());
    out.resize(out.len() + 120, 0);
    out.extend_from_slice(&[0xbb; 16]);
    out
}

fn header(version: u32) -> FbxHeader {
    FbxHeader {
        version: FbxVersion::new(version),
    }
}

type PlainParser = Parser<PlainSource<MemoryReader>, IgnoreWarnings>;

fn parser_of(version: u32, bytes: Vec<u8>) -> PlainParser {
    match from_reader(header(version), MemoryReader::new(bytes)) {
        Ok(parser) => parser,
        Err(e) => panic!("{:?}", e),
    }
}

/// An event without what it borrows.
#[derive(Debug, PartialEq)]
enum Seen {
    Start(String, u64),
    End,
    EndFbx(bool),
}

fn see<R: ParserSource, W: WarningHandler>(parser: &mut Parser<R, W>) -> Result<Seen, Error> {
    match parser.next_event() {
        Ok(Event::StartNode(start)) => {
            let name = start.name().to_string();
            let attributes = start.attributes();
            Ok(Seen::Start(name, attributes.total_count()))
        }
        Ok(Event::EndNode) => Ok(Seen::End),
        Ok(Event::EndFbx(footer)) => Ok(Seen::EndFbx(footer.is_ok())),
        Err(e) => Err(e),
    }
}

fn start(name: &str, attributes: u64) -> Result<Seen, Error> {
    Ok(Seen::Start(name.to_string(), attributes))
}

fn sample() -> Vec<Tree> {
    vec![
        node(
            "A",
            vec![vec![b'Y', 1, 0], vec![b'C', b'T']],
            vec![node("B", vec![], vec![]), node("C", vec![vec![b'Y', 2, 0]], vec![])],
        ),
        node("D", vec![vec![b'I', 1, 2, 3, 4]], vec![]),
    ]
}

fn sample_events() -> Vec<Seen> {
    vec![
        Seen::Start("A".to_string(), 2),
        Seen::Start("B".to_string(), 0),
        Seen::End,
        Seen::Start("C".to_string(), 1),
        Seen::End,
        Seen::End,
        Seen::Start("D".to_string(), 1),
        Seen::End,
        Seen::EndFbx(true),
    ]
}

fn kind_of(e: Error) -> ErrorKind {
    e.kind
}

#[test]
fn events_of_a_document() {
    for version in [7400u32, 7499, 7500, 7700] {
        let mut parser = parser_of(version, body(version, &sample()));
        assert_eq!(parser.fbx_version(), FbxVersion::new(version));
        for expected in sample_events() {
            assert_eq!(see(&mut parser), Ok(expected));
        }
    }
}

#[test]
fn events_of_a_seekable_document() {
    let bytes = body(7400, &sample());
    let mut parser: Parser<SeekableSource<MemoryReader>, IgnoreWarnings> =
        from_seekable_reader(header(7400), MemoryReader::new(bytes)).unwrap();
    for expected in sample_events() {
        assert_eq!(see(&mut parser), Ok(expected));
    }
}

#[test]
fn unsupported_versions_are_refused() {
    for version in [0u32, 6100, 7300, 7399, 8000] {
        let reader = MemoryReader::new(Vec::new());
        let refused: Result<PlainParser, Error> = from_reader(header(version), reader);
        let expected = OperationError::UnsupportedFbxVersion(
            ParserVersion::V7400,
            FbxVersion::new(version),
        );
        assert_eq!(kind_of(refused.unwrap_err()), ErrorKind::Operation(expected));
        let reader = MemoryReader::new(Vec::new());
        let refused: Result<Parser<SeekableSource<MemoryReader>, IgnoreWarnings>, Error> =
            from_seekable_reader(header(version), reader);
        assert_eq!(kind_of(refused.unwrap_err()), ErrorKind::Operation(expected));
    }
}

#[test]
fn parser_version_constant() {
    assert_eq!(PlainParser::PARSER_VERSION, ParserVersion::V7400);
}

#[test]
fn depth_and_name_follow_the_events() {
    let mut parser = parser_of(7400, body(7400, &sample()));
    assert_eq!(parser.current_depth(), 0);
    assert_eq!(see(&mut parser), start("A", 2));
    assert_eq!(parser.current_depth(), 1);
    assert_eq!(parser.current_node_name(), "A");
    assert_eq!(see(&mut parser), start("B", 0));
    assert_eq!(parser.current_depth(), 2);
    assert_eq!(parser.current_node_name(), "B");
    assert_eq!(see(&mut parser), Ok(Seen::End));
    assert_eq!(parser.current_depth(), 1);
    assert_eq!(parser.current_node_name(), "A");
    assert_eq!(see(&mut parser), start("C", 1));
    assert_eq!(see(&mut parser), Ok(Seen::End));
    assert_eq!(see(&mut parser), Ok(Seen::End));
    assert_eq!(parser.current_depth(), 0);
}

#[test]
fn position_names_the_path() {
    let mut parser = parser_of(7400, body(7400, &sample()));
    assert_eq!(
        parser.position(),
        SyntacticPosition {
            byte_pos: 27,
            component_byte_pos: 0,
            node_path: vec![],
            attribute_index: None,
        }
    );
    assert_eq!(see(&mut parser), start("A", 2));
    // A header of 13 bytes and a name of 1 byte.
    assert_eq!(
        parser.position(),
        SyntacticPosition {
            byte_pos: 41,
            component_byte_pos: 27,
            node_path: vec![(0, "A".to_string())],
            attribute_index: None,
        }
    );
    assert_eq!(see(&mut parser), start("B", 0));
    assert_eq!(see(&mut parser), Ok(Seen::End));
    assert_eq!(parser.position().node_path, vec![(0, "A".to_string())]);
    assert_eq!(see(&mut parser), start("C", 1));
    // Five bytes of attributes follow the name of the first node, and its first
    // child takes 27 bytes.
    assert_eq!(
        parser.position(),
        SyntacticPosition {
            byte_pos: 87,
            component_byte_pos: 73,
            node_path: vec![(0, "A".to_string()), (1, "C".to_string())],
            attribute_index: None,
        }
    );
    assert_eq!(see(&mut parser), Ok(Seen::End));
    assert_eq!(see(&mut parser), Ok(Seen::End));
    assert_eq!(see(&mut parser), start("D", 1));
    assert_eq!(parser.position().node_path, vec![(1, "D".to_string())]);
}

#[test]
fn finished_parser_says_so() {
    let mut parser = parser_of(7400, body(7400, &[]));
    assert_eq!(see(&mut parser), Ok(Seen::EndFbx(true)));
    for _ in 0..2 {
        let e = see(&mut parser).unwrap_err();
        assert_eq!(e.position(), None);
        assert_eq!(
            e.kind(),
            &ErrorKind::Operation(OperationError::AlreadyFinished)
        );
    }
}

#[test]
fn failed_parser_says_so() {
    let mut bytes = body(7400, &sample());
    bytes.truncate(20);
    let mut parser = parser_of(7400, bytes);
    assert_eq!(see(&mut parser), start("A", 2));
    // The attributes should end at offset 46, and the input ends at offset 47.
    let e = see(&mut parser).unwrap_err();
    assert_eq!(e.kind(), &ErrorKind::Io(IoError::UnexpectedEof));
    let place = e.position().unwrap().clone();
    assert_eq!(place, parser.position());
    assert_eq!(place.node_path, vec![(0, "A".to_string())]);
    for _ in 0..2 {
        let again = see(&mut parser).unwrap_err();
        assert_eq!(
            again.kind(),
            &ErrorKind::Operation(OperationError::AlreadyAborted)
        );
        assert_eq!(again.position(), Some(&place));
    }
}

#[test]
fn every_truncation_is_noticed() {
    let whole = body(7400, &sample());
    for len in 0..whole.len() {
        let mut parser = parser_of(7400, whole[..len].to_vec());
        let mut last = see(&mut parser);
        while !matches!(last, Err(_) | Ok(Seen::EndFbx(_))) {
            last = see(&mut parser);
        }
        match last {
            Ok(seen) => assert_eq!(seen, Seen::EndFbx(false)),
            Err(e) => assert_eq!(kind_of(e), ErrorKind::Io(IoError::UnexpectedEof)),
        }
    }
}

#[test]
fn broken_footer_ends_the_document_with_an_error() {
    let mut bytes = body(7400, &[]);
    bytes[13 + 16] = 1;
    let mut parser = parser_of(7400, bytes);
    match parser.next_event() {
        Ok(Event::EndFbx(Err(e))) => {
            assert_eq!(e.kind(), &ErrorKind::Data(DataError::BrokenFbxFooter));
        }
        _ => panic!("no footer"),
    }
    let again = see(&mut parser).unwrap_err();
    assert_eq!(
        again.kind(),
        &ErrorKind::Operation(OperationError::AlreadyFinished)
    );
}

#[test]
fn footer_is_handed_out() {
    let mut parser = parser_of(7400, body(7400, &[]));
    match parser.next_event() {
        Ok(Event::EndFbx(Ok(footer))) => {
            assert_eq!(footer.unknown1, vec![0xaa; 16]);
            // The footer starts at offset 40.
            assert_eq!(footer.padding_len, 8);
            assert_eq!(footer.fbx_version, FbxVersion::new(7400));
            assert_eq!(footer.unknown3, vec![0xbb; 16]);
        }
        _ => panic!("no footer"),
    }
}

#[test]
fn node_that_should_have_ended_is_refused() {
    // The node is said to end within its own attributes.
    let mut bytes = body(7400, &sample());
    put_field(&mut bytes, 0, 7400, 42);
    let mut parser = parser_of(7400, bytes);
    assert_eq!(see(&mut parser), start("A", 2));
    let e = see(&mut parser).unwrap_err();
    assert_eq!(
        e.kind(),
        &ErrorKind::Data(DataError::NodeLengthMismatch(42, None))
    );
}

#[test]
fn missing_end_marker_is_refused() {
    // The node has no attributes, and is said to end right after its name.
    let mut bytes = body(7400, &[node("B", vec![], vec![])]);
    put_field(&mut bytes, 0, 7400, 41);
    let mut parser = parser_of(7400, bytes);
    assert_eq!(see(&mut parser), start("B", 0));
    let e = see(&mut parser).unwrap_err();
    assert_eq!(
        e.kind(),
        &ErrorKind::Data(DataError::NodeLengthMismatch(41, None))
    );
    assert_eq!(e.position().unwrap().node_path, vec![(0, "B".to_string())]);
}

#[test]
fn misplaced_end_marker_is_refused() {
    let mut bytes = body(7400, &[node("B", vec![], vec![])]);
    put_field(&mut bytes, 0, 7400, 60);
    let mut parser = parser_of(7400, bytes);
    assert_eq!(see(&mut parser), start("B", 0));
    let e = see(&mut parser).unwrap_err();
    assert_eq!(
        e.kind(),
        &ErrorKind::Data(DataError::NodeLengthMismatch(60, Some(54)))
    );
    // The node counts as closed.
    assert_eq!(parser.current_depth(), 0);
}

#[test]
fn node_name_that_is_no_text_is_refused() {
    let mut bytes = body(7400, &[node("B", vec![], vec![])]);
    bytes[13] = 0xff;
    let mut parser = parser_of(7400, bytes);
    let e = see(&mut parser).unwrap_err();
    assert_eq!(
        e.kind(),
        &ErrorKind::Data(DataError::InvalidNodeNameEncoding(vec![0xff]))
    );
    assert_eq!(parser.current_depth(), 0);
}

#[test]
fn node_names_are_text() {
    let mut parser = parser_of(7400, body(7400, &[node("n\u{e4}me", vec![], vec![])]));
    assert_eq!(see(&mut parser), start("n\u{e4}me", 0));
}

#[test]
fn attributes_beyond_every_offset_are_refused() {
    let mut bytes = body(7500, &[node("B", vec![], vec![])]);
    put_field(&mut bytes, 16, 7500, u64::MAX);
    let mut parser = parser_of(7500, bytes);
    let e = see(&mut parser).unwrap_err();
    // The name ends at offset 53.
    assert_eq!(
        e.kind(),
        &ErrorKind::Data(DataError::OffsetOverflow(53, u64::MAX))
    );
}

/// A handler that takes the given number of warnings.
#[derive(Debug)]
struct Patience(u32);

impl WarningHandler for Patience {
    fn handle(&mut self, warning: Warning) -> Result<(), Error> {
        if self.0 == 0 {
            Err(Error::warning(warning))
        } else {
            self.0 -= 1;
            Ok(())
        }
    }
}

#[test]
fn empty_node_names_are_warned_of() {
    let trees = [node("", vec![], vec![]), node("", vec![], vec![])];
    let bytes = body(7400, &trees);
    let reader = MemoryReader::new(bytes.clone());
    let mut parser: Parser<PlainSource<MemoryReader>, Patience> =
        from_reader(header(7400), reader).unwrap();
    parser.set_warning_handler(Patience(1));
    assert_eq!(see(&mut parser), start("", 0));
    assert_eq!(see(&mut parser), Ok(Seen::End));
    let e = see(&mut parser).unwrap_err();
    assert_eq!(e.kind(), &ErrorKind::Warning(Warning::EmptyNodeName));
    assert_eq!(e.position(), Some(&parser.position()));

    // Without a handler, or with one that ignores them, warnings pass.
    let mut parser = parser_of(7400, bytes.clone());
    for _ in 0..2 {
        assert_eq!(see(&mut parser), start("", 0));
        assert_eq!(see(&mut parser), Ok(Seen::End));
    }
    let mut parser = parser_of(7400, bytes);
    parser.set_warning_handler(IgnoreWarnings);
    assert_eq!(see(&mut parser), start("", 0));
}

#[test]
fn skipped_leaf_with_attributes_ends() {
    let mut parser = parser_of(7400, body(7400, &sample()));
    assert_eq!(see(&mut parser), start("A", 2));
    let end = {
        let mut other = parser_of(7400, body(7400, &sample()));
        for _ in 0..6 {
            see(&mut other).unwrap();
        }
        other.position().byte_pos
    };
    assert_eq!(parser.skip_current_node(), Ok(()));
    // Skipping comes to the place where reading on would have come.
    assert_eq!(parser.position().byte_pos, end);
    assert_eq!(parser.current_depth(), 1);
    assert_eq!(see(&mut parser), Ok(Seen::End));
    assert_eq!(see(&mut parser), start("D", 1));
}

#[test]
fn skipped_node_ends_whatever_it_holds() {
    // Without attributes.
    let mut parser = parser_of(7400, body(7400, &[node("B", vec![], vec![])]));
    assert_eq!(see(&mut parser), start("B", 0));
    assert_eq!(parser.skip_current_node(), Ok(()));
    assert_eq!(parser.position().byte_pos, 54);
    assert_eq!(parser.current_depth(), 1);
    assert_eq!(parser.current_node_name(), "B");
    assert_eq!(see(&mut parser), Ok(Seen::End));
    assert_eq!(see(&mut parser), Ok(Seen::EndFbx(true)));
    // With a child that has just ended.
    let mut parser = parser_of(7400, body(7400, &sample()));
    assert_eq!(see(&mut parser), start("A", 2));
    assert_eq!(see(&mut parser), start("B", 0));
    assert_eq!(see(&mut parser), Ok(Seen::End));
    assert_eq!(parser.skip_current_node(), Ok(()));
    assert_eq!(parser.skip_current_node(), Ok(()));
    assert_eq!(see(&mut parser), Ok(Seen::End));
    assert_eq!(see(&mut parser), start("D", 1));
    assert_eq!(parser.position().node_path, vec![(1, "D".to_string())]);
    assert_eq!(see(&mut parser), Ok(Seen::End));
    assert_eq!(see(&mut parser), Ok(Seen::EndFbx(true)));
}

#[test]
fn what_is_skipped_does_not_matter() {
    let mut bytes = body(7400, &sample());
    // The first node ends at offset 103. What it holds is spoilt.
    for byte in bytes[19..103 - 27].iter_mut() {
        *byte = 0xff;
    }
    let mut parser = parser_of(7400, bytes);
    assert_eq!(see(&mut parser), start("A", 2));
    assert_eq!(parser.skip_current_node(), Ok(()));
    assert_eq!(see(&mut parser), Ok(Seen::End));
    assert_eq!(see(&mut parser), start("D", 1));
}

#[test]
fn skipping_beyond_the_input_fails() {
    let mut bytes = body(7400, &[node("B", vec![], vec![])]);
    put_field(&mut bytes, 0, 7400, 100_000);
    let len = bytes.len() as u64;
    let mut parser = parser_of(7400, bytes);
    assert_eq!(see(&mut parser), start("B", 0));
    let e = parser.skip_current_node().unwrap_err();
    assert_eq!(kind_of(e), ErrorKind::Io(IoError::UnexpectedEof));
    // The parser has failed, and says so. The input has been read to its end.
    let place = parser.position();
    assert_eq!(place.byte_pos, 27 + len);
    for _ in 0..2 {
        let again = see(&mut parser).unwrap_err();
        assert_eq!(
            again.kind(),
            &ErrorKind::Operation(OperationError::AlreadyAborted)
        );
        assert_eq!(again.position(), Some(&place));
    }
    assert_eq!(parser.current_depth(), 1);
    assert_eq!(parser.current_node_name(), "B");
}

#[test]
fn skipping_backwards_fails() {
    let mut bytes = body(7400, &[node("B", vec![], vec![])]);
    put_field(&mut bytes, 0, 7400, 30);
    let mut parser = parser_of(7400, bytes);
    assert_eq!(see(&mut parser), start("B", 0));
    let e = parser.skip_current_node().unwrap_err();
    assert_eq!(kind_of(e), ErrorKind::Io(IoError::InvalidInput));
    // Nothing was read.
    assert_eq!(parser.position().byte_pos, 41);
}

/// A reader that hands out one byte at a time and fails at a given byte.
#[derive(Debug)]
struct Flaky {
    inner: MemoryReader,
    left: u32,
}

impl ByteReader for Flaky {
    fn rest(&self) -> Bytes {
        unreachable!()
    }

    fn lemma_rest_len(&self) {}

    fn read(&mut self, max: usize) -> Result<Vec<u8>, IoError> {
        if self.left == 0 {
            return Err(IoError::Os(5));
        }
        self.left -= 1;
        self.inner.read(if max > 1 { 1 } else { max })
    }
}

#[test]
fn short_reads_make_no_difference() {
    let reader = Flaky {
        inner: MemoryReader::new(body(7400, &sample())),
        left: u32::MAX,
    };
    let mut parser: Parser<PlainSource<Flaky>, IgnoreWarnings> =
        from_reader(header(7400), reader).unwrap();
    for expected in sample_events() {
        assert_eq!(see(&mut parser), Ok(expected));
    }
}

#[test]
fn failures_of_the_input_are_passed_on() {
    let reader = Flaky {
        inner: MemoryReader::new(body(7400, &sample())),
        left: 14,
    };
    let mut parser: Parser<PlainSource<Flaky>, IgnoreWarnings> =
        from_reader(header(7400), reader).unwrap();
    assert_eq!(see(&mut parser), start("A", 2));
    let e = see(&mut parser).unwrap_err();
    assert_eq!(kind_of(e), ErrorKind::Io(IoError::Os(5)));
}

#[test]
fn every_node_that_starts_ends() {
    let mut parser = parser_of(7500, body(7500, &sample()));
    let mut open = 0;
    let mut deepest = 0;
    loop {
        match see(&mut parser).unwrap() {
            Seen::Start(_, _) => open += 1,
            Seen::End => open -= 1,
            Seen::EndFbx(_) => break,
        }
        assert_eq!(parser.current_depth(), open);
        deepest = deepest.max(open);
    }
    assert_eq!(open, 0);
    assert_eq!(deepest, 2);
}

#[test]
fn end_marker_after_attributes_is_accepted_where_the_node_ends_there() {
    // The marker is not needed, but the header counts it in.
    let mut bytes = Vec::new();
    put_node(&mut bytes, 7400, &node("B", vec![vec![b'Y', 1, 0]], vec![]));
    bytes.resize(bytes.len() + 13, 0);
    let end = bytes.len() as u64 + 27;
    put_field(&mut bytes, 0, 7400, end);
    let mut parser = parser_of(7400, bytes);
    assert_eq!(see(&mut parser), start("B", 1));
    assert_eq!(see(&mut parser), Ok(Seen::End));
    assert_eq!(parser.position().byte_pos, end);
}

#[test]
fn node_with_children_needs_its_marker() {
    let trees = [node(
        "A",
        vec![vec![b'Y', 1, 0]],
        vec![node("B", vec![vec![b'Y', 1, 0]], vec![])],
    )];
    let mut bytes = body(7400, &trees);
    // Without its marker the outer node would end where the inner one does.
    let inner_end: u64 = 27 + 2 * (13 + 1 + 3);
    put_field(&mut bytes, 0, 7400, inner_end);
    let mut parser = parser_of(7400, bytes);
    assert_eq!(see(&mut parser), start("A", 1));
    assert_eq!(see(&mut parser), start("B", 1));
    assert_eq!(see(&mut parser), Ok(Seen::End));
    let e = see(&mut parser).unwrap_err();
    assert_eq!(
        e.kind(),
        &ErrorKind::Data(DataError::NodeLengthMismatch(inner_end, None))
    );
}

#[test]
fn seekable_source_skips_within_its_input_only() {
    let bytes = body(7400, &[node("B", vec![], vec![])]);
    let len = bytes.len() as u64;
    for (end, expected) in [
        (30, Err(IoError::InvalidInput)),
        (54, Ok(())),
        (100_000, Err(IoError::UnexpectedEof)),
    ] {
        let mut bytes = bytes.clone();
        put_field(&mut bytes, 0, 7400, end);
        let mut parser: Parser<SeekableSource<MemoryReader>, IgnoreWarnings> =
            from_seekable_reader(header(7400), MemoryReader::new(bytes)).unwrap();
        assert_eq!(see(&mut parser), start("B", 0));
        let skipped = parser.skip_current_node();
        match expected {
            Ok(()) => {
                assert_eq!(skipped, Ok(()));
                assert_eq!(parser.position().byte_pos, end);
            }
            Err(io) => {
                assert_eq!(kind_of(skipped.unwrap_err()), ErrorKind::Io(io));
                let there = if end < 41 { 41 } else { 27 + len };
                assert_eq!(parser.position().byte_pos, there);
            }
        }
    }
}

#[test]
fn failures_of_the_input_while_skipping_are_passed_on() {
    let reader = Flaky {
        inner: MemoryReader::new(body(7400, &sample())),
        left: 16,
    };
    let mut parser: Parser<PlainSource<Flaky>, IgnoreWarnings> =
        from_reader(header(7400), reader).unwrap();
    assert_eq!(see(&mut parser), start("A", 2));
    let e = parser.skip_current_node().unwrap_err();
    assert_eq!(kind_of(e), ErrorKind::Io(IoError::Os(5)));
    let again = see(&mut parser).unwrap_err();
    assert_eq!(
        again.kind(),
        &ErrorKind::Operation(OperationError::AlreadyAborted)
    );
}

#[test]
fn no_input_is_needed_for_an_end_without_a_marker() {
    let bytes = body(7400, &[node("D", vec![vec![b'Y', 1, 0]], vec![])]);
    let reader = Flaky {
        inner: MemoryReader::new(bytes),
        left: 14,
    };
    let mut parser: Parser<PlainSource<Flaky>, IgnoreWarnings> =
        from_reader(header(7400), reader).unwrap();
    assert_eq!(see(&mut parser), start("D", 1));
    // The attributes are still to be read.
    let e = see(&mut parser).unwrap_err();
    assert_eq!(kind_of(e), ErrorKind::Io(IoError::Os(5)));

    let bytes = body(7400, &[node("D", vec![vec![b'Y', 1, 0]], vec![])]);
    let reader = Flaky {
        inner: MemoryReader::new(bytes),
        left: 17,
    };
    let mut parser: Parser<PlainSource<Flaky>, IgnoreWarnings> =
        from_reader(header(7400), reader).unwrap();
    assert_eq!(see(&mut parser), start("D", 1));
    assert_eq!(see(&mut parser), Ok(Seen::End));
}

#[test]
fn handler_is_told_once() {
    let trees = [node("", vec![], vec![]), node("x", vec![], vec![])];
    let reader = MemoryReader::new(body(7400, &trees));
    let mut parser: Parser<PlainSource<MemoryReader>, Patience> =
        from_reader(header(7400), reader).unwrap();
    parser.set_warning_handler(Patience(0));
    // The last handler that was set is the one that is told, and once is enough for
    // it. No end marker is warned of.
    parser.set_warning_handler(Patience(1));
    for _ in 0..2 {
        assert!(matches!(see(&mut parser), Ok(Seen::Start(_, 0))));
        assert_eq!(see(&mut parser), Ok(Seen::End));
    }
    assert_eq!(see(&mut parser), Ok(Seen::EndFbx(true)));
}

#[test]
fn truncated_input_is_read_to_its_end() {
    let whole = body(7400, &sample());
    for len in 14..90 {
        let bytes = whole[..len].to_vec();
        let mut plain = parser_of(7400, bytes.clone());
        let mut seekable: Parser<SeekableSource<MemoryReader>, IgnoreWarnings> =
            from_seekable_reader(header(7400), MemoryReader::new(bytes)).unwrap();
        loop {
            let seen = see(&mut plain);
            assert_eq!(see(&mut seekable), seen);
            assert_eq!(seekable.position(), plain.position());
            if seen.is_err() {
                break;
            }
        }
        assert_eq!(plain.position().byte_pos, 27 + len as u64);
    }
}

#[test]
fn parsers_can_be_shown() {
    let parser = parser_of(7400, body(7400, &[]));
    assert!(format!("{:?}", parser).starts_with("Parser"));
}
