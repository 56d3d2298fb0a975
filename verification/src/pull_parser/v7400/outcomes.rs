//! What requests to a parser give, told by the bytes of the document.
use vstd::prelude::*;
use vstd::utf8::{encode_utf8, valid_utf8};

use crate::low::encoding::{footer_bytes, starts_with, zeros};
use crate::low::{FbxHeader, FbxVersion};
use crate::pull_parser::error::{DataError, Error, ErrorKind, OperationError};
use crate::pull_parser::position::SyntacticPosition;
use crate::pull_parser::reader::{
    BufferedSource, ByteReader, IoError, ParserSource, PlainSource, SeekReader, SeekableSource,
    Stream,
};
use crate::pull_parser::v7400::attribute::direct::{DirectAttributeValue, DirectLoader};
use crate::pull_parser::v7400::attribute::written::{
    lemma_written_value_is_loaded, next_start, same_value, WrittenAttribute,
};
use crate::pull_parser::v7400::attribute::Attributes;
use crate::pull_parser::v7400::calls::{
    lemma_first_event_is_handed_out, lemma_footer_is_there, lemma_parser_fails_without_events,
    lemma_skip_leaves_out_the_node, lemma_written_footer_is_handed_out,
};
use crate::pull_parser::v7400::event::{Event, StartNode};
use crate::pull_parser::v7400::grammar::header_len;
use crate::pull_parser::v7400::laws::{events, EventModel};
use crate::pull_parser::v7400::parser::{from_reader, from_seekable_reader, Parser};
use crate::pull_parser::v7400::places::lemma_position_says_the_place;
use crate::pull_parser::v7400::reading::{
    event_start, has_bytes, lemma_bad_node_does_not_start, lemma_cut_attributes_are_noticed,
    lemma_cut_header_is_noticed, lemma_end_of_node_is_reached, lemma_skipped_node_ends,
    lemma_written_node_starts, lemma_zeros_tell_of_an_end, WrittenHeader,
};
use crate::pull_parser::v7400::state::{EventKind, HealthModel, NodeModel};
use crate::pull_parser::version::ParserVersion;
use crate::pull_parser::warning::{Warning, WarningHandler};

verus! {

/// Loading the next attribute gives the value that is written there. The attribute after
/// it is then looked for where the bytes of this one end.
pub proof fn lemma_visit_loads_what_is_written<R: ParserSource, W: WarningHandler>(
    a: WrittenAttribute,
    attributes: &mut Attributes<'_, R, W>,
    r: Result<Option<DirectAttributeValue>, Error>,
)
    requires
        a.valid(),
        old(attributes).parser.wf(),
        old(attributes).parser.source().failures() == Set::<IoError>::empty(),
        old(attributes).left() > 0,
        ({
            let s = old(attributes).parser.stream();
            let start = next_start(old(attributes).prev_end(), s.pos);
            s.covers(start) && starts_with(s.at(start).rest, a.bytes())
        }),
        call_ensures(Attributes::<R, W>::visit_next::<DirectLoader>, (attributes, DirectLoader), r),
    ensures
        r matches Ok(Some(value)) && same_value(value, a.value),
        final(attributes).left() == old(attributes).left() - 1,
        final(attributes).total() == old(attributes).total(),
        next_start(final(attributes).prev_end(), final(attributes).parser.stream().pos)
            == next_start(old(attributes).prev_end(), old(attributes).parser.stream().pos)
            + a.bytes().len(),
        old(attributes).parser.stream().reaches(final(attributes).parser.stream()),
        final(attributes).parser.state() == old(attributes).parser.state(),
{
    old(attributes).parser.source().lemma_bounded();
    lemma_written_value_is_loaded(
        a,
        old(attributes).parser.stream(),
        *old(attributes),
        *final(attributes),
        final(attributes).parser.stream(),
        old(attributes).parser.source().failures(),
        false,
        r,
    );
}

/// The same holds of loading from a source that can show bytes before they are taken.
pub proof fn lemma_buffered_visit_loads_what_is_written<R: BufferedSource, W: WarningHandler>(
    a: WrittenAttribute,
    attributes: &mut Attributes<'_, R, W>,
    r: Result<Option<DirectAttributeValue>, Error>,
)
    requires
        a.valid(),
        old(attributes).parser.wf(),
        old(attributes).parser.source().failures() == Set::<IoError>::empty(),
        old(attributes).left() > 0,
        ({
            let s = old(attributes).parser.stream();
            let start = next_start(old(attributes).prev_end(), s.pos);
            s.covers(start) && starts_with(s.at(start).rest, a.bytes())
        }),
        call_ensures(
            Attributes::<R, W>::visit_next_buffered::<DirectLoader>,
            (attributes, DirectLoader),
            r,
        ),
    ensures
        r matches Ok(Some(value)) && same_value(value, a.value),
        final(attributes).left() == old(attributes).left() - 1,
        final(attributes).total() == old(attributes).total(),
        next_start(final(attributes).prev_end(), final(attributes).parser.stream().pos)
            == next_start(old(attributes).prev_end(), old(attributes).parser.stream().pos)
            + a.bytes().len(),
        old(attributes).parser.stream().reaches(final(attributes).parser.stream()),
        final(attributes).parser.state() == old(attributes).parser.state(),
{
    old(attributes).parser.source().lemma_bounded();
    lemma_written_value_is_loaded(
        a,
        old(attributes).parser.stream(),
        *old(attributes),
        *final(attributes),
        final(attributes).parser.stream(),
        old(attributes).parser.source().failures(),
        true,
        r,
    );
}

/// Whether a parser can go on, on an input that does not fail, with nothing that is told
/// of warnings.
pub open spec fn is_ready<R: ParserSource, W: WarningHandler>(parser: Parser<R, W>) -> bool {
    &&& parser.wf()
    &&& parser.source().failures() == Set::<IoError>::empty()
    &&& parser.handler() is None
    &&& parser.state().health is Running
    &&& parser.state().failure is None
}

/// A node whose header and name are written next is handed out as it is written, and is
/// open from then on. The parser has then come to the attributes, and can go on.
pub proof fn lemma_next_event_starts_the_node<R: ParserSource, W: WarningHandler>(
    parser: &mut Parser<R, W>,
    h: WrittenHeader,
    name: Seq<char>,
    r: Result<Event<'_, R, W>, Error>,
)
    requires
        is_ready(*old(parser)),
        has_bytes(old(parser).state(), old(parser).stream()),
        h.fits(old(parser).state().version),
        h.is_of_node(),
        encode_utf8(name).len() == h.name_len,
        starts_with(
            old(parser).stream().at(event_start(old(parser).state(), old(parser).stream())).rest,
            h.bytes(old(parser).state().version) + encode_utf8(name),
        ),
        event_start(old(parser).state(), old(parser).stream()) + header_len(
            old(parser).state().version,
        ) + h.name_len + h.attributes_len <= u64::MAX,
        call_ensures(Parser::<R, W>::next_event, (parser,), r),
    ensures
        r matches Ok(Event::StartNode(node)) && ({
            let before = old(parser).state();
            let s = old(parser).stream();
            let start = event_start(before, s);
            let end = start + header_len(before.version) + h.name_len;
            &&& is_ready(*node.parser)
            &&& node.parser.stream().pos == end
            &&& node.parser.stream().rest == s.rest.skip(end - s.pos)
            &&& node.parser.state().started.len() == before.started.len() + 1
            &&& node.parser.state().started.last() == (NodeModel {
                start: start as u64,
                end: h.end,
                attributes: h.attributes,
                attributes_end: (end + h.attributes_len) as u64,
                name,
                children: 0,
            })
            &&& node.parser.place().component_byte_pos == start
            &&& node.parser.place().byte_pos == end
            &&& node.parser.state().last == Some(EventKind::StartNode)
            &&& *final(node.parser) == *final(parser)
        }),
{
    old(parser).source().lemma_bounded();
    lemma_written_node_starts(old(parser).state(), old(parser).stream(), h, name);
    if let Ok(Event::StartNode(node)) = r {
        node.parser.source().lemma_bounded();
    }
}

/// Zeros in place of a header end the innermost open node, if it is as long as stated,
/// and nothing else about the other nodes changes.
pub proof fn lemma_next_event_ends_the_node<R: ParserSource, W: WarningHandler>(
    parser: &mut Parser<R, W>,
    r: Result<Event<'_, R, W>, Error>,
)
    requires
        is_ready(*old(parser)),
        old(parser).state().started.len() > 0,
        has_bytes(old(parser).state(), old(parser).stream()),
        starts_with(
            old(parser).stream().at(event_start(old(parser).state(), old(parser).stream())).rest,
            zeros(header_len(old(parser).state().version)),
        ),
        event_start(old(parser).state(), old(parser).stream()) + header_len(
            old(parser).state().version,
        ) == old(parser).state().started.last().end,
        call_ensures(Parser::<R, W>::next_event, (parser,), r),
    ensures
        r matches Ok(Event::EndNode),
        is_ready(*final(parser)),
        final(parser).stream().pos == old(parser).state().started.last().end,
        final(parser).stream().rest == old(parser).stream().rest.skip(
            final(parser).stream().pos - old(parser).stream().pos,
        ),
        final(parser).state().started == old(parser).state().started.drop_last(),
        final(parser).state().toplevel == old(parser).state().toplevel,
        final(parser).state().last == Some(EventKind::EndNode),
{
    lemma_zeros_tell_of_an_end(old(parser).state(), old(parser).stream());
}

/// A node with attributes and without children ends behind its attributes, which need not
/// have been read.
pub proof fn lemma_next_event_ends_the_leaf<R: ParserSource, W: WarningHandler>(
    parser: &mut Parser<R, W>,
    r: Result<Event<'_, R, W>, Error>,
)
    requires
        is_ready(*old(parser)),
        old(parser).state().started.len() > 0,
        !old(parser).state().skipped,
        old(parser).state().started.last().attributes > 0,
        old(parser).state().last == Some(EventKind::StartNode),
        event_start(old(parser).state(), old(parser).stream())
            == old(parser).state().started.last().end,
        old(parser).stream().covers(old(parser).state().started.last().end as nat),
        call_ensures(Parser::<R, W>::next_event, (parser,), r),
    ensures
        r matches Ok(Event::EndNode),
        is_ready(*final(parser)),
        final(parser).stream().pos == old(parser).state().started.last().end,
        final(parser).stream().rest == old(parser).stream().rest.skip(
            final(parser).stream().pos - old(parser).stream().pos,
        ),
        final(parser).state().started == old(parser).state().started.drop_last(),
        final(parser).state().toplevel == old(parser).state().toplevel,
        final(parser).state().last == Some(EventKind::EndNode),
{
    lemma_end_of_node_is_reached(old(parser).state(), old(parser).stream());
}

/// Zeros in place of a header, where no node is open, end the document. The footer that is
/// written behind them is handed out, and the parser has read the whole document.
pub proof fn lemma_next_event_ends_the_document<R: ParserSource, W: WarningHandler>(
    parser: &mut Parser<R, W>,
    first: Seq<u8>,
    padding: nat,
    last: Seq<u8>,
    r: Result<Event<'_, R, W>, Error>,
)
    requires
        is_ready(*old(parser)),
        old(parser).state().started.len() == 0,
        first.len() == 16,
        last.len() == 16,
        padding < 16,
        (old(parser).stream().pos + header_len(old(parser).state().version) + padding) % 16 == 0,
        starts_with(
            old(parser).stream().rest,
            zeros(header_len(old(parser).state().version)) + footer_bytes(
                first,
                padding,
                old(parser).state().version,
                last,
            ),
        ),
        call_ensures(Parser::<R, W>::next_event, (parser,), r),
    ensures
        ({
            &&& r matches Ok(Event::EndFbx(Ok(footer)))
            &&& footer.unknown1@ == first
            &&& footer.padding_len == padding
            &&& footer.fbx_version == old(parser).state().version
            &&& footer.unknown3@ == last
        }),
        final(parser).state().health is Finished,
        final(parser).state().started.len() == 0,
        final(parser).stream().pos == old(parser).stream().pos + header_len(
            old(parser).state().version,
        ) + 160 + padding,
{
    let before = *old(parser);
    let s = before.stream();
    let len = header_len(before.state().version);
    let footer = footer_bytes(first, padding, before.state().version, last);
    let marker = zeros(len);
    let found = s.rest.take((marker + footer).len() as int);
    assert(s.at(s.pos).rest =~= s.rest);
    assert(s.rest.take(len as int) =~= found.take(len as int));
    assert(found.take(len as int) =~= marker);
    lemma_zeros_tell_of_an_end(before.state(), s);
    let behind = s.advance(len);
    assert(behind.rest.take(footer.len() as int) =~= found.skip(len as int));
    assert(found.skip(len as int) =~= footer);
    if let Ok(Event::EndFbx(got)) = r {
        let end = choose|end: Stream| #[trigger]
            before.hands_out(EventKind::EndFbx, *final(parser), end) && before.footer_follows(
                end,
                *final(parser),
                got,
            );
        assert(end == behind);
        lemma_written_footer_is_handed_out(
            before,
            end,
            *final(parser),
            first,
            padding,
            last,
            got,
        );
    }
}

/// Whatever follows the zeros that end the document, the end is handed out. Where that is
/// no footer, the end says so: the footer is broken, or the document ends within it.
pub proof fn lemma_next_event_tells_of_the_footer<R: ParserSource, W: WarningHandler>(
    parser: &mut Parser<R, W>,
    r: Result<Event<'_, R, W>, Error>,
)
    requires
        is_ready(*old(parser)),
        old(parser).state().started.len() == 0,
        starts_with(old(parser).stream().rest, zeros(header_len(old(parser).state().version))),
        call_ensures(Parser::<R, W>::next_event, (parser,), r),
    ensures
        final(parser).state().health is Finished,
        r matches Ok(Event::EndFbx(footer)) && ({
            let version = old(parser).state().version;
            let s = old(parser).stream();
            let at = s.pos + header_len(version);
            let rest = s.rest.skip(header_len(version) as int);
            match footer {
                Ok(footer) => starts_with(
                    rest,
                    footer_bytes(
                        footer.unknown1@,
                        footer.padding_len as nat,
                        version,
                        footer.unknown3@,
                    ),
                ) && footer.unknown1@.len() == 16 && footer.unknown3@.len() == 16
                    && footer.padding_len < 16 && (at + footer.padding_len) % 16 == 0
                    && footer.fbx_version == version,
                Err(e) => {
                    &&& e.position is None
                    &&& {
                        ||| e.kind == ErrorKind::Data(DataError::BrokenFbxFooter)
                        ||| {
                            &&& e.kind == ErrorKind::Io(IoError::UnexpectedEof)
                            &&& forall|padding: nat|
                                (at + 16 + padding) % 16 == 0 ==> rest.len() < #[trigger] (160
                                    + padding)
                        }
                    }
                },
            }
        }),
{
    let before = *old(parser);
    let s = before.stream();
    assert(s.at(s.pos).rest =~= s.rest);
    lemma_zeros_tell_of_an_end(before.state(), s);
    if let Ok(Event::EndFbx(got)) = r {
        let end = choose|end: Stream| #[trigger]
            before.hands_out(EventKind::EndFbx, *final(parser), end) && before.footer_follows(
                end,
                *final(parser),
                got,
            );
        assert(end == s.advance(header_len(before.state().version)));
        lemma_footer_is_there(before, end, *final(parser), got);
    }
}

/// Where the document ends within what comes next (unread attributes, a header or a name),
/// that is told, the input is at its end, and so is the place that the error names. The
/// parser has failed.
pub proof fn lemma_next_event_tells_of_a_cut<R: ParserSource, W: WarningHandler>(
    parser: &mut Parser<R, W>,
    h: WrittenHeader,
    r: Result<Event<'_, R, W>, Error>,
)
    requires
        is_ready(*old(parser)),
        ({
            let st = old(parser).state();
            let s = old(parser).stream();
            let end = s.pos + s.rest.len();
            ||| !(st.started.len() > 0 && st.skipped) && end < event_start(st, s)
            ||| has_bytes(st, s) && end < event_start(st, s) + header_len(st.version)
            ||| has_bytes(st, s) && h.fits(st.version) && h.is_of_node() && starts_with(
                s.at(event_start(st, s)).rest,
                h.bytes(st.version),
            ) && end < event_start(st, s) + header_len(st.version) + h.name_len
        }),
        call_ensures(Parser::<R, W>::next_event, (parser,), r),
    ensures
        r matches Err(e) && e.kind == ErrorKind::Io(IoError::UnexpectedEof) && e@.position == Some(
            final(parser).place(),
        ),
        final(parser).stream().pos == old(parser).stream().pos + old(parser).stream().rest.len(),
        final(parser).stream().rest.len() == 0,
        final(parser).state().health == HealthModel::Aborted(final(parser).place()),
        final(parser).state().started == old(parser).state().started,
{
    old(parser).source().lemma_bounded();
    let st = old(parser).state();
    let s = old(parser).stream();
    let end = s.pos + s.rest.len();
    if !(st.started.len() > 0 && st.skipped) && end < event_start(st, s) {
        lemma_cut_attributes_are_noticed(st, s);
    } else if end < event_start(st, s) + header_len(st.version) {
        lemma_cut_header_is_noticed(st, s);
    } else {
        lemma_bad_node_does_not_start(st, s, h);
    }
    if let Err(e) = r {
        lemma_parser_fails_without_events(*old(parser), *final(parser), e);
    }
}

/// A node whose name is no UTF-8, or whose attributes would reach beyond every offset, is
/// refused behind the name.
pub proof fn lemma_next_event_refuses_a_bad_node<R: ParserSource, W: WarningHandler>(
    parser: &mut Parser<R, W>,
    h: WrittenHeader,
    name: Seq<u8>,
    r: Result<Event<'_, R, W>, Error>,
)
    requires
        is_ready(*old(parser)),
        has_bytes(old(parser).state(), old(parser).stream()),
        h.fits(old(parser).state().version),
        h.is_of_node(),
        name.len() == h.name_len,
        starts_with(
            old(parser).stream().at(event_start(old(parser).state(), old(parser).stream())).rest,
            h.bytes(old(parser).state().version),
        ),
        starts_with(
            old(parser).stream().at(
                event_start(old(parser).state(), old(parser).stream()) + header_len(
                    old(parser).state().version,
                ),
            ).rest,
            name,
        ),
        old(parser).stream().covers(
            event_start(old(parser).state(), old(parser).stream()) + header_len(
                old(parser).state().version,
            ) + name.len(),
        ),
        !valid_utf8(name) || event_start(old(parser).state(), old(parser).stream()) + header_len(
            old(parser).state().version,
        ) + name.len() + h.attributes_len > u64::MAX,
        call_ensures(Parser::<R, W>::next_event, (parser,), r),
    ensures
        r matches Err(e) && e@.position == Some(final(parser).place()) && ({
            let end = event_start(old(parser).state(), old(parser).stream()) + header_len(
                old(parser).state().version,
            ) + name.len();
            if !valid_utf8(name) {
                e.kind matches ErrorKind::Data(DataError::InvalidNodeNameEncoding(bytes))
                    && bytes@ == name
            } else {
                e.kind == ErrorKind::Data(DataError::OffsetOverflow(end as u64, h.attributes_len))
            }
        }),
        final(parser).stream().pos == event_start(old(parser).state(), old(parser).stream())
            + header_len(old(parser).state().version) + name.len(),
        final(parser).state().health == HealthModel::Aborted(final(parser).place()),
        final(parser).state().started == old(parser).state().started,
{
    old(parser).source().lemma_bounded();
    let st = old(parser).state();
    let s = old(parser).stream();
    lemma_bad_node_does_not_start(st, s, h);
    let at = event_start(st, s) + header_len(st.version);
    assert(s.at(at).rest.take(name.len() as int) =~= s.rest.subrange(
        at - s.pos,
        at + name.len() - s.pos,
    ));
    if let Err(e) = r {
        lemma_parser_fails_without_events(*old(parser), *final(parser), e);
    }
}

/// A node that does not end where its header states is noticed: where its end has come
/// although more was to follow, or a marker tells of it elsewhere.
pub proof fn lemma_next_event_tells_of_a_wrong_length<R: ParserSource, W: WarningHandler>(
    parser: &mut Parser<R, W>,
    marked: bool,
    r: Result<Event<'_, R, W>, Error>,
)
    requires
        is_ready(*old(parser)),
        old(parser).state().started.len() > 0,
        !old(parser).state().skipped,
        ({
            let st = old(parser).state();
            let s = old(parser).stream();
            let node = st.started.last();
            let here = event_start(st, s);
            &&& s.covers(here)
            &&& if marked {
                &&& here < node.end
                &&& starts_with(s.at(here).rest, zeros(header_len(st.version)))
                &&& here + header_len(st.version) != node.end
            } else {
                &&& node.end <= here
                &&& node.end < here || node.attributes == 0 || st.last == Some(EventKind::EndNode)
            }
        }),
        call_ensures(Parser::<R, W>::next_event, (parser,), r),
    ensures
        r matches Err(e) && e@.position == Some(final(parser).place()) && e.kind == ErrorKind::Data(
            DataError::NodeLengthMismatch(
                old(parser).state().started.last().end,
                if marked {
                    Some(
                        (event_start(old(parser).state(), old(parser).stream()) + header_len(
                            old(parser).state().version,
                        )) as u64,
                    )
                } else {
                    None
                },
            ),
        ),
        final(parser).state().health == HealthModel::Aborted(final(parser).place()),
{
    old(parser).source().lemma_bounded();
    if marked {
        lemma_zeros_tell_of_an_end(old(parser).state(), old(parser).stream());
    } else {
        lemma_end_of_node_is_reached(old(parser).state(), old(parser).stream());
    }
    if let Err(e) = r {
        lemma_parser_fails_without_events(*old(parser), *final(parser), e);
    }
}

/// A parser that has come to the end of the document, or has failed, hands out nothing
/// more. It says which of the two holds, and where it failed.
pub proof fn lemma_no_event_follows<R: ParserSource, W: WarningHandler>(
    parser: &mut Parser<R, W>,
    r: Result<Event<'_, R, W>, Error>,
)
    requires
        old(parser).wf(),
        !(old(parser).state().health is Running) || old(parser).state().failure is Some,
        call_ensures(Parser::<R, W>::next_event, (parser,), r),
    ensures
        r matches Err(e) && match old(parser).state().health {
            HealthModel::Finished => {
                &&& e.kind == ErrorKind::Operation(OperationError::AlreadyFinished)
                &&& e.position is None
            },
            HealthModel::Aborted(pos) => {
                &&& e.kind == ErrorKind::Operation(OperationError::AlreadyAborted)
                &&& e@.position == Some(pos)
            },
            HealthModel::Running => {
                &&& e.kind == ErrorKind::Operation(OperationError::AlreadyAborted)
                &&& e@.position == Some(old(parser).place())
            },
        },
        final(parser).stream() == old(parser).stream(),
        final(parser).state().started == old(parser).state().started,
        old(parser).state().health is Finished ==> final(parser).state().health is Finished,
        !(old(parser).state().health is Finished) ==> final(parser).state().health is Aborted,
{
}

/// To skip a node and then to ask for an event gives the end of that node, behind its last
/// byte, whatever the node holds.
pub proof fn lemma_skip_comes_to_the_end_of_the_node<R: ParserSource, W: WarningHandler>(
    parser: &mut Parser<R, W>,
    skipped: Result<(), Error>,
    later: &mut Parser<R, W>,
    r: Result<Event<'_, R, W>, Error>,
)
    requires
        is_ready(*old(parser)),
        old(parser).state().started.len() > 0,
        old(parser).stream().covers(old(parser).state().started.last().end as nat),
        call_ensures(Parser::<R, W>::skip_current_node, (parser,), skipped),
        *final(parser) == *old(later),
        call_ensures(Parser::<R, W>::next_event, (later,), r),
    ensures
        skipped is Ok,
        r matches Ok(Event::EndNode),
        is_ready(*final(later)),
        final(later).stream().pos == old(parser).state().started.last().end,
        final(later).stream().rest == old(parser).stream().rest.skip(
            final(later).stream().pos - old(parser).stream().pos,
        ),
        final(later).state().started == old(parser).state().started.drop_last(),
        final(later).state().toplevel == old(parser).state().toplevel,
{
    lemma_skip_leaves_out_the_node(*old(parser), *final(parser), skipped);
    lemma_skipped_node_ends(old(later).state(), old(later).stream());
}

/// A skip that fails is answered with what is wrong: the end of the node has been passed,
/// or the document ends before it. From then on the parser hands out nothing.
pub proof fn lemma_failed_skip_is_told<R: ParserSource, W: WarningHandler>(
    parser: &mut Parser<R, W>,
    r: Result<(), Error>,
)
    requires
        is_ready(*old(parser)),
        old(parser).state().started.len() > 0,
        !old(parser).stream().covers(old(parser).state().started.last().end as nat),
        call_ensures(Parser::<R, W>::skip_current_node, (parser,), r),
    ensures
        r matches Err(e) && e.position is None && e.kind == ErrorKind::Io(
            if old(parser).state().started.last().end < old(parser).stream().pos {
                IoError::InvalidInput
            } else {
                IoError::UnexpectedEof
            },
        ),
        old(parser).state().started.last().end < old(parser).stream().pos ==> final(parser).stream()
            == old(parser).stream(),
        final(parser).state().failure is Some,
        final(parser).state().started == old(parser).state().started,
{
    lemma_skip_leaves_out_the_node(*old(parser), *final(parser), r);
}

/// A node that has started says the name that it has been opened with.
pub proof fn lemma_started_node_says_its_name<R: ParserSource, W: WarningHandler>(
    node: StartNode<'_, R, W>,
    parser: Parser<R, W>,
    name: &str,
)
    requires
        parser == *node.parser,
        parser.wf(),
        parser.state().started.len() > 0,
        call_ensures(StartNode::<R, W>::name, (&node,), name),
    ensures
        name@ == parser.state().started.last().name,
{
}

/// The attributes of a node that has started are as many as its header states, all of them
/// are left, and the first is looked for where the parser is.
pub proof fn lemma_started_node_gives_its_attributes<R: ParserSource, W: WarningHandler>(
    node: StartNode<'_, R, W>,
    parser: Parser<R, W>,
    attributes: Attributes<'_, R, W>,
    all: u64,
    left: u64,
)
    requires
        parser == *node.parser,
        parser.wf(),
        parser.state().started.len() > 0,
        call_ensures(StartNode::<R, W>::attributes, (node,), attributes),
        call_ensures(Attributes::<R, W>::total_count, (&attributes,), all),
        call_ensures(Attributes::<R, W>::rest_count, (&attributes,), left),
    ensures
        all == parser.state().started.last().attributes,
        left == all,
        all == attributes.total(),
        left == attributes.left(),
        next_start(attributes.prev_end(), parser.stream().pos) == parser.stream().pos,
        *old(attributes.parser) == parser,
{
}

/// A parser says of its innermost node the name that the node was opened with.
pub proof fn lemma_parser_says_the_name<R: ParserSource, W: WarningHandler>(
    parser: Parser<R, W>,
    name: &str,
)
    requires
        parser.wf(),
        parser.state().started.len() > 0,
        call_ensures(Parser::<R, W>::current_node_name, (&parser,), name),
    ensures
        name@ == parser.state().started.last().name,
        name@ == parser.place().node_path.last().1,
{
}

/// A parser says how many nodes are open, which is as many as there are steps on the path
/// to its place, and the version of the document.
pub proof fn lemma_parser_says_the_depth<R: ParserSource, W: WarningHandler>(
    parser: Parser<R, W>,
    depth: usize,
    version: FbxVersion,
    pos: SyntacticPosition,
)
    requires
        parser.wf(),
        call_ensures(Parser::<R, W>::current_depth, (&parser,), depth),
        call_ensures(Parser::<R, W>::fbx_version, (&parser,), version),
        call_ensures(Parser::<R, W>::position, (&parser,), pos),
    ensures
        depth == parser.state().started.len(),
        depth == pos.node_path@.len(),
        version == parser.state().version,
{
    lemma_position_says_the_place(parser, pos);
}

/// A parser is made for the documents from FBX 7.4 on, up to but without FBX 8. It starts
/// behind the header of the document, with all that the reader has still to deliver, and
/// can go on. Documents of other versions are refused.
pub proof fn lemma_parser_is_made<R: ByteReader, W: WarningHandler>(
    header: FbxHeader,
    reader: R,
    r: Result<Parser<PlainSource<R>, W>, Error>,
)
    requires
        reader.wf(),
        reader.failures() == Set::<IoError>::empty(),
        call_ensures(from_reader::<R, W>, (header, reader), r),
    ensures
        if 7400 <= header.version.0 < 8000 {
            r matches Ok(parser) && is_ready(parser) && parser.stream() == (Stream {
                pos: 27,
                rest: reader.rest(),
            }) && parser.state().version == header.version && parser.state().started.len() == 0
                && parser.state().toplevel == 0 && parser.state().last is None
                && parser.place().node_path.len() == 0
        } else {
            r matches Err(e) && e.position is None && e.kind == ErrorKind::Operation(
                OperationError::UnsupportedFbxVersion(ParserVersion::V7400, header.version),
            )
        },
{
}

/// The same holds of a parser that leaves bytes out by seeking.
pub proof fn lemma_seeking_parser_is_made<R: SeekReader, W: WarningHandler>(
    header: FbxHeader,
    reader: R,
    r: Result<Parser<SeekableSource<R>, W>, Error>,
)
    requires
        reader.wf(),
        reader.failures() == Set::<IoError>::empty(),
        call_ensures(from_seekable_reader::<R, W>, (header, reader), r),
    ensures
        if 7400 <= header.version.0 < 8000 {
            r matches Ok(parser) && is_ready(parser) && parser.stream() == (Stream {
                pos: 27,
                rest: reader.rest(),
            }) && parser.state().version == header.version && parser.state().started.len() == 0
                && parser.state().toplevel == 0 && parser.state().last is None
                && parser.place().node_path.len() == 0
        } else {
            r matches Err(e) && e.position is None && e.kind == ErrorKind::Operation(
                OperationError::UnsupportedFbxVersion(ParserVersion::V7400, header.version),
            )
        },
{
}

/// What is set to be told of warnings is told from then on, and nothing else changes.
pub proof fn lemma_handler_is_set<R: ParserSource, W: WarningHandler>(
    parser: &mut Parser<R, W>,
    handler: W,
)
    requires
        old(parser).wf(),
        call_ensures(Parser::<R, W>::set_warning_handler, (parser, handler), ()),
    ensures
        final(parser).handler() == Some(handler),
        final(parser).state() == old(parser).state(),
        final(parser).stream() == old(parser).stream(),
{
}

/// An error says what went wrong and where, as it was made.
pub proof fn lemma_error_says_what_and_where(
    error: Error,
    kind: &ErrorKind,
    position: Option<&SyntacticPosition>,
    pos: SyntacticPosition,
    placed: Error,
)
    requires
        call_ensures(Error::kind, (&error,), kind),
        call_ensures(Error::position, (&error,), position),
        call_ensures(Error::and_position, (error, pos), placed),
    ensures
        *kind == error.kind,
        position is Some == error.position is Some,
        position matches Some(at) ==> Some(*at) == error.position,
        placed.kind == error.kind,
        placed.position == Some(pos),
{
}

/// A copy of a place is the same place.
pub proof fn lemma_copied_place_is_the_same(pos: SyntacticPosition, copy: SyntacticPosition)
    requires
        call_ensures(<SyntacticPosition as Clone>::clone, (&pos,), copy),
    ensures
        copy.byte_pos == pos.byte_pos,
        copy.component_byte_pos == pos.component_byte_pos,
        copy.attribute_index == pos.attribute_index,
        copy.node_path@.len() == pos.node_path@.len(),
        forall|i: int|
            0 <= i < pos.node_path@.len() ==> (#[trigger] copy.node_path@[i]).0
                == pos.node_path@[i].0 && copy.node_path@[i].1@ == pos.node_path@[i].1@,
{
    assert(copy@.node_path.len() == copy.node_path@.len());
    assert(pos@.node_path.len() == pos.node_path@.len());
    assert forall|i: int| 0 <= i < pos.node_path@.len() implies (#[trigger] copy.node_path@[i]).0
        == pos.node_path@[i].0 && copy.node_path@[i].1@ == pos.node_path@[i].1@ by {
        assert(copy@.node_path[i] == (copy.node_path@[i].0, copy.node_path@[i].1@));
        assert(pos@.node_path[i] == (pos.node_path@[i].0, pos.node_path@[i].1@));
    }
}

/// An error is of the kind that it is made as, and says nothing of a place until it is told
/// one.
pub proof fn lemma_errors_are_made(
    fault: DataError,
    data: Error,
    failure: IoError,
    io: Error,
    refusal: OperationError,
    operation: Error,
    oddity: Warning,
    warning: Error,
    kind: ErrorKind,
    pos: SyntacticPosition,
    placed: Error,
)
    requires
        call_ensures(Error::data, (fault,), data),
        call_ensures(Error::io, (failure,), io),
        call_ensures(Error::operation, (refusal,), operation),
        call_ensures(Error::warning, (oddity,), warning),
        call_ensures(Error::with_position, (kind, pos), placed),
    ensures
        data == (Error { kind: ErrorKind::Data(fault), position: None }),
        io == (Error { kind: ErrorKind::Io(failure), position: None }),
        operation == (Error { kind: ErrorKind::Operation(refusal), position: None }),
        warning == (Error { kind: ErrorKind::Warning(oddity), position: None }),
        placed == (Error { kind, position: Some(pos) }),
{
}

/// Exactly the documents from FBX 7.4 on, up to but without FBX 8, have a parser.
pub proof fn lemma_parser_is_known(version: FbxVersion, r: Option<ParserVersion>)
    requires
        call_ensures(ParserVersion::from_fbx_version, (version,), r),
    ensures
        r == if 7400 <= version.0 < 8000 {
            Some(ParserVersion::V7400)
        } else {
            None
        },
{
}

/// To ask for an event gives the first of those that the document has left, and leaves the
/// others. Where none is left, it gives an error.
pub proof fn lemma_next_event_gives_the_first<R: ParserSource, W: WarningHandler>(
    parser: &mut Parser<R, W>,
    r: Result<Event<'_, R, W>, Error>,
)
    requires
        is_ready(*old(parser)),
        call_ensures(Parser::<R, W>::next_event, (parser,), r),
    ensures
        ({
            let all = events(old(parser).state(), old(parser).stream());
            if all.len() == 0 {
                r is Err
            } else {
                match all[0] {
                    EventModel::Start(name, attributes) => {
                        &&& r matches Ok(Event::StartNode(node))
                        &&& node.parser.state().started.last().name == name
                        &&& node.parser.state().started.last().attributes == attributes
                        &&& is_ready(*node.parser)
                        &&& events(node.parser.state(), node.parser.stream()) == all.drop_first()
                    },
                    EventModel::End => {
                        &&& r matches Ok(Event::EndNode)
                        &&& is_ready(*final(parser))
                        &&& events(final(parser).state(), final(parser).stream())
                            == all.drop_first()
                    },
                    EventModel::EndFbx => {
                        &&& r matches Ok(Event::EndFbx(_))
                        &&& all.len() == 1
                        &&& final(parser).state().health is Finished
                    },
                }
            }
        }),
{
    let before = *old(parser);
    match r {
        Ok(Event::StartNode(node)) => {
            lemma_first_event_is_handed_out(
                before,
                EventKind::StartNode,
                *node.parser,
                node.parser.stream(),
            );
        },
        Ok(Event::EndNode) => {
            lemma_first_event_is_handed_out(
                before,
                EventKind::EndNode,
                *final(parser),
                final(parser).stream(),
            );
        },
        Ok(Event::EndFbx(footer)) => {
            let s = choose|s: Stream| #[trigger]
                before.hands_out(EventKind::EndFbx, *final(parser), s) && before.footer_follows(
                    s,
                    *final(parser),
                    footer,
                );
            lemma_first_event_is_handed_out(before, EventKind::EndFbx, *final(parser), s);
            assert(events(final(parser).state(), s).len() == 0);
        },
        Err(e) => {
            lemma_parser_fails_without_events(before, *final(parser), e);
        },
    }
}

} // verus!
