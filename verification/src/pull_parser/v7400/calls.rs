//! What comes of the calls to a parser.
use vstd::prelude::*;

use crate::low::encoding::{
    footer_bytes, lemma_footer_is_read_back, lemma_footer_is_written_back, starts_with,
};
use crate::low::v7400::FbxFooter;
use crate::low::FbxVersion;
use crate::pull_parser::error::{DataError, DataFault, Error, ErrorKind, ErrorKindModel};
use crate::pull_parser::reader::{IoError, ParserSource, Stream};
use crate::pull_parser::v7400::laws::{
    events, lemma_bytes_are_read_in_order, lemma_events_make_progress, EventModel,
};
use crate::pull_parser::v7400::parser::Parser;
use crate::pull_parser::v7400::state::{EventKind, HealthModel, StateModel, Step};
use crate::pull_parser::version::ParserVersion;
use crate::pull_parser::warning::{IgnoreWarnings, Warning, WarningHandler};

verus! {

/// An event that is handed out is the first of those that are left, and the others are
/// left afterwards.
pub proof fn lemma_first_event_is_handed_out<R: ParserSource, W: WarningHandler>(
    before: Parser<R, W>,
    kind: EventKind,
    after: Parser<R, W>,
    s: Stream,
)
    requires
        before.hands_out(kind, after, s),
    ensures
        events(before.state(), before.stream()).len() > 0,
        match events(before.state(), before.stream())[0] {
            EventModel::Start(name, attributes) => {
                &&& kind == EventKind::StartNode
                &&& after.state().started.len() > 0
                &&& after.state().started.last().name == name
                &&& after.state().started.last().attributes == attributes
            },
            EventModel::End => kind == EventKind::EndNode,
            EventModel::EndFbx => kind == EventKind::EndFbx,
        },
        events(before.state(), before.stream()).drop_first() == events(after.state(), s),
        after.state().started.len() == match kind {
            EventKind::StartNode => before.state().started.len() + 1int,
            EventKind::EndNode => before.state().started.len() - 1,
            EventKind::EndFbx => 0,
        },
        before.stream().reaches(s),
{
    lemma_events_make_progress(before.state(), before.stream());
    lemma_bytes_are_read_in_order(before.state(), before.stream());
    let all = events(before.state(), before.stream());
    if kind == EventKind::EndFbx {
        assert(events(after.state(), s) =~= Seq::empty());
    }
    assert(all.drop_first() =~= events(after.state(), s));
}

/// A parser that hands out an event stays ready for the next one, until the document has
/// ended. It remembers the kind of the event, and nothing that was skipped before.
pub proof fn lemma_parser_stays_ready<R: ParserSource, W: WarningHandler>(
    before: Parser<R, W>,
    kind: EventKind,
    after: Parser<R, W>,
    s: Stream,
)
    requires
        before.wf(),
        before.hands_out(kind, after, s),
    ensures
        before.state().health is Running,
        before.state().failure is None,
        after.state().health == if kind == EventKind::EndFbx {
            HealthModel::Finished
        } else {
            HealthModel::Running
        },
        after.state().last == Some(kind),
        after.state().failure is None,
        !after.state().skipped,
        after.state().version == before.state().version,
        after.source().failures() == before.source().failures(),
{
}

/// Without failures of the input, and with nothing that is told of warnings or no cause for
/// one, a parser fails only where no event is left, and then says why: the document ends
/// too early, or has a fault. It has then failed at the place that the error names.
pub proof fn lemma_parser_fails_without_events<R: ParserSource, W: WarningHandler>(
    before: Parser<R, W>,
    after: Parser<R, W>,
    e: Error,
)
    requires
        before.fails_with(after, e),
        before.source().failures() == Set::<IoError>::empty(),
        before.handler() is None || !before.state().warns(before.stream()),
    ensures
        events(before.state(), before.stream()).len() == 0,
        e@.position == Some(after.place()),
        match before.state().next(before.stream()) {
            Step::Event(_, _, _) => false,
            Step::Fail(fault, state, s) => {
                &&& e.kind matches ErrorKind::Data(error)
                &&& error@ == fault
                &&& after.stream() == s
                &&& after.state().started == state.started
            },
            Step::Truncated => {
                &&& e.kind == ErrorKind::Io(IoError::UnexpectedEof)
                &&& after.stream().rest.len() == 0
                &&& after.stream().pos == before.stream().pos + before.stream().rest.len()
                &&& after.state().started == before.state().started
            },
        },
        after.state().health == HealthModel::Aborted(after.place()),
        events(after.state(), after.stream()).len() == 0,
{
}

/// What an error in a document says is what is wrong with the document.
pub proof fn lemma_error_says_the_fault(error: DataError)
    ensures
        match error@ {
            DataFault::BrokenFbxFooter => error is BrokenFbxFooter,
            DataFault::InvalidCompression => error is InvalidCompression,
            DataFault::InvalidArrayAttributeEncoding(raw) => error
                == DataError::InvalidArrayAttributeEncoding(raw),
            DataFault::InvalidAttributeTypeCode(raw) => error
                == DataError::InvalidAttributeTypeCode(raw),
            DataFault::InvalidNodeNameEncoding(name) => error matches
                DataError::InvalidNodeNameEncoding(bytes) && bytes@ == name,
            DataFault::NodeLengthMismatch(stated, actual) => error
                == DataError::NodeLengthMismatch(stated, actual),
            DataFault::OffsetOverflow(offset, len) => error == DataError::OffsetOverflow(
                offset,
                len,
            ),
            DataFault::InvalidStringEncoding(text) => error matches
                DataError::InvalidStringEncoding(bytes) && bytes@ == text,
        },
{
}

/// Where what is told of warnings takes an empty name for an error, the parser fails with
/// that error, behind the header of the node. Where it lets that pass, or the name is not
/// empty, the parser does not fail on that account.
pub proof fn lemma_warnings_are_told<R: ParserSource, W: WarningHandler>(
    before: Parser<R, W>,
    handler: W,
    kind: EventKind,
    after: Parser<R, W>,
    s: Stream,
)
    requires
        before.handler() == Some(handler),
        before.hands_out(kind, after, s),
    ensures
        after.handler() is Some,
        if before.state().warns(before.stream()) {
            handler.answers(Warning::EmptyNodeName, None, after.handler().unwrap())
        } else {
            after.handler() == Some(handler)
        },
{
}

/// A parser that is told nothing of warnings is told nothing by an event either.
pub proof fn lemma_no_handler_comes_up<R: ParserSource, W: WarningHandler>(
    before: Parser<R, W>,
    kind: EventKind,
    after: Parser<R, W>,
    s: Stream,
)
    requires
        before.handler() is None,
        before.hands_out(kind, after, s),
    ensures
        after.handler() is None,
{
}

/// Without failures of the input a parser fails with the error that a warning was
/// answered with, if the document has an event next.
pub proof fn lemma_refusal_is_told<R: ParserSource, W: WarningHandler>(
    before: Parser<R, W>,
    handler: W,
    after: Parser<R, W>,
    e: Error,
)
    requires
        before.handler() == Some(handler),
        before.source().failures() == Set::<IoError>::empty(),
        before.state().next(before.stream()) is Event,
        before.fails_with(after, e),
    ensures
        before.state().warns(before.stream()),
        after.stream() == before.state().header_end(before.stream()),
        e@.position == Some(after.place()),
        exists|cause: Error|
            e.kind == cause.kind && after.handler() is Some && #[trigger] handler.answers(
                Warning::EmptyNodeName,
                Some(cause),
                after.handler().unwrap(),
            ),
{
    let cause = choose|cause: Error|
        e.kind == cause.kind && #[trigger] before.tells(Some(cause), after);
    assert(handler.answers(Warning::EmptyNodeName, Some(cause), after.handler().unwrap()));
}

/// To skip a node is to leave out the bytes up to the end that its header states. An end
/// that has been passed is refused, and nothing is read. Where the document ends before,
/// that is told, and the document is at its end.
pub proof fn lemma_skip_leaves_out_the_node<R: ParserSource, W: WarningHandler>(
    before: Parser<R, W>,
    after: Parser<R, W>,
    r: Result<(), Error>,
)
    requires
        before.state().started.len() > 0,
        before.source().failures() == Set::<IoError>::empty(),
        before.skips_to(after, r),
    ensures
        ({
            let end = before.state().started.last().end;
            let s = before.stream();
            if end < s.pos {
                &&& r matches Err(e)
                &&& e.kind == ErrorKind::Io(IoError::InvalidInput)
                &&& e.position is None
                &&& after.stream() == s
            } else if s.pos + s.rest.len() < end {
                &&& r matches Err(e)
                &&& e.kind == ErrorKind::Io(IoError::UnexpectedEof)
                &&& e.position is None
                &&& after.stream().pos == s.pos + s.rest.len()
                &&& after.stream().rest.len() == 0
            } else {
                &&& r is Ok
                &&& after.stream().pos == end
                &&& after.stream().rest == s.rest.skip(end - s.pos)
                &&& after.state().failure == before.state().failure
                &&& after.state().skipped
            }
        }),
        r is Err ==> after.state().failure == Some(after.place()),
        after.state().started == before.state().started,
        after.state().toplevel == before.state().toplevel,
        after.state().health == before.state().health,
        after.state().last == before.state().last,
        after.state().version == before.state().version,
        after.handler() == before.handler(),
{
}

/// The footer that is written after the end of the nodes is handed out as it is written.
pub proof fn lemma_written_footer_is_handed_out<R: ParserSource, W: WarningHandler>(
    before: Parser<R, W>,
    s: Stream,
    after: Parser<R, W>,
    first: Seq<u8>,
    padding: nat,
    last: Seq<u8>,
    footer: Result<Box<FbxFooter>, Error>,
)
    requires
        before.source().failures() == Set::<IoError>::empty(),
        before.footer_follows(s, after, footer),
        first.len() == 16,
        last.len() == 16,
        padding < 16,
        (s.pos + padding) % 16 == 0,
        starts_with(s.rest, footer_bytes(first, padding, before.state().version, last)),
    ensures
        footer matches Ok(footer) && footer.unknown1@ == first && footer.padding_len == padding
            && footer.fbx_version == before.state().version && footer.unknown3@ == last,
        after.stream().pos == s.pos + 160 + padding,
        after.stream().rest == s.rest.skip((160 + padding) as int),
{
    lemma_footer_is_read_back(before.state().version, first, padding, last, s);
}

/// A footer that is handed out is written there. Where none is, the document ends within
/// it, or it is broken, and that is told.
pub proof fn lemma_footer_is_there<R: ParserSource, W: WarningHandler>(
    before: Parser<R, W>,
    s: Stream,
    after: Parser<R, W>,
    footer: Result<Box<FbxFooter>, Error>,
)
    requires
        before.source().failures() == Set::<IoError>::empty(),
        before.footer_follows(s, after, footer),
    ensures
        match footer {
            Ok(footer) => starts_with(
                s.rest,
                footer_bytes(
                    footer.unknown1@,
                    footer.padding_len as nat,
                    before.state().version,
                    footer.unknown3@,
                ),
            ) && footer.unknown1@.len() == 16 && footer.unknown3@.len() == 16
                && footer.padding_len < 16 && (s.pos + footer.padding_len) % 16 == 0
                && footer.fbx_version == before.state().version,
            Err(e) => {
                &&& e.position is None
                &&& {
                    ||| e.kind == ErrorKind::Data(DataError::BrokenFbxFooter)
                    ||| {
                        &&& e.kind == ErrorKind::Io(IoError::UnexpectedEof)
                        &&& forall|padding: nat|
                            (s.pos + 16 + padding) % 16 == 0 ==> s.rest.len() < #[trigger] (160
                                + padding)
                        &&& after.stream().pos == s.pos + s.rest.len()
                        &&& after.stream().rest.len() == 0
                    }
                }
            },
        },
{
    lemma_footer_is_written_back(before.state().version, s);
}

/// The parser reads documents from FBX 7.4 on, up to but without FBX 8.
pub proof fn lemma_versions_that_are_read(version: FbxVersion)
    ensures
        ParserVersion::reading(version) == Some(ParserVersion::V7400) <==> 7400 <= version.0
            && version.0 < 8000,
{
}

/// A parser that has read nothing can go on, is in no node and knows of none.
pub proof fn lemma_parser_starts_ready(version: FbxVersion)
    ensures
        ({
            let st = StateModel::initial(version);
            &&& st.version == version
            &&& st.health is Running
            &&& st.started.len() == 0
            &&& st.last is None
            &&& st.toplevel == 0
            &&& !st.skipped
            &&& st.failure is None
        }),
{
}

/// A failure of the input is passed on as it is: where a parser fails with one, it is one
/// that the source may give, or the document ends too early. The nodes that were open are
/// still open.
pub proof fn lemma_input_failure_is_passed_on<R: ParserSource, W: WarningHandler>(
    before: Parser<R, W>,
    after: Parser<R, W>,
    e: Error,
)
    requires
        before.fails_with(after, e),
        before.handler() is None || !before.state().warns(before.stream()),
    ensures
        match e.kind {
            ErrorKind::Io(io) => {
                &&& before.source().failures().contains(io) || io == IoError::UnexpectedEof
                    && before.state().next(before.stream()) is Truncated
                &&& after.state().started == before.state().started
            },
            ErrorKind::Data(error) => {
                &&& before.state().next(before.stream()) matches Step::Fail(fault, _, _)
                &&& error@ == fault
            },
            _ => false,
        },
        e@.position == Some(after.place()),
        after.state().health == HealthModel::Aborted(after.place()),
{
}

/// So is one that keeps a node from being skipped.
pub proof fn lemma_input_failure_of_a_skip_is_passed_on<R: ParserSource, W: WarningHandler>(
    before: Parser<R, W>,
    after: Parser<R, W>,
    e: Error,
)
    requires
        before.state().started.len() > 0,
        before.skips_to(after, Err(e)),
    ensures
        e.position is None,
        e.kind matches ErrorKind::Io(io) && (before.source().failures().contains(io) || io
            == if before.state().started.last().end < before.stream().pos {
            IoError::InvalidInput
        } else {
            IoError::UnexpectedEof
        }),
        after.state().failure == Some(after.place()),
        after.state().started == before.state().started,
{
}

/// A handler that lets every warning pass refuses none.
pub proof fn lemma_ignored_warnings_pass(
    handler: &mut IgnoreWarnings,
    warning: Warning,
    r: Result<(), Error>,
)
    requires
        call_ensures(<IgnoreWarnings as WarningHandler>::handle, (handler, warning), r),
    ensures
        r is Ok,
{
}

/// What is told of warnings lets one pass if it gives no error, and refuses it with the
/// error that it gives.
pub proof fn lemma_answer_is_what_is_given<W: WarningHandler>(
    handler: &mut W,
    warning: Warning,
    r: Result<(), Error>,
)
    requires
        call_ensures(<W as WarningHandler>::handle, (handler, warning), r),
    ensures
        match r {
            Ok(()) => old(handler).answers(warning, None, *final(handler)),
            Err(e) => old(handler).answers(warning, Some(e), *final(handler)),
        },
{
}

/// A warning comes before what follows the header: where the input does not fail, a parser
/// with an empty name next fails either with the error that the warning was answered with,
/// behind the header, or with a fault that comes later, the warning having been let pass.
pub proof fn lemma_warning_comes_first<R: ParserSource, W: WarningHandler>(
    before: Parser<R, W>,
    handler: W,
    after: Parser<R, W>,
    e: Error,
)
    requires
        before.handler() == Some(handler),
        before.source().failures() == Set::<IoError>::empty(),
        before.state().warns(before.stream()),
        before.fails_with(after, e),
    ensures
        after.handler() is Some,
        e@.position == Some(after.place()),
        after.state().health == HealthModel::Aborted(after.place()),
        ({
            let told = after.handler().unwrap();
            ||| {
                &&& after.stream() == before.state().header_end(before.stream())
                &&& exists|cause: Error|
                    e.kind == cause.kind && #[trigger] handler.answers(
                        Warning::EmptyNodeName,
                        Some(cause),
                        told,
                    )
            }
            ||| {
                &&& handler.answers(Warning::EmptyNodeName, None, told)
                &&& match before.state().next(before.stream()) {
                    Step::Event(_, _, _) => false,
                    Step::Fail(fault, _, s) => e@.kind == ErrorKindModel::Data(fault)
                        && after.stream() == s,
                    Step::Truncated => e.kind == ErrorKind::Io(IoError::UnexpectedEof),
                }
            }
        }),
{
    if exists|cause: Error| e.kind == cause.kind && #[trigger] before.tells(Some(cause), after) {
        let cause = choose|cause: Error|
            e.kind == cause.kind && #[trigger] before.tells(Some(cause), after);
        assert(handler.answers(Warning::EmptyNodeName, Some(cause), after.handler().unwrap()));
    }
}

} // verus!
