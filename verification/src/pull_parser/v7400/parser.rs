//! Parser for FBX 7.4 or later.
use vstd::prelude::*;

use crate::low::{FbxHeader, FbxVersion};
use crate::low::v7400::{FbxFooter, NodeHeader};
use crate::pull_parser::error::{
    DataError, Decoded, Error, ErrorKind, ErrorModel, OperationError,
};
use crate::pull_parser::position::{path_model, PositionModel, SyntacticPosition};
use crate::pull_parser::reader::{
    lemma_reaches_reflexive, lemma_reaches_transitive, moves_on, skip_failure, ByteReader,
    IoError, ParserSource, PlainSource, SeekReader, SeekableSource, Stream,
};
use crate::pull_parser::v7400::attribute::payload::AttributeReader;
use crate::pull_parser::v7400::event::{Event, StartNode};
use crate::pull_parser::v7400::from_parser::FromParser;
use crate::pull_parser::v7400::read::{input_failure, obtains, read_array};
use crate::pull_parser::v7400::state::{
    EventKind, Health, HealthModel, StartedNode, State, StateModel, Step,
};
use crate::pull_parser::v7400::text::string_from_utf8;
use crate::pull_parser::version::ParserVersion;
use crate::pull_parser::warning::{refusal_of, IgnoreWarnings, Warning, WarningHandler};

verus! {

/// Pull parser for FBX 7.4 binary or compatible later versions.
#[derive(Debug)]
pub struct Parser<R, W = IgnoreWarnings> {
    /// What the parser knows of the document.
    state: State,
    /// Source of the document.
    reader: AttributeReader<R>,
    /// What is told of warnings.
    warning_handler: Option<W>,
}

impl<R: ParserSource, W: WarningHandler> Parser<R, W> {
    /// Parser version.
    pub const PARSER_VERSION: ParserVersion = ParserVersion::V7400;

    /// What the parser knows of the document.
    pub closed spec fn state(&self) -> StateModel {
        self.state@
    }

    /// The source of the document.
    pub closed spec fn source(&self) -> R {
        self.reader.source()
    }

    /// What is told of warnings.
    pub closed spec fn handler(&self) -> Option<W> {
        self.warning_handler
    }

    /// What is still unread of the document.
    pub open spec fn stream(&self) -> Stream {
        self.source().stream()
    }

    /// Whether the parser can be used.
    pub open spec fn wf(&self) -> bool {
        &&& self.source().wf()
        &&& self.state().wf(self.stream().pos)
    }

    /// The place that the parser has come to.
    pub open spec fn place(&self) -> PositionModel {
        self.state().position_at(self.stream().pos)
    }

    /// Creates a parser.
    ///
    /// Returns an error if the given FBX version is unsupported.
    pub(crate) fn create(fbx_version: FbxVersion, reader: R) -> (r: Result<Self, Error>)
        requires
            reader.wf(),
        ensures
            match r {
                Ok(parser) => {
                    &&& ParserVersion::reading(fbx_version) == Some(ParserVersion::V7400)
                    &&& parser.wf()
                    &&& parser.state() == StateModel::initial(fbx_version)
                    &&& parser.source() == reader
                    &&& parser.handler() is None
                },
                Err(e) => {
                    &&& ParserVersion::reading(fbx_version) != Some(ParserVersion::V7400)
                    &&& e@ == ErrorModel::operation(
                        OperationError::UnsupportedFbxVersion(ParserVersion::V7400, fbx_version),
                    )
                },
            },
    {
        match ParserVersion::from_fbx_version(fbx_version) {
            Some(version) if version == Self::PARSER_VERSION => {
                Ok(
                    Parser {
                        state: State::new(fbx_version),
                        reader: AttributeReader::new(reader),
                        warning_handler: None,
                    },
                )
            },
            _ => Err(
                Error::operation(
                    OperationError::UnsupportedFbxVersion(Self::PARSER_VERSION, fbx_version),
                ),
            ),
        }
    }

    /// Sets what is told of warnings.
    pub fn set_warning_handler(&mut self, warning_handler: W)
        requires
            old(self).wf(),
        ensures
            final(self).wf(),
            final(self).handler() == Some(warning_handler),
            final(self).state() == old(self).state(),
            final(self).source() == old(self).source(),
    {
        self.warning_handler = Some(warning_handler);
    }

    /// Returns the source of the document.
    pub(crate) fn reader(&mut self) -> (reader: &mut R)
        ensures
            *reader == old(self).source(),
            final(self).source() == *final(reader),
            final(self).state() == old(self).state(),
            final(self).handler() == old(self).handler(),
    {
        self.reader.source_mut()
    }

    /// Returns the offset of the byte that is read next.
    pub(crate) fn offset(&self) -> (pos: u64)
        requires
            self.source().wf(),
        ensures
            pos == self.stream().pos,
    {
        self.reader.source_ref().position()
    }

    /// Returns a reader of the next `len` bytes of the source.
    pub(crate) fn payload_reader(&mut self, len: u64) -> (reader: &mut AttributeReader<R>)
        ensures
            reader.source() == old(self).source(),
            reader.limit() == len,
            final(self).source() == final(reader).source(),
            final(self).state() == old(self).state(),
            final(self).handler() == old(self).handler(),
    {
        self.reader.restrict(len);
        &mut self.reader
    }

    /// Returns the FBX version of the document.
    pub fn fbx_version(&self) -> (version: FbxVersion)
        ensures
            version == self.state().version,
    {
        self.state.fbx_version
    }

    /// Returns the name of the innermost open node.
    ///
    /// At least one node must be open.
    pub fn current_node_name(&self) -> (name: &str)
        requires
            self.wf(),
            self.state().depth() > 0,
        ensures
            name@ == self.state().current().name,
    {
        let node = self.state.current_node();
        assert(node is Some);
        node.unwrap().name.as_str()
    }

    /// Returns the number of attributes of the innermost open node.
    pub(crate) fn current_attributes_count(&self) -> (count: u64)
        requires
            self.wf(),
            self.state().depth() > 0,
        ensures
            count == self.state().current().attributes,
    {
        let node = self.state.current_node();
        assert(node is Some);
        node.unwrap().attributes_count
    }

    /// Returns the number of open nodes.
    ///
    /// The root node, which no bytes stand for, is not counted.
    pub fn current_depth(&self) -> (depth: usize)
        ensures
            depth == self.state().depth(),
    {
        self.state.started_nodes.len()
    }

    /// Returns an error if the parser has read the whole document, or has failed to
    /// hand out an event.
    pub(crate) fn ensure_continuable(&self) -> (r: Result<(), Error>)
        ensures
            match self.state().health {
                HealthModel::Running => r is Ok,
                HealthModel::Finished => r matches Err(e) && e@ == ErrorModel::operation(
                    OperationError::AlreadyFinished,
                ),
                HealthModel::Aborted(pos) => r matches Err(e) && e@ == ErrorModel::operation(
                    OperationError::AlreadyAborted,
                ).at(pos),
            },
    {
        match self.state.health() {
            Health::Running => Ok(()),
            Health::Finished => Err(Error::operation(OperationError::AlreadyFinished)),
            Health::Aborted(err_pos) => Err(
                Error::with_position(
                    ErrorKind::Operation(OperationError::AlreadyAborted),
                    err_pos.clone(),
                ),
            ),
        }
    }

    /// Reads a value from the source.
    pub(crate) fn parse<T: FromParser>(&mut self) -> (r: Result<T, Error>)
        requires
            old(self).wf(),
        ensures
            final(self).wf(),
            final(self).state() == old(self).state(),
            final(self).handler() == old(self).handler(),
            obtains(
                T::expected(old(self).state().version, old(self).stream()),
                old(self).source(),
                final(self).source(),
                r,
            ),
    {
        T::read_from_parser(self)
    }

    /// Tells of a warning.
    pub(crate) fn warn(&mut self, warning: Warning) -> (r: Result<(), Error>)
        requires
            old(self).wf(),
        ensures
            final(self).wf(),
            final(self).state() == old(self).state(),
            final(self).source() == old(self).source(),
            match old(self).handler() {
                Some(handler) => {
                    &&& final(self).handler() matches Some(after)
                    &&& handler.answers(warning, refusal_of(r), after)
                },
                None => r is Ok && final(self).handler() is None,
            },
    {
        match &mut self.warning_handler {
            Some(handler) => handler.handle(warning),
            None => Ok(()),
        }
    }

    /// Marks the parser as failed at the given place.
    pub(crate) fn set_aborted(&mut self, pos: SyntacticPosition)
        requires
            old(self).source().wf(),
            old(self).state().nodes_fit(old(self).stream().pos),
        ensures
            final(self).wf(),
            final(self).state() == old(self).state().aborted(pos@),
            final(self).source() == old(self).source(),
            final(self).handler() == old(self).handler(),
    {
        self.state.health = Health::Aborted(pos);
    }

    /// Takes note that a request has failed at the place that the parser has come
    /// to.
    pub(crate) fn set_failed(&mut self)
        requires
            old(self).wf(),
        ensures
            final(self).wf(),
            final(self).state() == old(self).state().failed_at(old(self).place()),
            final(self).place() == old(self).place(),
            final(self).source() == old(self).source(),
            final(self).handler() == old(self).handler(),
    {
        let pos = self.position();
        self.state.failure = Some(pos);
        assert(self.place().node_path =~= old(self).place().node_path);
    }

    /// Whether the parser may become `after` by telling of an empty node name once,
    /// which is answered with `refusal` or let pass.
    pub open spec fn tells(self, refusal: Option<Error>, after: Self) -> bool {
        match self.handler() {
            Some(handler) => {
                &&& after.handler() matches Some(told)
                &&& handler.answers(Warning::EmptyNodeName, refusal, told)
            },
            None => refusal is None && after.handler() is None,
        }
    }

    /// Whether the parser may become `after` by telling of an empty node name once if
    /// there is one, which is let pass, and not otherwise.
    pub open spec fn tells_if_odd(self, after: Self) -> bool {
        if self.state().warns(self.stream()) {
            self.tells(None, after)
        } else {
            after.handler() == self.handler()
        }
    }

    /// Whether the parser may become `after` by telling of an empty node name if there is
    /// one, unless the input fails before that.
    pub open spec fn tells_if_heard(self, after: Self) -> bool {
        ||| self.tells_if_odd(after)
        ||| {
            &&& self.source().failures() != Set::<IoError>::empty()
            &&& after.handler() == self.handler()
        }
    }

    /// Whether the parser may become `after` when the input fails with `e` before the
    /// next event is complete. An input that ends before is read to its end.
    pub open spec fn input_fails(self, after: Self, e: Error) -> bool {
        input_failure(
            self.source().failures(),
            self.state().next(self.stream()) is Truncated && after.stream()
                == self.stream().exhausted(),
            e,
        )
    }

    /// Whether the parser may become `after` and answer with `r` when it reads the
    /// next event.
    ///
    /// What it answers is what [`StateModel::next`] says of the bytes that come
    /// next, unless the input fails or a warning is taken for an error. In both of
    /// these cases the state stays as it is. The input cannot fail where no byte is
    /// read.
    pub open spec fn steps_to(self, after: Self, r: Result<EventKind, Error>) -> bool {
        let step = self.state().next(self.stream());
        &&& moves_on(self.source(), after.source())
        &&& match r {
            Ok(kind) => {
                &&& step == Step::Event(kind, after.state(), after.stream())
                &&& self.tells_if_odd(after)
            },
            Err(e) => {
                ||| {
                    &&& step matches Step::Fail(fault, state, stream)
                    &&& e@ == ErrorModel::data(fault)
                    &&& after.state() == state
                    &&& after.stream() == stream
                    &&& self.tells_if_odd(after)
                }
                ||| {
                    &&& self.state().reads(self.stream())
                    &&& self.input_fails(after, e)
                    &&& after.state() == self.state()
                    &&& self.tells_if_heard(after)
                }
                ||| {
                    &&& self.state().warns(self.stream())
                    &&& self.tells(Some(e), after)
                    &&& after.state() == self.state()
                    &&& after.stream() == self.state().header_end(self.stream())
                }
            },
        }
    }

    /// Whether the parser may become `after` when it hands out an event of the
    /// given kind, of which `s` is what it leaves unread.
    pub open spec fn hands_out(self, kind: EventKind, after: Self, s: Stream) -> bool {
        &&& self.state().health is Running
        &&& self.state().failure is None
        &&& self.state().next(self.stream()) matches Step::Event(next_kind, state, stream)
        &&& next_kind == kind
        &&& stream == s
        &&& after.state() == state.after(kind)
        &&& after.wf()
        &&& moves_on(self.source(), after.source())
        &&& self.tells_if_odd(after)
    }

    /// Whether `footer` may come of reading the footer from `s`, where `after` is
    /// the parser afterwards.
    pub open spec fn footer_follows(
        self,
        s: Stream,
        after: Self,
        footer: Result<Box<FbxFooter>, Error>,
    ) -> bool {
        let want = FbxFooter::decode(self.state().version, s);
        &&& s.reaches(after.stream())
        &&& match footer {
            Ok(footer) => {
                &&& want matches Decoded::Value(model, len)
                &&& footer@ == model
                &&& after.stream() == s.advance(len)
            },
            Err(e) => {
                ||| want matches Decoded::Invalid(fault) && e@ == ErrorModel::data(fault)
                ||| input_failure(
                    self.source().failures(),
                    want is Truncated && after.stream() == s.exhausted(),
                    e,
                )
            },
        }
    }

    /// Whether the parser may become `after` when it fails with `e` instead of
    /// handing out an event.
    pub open spec fn fails_with(self, after: Self, e: Error) -> bool {
        let step = self.state().next(self.stream());
        &&& self.state().health is Running
        &&& self.state().failure is None
        &&& after.wf()
        &&& moves_on(self.source(), after.source())
        &&& e@.position == Some(after.place())
        &&& {
            ||| {
                &&& step matches Step::Fail(fault, state, stream)
                &&& e@ == ErrorModel::data(fault).at(after.place())
                &&& after.state() == state.aborted(after.place())
                &&& after.stream() == stream
                &&& self.tells_if_odd(after)
            }
            ||| {
                &&& self.state().reads(self.stream())
                &&& exists|cause: Error|
                    e.kind == cause.kind && #[trigger] self.input_fails(after, cause)
                &&& after.state() == self.state().aborted(after.place())
                &&& self.tells_if_heard(after)
            }
            ||| {
                &&& self.state().warns(self.stream())
                &&& exists|cause: Error|
                    e.kind == cause.kind && #[trigger] self.tells(Some(cause), after)
                &&& after.stream() == self.state().header_end(self.stream())
                &&& after.state() == self.state().aborted(after.place())
            }
        }
    }

    /// Returns the next event.
    ///
    /// Do not call this if the parser has failed before, whether to read an event, to
    /// skip a node or to show an attribute: a failed parser answers with
    /// [`OperationError::AlreadyAborted`].
    pub fn next_event(&mut self) -> (r: Result<Event<'_, R, W>, Error>)
        requires
            old(self).wf(),
        ensures
            match r {
                Ok(Event::StartNode(start)) => {
                    &&& old(self).hands_out(
                        EventKind::StartNode,
                        *start.parser,
                        start.parser.stream(),
                    )
                    &&& start.parser.state().depth() == old(self).state().depth() + 1
                    &&& *final(start.parser) == *final(self)
                },
                Ok(Event::EndNode) => {
                    &&& old(self).hands_out(EventKind::EndNode, *final(self), final(self).stream())
                    &&& final(self).state().depth() + 1 == old(self).state().depth()
                },
                Ok(Event::EndFbx(footer)) => {
                    &&& old(self).state().depth() == 0
                    &&& final(self).state().depth() == 0
                    &&& exists|s: Stream| #[trigger]
                        old(self).hands_out(EventKind::EndFbx, *final(self), s) && old(
                            self,
                        ).footer_follows(s, *final(self), footer)
                },
                Err(e) => match old(self).state().health {
                    HealthModel::Running => match old(self).state().failure {
                        None => old(self).fails_with(*final(self), e),
                        Some(_) => {
                            &&& e@ == ErrorModel::operation(OperationError::AlreadyAborted).at(
                                final(self).place(),
                            )
                            &&& final(self).state() == old(self).state().aborted(
                                old(self).place(),
                            )
                            &&& final(self).place() == old(self).place()
                            &&& final(self).wf()
                            &&& final(self).source() == old(self).source()
                            &&& final(self).handler() == old(self).handler()
                        },
                    },
                    HealthModel::Finished => {
                        &&& e@ == ErrorModel::operation(OperationError::AlreadyFinished)
                        &&& *final(self) == *old(self)
                    },
                    HealthModel::Aborted(pos) => {
                        &&& e@ == ErrorModel::operation(OperationError::AlreadyAborted).at(pos)
                        &&& *final(self) == *old(self)
                    },
                },
            },
    {
        match self.ensure_continuable() {
            Ok(()) => {},
            Err(e) => {
                return Err(e);
            },
        }
        if self.state.failure.is_some() {
            // Something else has failed before.
            let err_pos = self.position();
            self.set_aborted(err_pos.clone());
            assert(self.place().node_path =~= old(self).place().node_path);
            return Err(
                Error::with_position(
                    ErrorKind::Operation(OperationError::AlreadyAborted),
                    err_pos,
                ),
            );
        }
        let event_kind: EventKind = match self.next_event_impl() {
            Ok(kind) => kind,
            Err(e) => {
                let ghost failed = *self;
                let err_pos = self.position();
                self.set_aborted(err_pos.clone());
                proof {
                    assert(self.place().node_path =~= failed.place().node_path);
                }
                let placed = e.and_position(err_pos);
                assert(old(self).fails_with(*self, placed)) by {
                    assert(e.kind == placed.kind);
                    assert(old(self).tells(Some(e), *self) == old(self).tells(Some(e), failed));
                    assert(old(self).tells_if_odd(*self) == old(self).tells_if_odd(failed));
                    assert(old(self).tells_if_heard(*self) == old(self).tells_if_heard(failed));
                    assert(old(self).input_fails(*self, e) == old(self).input_fails(failed, e));
                }
                return Err(placed);
            },
        };
        if event_kind == EventKind::EndFbx {
            self.state.health = Health::Finished;
        }
        self.state.last_event_kind = Some(event_kind);
        match event_kind {
            EventKind::StartNode => Ok(Event::StartNode(StartNode::new(self))),
            EventKind::EndNode => Ok(Event::EndNode),
            EventKind::EndFbx => {
                let ghost s = self.stream();
                let footer = match FbxFooter::read_from_parser(self) {
                    Ok(footer) => Ok(Box::new(footer)),
                    Err(e) => Err(e),
                };
                proof {
                    lemma_reaches_transitive(old(self).stream(), s, self.stream());
                    assert(old(self).hands_out(EventKind::EndFbx, *self, s));
                }
                Ok(Event::EndFbx(footer))
            },
        }
    }

    /// Reads the next event and changes the state of the parser, except for its
    /// health and the kind of the last event.
    #[verifier::rlimit(80)]
    #[verifier::spinoff_prover]
    fn next_event_impl(&mut self) -> (r: Result<EventKind, Error>)
        requires
            old(self).wf(),
            old(self).state().health is Running,
        ensures
            final(self).source().wf(),
            final(self).state().nodes_fit(final(self).stream().pos),
            r matches Ok(kind) ==> final(self).state().after(kind).wf(final(self).stream().pos),
            old(self).steps_to(*final(self), r),
    {
        let ghost st = self.state();
        let ghost s0 = self.stream();
        proof {
            self.source().lemma_bounded();
        }
        // Nothing of a node that was skipped is left to be read.
        if self.state.skipped {
            proof {
                lemma_reaches_reflexive(s0);
            }
            let closed = self.state.close_node();
            return Ok(EventKind::EndNode);
        }
        // Attributes that nobody asked for are still to be read.
        match self.skip_unread_attributes() {
            Ok(()) => {},
            Err(e) => {
                return Err(e);
            },
        }
        let ghost s1 = self.stream();
        let event_start_offset: u64 = self.offset();

        // The current node may end here without any marker. A node end marker is
        // left out if and only if the node has attributes and no children. The
        // root node has no attributes, so it always ends with a marker.
        if let Some(current_node) = self.state.current_node() {
            let node_end_offset: u64 = current_node.node_end_offset;
            let has_attributes: bool = current_node.attributes_count != 0;
            if node_end_offset < event_start_offset {
                // The current node should have ended already.
                return Err(Error::data(DataError::NodeLengthMismatch(node_end_offset, None)));
            }
            if node_end_offset == event_start_offset {
                // If the last event is the end of a node, that node is a child.
                let has_children: bool = self.state.last_event_kind() == Some(EventKind::EndNode);
                if !has_children && has_attributes {
                    let closed = self.state.close_node();
                    return Ok(EventKind::EndNode);
                }
                // The marker that should be here is missing.
                return Err(Error::data(DataError::NodeLengthMismatch(node_end_offset, None)));
            }
        }
        let node_header = match NodeHeader::read_from_parser(self) {
            Ok(header) => header,
            Err(e) => {
                proof {
                    lemma_reaches_transitive(s0, s1, self.stream());
                }
                return Err(e);
            },
        };
        let ghost s2 = self.stream();
        proof {
            lemma_reaches_transitive(s0, s1, s2);
        }
        let header_end_offset: u64 = self.offset();

        // A node or the document may end here with a marker.
        if node_header.is_node_end() {
            return self.close_at_marker(header_end_offset);
        }
        if node_header.bytelen_name == 0 {
            match self.warn(Warning::EmptyNodeName) {
                Ok(()) => {},
                Err(e) => {
                    return Err(e);
                },
            }
        }
        let r = self.open_next_node(event_start_offset, node_header);
        proof {
            lemma_reaches_transitive(s0, s2, self.stream());
            assert(st.next(s0) == st.start_node(s1.pos, node_header, s2));
        }
        r
    }

    /// Closes the innermost open node, or the document, at a marker that ends at the
    /// given offset.
    fn close_at_marker(&mut self, marker_end_offset: u64) -> (r: Result<EventKind, Error>)
        requires
            old(self).wf(),
            old(self).state().health is Running,
            marker_end_offset == old(self).stream().pos,
        ensures
            final(self).source() == old(self).source(),
            final(self).handler() == old(self).handler(),
            final(self).state().nodes_fit(final(self).stream().pos),
            r matches Ok(kind) ==> final(self).state().after(kind).wf(final(self).stream().pos),
            match r {
                Ok(kind) => old(self).state().end_marker(old(self).stream()) == Step::Event(
                    kind,
                    final(self).state(),
                    final(self).stream(),
                ),
                Err(e) => {
                    &&& old(self).state().end_marker(old(self).stream()) matches Step::Fail(
                        fault,
                        state,
                        stream,
                    )
                    &&& e@ == ErrorModel::data(fault)
                    &&& final(self).state() == state
                    &&& final(self).stream() == stream
                },
            },
    {
        match self.state.close_node() {
            Some(closing) => {
                if closing.node_end_offset != marker_end_offset {
                    Err(
                        Error::data(
                            DataError::NodeLengthMismatch(
                                closing.node_end_offset,
                                Some(marker_end_offset),
                            ),
                        ),
                    )
                } else {
                    Ok(EventKind::EndNode)
                }
            },
            None => Ok(EventKind::EndFbx),
        }
    }

    /// Reads the name of the node with the given header, and opens the node.
    fn open_next_node(&mut self, event_start_offset: u64, node_header: NodeHeader) -> (r: Result<
        EventKind,
        Error,
    >)
        requires
            old(self).source().wf(),
            old(self).state().wf(event_start_offset as nat),
            old(self).state().health is Running,
            !old(self).state().skipped,
            event_start_offset < old(self).stream().pos,
        ensures
            final(self).source().wf(),
            final(self).state().nodes_fit(final(self).stream().pos),
            r matches Ok(kind) ==> final(self).state().after(kind).wf(final(self).stream().pos),
            final(self).handler() == old(self).handler(),
            moves_on(old(self).source(), final(self).source()),
            ({
                let step = old(self).state().start_node(
                    event_start_offset as nat,
                    node_header,
                    old(self).stream(),
                );
                match r {
                    Ok(kind) => step == Step::Event(
                        kind,
                        final(self).state(),
                        final(self).stream(),
                    ),
                    Err(e) => {
                        ||| {
                            &&& step matches Step::Fail(fault, state, stream)
                            &&& e@ == ErrorModel::data(fault)
                            &&& final(self).state() == state
                            &&& final(self).stream() == stream
                        }
                        ||| {
                            &&& input_failure(
                                old(self).source().failures(),
                                step is Truncated && final(self).stream() == old(
                                    self,
                                ).stream().exhausted(),
                                e,
                            )
                            &&& final(self).state() == old(self).state()
                        }
                    },
                }
            }),
    {
        proof {
            self.source().lemma_bounded();
        }
        let name_bytes = match read_array(self.reader(), node_header.bytelen_name as usize) {
            Ok(bytes) => bytes,
            Err(e) => {
                return Err(e);
            },
        };
        let name = match string_from_utf8(name_bytes) {
            Ok(name) => name,
            Err(bytes) => {
                return Err(Error::data(DataError::InvalidNodeNameEncoding(bytes)));
            },
        };
        let current_offset: u64 = self.offset();
        let attributes_end_offset: u64 = match current_offset.checked_add(
            node_header.bytelen_attributes,
        ) {
            Some(offset) => offset,
            None => {
                return Err(
                    Error::data(
                        DataError::OffsetOverflow(current_offset, node_header.bytelen_attributes),
                    ),
                );
            },
        };
        self.state.open_node(
            StartedNode {
                node_start_offset: event_start_offset,
                node_end_offset: node_header.end_offset,
                attributes_count: node_header.num_attributes,
                attributes_end_offset,
                name,
                known_children_count: 0,
            },
        );
        Ok(EventKind::StartNode)
    }

    /// Skips what is left of the attributes of the innermost open node.
    ///
    /// Does nothing if nothing is left.
    fn skip_unread_attributes(&mut self) -> (r: Result<(), Error>)
        requires
            old(self).wf(),
        ensures
            final(self).wf(),
            final(self).state() == old(self).state(),
            final(self).handler() == old(self).handler(),
            moves_on(old(self).source(), final(self).source()),
            match r {
                Ok(()) => {
                    &&& old(self).state().in_attributes(old(self).stream()) ==> old(
                        self,
                    ).stream().covers(old(self).state().current().attributes_end as nat)
                    &&& final(self).stream() == old(self).state().past_attributes(
                        old(self).stream(),
                    )
                },
                Err(e) => {
                    &&& old(self).state().in_attributes(old(self).stream())
                    &&& input_failure(
                        old(self).source().failures(),
                        !old(self).stream().covers(
                            old(self).state().current().attributes_end as nat,
                        ) && final(self).stream() == old(self).stream().exhausted(),
                        e,
                    )
                },
            },
    {
        proof {
            lemma_reaches_reflexive(self.stream());
        }
        let attributes_end_offset: u64 = match self.state.current_node() {
            Some(node) => node.attributes_end_offset,
            None => {
                return Ok(());
            },
        };
        if attributes_end_offset > self.offset() {
            match self.reader().skip_to(attributes_end_offset) {
                Ok(()) => {},
                Err(io) => {
                    let e = Error::io(io);
                    assert(ErrorModel::io(io) == e@);
                    return Err(e);
                },
            }
        }
        Ok(())
    }

    /// Whether the parser may become `after` and `r` come of skipping the innermost
    /// open node.
    pub open spec fn skips_to(self, after: Self, r: Result<(), Error>) -> bool {
        let end = self.state().current().end;
        &&& moves_on(self.source(), after.source())
        &&& after.handler() == self.handler()
        &&& match r {
            Ok(()) => {
                &&& self.stream().covers(end as nat)
                &&& after.stream() == self.stream().at(end as nat)
                &&& after.state() == self.state().skipping()
            },
            Err(e) => {
                &&& after.state() == self.state().failed_at(after.place())
                &&& exists|io: IoError| #[trigger]
                    ErrorModel::io(io) == e@ && skip_failure(
                        self.source().failures(),
                        self.stream(),
                        after.stream(),
                        end,
                        io,
                    )
            },
        }
    }

    /// Skips to the end of the innermost open node.
    ///
    /// The next event is the end of that node. The events in between are not read. So
    /// an error there can go unnoticed, or be noticed at another place. To find every
    /// error, use [`next_event`](Self::next_event).
    ///
    /// At least one node must be open.
    pub fn skip_current_node(&mut self) -> (r: Result<(), Error>)
        requires
            old(self).wf(),
            old(self).state().depth() > 0,
        ensures
            final(self).wf(),
            old(self).skips_to(*final(self), r),
    {
        let node = self.state.current_node();
        assert(node is Some);
        let end_pos: u64 = node.unwrap().node_end_offset;
        match self.reader().skip_to(end_pos) {
            Ok(()) => {
                self.state.skipped = true;
                Ok(())
            },
            Err(io) => {
                self.set_failed();
                let e = Error::io(io);
                assert(ErrorModel::io(io) == e@);
                Err(e)
            },
        }
    }

    /// Returns the place in the document that the parser has come to.
    ///
    /// Note that this allocates memory.
    pub fn position(&self) -> (pos: SyntacticPosition)
        requires
            self.source().wf(),
        ensures
            pos@ == self.place(),
    {
        proof {
            self.source().lemma_bounded();
        }
        let byte_pos: u64 = self.offset();
        let node_start_pos: u64 = match self.state.current_node() {
            Some(node) => node.node_start_offset,
            None => {
                let pos = SyntacticPosition {
                    byte_pos,
                    component_byte_pos: 0,
                    node_path: Vec::new(),
                    attribute_index: None,
                };
                assert(pos@.node_path =~= self.place().node_path);
                return pos;
            },
        };
        let mut node_path: Vec<(u64, String)> = Vec::new();
        // Every open node but the last has the next one for its last child so far.
        let mut count: u64 = self.state.known_toplevel_nodes_count;
        while node_path.len() < self.state.started_nodes.len()
            invariant
                node_path@.len() <= self.state.started_nodes@.len(),
                count == if node_path@.len() == 0 {
                    self.state().toplevel
                } else {
                    self.state().started[node_path@.len() - 1].children
                },
                path_model(node_path@) == self.place().node_path.take(node_path@.len() as int),
            decreases self.state.started_nodes@.len() - node_path@.len(),
        {
            let i: usize = node_path.len();
            let node = &self.state.started_nodes[i];
            assert(node@ == self.state().started[i as int]);
            let index: u64 = if count == 0 {
                0
            } else {
                count - 1
            };
            node_path.push((index, node.name.clone()));
            count = node.known_children_count;
            assert(path_model(node_path@) =~= self.place().node_path.take(i + 1));
        }
        assert(path_model(node_path@) =~= self.place().node_path);
        SyntacticPosition {
            byte_pos,
            component_byte_pos: node_start_pos,
            node_path,
            attribute_index: None,
        }
    }
}

/// Creates a parser that reads from the given reader what follows the header.
///
/// Returns an error if the FBX version is unsupported.
pub fn from_reader<R: ByteReader, W: WarningHandler>(header: FbxHeader, reader: R) -> (r: Result<
    Parser<PlainSource<R>, W>,
    Error,
>)
    requires
        reader.wf(),
    ensures
        match r {
            Ok(parser) => {
                &&& ParserVersion::reading(header.version) == Some(ParserVersion::V7400)
                &&& parser.wf()
                &&& parser.state() == StateModel::initial(header.version)
                &&& parser.stream() == (Stream {
                    pos: crate::low::HEADER_LEN as nat,
                    rest: reader.rest(),
                })
                &&& parser.source().failures() == reader.failures()
                &&& parser.handler() is None
            },
            Err(e) => {
                &&& ParserVersion::reading(header.version) != Some(ParserVersion::V7400)
                &&& e@ == ErrorModel::operation(
                    OperationError::UnsupportedFbxVersion(ParserVersion::V7400, header.version),
                )
            },
        },
{
    proof {
        reader.lemma_rest_len();
    }
    Parser::create(header.version(), PlainSource::with_offset(reader, header.len()))
}

/// Creates a parser that reads from the given reader what follows the header,
/// and leaves out by seeking what it need not read.
///
/// Returns an error if the FBX version is unsupported.
pub fn from_seekable_reader<R: SeekReader, W: WarningHandler>(header: FbxHeader, reader: R) -> (r:
    Result<Parser<SeekableSource<R>, W>, Error>)
    requires
        reader.wf(),
    ensures
        match r {
            Ok(parser) => {
                &&& ParserVersion::reading(header.version) == Some(ParserVersion::V7400)
                &&& parser.wf()
                &&& parser.state() == StateModel::initial(header.version)
                &&& parser.stream() == (Stream {
                    pos: crate::low::HEADER_LEN as nat,
                    rest: reader.rest(),
                })
                &&& parser.source().failures() == reader.failures()
                &&& parser.handler() is None
            },
            Err(e) => {
                &&& ParserVersion::reading(header.version) != Some(ParserVersion::V7400)
                &&& e@ == ErrorModel::operation(
                    OperationError::UnsupportedFbxVersion(ParserVersion::V7400, header.version),
                )
            },
        },
{
    proof {
        reader.lemma_rest_len();
    }
    Parser::create(header.version(), SeekableSource::with_offset(reader, header.len()))
}

} // verus!
