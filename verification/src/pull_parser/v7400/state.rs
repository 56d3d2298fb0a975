//! What a parser knows of the document between two events.
use vstd::prelude::*;

use crate::low::v7400::NodeHeader;
use crate::low::FbxVersion;
use crate::pull_parser::error::{DataFault, Decoded};
use crate::pull_parser::position::{PositionModel, SyntacticPosition};
use crate::pull_parser::reader::Stream;

verus! {

/// Kind of an event.
#[derive(Debug, Clone, Copy, PartialEq, Eq, Hash, Structural)]
pub enum EventKind {
    /// A node starts.
    StartNode,
    /// A node ends.
    EndNode,
    /// The document ends.
    EndFbx,
}

/// Health of a parser.
#[derive(Debug, PartialEq, Eq, Hash)]
pub enum Health {
    /// The parser can go on.
    Running,
    /// The parser has read the whole document.
    Finished,
    /// The parser has failed, at the given place.
    Aborted(SyntacticPosition),
}

/// What a [`Health`] says.
pub ghost enum HealthModel {
    Running,
    Finished,
    Aborted(PositionModel),
}

impl View for Health {
    type V = HealthModel;

    open spec fn view(&self) -> HealthModel {
        match self {
            Health::Running => HealthModel::Running,
            Health::Finished => HealthModel::Finished,
            Health::Aborted(pos) => HealthModel::Aborted(pos@),
        }
    }
}

/// A node that has started and not yet ended.
#[derive(Debug, PartialEq, Eq, Hash)]
pub struct StartedNode {
    /// Offset of the first byte of the node.
    pub node_start_offset: u64,
    /// Offset of the byte after the node.
    pub node_end_offset: u64,
    /// Number of attributes.
    pub attributes_count: u64,
    /// Offset of the byte after the last attribute.
    pub attributes_end_offset: u64,
    /// Name of the node.
    pub name: String,
    /// Number of children that have started so far.
    pub known_children_count: u64,
}

/// What a [`StartedNode`] says.
pub ghost struct NodeModel {
    pub start: u64,
    pub end: u64,
    pub attributes: u64,
    pub attributes_end: u64,
    pub name: Seq<char>,
    pub children: u64,
}

impl View for StartedNode {
    type V = NodeModel;

    open spec fn view(&self) -> NodeModel {
        NodeModel {
            start: self.node_start_offset,
            end: self.node_end_offset,
            attributes: self.attributes_count,
            attributes_end: self.attributes_end_offset,
            name: self.name@,
            children: self.known_children_count,
        }
    }
}

/// What a parser knows of the document between two events.
#[derive(Debug, PartialEq, Eq, Hash)]
pub struct State {
    /// FBX version of the document.
    pub fbx_version: FbxVersion,
    /// Health of the parser.
    pub health: Health,
    /// The nodes that are open, outermost first.
    ///
    /// The root node, which no bytes stand for, is not among them.
    pub started_nodes: Vec<StartedNode>,
    /// Kind of the last event.
    pub last_event_kind: Option<EventKind>,
    /// Number of top-level nodes that have started so far.
    pub known_toplevel_nodes_count: u64,
    /// Whether the rest of the innermost open node has been skipped.
    pub skipped: bool,
    /// The place where a request other than that for an event has failed last.
    pub failure: Option<SyntacticPosition>,
}

/// What a [`State`] says.
pub ghost struct StateModel {
    pub version: FbxVersion,
    pub health: HealthModel,
    pub started: Seq<NodeModel>,
    pub last: Option<EventKind>,
    pub toplevel: u64,
    pub skipped: bool,
    pub failure: Option<PositionModel>,
}

/// What the nodes in `nodes` say.
pub open spec fn nodes_model(nodes: Seq<StartedNode>) -> Seq<NodeModel> {
    nodes.map_values(|node: StartedNode| node@)
}

impl View for State {
    type V = StateModel;

    open spec fn view(&self) -> StateModel {
        StateModel {
            version: self.fbx_version,
            health: self.health@,
            started: nodes_model(self.started_nodes@),
            last: self.last_event_kind,
            toplevel: self.known_toplevel_nodes_count,
            skipped: self.skipped,
            failure: match self.failure {
                Some(pos) => Some(pos@),
                None => None,
            },
        }
    }
}

impl StateModel {
    /// The state of a parser that has read nothing.
    pub open spec fn initial(version: FbxVersion) -> StateModel {
        StateModel {
            version,
            health: HealthModel::Running,
            started: Seq::empty(),
            last: None,
            toplevel: 0,
            skipped: false,
            failure: None,
        }
    }

    /// The number of open nodes.
    pub open spec fn depth(self) -> nat {
        self.started.len()
    }

    /// The innermost open node.
    pub open spec fn current(self) -> NodeModel
        recommends
            self.depth() > 0,
    {
        self.started.last()
    }

    /// The state once the innermost open node has ended.
    pub open spec fn closing(self) -> StateModel {
        StateModel { started: self.started.drop_last(), skipped: false, ..self }
    }

    /// The state once `node` has started within the innermost open node, which
    /// has one child more by that.
    pub open spec fn opening(self, node: NodeModel) -> StateModel {
        if self.depth() == 0 {
            StateModel {
                started: self.started.push(node),
                toplevel: (self.toplevel + 1) as u64,
                ..self
            }
        } else {
            let parent = NodeModel {
                children: (self.current().children + 1) as u64,
                ..self.current()
            };
            StateModel {
                started: self.started.update(self.depth() - 1, parent).push(node),
                ..self
            }
        }
    }

    /// The state once an event of the given kind has been handed out.
    pub open spec fn after(self, kind: EventKind) -> StateModel {
        StateModel {
            last: Some(kind),
            health: if kind == EventKind::EndFbx {
                HealthModel::Finished
            } else {
                self.health
            },
            ..self
        }
    }

    /// The state once the parser has failed at `pos`.
    pub open spec fn aborted(self, pos: PositionModel) -> StateModel {
        StateModel { health: HealthModel::Aborted(pos), ..self }
    }

    /// The state once the rest of the innermost open node has been skipped.
    pub open spec fn skipping(self) -> StateModel {
        StateModel { skipped: true, ..self }
    }

    /// The state once a request other than that for an event has failed at `pos`.
    pub open spec fn failed_at(self, pos: PositionModel) -> StateModel {
        StateModel { failure: Some(pos), ..self }
    }

    /// Whether the rest of the innermost open node has been skipped, so that its end
    /// comes next.
    pub open spec fn is_skipped(self) -> bool {
        self.depth() > 0 && self.skipped
    }

    /// The index of the open node at the given depth among its siblings.
    pub open spec fn index_at(self, depth: int) -> u64 {
        let count = if depth == 0 {
            self.toplevel
        } else {
            self.started[depth - 1].children
        };
        if count == 0 {
            0
        } else {
            (count - 1) as u64
        }
    }

    /// The place in the document at which the byte at offset `pos` is read next.
    pub open spec fn position_at(self, pos: nat) -> PositionModel {
        PositionModel {
            byte_pos: pos as u64,
            component_byte_pos: if self.depth() == 0 {
                0
            } else {
                self.current().start
            },
            node_path: Seq::new(self.depth(), |i: int| (self.index_at(i), self.started[i].name)),
            attribute_index: None,
        }
    }

    /// Whether the nodes of the state are those that can be open at the offset `pos`.
    ///
    /// Every node that is open counts as a child of the one around it, and starts
    /// after it. No count exceeds the number of bytes read.
    pub open spec fn nodes_fit(self, pos: nat) -> bool {
        &&& self.toplevel <= pos
        &&& self.depth() > 0 ==> self.toplevel > 0
        &&& forall|i: int|
            0 <= i < self.depth() ==> (#[trigger] self.started[i]).children <= pos
        &&& forall|i: int|
            0 <= i < self.depth() - 1 ==> (#[trigger] self.started[i]).children > 0
        &&& forall|i: int|
            0 <= i < self.depth() ==> (#[trigger] self.started[i]).start < pos
        &&& forall|i: int, j: int|
            0 <= i < j < self.depth() ==> (#[trigger] self.started[i]).start < (
            #[trigger] self.started[j]).start
        &&& self.skipped ==> self.depth() > 0
    }

    /// Whether the state is one that a parser can be in when it has come to the
    /// offset `pos`.
    ///
    /// As long as the parser can go on, the last event is the end of a node exactly
    /// where the innermost open node has children.
    pub open spec fn wf(self, pos: nat) -> bool {
        &&& self.nodes_fit(pos)
        &&& self.health is Running ==> {
            &&& self.last != Some(EventKind::EndFbx)
            &&& self.depth() > 0 ==> (self.last == Some(EventKind::EndNode)
                <==> self.current().children > 0)
        }
        &&& self.health is Finished ==> self.depth() == 0 && self.last == Some(EventKind::EndFbx)
    }
}

/// What reading on from a place in a document comes to.
pub ghost enum Step {
    /// An event, and the state and the stream after it.
    Event(EventKind, StateModel, Stream),
    /// The document is found to be invalid, in the given state and at the given
    /// place of the stream.
    Fail(DataFault, StateModel, Stream),
    /// The stream ends before the event is complete.
    Truncated,
}

impl StateModel {
    /// Whether some attribute of the innermost open node is still unread.
    pub open spec fn in_attributes(self, s: Stream) -> bool {
        self.depth() > 0 && s.pos < self.current().attributes_end
    }

    /// The stream after the attributes of the innermost open node.
    pub open spec fn past_attributes(self, s: Stream) -> Stream {
        if self.in_attributes(s) {
            s.at(self.current().attributes_end as nat)
        } else {
            s
        }
    }

    /// Whether bytes are read to come to the next event.
    pub open spec fn reads(self, s: Stream) -> bool {
        &&& !self.is_skipped()
        &&& self.in_attributes(s) || self.depth() == 0 || s.pos < self.current().end
    }

    /// Whether a node header comes next, once the attributes are out of the way.
    pub open spec fn header_follows(self, s: Stream) -> bool {
        let after = self.past_attributes(s);
        &&& !self.is_skipped()
        &&& self.in_attributes(s) ==> s.covers(self.current().attributes_end as nat)
        &&& self.depth() > 0 ==> after.pos < self.current().end
        &&& NodeHeader::decode(self.version, after.rest) is Value
    }

    /// The node header that comes next.
    pub open spec fn next_header(self, s: Stream) -> NodeHeader {
        NodeHeader::decode(self.version, self.past_attributes(s).rest)->Value_0
    }

    /// What is left of the stream once the node header that comes next has been read.
    pub open spec fn header_end(self, s: Stream) -> Stream {
        self.past_attributes(s).advance(NodeHeader::byte_len(self.version))
    }

    /// Whether a node with an empty name comes next.
    pub open spec fn warns(self, s: Stream) -> bool {
        &&& self.header_follows(s)
        &&& !self.next_header(s).marks_end()
        &&& self.next_header(s).bytelen_name == 0
    }

    /// What comes of the end marker before `s`.
    pub open spec fn end_marker(self, s: Stream) -> Step {
        if self.depth() == 0 {
            Step::Event(EventKind::EndFbx, self, s)
        } else if self.current().end != s.pos {
            Step::Fail(
                DataFault::NodeLengthMismatch(self.current().end, Some(s.pos as u64)),
                self.closing(),
                s,
            )
        } else {
            Step::Event(EventKind::EndNode, self.closing(), s)
        }
    }

    /// What comes of the node with the given header, which starts at the offset
    /// `start` and whose name is next in `s`.
    pub open spec fn start_node(self, start: nat, header: NodeHeader, s: Stream) -> Step {
        let len = header.bytelen_name as nat;
        let name = s.rest.take(len as int);
        let after = s.advance(len);
        if s.rest.len() < len {
            Step::Truncated
        } else if !vstd::utf8::valid_utf8(name) {
            Step::Fail(DataFault::InvalidNodeNameEncoding(name), self, after)
        } else if after.pos + header.bytelen_attributes > u64::MAX {
            Step::Fail(
                DataFault::OffsetOverflow(after.pos as u64, header.bytelen_attributes),
                self,
                after,
            )
        } else {
            Step::Event(
                EventKind::StartNode,
                self.opening(
                    NodeModel {
                        start: start as u64,
                        end: header.end_offset,
                        attributes: header.num_attributes,
                        attributes_end: (after.pos + header.bytelen_attributes) as u64,
                        name: vstd::utf8::decode_utf8(name),
                        children: 0,
                    },
                ),
                after,
            )
        }
    }

    /// What reading on from `s` comes to, where no warning is taken for an error.
    ///
    /// A node ends without a marker exactly where it has attributes and no
    /// children, or where the rest of it has been skipped.
    pub open spec fn next(self, s: Stream) -> Step {
        let after = self.past_attributes(s);
        if self.is_skipped() {
            Step::Event(EventKind::EndNode, self.closing(), s)
        } else if self.in_attributes(s) && !s.covers(self.current().attributes_end as nat) {
            Step::Truncated
        } else if self.depth() > 0 && self.current().end <= after.pos {
            if self.current().end == after.pos && self.last != Some(EventKind::EndNode)
                && self.current().attributes != 0 {
                Step::Event(EventKind::EndNode, self.closing(), after)
            } else {
                Step::Fail(DataFault::NodeLengthMismatch(self.current().end, None), self, after)
            }
        } else {
            match NodeHeader::decode(self.version, after.rest) {
                Decoded::Value(header, len) => if header.marks_end() {
                    self.end_marker(after.advance(len))
                } else {
                    self.start_node(after.pos, header, after.advance(len))
                },
                _ => Step::Truncated,
            }
        }
    }
}

impl State {
    /// Creates the state of a parser that has read nothing of a document of the
    /// given version.
    pub fn new(fbx_version: FbxVersion) -> (state: Self)
        ensures
            state@ == StateModel::initial(fbx_version),
    {
        let state = State {
            fbx_version,
            health: Health::Running,
            started_nodes: Vec::new(),
            last_event_kind: None,
            known_toplevel_nodes_count: 0,
            skipped: false,
            failure: None,
        };
        assert(state@.started =~= Seq::empty());
        state
    }

    /// Returns the health of the parser.
    pub fn health(&self) -> (health: &Health)
        ensures
            *health == self.health,
    {
        &self.health
    }

    /// Returns the innermost open node.
    pub fn current_node(&self) -> (node: Option<&StartedNode>)
        ensures
            match node {
                Some(node) => self@.depth() > 0 && node@ == self@.current() && *node
                    == self.started_nodes@.last(),
                None => self@.depth() == 0,
            },
    {
        self.started_nodes.last()
    }

    /// Returns the kind of the last event.
    pub fn last_event_kind(&self) -> (kind: Option<EventKind>)
        ensures
            kind == self@.last,
    {
        self.last_event_kind
    }

    /// Closes the innermost open node, if there is one.
    pub fn close_node(&mut self) -> (node: Option<StartedNode>)
        ensures
            match node {
                Some(node) => {
                    &&& old(self)@.depth() > 0
                    &&& node@ == old(self)@.current()
                    &&& final(self)@ == old(self)@.closing()
                },
                None => old(self)@.depth() == 0 && final(self)@ == old(self)@,
            },
    {
        let node = self.started_nodes.pop();
        if node.is_some() {
            self.skipped = false;
        }
        proof {
            if node is Some {
                assert(self@.started =~= old(self)@.started.drop_last());
            } else {
                assert(self@.started =~= old(self)@.started);
            }
        }
        node
    }

    /// Opens a node within the innermost open one.
    pub fn open_node(&mut self, node: StartedNode)
        requires
            old(self)@.depth() == 0 ==> old(self)@.toplevel < u64::MAX,
            old(self)@.depth() > 0 ==> old(self)@.current().children < u64::MAX,
        ensures
            final(self)@ == old(self)@.opening(node@),
    {
        match self.started_nodes.last_mut() {
            Some(parent) => {
                parent.known_children_count = parent.known_children_count + 1;
            },
            None => {
                self.known_toplevel_nodes_count = self.known_toplevel_nodes_count + 1;
            },
        }
        self.started_nodes.push(node);
        assert(self@.started =~= old(self)@.opening(node@).started);
    }
}

} // verus!
