//! How a document is written, and that a parser reads what is written.
use vstd::prelude::*;
use vstd::utf8::{decode_utf8, valid_utf8};

use crate::low::encoding::{
    fits, lemma_node_header_is_read_back, lemma_number_is_read_back, lemma_zeros_are_written,
    node_header_bytes, starts_with, wide_len, zeros,
};
use crate::low::v7400::NodeHeader;
use crate::low::FbxVersion;
use crate::pull_parser::error::Decoded;
use crate::pull_parser::reader::Stream;
use crate::pull_parser::v7400::laws::{
    events, goes_on, lemma_events_make_progress, lemma_unread_attributes_do_not_matter, EventModel,
};
use crate::pull_parser::v7400::state::{EventKind, NodeModel, StateModel, Step};

verus! {

/// A node with all that is in it.
pub ghost struct Tree {
    /// The name, as it is written.
    pub name: Seq<u8>,
    /// Number of attributes.
    pub attributes: u64,
    /// Offset of the byte after the last attribute.
    pub attributes_end: u64,
    /// Offset of the byte after the node.
    pub end: u64,
    /// The children, from first to last.
    pub children: Seq<Tree>,
}

impl Tree {
    /// Whether a marker tells the end of the node. It is left out if and only if the
    /// node has attributes and no children.
    pub open spec fn ends_with_marker(self) -> bool {
        self.attributes == 0 || self.children.len() > 0
    }
}

/// The length of a node header without the name, in bytes: three wide fields, and one
/// byte for the length of the name.
pub open spec fn header_len(version: FbxVersion) -> nat {
    if version.0 < 7500 {
        13
    } else {
        25
    }
}

/// Whether `s` starts with an end marker, which is as long as a node header and all
/// zero.
pub open spec fn marker_at(version: FbxVersion, s: Stream) -> bool {
    starts_with(s.rest, zeros(header_len(version)))
}

/// The offset of the byte after the given trees, which start at the offset `start`.
pub open spec fn forest_end(start: nat, trees: Seq<Tree>) -> nat {
    if trees.len() == 0 {
        start
    } else {
        trees.last().end as nat
    }
}

/// The header of the given tree, where the attributes start at the offset `start`: the
/// offset of the byte after the node, the number of attributes, their length, and the
/// length of the name.
pub open spec fn tree_header(version: FbxVersion, start: nat, tree: Tree) -> Seq<u8> {
    node_header_bytes(
        version,
        tree.end,
        tree.attributes,
        (tree.attributes_end - start) as u64,
        tree.name.len() as u8,
    )
}

/// Whether `s` starts with the given tree: a header, the name, the attributes, the
/// children, and an end marker if the tree ends with one.
pub open spec fn written(version: FbxVersion, s: Stream, tree: Tree) -> bool
    decreases tree,
{
    let attributes_start = s.pos + header_len(version) + tree.name.len();
    let children_end = forest_end(tree.attributes_end as nat, tree.children);
    &&& tree.name.len() <= 255
    &&& valid_utf8(tree.name)
    &&& attributes_start <= tree.attributes_end
    &&& fits(version, tree.end)
    &&& fits(version, tree.attributes)
    &&& fits(version, (tree.attributes_end - attributes_start) as u64)
    &&& starts_with(s.rest, tree_header(version, attributes_start, tree) + tree.name)
    &&& s.covers(tree.attributes_end as nat)
    &&& all_written(version, s.at(tree.attributes_end as nat), tree.children)
    &&& s.covers(tree.end as nat)
    &&& if tree.ends_with_marker() {
        &&& marker_at(version, s.at(children_end))
        &&& tree.end == children_end + header_len(version)
    } else {
        tree.end == children_end
    }
}

/// Whether `s` starts with the given trees, one after the other.
pub open spec fn all_written(version: FbxVersion, s: Stream, trees: Seq<Tree>) -> bool
    decreases trees,
{
    trees.len() > 0 ==> {
        &&& written(version, s, trees[0])
        &&& all_written(version, s.at(trees[0].end as nat), trees.drop_first())
    }
}

/// Whether `s` starts with the nodes of a document that has the given trees at the
/// top, and the marker after them.
pub open spec fn document_written(version: FbxVersion, s: Stream, trees: Seq<Tree>) -> bool {
    &&& all_written(version, s, trees)
    &&& marker_at(version, s.at(forest_end(s.pos, trees)))
}

/// The events of a tree: its start, those of its children, its end.
pub open spec fn tree_events(tree: Tree) -> Seq<EventModel>
    decreases tree,
{
    seq![EventModel::Start(decode_utf8(tree.name), tree.attributes)] + forest_events(
        tree.children,
    ) + seq![EventModel::End]
}

/// The events of some trees, one after the other.
pub open spec fn forest_events(trees: Seq<Tree>) -> Seq<EventModel>
    decreases trees,
{
    if trees.len() == 0 {
        Seq::empty()
    } else {
        tree_events(trees[0]) + forest_events(trees.drop_first())
    }
}

/// The state once a child of the current node has started and ended.
spec fn child_done(st: StateModel) -> StateModel {
    if st.depth() == 0 {
        StateModel {
            toplevel: (st.toplevel + 1) as u64,
            last: Some(EventKind::EndNode),
            ..st
        }
    } else {
        let parent = NodeModel {
            children: (st.current().children + 1) as u64,
            ..st.current()
        };
        StateModel {
            started: st.started.update(st.depth() - 1, parent),
            last: Some(EventKind::EndNode),
            ..st
        }
    }
}

/// The state once the given number of children of the current node have started and
/// ended.
spec fn children_done(st: StateModel, count: nat) -> StateModel
    decreases count,
{
    if count == 0 {
        st
    } else {
        children_done(child_done(st), (count - 1) as nat)
    }
}

proof fn lemma_children_done(st: StateModel, count: nat)
    ensures
        ({
            let done = children_done(st, count);
            &&& done.version == st.version
            &&& done.health == st.health
            &&& done.skipped == st.skipped
            &&& done.failure == st.failure
            &&& done.depth() == st.depth()
            &&& done.last == if count == 0 {
                st.last
            } else {
                Some(EventKind::EndNode)
            }
            &&& st.depth() > 0 ==> {
                &&& done.toplevel == st.toplevel
                &&& done.started.drop_last() == st.started.drop_last()
                &&& done.current() == (NodeModel {
                    children: done.current().children,
                    ..st.current()
                })
            }
        }),
    decreases count,
{
    if count > 0 {
        let next = child_done(st);
        lemma_children_done(next, (count - 1) as nat);
        if st.depth() > 0 {
            assert(next.started.drop_last() =~= st.started.drop_last());
        }
    }
}

/// A later place of a stream is the same however it is come to.
proof fn lemma_at_at(s: Stream, a: nat, b: nat)
    requires
        s.pos <= a <= b <= s.pos + s.rest.len(),
    ensures
        s.at(a).at(b) == s.at(b),
        s.at(a).covers(b),
{
    assert(s.at(a).at(b).rest =~= s.at(b).rest);
}

/// A tree ends after its children, which come after its attributes.
proof fn lemma_tree_ends(version: FbxVersion, s: Stream, tree: Tree)
    requires
        written(version, s, tree),
    ensures
        s.covers(tree.end as nat),
        s.pos < tree.attributes_end <= forest_end(tree.attributes_end as nat, tree.children)
            <= tree.end,
    decreases tree,
{
    lemma_forest_ends(version, s.at(tree.attributes_end as nat), tree.children);
}

/// Trees that are written one after the other end one after the other, and within
/// the stream.
proof fn lemma_forest_ends(version: FbxVersion, s: Stream, trees: Seq<Tree>)
    requires
        all_written(version, s, trees),
    ensures
        s.covers(forest_end(s.pos, trees)),
        trees.len() > 0 ==> s.pos < trees[0].end <= forest_end(s.pos, trees),
    decreases trees,
{
    if trees.len() > 0 {
        let others = trees.drop_first();
        lemma_tree_ends(version, s, trees[0]);
        lemma_forest_ends(version, s.at(trees[0].end as nat), others);
        if others.len() > 0 {
            assert(others.last() == trees.last());
        }
    }
}

/// The header that is written for a tree is read, and the name is found after it.
proof fn lemma_header_is_found(version: FbxVersion, s: Stream, tree: Tree)
    requires
        written(version, s, tree),
    ensures
        ({
            let len = header_len(version);
            let name_at = s.advance(len);
            &&& NodeHeader::decode(version, s.rest) == Decoded::Value(
                NodeHeader {
                    end_offset: tree.end,
                    num_attributes: tree.attributes,
                    bytelen_attributes: (tree.attributes_end - s.pos - len
                        - tree.name.len()) as u64,
                    bytelen_name: tree.name.len() as u8,
                },
                len,
            )
            &&& NodeHeader::byte_len(version) == len
            &&& tree.name.len() <= name_at.rest.len()
            &&& name_at.rest.take(tree.name.len() as int) == tree.name
        }),
{
    let len = header_len(version) as int;
    let start = s.pos + len + tree.name.len();
    let bytelen: u64 = (tree.attributes_end - start) as u64;
    let header = tree_header(version, start as nat, tree);
    let found = s.rest.take((header + tree.name).len() as int);
    lemma_number_is_read_back(tree.end as nat, wide_len(version));
    lemma_number_is_read_back(tree.attributes as nat, wide_len(version));
    lemma_number_is_read_back(bytelen as nat, wide_len(version));
    assert(header.len() == len);
    assert(s.rest.take(len) =~= found.take(len));
    assert(found.take(len) =~= header);
    lemma_node_header_is_read_back(
        version,
        tree.end,
        tree.attributes,
        bytelen,
        tree.name.len() as u8,
        s.rest,
    );
    let name = s.rest.skip(len).take(tree.name.len() as int);
    assert(name =~= found.skip(len));
    assert(found.skip(len) =~= tree.name);
}

/// A marker is read as a header that is all zero.
pub proof fn lemma_marker_is_found(version: FbxVersion, s: Stream)
    requires
        marker_at(version, s),
    ensures
        NodeHeader::decode(version, s.rest) == Decoded::Value(
            NodeHeader {
                end_offset: 0,
                num_attributes: 0,
                bytelen_attributes: 0,
                bytelen_name: 0,
            },
            header_len(version),
        ),
        NodeHeader::byte_len(version) == header_len(version),
{
    let len = header_len(version);
    lemma_zeros_are_written(wide_len(version));
    assert(zeros(len) =~= node_header_bytes(version, 0, 0, 0, 0));
    lemma_node_header_is_read_back(version, 0, 0, 0, 0, s.rest);
}

/// What the events from some place on are, once the next is known.
proof fn lemma_events_after_next(st: StateModel, s: Stream)
    requires
        goes_on(st),
    ensures
        match st.next(s) {
            Step::Event(kind, state, after) => events(st, s) == if kind == EventKind::EndFbx {
                seq![EventModel::EndFbx]
            } else {
                seq![EventModel::of(kind, state)] + events(state.after(kind), after)
            },
            _ => events(st, s) == Seq::<EventModel>::empty(),
        },
{
    lemma_events_make_progress(st, s);
}

/// The node that is open while a parser is within the given tree, which starts at
/// the offset `start`.
spec fn opened(start: nat, tree: Tree) -> NodeModel {
    NodeModel {
        start: start as u64,
        end: tree.end,
        attributes: tree.attributes,
        attributes_end: tree.attributes_end,
        name: decode_utf8(tree.name),
        children: 0,
    }
}

/// A parser that comes to a tree reads its start. It is then as good as behind the
/// attributes, which need not be read.
proof fn lemma_tree_starts(st: StateModel, s: Stream, tree: Tree)
    requires
        written(st.version, s, tree),
        !st.skipped,
        goes_on(st),
        st.depth() > 0 ==> st.current().attributes_end <= s.pos < st.current().end,
    ensures
        events(st, s) == seq![EventModel::Start(decode_utf8(tree.name), tree.attributes)] + events(
            st.opening(opened(s.pos, tree)).after(EventKind::StartNode),
            s.at(tree.attributes_end as nat),
        ),
{
    let node = opened(s.pos, tree);
    let after_name = s.advance(header_len(st.version)).advance(tree.name.len());
    lemma_header_is_found(st.version, s, tree);
    lemma_tree_ends(st.version, s, tree);
    assert(st.next(s) == Step::Event(EventKind::StartNode, st.opening(node), after_name));
    let inside = st.opening(node).after(EventKind::StartNode);
    assert(inside.current() == node);
    lemma_events_after_next(st, s);
    let inner = s.at(tree.attributes_end as nat);
    assert(after_name.reaches(inner)) by {
        assert(inner.rest =~= after_name.rest.skip(inner.pos - after_name.pos));
    }
    lemma_unread_attributes_do_not_matter(inside, after_name, inner);
    lemma_events_after_next(inside, after_name);
    lemma_events_after_next(inside, inner);
}

/// A parser that is within a tree, behind all the children, reads its end.
proof fn lemma_tree_is_closed(st: StateModel, s: Stream, tree: Tree, done: StateModel)
    requires
        written(st.version, s, tree),
        !st.skipped,
        goes_on(st),
        done == children_done(
            st.opening(opened(s.pos, tree)).after(EventKind::StartNode),
            tree.children.len(),
        ),
    ensures
        events(done, s.at(forest_end(tree.attributes_end as nat, tree.children))) == seq![
            EventModel::End,
        ] + events(child_done(st), s.at(tree.end as nat)),
{
    let inside = st.opening(opened(s.pos, tree)).after(EventKind::StartNode);
    lemma_children_done(inside, tree.children.len());
    lemma_tree_ends(st.version, s, tree);
    let children_end = forest_end(tree.attributes_end as nat, tree.children);
    let behind = s.at(children_end);
    let beyond = s.at(tree.end as nat);
    lemma_at_at(s, children_end, tree.end as nat);
    assert(inside.current() == opened(s.pos, tree));
    if tree.ends_with_marker() {
        lemma_marker_is_found(st.version, behind);
    }
    assert(done.next(behind) == Step::Event(EventKind::EndNode, done.closing(), beyond)) by {
        assert(behind.at(behind.pos).rest =~= behind.rest);
    }
    lemma_events_after_next(done, behind);
    let closed = done.closing().after(EventKind::EndNode);
    assert(closed.started =~= child_done(st).started);
}

/// A parser that comes to a tree reads its events, and is then behind the tree.
#[verifier::rlimit(50)]
proof fn lemma_tree_is_read(st: StateModel, s: Stream, tree: Tree)
    requires
        written(st.version, s, tree),
        !st.skipped,
        goes_on(st),
        st.depth() > 0 ==> st.current().attributes_end <= s.pos && tree.end < st.current().end,
    ensures
        events(st, s) == tree_events(tree) + events(child_done(st), s.at(tree.end as nat)),
    decreases tree,
{
    let attributes_end = tree.attributes_end as nat;
    let inside = st.opening(opened(s.pos, tree)).after(EventKind::StartNode);
    let done = children_done(inside, tree.children.len());
    lemma_tree_ends(st.version, s, tree);
    lemma_tree_starts(st, s, tree);
    assert(inside.current() == opened(s.pos, tree));
    lemma_forest_is_read(inside, s.at(attributes_end), tree.children);
    lemma_at_at(s, attributes_end, forest_end(attributes_end, tree.children));
    lemma_tree_is_closed(st, s, tree, done);
    let rest = events(child_done(st), s.at(tree.end as nat));
    assert(events(st, s) =~= tree_events(tree) + rest);
}

/// A parser that comes to some trees reads their events, and is then behind them.
#[verifier::rlimit(30)]
proof fn lemma_forest_is_read(st: StateModel, s: Stream, trees: Seq<Tree>)
    requires
        all_written(st.version, s, trees),
        !st.skipped,
        goes_on(st),
        st.depth() > 0 ==> st.current().attributes_end <= s.pos && (trees.len() > 0
            ==> trees.last().end < st.current().end),
    ensures
        events(st, s) == forest_events(trees) + events(
            children_done(st, trees.len()),
            s.at(forest_end(s.pos, trees)),
        ),
    decreases trees,
{
    assert(s.at(s.pos).rest =~= s.rest);
    lemma_forest_ends(st.version, s, trees);
    if trees.len() > 0 {
        let first = trees[0];
        let others = trees.drop_first();
        let next = s.at(first.end as nat);
        lemma_tree_is_read(st, s, first);
        lemma_forest_is_read(child_done(st), next, others);
        lemma_at_at(s, first.end as nat, forest_end(s.pos, trees));
        if others.len() > 0 {
            assert(others.last() == trees.last());
        }
        let rest = events(
            children_done(st, trees.len()),
            s.at(forest_end(s.pos, trees)),
        );
        assert(events(st, s) =~= forest_events(trees) + rest);
    } else {
        assert(events(st, s) =~= forest_events(trees) + events(st, s));
    }
}

/// Every document that is written as it should be is read from its first node to its
/// last, and the events that a parser hands out are those of its nodes.
pub proof fn lemma_document_is_read(version: FbxVersion, s: Stream, trees: Seq<Tree>)
    requires
        document_written(version, s, trees),
    ensures
        events(StateModel::initial(version), s) == forest_events(trees).push(EventModel::EndFbx),
{
    let st = StateModel::initial(version);
    lemma_forest_is_read(st, s, trees);
    let done = children_done(st, trees.len());
    lemma_children_done(st, trees.len());
    let behind = s.at(forest_end(s.pos, trees));
    lemma_marker_is_found(version, behind);
    lemma_events_after_next(done, behind);
    assert(events(done, behind) == seq![EventModel::EndFbx]);
    assert(events(st, s) =~= forest_events(trees).push(EventModel::EndFbx));
}

} // verus!
