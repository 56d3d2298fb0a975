//! Storage of nodes.
use indextree::Arena;
use vstd::prelude::*;

use crate::dom::v7400::node::{NodeData, NodeDataModel};

verus! {

/// The type `indextree::Arena`, a list of nodes that are linked to trees.
#[verifier::external_type_specification]
#[verifier::external_body]
#[verifier::reject_recursive_types(T)]
pub struct ExArena<T>(Arena<T>);

/// What the data of the nodes in an arena say, in the order in which the nodes were
/// made.
pub uninterp spec fn nodes_in(arena: Arena<NodeData>) -> Seq<NodeDataModel>;

/// The links of a node to other nodes of its arena, each by the index of the node.
pub ghost struct NodeLinks {
    pub parent: Option<nat>,
    pub previous_sibling: Option<nat>,
    pub next_sibling: Option<nat>,
    pub first_child: Option<nat>,
    pub last_child: Option<nat>,
    /// Whether the node was removed from its tree.
    pub removed: bool,
}

/// The links of the nodes in an arena, in the order in which the nodes were made.
pub uninterp spec fn links_in(arena: Arena<NodeData>) -> Seq<NodeLinks>;

/// Calls `indextree::Arena::get` for the identifier that `indextree::NodeId::new`
/// makes of an index.
///
/// The call gives the node at that index, or nothing if there are not that many
/// nodes. A node that was removed from its tree keeps its place. There is no
/// identifier for the largest index.
#[verifier::external_body]
pub(crate) fn node_at(arena: &Arena<NodeData>, index: usize) -> (r: Option<&NodeData>)
    requires
        index < usize::MAX,
    ensures
        match r {
            Some(data) => index < nodes_in(*arena).len() && data@ == nodes_in(
                *arena,
            )[index as int],
            None => nodes_in(*arena).len() <= index,
        },
{
    arena.get(indextree::NodeId::new(index)).map(|node| &node.data)
}

/// Calls the `clone` of `indextree::Arena`.
///
/// The call clones the nodes one by one, in order, with their links. A clone of the
/// data of a node says what the data say.
#[verifier::external_body]
pub(crate) fn clone_arena(arena: &Arena<NodeData>) -> (copy: Arena<NodeData>)
    ensures
        nodes_in(copy) == nodes_in(*arena),
        links_in(copy) == links_in(*arena),
{
    arena.clone()
}

} // verus!
