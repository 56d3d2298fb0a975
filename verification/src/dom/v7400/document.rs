//! Documents.
use indextree::Arena;
use vstd::prelude::*;

use crate::dom::v7400::arena::{clone_arena, links_in, node_at, nodes_in, NodeLinks};
use crate::dom::v7400::node::{Node, NodeData, NodeDataModel, NodeId, StrSym};
use crate::dom::v7400::strings::StringTable;

verus! {

/// A document.
#[derive(Debug, PartialEq)]
pub struct Document {
    /// Names of the nodes.
    strings: StringTable,
    /// The nodes.
    nodes: Arena<NodeData>,
    /// The root node, which no bytes stand for.
    root: NodeId,
}

impl Document {
    /// The names of the nodes, each at the index that is its symbol.
    pub closed spec fn strings(&self) -> Seq<Seq<char>> {
        self.strings@
    }

    /// The storage of the nodes.
    pub closed spec fn storage(&self) -> Arena<NodeData> {
        self.nodes
    }

    /// What the data of the nodes say, each at the index that its identifier holds.
    pub open spec fn nodes(&self) -> Seq<NodeDataModel> {
        nodes_in(self.storage())
    }

    /// The links of the nodes, each at the index that its identifier holds.
    pub open spec fn links(&self) -> Seq<NodeLinks> {
        links_in(self.storage())
    }

    /// The identifier of the root node.
    pub closed spec fn root_id(&self) -> NodeId {
        self.root
    }

    /// Creates a document.
    pub fn new(strings: StringTable, nodes: Arena<NodeData>, root: NodeId) -> (document: Self)
        ensures
            document.strings() == strings@,
            document.storage() == nodes,
            document.root_id() == root,
    {
        Document { strings, nodes, root }
    }

    /// Returns the string that the given symbol stands for.
    ///
    /// Returns `None` if the symbol stands for no string of the document.
    pub fn string(&self, sym: StrSym) -> (string: Option<&str>)
        ensures
            match string {
                Some(string) => sym.0 < self.strings().len() && string@
                    == self.strings()[sym.0 as int],
                None => self.strings().len() <= sym.0,
            },
    {
        self.strings.resolve(sym)
    }

    /// Returns the node with the given identifier.
    ///
    /// Returns `None` if the document has no node with this identifier.
    pub fn node(&self, id: NodeId) -> (node: Option<Node<'_>>)
        ensures
            match node {
                Some(node) => {
                    &&& id.index() < self.nodes().len()
                    &&& node.data@ == self.nodes()[id.index() as int]
                    &&& node.id == id
                    &&& *node.arena == self.storage()
                },
                None => self.nodes().len() <= id.index(),
            },
    {
        match node_at(&self.nodes, id.raw()) {
            Some(data) => Some(Node::new(id, data, &self.nodes)),
            None => None,
        }
    }

    /// Returns the storage of the nodes, which holds the links between them.
    pub fn arena(&self) -> (arena: &Arena<NodeData>)
        ensures
            *arena == self.storage(),
    {
        &self.nodes
    }

    /// Returns the identifier of the root node.
    pub fn root(&self) -> (id: NodeId)
        ensures
            id == self.root_id(),
    {
        self.root
    }
}

impl Clone for Document {
    fn clone(&self) -> (copy: Self)
        ensures
            copy.strings() == self.strings(),
            copy.nodes() == self.nodes(),
            copy.links() == self.links(),
            copy.root_id() == self.root_id(),
    {
        Document {
            strings: self.strings.clone(),
            nodes: clone_arena(&self.nodes),
            root: self.root,
        }
    }
}

} // verus!
