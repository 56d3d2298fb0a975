//! Nodes of a document.
use indextree::Arena;
use vstd::prelude::*;

use crate::pull_parser::v7400::attribute::direct::ValueModel;
use crate::pull_parser::v7400::attribute::DirectAttributeValue;

verus! {

/// Symbol of an interned string.
#[derive(Debug, Clone, Copy, PartialEq, Eq, PartialOrd, Ord, Hash, Structural)]
pub struct StrSym(pub usize);

/// Identifier of a node.
#[derive(Debug, Clone, Copy, PartialEq, Eq, PartialOrd, Ord, Hash, Structural)]
pub struct NodeId {
    index: usize,
}

impl NodeId {
    /// The index of the node among the nodes of its document.
    pub closed spec fn index(self) -> usize {
        self.index
    }

    #[verifier::type_invariant]
    closed spec fn in_range(self) -> bool {
        self.index < usize::MAX
    }

    /// Creates the identifier of the node with the given index.
    ///
    /// No node has the largest index there is.
    pub fn new(index: usize) -> (id: Self)
        requires
            index < usize::MAX,
        ensures
            id.index() == index,
    {
        NodeId { index }
    }

    /// Returns the index of the node among the nodes of its document.
    pub fn raw(self) -> (index: usize)
        ensures
            index == self.index(),
            index < usize::MAX,
    {
        proof {
            use_type_invariant(&self);
        }
        self.index
    }
}

/// Data of a node.
#[derive(Debug, PartialEq)]
pub struct NodeData {
    /// Symbol of the name.
    pub name_sym: StrSym,
    /// The attributes, from first to last.
    pub attributes: Vec<DirectAttributeValue>,
}

/// What a [`NodeData`] says.
pub ghost struct NodeDataModel {
    pub name_sym: StrSym,
    pub attributes: Seq<ValueModel>,
}

/// What the given values say.
pub open spec fn values_model(values: Seq<DirectAttributeValue>) -> Seq<ValueModel> {
    values.map_values(|value: DirectAttributeValue| value@)
}

impl View for NodeData {
    type V = NodeDataModel;

    open spec fn view(&self) -> NodeDataModel {
        NodeDataModel { name_sym: self.name_sym, attributes: values_model(self.attributes@) }
    }
}

impl Clone for NodeData {
    fn clone(&self) -> (copy: Self)
        ensures
            copy@ == self@,
    {
        let mut attributes: Vec<DirectAttributeValue> = Vec::new();
        while attributes.len() < self.attributes.len()
            invariant
                attributes@.len() <= self.attributes@.len(),
                values_model(attributes@) == values_model(self.attributes@).take(
                    attributes@.len() as int,
                ),
            decreases self.attributes@.len() - attributes@.len(),
        {
            let i: usize = attributes.len();
            attributes.push(self.attributes[i].clone());
            assert(values_model(attributes@) =~= values_model(self.attributes@).take(i + 1));
        }
        assert(values_model(attributes@) =~= values_model(self.attributes@));
        NodeData { name_sym: self.name_sym, attributes }
    }
}

/// A node of a document.
#[derive(Debug, Clone, Copy)]
pub struct Node<'a> {
    /// The identifier of the node.
    pub id: NodeId,
    /// The data of the node.
    pub data: &'a NodeData,
    /// The storage of the node, which holds its links to other nodes.
    pub arena: &'a Arena<NodeData>,
}

impl<'a> Node<'a> {
    /// Creates the node with the given identifier and data.
    pub fn new(id: NodeId, data: &'a NodeData, arena: &'a Arena<NodeData>) -> (node: Self)
        ensures
            node.id == id,
            *node.data == *data,
            *node.arena == *arena,
    {
        Node { id, data, arena }
    }

    /// Returns the identifier of the node.
    pub fn id(&self) -> (id: NodeId)
        ensures
            id == self.id,
    {
        self.id
    }

    /// Returns the symbol of the name of the node.
    pub fn name_sym(&self) -> (sym: StrSym)
        ensures
            sym == self.data.name_sym,
    {
        self.data.name_sym
    }

    /// Returns the attributes of the node.
    pub fn attributes(&self) -> (attributes: &'a Vec<DirectAttributeValue>)
        ensures
            *attributes == self.data.attributes,
    {
        &self.data.attributes
    }
}

} // verus!
