//! Places in a document.
use vstd::prelude::*;

verus! {

/// What a [`SyntacticPosition`] says.
pub ghost struct PositionModel {
    pub byte_pos: u64,
    pub component_byte_pos: u64,
    pub node_path: Seq<(u64, Seq<char>)>,
    pub attribute_index: Option<u64>,
}

/// A place in a document, in bytes and in nodes.
#[derive(Debug, PartialEq, Eq, Hash)]
pub struct SyntacticPosition {
    /// Offset of the byte that is read next.
    pub byte_pos: u64,
    /// Offset of the first byte of the innermost open node.
    pub component_byte_pos: u64,
    /// Index among its siblings and name of each open node, outermost first.
    pub node_path: Vec<(u64, String)>,
    /// Index of the attribute, if the place is within one.
    pub attribute_index: Option<u64>,
}

/// The indices and names in `path`.
pub open spec fn path_model(path: Seq<(u64, String)>) -> Seq<(u64, Seq<char>)> {
    path.map_values(|step: (u64, String)| (step.0, step.1@))
}

impl View for SyntacticPosition {
    type V = PositionModel;

    open spec fn view(&self) -> PositionModel {
        PositionModel {
            byte_pos: self.byte_pos,
            component_byte_pos: self.component_byte_pos,
            node_path: path_model(self.node_path@),
            attribute_index: self.attribute_index,
        }
    }
}

impl Clone for SyntacticPosition {
    fn clone(&self) -> (copy: Self)
        ensures
            copy@ == self@,
    {
        let mut node_path: Vec<(u64, String)> = Vec::new();
        while node_path.len() < self.node_path.len()
            invariant
                node_path@.len() <= self.node_path@.len(),
                path_model(node_path@) == path_model(self.node_path@).take(node_path@.len() as int),
            decreases self.node_path@.len() - node_path@.len(),
        {
            let i: usize = node_path.len();
            let ghost before = node_path@;
            node_path.push((self.node_path[i].0, self.node_path[i].1.clone()));
            assert(path_model(node_path@) =~= path_model(self.node_path@).take(i + 1));
        }
        assert(path_model(node_path@) =~= path_model(self.node_path@));
        SyntacticPosition {
            byte_pos: self.byte_pos,
            component_byte_pos: self.component_byte_pos,
            node_path,
            attribute_index: self.attribute_index,
        }
    }
}

} // verus!
