//! Node headers.
use vstd::prelude::*;

use crate::low::bytes::{le_value, lemma_le_value_zero};
use crate::low::FbxVersion;
use crate::pull_parser::error::Decoded;

verus! {

/// The first FBX version whose node headers have 64-bit fields.
pub const FIRST_WIDE_VERSION: u32 = 7500;

/// Header of a node.
#[derive(Debug, Clone, Copy, PartialEq, Eq, Hash, Structural)]
pub struct NodeHeader {
    /// Offset of the byte after the node.
    pub end_offset: u64,
    /// Number of attributes.
    pub num_attributes: u64,
    /// Length of all attributes together, in bytes.
    pub bytelen_attributes: u64,
    /// Length of the name, in bytes.
    pub bytelen_name: u8,
}

impl View for NodeHeader {
    type V = NodeHeader;

    open spec fn view(&self) -> NodeHeader {
        *self
    }
}

impl NodeHeader {
    /// The number of bytes that each of the three wide fields takes.
    pub open spec fn field_len(version: FbxVersion) -> nat {
        if version.0 < FIRST_WIDE_VERSION {
            4
        } else {
            8
        }
    }

    /// The number of bytes that a node header takes.
    pub open spec fn byte_len(version: FbxVersion) -> nat {
        3 * Self::field_len(version) + 1
    }

    /// The node header that a document of the given version has in `rest`.
    pub open spec fn decode(version: FbxVersion, rest: Seq<u8>) -> Decoded<NodeHeader> {
        let w = Self::field_len(version) as int;
        if rest.len() < Self::byte_len(version) {
            Decoded::Truncated
        } else {
            Decoded::Value(
                NodeHeader {
                    end_offset: le_value(rest.subrange(0, w)) as u64,
                    num_attributes: le_value(rest.subrange(w, 2 * w)) as u64,
                    bytelen_attributes: le_value(rest.subrange(2 * w, 3 * w)) as u64,
                    bytelen_name: rest[3 * w],
                },
                Self::byte_len(version),
            )
        }
    }

    /// Whether the header marks the end of a node.
    pub open spec fn marks_end(self) -> bool {
        &&& self.end_offset == 0
        &&& self.num_attributes == 0
        &&& self.bytelen_attributes == 0
        &&& self.bytelen_name == 0
    }

    /// Returns whether the header marks the end of a node.
    pub fn is_node_end(&self) -> (end: bool)
        ensures
            end == self.marks_end(),
    {
        self.end_offset == 0 && self.num_attributes == 0 && self.bytelen_attributes == 0
            && self.bytelen_name == 0
    }
}

/// A node header marks the end of a node exactly where all its bytes are zero.
pub proof fn lemma_end_marker_is_all_zero(version: FbxVersion, rest: Seq<u8>)
    requires
        rest.len() >= NodeHeader::byte_len(version),
    ensures
        NodeHeader::decode(version, rest) matches Decoded::Value(header, len) && len
            == NodeHeader::byte_len(version) && (header.marks_end() <==> forall|i: int|
            0 <= i < len ==> rest[i] == 0),
{
    let w = NodeHeader::field_len(version) as int;
    let len = NodeHeader::byte_len(version);
    let a = rest.subrange(0, w);
    let b = rest.subrange(w, 2 * w);
    let c = rest.subrange(2 * w, 3 * w);
    crate::low::bytes::lemma_le_value_bound(a);
    crate::low::bytes::lemma_le_value_bound(b);
    crate::low::bytes::lemma_le_value_bound(c);
    lemma_le_value_zero(a);
    lemma_le_value_zero(b);
    lemma_le_value_zero(c);
    let header = NodeHeader::decode(version, rest)->Value_0;
    if header.marks_end() {
        assert forall|i: int| 0 <= i < len implies rest[i] == 0 by {
            if i < w {
                assert(a[i] == rest[i]);
            } else if i < 2 * w {
                assert(b[i - w] == rest[i]);
            } else if i < 3 * w {
                assert(c[i - 2 * w] == rest[i]);
            }
        }
    }
}

} // verus!
