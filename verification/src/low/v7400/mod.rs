//! Data of FBX 7.4 and later.
pub mod attribute;
pub mod footer;
pub mod node_header;

pub use self::attribute::{
    ArrayAttributeEncoding, ArrayAttributeHeader, AttributeType, Binary32, Binary64,
    SpecialAttributeHeader,
};
pub use self::footer::FbxFooter;
pub use self::node_header::NodeHeader;
