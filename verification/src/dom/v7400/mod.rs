//! Document object model of FBX 7.4 and later.
pub mod arena;
pub mod document;
pub mod laws;
pub mod node;
pub mod strings;

pub use self::document::Document;
pub use self::node::{Node, NodeData, NodeId, StrSym};
pub use self::strings::StringTable;
