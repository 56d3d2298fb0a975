//! Parser for FBX 7.4 and later.
pub mod attribute;
pub mod calls;
pub mod event;
pub mod from_parser;
pub mod grammar;
pub mod headers;
pub mod laws;
pub mod numbers;
pub mod outcomes;
pub mod parser;
pub mod places;
pub mod read;
pub mod reading;
pub mod state;
pub mod text;
pub mod visits;

pub use self::event::{Event, StartNode};
pub use self::from_parser::FromParser;
pub use self::parser::{from_reader, from_seekable_reader, Parser};
pub use self::read::FromReader;
