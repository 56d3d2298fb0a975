//! Pull parser for FBX binary.
pub mod error;
pub mod position;
pub mod reader;
pub mod sources;
pub mod v7400;
pub mod version;
pub mod warning;

pub use self::error::{DataError, Error, ErrorKind, OperationError};
pub use self::position::SyntacticPosition;
pub use self::reader::{
    BufferedReader, BufferedSource, ByteReader, IoError, MemoryReader, ParserSource, PlainSource,
    SeekReader, SeekableSource,
};
pub use self::version::ParserVersion;
pub use self::warning::{IgnoreWarnings, Warning, WarningHandler};
