//! Errors of the parser.
use vstd::prelude::*;

use crate::low::FbxVersion;
use crate::pull_parser::position::{PositionModel, SyntacticPosition};
use crate::pull_parser::reader::IoError;
use crate::pull_parser::version::ParserVersion;
use crate::pull_parser::warning::Warning;

verus! {

/// What is wrong with a document.
#[derive(Debug, PartialEq, Eq, Hash)]
pub enum DataError {
    /// The document does not end as it should.
    BrokenFbxFooter,
    /// The content of a compressed array cannot be decompressed.
    InvalidCompression,
    /// An array has its elements written in an unknown way.
    InvalidArrayAttributeEncoding(u32),
    /// An attribute has an unknown type.
    InvalidAttributeTypeCode(u8),
    /// The name of a node is not UTF-8.
    InvalidNodeNameEncoding(Vec<u8>),
    /// A node does not end at the offset that its header gives (first) but
    /// elsewhere (second, if known).
    NodeLengthMismatch(u64, Option<u64>),
    /// A length, counted from an offset, leads beyond every offset.
    OffsetOverflow(u64, u64),
    /// The text of a string attribute is not UTF-8.
    InvalidStringEncoding(Vec<u8>),
}

/// What a [`DataError`] says.
pub ghost enum DataFault {
    BrokenFbxFooter,
    InvalidCompression,
    InvalidArrayAttributeEncoding(u32),
    InvalidAttributeTypeCode(u8),
    InvalidNodeNameEncoding(Seq<u8>),
    NodeLengthMismatch(u64, Option<u64>),
    OffsetOverflow(u64, u64),
    InvalidStringEncoding(Seq<u8>),
}

impl View for DataError {
    type V = DataFault;

    open spec fn view(&self) -> DataFault {
        match self {
            DataError::BrokenFbxFooter => DataFault::BrokenFbxFooter,
            DataError::InvalidCompression => DataFault::InvalidCompression,
            DataError::InvalidArrayAttributeEncoding(
                raw,
            ) => DataFault::InvalidArrayAttributeEncoding(*raw),
            DataError::InvalidAttributeTypeCode(code) => DataFault::InvalidAttributeTypeCode(*code),
            DataError::InvalidNodeNameEncoding(name) => DataFault::InvalidNodeNameEncoding(name@),
            DataError::NodeLengthMismatch(expected, got) => DataFault::NodeLengthMismatch(
                *expected,
                *got,
            ),
            DataError::OffsetOverflow(offset, len) => DataFault::OffsetOverflow(*offset, *len),
            DataError::InvalidStringEncoding(text) => DataFault::InvalidStringEncoding(text@),
        }
    }
}

/// What is wrong with a request.
#[derive(Debug, Clone, Copy, PartialEq, Eq, Hash, Structural)]
pub enum OperationError {
    /// The parser has failed before.
    AlreadyAborted,
    /// The parser has read the whole document.
    AlreadyFinished,
    /// The parser does not read documents of the given version.
    UnsupportedFbxVersion(ParserVersion, FbxVersion),
}

/// What went wrong.
#[derive(Debug, PartialEq, Eq, Hash)]
pub enum ErrorKind {
    /// The document is invalid.
    Data(DataError),
    /// The input failed.
    Io(IoError),
    /// The request is invalid.
    Operation(OperationError),
    /// A warning was taken for an error.
    Warning(Warning),
}

/// What an [`ErrorKind`] says.
pub ghost enum ErrorKindModel {
    Data(DataFault),
    Io(IoError),
    Operation(OperationError),
    Warning(Warning),
}

impl View for ErrorKind {
    type V = ErrorKindModel;

    open spec fn view(&self) -> ErrorKindModel {
        match self {
            ErrorKind::Data(e) => ErrorKindModel::Data(e@),
            ErrorKind::Io(e) => ErrorKindModel::Io(*e),
            ErrorKind::Operation(e) => ErrorKindModel::Operation(*e),
            ErrorKind::Warning(w) => ErrorKindModel::Warning(*w),
        }
    }
}

/// A failure of the parser.
#[derive(Debug, PartialEq, Eq, Hash)]
pub struct Error {
    /// What went wrong.
    pub kind: ErrorKind,
    /// Where it was noticed, if known.
    pub position: Option<SyntacticPosition>,
}

/// What an [`Error`] says.
pub ghost struct ErrorModel {
    pub kind: ErrorKindModel,
    pub position: Option<PositionModel>,
}

impl View for Error {
    type V = ErrorModel;

    open spec fn view(&self) -> ErrorModel {
        ErrorModel {
            kind: self.kind@,
            position: match self.position {
                Some(pos) => Some(pos@),
                None => None,
            },
        }
    }
}

impl ErrorModel {
    /// An error that says of a document what is wrong with it, but not where.
    pub open spec fn data(fault: DataFault) -> ErrorModel {
        ErrorModel { kind: ErrorKindModel::Data(fault), position: None }
    }

    /// A failure of the input, with nothing said of the place.
    pub open spec fn io(e: IoError) -> ErrorModel {
        ErrorModel { kind: ErrorKindModel::Io(e), position: None }
    }

    /// An invalid request, with nothing said of the place.
    pub open spec fn operation(e: OperationError) -> ErrorModel {
        ErrorModel { kind: ErrorKindModel::Operation(e), position: None }
    }

    /// The same failure, noticed at `pos`.
    pub open spec fn at(self, pos: PositionModel) -> ErrorModel {
        ErrorModel { kind: self.kind, position: Some(pos) }
    }
}

impl Error {
    /// Creates an error that says what is wrong with a document.
    pub fn data(e: DataError) -> (r: Self)
        ensures
            r.kind == ErrorKind::Data(e),
            r.position is None,
    {
        Error { kind: ErrorKind::Data(e), position: None }
    }

    /// Creates an error out of a failure of the input.
    pub fn io(e: IoError) -> (r: Self)
        ensures
            r.kind == ErrorKind::Io(e),
            r.position is None,
    {
        Error { kind: ErrorKind::Io(e), position: None }
    }

    /// Creates an error that says what is wrong with a request.
    pub fn operation(e: OperationError) -> (r: Self)
        ensures
            r.kind == ErrorKind::Operation(e),
            r.position is None,
    {
        Error { kind: ErrorKind::Operation(e), position: None }
    }

    /// Creates an error out of a warning.
    pub fn warning(w: Warning) -> (r: Self)
        ensures
            r.kind == ErrorKind::Warning(w),
            r.position is None,
    {
        Error { kind: ErrorKind::Warning(w), position: None }
    }

    /// Creates an error that was noticed at the given place.
    pub fn with_position(kind: ErrorKind, position: SyntacticPosition) -> (e: Self)
        ensures
            e.kind == kind,
            e.position == Some(position),
    {
        Error { kind, position: Some(position) }
    }

    /// Sets the place where the error was noticed.
    pub fn and_position(self, position: SyntacticPosition) -> (e: Self)
        ensures
            e.kind == self.kind,
            e.position == Some(position),
    {
        Error { kind: self.kind, position: Some(position) }
    }

    /// Returns what went wrong.
    pub fn kind(&self) -> (kind: &ErrorKind)
        ensures
            *kind == self.kind,
    {
        &self.kind
    }

    /// Returns the place where the error was noticed, if known.
    pub fn position(&self) -> (position: Option<&SyntacticPosition>)
        ensures
            position == match self.position {
                Some(pos) => Some(&pos),
                None => None,
            },
    {
        self.position.as_ref()
    }
}

/// What is found at the start of a stream that is read for a value.
pub ghost enum Decoded<T> {
    /// The value, and how many bytes write it down.
    Value(T, nat),
    /// The stream ends within the value.
    Truncated,
    /// The bytes write down no value.
    Invalid(DataFault),
}

} // verus!
