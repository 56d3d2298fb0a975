//! Low-level data: what the bytes of a document mean.
use vstd::prelude::*;

pub mod bytes;
pub mod encoding;
pub mod reading;
pub mod v7400;

use crate::low::bytes::{le_u32, le_value};

verus! {

/// The bytes that every FBX binary document starts with.
pub open spec fn magic() -> Seq<u8> {
    seq![
        0x4bu8, 0x61, 0x79, 0x64, 0x61, 0x72, 0x61, 0x20, 0x46, 0x42, 0x58, 0x20, 0x42, 0x69, 0x6e,
        0x61, 0x72, 0x79, 0x20, 0x20, 0x00, 0x1a, 0x00,
    ]
}

/// The length of the magic bytes.
pub const MAGIC_LEN: usize = 23;

/// The length of the document header: the magic bytes and the version.
pub const HEADER_LEN: usize = 27;

/// FBX version.
#[derive(Debug, Clone, Copy, PartialEq, Eq, PartialOrd, Ord, Hash, Structural)]
pub struct FbxVersion(pub u32);

impl FbxVersion {
    /// Creates a version from its number, such as 7400 for FBX 7.4.
    pub fn new(raw: u32) -> (version: Self)
        ensures
            version.0 == raw,
    {
        FbxVersion(raw)
    }

    /// Returns the version as a number.
    pub fn raw(self) -> (raw: u32)
        ensures
            raw == self.0,
    {
        self.0
    }

    /// Returns the major version.
    pub fn major(self) -> (major: u32)
        ensures
            major == self.0 / 1000,
    {
        self.0 / 1000
    }

    /// Returns the minor version.
    pub fn minor(self) -> (minor: u32)
        ensures
            minor == self.0 % 1000 / 100,
    {
        self.0 % 1000 / 100
    }
}

/// A reason why some bytes are no document header.
#[derive(Debug, Clone, Copy, PartialEq, Eq, Hash, Structural)]
pub enum HeaderError {
    /// There are too few bytes.
    Truncated,
    /// The bytes do not start with the magic bytes.
    MagicNotDetected,
}

/// Header of a document.
#[derive(Debug, Clone, Copy, PartialEq, Eq, Hash, Structural)]
pub struct FbxHeader {
    /// FBX version of the document.
    pub version: FbxVersion,
}

impl FbxHeader {
    /// What `bytes` say when they are read as a document header.
    pub open spec fn decode(bytes: Seq<u8>) -> Result<FbxHeader, HeaderError> {
        if bytes.len() < HEADER_LEN {
            Err(HeaderError::Truncated)
        } else if bytes.take(MAGIC_LEN as int) != magic() {
            Err(HeaderError::MagicNotDetected)
        } else {
            Ok(
                FbxHeader {
                    version: FbxVersion(
                        le_value(bytes.subrange(MAGIC_LEN as int, HEADER_LEN as int)) as u32,
                    ),
                },
            )
        }
    }

    /// Reads the header from the first bytes of a document.
    pub fn from_bytes(bytes: &Vec<u8>) -> (r: Result<FbxHeader, HeaderError>)
        ensures
            r == Self::decode(bytes@),
    {
        if bytes.len() < HEADER_LEN {
            return Err(HeaderError::Truncated);
        }
        let expected: [u8; 23] = [
            0x4bu8, 0x61, 0x79, 0x64, 0x61, 0x72, 0x61, 0x20, 0x46, 0x42, 0x58, 0x20, 0x42, 0x69,
            0x6e, 0x61, 0x72, 0x79, 0x20, 0x20, 0x00, 0x1a, 0x00,
        ];
        assert(expected@ =~= magic());
        let mut i: usize = 0;
        while i < MAGIC_LEN
            invariant
                i <= MAGIC_LEN,
                expected@ == magic(),
                bytes@.len() >= HEADER_LEN,
                forall|j: int| 0 <= j < i ==> bytes@[j] == magic()[j],
            decreases MAGIC_LEN - i,
        {
            if bytes[i] != expected[i] {
                assert(bytes@.take(MAGIC_LEN as int)[i as int] != magic()[i as int]);
                return Err(HeaderError::MagicNotDetected);
            }
            i = i + 1;
        }
        assert(bytes@.take(MAGIC_LEN as int) =~= magic());
        Ok(FbxHeader { version: FbxVersion(le_u32(bytes, MAGIC_LEN)) })
    }

    /// Returns the version of the document.
    pub fn version(&self) -> (version: FbxVersion)
        ensures
            version == self.version,
    {
        self.version
    }

    /// Returns the length of the header in bytes.
    pub fn len(&self) -> (len: u64)
        ensures
            len == HEADER_LEN,
    {
        27
    }
}

} // verus!
