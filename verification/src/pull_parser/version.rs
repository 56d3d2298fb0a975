//! Versions of the parser.
use vstd::prelude::*;

use crate::low::FbxVersion;

verus! {

/// The first FBX version that the parser for FBX 7.4 and later reads.
pub const FIRST_V7400: u32 = 7400;

/// The last FBX version that the parser for FBX 7.4 and later reads.
pub const LAST_V7400: u32 = 7999;

/// Parser version.
#[derive(Debug, Clone, Copy, PartialEq, Eq, Hash, Structural)]
pub enum ParserVersion {
    /// For FBX 7.4 and compatible later versions.
    V7400,
}

impl ParserVersion {
    /// The parser version that reads the given FBX version.
    pub open spec fn reading(fbx_version: FbxVersion) -> Option<ParserVersion> {
        if FIRST_V7400 <= fbx_version.0 <= LAST_V7400 {
            Some(ParserVersion::V7400)
        } else {
            None
        }
    }

    /// Returns the parser version that reads the given FBX version.
    ///
    /// Returns `None` if no parser does.
    pub fn from_fbx_version(fbx_version: FbxVersion) -> (version: Option<ParserVersion>)
        ensures
            version == Self::reading(fbx_version),
    {
        let raw: u32 = fbx_version.raw();
        if FIRST_V7400 <= raw && raw <= LAST_V7400 {
            Some(ParserVersion::V7400)
        } else {
            None
        }
    }
}

} // verus!
