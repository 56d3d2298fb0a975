//! Document footer.
use vstd::prelude::*;

use crate::low::bytes::{le_u32, le_value};
use crate::low::FbxVersion;
use crate::pull_parser::error::{DataError, DataFault, Decoded};
use crate::pull_parser::reader::Stream;

verus! {

/// What follows the nodes of a document.
///
/// First comes a field of 16 bytes. Zeros fill up to the next offset that is a
/// multiple of 16. Then come 4 zeros, the version of the document, 120 zeros and
/// another field of 16 bytes.
#[derive(Debug, PartialEq, Eq, Hash)]
pub struct FbxFooter {
    /// The field before the padding.
    pub unknown1: Vec<u8>,
    /// Length of the padding.
    pub padding_len: u8,
    /// FBX version.
    pub fbx_version: FbxVersion,
    /// The last field.
    pub unknown3: Vec<u8>,
}

/// What an [`FbxFooter`] says.
pub ghost struct FooterModel {
    pub unknown1: Seq<u8>,
    pub padding_len: u8,
    pub fbx_version: FbxVersion,
    pub unknown3: Seq<u8>,
}

impl View for FbxFooter {
    type V = FooterModel;

    open spec fn view(&self) -> FooterModel {
        FooterModel {
            unknown1: self.unknown1@,
            padding_len: self.padding_len,
            fbx_version: self.fbx_version,
            unknown3: self.unknown3@,
        }
    }
}

/// Whether `bytes` holds zeros from `from` up to `to`.
pub open spec fn zeros_in(bytes: Seq<u8>, from: int, to: int) -> bool {
    forall|i: int| from <= i < to ==> bytes[i] == 0
}

impl FbxFooter {
    /// The length of the padding in a footer that starts at offset `pos`.
    pub open spec fn padding_at(pos: nat) -> nat {
        ((16 - pos % 16) % 16) as nat
    }

    /// The length of a footer that starts at offset `pos`.
    pub open spec fn byte_len_at(pos: nat) -> nat {
        160 + Self::padding_at(pos)
    }

    /// The footer that a document of the given version has in `s`.
    pub open spec fn decode(version: FbxVersion, s: Stream) -> Decoded<FooterModel> {
        let pad = Self::padding_at(s.pos) as int;
        if s.rest.len() < Self::byte_len_at(s.pos) {
            Decoded::Truncated
        } else if !zeros_in(s.rest, 16, 20 + pad) || !zeros_in(s.rest, 24 + pad, 144 + pad)
            || le_value(s.rest.subrange(20 + pad, 24 + pad)) != version.0 {
            Decoded::Invalid(DataFault::BrokenFbxFooter)
        } else {
            Decoded::Value(
                FooterModel {
                    unknown1: s.rest.take(16),
                    padding_len: pad as u8,
                    fbx_version: version,
                    unknown3: s.rest.subrange(144 + pad, 160 + pad),
                },
                Self::byte_len_at(s.pos),
            )
        }
    }

    /// Returns the length of the padding in a footer that starts at offset `pos`.
    pub fn padding_len_at(pos: u64) -> (len: u8)
        ensures
            len as nat == Self::padding_at(pos as nat),
    {
        ((16 - pos % 16) % 16) as u8
    }

    /// Reads a footer from its bytes.
    pub fn from_bytes(version: FbxVersion, padding_len: u8, bytes: &Vec<u8>) -> (r: Result<
        FbxFooter,
        DataError,
    >)
        requires
            padding_len < 16,
            bytes@.len() == 160 + padding_len,
        ensures
            match r {
                Ok(footer) => {
                    &&& zeros_in(bytes@, 16, 20 + padding_len)
                    &&& zeros_in(bytes@, 24 + padding_len, 144 + padding_len)
                    &&& le_value(bytes@.subrange(20 + padding_len, 24 + padding_len)) == version.0
                    &&& footer@ == FooterModel {
                        unknown1: bytes@.take(16),
                        padding_len,
                        fbx_version: version,
                        unknown3: bytes@.subrange(144 + padding_len, 160 + padding_len),
                    }
                },
                Err(e) => {
                    &&& e == DataError::BrokenFbxFooter
                    &&& !zeros_in(bytes@, 16, 20 + padding_len) || !zeros_in(
                        bytes@,
                        24 + padding_len,
                        144 + padding_len,
                    ) || le_value(bytes@.subrange(20 + padding_len, 24 + padding_len)) != version.0
                },
            },
    {
        let pad: usize = padding_len as usize;
        if !is_zero(bytes, 16, 20 + pad) || !is_zero(bytes, 24 + pad, 144 + pad) {
            return Err(DataError::BrokenFbxFooter);
        }
        if le_u32(bytes, 20 + pad) != version.raw() {
            return Err(DataError::BrokenFbxFooter);
        }
        Ok(
            FbxFooter {
                unknown1: copy_range(bytes, 0, 16),
                padding_len,
                fbx_version: version,
                unknown3: copy_range(bytes, 144 + pad, 160 + pad),
            },
        )
    }
}

/// The padding ends at the next offset that is a multiple of 16, and is shorter than
/// that.
pub proof fn lemma_padding_aligns(pos: nat)
    ensures
        (pos + 16 + FbxFooter::padding_at(pos)) % 16 == 0,
        FbxFooter::padding_at(pos) < 16,
{
}

/// Returns whether `bytes` holds zeros from `from` up to `to`.
fn is_zero(bytes: &Vec<u8>, from: usize, to: usize) -> (zero: bool)
    requires
        from <= to <= bytes@.len(),
    ensures
        zero == zeros_in(bytes@, from as int, to as int),
{
    let mut i: usize = from;
    while i < to
        invariant
            from <= i <= to <= bytes@.len(),
            zeros_in(bytes@, from as int, i as int),
        decreases to - i,
    {
        if bytes[i] != 0 {
            return false;
        }
        i = i + 1;
    }
    true
}

/// Copies the bytes from `from` up to `to`.
fn copy_range(bytes: &Vec<u8>, from: usize, to: usize) -> (copy: Vec<u8>)
    requires
        from <= to <= bytes@.len(),
    ensures
        copy@ == bytes@.subrange(from as int, to as int),
{
    let mut copy: Vec<u8> = Vec::new();
    let mut i: usize = from;
    while i < to
        invariant
            from <= i <= to <= bytes@.len(),
            copy@ == bytes@.subrange(from as int, i as int),
        decreases to - i,
    {
        copy.push(bytes[i]);
        i = i + 1;
        assert(copy@ =~= bytes@.subrange(from as int, i as int));
    }
    copy
}

} // verus!
