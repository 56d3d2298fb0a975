//! Compressed content.
use vstd::prelude::*;

verus! {

/// What the decoder of `libflate` makes of some bytes: the bytes that they compress,
/// or nothing if they are no zlib stream.
pub uninterp spec fn inflated(content: Seq<u8>) -> Option<Seq<u8>>;

/// Reads all that `libflate::non_blocking::zlib::Decoder` makes of the given bytes.
///
/// What comes out depends on the bytes alone. Nothing comes out where the decoder
/// finds a fault: bytes that are no zlib stream, that end too early, or whose checksum
/// is wrong. Bytes after the end of the stream are left out of account. It is not said
/// here which bytes a zlib stream stands for.
#[verifier::external_body]
pub(crate) fn inflate(content: &Vec<u8>) -> (r: Option<Vec<u8>>)
    ensures
        match r {
            Some(bytes) => inflated(content@) == Some(bytes@),
            None => inflated(content@) is None,
        },
{
    let mut bytes = Vec::new();
    let mut decoder = libflate::non_blocking::zlib::Decoder::new(&content[..]);
    match std::io::Read::read_to_end(&mut decoder, &mut bytes) {
        Ok(_) => Some(bytes),
        Err(_) => None,
    }
}

} // verus!
