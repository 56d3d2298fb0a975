//! Values that are read by a parser.
use vstd::prelude::*;

use crate::low::bytes::{le_u32, le_u64};
use crate::low::v7400::footer::{zeros_in, FooterModel};
use crate::low::v7400::node_header::FIRST_WIDE_VERSION;
use crate::low::v7400::{FbxFooter, NodeHeader};
use crate::low::FbxVersion;
use crate::pull_parser::error::{Decoded, Error};
use crate::pull_parser::reader::{ParserSource, Stream};
use crate::pull_parser::v7400::parser::Parser;
use crate::pull_parser::v7400::read::{obtains, read_array, FromReader};
use crate::pull_parser::warning::WarningHandler;

verus! {

/// A value that can be read by a parser.
pub trait FromParser: View + Sized {
    /// The value that a document of the given version has in `s`.
    spec fn expected(version: FbxVersion, s: Stream) -> Decoded<Self::V>;

    /// Reads the value from the source of the parser.
    fn read_from_parser<R: ParserSource, W: WarningHandler>(parser: &mut Parser<R, W>) -> (r: Result<
        Self,
        Error,
    >)
        requires
            old(parser).wf(),
        ensures
            final(parser).wf(),
            final(parser).state() == old(parser).state(),
            final(parser).handler() == old(parser).handler(),
            obtains(
                Self::expected(old(parser).state().version, old(parser).stream()),
                old(parser).source(),
                final(parser).source(),
                r,
            ),
    ;
}

impl<T: FromReader> FromParser for T {
    open spec fn expected(version: FbxVersion, s: Stream) -> Decoded<T::V> {
        T::decode(s.rest)
    }

    fn read_from_parser<R: ParserSource, W: WarningHandler>(parser: &mut Parser<R, W>) -> (r: Result<
        T,
        Error,
    >) {
        T::from_reader(parser.reader())
    }
}

impl FromParser for NodeHeader {
    open spec fn expected(version: FbxVersion, s: Stream) -> Decoded<NodeHeader> {
        NodeHeader::decode(version, s.rest)
    }

    fn read_from_parser<R: ParserSource, W: WarningHandler>(parser: &mut Parser<R, W>) -> (r: Result<
        NodeHeader,
        Error,
    >) {
        let ghost rest = parser.stream().rest;
        let version = parser.fbx_version();
        if version.raw() < FIRST_WIDE_VERSION {
            match read_array(parser.reader(), 13) {
                Ok(bytes) => {
                    proof {
                        assert(bytes@.subrange(0, 4) =~= rest.subrange(0, 4));
                        assert(bytes@.subrange(4, 8) =~= rest.subrange(4, 8));
                        assert(bytes@.subrange(8, 12) =~= rest.subrange(8, 12));
                    }
                    Ok(
                        NodeHeader {
                            end_offset: le_u32(&bytes, 0) as u64,
                            num_attributes: le_u32(&bytes, 4) as u64,
                            bytelen_attributes: le_u32(&bytes, 8) as u64,
                            bytelen_name: bytes[12],
                        },
                    )
                },
                Err(e) => Err(e),
            }
        } else {
            match read_array(parser.reader(), 25) {
                Ok(bytes) => {
                    proof {
                        assert(bytes@.subrange(0, 8) =~= rest.subrange(0, 8));
                        assert(bytes@.subrange(8, 16) =~= rest.subrange(8, 16));
                        assert(bytes@.subrange(16, 24) =~= rest.subrange(16, 24));
                    }
                    Ok(
                        NodeHeader {
                            end_offset: le_u64(&bytes, 0),
                            num_attributes: le_u64(&bytes, 8),
                            bytelen_attributes: le_u64(&bytes, 16),
                            bytelen_name: bytes[24],
                        },
                    )
                },
                Err(e) => Err(e),
            }
        }
    }
}

impl FromParser for FbxFooter {
    open spec fn expected(version: FbxVersion, s: Stream) -> Decoded<FooterModel> {
        FbxFooter::decode(version, s)
    }

    fn read_from_parser<R: ParserSource, W: WarningHandler>(parser: &mut Parser<R, W>) -> (r: Result<
        FbxFooter,
        Error,
    >) {
        let ghost s = parser.stream();
        let version = parser.fbx_version();
        let padding_len: u8 = FbxFooter::padding_len_at(parser.offset());
        match read_array(parser.reader(), 160 + padding_len as usize) {
            Ok(bytes) => {
                proof {
                    let pad = padding_len as int;
                    assert(bytes@.subrange(20 + pad, 24 + pad) =~= s.rest.subrange(
                        20 + pad,
                        24 + pad,
                    ));
                    assert(bytes@.subrange(144 + pad, 160 + pad) =~= s.rest.subrange(
                        144 + pad,
                        160 + pad,
                    ));
                    assert(bytes@.take(16) =~= s.rest.take(16));
                    assert forall|from: int, to: int| 0 <= from <= to <= bytes@.len() implies zeros_in(
                        bytes@,
                        from,
                        to,
                    ) == zeros_in(s.rest, from, to) by {
                        if zeros_in(bytes@, from, to) {
                            assert forall|i: int| from <= i < to implies s.rest[i] == 0 by {
                                assert(bytes@[i] == s.rest[i]);
                            }
                        }
                        if zeros_in(s.rest, from, to) {
                            assert forall|i: int| from <= i < to implies bytes@[i] == 0 by {
                                assert(bytes@[i] == s.rest[i]);
                            }
                        }
                    }
                }
                match FbxFooter::from_bytes(version, padding_len, &bytes) {
                    Ok(footer) => Ok(footer),
                    Err(e) => Err(Error::data(e)),
                }
            },
            Err(e) => Err(e),
        }
    }
}

} // verus!
