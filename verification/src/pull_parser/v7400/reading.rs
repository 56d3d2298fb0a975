//! What the bytes of a document are read as, one event at a time.
use vstd::prelude::*;
use vstd::utf8::{encode_utf8, encode_utf8_decode_utf8, encode_utf8_valid_utf8, valid_utf8};

use crate::low::encoding::{
    fits, lemma_node_header_is_read_back, lemma_node_header_is_written_back,
    lemma_number_is_read_back, node_header_bytes, starts_with, wide_len, zeros,
};
use crate::low::v7400::NodeHeader;
use crate::low::FbxVersion;
use crate::pull_parser::error::{DataFault, Decoded};
use crate::pull_parser::reader::Stream;
use crate::pull_parser::v7400::grammar::{header_len, lemma_marker_is_found};
use crate::pull_parser::v7400::state::{EventKind, NodeModel, StateModel, Step};

verus! {

/// The offset at which the next event starts: behind the attributes of the innermost
/// open node, or at once if none of them is unread.
pub open spec fn event_start(st: StateModel, s: Stream) -> nat {
    if st.started.len() > 0 && s.pos < st.started.last().attributes_end {
        st.started.last().attributes_end as nat
    } else {
        s.pos
    }
}

/// Whether the next event has its own bytes: the document has all the attributes that
/// are unread, and no node is open or the innermost ends later.
pub open spec fn has_bytes(st: StateModel, s: Stream) -> bool {
    &&& !(st.started.len() > 0 && st.skipped)
    &&& s.covers(event_start(st, s))
    &&& st.started.len() > 0 ==> event_start(st, s) < st.started.last().end
}

/// What of the state no event changes.
pub open spec fn same_elsewhere(a: StateModel, b: StateModel) -> bool {
    &&& a.version == b.version
    &&& a.health == b.health
    &&& a.last == b.last
    &&& a.failure == b.failure
}

/// A node whose rest has been skipped ends at once, and nothing is read.
pub proof fn lemma_skipped_node_ends(st: StateModel, s: Stream)
    requires
        st.started.len() > 0,
        st.skipped,
    ensures
        st.next(s) matches Step::Event(EventKind::EndNode, state, after) && after == s
            && state.started == st.started.drop_last() && !state.skipped && same_elsewhere(
            state,
            st,
        ) && state.toplevel == st.toplevel,
        !st.reads(s),
        !st.warns(s),
{
}

/// Where the document ends within the attributes of a node, no event comes of it.
pub proof fn lemma_cut_attributes_are_noticed(st: StateModel, s: Stream)
    requires
        !(st.started.len() > 0 && st.skipped),
        s.pos + s.rest.len() < event_start(st, s),
    ensures
        st.next(s) is Truncated,
        st.reads(s),
        !st.warns(s),
{
}

/// Behind the last byte of a node no byte tells of its end. The node ends if it has
/// attributes, no child, and is as long as its header states. Otherwise the length is
/// wrong.
pub proof fn lemma_end_of_node_is_reached(st: StateModel, s: Stream)
    requires
        st.started.len() > 0,
        !st.skipped,
        s.covers(event_start(st, s)),
        st.started.last().end <= event_start(st, s),
    ensures
        ({
            let node = st.started.last();
            let here = event_start(st, s);
            if node.end == here && node.attributes > 0 && st.last != Some(EventKind::EndNode) {
                st.next(s) matches Step::Event(EventKind::EndNode, state, after) && after.pos
                    == here && after.rest == s.rest.skip(here - s.pos) && state.started
                    == st.started.drop_last() && !state.skipped && same_elsewhere(state, st)
                    && state.toplevel == st.toplevel
            } else {
                st.next(s) matches Step::Fail(fault, state, after) && fault
                    == DataFault::NodeLengthMismatch(node.end, None) && state == st && after.pos
                    == here && after.rest == s.rest.skip(here - s.pos)
            }
        }),
        st.reads(s) == (s.pos < st.started.last().attributes_end),
        !st.warns(s),
{
    assert(s.rest.skip(0) =~= s.rest);
}

/// Where the document ends within a node header, no event comes of it.
pub proof fn lemma_cut_header_is_noticed(st: StateModel, s: Stream)
    requires
        has_bytes(st, s),
        s.pos + s.rest.len() < event_start(st, s) + header_len(st.version),
    ensures
        st.next(s) is Truncated,
        st.reads(s),
        !st.warns(s),
{
    lemma_past(st, s);
    lemma_node_header_is_written_back(st.version, st.past_attributes(s).rest);
}

/// What is left behind the attributes.
proof fn lemma_past(st: StateModel, s: Stream)
    requires
        s.covers(event_start(st, s)),
    ensures
        st.past_attributes(s) == s.at(event_start(st, s)),
        st.past_attributes(s).pos == event_start(st, s),
{
    assert(s.rest.skip(0) =~= s.rest);
}

/// Zeros for a node header tell of an end: of the document where no node is open,
/// otherwise of the innermost open node, whose length has to be as stated.
pub proof fn lemma_zeros_tell_of_an_end(st: StateModel, s: Stream)
    requires
        has_bytes(st, s),
        starts_with(s.at(event_start(st, s)).rest, zeros(header_len(st.version))),
    ensures
        ({
            let end = event_start(st, s) + header_len(st.version);
            let rest = s.rest.skip(end - s.pos);
            if st.started.len() == 0 {
                st.next(s) matches Step::Event(EventKind::EndFbx, state, after) && state == st
                    && after.pos == end && after.rest == rest
            } else if st.started.last().end == end {
                st.next(s) matches Step::Event(EventKind::EndNode, state, after) && after.pos
                    == end && after.rest == rest && state.started == st.started.drop_last()
                    && !state.skipped && same_elsewhere(state, st) && state.toplevel
                    == st.toplevel
            } else {
                st.next(s) matches Step::Fail(fault, state, after) && fault
                    == DataFault::NodeLengthMismatch(st.started.last().end, Some(end as u64))
                    && after.pos == end && after.rest == rest && state.started
                    == st.started.drop_last()
            }
        }),
        st.reads(s),
        !st.warns(s),
{
    lemma_past(st, s);
    let there = s.at(event_start(st, s));
    lemma_marker_is_found(st.version, there);
    let len = header_len(st.version);
    assert(there.advance(len).rest =~= s.rest.skip(there.pos + len - s.pos));
}

/// The header of a node as it is written, with the numbers that it holds.
pub ghost struct WrittenHeader {
    /// Offset of the byte after the node.
    pub end: u64,
    /// Number of attributes.
    pub attributes: u64,
    /// Length of the attributes, in bytes.
    pub attributes_len: u64,
    /// Length of the name, in bytes.
    pub name_len: u8,
}

impl WrittenHeader {
    /// The bytes of the header.
    pub open spec fn bytes(self, version: FbxVersion) -> Seq<u8> {
        node_header_bytes(
            version,
            self.end,
            self.attributes,
            self.attributes_len,
            self.name_len,
        )
    }

    /// Whether the numbers fit in the fields of the header.
    pub open spec fn fits(self, version: FbxVersion) -> bool {
        &&& fits(version, self.end)
        &&& fits(version, self.attributes)
        &&& fits(version, self.attributes_len)
    }

    /// Whether the header is that of a node. If all its numbers are 0, it tells of an
    /// end.
    pub open spec fn is_of_node(self) -> bool {
        ||| self.end != 0
        ||| self.attributes != 0
        ||| self.attributes_len != 0
        ||| self.name_len != 0
    }
}

/// The header that comes next is read.
proof fn lemma_header_is_read(st: StateModel, s: Stream, h: WrittenHeader)
    requires
        has_bytes(st, s),
        h.fits(st.version),
        starts_with(s.at(event_start(st, s)).rest, h.bytes(st.version)),
    ensures
        NodeHeader::decode(st.version, st.past_attributes(s).rest) == Decoded::Value(
            NodeHeader {
                end_offset: h.end,
                num_attributes: h.attributes,
                bytelen_attributes: h.attributes_len,
                bytelen_name: h.name_len,
            },
            header_len(st.version),
        ),
        event_start(st, s) + header_len(st.version) <= s.pos + s.rest.len(),
        st.past_attributes(s).pos == event_start(st, s),
        st.past_attributes(s).advance(header_len(st.version)) == s.at(
            event_start(st, s) + header_len(st.version),
        ),
        NodeHeader::byte_len(st.version) == header_len(st.version),
{
    lemma_past(st, s);
    let there = s.at(event_start(st, s));
    let len = header_len(st.version);
    lemma_number_is_read_back(h.end as nat, wide_len(st.version));
    lemma_number_is_read_back(h.attributes as nat, wide_len(st.version));
    lemma_number_is_read_back(h.attributes_len as nat, wide_len(st.version));
    lemma_node_header_is_read_back(
        st.version,
        h.end,
        h.attributes,
        h.attributes_len,
        h.name_len,
        there.rest,
    );
    assert(there.advance(len).rest =~= s.at(there.pos + len).rest);
}

/// A node whose header and name are written comes next as it is written: the event says
/// that the node starts, the node is open from then on, and what follows the name is
/// what is unread.
pub proof fn lemma_written_node_starts(
    st: StateModel,
    s: Stream,
    h: WrittenHeader,
    name: Seq<char>,
)
    requires
        has_bytes(st, s),
        s.bounded(),
        h.fits(st.version),
        h.is_of_node(),
        encode_utf8(name).len() == h.name_len,
        starts_with(
            s.at(event_start(st, s)).rest,
            h.bytes(st.version) + encode_utf8(name),
        ),
        event_start(st, s) + header_len(st.version) + h.name_len + h.attributes_len <= u64::MAX,
    ensures
        ({
            let start = event_start(st, s);
            let end = start + header_len(st.version) + h.name_len;
            st.next(s) matches Step::Event(EventKind::StartNode, state, after) && after.pos == end
                && after.rest == s.rest.skip(end - s.pos) && state.started.len()
                == st.started.len() + 1 && state.started.last() == (NodeModel {
                start: start as u64,
                end: h.end,
                attributes: h.attributes,
                attributes_end: (end + h.attributes_len) as u64,
                name,
                children: 0,
            }) && same_elsewhere(state, st) && state.skipped == st.skipped
        }),
        st.reads(s),
        st.warns(s) == (name.len() == 0),
{
    let header = h.bytes(st.version);
    let text = encode_utf8(name);
    let there = s.at(event_start(st, s));
    let len = header_len(st.version) as int;
    lemma_number_is_read_back(h.end as nat, wide_len(st.version));
    lemma_number_is_read_back(h.attributes as nat, wide_len(st.version));
    lemma_number_is_read_back(h.attributes_len as nat, wide_len(st.version));
    assert(header.len() == len);
    let found = there.rest.take((header + text).len() as int);
    assert(there.rest.take(len) =~= found.take(len));
    assert(found.take(len) =~= header);
    lemma_header_is_read(st, s, h);
    let named = s.at(there.pos + header_len(st.version));
    assert(named.rest.take(text.len() as int) =~= found.skip(len));
    assert(found.skip(len) =~= text);
    encode_utf8_valid_utf8(name);
    encode_utf8_decode_utf8(name);
    let after = named.advance(h.name_len as nat);
    assert(after.rest =~= s.rest.skip(after.pos - s.pos));
    lemma_empty_text(name);
}

/// A text is empty where its bytes are.
proof fn lemma_empty_text(name: Seq<char>)
    ensures
        (name.len() == 0) == (encode_utf8(name).len() == 0),
{
    encode_utf8_decode_utf8(name);
    if name.len() == 0 {
        assert(encode_utf8(name) =~= Seq::empty());
    } else if encode_utf8(name).len() == 0 {
        assert(encode_utf8(name) =~= encode_utf8(Seq::empty()));
        encode_utf8_decode_utf8(Seq::empty());
        assert(name =~= Seq::empty());
    }
}

/// A node whose header is written, but whose name is not whole, or no UTF-8, or whose
/// attributes would reach beyond every offset, does not start.
pub proof fn lemma_bad_node_does_not_start(st: StateModel, s: Stream, h: WrittenHeader)
    requires
        has_bytes(st, s),
        s.bounded(),
        h.fits(st.version),
        h.is_of_node(),
        starts_with(s.at(event_start(st, s)).rest, h.bytes(st.version)),
    ensures
        ({
            let at = event_start(st, s) + header_len(st.version);
            let end = at + h.name_len;
            let rest = s.rest.skip(end - s.pos);
            let name = s.rest.subrange(at - s.pos, end - s.pos);
            if s.pos + s.rest.len() < end {
                st.next(s) is Truncated
            } else if !valid_utf8(name) {
                st.next(s) matches Step::Fail(fault, state, after) && fault
                    == DataFault::InvalidNodeNameEncoding(name) && state == st && after.pos == end
                    && after.rest == rest
            } else if end + h.attributes_len > u64::MAX {
                st.next(s) matches Step::Fail(fault, state, after) && fault
                    == DataFault::OffsetOverflow(end as u64, h.attributes_len) && state == st
                    && after.pos == end && after.rest == rest
            } else {
                st.next(s) matches Step::Event(EventKind::StartNode, _, _)
            }
        }),
        st.reads(s),
        st.warns(s) == (h.name_len == 0),
        st.warns(s) ==> st.header_end(s) == s.at(event_start(st, s) + header_len(st.version)),
{
    lemma_header_is_read(st, s, h);
    let at = event_start(st, s) + header_len(st.version);
    let named = s.at(at);
    let len = h.name_len as int;
    if s.pos + s.rest.len() >= at + len {
        assert(named.rest.take(len) =~= s.rest.subrange(at - s.pos, at + len - s.pos));
        assert(named.advance(len as nat).rest =~= s.rest.skip(at + len - s.pos));
    }
}

/// Bytes that are long enough for a header are one that can be written.
pub proof fn lemma_every_header_can_be_written(st: StateModel, s: Stream) -> (h: WrittenHeader)
    requires
        has_bytes(st, s),
        event_start(st, s) + header_len(st.version) <= s.pos + s.rest.len(),
    ensures
        h.fits(st.version),
        starts_with(s.at(event_start(st, s)).rest, h.bytes(st.version)),
{
    let there = s.at(event_start(st, s));
    lemma_node_header_is_written_back(st.version, there.rest);
    let header = NodeHeader::decode(st.version, there.rest)->Value_0;
    WrittenHeader {
        end: header.end_offset,
        attributes: header.num_attributes,
        attributes_len: header.bytelen_attributes,
        name_len: header.bytelen_name,
    }
}

} // verus!
