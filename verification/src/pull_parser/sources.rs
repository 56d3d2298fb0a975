//! What holds of every source, and of the sources over readers.
use vstd::prelude::*;

use crate::low::encoding::starts_with;
use crate::pull_parser::reader::{
    BufferedSource, ByteReader, IoError, MemoryReader, ParserSource, PlainSource, SeekReader,
    SeekableSource, Stream,
};

verus! {

/// A source delivers its bytes in order and each once: what is read comes before what is
/// left. It stops short of what was asked for only at the end, or where it likes to
/// answer in pieces, but never with nothing.
pub proof fn lemma_bytes_are_delivered_once<S: ParserSource>(
    source: &mut S,
    max: usize,
    r: Result<Vec<u8>, IoError>,
)
    requires
        old(source).wf(),
        old(source).failures() == Set::<IoError>::empty(),
        call_ensures(<S as ParserSource>::read, (source, max), r),
    ensures
        r matches Ok(bytes) && old(source).stream().rest == bytes@ + final(source).stream().rest
            && bytes@.len() <= max && final(source).stream().pos == old(source).stream().pos
            + bytes@.len() && (bytes@.len() == 0 ==> max == 0 || old(source).stream().rest.len()
            == 0),
{
    if let Ok(bytes) = r {
        assert(old(source).stream().rest =~= bytes@ + final(source).stream().rest);
    }
}

/// As many bytes as are asked for are read, if the source has them. If not, it is read to
/// its end, and that is told.
pub proof fn lemma_exact_bytes_are_read<S: ParserSource>(
    source: &mut S,
    len: usize,
    r: Result<Vec<u8>, IoError>,
)
    requires
        old(source).wf(),
        old(source).failures() == Set::<IoError>::empty(),
        call_ensures(<S as ParserSource>::read_exact, (source, len), r),
    ensures
        if len <= old(source).stream().rest.len() {
            &&& r matches Ok(bytes)
            &&& bytes@.len() == len
            &&& old(source).stream().rest == bytes@ + final(source).stream().rest
            &&& final(source).stream().pos == old(source).stream().pos + len
        } else {
            &&& r == Err::<Vec<u8>, IoError>(IoError::UnexpectedEof)
            &&& final(source).stream().rest.len() == 0
        },
{
    if let Ok(bytes) = r {
        assert(old(source).stream().rest =~= bytes@ + final(source).stream().rest);
    }
}

/// A skip leaves out the bytes before the given offset, and no others. An offset that has
/// been passed is refused and nothing is read. If the source ends before the offset, it is
/// read to its end, and that is told.
pub proof fn lemma_skip_leaves_out_what_is_before<S: ParserSource>(
    source: &mut S,
    pos: u64,
    r: Result<(), IoError>,
)
    requires
        old(source).wf(),
        old(source).failures() == Set::<IoError>::empty(),
        call_ensures(<S as ParserSource>::skip_to, (source, pos), r),
    ensures
        ({
            let s = old(source).stream();
            let left = final(source).stream();
            if pos < s.pos {
                r == Err::<(), IoError>(IoError::InvalidInput) && left == s
            } else if s.pos + s.rest.len() < pos {
                r == Err::<(), IoError>(IoError::UnexpectedEof) && left.rest.len() == 0 && left.pos
                    == s.pos + s.rest.len()
            } else {
                r is Ok && left.pos == pos && s.rest.skip(pos - s.pos) == left.rest
            }
        }),
{
}

/// The offset of a source is that of the byte that is read next, whatever has been read
/// before: all offsets together with what is left stay the same.
pub proof fn lemma_offset_counts_bytes<S: ParserSource>(
    source: &mut S,
    max: usize,
    r: Result<Vec<u8>, IoError>,
    before: u64,
    after: u64,
)
    requires
        old(source).wf(),
        call_ensures(<S as ParserSource>::position, (&*old(source),), before),
        call_ensures(<S as ParserSource>::read, (source, max), r),
        call_ensures(<S as ParserSource>::position, (&*final(source),), after),
    ensures
        match r {
            Ok(bytes) => after == before + bytes@.len(),
            Err(_) => after == before,
        },
        after + final(source).stream().rest.len() == before + old(source).stream().rest.len(),
{
}

/// What a source shows is what it then delivers, and showing takes nothing.
pub proof fn lemma_shown_bytes_come_next<S: BufferedSource>(
    source: &mut S,
    r: Result<Vec<u8>, IoError>,
)
    requires
        old(source).wf(),
        call_ensures(<S as BufferedSource>::peek, (source,), r),
    ensures
        final(source).stream() == old(source).stream(),
        r matches Ok(bytes) ==> {
            &&& starts_with(old(source).stream().rest, bytes@)
            &&& bytes@.len() == 0 ==> old(source).stream().rest.len() == 0
        },
{
}

/// Sources over the same reader deliver the same bytes at the same offsets, whether they
/// leave bytes out by reading or by seeking.
pub proof fn lemma_sources_deliver_the_reader<R: SeekReader>(
    reader: R,
    offset: u64,
    plain: PlainSource<R>,
    seekable: SeekableSource<R>,
)
    requires
        call_ensures(PlainSource::<R>::with_offset, (reader, offset), plain),
        call_ensures(SeekableSource::<R>::with_offset, (reader, offset), seekable),
    ensures
        plain.stream() == (Stream { pos: offset as nat, rest: reader.rest() }),
        seekable.stream() == plain.stream(),
        plain.failures() == reader.failures(),
        seekable.failures() == reader.failures(),
{
}

/// A reader over bytes in memory delivers these bytes, and never fails.
pub proof fn lemma_memory_delivers_its_bytes(data: Vec<u8>, reader: MemoryReader)
    requires
        call_ensures(MemoryReader::new, (data,), reader),
    ensures
        reader.rest() == data@,
        reader.wf(),
        reader.failures() == Set::<IoError>::empty(),
{
}

} // verus!
