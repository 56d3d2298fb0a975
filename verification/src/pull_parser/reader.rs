//! Byte sources that a parser reads from.
//!
//! A [`ByteReader`] hands out bytes in order; a [`ParserSource`] also knows the
//! offset of the byte that comes next. [`PlainSource`] and [`SeekableSource`]
//! make the second out of the first.
use vstd::prelude::*;

verus! {

/// The most bytes that a reader delivers.
pub const MAX_READER_LEN: u64 = 0x7fff_ffff_ffff_ffff;

/// The largest offset that a source comes to.
pub const MAX_OFFSET: u64 = 0x8000_0000_ffff_fffe;

/// The bytes that a reader delivers, in order.
pub type Bytes = Seq<u8>;

/// The bytes that a source has still to deliver, with the offset of the first.
pub ghost struct Stream {
    pub pos: nat,
    pub rest: Seq<u8>,
}

impl Stream {
    /// The stream after its first `n` bytes.
    pub open spec fn advance(self, n: nat) -> Stream {
        Stream { pos: self.pos + n, rest: self.rest.skip(n as int) }
    }

    /// Whether `later` is what is left of this stream once some bytes are gone.
    pub open spec fn reaches(self, later: Stream) -> bool {
        &&& self.pos <= later.pos <= self.pos + self.rest.len()
        &&& later.rest == self.rest.skip(later.pos - self.pos)
    }

    /// Whether the byte at `offset`, or the end of the stream, lies ahead.
    pub open spec fn covers(self, offset: nat) -> bool {
        self.pos <= offset <= self.pos + self.rest.len()
    }

    /// The stream from `offset` on.
    pub open spec fn at(self, offset: nat) -> Stream
        recommends
            self.covers(offset),
    {
        self.advance((offset - self.pos) as nat)
    }

    /// The stream once all its bytes are gone.
    pub open spec fn exhausted(self) -> Stream {
        Stream { pos: self.pos + self.rest.len(), rest: Seq::empty() }
    }

    /// Whether every offset of the stream stays clear of the machine's limit.
    pub open spec fn bounded(self) -> bool {
        self.pos + self.rest.len() <= MAX_OFFSET
    }
}

/// Reaching is transitive.
pub broadcast proof fn lemma_reaches_transitive(a: Stream, b: Stream, c: Stream)
    requires
        #[trigger] a.reaches(b),
        #[trigger] b.reaches(c),
    ensures
        a.reaches(c),
{
    assert(c.rest =~= a.rest.skip(c.pos - a.pos));
}

/// Every stream reaches itself.
pub broadcast proof fn lemma_reaches_reflexive(a: Stream)
    ensures
        #[trigger] a.reaches(a),
{
    assert(a.rest =~= a.rest.skip(0));
}

/// A failure of the input below the parser.
#[derive(Debug, Clone, Copy, PartialEq, Eq, Hash, Structural)]
pub enum IoError {
    /// The input ended before the bytes that were asked for.
    UnexpectedEof,
    /// The request makes no sense, such as a skip to an offset already passed.
    InvalidInput,
    /// The system failed with the given code.
    Os(i32),
    /// Any other failure.
    Other,
}

/// Whether `e` may answer a request for bytes: it is one of the given failures, or
/// it says that the bytes are missing, and they are.
pub open spec fn shortage_or(failures: Set<IoError>, missing: bool, e: IoError) -> bool {
    failures.contains(e) || missing && e == IoError::UnexpectedEof
}

/// Whether `e` may answer a request to skip to the offset `pos` of `s`, of which
/// `after` is left then.
///
/// An offset that has been passed is refused, and nothing is read. Otherwise the
/// answer is one of the given failures, or it says that the stream ends before the
/// offset, and the stream is then at its end.
pub open spec fn skip_failure(
    failures: Set<IoError>,
    s: Stream,
    after: Stream,
    pos: u64,
    e: IoError,
) -> bool {
    if pos < s.pos {
        e == IoError::InvalidInput && after == s
    } else {
        ||| failures.contains(e)
        ||| s.pos + s.rest.len() < pos && e == IoError::UnexpectedEof && after == s.exhausted()
    }
}

/// A reader that hands out bytes in order.
pub trait ByteReader: Sized {
    /// Whether the reader is in a state in which it can be used.
    ///
    /// A reader that does not say can be used in every state.
    open spec fn wf(&self) -> bool {
        true
    }

    /// The bytes that the reader has still to deliver.
    spec fn rest(&self) -> Bytes;

    /// The failures that the reader may give although it has the bytes.
    ///
    /// A reader that does not say may give any.
    open spec fn failures(&self) -> Set<IoError> {
        Set::full()
    }

    /// No reader delivers more than [`MAX_READER_LEN`] bytes.
    proof fn lemma_rest_len(&self)
        requires
            self.wf(),
        ensures
            self.rest().len() <= MAX_READER_LEN,
    ;

    /// Reads at most `max` bytes.
    ///
    /// An empty answer to a request for some bytes means that the input has
    /// ended. A failed read takes nothing.
    fn read(&mut self, max: usize) -> (r: Result<Vec<u8>, IoError>)
        requires
            old(self).wf(),
        ensures
            final(self).wf(),
            final(self).failures() == old(self).failures(),
            match r {
                Ok(bytes) => {
                    &&& bytes@.len() <= max
                    &&& bytes@.len() <= old(self).rest().len()
                    &&& bytes@ == old(self).rest().take(bytes@.len() as int)
                    &&& final(self).rest() == old(self).rest().skip(bytes@.len() as int)
                    &&& max > 0 && bytes@.len() == 0 ==> old(self).rest().len() == 0
                },
                Err(e) => {
                    &&& old(self).failures().contains(e)
                    &&& final(self).rest() == old(self).rest()
                },
            },
    ;
}

/// A reader that can leave bytes out without handing them over.
pub trait SeekReader: ByteReader {
    /// Leaves out the next `distance` bytes, or as many as there are. Returns how many
    /// were left out. A failed request leaves out nothing.
    fn seek_forward(&mut self, distance: u64) -> (r: Result<u64, IoError>)
        requires
            old(self).wf(),
        ensures
            final(self).wf(),
            final(self).failures() == old(self).failures(),
            match r {
                Ok(count) => {
                    &&& count == if distance <= old(self).rest().len() {
                        distance as nat
                    } else {
                        old(self).rest().len()
                    }
                    &&& final(self).rest() == old(self).rest().skip(count as int)
                },
                Err(e) => {
                    &&& old(self).failures().contains(e)
                    &&& final(self).rest() == old(self).rest()
                },
            },
    ;
}

/// A reader that can show bytes before they are taken.
pub trait BufferedReader: ByteReader {
    /// Shows some of the bytes that come next, and none only at the end of the
    /// input.
    fn peek(&mut self) -> (r: Result<Vec<u8>, IoError>)
        requires
            old(self).wf(),
        ensures
            final(self).wf(),
            final(self).failures() == old(self).failures(),
            final(self).rest() == old(self).rest(),
            match r {
                Ok(bytes) => {
                    &&& bytes@.len() <= old(self).rest().len()
                    &&& bytes@ == old(self).rest().take(bytes@.len() as int)
                    &&& bytes@.len() == 0 ==> old(self).rest().len() == 0
                },
                Err(e) => old(self).failures().contains(e),
            },
    ;
}

/// What a source may do to its stream: bytes go, in order, and nothing else
/// changes.
pub open spec fn moves_on<S: ParserSource>(before: S, after: S) -> bool {
    &&& after.wf()
    &&& after.failures() == before.failures()
    &&& before.stream().reaches(after.stream())
}

/// A source that a parser reads from.
pub trait ParserSource: Sized {
    /// Whether the source is in a state in which it can be used.
    spec fn wf(&self) -> bool;

    /// The bytes that the source has still to deliver, and where they start.
    spec fn stream(&self) -> Stream;

    /// The failures that the source may give although it has the bytes.
    spec fn failures(&self) -> Set<IoError>;

    /// The offsets of a source stay clear of the machine's limit.
    proof fn lemma_bounded(&self)
        requires
            self.wf(),
        ensures
            self.stream().bounded(),
    ;

    /// Returns the offset of the byte that is read next.
    fn position(&self) -> (pos: u64)
        requires
            self.wf(),
        ensures
            pos == self.stream().pos,
    ;

    /// Reads at most `max` bytes.
    ///
    /// An empty answer to a request for some bytes means that the input has
    /// ended. A failed read takes nothing.
    fn read(&mut self, max: usize) -> (r: Result<Vec<u8>, IoError>)
        requires
            old(self).wf(),
        ensures
            final(self).wf(),
            final(self).failures() == old(self).failures(),
            old(self).stream().reaches(final(self).stream()),
            match r {
                Ok(bytes) => {
                    &&& bytes@.len() <= max
                    &&& bytes@.len() <= old(self).stream().rest.len()
                    &&& bytes@ == old(self).stream().rest.take(bytes@.len() as int)
                    &&& final(self).stream() == old(self).stream().advance(bytes@.len())
                    &&& max > 0 && bytes@.len() == 0 ==> old(self).stream().rest.len() == 0
                },
                Err(e) => {
                    &&& old(self).failures().contains(e)
                    &&& final(self).stream() == old(self).stream()
                },
            },
    ;

    /// Skips to the byte at offset `pos`.
    ///
    /// If the input ends before, it is read to its end.
    fn skip_to(&mut self, pos: u64) -> (r: Result<(), IoError>)
        requires
            old(self).wf(),
        ensures
            final(self).wf(),
            final(self).failures() == old(self).failures(),
            old(self).stream().reaches(final(self).stream()),
            match r {
                Ok(()) => {
                    &&& old(self).stream().covers(pos as nat)
                    &&& final(self).stream() == old(self).stream().at(pos as nat)
                },
                Err(e) => skip_failure(
                    old(self).failures(),
                    old(self).stream(),
                    final(self).stream(),
                    pos,
                    e,
                ),
            },
    ;

    /// Reads exactly `len` bytes.
    ///
    /// If the input has fewer, it is read to its end.
    fn read_exact(&mut self, len: usize) -> (r: Result<Vec<u8>, IoError>)
        requires
            old(self).wf(),
        ensures
            final(self).wf(),
            final(self).failures() == old(self).failures(),
            old(self).stream().reaches(final(self).stream()),
            match r {
                Ok(bytes) => {
                    &&& len <= old(self).stream().rest.len()
                    &&& bytes@ == old(self).stream().rest.take(len as int)
                    &&& final(self).stream() == old(self).stream().advance(len as nat)
                },
                Err(e) => shortage_or(
                    old(self).failures(),
                    len > old(self).stream().rest.len() && final(self).stream() == old(
                        self,
                    ).stream().exhausted(),
                    e,
                ),
            },
    {
        let ghost start = self.stream();
        let mut bytes: Vec<u8> = Vec::new();
        proof {
            lemma_reaches_reflexive(start);
        }
        while bytes.len() < len
            invariant
                self.wf(),
                self.failures() == old(self).failures(),
                start == old(self).stream(),
                bytes@.len() <= len,
                bytes@.len() <= start.rest.len(),
                bytes@ == start.rest.take(bytes@.len() as int),
                self.stream() == start.advance(bytes@.len()),
            decreases len - bytes@.len(),
        {
            match self.read(len - bytes.len()) {
                Ok(mut more) => {
                    proof {
                        let taken = (bytes@.len() + more@.len()) as int;
                        assert(self.stream().rest =~= start.rest.skip(taken));
                    }
                    if more.len() == 0 {
                        assert(self.stream().rest =~= Seq::empty());
                        return Err(IoError::UnexpectedEof);
                    }
                    bytes.append(&mut more);
                    proof {
                        assert(bytes@ =~= start.rest.take(bytes@.len() as int));
                    }
                },
                Err(e) => {
                    return Err(e);
                },
            }
        }
        Ok(bytes)
    }
}

/// A reader over bytes in memory.
#[derive(Debug)]
pub struct MemoryReader {
    data: Vec<u8>,
    next: usize,
}

impl MemoryReader {
    /// Creates a reader that delivers `data` from its first byte on.
    pub fn new(data: Vec<u8>) -> (reader: Self)
        requires
            data@.len() <= MAX_READER_LEN,
        ensures
            reader.wf(),
            reader.failures() == Set::<IoError>::empty(),
            reader.rest() == data@,
    {
        let reader = MemoryReader { data, next: 0 };
        assert(reader.rest() =~= data@);
        reader
    }

    /// Copies at most `max` of the bytes that come next.
    fn copy_next(&self, max: usize) -> (bytes: Vec<u8>)
        requires
            self.wf(),
        ensures
            bytes@.len() <= self.rest().len(),
            bytes@.len() == max || bytes@.len() == self.rest().len() && self.rest().len() <= max,
            bytes@ == self.rest().take(bytes@.len() as int),
    {
        let left: usize = self.data.len() - self.next;
        let count: usize = if max < left { max } else { left };
        let mut bytes: Vec<u8> = Vec::new();
        while bytes.len() < count
            invariant
                self.wf(),
                count <= self.rest().len(),
                bytes@.len() <= count,
                bytes@ == self.rest().take(bytes@.len() as int),
            decreases count - bytes@.len(),
        {
            assert(self.next + bytes.len() < self.data.len());
            let byte: u8 = self.data[self.next + bytes.len()];
            bytes.push(byte);
            assert(bytes@ =~= self.rest().take(bytes@.len() as int));
        }
        bytes
    }
}

impl ByteReader for MemoryReader {
    closed spec fn wf(&self) -> bool {
        self.next <= self.data@.len() <= MAX_READER_LEN
    }

    closed spec fn rest(&self) -> Bytes {
        self.data@.skip(self.next as int)
    }

    open spec fn failures(&self) -> Set<IoError> {
        Set::empty()
    }

    proof fn lemma_rest_len(&self) {
    }

    fn read(&mut self, max: usize) -> (r: Result<Vec<u8>, IoError>) {
        let bytes = self.copy_next(max);
        assert(self.next + bytes.len() <= self.data.len());
        self.next = self.next + bytes.len();
        assert(self.rest() =~= old(self).rest().skip(bytes@.len() as int));
        Ok(bytes)
    }
}

impl SeekReader for MemoryReader {
    fn seek_forward(&mut self, distance: u64) -> (r: Result<u64, IoError>) {
        let left: usize = self.data.len() - self.next;
        let count: u64 = if distance <= left as u64 { distance } else { left as u64 };
        self.next = self.next + count as usize;
        assert(self.rest() =~= old(self).rest().skip(count as int));
        Ok(count)
    }
}

/// The most bytes that a reader in memory shows at once.
const PEEK_LEN: usize = 4096;

impl BufferedReader for MemoryReader {
    fn peek(&mut self) -> (r: Result<Vec<u8>, IoError>) {
        Ok(self.copy_next(PEEK_LEN))
    }
}

/// The most bytes that a plain source reads at once to get past them.
const SKIP_LEN: u64 = 4096;

/// A source over a reader that can only read.
#[derive(Debug)]
pub struct PlainSource<R> {
    inner: R,
    position: u64,
}

impl<R: ByteReader> PlainSource<R> {
    /// Creates a source whose first byte has the given offset.
    pub fn with_offset(inner: R, offset: u64) -> (source: Self)
        requires
            inner.wf(),
            offset + inner.rest().len() <= MAX_OFFSET,
        ensures
            source.wf(),
            source.failures() == inner.failures(),
            source.stream() == (Stream { pos: offset as nat, rest: inner.rest() }),
    {
        PlainSource { inner, position: offset }
    }
}

impl<R: ByteReader> ParserSource for PlainSource<R> {
    closed spec fn wf(&self) -> bool {
        &&& self.inner.wf()
        &&& self.stream().bounded()
    }

    closed spec fn stream(&self) -> Stream {
        Stream { pos: self.position as nat, rest: self.inner.rest() }
    }

    closed spec fn failures(&self) -> Set<IoError> {
        self.inner.failures()
    }

    proof fn lemma_bounded(&self) {
    }

    fn position(&self) -> (pos: u64) {
        self.position
    }

    fn read(&mut self, max: usize) -> (r: Result<Vec<u8>, IoError>) {
        proof {
            lemma_reaches_reflexive(self.stream());
        }
        match self.inner.read(max) {
            Ok(bytes) => {
                self.position = self.position + bytes.len() as u64;
                Ok(bytes)
            },
            Err(e) => Err(e),
        }
    }

    fn skip_to(&mut self, pos: u64) -> (r: Result<(), IoError>) {
        let ghost start = self.stream();
        proof {
            lemma_reaches_reflexive(start);
        }
        if pos < self.position {
            return Err(IoError::InvalidInput);
        }
        while self.position < pos
            invariant
                self.wf(),
                self.failures() == old(self).failures(),
                start == old(self).stream(),
                start.pos <= pos,
                self.position <= pos,
                start.reaches(self.stream()),
            decreases pos - self.position,
        {
            let ghost before = self.stream();
            let left: u64 = pos - self.position;
            let step: u64 = if left < SKIP_LEN { left } else { SKIP_LEN };
            match self.read(step as usize) {
                Ok(bytes) => {
                    proof {
                        lemma_reaches_transitive(start, before, self.stream());
                    }
                    if bytes.len() == 0 {
                        assert(self.stream().rest =~= Seq::empty());
                        return Err(IoError::UnexpectedEof);
                    }
                },
                Err(e) => {
                    return Err(e);
                },
            }
        }
        Ok(())
    }
}

/// A source over a reader that can leave bytes out.
#[derive(Debug)]
pub struct SeekableSource<R> {
    inner: R,
    position: u64,
}

impl<R: SeekReader> SeekableSource<R> {
    /// Creates a source whose first byte has the given offset.
    pub fn with_offset(inner: R, offset: u64) -> (source: Self)
        requires
            inner.wf(),
            offset + inner.rest().len() <= MAX_OFFSET,
        ensures
            source.wf(),
            source.failures() == inner.failures(),
            source.stream() == (Stream { pos: offset as nat, rest: inner.rest() }),
    {
        SeekableSource { inner, position: offset }
    }
}

impl<R: SeekReader> ParserSource for SeekableSource<R> {
    closed spec fn wf(&self) -> bool {
        &&& self.inner.wf()
        &&& self.stream().bounded()
    }

    closed spec fn stream(&self) -> Stream {
        Stream { pos: self.position as nat, rest: self.inner.rest() }
    }

    closed spec fn failures(&self) -> Set<IoError> {
        self.inner.failures()
    }

    proof fn lemma_bounded(&self) {
    }

    fn position(&self) -> (pos: u64) {
        self.position
    }

    fn read(&mut self, max: usize) -> (r: Result<Vec<u8>, IoError>) {
        proof {
            lemma_reaches_reflexive(self.stream());
        }
        match self.inner.read(max) {
            Ok(bytes) => {
                self.position = self.position + bytes.len() as u64;
                Ok(bytes)
            },
            Err(e) => Err(e),
        }
    }

    fn skip_to(&mut self, pos: u64) -> (r: Result<(), IoError>) {
        proof {
            lemma_reaches_reflexive(self.stream());
        }
        if pos < self.position {
            return Err(IoError::InvalidInput);
        }
        match self.inner.seek_forward(pos - self.position) {
            Ok(count) => {
                self.position = self.position + count;
                if self.position < pos {
                    assert(self.stream().rest =~= Seq::empty());
                    return Err(IoError::UnexpectedEof);
                }
                Ok(())
            },
            Err(e) => Err(e),
        }
    }
}

/// A source that can show bytes before they are taken.
pub trait BufferedSource: ParserSource {
    /// Shows some of the bytes that come next, and none only at the end of the
    /// input.
    fn peek(&mut self) -> (r: Result<Vec<u8>, IoError>)
        requires
            old(self).wf(),
        ensures
            final(self).wf(),
            final(self).failures() == old(self).failures(),
            final(self).stream() == old(self).stream(),
            match r {
                Ok(bytes) => {
                    &&& bytes@.len() <= old(self).stream().rest.len()
                    &&& bytes@ == old(self).stream().rest.take(bytes@.len() as int)
                    &&& bytes@.len() == 0 ==> old(self).stream().rest.len() == 0
                },
                Err(e) => old(self).failures().contains(e),
            },
    ;
}

impl<R: BufferedReader> BufferedSource for PlainSource<R> {
    fn peek(&mut self) -> (r: Result<Vec<u8>, IoError>) {
        self.inner.peek()
    }
}

impl<R: SeekReader + BufferedReader> BufferedSource for SeekableSource<R> {
    fn peek(&mut self) -> (r: Result<Vec<u8>, IoError>) {
        self.inner.peek()
    }
}

} // verus!
