//! Contents of attributes.
use vstd::prelude::*;

use crate::pull_parser::error::{Error, ErrorModel};
use crate::pull_parser::reader::{
    lemma_reaches_reflexive, lemma_reaches_transitive, moves_on, shortage_or, BufferedSource,
    IoError, ParserSource,
};
use crate::pull_parser::v7400::read::input_failure;

verus! {

/// The most bytes that are read at once.
const CHUNK_LEN: usize = 4096;

/// A reader of what an attribute holds.
///
/// It ends where the attribute does. Where it holds the elements of an array that are
/// not compressed, it ends with the last of them.
#[derive(Debug)]
pub struct AttributeReader<R> {
    source: R,
    remaining: u64,
}

/// What an attribute holds, as far as the input has it.
pub ghost struct Payload {
    /// Length of the content, in bytes.
    pub len: u64,
    /// The bytes of the content that the input has.
    pub data: Seq<u8>,
    /// The failures that the input may give although it has the bytes.
    pub failures: Set<IoError>,
}

impl Payload {
    /// The content of the given length that `rest` starts with.
    pub open spec fn at(rest: Seq<u8>, len: u64, failures: Set<IoError>) -> Payload {
        Payload {
            len,
            data: if rest.len() < len {
                rest
            } else {
                rest.take(len as int)
            },
            failures,
        }
    }
}

impl Payload {
    /// The given bytes, on which nothing fails.
    pub open spec fn plain(data: Seq<u8>) -> Payload {
        Payload { len: data.len() as u64, data, failures: Set::empty() }
    }
}

impl<R: ParserSource> AttributeReader<R> {
    /// The source below.
    pub closed spec fn source(&self) -> R {
        self.source
    }

    /// How many bytes may still be read.
    pub closed spec fn limit(&self) -> u64 {
        self.remaining
    }

    /// Whether the reader can be used.
    pub open spec fn wf(&self) -> bool {
        self.source().wf()
    }

    /// What the reader has still to deliver.
    pub open spec fn payload(&self) -> Payload {
        Payload::at(self.source().stream().rest, self.limit(), self.source().failures())
    }

    /// What may become of a reader by reading from it.
    pub open spec fn leads_to(self, after: Self) -> bool {
        &&& moves_on(self.source(), after.source())
        &&& self.source().stream().pos + self.limit() == after.source().stream().pos
            + after.limit()
    }

    /// Creates a reader of nothing.
    pub(crate) fn new(source: R) -> (reader: Self)
        ensures
            reader.source() == source,
            reader.limit() == 0,
    {
        AttributeReader { source, remaining: 0 }
    }

    /// Lets the reader deliver the next `len` bytes of the source.
    pub(crate) fn restrict(&mut self, len: u64)
        ensures
            final(self).source() == old(self).source(),
            final(self).limit() == len,
    {
        self.remaining = len;
    }

    /// Returns the source below.
    pub(crate) fn source_ref(&self) -> (source: &R)
        ensures
            *source == self.source(),
    {
        &self.source
    }

    /// Returns the source below.
    pub(crate) fn source_mut(&mut self) -> (source: &mut R)
        ensures
            *source == old(self).source(),
            final(self).source() == *final(source),
            final(self).limit() == old(self).limit(),
    {
        &mut self.source
    }

    /// Returns how many bytes may still be read.
    pub fn remaining(&self) -> (remaining: u64)
        ensures
            remaining == self.limit(),
    {
        self.remaining
    }

    /// Reads at most `max` bytes.
    ///
    /// An empty answer to a request for some bytes means that the attribute or
    /// the input has ended. A failed read takes nothing.
    pub fn read(&mut self, max: usize) -> (r: Result<Vec<u8>, IoError>)
        requires
            old(self).wf(),
        ensures
            old(self).leads_to(*final(self)),
            match r {
                Ok(bytes) => {
                    &&& bytes@.len() <= max
                    &&& bytes@.len() <= old(self).payload().data.len()
                    &&& bytes@ == old(self).payload().data.take(bytes@.len() as int)
                    &&& final(self).limit() + bytes@.len() == old(self).limit()
                    &&& max > 0 && bytes@.len() == 0 ==> old(self).payload().data.len() == 0
                },
                Err(e) => {
                    &&& old(self).source().failures().contains(e)
                    &&& final(self).limit() == old(self).limit()
                },
            },
    {
        let count: usize = if max as u64 <= self.remaining {
            max
        } else {
            self.remaining as usize
        };
        let ghost rest = self.source().stream().rest;
        match self.source.read(count) {
            Ok(bytes) => {
                self.remaining = self.remaining - bytes.len() as u64;
                assert(bytes@ =~= old(self).payload().data.take(bytes@.len() as int));
                Ok(bytes)
            },
            Err(e) => Err(e),
        }
    }

    /// Reads exactly `len` bytes.
    pub fn read_exact(&mut self, len: usize) -> (r: Result<Vec<u8>, IoError>)
        requires
            old(self).wf(),
        ensures
            old(self).leads_to(*final(self)),
            match r {
                Ok(bytes) => {
                    &&& len <= old(self).payload().data.len()
                    &&& bytes@ == old(self).payload().data.take(len as int)
                    &&& final(self).limit() + len == old(self).limit()
                },
                Err(e) => shortage_or(
                    old(self).source().failures(),
                    len > old(self).payload().data.len(),
                    e,
                ),
            },
    {
        proof {
            lemma_reaches_reflexive(self.source().stream());
        }
        if len as u64 > self.remaining {
            return Err(IoError::UnexpectedEof);
        }
        let mut bytes: Vec<u8> = Vec::new();
        let ghost start = *self;
        let ghost data = self.payload().data;
        while bytes.len() < len
            invariant
                len <= start.limit(),
                start == *old(self),
                data == start.payload().data,
                start.leads_to(*self),
                bytes@.len() <= len,
                bytes@.len() <= data.len(),
                bytes@ == data.take(bytes@.len() as int),
                self.limit() + bytes@.len() == start.limit(),
            decreases len - bytes@.len(),
        {
            let ghost before = *self;
            match self.read(len - bytes.len()) {
                Ok(mut more) => {
                    proof {
                        lemma_reaches_transitive(
                            start.source().stream(),
                            before.source().stream(),
                            self.source().stream(),
                        );
                        assert(before.payload().data =~= data.skip(bytes@.len() as int));
                    }
                    if more.len() == 0 {
                        return Err(IoError::UnexpectedEof);
                    }
                    bytes.append(&mut more);
                    assert(bytes@ =~= data.take(bytes@.len() as int));
                },
                Err(e) => {
                    proof {
                        lemma_reaches_transitive(
                            start.source().stream(),
                            before.source().stream(),
                            self.source().stream(),
                        );
                    }
                    return Err(e);
                },
            }
        }
        Ok(bytes)
    }

    /// Reads all that is left of the attribute, as far as the input has it.
    pub fn read_to_end(&mut self) -> (r: Result<Vec<u8>, IoError>)
        requires
            old(self).wf(),
        ensures
            old(self).leads_to(*final(self)),
            match r {
                Ok(bytes) => {
                    &&& bytes@ == old(self).payload().data
                    &&& final(self).limit() + bytes@.len() == old(self).limit()
                },
                Err(e) => old(self).source().failures().contains(e),
            },
    {
        let mut bytes: Vec<u8> = Vec::new();
        let ghost start = *self;
        let ghost data = self.payload().data;
        proof {
            lemma_reaches_reflexive(self.source().stream());
        }
        loop
            invariant
                start == *old(self),
                data == start.payload().data,
                start.leads_to(*self),
                bytes@.len() <= data.len(),
                bytes@ == data.take(bytes@.len() as int),
                self.limit() + bytes@.len() == start.limit(),
            decreases data.len() - bytes@.len(),
        {
            let ghost before = *self;
            let r = self.read(CHUNK_LEN);
            proof {
                lemma_reaches_transitive(
                    start.source().stream(),
                    before.source().stream(),
                    self.source().stream(),
                );
                assert(before.payload().data =~= data.skip(bytes@.len() as int));
            }
            match r {
                Ok(mut more) => {
                    if more.len() == 0 {
                        assert(bytes@ =~= data);
                        return Ok(bytes);
                    }
                    bytes.append(&mut more);
                    assert(bytes@ =~= data.take(bytes@.len() as int));
                },
                Err(e) => {
                    return Err(e);
                },
            }
        }
    }

    /// Shows some of the bytes that come next, and none only at the end of the
    /// attribute or of the input.
    pub fn peek(&mut self) -> (r: Result<Vec<u8>, IoError>) where R: BufferedSource
        requires
            old(self).wf(),
        ensures
            old(self).leads_to(*final(self)),
            final(self).limit() == old(self).limit(),
            match r {
                Ok(bytes) => {
                    &&& bytes@.len() <= old(self).payload().data.len()
                    &&& bytes@ == old(self).payload().data.take(bytes@.len() as int)
                    &&& bytes@.len() == 0 ==> old(self).payload().data.len() == 0
                },
                Err(e) => old(self).source().failures().contains(e),
            },
    {
        proof {
            lemma_reaches_reflexive(self.source().stream());
        }
        match self.source.peek() {
            Ok(mut bytes) => {
                if bytes.len() as u64 > self.remaining {
                    bytes.truncate(self.remaining as usize);
                }
                assert(bytes@ =~= old(self).payload().data.take(bytes@.len() as int));
                Ok(bytes)
            },
            Err(e) => Err(e),
        }
    }
}

/// Loads the whole content of an attribute.
pub(crate) fn load_content<R: ParserSource>(reader: &mut AttributeReader<R>) -> (r: Result<
    Vec<u8>,
    Error,
>)
    requires
        old(reader).wf(),
    ensures
        old(reader).leads_to(*final(reader)),
        ({
            let payload = old(reader).payload();
            match r {
                Ok(content) => content@ == payload.data && content@.len() == payload.len,
                Err(e) => input_failure(
                    payload.failures,
                    payload.data.len() < payload.len,
                    e,
                ),
            }
        }),
{
    let len: u64 = reader.remaining();
    match reader.read_to_end() {
        Ok(content) => {
            if (content.len() as u64) < len {
                let e = Error::io(IoError::UnexpectedEof);
                assert(ErrorModel::io(IoError::UnexpectedEof) == e@);
                Err(e)
            } else {
                Ok(content)
            }
        },
        Err(io) => {
            let e = Error::io(io);
            assert(ErrorModel::io(io) == e@);
            Err(e)
        },
    }
}

} // verus!
