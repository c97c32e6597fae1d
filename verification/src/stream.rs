//! Byte streams: the reading primitives and an in-memory stream with a cursor.

use vstd::prelude::*;
use vstd::slice::slice_subrange;
use crate::record::Record;

verus! {

/// Why a read from a stream failed.
#[derive(Clone, Copy, Debug, PartialEq, Eq, Structural)]
pub enum IoError {
    /// The stream ended before the requested bytes were there.
    UnexpectedEof,
}

/// Reading whole buffers and whole records from a stream that hands out
/// its bytes in pieces.
pub trait ReadExt: Sized {
    /// Everything that the stream holds, read or not. Reading moves the
    /// cursor and leaves this as it is.
    spec fn source(&self) -> Seq<u8>;

    /// The bytes between the cursor and the end of the stream.
    spec fn pending(&self) -> Seq<u8>;

    /// Takes up to `max` bytes from the cursor on. An empty result for a
    /// non-zero `max` means that the stream is at its end.
    fn read(&mut self, max: usize) -> (chunk: Vec<u8>)
        ensures
            final(self).source() == old(self).source(),
            chunk@.len() <= max,
            chunk@.len() <= old(self).pending().len(),
            chunk@ == old(self).pending().take(chunk@.len() as int),
            final(self).pending() == old(self).pending().skip(chunk@.len() as int),
            max > 0 && old(self).pending().len() > 0 ==> chunk@.len() > 0,
    ;

    /// Takes exactly `len` bytes, reading as often as it takes. Fails when
    /// fewer than `len` bytes are left; the stream is then at its end.
    fn read_at_least(&mut self, len: usize) -> (r: Result<Vec<u8>, IoError>)
        ensures
            final(self).source() == old(self).source(),
            match r {
                Ok(buf) => {
                    &&& len <= old(self).pending().len()
                    &&& buf@ == old(self).pending().take(len as int)
                    &&& final(self).pending() == old(self).pending().skip(len as int)
                },
                Err(e) => {
                    &&& len > old(self).pending().len()
                    &&& e == IoError::UnexpectedEof
                    &&& final(self).pending().len() == 0
                },
            },
    {
        let mut buf: Vec<u8> = Vec::new();
        while buf.len() < len
            invariant
                self.source() == old(self).source(),
                buf@.len() <= len,
                buf@.len() <= old(self).pending().len(),
                buf@ == old(self).pending().take(buf@.len() as int),
                self.pending() == old(self).pending().skip(buf@.len() as int),
            decreases len - buf@.len(),
        {
            let ghost before = buf@;
            let mut chunk = self.read(len - buf.len());
            if chunk.len() == 0 {
                return Err(IoError::UnexpectedEof);
            }
            buf.append(&mut chunk);
            proof {
                let all = old(self).pending();
                assert(buf@ =~= all.take(buf@.len() as int));
                assert(self.pending() =~= all.skip(buf@.len() as int));
            }
        }
        Ok(buf)
    }

    /// Takes the bytes of one record and decodes them.
    fn read_binary<T: Record>(&mut self) -> (r: Result<T, IoError>)
        ensures
            final(self).source() == old(self).source(),
            match r {
                Ok(value) => {
                    &&& T::spec_size() <= old(self).pending().len()
                    &&& value == T::spec_decode(old(self).pending().take(T::spec_size() as int))
                    &&& final(self).pending() == old(self).pending().skip(T::spec_size() as int)
                },
                Err(e) => {
                    &&& T::spec_size() > old(self).pending().len()
                    &&& e == IoError::UnexpectedEof
                    &&& final(self).pending().len() == 0
                },
            },
    {
        match self.read_at_least(T::size()) {
            Ok(buf) => Ok(T::decode(buf.as_slice())),
            Err(e) => Err(e),
        }
    }
}

/// A byte buffer with a read cursor. The cursor may stand past the end,
/// where every read finds the stream exhausted.
pub struct ByteStream {
    data: Vec<u8>,
    pos: u64,
}

impl ByteStream {
    /// All the bytes of the stream, whatever the cursor.
    pub closed spec fn bytes(&self) -> Seq<u8> {
        self.data@
    }

    /// The cursor, counted in bytes from the start.
    pub closed spec fn position(&self) -> nat {
        self.pos as nat
    }

    /// A stream over `data` with the cursor at the start.
    pub fn new(data: Vec<u8>) -> (s: ByteStream)
        ensures
            s.bytes() == data@,
            s.position() == 0,
    {
        ByteStream { data, pos: 0 }
    }

    /// Number of bytes in the stream.
    pub fn len(&self) -> (n: usize)
        ensures
            n == self.bytes().len(),
    {
        self.data.len()
    }

    /// Moves the cursor to `offset` bytes from the start. Any offset is
    /// accepted; reading past the end fails later, at the read.
    pub fn seek(&mut self, offset: u64)
        ensures
            final(self).bytes() == old(self).bytes(),
            final(self).position() == offset,
    {
        self.pos = offset;
    }
}

/// The part of `bytes` from `position` on; empty when `position` is past the end.
pub open spec fn bytes_from(bytes: Seq<u8>, position: nat) -> Seq<u8> {
    if position <= bytes.len() {
        bytes.skip(position as int)
    } else {
        Seq::empty()
    }
}

impl ReadExt for ByteStream {
    open spec fn source(&self) -> Seq<u8> {
        self.bytes()
    }

    open spec fn pending(&self) -> Seq<u8> {
        bytes_from(self.bytes(), self.position())
    }

    fn read(&mut self, max: usize) -> (chunk: Vec<u8>)
        ensures
            final(self).position() == old(self).position() + chunk@.len(),
            chunk@.len() == if max <= old(self).pending().len() {
                max as nat
            } else {
                old(self).pending().len()
            },
    {
        let mut chunk: Vec<u8> = Vec::new();
        let total: usize = self.data.len();
        if self.pos >= total as u64 {
            return chunk;
        }
        let start: usize = self.pos as usize;
        let room: usize = total - start;
        let count: usize = if max < room {
            max
        } else {
            room
        };
        chunk.extend_from_slice(slice_subrange(self.data.as_slice(), start, start + count));
        self.pos = self.pos + count as u64;
        proof {
            let all = old(self).pending();
            assert(chunk@ =~= all.take(count as int));
            assert(self.pending() =~= all.skip(count as int));
        }
        chunk
    }
}

} // verus!
