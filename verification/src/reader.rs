//! A forward reader over the bytes of a snapshot file.

use crate::error::IoFailure;
use vstd::prelude::*;
use vstd::slice::slice_subrange;

verus! {

/// The bytes of a file together with the position of the next read.
pub struct ByteReader {
    data: Vec<u8>,
    pos: u64,
}

impl ByteReader {
    /// All the bytes of the file.
    pub closed spec fn bytes(&self) -> Seq<u8> {
        self.data@
    }

    /// The offset of the next byte to be read. It may lie beyond the end.
    pub closed spec fn position(&self) -> nat {
        self.pos as nat
    }

    /// A reader at the start of `data`.
    pub fn new(data: Vec<u8>) -> (reader: Self)
        ensures
            reader.bytes() == data@,
            reader.position() == 0,
    {
        ByteReader { data, pos: 0 }
    }

    /// The number of bytes in the file.
    pub fn len(&self) -> (n: usize)
        ensures
            n == self.bytes().len(),
    {
        self.data.len()
    }

    /// Reads exactly `n` bytes and moves past them, or fails, without
    /// moving, where fewer than `n` bytes are left.
    pub fn read_exact(&mut self, n: usize) -> (r: Result<Vec<u8>, IoFailure>)
        ensures
            final(self).bytes() == old(self).bytes(),
            match r {
                Ok(buf) => {
                    &&& old(self).position() + n <= old(self).bytes().len()
                    &&& buf@ == old(self).bytes().subrange(
                        old(self).position() as int,
                        old(self).position() + n,
                    )
                    &&& final(self).position() == old(self).position() + n
                },
                Err(e) => {
                    &&& e == IoFailure::UnexpectedEof
                    &&& old(self).position() + n > old(self).bytes().len()
                    &&& final(self).position() == old(self).position()
                },
            },
    {
        let len: usize = self.data.len();
        if self.pos > len as u64 || n > len - (self.pos as usize) {
            return Err(IoFailure::UnexpectedEof);
        }
        let start: usize = self.pos as usize;
        let piece = slice_subrange(self.data.as_slice(), start, start + n);
        let mut buf: Vec<u8> = Vec::new();
        buf.extend_from_slice(piece);
        assert(buf@ =~= piece@);
        self.pos = self.pos + n as u64;
        Ok(buf)
    }

    /// Moves to the absolute offset `to`, which may lie beyond the end: a
    /// later read fails there.
    pub fn seek(&mut self, to: u64)
        ensures
            final(self).bytes() == old(self).bytes(),
            final(self).position() == to,
    {
        self.pos = to;
    }
}

} // verus!
