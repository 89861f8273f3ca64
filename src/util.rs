//! Reading little-endian integers one after another from a source of bytes.
use vstd::prelude::*;
use crate::error::FormatError;
use crate::little_endian::{le16, le32, read_u16, read_u32};

verus! {

/// A source of bytes from which little-endian integers are read in turn.
pub trait ReadLittleEndian {
    /// The bytes not read yet.
    spec fn remaining(&self) -> Seq<u8>;

    /// Reads one byte; fails with `Truncated`, consuming nothing, where none is left.
    fn read_u8(&mut self) -> (r: Result<u8, FormatError>)
        ensures
            old(self).remaining().len() >= 1 ==> r == Ok::<u8, FormatError>(
                old(self).remaining()[0],
            ) && final(self).remaining() == old(self).remaining().skip(1),
            old(self).remaining().len() < 1 ==> r == Err::<u8, FormatError>(FormatError::Truncated)
                && final(self).remaining() == old(self).remaining(),
    ;

    /// Reads a `u16` stored least significant byte first; fails with
    /// `Truncated`, consuming nothing, where fewer than two bytes are left.
    fn read_u16(&mut self) -> (r: Result<u16, FormatError>)
        ensures
            old(self).remaining().len() >= 2 ==> r == Ok::<u16, FormatError>(
                le16(old(self).remaining()[0], old(self).remaining()[1]) as u16,
            ) && final(self).remaining() == old(self).remaining().skip(2),
            old(self).remaining().len() < 2 ==> r == Err::<u16, FormatError>(
                FormatError::Truncated,
            ) && final(self).remaining() == old(self).remaining(),
    ;

    /// Reads a `u32` stored least significant byte first; fails with
    /// `Truncated`, consuming nothing, where fewer than four bytes are left.
    fn read_u32(&mut self) -> (r: Result<u32, FormatError>)
        ensures
            old(self).remaining().len() >= 4 ==> r == Ok::<u32, FormatError>(
                le32(
                    old(self).remaining()[0],
                    old(self).remaining()[1],
                    old(self).remaining()[2],
                    old(self).remaining()[3],
                ) as u32,
            ) && final(self).remaining() == old(self).remaining().skip(4),
            old(self).remaining().len() < 4 ==> r == Err::<u32, FormatError>(
                FormatError::Truncated,
            ) && final(self).remaining() == old(self).remaining(),
    ;
}

/// Bytes held in memory, read from the front.
pub struct ByteReader {
    bytes: Vec<u8>,
    pos: usize,
}

impl ByteReader {
    /// A reader positioned at the first of `bytes`.
    pub fn new(bytes: Vec<u8>) -> (r: ByteReader)
        ensures
            r.remaining() == bytes@,
    {
        let r = ByteReader { bytes, pos: 0 };
        assert(r.bytes@.skip(0) =~= r.bytes@);
        r
    }

    /// How many bytes are left.
    fn left(&self) -> (r: usize)
        ensures
            r == self.remaining().len(),
            r > 0 ==> self.pos + r <= usize::MAX,
    {
        if self.pos <= self.bytes.len() {
            self.bytes.len() - self.pos
        } else {
            0
        }
    }
}

impl ReadLittleEndian for ByteReader {
    closed spec fn remaining(&self) -> Seq<u8> {
        if self.pos <= self.bytes@.len() {
            self.bytes@.skip(self.pos as int)
        } else {
            Seq::empty()
        }
    }

    fn read_u8(&mut self) -> (r: Result<u8, FormatError>) {
        if self.left() < 1 {
            return Err(FormatError::Truncated);
        }
        let b = self.bytes[self.pos];
        self.pos = self.pos + 1;
        assert(self.bytes@.skip(self.pos as int) =~= old(self).remaining().skip(1));
        Ok(b)
    }

    fn read_u16(&mut self) -> (r: Result<u16, FormatError>) {
        if self.left() < 2 {
            return Err(FormatError::Truncated);
        }
        let (_, rest) = self.bytes.as_slice().split_at(self.pos);
        let x = read_u16(rest);
        self.pos = self.pos + 2;
        assert(self.bytes@.skip(self.pos as int) =~= old(self).remaining().skip(2));
        Ok(x)
    }

    fn read_u32(&mut self) -> (r: Result<u32, FormatError>) {
        if self.left() < 4 {
            return Err(FormatError::Truncated);
        }
        let (_, rest) = self.bytes.as_slice().split_at(self.pos);
        let x = read_u32(rest);
        self.pos = self.pos + 4;
        assert(self.bytes@.skip(self.pos as int) =~= old(self).remaining().skip(4));
        Ok(x)
    }
}

} // verus!
