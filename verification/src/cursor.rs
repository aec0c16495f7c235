//! A read position over borrowed bytes.

use vstd::prelude::*;
use vstd::slice::slice_subrange;

verus! {

/// Borrowed bytes and an index into them. The index may stand past the end:
/// then nothing remains.
pub struct Cursor<'a> {
    /// The bytes under the cursor.
    pub data: &'a [u8],
    /// The index of the next byte to read.
    pub pos: usize,
}

impl<'a> Cursor<'a> {
    /// The bytes under the cursor, read or not.
    pub open spec fn bytes(&self) -> Seq<u8> {
        self.data@
    }

    /// The index of the next byte to read.
    pub open spec fn offset(&self) -> int {
        self.pos as int
    }

    /// How many bytes are left to read.
    pub open spec fn left(&self) -> int {
        if self.offset() < self.bytes().len() {
            self.bytes().len() - self.offset()
        } else {
            0
        }
    }

    /// A cursor at the start of `data`.
    pub fn new(data: &'a [u8]) -> (c: Self)
        ensures
            c.bytes() == data@,
            c.offset() == 0,
    {
        Cursor { data, pos: 0 }
    }

    pub fn position(&self) -> (p: usize)
        ensures
            p == self.offset(),
    {
        self.pos
    }

    pub fn set_position(&mut self, pos: usize)
        ensures
            final(self).bytes() == old(self).bytes(),
            final(self).offset() == pos,
    {
        self.pos = pos;
    }

    /// The bytes under the cursor, whatever the position.
    pub fn get_ref(&self) -> (d: &'a [u8])
        ensures
            d@ == self.bytes(),
    {
        self.data
    }

    pub fn remaining(&self) -> (n: usize)
        ensures
            n == self.left(),
    {
        if self.pos < self.data.len() {
            self.data.len() - self.pos
        } else {
            0
        }
    }

    pub fn has_remaining(&self) -> (r: bool)
        ensures
            r == (self.left() > 0),
    {
        self.pos < self.data.len()
    }

    /// The bytes that are left to read.
    pub fn chunk(&self) -> (c: &'a [u8])
        ensures
            c@ == self.bytes().subrange(
                self.bytes().len() - self.left(),
                self.bytes().len() as int,
            ),
    {
        let len = self.data.len();
        if self.pos < len {
            slice_subrange(self.data, self.pos, len)
        } else {
            slice_subrange(self.data, len, len)
        }
    }

    /// Moves `n` bytes on. There have to be that many left.
    pub fn advance(&mut self, n: usize)
        requires
            n <= old(self).left(),
        ensures
            final(self).bytes() == old(self).bytes(),
            final(self).offset() == old(self).offset() + n,
    {
        let len = self.data.len();
        self.pos = self.pos + n;
    }

    /// Reads one byte. There has to be one left.
    pub fn get_u8(&mut self) -> (b: u8)
        requires
            old(self).left() > 0,
        ensures
            final(self).bytes() == old(self).bytes(),
            final(self).offset() == old(self).offset() + 1,
            b == old(self).bytes()[old(self).offset()],
    {
        let b = self.data[self.pos];
        self.pos = self.pos + 1;
        b
    }
}

} // verus!
