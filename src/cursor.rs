use vstd::prelude::*;
use vstd::slice::slice_subrange;
use byteorder::{ByteOrder, LE};

use crate::error::OutOfBounds;

verus! {

/// Nanoseconds in one second.
pub const NANOS_PER_SEC: u64 = 1_000_000_000;

/// The unsigned little-endian integer held in the four bytes of `b` that
/// start at `p`.
pub open spec fn u32_at(b: Seq<u8>, p: int) -> int {
    b[p] as int + 0x100 * b[p + 1] + 0x1_0000 * b[p + 2] + 0x100_0000 * b[p + 3]
}

/// Relies on byteorder's `LittleEndian::read_u32`: it reads the first four
/// bytes of the buffer as a little-endian `u32` and panics on a shorter one.
#[verifier::external_body]
pub(crate) fn read_u32_le(b: &[u8]) -> (r: u32)
    requires
        b@.len() >= 4,
    ensures
        r == u32_at(b@, 0),
{
    LE::read_u32(b)
}

/// A bounds-checked sequential reader over a borrowed byte buffer.
///
/// Every read hands back a sub-slice of the original buffer; nothing is
/// copied.
pub struct Cursor<'a> {
    data: &'a [u8],
    pos: u64,
}

impl<'a> Cursor<'a> {
    /// The bytes the cursor reads from.
    pub closed spec fn buf(&self) -> Seq<u8> {
        self.data@
    }

    /// The current position inside `buf()`.
    pub closed spec fn at(&self) -> int {
        self.pos as int
    }

    /// The position never passes the end of the buffer.
    pub open spec fn wf(&self) -> bool {
        0 <= self.at() <= self.buf().len()
    }

    pub fn new(data: &'a [u8]) -> (r: Self)
        ensures
            r.wf(),
            r.buf() == data@,
            r.at() == 0,
    {
        Cursor { data, pos: 0 }
    }

    /// Moves to `pos`, which must not pass the end of the buffer.
    pub fn seek(&mut self, pos: u64) -> (r: Result<(), OutOfBounds>)
        requires
            old(self).wf(),
        ensures
            final(self).wf(),
            final(self).buf() == old(self).buf(),
            r is Ok <==> pos <= old(self).buf().len(),
            r is Ok ==> final(self).at() == pos,
            r is Err ==> final(self).at() == old(self).at(),
    {
        if pos > self.len() {
            return Err(OutOfBounds);
        }
        self.pos = pos;
        Ok(())
    }

    pub fn pos(&self) -> (r: u64)
        ensures
            r == self.at(),
    {
        self.pos
    }

    pub fn len(&self) -> (r: u64)
        ensures
            r == self.buf().len(),
    {
        self.data.len() as u64
    }

    /// The number of bytes between the position and the end of the buffer.
    pub fn left(&self) -> (r: u64)
        requires
            self.wf(),
        ensures
            r == self.buf().len() - self.at(),
    {
        self.data.len() as u64 - self.pos
    }

    /// Returns the next `n` bytes and moves past them; fails, and stays in
    /// place, where fewer than `n` bytes are left.
    pub fn next_bytes(&mut self, n: u64) -> (r: Result<&'a [u8], OutOfBounds>)
        requires
            old(self).wf(),
        ensures
            final(self).wf(),
            final(self).buf() == old(self).buf(),
            r is Ok <==> old(self).at() + n <= old(self).buf().len(),
            r is Ok ==> final(self).at() == old(self).at() + n && r->Ok_0@ == old(
                self,
            ).buf().subrange(old(self).at(), old(self).at() + n),
            r is Err ==> final(self).at() == old(self).at(),
    {
        let len: usize = self.data.len();
        if n > len as u64 - self.pos {
            return Err(OutOfBounds);
        }
        let s = self.pos as usize;
        let e = s + n as usize;
        self.pos = e as u64;
        Ok(slice_subrange(self.data, s, e))
    }

    /// Reads a four-byte little-endian length `L`, then the `L` bytes that
    /// follow it.
    pub fn next_chunk(&mut self) -> (r: Result<&'a [u8], OutOfBounds>)
        requires
            old(self).wf(),
        ensures
            final(self).wf(),
            final(self).buf() == old(self).buf(),
            ({
                let b = old(self).buf();
                let p = old(self).at();
                if p + 4 > b.len() {
                    r is Err && final(self).at() == p
                } else if p + 4 + u32_at(b, p) > b.len() {
                    r is Err && final(self).at() == p + 4
                } else {
                    r is Ok && final(self).at() == p + 4 + u32_at(b, p) && r->Ok_0@ == b.subrange(
                        p + 4,
                        p + 4 + u32_at(b, p),
                    )
                }
            }),
    {
        let n = match self.next_u32() {
            Ok(n) => n,
            Err(e) => return Err(e),
        };
        self.next_bytes(n as u64)
    }

    /// Reads four bytes as a little-endian `u32`.
    pub fn next_u32(&mut self) -> (r: Result<u32, OutOfBounds>)
        requires
            old(self).wf(),
        ensures
            final(self).wf(),
            final(self).buf() == old(self).buf(),
            r is Ok <==> old(self).at() + 4 <= old(self).buf().len(),
            r is Ok ==> final(self).at() == old(self).at() + 4 && r->Ok_0 == u32_at(
                old(self).buf(),
                old(self).at(),
            ),
            r is Err ==> final(self).at() == old(self).at(),
    {
        match self.next_bytes(4) {
            Ok(b) => Ok(read_u32_le(b)),
            Err(e) => Err(e),
        }
    }

    /// Reads seconds, then nanoseconds, each a little-endian `u32`, and
    /// returns the time in nanoseconds.
    pub fn next_time(&mut self) -> (r: Result<u64, OutOfBounds>)
        requires
            old(self).wf(),
        ensures
            final(self).wf(),
            final(self).buf() == old(self).buf(),
            ({
                let b = old(self).buf();
                let p = old(self).at();
                if p + 4 > b.len() {
                    r is Err && final(self).at() == p
                } else if p + 8 > b.len() {
                    r is Err && final(self).at() == p + 4
                } else {
                    r is Ok && final(self).at() == p + 8 && r->Ok_0 == time_at(b, p)
                }
            }),
    {
        let s = match self.next_u32() {
            Ok(s) => s as u64,
            Err(e) => return Err(e),
        };
        let ns = match self.next_u32() {
            Ok(ns) => ns as u64,
            Err(e) => return Err(e),
        };
        proof {
            assert(NANOS_PER_SEC * s <= NANOS_PER_SEC * 0xffff_ffff) by (nonlinear_arith)
                requires
                    s <= 0xffff_ffff,
            ;
        }
        Ok(NANOS_PER_SEC * s + ns)
    }
}

/// The time in nanoseconds stored at `p`: seconds, then nanoseconds, each
/// a little-endian `u32`.
pub open spec fn time_at(b: Seq<u8>, p: int) -> int {
    NANOS_PER_SEC * u32_at(b, p) + u32_at(b, p + 4)
}

} // verus!
