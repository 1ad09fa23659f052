use vstd::prelude::*;
use vstd::slice::slice_subrange;
use vstd::string::StringSliceAdditionalSpecFns;
use vstd::utf8::valid_utf8;

use crate::cursor::{u32_at, Cursor};
use crate::error::Error;

verus! {

/// The byte that separates a field's name from its value.
pub const FIELD_SEPARATOR: u8 = 0x3d;

/// `i` is the index of the first separator in `s`.
pub open spec fn is_first_separator(s: Seq<u8>, i: int) -> bool {
    &&& 0 <= i < s.len()
    &&& s[i] == FIELD_SEPARATOR
    &&& forall|j: int| 0 <= j < i ==> s[j] != FIELD_SEPARATOR
}

/// A field payload split at its first separator into name and value, or
/// `None` where it holds no separator.
pub open spec fn split_field(s: Seq<u8>) -> Option<(Seq<u8>, Seq<u8>)> {
    if exists|i: int| is_first_separator(s, i) {
        let i = choose|i: int| is_first_separator(s, i);
        Some((s.take(i), s.skip(i + 1)))
    } else {
        None
    }
}

/// One step of header decoding over the bytes `b` that remain: the end,
/// an error, or `(name, value, rest)`.
pub open spec fn field_step(b: Seq<u8>) -> Option<Result<(Seq<u8>, Seq<u8>, Seq<u8>), Error>> {
    if b.len() == 0 {
        None
    } else if b.len() < 4 || b.len() < 4 + u32_at(b, 0) {
        Some(Err(Error::OutOfBounds))
    } else {
        let end = 4 + u32_at(b, 0);
        match split_field(b.subrange(4, end)) {
            None => Some(Err(Error::InvalidRecord)),
            Some(nv) => if valid_utf8(nv.0) {
                Some(Ok((nv.0, nv.1, b.subrange(end, b.len() as int))))
            } else {
                Some(Err(Error::InvalidRecord))
            },
        }
    }
}

/// Relies on `std::str::from_utf8`: it succeeds exactly on valid UTF-8 and
/// then views the same bytes as text.
#[verifier::external_body]
fn text_of<'a>(b: &'a [u8]) -> (r: Option<&'a str>)
    ensures
        r is Some <==> valid_utf8(b@),
        r is Some ==> r->Some_0.spec_bytes() == b@,
{
    std::str::from_utf8(b).ok()
}

/// Lazily splits a header block into `(name, value)` fields, each stored
/// as a length-prefixed `name=value` slot.
pub struct HeaderFieldIterator<'a> {
    buf: &'a [u8],
}

impl<'a> HeaderFieldIterator<'a> {
    /// The bytes not decoded yet.
    pub closed spec fn rest(&self) -> Seq<u8> {
        self.buf@
    }

    pub fn new(buf: &'a [u8]) -> (r: Self)
        ensures
            r.rest() == buf@,
    {
        HeaderFieldIterator { buf }
    }

    /// Decodes the next field. After an error the iterator is exhausted.
    pub fn next(&mut self) -> (r: Option<Result<(&'a str, &'a [u8]), Error>>)
        ensures
            match field_step(old(self).rest()) {
                None => r is None && final(self).rest() == old(self).rest(),
                Some(Err(e)) => r == Some(Err::<(&'a str, &'a [u8]), Error>(e))
                    && final(self).rest().len() == 0,
                Some(Ok(f)) => r is Some && r->Some_0 is Ok && r->Some_0->Ok_0.0.spec_bytes()
                    == f.0 && r->Some_0->Ok_0.1@ == f.1 && final(self).rest() == f.2,
            },
    {
        let len: usize = self.buf.len();
        if len == 0 {
            return None;
        }
        let mut c = Cursor::new(self.buf);
        let rec = match c.next_chunk() {
            Ok(rec) => rec,
            Err(_) => {
                self.buf = slice_subrange(self.buf, len, len);
                return Some(Err(Error::OutOfBounds));
            },
        };
        let end = c.pos() as usize;
        let n: usize = rec.len();
        let mut i: usize = 0;
        while i < n && rec[i] != FIELD_SEPARATOR
            invariant
                n == rec@.len(),
                0 <= i <= n,
                forall|j: int| 0 <= j < i ==> rec@[j] != FIELD_SEPARATOR,
            decreases n - i,
        {
            i = i + 1;
        }
        assert(rec@ == self.buf@.subrange(4, end as int));
        if i == n {
            self.buf = slice_subrange(self.buf, len, len);
            return Some(Err(Error::InvalidRecord));
        }
        assert(is_first_separator(rec@, i as int));
        assert forall|k: int| is_first_separator(rec@, k) implies k == i by {
            if k < i {
                assert(rec@[k] != FIELD_SEPARATOR);
            } else if k > i {
                assert(rec@[i as int] != FIELD_SEPARATOR);
            }
        }
        let name = slice_subrange(rec, 0, i);
        let value = slice_subrange(rec, i + 1, n);
        match text_of(name) {
            Some(t) => {
                self.buf = slice_subrange(self.buf, end, len);
                Some(Ok((t, value)))
            },
            None => {
                self.buf = slice_subrange(self.buf, len, len);
                Some(Err(Error::InvalidRecord))
            },
        }
    }
}

} // verus!
