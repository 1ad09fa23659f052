use vstd::prelude::*;
use vstd::arithmetic::div_mod::lemma_fundamental_div_mod_converse;

use crate::cursor::{read_u32_le, time_at, u32_at, Cursor, NANOS_PER_SEC};
use crate::error::Error;
use crate::header_field_iter::{field_step, HeaderFieldIterator};

verus! {

/// The operation code of an index record.
pub const INDEX_DATA_OP: u8 = 0x04;

/// The only index record version this decoder implements.
pub const INDEX_DATA_VERSION: u32 = 1;

/// The size in bytes of one encoded index entry.
pub const ENTRY_SIZE: u32 = 12;

/// The field name `ver`.
pub open spec fn ver_name() -> Seq<u8> {
    seq![0x76u8, 0x65, 0x72]
}

/// The field name `conn`.
pub open spec fn conn_name() -> Seq<u8> {
    seq![0x63u8, 0x6f, 0x6e, 0x6e]
}

/// The field name `count`.
pub open spec fn count_name() -> Seq<u8> {
    seq![0x63u8, 0x6f, 0x75, 0x6e, 0x74]
}

/// Setting a set-once `u32` field from its raw value: the value must be
/// four bytes and the field must not be set yet.
pub open spec fn set_u32_spec(field: Option<u32>, val: Seq<u8>) -> Result<Option<u32>, Error> {
    if val.len() != 4 || field is Some {
        Err(Error::InvalidRecord)
    } else {
        Ok(Some(u32_at(val, 0) as u32))
    }
}

/// Sets a set-once `u32` field from its raw little-endian value; a value
/// that is not four bytes long, or a field that is already set, is an
/// invalid record and leaves the field as it was.
pub fn set_field_u32(field: &mut Option<u32>, val: &[u8]) -> (r: Result<(), Error>)
    ensures
        match set_u32_spec(*old(field), val@) {
            Ok(f) => r is Ok && *final(field) == f,
            Err(e) => r == Err::<(), Error>(e) && *final(field) == *old(field),
        },
{
    if val.len() != 4 {
        return Err(Error::InvalidRecord);
    }
    if field.is_some() {
        return Err(Error::InvalidRecord);
    }
    *field = Some(read_u32_le(val));
    Ok(())
}

/// Whether two byte strings are equal.
fn bytes_eq(a: &[u8], b: &[u8]) -> (r: bool)
    ensures
        r == (a@ == b@),
{
    let n: usize = a.len();
    if n != b.len() {
        return false;
    }
    let mut i: usize = 0;
    while i < n
        invariant
            n == a@.len(),
            n == b@.len(),
            0 <= i <= n,
            forall|j: int| 0 <= j < i ==> a@[j] == b@[j],
        decreases n - i,
    {
        if a[i] != b[i] {
            return false;
        }
        i = i + 1;
    }
    assert(a@ =~= b@);
    true
}

/// The header fields of an index record, gathered one at a time.
#[derive(Debug, Clone, Copy, PartialEq, Eq, Structural)]
pub struct IndexDataHeader {
    pub ver: Option<u32>,
    pub conn_id: Option<u32>,
    pub count: Option<u32>,
}

/// What feeding the field `name=val` to header `h` gives.
pub open spec fn process_field_spec(h: IndexDataHeader, name: Seq<u8>, val: Seq<u8>) -> Result<
    IndexDataHeader,
    Error,
> {
    if name == ver_name() {
        match set_u32_spec(h.ver, val) {
            Ok(f) => Ok(IndexDataHeader { ver: f, ..h }),
            Err(e) => Err(e),
        }
    } else if name == conn_name() {
        match set_u32_spec(h.conn_id, val) {
            Ok(f) => Ok(IndexDataHeader { conn_id: f, ..h }),
            Err(e) => Err(e),
        }
    } else if name == count_name() {
        match set_u32_spec(h.count, val) {
            Ok(f) => Ok(IndexDataHeader { count: f, ..h }),
            Err(e) => Err(e),
        }
    } else {
        Ok(h)
    }
}

/// A header with no field set.
pub open spec fn empty_header() -> IndexDataHeader {
    IndexDataHeader { ver: None, conn_id: None, count: None }
}

/// What feeding every field of the header block `b`, in order, to `h`
/// gives: the first error met, or the header after the last field. (Each
/// field takes at least its four length bytes, so `rest` is always shorter.)
pub open spec fn fold_fields(b: Seq<u8>, h: IndexDataHeader) -> Result<IndexDataHeader, Error>
    decreases b.len(),
{
    match field_step(b) {
        None => Ok(h),
        Some(Err(e)) => Err(e),
        Some(Ok(f)) => if f.2.len() < b.len() {
            match process_field_spec(h, f.0, f.1) {
                Ok(h2) => fold_fields(f.2, h2),
                Err(e) => Err(e),
            }
        } else {
            Ok(h)
        },
    }
}

proof fn lemma_field_step_shrinks(b: Seq<u8>)
    ensures
        field_step(b) matches Some(Ok(f)) ==> f.2.len() < b.len(),
{
}

impl Default for IndexDataHeader {
    fn default() -> (r: Self)
        ensures
            r == empty_header(),
    {
        IndexDataHeader { ver: None, conn_id: None, count: None }
    }
}

impl IndexDataHeader {
    /// A header with no field set.
    pub fn new() -> (r: Self)
        ensures
            r == empty_header(),
    {
        IndexDataHeader { ver: None, conn_id: None, count: None }
    }

    /// Feeds every field of a header block, in order, to an empty header.
    pub fn from_block(block: &[u8]) -> (r: Result<Self, Error>)
        ensures
            r == fold_fields(block@, empty_header()),
    {
        let mut h = IndexDataHeader::new();
        let mut it = HeaderFieldIterator::new(block);
        loop
            invariant
                fold_fields(it.rest(), h) == fold_fields(block@, empty_header()),
            decreases it.rest().len(),
        {
            let ghost b = it.rest();
            proof {
                lemma_field_step_shrinks(b);
            }
            match it.next() {
                None => {
                    return Ok(h);
                },
                Some(Err(e)) => {
                    return Err(e);
                },
                Some(Ok(f)) => {
                    let (name, val) = f;
                    match h.process_field(name.as_bytes(), val) {
                        Ok(()) => {},
                        Err(e) => {
                            return Err(e);
                        },
                    }
                },
            }
        }
    }

    /// Takes one header field. `ver`, `conn` and `count` are set once each;
    /// any other name is accepted and ignored. On an error the header is
    /// left as it was.
    pub fn process_field(&mut self, name: &[u8], val: &[u8]) -> (r: Result<(), Error>)
        ensures
            match process_field_spec(*old(self), name@, val@) {
                Ok(h) => r is Ok && *final(self) == h,
                Err(e) => r == Err::<(), Error>(e) && *final(self) == *old(self),
            },
    {
        // "ver", "conn", "count"
        if bytes_eq(name, &[0x76u8, 0x65, 0x72]) {
            set_field_u32(&mut self.ver, val)
        } else if bytes_eq(name, &[0x63u8, 0x6f, 0x6e, 0x6e]) {
            set_field_u32(&mut self.conn_id, val)
        } else if bytes_eq(name, &[0x63u8, 0x6f, 0x75, 0x6e, 0x74]) {
            set_field_u32(&mut self.count, val)
        } else {
            Ok(())
        }
    }
}

/// What decoding the data block at position `p` of `b` under header `h`
/// gives: `(ver, conn_id, entry bytes)` or an error, and the position the
/// cursor is left at.
pub open spec fn read_data_spec(b: Seq<u8>, p: int, h: IndexDataHeader) -> (
    Result<(u32, u32, Seq<u8>), Error>,
    int,
) {
    if h.ver is None || h.conn_id is None || h.count is None {
        (Err(Error::InvalidHeader), p)
    } else if h.ver->Some_0 != INDEX_DATA_VERSION {
        (Err(Error::UnsupportedVersion), p)
    } else if p + 4 > b.len() {
        (Err(Error::OutOfBounds), p)
    } else {
        let n = u32_at(b, p);
        if n % 12 != 0 || n / 12 != h.count->Some_0 {
            (Err(Error::InvalidRecord), p + 4)
        } else if p + 4 + n > b.len() {
            (Err(Error::OutOfBounds), p + 4)
        } else {
            (Ok((h.ver->Some_0, h.conn_id->Some_0, b.subrange(p + 4, p + 4 + n))), p + 4 + n)
        }
    }
}

/// The entry stored at index `i` of an entry block: its time in
/// nanoseconds and its offset.
pub open spec fn entry_at(d: Seq<u8>, i: int) -> (int, int) {
    (time_at(d, 12 * i), u32_at(d, 12 * i + 8))
}

/// The entries that an entry block holds, in byte order.
pub open spec fn entries_of(d: Seq<u8>) -> Seq<(int, int)> {
    Seq::new((d.len() / 12) as nat, |i: int| entry_at(d, i))
}

/// An index record: the offsets, inside the uncompressed payload of the
/// preceding chunk, of the messages of one connection, with their times.
#[derive(Debug, Clone, Copy)]
pub struct IndexData<'a> {
    /// Index record version (only version 1 is supported).
    pub ver: u32,
    /// Connection ID.
    pub conn_id: u32,
    data: &'a [u8],
}

impl<'a> IndexData<'a> {
    /// The entry bytes, twelve per entry.
    pub closed spec fn data(&self) -> Seq<u8> {
        self.data@
    }

    /// The record's version.
    pub closed spec fn version(&self) -> u32 {
        self.ver
    }

    /// The record's connection ID.
    pub closed spec fn connection(&self) -> u32 {
        self.conn_id
    }

    /// The entry bytes hold a whole number of entries.
    pub open spec fn wf(&self) -> bool {
        self.data().len() % 12 == 0
    }

    /// Decodes the data block at the cursor's position under a header
    /// whose fields have all been processed.
    pub fn read_data(c: &mut Cursor<'a>, header: IndexDataHeader) -> (r: Result<Self, Error>)
        requires
            old(c).wf(),
        ensures
            final(c).wf(),
            final(c).buf() == old(c).buf(),
            final(c).at() == read_data_spec(old(c).buf(), old(c).at(), header).1,
            match read_data_spec(old(c).buf(), old(c).at(), header).0 {
                Ok(v) => r is Ok && r->Ok_0.version() == v.0 && r->Ok_0.connection() == v.1
                    && r->Ok_0.data() == v.2 && r->Ok_0.wf(),
                Err(e) => r is Err && r->Err_0 == e,
            },
    {
        let ver = match header.ver {
            Some(v) => v,
            None => return Err(Error::InvalidHeader),
        };
        let conn_id = match header.conn_id {
            Some(v) => v,
            None => return Err(Error::InvalidHeader),
        };
        let count = match header.count {
            Some(v) => v,
            None => return Err(Error::InvalidHeader),
        };
        if ver != INDEX_DATA_VERSION {
            return Err(Error::UnsupportedVersion);
        }
        let n = match c.next_u32() {
            Ok(n) => n,
            Err(_) => return Err(Error::OutOfBounds),
        };
        if n % ENTRY_SIZE != 0 {
            return Err(Error::InvalidRecord);
        }
        if n / ENTRY_SIZE != count {
            return Err(Error::InvalidRecord);
        }
        assert(n % 12 == 0 && n / 12 == count);
        let data = match c.next_bytes(n as u64) {
            Ok(d) => d,
            Err(_) => return Err(Error::OutOfBounds),
        };
        Ok(IndexData { ver, conn_id, data })
    }

    /// Decodes an index record from its header block and its data block.
    pub fn decode(header_block: &[u8], data_block: &'a [u8]) -> (r: Result<Self, Error>)
        ensures
            match fold_fields(header_block@, empty_header()) {
                Err(e) => r is Err && r->Err_0 == e,
                Ok(h) => match read_data_spec(data_block@, 0, h).0 {
                    Ok(v) => r is Ok && r->Ok_0.version() == v.0 && r->Ok_0.connection() == v.1
                        && r->Ok_0.data() == v.2 && r->Ok_0.wf(),
                    Err(e) => r is Err && r->Err_0 == e,
                },
            },
    {
        let header = match IndexDataHeader::from_block(header_block) {
            Ok(h) => h,
            Err(e) => return Err(e),
        };
        let mut c = Cursor::new(data_block);
        Self::read_data(&mut c, header)
    }

    /// All entries, in byte order.
    pub fn entry_list(&self) -> (r: Vec<IndexDataEntry>)
        requires
            self.wf(),
        ensures
            r@.len() == entries_of(self.data()).len(),
            forall|i: int|
                0 <= i < r@.len() ==> (r@[i].time as int, r@[i].offset as int) == entries_of(
                    self.data(),
                )[i],
    {
        let ghost d = self.data();
        let mut it = self.entries();
        let mut v: Vec<IndexDataEntry> = Vec::new();
        loop
            invariant
                it.wf(),
                d.len() % 12 == 0,
                12 * v@.len() <= d.len(),
                it.rest() == d.skip(12 * v@.len() as int),
                forall|j: int|
                    0 <= j < v@.len() ==> (v@[j].time as int, v@[j].offset as int) == entry_at(
                        d,
                        j,
                    ),
            ensures
                v@.len() == d.len() / 12,
                forall|j: int|
                    0 <= j < v@.len() ==> (v@[j].time as int, v@[j].offset as int) == entry_at(
                        d,
                        j,
                    ),
            decreases it.rest().len(),
        {
            let ghost i = v@.len() as int;
            match it.next() {
                None => {
                    assert(d.len() == 12 * i);
                    assert(d.len() / 12 == i);
                    break ;
                },
                Some(e) => {
                    proof {
                        let rest = d.skip(12 * i);
                        assert(u32_at(rest, 0) == u32_at(d, 12 * i));
                        assert(u32_at(rest, 4) == u32_at(d, 12 * i + 4));
                        assert(u32_at(rest, 8) == u32_at(d, 12 * i + 8));
                        assert(rest.skip(12) =~= d.skip(12 * (i + 1)));
                    }
                    v.push(e);
                },
            }
        }
        v
    }

    /// An iterator over the entries, from the first.
    pub fn entries(&'a self) -> (r: IndexDataEntriesIterator<'a>)
        requires
            self.wf(),
        ensures
            r.wf(),
            r.rest() == self.data(),
    {
        let cursor = Cursor::new(self.data);
        proof {
            assert(cursor.buf().subrange(0, cursor.buf().len() as int) =~= self.data());
        }
        IndexDataEntriesIterator { cursor }
    }
}

/// One index entry: a message offset and its time.
#[derive(Debug, Clone, Copy, Default, PartialEq, Eq, Structural)]
pub struct IndexDataEntry {
    /// Time at which the message was received, in nanoseconds.
    pub time: u64,
    /// Offset of the message data record in the uncompressed chunk data.
    pub offset: u32,
}

/// Walks the entry bytes of an index record twelve at a time.
pub struct IndexDataEntriesIterator<'a> {
    cursor: Cursor<'a>,
}

impl<'a> IndexDataEntriesIterator<'a> {
    /// The entry bytes not read yet.
    pub closed spec fn rest(&self) -> Seq<u8> {
        self.cursor.buf().subrange(self.cursor.at(), self.cursor.buf().len() as int)
    }

    /// What is left holds a whole number of entries.
    pub closed spec fn wf(&self) -> bool {
        &&& self.cursor.wf()
        &&& (self.cursor.buf().len() - self.cursor.at()) % 12 == 0
    }

    /// The next entry, or `None` once all have been read.
    pub fn next(&mut self) -> (r: Option<IndexDataEntry>)
        requires
            old(self).wf(),
        ensures
            final(self).wf(),
            old(self).rest().len() == 0 ==> r is None && final(self).rest() == old(self).rest(),
            old(self).rest().len() > 0 ==> r is Some && r->Some_0.time == entry_at(
                old(self).rest(),
                0,
            ).0 && r->Some_0.offset == entry_at(old(self).rest(), 0).1 && final(self).rest()
                == old(self).rest().skip(12),
    {
        if self.cursor.left() == 0 {
            return None;
        }
        let ghost b = self.cursor.buf();
        let ghost p = self.cursor.at();
        proof {
            let k = b.len() - p;
            assert(k >= 12) by (nonlinear_arith)
                requires
                    k > 0,
                    k % 12 == 0,
            ;
        }
        let time = self.cursor.next_time().unwrap();
        let offset = self.cursor.next_u32().unwrap();
        proof {
            let rest = b.subrange(p, b.len() as int);
            assert(u32_at(rest, 0) == u32_at(b, p));
            assert(u32_at(rest, 4) == u32_at(b, p + 4));
            assert(u32_at(rest, 8) == u32_at(b, p + 8));
            assert(rest.skip(12) =~= b.subrange(p + 12, b.len() as int));
        }
        Some(IndexDataEntry { time, offset })
    }
}

/// The four little-endian bytes of `v`.
pub open spec fn u32_bytes(v: int) -> Seq<u8> {
    seq![
        (v % 0x100) as u8,
        (v / 0x100 % 0x100) as u8,
        (v / 0x1_0000 % 0x100) as u8,
        (v / 0x100_0000 % 0x100) as u8,
    ]
}

/// An entry `(time, offset)` in the twelve-byte layout: seconds,
/// nanoseconds, offset.
pub open spec fn entry_bytes(e: (int, int)) -> Seq<u8> {
    u32_bytes(e.0 / (NANOS_PER_SEC as int)) + u32_bytes(e.0 % (NANOS_PER_SEC as int)) + u32_bytes(
        e.1,
    )
}

/// A sequence of entries in the twelve-byte layout, one after another.
pub open spec fn encode_entries(es: Seq<(int, int)>) -> Seq<u8>
    decreases es.len(),
{
    if es.len() == 0 {
        seq![]
    } else {
        encode_entries(es.drop_last()) + entry_bytes(es.last())
    }
}

/// Every entry of the block `d` stores fewer than a second's nanoseconds.
pub open spec fn nanos_normalized(d: Seq<u8>) -> bool {
    forall|i: int| 0 <= i < d.len() / 12 ==> #[trigger] u32_at(d, 12 * i + 4) < NANOS_PER_SEC
}

proof fn lemma_u32_bytes(b: Seq<u8>, p: int)
    requires
        0 <= p,
        p + 4 <= b.len(),
    ensures
        u32_bytes(u32_at(b, p)) == b.subrange(p, p + 4),
{
    let b0 = b[p] as int;
    let b1 = b[p + 1] as int;
    let b2 = b[p + 2] as int;
    let b3 = b[p + 3] as int;
    let v = u32_at(b, p);
    lemma_fundamental_div_mod_converse(v, 0x100, b1 + 0x100 * b2 + 0x1_0000 * b3, b0);
    lemma_fundamental_div_mod_converse(v / 0x100, 0x100, b2 + 0x100 * b3, b1);
    lemma_fundamental_div_mod_converse(v, 0x1_0000, b2 + 0x100 * b3, b0 + 0x100 * b1);
    lemma_fundamental_div_mod_converse(v / 0x1_0000, 0x100, b3, b2);
    lemma_fundamental_div_mod_converse(v, 0x100_0000, b3, b0 + 0x100 * b1 + 0x1_0000 * b2);
    lemma_fundamental_div_mod_converse(b3, 0x100, 0, b3);
    assert(u32_bytes(v) =~= b.subrange(p, p + 4));
}

proof fn lemma_entry_bytes(d: Seq<u8>, p: int)
    requires
        0 <= p,
        p + 12 <= d.len(),
        u32_at(d, p + 4) < NANOS_PER_SEC,
    ensures
        entry_bytes((time_at(d, p), u32_at(d, p + 8))) == d.subrange(p, p + 12),
{
    let ns = NANOS_PER_SEC as int;
    lemma_fundamental_div_mod_converse(time_at(d, p), ns, u32_at(d, p), u32_at(d, p + 4));
    lemma_u32_bytes(d, p);
    lemma_u32_bytes(d, p + 4);
    lemma_u32_bytes(d, p + 8);
    assert(entry_bytes((time_at(d, p), u32_at(d, p + 8))) =~= d.subrange(p, p + 12));
}

proof fn lemma_encode_block(d: Seq<u8>)
    requires
        d.len() % 12 == 0,
        nanos_normalized(d),
    ensures
        encode_entries(entries_of(d)) == d,
    decreases d.len(),
{
    let es = entries_of(d);
    if d.len() == 0 {
        assert(es.len() == 0);
        assert(d =~= seq![]);
    } else {
        let k = d.len() / 12;
        let m = d.len() - 12;
        let front = d.take(m);
        assert(m / 12 == k - 1 && m % 12 == 0);
        assert forall|i: int| 0 <= i < k - 1 implies entry_at(front, i) == entry_at(d, i) by {
            assert(12 * i + 12 <= m);
        }
        assert(es.drop_last() =~= entries_of(front));
        assert forall|i: int| 0 <= i < front.len() / 12 implies #[trigger] u32_at(front, 12 * i + 4)
            < NANOS_PER_SEC by {
            assert(u32_at(front, 12 * i + 4) == u32_at(d, 12 * i + 4));
        }
        lemma_encode_block(front);
        assert(u32_at(d, 12 * (k - 1) + 4) < NANOS_PER_SEC);
        lemma_entry_bytes(d, m);
        assert(d =~= front + d.subrange(m, d.len() as int));
    }
}

/// Encoding the entries of an index record back into the twelve-byte
/// layout gives the record's entry bytes again, wherever every stored
/// nanosecond count is below one second (a time alone does not tell
/// `(0 s, 1_000_000_000 ns)` from `(1 s, 0 ns)`).
pub proof fn lemma_entries_round_trip(rec: IndexData)
    requires
        rec.wf(),
        nanos_normalized(rec.data()),
    ensures
        encode_entries(entries_of(rec.data())) == rec.data(),
{
    lemma_encode_block(rec.data());
}

} // verus!
