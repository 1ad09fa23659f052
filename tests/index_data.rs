use rosbag_core::index_data::{set_field_u32, INDEX_DATA_OP};
use rosbag_core::{
    Cursor, Error, HeaderFieldIterator, IndexData, IndexDataEntry, IndexDataHeader, OutOfBounds,
};

fn slot(payload: &[u8]) -> Vec<u8> {
    let mut v = (payload.len() as u32).to_le_bytes().to_vec();
    v.extend_from_slice(payload);
    v
}

fn u32_field(name: &str, v: u32) -> Vec<u8> {
    let mut p = name.as_bytes().to_vec();
    p.push(b'=');
    p.extend_from_slice(&v.to_le_bytes());
    slot(&p)
}

fn header(fields: &[(&str, u32)]) -> Vec<u8> {
    let mut h = Vec::new();
    for (n, v) in fields {
        h.extend(u32_field(n, *v));
    }
    h
}

fn entry(sec: u32, nsec: u32, offset: u32) -> Vec<u8> {
    let mut e = sec.to_le_bytes().to_vec();
    e.extend_from_slice(&nsec.to_le_bytes());
    e.extend_from_slice(&offset.to_le_bytes());
    e
}

fn two_entries() -> Vec<u8> {
    let mut d = entry(2, 500, 100);
    d.extend(entry(3, 999_999_999, 0x0102_0304));
    d
}

fn decode<'a>(header_block: &[u8], data_block: &'a [u8]) -> Result<IndexData<'a>, Error> {
    IndexData::decode(header_block, data_block)
}

fn decode_step_by_step<'a>(
    header_block: &[u8],
    data_block: &'a [u8],
) -> Result<IndexData<'a>, Error> {
    let mut h = IndexDataHeader::new();
    let mut it = HeaderFieldIterator::new(header_block);
    while let Some(f) = it.next() {
        let (name, val) = f?;
        h.process_field(name.as_bytes(), val)?;
    }
    let mut c = Cursor::new(data_block);
    IndexData::read_data(&mut c, h)
}

#[test]
fn decode_two_entries() {
    let h = header(&[("ver", 1), ("conn", 3), ("count", 2)]);
    let data = slot(&two_entries());
    assert_eq!(data.len(), 28);
    let rec = decode(&h, &data).unwrap();
    assert_eq!(rec.ver, 1);
    assert_eq!(rec.conn_id, 3);
    let mut it = rec.entries();
    assert_eq!(it.next(), Some(IndexDataEntry { time: 2_000_000_500, offset: 100 }));
    assert_eq!(
        it.next(),
        Some(IndexDataEntry { time: 3_999_999_999, offset: 0x0102_0304 })
    );
    assert_eq!(it.next(), None);
    assert_eq!(it.next(), None);
}

#[test]
fn entry_list_matches_iterator() {
    let h = header(&[("ver", 1), ("conn", 3), ("count", 2)]);
    let data = slot(&two_entries());
    let rec = decode(&h, &data).unwrap();
    assert_eq!(
        rec.entry_list(),
        vec![
            IndexDataEntry { time: 2_000_000_500, offset: 100 },
            IndexDataEntry { time: 3_999_999_999, offset: 0x0102_0304 },
        ]
    );
}

#[test]
fn empty_index_record() {
    let h = header(&[("ver", 1), ("conn", 3), ("count", 0)]);
    let data = slot(&[]);
    let rec = decode(&h, &data).unwrap();
    assert_eq!(rec.entries().next(), None);
    assert!(rec.entry_list().is_empty());
}

#[test]
fn read_data_advances_past_block() {
    let mut h = IndexDataHeader::new();
    h.process_field(b"ver", &1u32.to_le_bytes()).unwrap();
    h.process_field(b"conn", &3u32.to_le_bytes()).unwrap();
    h.process_field(b"count", &1u32.to_le_bytes()).unwrap();
    let mut data = slot(&entry(1, 2, 3));
    data.push(0xaa);
    let mut c = Cursor::new(&data);
    let rec = IndexData::read_data(&mut c, h).unwrap();
    assert_eq!(c.pos(), 16);
    assert_eq!(rec.entry_list(), vec![IndexDataEntry { time: 1_000_000_002, offset: 3 }]);
}

#[test]
fn count_mismatch_is_invalid() {
    let h = header(&[("ver", 1), ("conn", 3), ("count", 3)]);
    let data = slot(&two_entries());
    assert_eq!(decode(&h, &data).unwrap_err(), Error::InvalidRecord);
}

#[test]
fn length_not_multiple_of_entry_size_is_invalid() {
    let h = header(&[("ver", 1), ("conn", 3), ("count", 1)]);
    let data = slot(&[0u8; 13]);
    assert_eq!(decode(&h, &data).unwrap_err(), Error::InvalidRecord);
}

#[test]
fn unsupported_version() {
    let h = header(&[("ver", 2), ("conn", 3), ("count", 2)]);
    let data = slot(&two_entries());
    assert_eq!(decode(&h, &data).unwrap_err(), Error::UnsupportedVersion);
}

#[test]
fn duplicate_ver_is_invalid() {
    let h = header(&[("ver", 1), ("conn", 3), ("ver", 1), ("count", 2)]);
    let data = slot(&two_entries());
    assert_eq!(decode(&h, &data).unwrap_err(), Error::InvalidRecord);

    let mut acc = IndexDataHeader::new();
    assert!(acc.process_field(b"ver", &1u32.to_le_bytes()).is_ok());
    assert_eq!(acc.process_field(b"ver", &1u32.to_le_bytes()), Err(Error::InvalidRecord));
    assert_eq!(acc.ver, Some(1));
}

#[test]
fn missing_conn_is_invalid_header() {
    let h = header(&[("ver", 1), ("count", 2)]);
    let data = slot(&two_entries());
    assert_eq!(decode(&h, &data).unwrap_err(), Error::InvalidHeader);
}

#[test]
fn missing_ver_is_invalid_header_before_version_check() {
    let h = header(&[("conn", 3), ("count", 2)]);
    let data = slot(&two_entries());
    assert_eq!(decode(&h, &data).unwrap_err(), Error::InvalidHeader);
    let h = header(&[("ver", 7), ("conn", 3)]);
    assert_eq!(decode(&h, &data).unwrap_err(), Error::InvalidHeader);
}

#[test]
fn field_value_of_wrong_size_is_invalid() {
    let mut acc = IndexDataHeader::new();
    assert_eq!(acc.process_field(b"conn", &[1, 0, 0]), Err(Error::InvalidRecord));
    assert_eq!(acc.conn_id, None);
    assert_eq!(acc.process_field(b"count", &[1, 0, 0, 0, 0]), Err(Error::InvalidRecord));
    assert_eq!(acc.count, None);
}

#[test]
fn unknown_fields_are_ignored() {
    let mut h = header(&[("ver", 1), ("conn", 9)]);
    h.extend(slot(b"op=\x04"));
    h.extend(slot(b"whatever=xyz"));
    h.extend(u32_field("count", 2));
    let data = slot(&two_entries());
    let rec = decode(&h, &data).unwrap();
    assert_eq!(rec.conn_id, 9);
    assert_eq!(rec.entry_list().len(), 2);
}

#[test]
fn truncated_data_block_is_out_of_bounds() {
    let h = header(&[("ver", 1), ("conn", 3), ("count", 2)]);
    let mut data = slot(&two_entries());
    data.truncate(20);
    assert_eq!(decode(&h, &data).unwrap_err(), Error::OutOfBounds);
    assert_eq!(decode(&h, &[24, 0]).unwrap_err(), Error::OutOfBounds);
}

#[test]
fn entries_round_trip_to_bytes() {
    let h = header(&[("ver", 1), ("conn", 3), ("count", 2)]);
    let block = two_entries();
    let data = slot(&block);
    let rec = decode(&h, &data).unwrap();
    let mut out = Vec::new();
    for e in rec.entry_list() {
        let sec = (e.time / 1_000_000_000) as u32;
        let nsec = (e.time % 1_000_000_000) as u32;
        out.extend(entry(sec, nsec, e.offset));
    }
    assert_eq!(out, block);
}

#[test]
fn step_by_step_protocol_agrees_with_decode() {
    let h = header(&[("ver", 1), ("conn", 3), ("count", 2)]);
    let data = slot(&two_entries());
    let a = decode_step_by_step(&h, &data).unwrap();
    let b = decode(&h, &data).unwrap();
    assert_eq!(a.entry_list(), b.entry_list());
    assert_eq!((a.ver, a.conn_id), (b.ver, b.conn_id));
    let h = header(&[("ver", 1), ("ver", 1)]);
    assert_eq!(decode_step_by_step(&h, &data).unwrap_err(), Error::InvalidRecord);
}

#[test]
fn header_from_block() {
    let h = header(&[("count", 5), ("ver", 1), ("conn", 0x0a0b_0c0d)]);
    let acc = IndexDataHeader::from_block(&h).unwrap();
    assert_eq!(acc.ver, Some(1));
    assert_eq!(acc.conn_id, Some(0x0a0b_0c0d));
    assert_eq!(acc.count, Some(5));
    let empty = IndexDataHeader::from_block(&[]).unwrap();
    assert_eq!(empty, IndexDataHeader::new());
    assert_eq!(empty, IndexDataHeader::default());
}

#[test]
fn header_block_errors_propagate() {
    let mut h = header(&[("ver", 1)]);
    h.extend_from_slice(&[3, 0, 0, 0, b'x']);
    assert_eq!(IndexDataHeader::from_block(&h), Err(Error::OutOfBounds));
    let h = slot(b"noseparator");
    assert_eq!(IndexDataHeader::from_block(&h), Err(Error::InvalidRecord));
}

#[test]
fn set_field_u32_sets_once() {
    let mut f = None;
    assert!(set_field_u32(&mut f, &[0x78, 0x56, 0x34, 0x12]).is_ok());
    assert_eq!(f, Some(0x1234_5678));
    assert_eq!(set_field_u32(&mut f, &[0, 0, 0, 0]), Err(Error::InvalidRecord));
    assert_eq!(f, Some(0x1234_5678));
    let mut g = None;
    assert_eq!(set_field_u32(&mut g, &[]), Err(Error::InvalidRecord));
    assert_eq!(g, None);
}

#[test]
fn out_of_bounds_converts_to_error() {
    assert_eq!(Error::from(OutOfBounds), Error::OutOfBounds);
    assert_eq!(INDEX_DATA_OP, 0x04);
}
