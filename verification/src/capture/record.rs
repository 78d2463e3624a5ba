//! The records that captures are kept in: the number of a client, a time, the
//! length of the bytes, and the bytes. Numbers have their least significant byte
//! first.
use vstd::prelude::*;

use crate::utils::parse::{bytes_at, bytes_from};
use crate::utils::wire;
use crate::utils::wire::{push_bytes, push_le32, read_le32};

verus! {

/// How many bytes stand in front of the bytes of a record.
pub const HEADER_LEN: usize = 12;

/// A record.
pub open spec fn record_bytes(id: u32, ts: u32, data: Seq<u8>) -> Seq<u8> {
    wire::le_bytes(id as nat, 4) + wire::le_bytes(ts as nat, 4) + wire::le_bytes(data.len(), 4)
        + data
}

/// Appends a record.
pub fn push_record(out: &mut Vec<u8>, id: u32, ts: u32, data: &[u8])
    requires
        data@.len() <= u32::MAX,
    ensures
        final(out)@ == old(out)@ + record_bytes(id, ts, data@),
{
    push_le32(out, id);
    push_le32(out, ts);
    push_le32(out, data.len() as u32);
    push_bytes(out, data);
    assert(final(out)@ =~= old(out)@ + record_bytes(id, ts, data@));
}

/// What stands at the start of bytes.
#[verifier::ext_equal]
pub enum RecordView {
    /// Not even the number of a client.
    Empty,
    /// The start of a record.
    Partial,
    /// A record.
    Whole { id: u32, ts: u32, data: Seq<u8> },
}

/// The record that the bytes start with.
pub open spec fn first_record(b: Seq<u8>) -> RecordView {
    if b.len() < 4 {
        RecordView::Empty
    } else if b.len() < HEADER_LEN || b.len() < HEADER_LEN + wire::le(b.subrange(8, 12)) {
        RecordView::Partial
    } else {
        let len = wire::le(b.subrange(8, 12));
        RecordView::Whole {
            id: wire::le(b.subrange(0, 4)) as u32,
            ts: wire::le(b.subrange(4, 8)) as u32,
            data: b.subrange(12, (12 + len) as int),
        }
    }
}

/// What stands at the start of bytes.
pub enum Record<'a> {
    Empty,
    Partial,
    Whole { id: u32, ts: u32, data: &'a [u8] },
}

impl<'a> View for Record<'a> {
    type V = RecordView;

    open spec fn view(&self) -> RecordView {
        match *self {
            Record::Empty => RecordView::Empty,
            Record::Partial => RecordView::Partial,
            Record::Whole { id, ts, data } => RecordView::Whole { id, ts, data: data@ },
        }
    }
}

/// Reads the record that the bytes start with.
pub fn read_record(b: &[u8]) -> (r: Record<'_>)
    ensures
        r@ == first_record(b@),
        r matches Record::Whole { data, .. } ==> HEADER_LEN + data@.len() <= b@.len(),
{
    if b.len() < 4 {
        return Record::Empty;
    }
    if b.len() < HEADER_LEN {
        return Record::Partial;
    }
    let id: u32 = read_le32(b);
    let ts: u32 = read_le32(bytes_from(b, 4));
    let len: u32 = read_le32(bytes_from(b, 8));
    proof {
        assert(b@.take(4) =~= b@.subrange(0, 4));
        assert(b@.skip(4).take(4) =~= b@.subrange(4, 8));
        assert(b@.skip(8).take(4) =~= b@.subrange(8, 12));
    }
    if b.len() - HEADER_LEN < len as usize {
        return Record::Partial;
    }
    Record::Whole { id, ts, data: bytes_at(b, HEADER_LEN, len as usize) }
}

/// A record that was written is read back, whatever follows it.
pub proof fn law_record_read_back(id: u32, ts: u32, data: Seq<u8>, rest: Seq<u8>)
    requires
        data.len() <= u32::MAX,
    ensures
        first_record(record_bytes(id, ts, data) + rest) == (RecordView::Whole { id, ts, data }),
        (record_bytes(id, ts, data) + rest).skip((HEADER_LEN + data.len()) as int) == rest,
        record_bytes(id, ts, data).len() == HEADER_LEN + data.len(),
{
    wire::lemma_le_limits();
    wire::lemma_le_read_back(id as nat, 4);
    wire::lemma_le_read_back(ts as nat, 4);
    wire::lemma_le_read_back(data.len(), 4);
    let b = record_bytes(id, ts, data) + rest;
    assert(b.subrange(0, 4) =~= wire::le_bytes(id as nat, 4));
    assert(b.subrange(4, 8) =~= wire::le_bytes(ts as nat, 4));
    assert(b.subrange(8, 12) =~= wire::le_bytes(data.len(), 4));
    assert(b.subrange(12, (12 + data.len()) as int) =~= data);
    assert(b.skip((HEADER_LEN + data.len()) as int) =~= rest);
}

} // verus!
