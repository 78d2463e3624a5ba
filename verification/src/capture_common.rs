//! What goes from the kernel to the capture.
use vstd::prelude::*;

use crate::utils::parse::bytes_from;
use crate::utils::wire;
use crate::utils::wire::{push_bytes, push_le16, push_le32, push_le64, read_le16, read_le32, read_le64};

verus! {

/// How many bytes of a segment one event carries at most.
pub const CHUNK_SIZE: usize = 1480;

/// How many bytes an event takes.
pub const EVENT_SIZE: usize = 1520;

/// What to capture.
#[derive(Debug, Clone, Copy)]
pub struct Config {
    pub dst_ip: [u8; 16],
    pub is_v6: u8,
    pub dst_port: u16,
}

/// Bytes of a segment, and who sent them. Of the address the first four octets count
/// where it is not of version 6, and of the payload the first `chunk_len` bytes.
pub struct CaptureEvent {
    pub timestamp_ns: u64,
    pub src_ip: [u8; 16],
    pub is_v6: u8,
    pub src_port: u16,
    pub seq: u32,
    pub flags: u8,
    pub chunk_len: u16,
    pub payload: Vec<u8>,
}

/// Bytes of a segment, and who sent them.
#[verifier::ext_equal]
pub struct EventView {
    pub timestamp_ns: u64,
    pub src_ip: Seq<u8>,
    pub is_v6: u8,
    pub src_port: u16,
    pub seq: u32,
    pub flags: u8,
    pub chunk_len: u16,
    pub payload: Seq<u8>,
}

impl View for CaptureEvent {
    type V = EventView;

    open spec fn view(&self) -> EventView {
        EventView {
            timestamp_ns: self.timestamp_ns,
            src_ip: self.src_ip@,
            is_v6: self.is_v6,
            src_port: self.src_port,
            seq: self.seq,
            flags: self.flags,
            chunk_len: self.chunk_len,
            payload: self.payload@,
        }
    }
}

/// How an event lies in memory: its fields in order, each at a multiple of its size.
pub open spec fn event_bytes(e: EventView) -> Seq<u8> {
    wire::le_bytes(e.timestamp_ns as nat, 8) + e.src_ip + seq![e.is_v6, 0, 0, 0] + wire::le_bytes(
        e.src_port as nat,
        2,
    ) + seq![0u8, 0] + wire::le_bytes(e.seq as nat, 4) + seq![e.flags, 0] + wire::le_bytes(
        e.chunk_len as nat,
        2,
    ) + e.payload
}

/// The event that bytes start with.
pub open spec fn event_in(b: Seq<u8>) -> Option<EventView> {
    if b.len() < EVENT_SIZE {
        None
    } else {
        Some(
            EventView {
                timestamp_ns: wire::le(b.subrange(0, 8)) as u64,
                src_ip: b.subrange(8, 24),
                is_v6: b[24],
                src_port: wire::le(b.subrange(28, 30)) as u16,
                seq: wire::le(b.subrange(32, 36)) as u32,
                flags: b[36],
                chunk_len: wire::le(b.subrange(38, 40)) as u16,
                payload: b.subrange(40, 1520),
            },
        )
    }
}

/// Reads the event that bytes start with.
pub fn read_event(b: &[u8]) -> (r: Option<CaptureEvent>)
    ensures
        match r {
            Some(e) => event_in(b@) == Some(e@),
            None => event_in(b@) is None,
        },
{
    if b.len() < EVENT_SIZE {
        return None;
    }
    let mut payload: Vec<u8> = Vec::new();
    push_bytes(&mut payload, &b[40..1520]);
    let e = CaptureEvent {
        timestamp_ns: read_le64(b),
        src_ip: [
            b[8], b[9], b[10], b[11], b[12], b[13], b[14], b[15], b[16], b[17], b[18], b[19],
            b[20], b[21], b[22], b[23],
        ],
        is_v6: b[24],
        src_port: read_le16(bytes_from(b, 28)),
        seq: read_le32(bytes_from(b, 32)),
        flags: b[36],
        chunk_len: read_le16(bytes_from(b, 38)),
        payload,
    };
    proof {
        assert(b@.take(8) =~= b@.subrange(0, 8));
        assert(b@.skip(28).take(2) =~= b@.subrange(28, 30));
        assert(b@.skip(32).take(4) =~= b@.subrange(32, 36));
        assert(b@.skip(38).take(2) =~= b@.subrange(38, 40));
        assert(e.src_ip@ =~= b@.subrange(8, 24));
        assert(e.payload@ =~= b@.subrange(40, 1520));
    }
    Some(e)
}

/// Lays an event out as it lies in memory.
pub fn write_event(e: &CaptureEvent) -> (r: Vec<u8>)
    ensures
        r@ == event_bytes(e@),
{
    let mut out: Vec<u8> = Vec::new();
    push_le64(&mut out, e.timestamp_ns);
    push_bytes(&mut out, e.src_ip.as_slice());
    push_bytes(&mut out, [e.is_v6, 0, 0, 0].as_slice());
    push_le16(&mut out, e.src_port);
    push_bytes(&mut out, [0, 0].as_slice());
    push_le32(&mut out, e.seq);
    push_bytes(&mut out, [e.flags, 0].as_slice());
    push_le16(&mut out, e.chunk_len);
    push_bytes(&mut out, e.payload.as_slice());
    assert(out@ =~= event_bytes(e@));
    out
}

/// An event that was laid out is read back, whatever follows it.
pub proof fn law_event_read_back(e: EventView, more: Seq<u8>)
    requires
        e.src_ip.len() == 16,
        e.payload.len() == CHUNK_SIZE,
    ensures
        event_bytes(e).len() == EVENT_SIZE,
        event_in(event_bytes(e) + more) == Some(e),
{
    wire::lemma_le_limits();
    wire::lemma_le_read_back(e.timestamp_ns as nat, 8);
    wire::lemma_le_read_back(e.src_port as nat, 2);
    wire::lemma_le_read_back(e.seq as nat, 4);
    wire::lemma_le_read_back(e.chunk_len as nat, 2);
    let b = event_bytes(e) + more;
    assert(b.subrange(0, 8) =~= wire::le_bytes(e.timestamp_ns as nat, 8));
    assert(b.subrange(8, 24) =~= e.src_ip);
    assert(b.subrange(28, 30) =~= wire::le_bytes(e.src_port as nat, 2));
    assert(b.subrange(32, 36) =~= wire::le_bytes(e.seq as nat, 4));
    assert(b.subrange(38, 40) =~= wire::le_bytes(e.chunk_len as nat, 2));
    assert(b.subrange(40, 1520) =~= e.payload);
}

} // verus!
