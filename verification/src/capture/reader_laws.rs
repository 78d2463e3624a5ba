//! What holds of reading captures: which packets and records count, whose they are, and
//! when they were.
use vstd::prelude::*;

use crate::capture::acap::{AcapOutcome, AcapView};
use crate::capture::ebpf;
use crate::capture::ebpf::CaptureView;
use crate::capture::frame_buffer::FrameBufferView;
use crate::capture::held;
use crate::capture::packet;
use crate::capture::packet::{CapturedBlock, PacketView, TcpInfoView, TsPacketView};
use crate::capture::pcap;
use crate::capture::pcap::{PcapClientView, PcapOutcome, PcapView};
use crate::capture::reassembler::ReassemblerView;
use crate::capture::reassembler_laws;
use crate::capture::record;
use crate::capture::record::RecordView;
use crate::capture::session_laws;
use crate::capture::tcp_handler::TcpHandlerView;
use crate::capture::zcap;
use crate::capture::zcap::{ZcapError, ZcapOutcome, ZcapView};
use crate::capture_common::EventView;
use crate::parser;
use crate::utils::addr::{Addr, Ip};
use crate::utils::laws;
use crate::utils::wire;

verus! {

/// The numbers of the bytes of a stream go up by one for each, and start again after the
/// largest of 32 bits.
pub proof fn law_sequence_numbers(seq: u32, len: nat, to: u32)
    ensures
        held::advanced(seq, len) == (seq + len) % 0x1_0000_0000,
        held::ahead(seq, to) == (to - seq) % 0x1_0000_0000,
        held::advanced(seq, held::ahead(seq, to) as nat) == to,
{
    reveal(held::advanced);
    reveal(held::ahead);
}

/// A segment with bytes is put in order as by a reassembler: the bytes that come next go
/// behind those that the frame buffer holds, one that brings some is counted, and so is one
/// that comes too early. (One that lies exactly half of the numbers back is left out.)
pub proof fn law_segment_processed(v: TcpHandlerView, seq: u32, payload: Seq<u8>)
    requires
        payload.len() > 0,
        held::ahead(seq, held::expected(v.next_seq, seq)) != 0x8000_0000,
        v.packet_count < usize::MAX,
        v.reorder_count < usize::MAX,
    ensures
        ({
            let before = ReassemblerView { next_seq: v.next_seq, held: v.reorder };
            let (after, bytes, in_order) = before.fed(seq, false, payload);
            let (w, fed) = v.processed(seq, false, payload);
            &&& fed == in_order
            &&& w.buf == (FrameBufferView { data: v.buf.data + bytes, ..v.buf })
            &&& w.next_seq == after.next_seq
            &&& w.reorder == after.held
            &&& w.packet_count == v.packet_count + if fed {
                1int
            } else {
                0
            }
            &&& w.reorder_count == v.reorder_count + if v.next_seq matches Some(n) && (n - seq)
                % 0x1_0000_0000 > 0x8000_0000 {
                1int
            } else {
                0
            }
        }),
{
    let before = ReassemblerView { next_seq: v.next_seq, held: v.reorder };
    reassembler_laws::law_orders_alike(before, seq, payload);
    reveal(held::ahead);
}

/// A segment without bytes changes nothing; one that opens the connection (`syn`) makes the
/// number after its own the next one, where none is known.
pub proof fn law_empty_segment(v: TcpHandlerView, seq: u32)
    ensures
        v.processed(seq, false, Seq::empty()).0.next_seq == v.next_seq,
        v.processed(seq, false, Seq::empty()).0.reorder == v.reorder,
        v.processed(seq, false, Seq::empty()).0.buf.data == v.buf.data,
        !v.processed(seq, false, Seq::empty()).1,
        !v.processed(seq, true, Seq::empty()).1,
        v.processed(seq, true, Seq::empty()).0.buf.data == v.buf.data,
        v.processed(seq, true, Seq::empty()).0.reorder == v.reorder,
        v.next_seq is Some ==> v.processed(seq, true, Seq::empty()).0.next_seq == v.next_seq,
        v.next_seq is None ==> {
            let n = v.processed(seq, true, Seq::empty()).0.next_seq;
            n is Some && n->0 == (seq + 1) % 0x1_0000_0000
        },
{
    reveal(held::advanced);
    assert(v.buf.data + Seq::<u8>::empty() =~= v.buf.data);
}

/// The bytes of a segment that opens the connection have the numbers after its own.
pub proof fn law_opening_segment(v: TcpHandlerView, seq: u32, payload: Seq<u8>)
    ensures
        v.next_seq is Some ==> v.processed(seq, true, payload).0.next_seq == v.processed(
            ((seq + 1) % 0x1_0000_0000) as u32,
            false,
            payload,
        ).0.next_seq,
        v.next_seq is Some ==> v.processed(seq, true, payload).0.buf.data == v.processed(
            ((seq + 1) % 0x1_0000_0000) as u32,
            false,
            payload,
        ).0.buf.data,
        v.next_seq is None && payload.len() > 0 && v.reorder == Map::<u32, Seq<u8>>::empty()
            ==> v.processed(seq, true, payload).0.buf.data == v.buf.data + payload,
{
    reveal(held::advanced);
    reveal(held::ahead);
    assert(payload.skip(0) =~= payload);
    assert(payload + Seq::<u8>::empty() =~= payload);
}

/// The frames of a connection are those that its bytes complete, without those of its
/// start.
pub proof fn law_segments_cut(v: TcpHandlerView, ts: u64, k: int)
    requires
        session_laws::opens_with(v.buf.cut(ts), k),
    ensures
        v.cut(ts) == (TcpHandlerView {
            buf: FrameBufferView {
                frames: v.buf.cut(ts).frames.skip(k),
                ..v.buf.cut(ts)
            },
            ..v
        }),
{
    session_laws::lemma_opens_with(v.buf.cut(ts), k);
}

/// The sender of a segment is the address that its packet comes from, with the port that
/// the segment comes from; and a segment is to a port if that is its destination.
pub proof fn law_sender(p: PacketView, ip: Ip, tcp: TcpInfoView, port: u16)
    ensures
        packet::sent(PacketView { ip: Some(ip), tcp: Some(tcp) }) == Some(
            (Addr { ip, port: tcp.source_port }, tcp),
        ),
        p.ip is None || p.tcp is None ==> packet::sent(p) is None && packet::sent_to(p, port) is None,
        tcp.destination_port == port ==> packet::sent_to(
            PacketView { ip: Some(ip), tcp: Some(tcp) },
            port,
        ) == Some((Addr { ip, port: tcp.source_port }, tcp)),
        tcp.destination_port != port ==> packet::sent_to(
            PacketView { ip: Some(ip), tcp: Some(tcp) },
            port,
        ) is None,
{
}

/// Bytes are read as an Internet packet behind twenty bytes, where they start with a mark of
/// that protocol and go on behind those, and it is one; else as what they are first of: an
/// Ethernet frame, a cooked capture, an Internet packet.
pub proof fn law_packet_readings(b: Seq<u8>)
    ensures
        ({
            let marked = b.len() > 20 && (b[0] == 0x08 && b[1] == 0x00 || b[0] == 0x86 && b[1]
                == 0xDD);
            let behind = packet::ip_packet(b.skip(20));
            &&& marked && behind is Some ==> packet::packet_in(b) == behind
            &&& !marked || behind is None ==> {
                &&& packet::ethernet_packet(b) is Some ==> packet::packet_in(b)
                    == packet::ethernet_packet(b)
                &&& packet::ethernet_packet(b) is None && packet::linux_sll_packet(b) is Some
                    ==> packet::packet_in(b) == packet::linux_sll_packet(b)
                &&& packet::ethernet_packet(b) is None && packet::linux_sll_packet(b) is None
                    ==> packet::packet_in(b) == packet::ip_packet(b)
            }
        }),
{
}

/// The time of a block: of the first format in seconds and microseconds, of the second in two
/// halves, and zero where it has none.
pub proof fn law_block_times(hi: u32, lo: u32, data: &[u8])
    ensures
        (CapturedBlock::Legacy { ts_sec: hi, ts_usec: lo, data }).packet() == Some(
            (data@, (1_000_000 * hi + lo) as u64),
        ),
        (CapturedBlock::Enhanced { ts_high: hi, ts_low: lo, data }).packet() == Some(
            (data@, (4_294_967_296 * hi + lo) as u64),
        ),
        (CapturedBlock::Simple { data }).packet() == Some((data@, 0u64)),
        CapturedBlock::Other.packet() is None,
{
}

/// A block that holds a segment to the port gives that segment, with its sender and the time
/// of the block; one without bytes, or without a segment to the port, gives none. Whichever
/// port it goes to does not matter to a reader that takes all.
pub proof fn law_segment_in_block(block: CapturedBlock<'_>, port: u16)
    ensures
        block.packet() is None ==> pcap::segment_in(block, port) is None && parser::pcap::segment_in(
            block,
        ) is None,
        block.packet() matches Some((data, ts)) ==> {
            let p = packet::packet_in(data);
            &&& data.len() == 0 || p is None ==> pcap::segment_in(block, port) is None
                && parser::pcap::segment_in(block) is None
            &&& data.len() > 0 && p is Some ==> {
                &&& match packet::sent(p->0) {
                    Some((addr, tcp)) => {
                        let seg = TsPacketView {
                            addr,
                            ts,
                            destination_port: tcp.destination_port,
                            seq: tcp.sequence_number,
                            syn: tcp.syn,
                            payload: tcp.payload,
                        };
                        &&& parser::pcap::segment_in(block) == Some(seg)
                        &&& tcp.destination_port == port ==> pcap::segment_in(block, port)
                            == Some(seg)
                        &&& tcp.destination_port != port ==> pcap::segment_in(block, port) is None
                    },
                    None => pcap::segment_in(block, port) is None && parser::pcap::segment_in(
                        block,
                    ) is None,
                }
            }
        },
{
}

/// The time of a segment since the first one that has one.
pub open spec fn since_first(v: PcapView, ts: u64) -> int {
    if v.first_ts == 0 || ts <= v.first_ts {
        0
    } else {
        ts - v.first_ts
    }
}

/// A block without a segment is counted as a failure; a segment is counted, and the first
/// time is remembered. Neither changes what is known of a client, where the segment lies
/// before the time to read, or behind it; behind it, reading ends.
pub proof fn law_pcap_time(v: PcapView, p: TsPacketView)
    requires
        v.packet_count < usize::MAX,
        v.fail_count < usize::MAX,
    ensures
        v.after(None) == (
            PcapView { fail_count: (v.fail_count + 1) as usize, ..v },
            PcapOutcome::Continue,
        ),
        ({
            let (w, o) = v.after(Some(p));
            &&& w.packet_count == v.packet_count + 1
            &&& w.fail_count == v.fail_count
            &&& w.first_ts == if v.first_ts == 0 {
                p.ts
            } else {
                v.first_ts
            }
            &&& w.port == v.port && w.ts_offset == v.ts_offset && w.max_duration == v.max_duration
            &&& w.consume == v.consume && w.refill == v.refill && w.bytes_read == v.bytes_read
            &&& since_first(v, p.ts) < v.ts_offset ==> o == PcapOutcome::Continue && w.clients
                == v.clients && w.next_id == v.next_id
            &&& since_first(v, p.ts) > v.ts_offset + v.max_duration ==> o == PcapOutcome::Eof
                && w.clients == v.clients && w.next_id == v.next_id
        }),
{
}

/// A segment in the time to read goes to the client at its address, which gets the next
/// number where it is new, and to no other. The bytes that come next are handed out with the
/// number and the address of the client and the time since the start of the time to read; the
/// first ones since a connection was opened are marked.
pub proof fn law_pcap_bytes(v: PcapView, p: TsPacketView, other: Addr)
    requires
        v.next_id < u32::MAX,
        v.ts_offset <= since_first(v, p.ts) <= v.ts_offset + v.max_duration,
    ensures
        ({
            let known = v.clients.contains_key(p.addr);
            let c = if known {
                v.clients[p.addr]
            } else {
                PcapClientView {
                    id: v.next_id,
                    re: ReassemblerView { next_seq: None, held: Map::empty() },
                    started: false,
                }
            };
            let (re, bytes, in_order) = c.re.fed(p.seq, p.syn, p.payload);
            let (w, o) = v.after(Some(p));
            &&& w.clients.contains_key(p.addr)
            &&& w.clients[p.addr].id == c.id
            &&& w.clients[p.addr].re == re
            &&& w.clients[p.addr].started == ((c.started || p.syn) && !in_order)
            &&& other != p.addr ==> w.clients.contains_key(other) == v.clients.contains_key(other)
            &&& other != p.addr && v.clients.contains_key(other) ==> w.clients[other]
                == v.clients[other]
            &&& w.next_id == if known {
                v.next_id as int
            } else {
                v.next_id + 1
            }
            &&& in_order ==> o == (PcapOutcome::Data {
                id: c.id,
                addr: p.addr,
                ts: (since_first(v, p.ts) - v.ts_offset) as u64,
                connect: c.started || p.syn,
                buf: bytes,
            })
            &&& !in_order ==> o == PcapOutcome::Continue
        }),
{
}

/// A block that was read is dropped, and its bytes are counted.
pub proof fn law_pcap_consumed(v: PcapView, n: usize)
    requires
        v.consume + n <= usize::MAX,
        v.bytes_read + n <= usize::MAX,
    ensures
        v.consumed(n).consume == v.consume + n,
        v.consumed(n).bytes_read == v.bytes_read + n,
        v.consumed(n) == (PcapView {
            consume: v.consumed(n).consume,
            bytes_read: v.consumed(n).bytes_read,
            ..v
        }),
        v.roomy(n) <==> v.packet_count < usize::MAX && v.fail_count < usize::MAX && v.next_id
            < u32::MAX,
{
}

/// How a record is kept: the number of its client, its time and the number of its bytes, each
/// in four bytes with the least significant first, and its bytes.
pub proof fn law_record_layout(id: u32, ts: u32, data: Seq<u8>)
    requires
        data.len() <= u32::MAX,
    ensures
        record::record_bytes(id, ts, data) == laws::low_first(id) + laws::low_first(ts)
            + laws::low_first(data.len() as u32) + data,
{
    laws::law_le_bytes(id);
    laws::law_le_bytes(ts);
    laws::law_le_bytes(data.len() as u32);
}

/// A record is read once all of it came; without even the number of a client there is none.
pub proof fn law_record_parts(b: Seq<u8>)
    ensures
        b.len() < 4 ==> record::first_record(b) is Empty,
        4 <= b.len() < 12 ==> record::first_record(b) is Partial,
        b.len() >= 12 ==> {
            let len = laws::low_first_number(b, 8);
            &&& b.len() < 12 + len ==> record::first_record(b) is Partial
            &&& b.len() >= 12 + len ==> record::first_record(b) == (RecordView::Whole {
                id: laws::low_first_number(b, 0) as u32,
                ts: laws::low_first_number(b, 4) as u32,
                data: b.subrange(12, 12 + len),
            })
        },
{
    if b.len() >= 12 {
        laws::law_le_number(b, 0);
        laws::law_le_number(b, 4);
        laws::law_le_number(b, 8);
    }
}

/// The time of a record in the whole capture: that of the chunk so far, from its first time
/// on that is not zero, behind all chunks before it.
pub open spec fn chunk_time(v: AcapView, ts: u64) -> int {
    v.acc_delta + if v.first_chunk_ts == 0 || ts <= v.first_chunk_ts {
        0
    } else {
        ts - v.first_chunk_ts
    }
}

/// A record in the time to read is handed out, with its client, its bytes, and its time since
/// the start of that time; one without bytes is the start of a connection. One that lies
/// before it is passed over, and one behind it ends reading.
pub proof fn law_acap_record(
    v: AcapView,
    id: u32,
    ts: u32,
    data: Seq<u8>,
    more: Seq<u8>,
    at_end: bool,
)
    requires
        data.len() <= u32::MAX,
        v.rest == record::record_bytes(id, ts, data) + more,
    ensures
        ({
            let t = chunk_time(v, ts as u64);
            let past = AcapView {
                first_chunk_ts: if v.first_chunk_ts == 0 {
                    ts as u64
                } else {
                    v.first_chunk_ts
                },
                curr_delta: (t - v.acc_delta) as u64,
                rest: more,
                ..v
            };
            &&& t < v.ts_offset ==> v.next(at_end) == past.next(at_end)
            &&& t > v.ts_offset + v.max_duration ==> v.next(at_end) == (past, AcapOutcome::Eof)
            &&& v.ts_offset <= t <= v.ts_offset + v.max_duration ==> v.next(at_end) == (
                past,
                AcapOutcome::Data {
                    id,
                    ts: (t - v.ts_offset) as u64,
                    connect: data.len() == 0,
                    buf: data,
                },
            )
        }),
{
    record::law_record_read_back(id, ts, data, more);
    let past = v.skipped(data.len()).timed(ts as u64).0;
    assert(past.rest =~= more);
}

/// Where no record is complete, more bytes are asked for; at the end of a chunk the next one
/// is, unless it ends within a record.
pub proof fn law_acap_waits(v: AcapView, at_end: bool)
    requires
        v.rest.len() < 12 || v.rest.len() < 12 + laws::low_first_number(v.rest, 8),
    ensures
        !at_end ==> v.next(at_end) == (v, AcapOutcome::NeedMore),
        at_end && v.rest.len() < 4 ==> v.next(at_end) == (v, AcapOutcome::NextChunk),
        at_end && v.rest.len() >= 4 ==> v.next(at_end) == (v, AcapOutcome::Truncated),
{
    law_record_parts(v.rest);
}

/// The next chunk has the next number, and its times follow those of all chunks before it.
pub proof fn law_acap_rolled(v: AcapView)
    requires
        v.chunk_idx < u32::MAX,
        v.acc_delta + v.curr_delta <= u64::MAX,
    ensures
        v.rolled().chunk_idx == v.chunk_idx + 1,
        v.rolled().acc_delta == v.acc_delta + v.curr_delta,
        v.rolled().curr_delta == 0,
        v.rolled().first_chunk_ts == 0,
        v.rolled().rest.len() == 0,
        v.rolled().ts_offset == v.ts_offset,
        v.rolled().max_duration == v.max_duration,
{
}

/// How an address is kept: a four or a six, by its version, its octets in the order in which
/// they are written, and the port in two bytes with the least significant first.
pub proof fn law_address_layout(n: u32, n6: u128, port: u16)
    ensures
        zcap::addr_bytes(Addr { ip: Ip::V4(n), port }) == seq![4u8] + laws::high_first(n)
            + laws::low_first_16(port),
        ({
            let b = zcap::addr_bytes(Addr { ip: Ip::V6(n6), port });
            &&& b.len() == 19
            &&& b[0] == 6
            &&& wire::be(b.subrange(1, 17)) == n6
            &&& b.skip(17) == laws::low_first_16(port)
        }),
{
    laws::law_be_bytes(n);
    laws::law_le_bytes_16(port);
    wire::lemma_be_limits();
    wire::lemma_be_read_back(n6 as nat, 16);
    let b = zcap::addr_bytes(Addr { ip: Ip::V6(n6), port });
    assert(b.subrange(1, 17) =~= wire::be_bytes(n6 as nat, 16));
    assert(b.skip(17) =~= laws::low_first_16(port));
    assert(zcap::addr_bytes(Addr { ip: Ip::V4(n), port }) =~= seq![4u8] + laws::high_first(n)
        + laws::low_first_16(port));
}

/// The addresses stand in front of the last four bytes of a file, which say how many bytes
/// they take; a file that is too short for those, or for the addresses, is refused.
pub proof fn law_map_place(file_len: int, n: nat)
    ensures
        zcap::map_place(file_len, None) == Err::<(int, int), ZcapError>(ZcapError::TooSmall),
        file_len < n + 4 ==> zcap::map_place(file_len, Some(n)) == Err::<(int, int), ZcapError>(
            ZcapError::BadLength,
        ),
        file_len >= n + 4 ==> zcap::map_place(file_len, Some(n)) == Ok::<(int, int), ZcapError>(
            (file_len - n - 4, n as int),
        ),
{
}

/// A record of a client with an address is handed out with it, with its bytes, and with its
/// time since the first one that is not zero; one of a client without is refused. Where no
/// record is complete, more bytes are asked for, or reading ends.
pub proof fn law_zcap_record(
    v: ZcapView,
    id: u32,
    ts: u32,
    data: Seq<u8>,
    more: Seq<u8>,
    at_end: bool,
)
    requires
        data.len() <= u32::MAX,
        v.rest == record::record_bytes(id, ts, data) + more,
    ensures
        ({
            let (w, o) = v.next(at_end);
            &&& w.addrs == v.addrs
            &&& w.rest == more
            &&& w.first_ts == if v.first_ts == 0 {
                ts as u64
            } else {
                v.first_ts
            }
            &&& id < v.addrs.len() ==> o == (ZcapOutcome::Data {
                id,
                addr: v.addrs[id as int],
                ts: if v.first_ts == 0 || ts <= v.first_ts {
                    0
                } else {
                    (ts - v.first_ts) as u64
                },
                data,
            })
            &&& id >= v.addrs.len() ==> o == ZcapOutcome::UnknownId(id)
        }),
{
    record::law_record_read_back(id, ts, data, more);
}

/// Where no record is complete, more bytes are asked for, or reading ends.
pub proof fn law_zcap_waits(v: ZcapView, at_end: bool)
    requires
        v.rest.len() < 12 || v.rest.len() < 12 + laws::low_first_number(v.rest, 8),
    ensures
        at_end ==> v.next(at_end) == (v, ZcapOutcome::Eof),
        !at_end ==> v.next(at_end) == (v, ZcapOutcome::NeedMore),
{
    law_record_parts(v.rest);
}

/// A record without bytes starts a connection, where none was known of; any other adds its
/// bytes.
pub proof fn law_zcap_filled(b: FrameBufferView, ts: u64, data: Seq<u8>)
    ensures
        data.len() == 0 ==> zcap::filled(b, ts, data) == b.connected(ts),
        data.len() > 0 ==> zcap::filled(b, ts, data) == (FrameBufferView {
            data: b.data + data,
            ..b
        }),
{
}

/// Clients are numbered in the order in which they are met, each once.
pub proof fn law_met(addrs: Seq<Addr>, addr: Addr)
    ensures
        addrs.contains(addr) ==> zcap::met(addrs, addr) == addrs,
        !addrs.contains(addr) ==> zcap::met(addrs, addr) == addrs.push(addr),
{
}

/// Addresses are told apart by their version, octets and port.
pub proof fn law_keys_differ(a: Addr, b: Addr)
    ensures
        ebpf::key_of(a) == ebpf::key_of(b) <==> a == b,
{
}

/// What an event of the kernel says: it opens a connection where the second bit of its flags
/// is set, and it was so many microseconds after the start of the capture; of its payload as
/// many bytes count as it says, 1480 at most.
pub proof fn law_event(e: EventView, baseline_ns: u64)
    requires
        e.payload.len() >= 1480,
        e.src_ip.len() == 16,
    ensures
        ebpf::opens(e) <==> e.flags % 4 >= 2,
        e.timestamp_ns <= baseline_ns ==> ebpf::event_time(e, baseline_ns) == 0,
        e.timestamp_ns >= baseline_ns && e.timestamp_ns - baseline_ns < 4_294_967_296_000
            ==> ebpf::event_time(e, baseline_ns) == (e.timestamp_ns - baseline_ns) / 1000,
        e.chunk_len <= 1480 ==> ebpf::chunk(e) == e.payload.take(e.chunk_len as int),
        e.chunk_len > 1480 ==> ebpf::chunk(e) == e.payload.take(1480),
        ebpf::sender(e).port == e.src_port,
        e.is_v6 == 0 ==> ebpf::sender(e).ip == Ip::V4(
            (e.src_ip[0] * 0x100_0000 + e.src_ip[1] * 0x1_0000 + e.src_ip[2] * 0x100 + e.src_ip[3]) as u32,
        ),
        e.is_v6 != 0 ==> ebpf::sender(e).ip is V6,
{
    laws::law_be_number(e.src_ip, 0);
}

/// An event goes to the client at the address of its sender, which gets the next number where
/// it is new, and to no other; the bytes that come next there are recorded, with the number
/// of the client and the time of the event.
pub proof fn law_event_recorded(v: CaptureView, e: EventView, other: Addr)
    requires
        v.addrs.no_duplicates(),
        v.streams.len() == v.addrs.len(),
        v.addrs.len() < u32::MAX,
    ensures
        ({
            let addr = ebpf::sender(e);
            let known = v.addrs.contains(addr);
            let stream = if known {
                v.streams[v.addrs.index_of(addr)]
            } else {
                ReassemblerView { next_seq: None, held: Map::empty() }
            };
            let (re, bytes, _) = stream.fed(e.seq, ebpf::opens(e), ebpf::chunk(e));
            let (w, plan) = v.after(e);
            &&& w.baseline_ns == v.baseline_ns
            &&& w.total_recv == v.total_recv + ebpf::chunk(e).len()
            &&& w.stream(addr) == re
            &&& other != addr ==> w.stream(other) == v.stream(other)
            &&& plan.addr == addr
            &&& plan.is_new == !known
            &&& plan.id == if known {
                v.addrs.index_of(addr)
            } else {
                v.addrs.len() as int
            }
            &&& w.addrs[plan.id as int] == addr
            &&& plan.ts == ebpf::event_time(e, v.baseline_ns)
            &&& plan.start == ebpf::opens(e)
            &&& plan.data == bytes
        }),
{
    let addr = ebpf::sender(e);
    let (w, plan) = v.after(e);
    let addrs = w.addrs;
    if v.addrs.contains(addr) {
        assert(addrs == v.addrs);
        if v.addrs.contains(other) {
            assert(v.addrs[v.addrs.index_of(other)] == other);
        }
    } else {
        assert(addrs == v.addrs.push(addr));
        assert(addrs[v.addrs.len() as int] == addr);
        assert(addrs.contains(addr));
        let i = addrs.index_of(addr);
        if i < v.addrs.len() {
            assert(v.addrs[i] == addr);
        }
        if v.addrs.contains(other) {
            let j = v.addrs.index_of(other);
            assert(addrs[j] == other);
            assert(addrs.contains(other));
            let k = addrs.index_of(other);
            assert(k < v.addrs.len() && v.addrs[k] == other) by {
                if k == v.addrs.len() {
                    assert(other == addr);
                }
            }
        } else if other != addr && addrs.contains(other) {
            let k = addrs.index_of(other);
            if k < v.addrs.len() {
                assert(v.addrs[k] == other);
            }
        }
    }
}

} // verus!
