//! What holds of the capture of segments: which frames have one, and what is said of it. The
//! places of the fields are written out here.
use vstd::prelude::*;

use crate::capture_common;
use crate::capture_common::EventView;
use crate::capture_ebpf::emit;
use crate::capture_ebpf::tc_classifier;
use crate::capture_ebpf::tc_classifier::{OutOfBounds, SegmentView};
use crate::utils::laws;
use crate::utils::wire;

verus! {

/// The number that stands in two bytes, most significant first.
pub open spec fn number_16(d: Seq<u8>, at: int) -> int {
    d[at] * 0x100 + d[at + 1]
}

/// The number that stands in four bytes, most significant first.
pub open spec fn number_32(d: Seq<u8>, at: int) -> int {
    d[at] * 0x100_0000 + d[at + 1] * 0x1_0000 + d[at + 2] * 0x100 + d[at + 3]
}

/// The TCP header at `t` in a frame, of a segment with `len` bytes from there on: it is
/// captured if it is to the port and its own length, in the upper four bits of its thirteenth
/// byte, is sound. What is captured is its port of origin, its number, its flags, and where its
/// bytes lie.
pub open spec fn captured_tcp(
    d: Seq<u8>,
    t: int,
    len: int,
    is_v6: u8,
    src_ip: Seq<u8>,
    port: u16,
) -> Option<SegmentView> {
    let own = 4 * (d[t + 12] / 16);
    if number_16(d, t + 2) == port && own >= 20 && len >= own {
        Some(
            SegmentView {
                src_ip,
                is_v6,
                src_port: number_16(d, t),
                seq: number_32(d, t + 4),
                flags: d[t + 13],
                payload_off: t + own,
                payload_len: len - own,
            },
        )
    } else {
        None
    }
}

/// The segment at a place.
proof fn lemma_segment_of(
    d: Seq<u8>,
    ip: tc_classifier::IpInfoView,
    port: u16,
)
    requires
        0 <= ip.tcp_hdr_off,
        ip.tcp_hdr_off + 14 <= d.len(),
    ensures
        tc_classifier::segment_of(
            ip,
            d.subrange(ip.tcp_hdr_off, ip.tcp_hdr_off + 14),
            port,
        ) == captured_tcp(d, ip.tcp_hdr_off, ip.ip_payload_len, ip.is_v6, ip.src_ip, port),
{
    let t = ip.tcp_hdr_off;
    let tcp = d.subrange(t, t + 14);
    let (a, b) = (tcp.skip(2), tcp.skip(4));
    assert(a[0] == d[t + 2] && a[1] == d[t + 3]);
    assert(b[0] == d[t + 4] && b[1] == d[t + 5] && b[2] == d[t + 6] && b[3] == d[t + 7]);
    assert(tcp[0] == d[t] && tcp[1] == d[t + 1] && tcp[12] == d[t + 12] && tcp[13] == d[t + 13]);
}

/// A frame of version 4 (0x0800 behind its addresses) is captured if it carries TCP (six), its
/// header is not shorter than twenty bytes and not longer than the packet, and the segment in
/// it is to the port. The sender is padded with zeros.
pub proof fn law_v4_frame(d: Seq<u8>, port: u16)
    requires
        d.len() >= 34,
        d[12] == 0x08,
        d[13] == 0x00,
    ensures
        ({
            let own = 4 * (d[14] % 16);
            let total = number_16(d, 16);
            let r = tc_classifier::segment_in(d, port);
            &&& d[23] != 6 || own < 20 || total < own ==> r == Ok::<
                Option<SegmentView>,
                OutOfBounds,
            >(None)
            &&& d[23] == 6 && own >= 20 && total >= own && d.len() < 14 + own + 14 ==> r is Err
            &&& d[23] == 6 && own >= 20 && total >= own && d.len() >= 14 + own + 14 ==> r == Ok::<
                Option<SegmentView>,
                OutOfBounds,
            >(
                captured_tcp(
                    d,
                    14 + own,
                    total - own,
                    0,
                    seq![d[26], d[27], d[28], d[29], 0, 0, 0, 0, 0, 0, 0, 0, 0, 0, 0, 0],
                    port,
                ),
            )
        }),
{
    let mark = d.subrange(12, 14);
    assert(mark[0] == d[12] && mark[1] == d[13]);
    let total = d.subrange(16, 18);
    assert(total[0] == d[16] && total[1] == d[17]);
    let own = 4 * (d[14] % 16);
    assert(d.subrange(26, 30) + seq![0u8, 0, 0, 0, 0, 0, 0, 0, 0, 0, 0, 0] =~= seq![
        d[26],
        d[27],
        d[28],
        d[29],
        0,
        0,
        0,
        0,
        0,
        0,
        0,
        0,
        0,
        0,
        0,
        0,
    ]);
    if let Some(ip) = tc_classifier::v4_info(d) {
        if ip.tcp_hdr_off + 14 <= d.len() {
            lemma_segment_of(d, ip, port);
        }
    }
}

/// A frame of version 6 (0x86DD behind its addresses) is captured if it carries TCP (six) and
/// the segment in it is to the port.
pub proof fn law_v6_frame(d: Seq<u8>, port: u16)
    requires
        d.len() >= 54,
        d[12] == 0x86,
        d[13] == 0xDD,
    ensures
        ({
            let r = tc_classifier::segment_in(d, port);
            &&& d[20] != 6 ==> r == Ok::<Option<SegmentView>, OutOfBounds>(None)
            &&& d[20] == 6 && d.len() < 68 ==> r is Err
            &&& d[20] == 6 && d.len() >= 68 ==> r == Ok::<Option<SegmentView>, OutOfBounds>(
                captured_tcp(d, 54, number_16(d, 18), 1, d.subrange(22, 38), port),
            )
        }),
{
    let mark = d.subrange(12, 14);
    assert(mark[0] == d[12] && mark[1] == d[13]);
    let total = d.subrange(18, 20);
    assert(total[0] == d[18] && total[1] == d[19]);
    if let Some(ip) = tc_classifier::v6_info(d) {
        if ip.tcp_hdr_off + 14 <= d.len() {
            lemma_segment_of(d, ip, port);
        }
    }
}

/// Other frames are not captured, and neither are those whose headers are not all there.
pub proof fn law_other_frames(d: Seq<u8>, port: u16)
    ensures
        d.len() < 14 ==> tc_classifier::segment_in(d, port) is Err,
        d.len() >= 14 && d[12] == 0x08 && d[13] == 0x00 && d.len() < 34
            ==> tc_classifier::segment_in(d, port) is Err,
        d.len() >= 14 && d[12] == 0x86 && d[13] == 0xDD && d.len() < 54
            ==> tc_classifier::segment_in(d, port) is Err,
        d.len() >= 14 && !(d[12] == 0x08 && d[13] == 0x00) && !(d[12] == 0x86 && d[13] == 0xDD)
            ==> tc_classifier::segment_in(d, port) == Ok::<Option<SegmentView>, OutOfBounds>(None),
{
    if d.len() >= 14 {
        let mark = d.subrange(12, 14);
        assert(mark[0] == d[12] && mark[1] == d[13]);
    }
}

/// A segment goes in pieces of 1480 bytes, the last of which may be shorter: as many as it
/// takes for all its bytes, and one where it has none. Each has the number of its first byte.
pub proof fn law_piece(seq: u32, payload_len: nat, i: nat)
    requires
        payload_len <= usize::MAX,
    ensures
        payload_len == 0 ==> emit::pieces_needed(payload_len) == 1,
        payload_len > 0 ==> {
            &&& emit::pieces_needed(payload_len) * 1480 >= payload_len
            &&& (emit::pieces_needed(payload_len) - 1) * 1480 < payload_len
        },
        i * 1480 >= payload_len ==> emit::chunk_at(seq, payload_len, i) is None,
        i * 1480 < payload_len ==> {
            let c = emit::chunk_at(seq, payload_len, i)->0;
            &&& emit::chunk_at(seq, payload_len, i) is Some
            &&& c.off == i * 1480
            &&& c.len == vstd::math::min(1480, payload_len - i * 1480)
            &&& c.seq == (seq + i * 1480) % 0x1_0000_0000
        },
{
    reveal(crate::capture::held::advanced);
}

/// How an event lies in memory: its time in eight bytes, the sixteen octets of the sender, the
/// version, the port, the number of the first byte, the flags and the number of bytes, and the
/// payload, with gaps so that each number lies at a multiple of its size.
pub proof fn law_event_layout(e: EventView)
    requires
        e.src_ip.len() == 16,
        e.payload.len() == 1480,
    ensures
        ({
            let b = capture_common::event_bytes(e);
            &&& b.len() == 1520
            &&& wire::le(b.subrange(0, 8)) == e.timestamp_ns
            &&& b.subrange(8, 24) == e.src_ip
            &&& b[24] == e.is_v6
            &&& b.subrange(28, 30) == laws::low_first_16(e.src_port)
            &&& b.subrange(32, 36) == laws::low_first(e.seq)
            &&& b[36] == e.flags
            &&& b.subrange(38, 40) == laws::low_first_16(e.chunk_len)
            &&& b.subrange(40, 1520) == e.payload
        }),
{
    wire::lemma_le_limits();
    wire::lemma_le_read_back(e.timestamp_ns as nat, 8);
    laws::law_le_bytes_16(e.src_port);
    laws::law_le_bytes(e.seq);
    laws::law_le_bytes_16(e.chunk_len);
    let b = capture_common::event_bytes(e);
    assert(b.subrange(0, 8) =~= wire::le_bytes(e.timestamp_ns as nat, 8));
    assert(b.subrange(8, 24) =~= e.src_ip);
    assert(b.subrange(28, 30) =~= laws::low_first_16(e.src_port));
    assert(b.subrange(32, 36) =~= laws::low_first(e.seq));
    assert(b.subrange(38, 40) =~= laws::low_first_16(e.chunk_len));
    assert(b.subrange(40, 1520) =~= e.payload);
}

} // verus!
