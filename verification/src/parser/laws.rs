//! What holds of one direction of a connection: in which order its bytes are read, and where
//! its frames lie. The type bytes are written out here.
use vstd::prelude::*;

use crate::capture::held;
use crate::capture::packet::TsPacketView;
use crate::capture::reassembler::ReassemblerView;
use crate::capture::reassembler_laws;
use crate::capture::session_laws;
use crate::parser::pq_stream;
use crate::parser::pq_stream::{Head, PqStreamView};

verus! {

/// The type bytes of the frames of a server: `R`, `K`, `Z`, `C`, `S`, `1`, `2`, `3`, `n`, `s`,
/// `I`, `T`, `t`, `D`, `E`, `A` and `N`.
pub open spec fn is_server_type(tag: u8) -> bool {
    ||| tag == 0x52
    ||| tag == 0x4B
    ||| tag == 0x5A
    ||| tag == 0x43
    ||| tag == 0x53
    ||| tag == 0x31
    ||| tag == 0x32
    ||| tag == 0x33
    ||| tag == 0x6E
    ||| tag == 0x73
    ||| tag == 0x49
    ||| tag == 0x54
    ||| tag == 0x74
    ||| tag == 0x44
    ||| tag == 0x45
    ||| tag == 0x41
    ||| tag == 0x4E
}

/// A frame may start where a type byte of its side stands, with a length from four to ten
/// millions behind it.
pub proof fn law_may_start(b: Seq<u8>)
    requires
        b.len() >= 5,
    ensures
        pq_stream::starts_frame(b, true) <==> session_laws::is_message_type(b[0]) && 4
            <= session_laws::number_at(b, 1) <= 10_000_000,
        pq_stream::starts_frame(b, false) <==> is_server_type(b[0]) && 4
            <= session_laws::number_at(b, 1) <= 10_000_000,
{
    let rest = b.skip(1);
    assert(rest[0] == b[1] && rest[1] == b[2] && rest[2] == b[3] && rest[3] == b[4]);
}

/// What bytes start with. Where the first is zero, the first four are the length of all; where
/// it is not, it is a type byte, and the four behind it are the length of the rest. A length
/// that is too small, or above ten millions, is corrupt; otherwise the frame is there once all
/// of it came.
pub proof fn law_head(b: Seq<u8>)
    ensures
        b.len() < 4 ==> pq_stream::head_of(b) is Wait,
        b.len() >= 4 && b[0] == 0 ==> {
            let n = session_laws::number_at(b, 0);
            &&& n < 8 || n > 10_000_000 ==> pq_stream::head_of(b) == Head::Corrupt(4)
            &&& 8 <= n <= 10_000_000 && b.len() < n ==> pq_stream::head_of(b) is Wait
            &&& 8 <= n <= 10_000_000 && b.len() >= n ==> pq_stream::head_of(b) == (Head::Frame {
                tag: 0,
                offset: 4,
                len: n,
            })
        },
        b.len() == 4 && b[0] != 0 ==> pq_stream::head_of(b) is Wait,
        b.len() >= 5 && b[0] != 0 ==> {
            let n = session_laws::number_at(b, 1);
            &&& n < 4 || n > 10_000_000 ==> pq_stream::head_of(b) == Head::Corrupt(5)
            &&& 4 <= n <= 10_000_000 && b.len() < n + 1 ==> pq_stream::head_of(b) is Wait
            &&& 4 <= n <= 10_000_000 && b.len() >= n + 1 ==> pq_stream::head_of(b) == (
            Head::Frame { tag: b[0], offset: 5, len: n + 1 })
        },
{
    if b.len() >= 5 {
        let rest = b.skip(1);
        assert(rest[0] == b[1] && rest[1] == b[2] && rest[2] == b[3] && rest[3] == b[4]);
    }
}

/// A segment with bytes is put in order as by a reassembler, and what comes next goes behind
/// the bytes that are held. (One that lies exactly half of the numbers back is left out.)
pub proof fn law_segment_ingested(v: PqStreamView, seq: u32, payload: Seq<u8>)
    requires
        payload.len() > 0,
        held::ahead(seq, held::expected(v.next_seq, seq)) != 0x8000_0000,
    ensures
        ({
            let before = ReassemblerView { next_seq: v.next_seq, held: v.reorder };
            let (after, bytes, _) = before.fed(seq, false, payload);
            v.ingested(seq, payload) == (PqStreamView {
                buf: v.buf + bytes,
                next_seq: after.next_seq,
                reorder: after.held,
                ..v
            })
        }),
{
    let before = ReassemblerView { next_seq: v.next_seq, held: v.reorder };
    reassembler_laws::law_orders_alike(before, seq, payload);
}

/// A packet goes into the stream by its number; one that opens the connection by the number
/// after its own, which is the next one where none is known. The time of the first packet since
/// the last frame was looked at is that of the next frame.
pub proof fn law_packet_processed(v: PqStreamView, p: TsPacketView)
    ensures
        ({
            let w = v.processed(p);
            let stamped = PqStreamView {
                frame_ts: if v.update_ts {
                    p.ts
                } else {
                    v.frame_ts
                },
                update_ts: false,
                ..v
            };
            let next = ((p.seq + 1) % 0x1_0000_0000) as u32;
            let opened = PqStreamView {
                next_seq: match v.next_seq {
                    Some(n) => Some(n),
                    None => Some(next),
                },
                ..stamped
            };
            &&& !p.syn ==> w == stamped.ingested(p.seq, p.payload)
            &&& p.syn ==> w == opened.ingested(next, p.payload)
        }),
{
    reveal(held::advanced);
}

/// A corrupt header is skipped where a frame may start behind it; where none may, all bytes are
/// given up, and one that is to come. Anything else is left as it is.
pub proof fn law_corrupt_skipped(v: PqStreamView, is_frontend: bool, n: int)
    ensures
        !(pq_stream::head_of(v.rest()) is Corrupt) ==> v.resynced(is_frontend) == v,
        pq_stream::head_of(v.rest()) == Head::Corrupt(n) ==> v.resynced(is_frontend) == (
        PqStreamView {
            head: if pq_stream::starts_frame(v.rest().skip(n), is_frontend) {
                v.head + n
            } else {
                v.buf.len() as int + 1
            },
            ..v
        }),
        v.peekable() <==> (pq_stream::head_of(v.rest()) matches Head::Corrupt(k) ==> v.rest().len()
            - k >= 5),
{
}

/// Looking at a frame makes the next bytes that come those of the next one, and changes nothing
/// else.
pub proof fn law_frame_looked_at(v: PqStreamView, is_frontend: bool)
    ensures
        ({
            let w = v.resynced(is_frontend);
            &&& pq_stream::head_of(w.rest()) is Frame ==> v.peeked(is_frontend) == (
            PqStreamView { update_ts: true, ..w })
            &&& !(pq_stream::head_of(w.rest()) is Frame) ==> v.peeked(is_frontend) == w
        }),
{
}

} // verus!
