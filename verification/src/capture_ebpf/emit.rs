//! In which pieces a segment is captured.
use vstd::prelude::*;

use crate::capture::held;
use crate::capture::reassembler::ReassemblerView;
use crate::capture::reassembler_laws;
use crate::capture_common::CHUNK_SIZE;

verus! {

/// How many pieces a segment of so many bytes takes. One without bytes takes one.
pub open spec fn pieces_needed(payload_len: nat) -> nat {
    if payload_len == 0 {
        1
    } else {
        (payload_len + CHUNK_SIZE - 1) as nat / CHUNK_SIZE as nat
    }
}

/// How many pieces a segment takes, unless they are more than `max_chunks`: then it
/// is dropped. A segment without bytes is never dropped.
pub fn emit_capture(payload_len: usize, max_chunks: usize) -> (r: Option<usize>)
    ensures
        r == if payload_len > 0 && pieces_needed(payload_len as nat) > max_chunks {
            None
        } else {
            Some(pieces_needed(payload_len as nat) as usize)
        },
{
    if payload_len == 0 {
        return Some(1);
    }
    let full: usize = payload_len / CHUNK_SIZE;
    let needed: usize = if payload_len % CHUNK_SIZE == 0 {
        full
    } else {
        full + 1
    };
    assert(needed == pieces_needed(payload_len as nat));
    if needed > max_chunks {
        return None;
    }
    Some(needed)
}

/// A piece of a segment: where it starts in the segment, how many bytes it has, and
/// its number.
#[derive(Debug, Clone, Copy, PartialEq, Eq, Structural)]
pub struct Chunk {
    pub off: usize,
    pub len: u16,
    pub seq: u32,
}

/// A piece of a segment with the given number and so many bytes.
pub open spec fn chunk_at(seq: u32, payload_len: nat, index: nat) -> Option<Chunk> {
    let off = index * CHUNK_SIZE;
    if off >= payload_len {
        None
    } else {
        Some(
            Chunk {
                off: off as usize,
                len: if payload_len - off < CHUNK_SIZE {
                    (payload_len - off) as u16
                } else {
                    CHUNK_SIZE as u16
                },
                seq: held::advanced(seq, off as nat),
            },
        )
    }
}

/// A piece of a segment with the given number and so many bytes.
pub fn send_chunk(seq: u32, payload_len: usize, index: usize) -> (r: Option<Chunk>)
    ensures
        r == chunk_at(seq, payload_len as nat, index as nat),
{
    if index >= payload_len / CHUNK_SIZE + 1 {
        assert(index * CHUNK_SIZE >= payload_len);
        return None;
    }
    assert(index * CHUNK_SIZE <= payload_len);
    let off: usize = index * CHUNK_SIZE;
    if off >= payload_len {
        return None;
    }
    let left: usize = payload_len - off;
    let len: usize = if left < CHUNK_SIZE {
        left
    } else {
        CHUNK_SIZE
    };
    Some(Chunk { off, len: len as u16, seq: held::advance(seq, off) })
}

/// The bytes of the pieces of a segment.
pub open spec fn pieces(payload: Seq<u8>) -> Seq<Seq<u8>>
    decreases payload.len(),
{
    if payload.len() == 0 {
        Seq::empty()
    } else if payload.len() <= CHUNK_SIZE {
        seq![payload]
    } else {
        seq![payload.take(CHUNK_SIZE as int)] + pieces(payload.skip(CHUNK_SIZE as int))
    }
}

/// The pieces of a segment, one after the other, are its bytes: each piece lies
/// where it says, is as long as it says, and is not empty; and there are as many as
/// are needed.
pub proof fn law_pieces(seq: u32, payload: Seq<u8>)
    ensures
        pieces(payload).flatten() == payload,
        payload.len() > 0 ==> pieces(payload).len() == pieces_needed(payload.len()),
        forall|i: nat|
            #![trigger chunk_at(seq, payload.len(), i)]
            i < pieces(payload).len() <==> chunk_at(seq, payload.len(), i) is Some,
        payload.len() <= usize::MAX ==> forall|i: nat|
            #![trigger chunk_at(seq, payload.len(), i)]
            i < pieces(payload).len() ==> {
                let c = chunk_at(seq, payload.len(), i)->0;
                &&& 0 < c.len <= CHUNK_SIZE
                &&& pieces(payload)[i as int] == payload.subrange(c.off as int, c.off + c.len)
            },
    decreases payload.len(),
{
    reveal_with_fuel(Seq::<_>::flatten, 3);
    let n = CHUNK_SIZE as int;
    if payload.len() == 0 {
    } else if payload.len() <= n {
        assert(pieces(payload) =~= seq![payload]);
        assert(seq![payload].drop_first() =~= Seq::<Seq<u8>>::empty());
        assert(pieces(payload).flatten() =~= payload);
        assert forall|i: nat| #![trigger chunk_at(seq, payload.len(), i)] i < pieces(
            payload,
        ).len() <==> chunk_at(seq, payload.len(), i) is Some by {
            if i == 0 {
                assert(chunk_at(seq, payload.len(), 0) is Some);
            } else {
                assert(i * CHUNK_SIZE >= CHUNK_SIZE) by (nonlinear_arith)
                    requires
                        i >= 1,
                ;
            }
        }
        assert(payload.subrange(0, payload.len() as int) =~= payload);
    } else {
        let rest = payload.skip(n);
        let tail = pieces(rest);
        law_pieces(seq, rest);
        let all = pieces(payload);
        assert(all =~= seq![payload.take(n)] + tail);
        assert(all.drop_first() =~= tail);
        assert(all.flatten() =~= payload.take(n) + tail.flatten());
        assert(payload =~= payload.take(n) + rest);
        assert forall|i: nat| #![trigger chunk_at(seq, payload.len(), i)] i < all.len()
            <==> chunk_at(seq, payload.len(), i) is Some by {
            if i > 0 {
                let j = (i - 1) as nat;
                assert(chunk_at(seq, rest.len(), j) is Some <==> j < tail.len());
                assert(i * CHUNK_SIZE == j * CHUNK_SIZE + CHUNK_SIZE) by (nonlinear_arith)
                    requires
                        j == i - 1,
                ;
            } else {
                assert(chunk_at(seq, payload.len(), 0) is Some);
            }
        }
        if payload.len() <= usize::MAX {
            assert forall|i: nat| #![trigger chunk_at(seq, payload.len(), i)] i < all.len() implies {
                let c = chunk_at(seq, payload.len(), i)->0;
                &&& 0 < c.len <= CHUNK_SIZE
                &&& all[i as int] == payload.subrange(c.off as int, c.off + c.len)
            } by {
                if i > 0 {
                    let j = (i - 1) as nat;
                    let d = chunk_at(seq, rest.len(), j)->0;
                    assert(i * CHUNK_SIZE == j * CHUNK_SIZE + CHUNK_SIZE) by (nonlinear_arith)
                        requires
                            j == i - 1,
                    ;
                    assert(chunk_at(seq, payload.len(), i) is Some);
                    assert(rest.subrange(d.off as int, d.off + d.len) =~= payload.subrange(
                        d.off + n,
                        d.off + n + d.len,
                    ));
                } else {
                    assert(payload.subrange(0, n) =~= payload.take(n));
                }
            }
        }
    }
}

/// The pieces of a segment that is next in its stream, in whatever order they come,
/// give back its bytes.
pub proof fn law_segment_recovered(seq: u32, payload: Seq<u8>, order: Seq<int>)
    requires
        payload.len() < 0x8000_0000,
        forall|k: int|
            #![trigger order[k]]
            0 <= k < order.len() ==> 0 <= order[k] < pieces(payload).len(),
        order.no_duplicates(),
        order.len() == pieces(payload).len(),
    ensures
        reassembler_laws::fed_pieces(
            ReassemblerView { next_seq: Some(seq), held: Map::empty() },
            seq,
            pieces(payload),
            order,
        ).1 == payload,
{
    law_pieces(seq, payload);
    let all = pieces(payload);
    assert forall|k: int| #![trigger all[k]] 0 <= k < all.len() implies all[k].len() > 0 by {
        assert(chunk_at(seq, payload.len(), k as nat) is Some);
    }
    reassembler_laws::law_reassembled(seq, all, order);
}

} // verus!
