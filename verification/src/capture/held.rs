//! Segments that came too early, by the number of their first byte.
use std::collections::BTreeMap;

use vstd::prelude::*;

use crate::utils::maps;
use crate::utils::maps::{get, keys, put};
use crate::utils::parse::bytes_from;

verus! {

/// The bytes of segments that are held back.
pub open spec fn bytes_of(m: Map<u32, Vec<u8>>) -> Map<u32, Seq<u8>> {
    m.map_values(|v: Vec<u8>| v@)
}

/// What is held back after everything that continues at `cur` has been let go,
/// the number of the byte that is missing next, and the bytes that were let go.
pub open spec fn drained(held: Map<u32, Seq<u8>>, cur: u32) -> (Map<u32, Seq<u8>>, u32, Seq<u8>)
    decreases held.len(),
    when held.dom().finite()
{
    if held.contains_key(cur) {
        let bytes = held[cur];
        let (rest, end, out) = drained(held.remove(cur), advanced(cur, bytes.len()));
        (rest, end, bytes + out)
    } else {
        (held, cur, Seq::empty())
    }
}

/// The number of the byte that follows `len` bytes from number `seq` on. The
/// numbers start again after the largest.
#[verifier::opaque]
pub open spec fn advanced(seq: u32, len: nat) -> u32 {
    ((seq + len) % 0x1_0000_0000) as u32
}

/// How far number `to` lies ahead of number `from`.
#[verifier::opaque]
pub open spec fn ahead(from: u32, to: u32) -> int {
    (to - from) % 0x1_0000_0000
}

/// The number of the byte that follows `len` bytes from number `seq` on.
pub fn advance(seq: u32, len: usize) -> (r: u32)
    ensures
        r == advanced(seq, len as nat),
{
    proof {
        reveal(advanced);
    }
    let low: u64 = len as u64 % 0x1_0000_0000;
    ((seq as u64 + low) % 0x1_0000_0000) as u32
}

/// How far number `to` lies ahead of number `from`.
pub fn distance(from: u32, to: u32) -> (r: u32)
    ensures
        r == ahead(from, to),
{
    proof {
        reveal(ahead);
    }
    to.wrapping_sub(from)
}

/// How numbers of bytes of one stream relate, where the stream is shorter than
/// half of the numbers: `isn` is the number of its first byte.
pub proof fn lemma_ahead(isn: u32, p: nat, q: nat)
    requires
        p < 0x8000_0000,
        q < 0x8000_0000,
    ensures
        ahead(advanced(isn, p), advanced(isn, q)) == if p <= q {
            q - p
        } else {
            0x1_0000_0000 + q - p
        },
        ahead(isn, advanced(isn, p)) == p,
{
    reveal(advanced);
    reveal(ahead);
}

/// Steps through the numbers add up.
pub proof fn lemma_advanced_add(seq: u32, m: nat, n: nat)
    ensures
        advanced(advanced(seq, m), n) == advanced(seq, m + n),
        advanced(seq, 0) == seq,
{
    reveal(advanced);
}

/// Takes out the segment that starts with byte number `seq`.
pub fn take(m: &mut BTreeMap<u32, Vec<u8>>, seq: u32) -> (r: Option<Vec<u8>>)
    ensures
        match r {
            Some(v) => bytes_of(old(m)@).contains_key(seq) && bytes_of(old(m)@)[seq] == v@
                && bytes_of(final(m)@) == bytes_of(old(m)@).remove(seq),
            None => !bytes_of(old(m)@).contains_key(seq) && bytes_of(final(m)@) == bytes_of(
                old(m)@,
            ),
        },
{
    broadcast use vstd::laws_cmp::group_laws_cmp;
    broadcast use vstd::std_specs::btree::group_btree_axioms;

    let r = m.remove(&seq);
    assert(bytes_of(final(m)@) =~= bytes_of(old(m)@).remove(seq));
    assert(r is None ==> bytes_of(final(m)@) =~= bytes_of(old(m)@));
    r
}

/// Holds back a segment that starts with byte number `seq`.
pub fn hold(m: &mut BTreeMap<u32, Vec<u8>>, seq: u32, bytes: Vec<u8>)
    ensures
        bytes_of(final(m)@) == bytes_of(old(m)@).insert(seq, bytes@),
{
    broadcast use vstd::laws_cmp::group_laws_cmp;
    broadcast use vstd::std_specs::btree::group_btree_axioms;

    m.insert(seq, bytes);
    assert(bytes_of(final(m)@) =~= bytes_of(old(m)@).insert(seq, bytes@));
}

/// Bytes of a slice in a vector of their own.
pub fn owned(bytes: &[u8]) -> (r: Vec<u8>)
    ensures
        r@ == bytes@,
{
    let mut r: Vec<u8> = Vec::new();
    r.extend_from_slice(bytes);
    assert(r@ =~= bytes@);
    r
}

/// Lets go of everything that continues at `cur`: the bytes go to `out`, and
/// the number of the byte that is missing next comes back.
pub fn drain(m: &mut BTreeMap<u32, Vec<u8>>, cur: u32, out: &mut Vec<u8>) -> (r: u32)
    ensures
        (bytes_of(final(m)@), r, final(out)@) == ({
            let (rest, end, bytes) = drained(bytes_of(old(m)@), cur);
            (rest, end, old(out)@ + bytes)
        }),
{
    broadcast use vstd::std_specs::btree::group_btree_axioms;

    let ghost all = drained(bytes_of(m@), cur);
    let ghost start = out@;
    let mut at: u32 = cur;
    loop
        invariant_except_break
            ({
                let now = drained(bytes_of(m@), at);
                &&& all.0 == now.0
                &&& all.1 == now.1
                &&& start + all.2 == out@ + now.2
            }),
        ensures
            (bytes_of(m@), at, out@) == (all.0, all.1, start + all.2),
        decreases bytes_of(m@).dom().len(),
    {
        assert(bytes_of(m@).dom() =~= m@.dom());
        match take(m, at) {
            Some(bytes) => {
                let ghost before = out@;
                out.extend_from_slice(bytes.as_slice());
                assert(out@ =~= before + bytes@);
                let next: u32 = advance(at, bytes.len());
                proof {
                    let now = drained(bytes_of(m@), next);
                    assert((before + bytes@) + now.2 =~= before + (bytes@ + now.2));
                }
                at = next;
            },
            None => {
                assert(out@ + Seq::<u8>::empty() =~= out@);
                break;
            },
        }
    }
    at
}

/// The number of the next byte, where the first segment is in order.
pub open spec fn expected(next_seq: Option<u32>, seq: u32) -> u32 {
    match next_seq {
        Some(n) => n,
        None => seq,
    }
}

/// Whether a segment has bytes that come next.
pub open spec fn in_order(next_seq: Option<u32>, seq: u32, payload: Seq<u8>) -> bool {
    let behind = ahead(seq, expected(next_seq, seq));
    payload.len() > 0 && behind < 0x8000_0000 && behind < payload.len()
}

/// Whether a segment comes too early.
pub open spec fn early(next_seq: Option<u32>, seq: u32, payload: Seq<u8>) -> bool {
    payload.len() > 0 && ahead(seq, expected(next_seq, seq)) > 0x8000_0000
}

/// What is held back, the number of the next byte, and the bytes that come next,
/// after a segment: in order, it comes with everything that continues it; too
/// early, it is held back; and seen before, it changes nothing.
pub open spec fn sorted_in(
    next_seq: Option<u32>,
    held: Map<u32, Seq<u8>>,
    seq: u32,
    payload: Seq<u8>,
) -> (Option<u32>, Map<u32, Seq<u8>>, Seq<u8>) {
    let next = expected(next_seq, seq);
    if payload.len() == 0 {
        (next_seq, held, Seq::empty())
    } else if in_order(next_seq, seq, payload) {
        let fresh = payload.skip(ahead(seq, next));
        let (rest, end, more) = drained(held, advanced(next, fresh.len()));
        (Some(end), rest, fresh + more)
    } else if early(next_seq, seq, payload) {
        (Some(next), held.insert(seq, payload), Seq::empty())
    } else {
        (Some(next), held, Seq::empty())
    }
}

/// Takes in a segment whose first byte has number `seq`, and gives the bytes that
/// come next.
pub fn sort_in(
    next_seq: &mut Option<u32>,
    m: &mut BTreeMap<u32, Vec<u8>>,
    seq: u32,
    payload: &[u8],
) -> (r: Vec<u8>)
    ensures
        (*final(next_seq), bytes_of(final(m)@), r@) == sorted_in(
            *old(next_seq),
            bytes_of(old(m)@),
            seq,
            payload@,
        ),
{
    if payload.is_empty() {
        return Vec::new();
    }
    let next: u32 = match *next_seq {
        None => {
            *next_seq = Some(seq);
            seq
        },
        Some(n) => n,
    };
    let behind: u32 = distance(seq, next);
    if behind > 0x8000_0000 {
        hold(m, seq, owned(payload));
        return Vec::new();
    }
    if behind == 0x8000_0000 || behind as usize >= payload.len() {
        return Vec::new();
    }
    let fresh = bytes_from(payload, behind as usize);
    let mut bytes: Vec<u8> = owned(fresh);
    let cur: u32 = advance(next, fresh.len());
    let end: u32 = drain(m, cur, &mut bytes);
    *next_seq = Some(end);
    bytes
}

/// No more bytes are let go than are held back.
pub proof fn lemma_drained_len(held: Map<u32, Seq<u8>>, cur: u32, most: nat)
    requires
        held.dom().finite(),
        forall|k: u32| #![trigger held[k]] held.contains_key(k) ==> held[k].len() <= most,
    ensures
        drained(held, cur).2.len() <= held.len() * most,
    decreases held.len(),
{
    if held.contains_key(cur) {
        let rest = held.remove(cur);
        assert forall|k: u32| #![trigger rest[k]] rest.contains_key(k) implies rest[k].len()
            <= most by {
            assert(rest[k] == held[k]);
        }
        lemma_drained_len(rest, advanced(cur, held[cur].len()), most);
        assert(held.len() * most == rest.len() * most + most) by (nonlinear_arith)
            requires
                held.len() == rest.len() + 1,
        ;
    } else {
        assert(held.len() * most >= 0) by (nonlinear_arith);
    }
}

/// How long the segments are that are held back.
fn lengths(m: &BTreeMap<u32, Vec<u8>>) -> (r: BTreeMap<u32, usize>)
    ensures
        r@.dom() == m@.dom(),
        forall|k: u32| #![trigger r@[k]] m@.contains_key(k) ==> r@[k] == m@[k]@.len(),
{
    let ks = keys(m);
    let mut r: BTreeMap<u32, usize> = BTreeMap::new();
    let mut i: usize = 0;
    while i < ks.len()
        invariant
            i <= ks@.len(),
            ks@.to_set() == m@.dom(),
            forall|k: u32| #![trigger r@.contains_key(k)] r@.contains_key(k) ==> m@.contains_key(k),
            forall|k: u32| #![trigger r@[k]] r@.contains_key(k) ==> r@[k] == m@[k]@.len(),
            forall|j: int| #![trigger ks@[j]] 0 <= j < i ==> r@.contains_key(ks@[j]),
        decreases ks@.len() - i,
    {
        let k: u32 = ks[i];
        assert(ks@.to_set().contains(ks@[i as int]));
        if let Some(v) = get(m, k) {
            put(&mut r, k, v.len());
        }
        i += 1;
    }
    proof {
        assert forall|k: u32| m@.contains_key(k) implies r@.contains_key(k) by {
            assert(ks@.to_set().contains(k));
            let j = choose|j: int| 0 <= j < ks@.len() && ks@[j] == k;
            assert(r@.contains_key(ks@[j]));
        }
        assert(r@.dom() =~= m@.dom());
    }
    r
}

/// How many bytes a hold of `n` segments has at most.
proof fn lemma_most(n: nat)
    requires
        n <= usize::MAX,
    ensures
        n * usize::MAX <= 0xFFFF_FFFF_FFFF_FFFF * 0xFFFF_FFFF_FFFF_FFFF,
{
    assert(n * usize::MAX <= 0xFFFF_FFFF_FFFF_FFFF * 0xFFFF_FFFF_FFFF_FFFF) by (nonlinear_arith)
        requires
            n <= usize::MAX,
            usize::MAX <= 0xFFFF_FFFF_FFFF_FFFF,
    ;
}

/// How many bytes are let go of with everything that continues at `cur`.
fn drained_len(m: &BTreeMap<u32, Vec<u8>>, cur: u32) -> (r: u128)
    ensures
        r == drained(bytes_of(m@), cur).2.len(),
        r <= 0xFFFF_FFFF_FFFF_FFFF * 0xFFFF_FFFF_FFFF_FFFF,
{
    broadcast use vstd::std_specs::btree::group_btree_axioms;

    let count: usize = m.len();
    if count == 0 {
        assert(m@.dom() =~= Set::empty());
        assert(bytes_of(m@).dom() =~= Set::empty());
        return 0;
    }
    let mut lens = lengths(m);
    let ghost all = drained(bytes_of(m@), cur).2.len();
    let ghost mut left = bytes_of(m@);
    proof {
        assert(left.dom() =~= m@.dom());
        assert forall|k: u32| #![trigger left[k]] left.contains_key(k) implies left[k].len()
            <= usize::MAX by {
            assert(lens@[k] == m@[k]@.len());
        }
        lemma_drained_len(left, cur, usize::MAX as nat);
        lemma_most(left.len());
    }
    let mut total: u128 = 0;
    let mut at: u32 = cur;
    loop
        invariant_except_break
            all == total + drained(left, at).2.len(),
        invariant
            all <= 0xFFFF_FFFF_FFFF_FFFF * 0xFFFF_FFFF_FFFF_FFFF,
            left.dom().finite(),
            left.dom() == lens@.dom(),
            forall|k: u32| #![trigger lens@[k]] left.contains_key(k) ==> lens@[k] == left[k].len(),
        ensures
            all == total,
        decreases left.dom().len(),
    {
        assert(left.contains_key(at) == lens@.contains_key(at));
        match maps::take(&mut lens, at) {
            Some(len) => {
                let ghost before = left;
                proof {
                    assert(len == left[at].len());
                    left = left.remove(at);
                    assert(left.dom() =~= lens@.dom());
                    assert forall|k: u32| #![trigger lens@[k]] left.contains_key(k) implies lens@[k]
                        == left[k].len() by {
                        assert(before.contains_key(k));
                    }
                }
                total = total + len as u128;
                at = advance(at, len);
            },
            None => {
                break;
            },
        }
    }
    total
}

/// How many bytes come next with a segment whose first byte has number `seq`.
pub fn sorted_in_len(
    next_seq: Option<u32>,
    m: &BTreeMap<u32, Vec<u8>>,
    seq: u32,
    payload: &[u8],
) -> (r: u128)
    ensures
        r == sorted_in(next_seq, bytes_of(m@), seq, payload@).2.len(),
{
    if payload.is_empty() {
        return 0;
    }
    let next: u32 = match next_seq {
        None => seq,
        Some(n) => n,
    };
    let behind: u32 = distance(seq, next);
    if behind >= 0x8000_0000 || behind as usize >= payload.len() {
        return 0;
    }
    let fresh: usize = payload.len() - behind as usize;
    drained_len(m, advance(next, fresh)) + fresh as u128
}

} // verus!
