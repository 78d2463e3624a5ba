//! The bytes of a connection in the order in which they were sent.
use std::collections::BTreeMap;

use vstd::prelude::*;

use crate::capture::held;
use crate::utils::parse::bytes_from;

verus! {

/// What a reassembler knows: the number of the byte that is missing next, and
/// the segments that came too early.
#[verifier::ext_equal]
pub struct ReassemblerView {
    pub next_seq: Option<u32>,
    pub held: Map<u32, Seq<u8>>,
}

impl ReassemblerView {
    /// After a segment with number `seq`; the bytes that go out; and whether the
    /// segment was in order. A segment that opens a connection (`is_syn`) makes
    /// the number after its own the next one; other segments are in order from
    /// the first one on. What came before is cut off a segment.
    pub open spec fn fed(self, seq: u32, is_syn: bool, data: Seq<u8>) -> (
        ReassemblerView,
        Seq<u8>,
        bool,
    ) {
        let next = if is_syn {
            held::advanced(seq, 1)
        } else {
            match self.next_seq {
                Some(n) => n,
                None => seq,
            }
        };
        let known = ReassemblerView { next_seq: Some(next), ..self };
        let behind = held::ahead(seq, next);
        let late = 0 < behind < 0x8000_0000;
        if is_syn && data.len() == 0 || late && behind >= data.len() {
            (known, Seq::empty(), false)
        } else if late || behind == 0 {
            let fresh = data.skip(behind);
            let (rest, end, more) = held::drained(self.held, held::advanced(next, fresh.len()));
            (ReassemblerView { next_seq: Some(end), held: rest }, fresh + more, true)
        } else {
            (
                ReassemblerView { held: self.held.insert(seq, data), ..known },
                Seq::empty(),
                false,
            )
        }
    }
}

/// Puts the segments of a connection in order.
pub struct Reassembler {
    next_seq: Option<u32>,
    out_of_order: BTreeMap<u32, Vec<u8>>,
}

impl View for Reassembler {
    type V = ReassemblerView;

    closed spec fn view(&self) -> ReassemblerView {
        ReassemblerView { next_seq: self.next_seq, held: held::bytes_of(self.out_of_order@) }
    }
}

impl Default for Reassembler {
    fn default() -> (r: Self)
        ensures
            r@ == (ReassemblerView { next_seq: None, held: Map::empty() }),
    {
        let r = Reassembler { next_seq: None, out_of_order: BTreeMap::new() };
        assert(r@.held =~= Map::empty());
        r
    }
}

impl Reassembler {
    /// Takes in a segment with number `seq`. What is in order now goes to `out`.
    pub fn feed(&mut self, seq: u32, is_syn: bool, data: &[u8], out: &mut Vec<u8>) -> (r: bool)
        ensures
            ({
                let (after, bytes, in_order) = old(self)@.fed(seq, is_syn, data@);
                &&& final(self)@ == after
                &&& final(out)@ == old(out)@ + bytes
                &&& r == in_order
            }),
    {
        let ghost start = out@;
        assert(start + Seq::<u8>::empty() =~= start);
        if is_syn {
            self.next_seq = Some(held::advance(seq, 1));
            if data.is_empty() {
                return false;
            }
        }
        let next: u32 = match self.next_seq {
            Some(n) => n,
            None => {
                self.next_seq = Some(seq);
                seq
            },
        };
        let behind: u32 = held::distance(seq, next);
        if behind != 0 && behind >= 0x8000_0000 {
            held::hold(&mut self.out_of_order, seq, held::owned(data));
            return false;
        }
        if behind != 0 && behind as usize >= data.len() {
            return false;
        }
        assert(behind <= data.len());
        let fresh = bytes_from(data, behind as usize);
        out.extend_from_slice(fresh);
        assert(out@ =~= start + fresh@);
        let cur: u32 = held::advance(next, fresh.len());
        let end: u32 = held::drain(&mut self.out_of_order, cur, out);
        self.next_seq = Some(end);
        proof {
            let more = held::drained(old(self)@.held, cur).2;
            assert((start + fresh@) + more =~= start + (fresh@ + more));
        }
        true
    }
}

} // verus!
