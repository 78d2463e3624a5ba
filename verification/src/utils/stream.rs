//! Bytes that are written at one end and read at the other.
use vstd::prelude::*;

use crate::utils::parse::bytes_from;

verus! {

/// A stream of bytes. Bytes that were read are let go of when there are more of
/// them than the threshold. Its view is the bytes that were written and not
/// read.
pub struct Stream {
    data: Vec<u8>,
    compact_threshold: usize,
    data_offset: usize,
    read_offset: usize,
    committed_offset: usize,
}

impl View for Stream {
    type V = Seq<u8>;

    closed spec fn view(&self) -> Seq<u8> {
        self.data@.skip(self.read_offset - self.data_offset)
    }
}

impl Stream {
    /// The bytes that are held reach from `data_offset` to `committed_offset`, and
    /// reading stands between the two.
    pub closed spec fn wf(self) -> bool {
        &&& self.data_offset <= self.read_offset <= self.committed_offset
        &&& self.committed_offset == self.data_offset + self.data@.len()
    }

    /// How many bytes were written in all.
    pub closed spec fn written(self) -> nat {
        self.committed_offset as nat
    }

    /// How many bytes that were read are still held.
    pub closed spec fn kept(self) -> int {
        self.read_offset - self.data_offset
    }

    /// How many bytes that were read may be held.
    pub closed spec fn threshold(self) -> usize {
        self.compact_threshold
    }

    /// How many of `n` bytes that were read stay held.
    pub open spec fn kept_of(self, n: int) -> int {
        if n > self.threshold() {
            0
        } else {
            n
        }
    }

    /// An empty stream.
    pub fn new(compact_threshold: usize) -> (r: Self)
        ensures
            r.wf(),
            r@ == Seq::<u8>::empty(),
            r.written() == 0,
            r.kept() == 0,
            r.threshold() == compact_threshold,
    {
        let r = Stream {
            data: Vec::new(),
            compact_threshold,
            data_offset: 0,
            read_offset: 0,
            committed_offset: 0,
        };
        assert(r@ =~= Seq::<u8>::empty());
        r
    }

    /// Takes `n` bytes as read, or all where there are fewer.
    pub fn mark_read(&mut self, n: usize)
        requires
            old(self).wf(),
        ensures
            final(self).wf(),
            final(self)@ == if n <= old(self)@.len() {
                old(self)@.skip(n as int)
            } else {
                Seq::empty()
            },
            final(self).written() == old(self).written(),
            final(self).threshold() == old(self).threshold(),
            final(self).kept() == old(self).kept_of(
                old(self).kept() + if n <= old(self)@.len() {
                    n as int
                } else {
                    old(self)@.len() as int
                },
            ),
    {
        let ghost before = self@;
        if n <= self.committed_offset - self.read_offset {
            self.read_offset = self.read_offset + n;
            assert(self@ =~= before.skip(n as int));
        } else {
            self.read_offset = self.committed_offset;
            assert(self@ =~= Seq::empty());
        }
        self.compact();
    }

    /// Takes all bytes as read.
    pub fn mark_read_all(&mut self)
        requires
            old(self).wf(),
        ensures
            final(self).wf(),
            final(self)@ == Seq::<u8>::empty(),
            final(self).written() == old(self).written(),
            final(self).threshold() == old(self).threshold(),
            final(self).kept() == old(self).kept_of(old(self).kept() + old(self)@.len()),
    {
        self.read_offset = self.committed_offset;
        assert(self@ =~= Seq::empty());
        self.compact();
    }

    /// The bytes that were written and not read.
    pub fn data(&self) -> (r: &[u8])
        requires
            self.wf(),
        ensures
            r@ == self@,
    {
        bytes_from(self.data.as_slice(), self.read_offset - self.data_offset)
    }

    /// Whether `n` more bytes can be written.
    pub fn has_room(&self, n: usize) -> (r: bool)
        ensures
            r == (self.written() + n <= usize::MAX),
    {
        n <= usize::MAX - self.committed_offset
    }

    /// Writes bytes.
    pub fn write(&mut self, bytes: &[u8])
        requires
            old(self).wf(),
            old(self).written() + bytes@.len() <= usize::MAX,
        ensures
            final(self).wf(),
            final(self)@ == old(self)@ + bytes@,
            final(self).written() == old(self).written() + bytes@.len(),
            final(self).threshold() == old(self).threshold(),
            final(self).kept() == old(self).kept(),
    {
        let ghost before = self@;
        self.data.extend_from_slice(bytes);
        self.committed_offset = self.data_offset + self.data.len();
        assert(self@ =~= before + bytes@);
    }

    /// Lets go of bytes that were read, where these are many.
    fn compact(&mut self)
        requires
            old(self).wf(),
        ensures
            final(self).wf(),
            final(self)@ == old(self)@,
            final(self).written() == old(self).written(),
            final(self).threshold() == old(self).threshold(),
            final(self).kept() == old(self).kept_of(old(self).kept()),
    {
        let garbage_size: usize = self.read_offset - self.data_offset;
        if garbage_size > self.compact_threshold {
            let ghost before = self@;
            let rest = self.data.split_off(garbage_size);
            self.data = rest;
            self.data_offset = self.read_offset;
            assert(self@ =~= before);
        }
    }
}

/// Bytes that were read stay held up to the threshold, and none of them beyond it.
pub proof fn law_kept(s: Stream, n: int)
    requires
        0 <= n,
    ensures
        0 <= s.kept_of(n) <= n,
        s.kept_of(n) <= s.threshold(),
        n <= s.threshold() <==> s.kept_of(n) == n,
{
}

} // verus!
