//! Clients of a source capture and of its replay, by the number of the client.
use std::collections::{BTreeMap, VecDeque};

use vstd::prelude::*;
use vstd::std_specs::vecdeque::*;

use crate::capture::frame_buffer::{FrameBuffer, FrameBufferView, FrameInfo};
use crate::capture::reader::ClientId;
use crate::compare::addr_map::AddrMapReader;
use crate::compare::pair;
use crate::compare::pair::take_frames;
use crate::compare::stats::CompareStats;
use crate::utils::addr::Addr;
use crate::utils::maps;

verus! {

/// A client: when it was first heard of, how many frames it sent, and the frames
/// that wait, each with the time at which it came.
#[verifier::ext_equal]
pub struct ClientView {
    pub id: ClientId,
    pub frame_count: u64,
    pub connect_ts: Option<u64>,
    pub pending: Seq<(FrameInfo, u64)>,
}

impl ClientView {
    /// A client that was not heard of.
    pub open spec fn fresh(id: ClientId) -> ClientView {
        ClientView { id, frame_count: 0, connect_ts: None, pending: Seq::empty() }
    }

    /// After the frames of a buffer, which came at `ts`.
    pub open spec fn read(self, ts: u64, v: FrameBufferView) -> ClientView {
        ClientView {
            connect_ts: match self.connect_ts {
                Some(t) => Some(t),
                None => Some(ts),
            },
            frame_count: (self.frame_count + pair::timed(v.frames, ts).len()) as u64,
            pending: self.pending + pair::timed(v.frames, ts),
            ..self
        }
    }
}

/// A client of a capture.
pub struct Client {
    pub id: ClientId,
    pub frame_count: u64,
    connect_ts: Option<u64>,
    pending: VecDeque<(FrameInfo, u64)>,
}

impl View for Client {
    type V = ClientView;

    closed spec fn view(&self) -> ClientView {
        ClientView {
            id: self.id,
            frame_count: self.frame_count,
            connect_ts: self.connect_ts,
            pending: self.pending@,
        }
    }
}

impl Client {
    /// A client that was not heard of.
    pub fn new(id: ClientId) -> (r: Self)
        ensures
            r@ == ClientView::fresh(id),
    {
        Client { id, connect_ts: None, frame_count: 0, pending: VecDeque::new() }
    }

    /// Takes the frames out of a buffer. They came at `ts`; those of the start of the
    /// connection are dropped.
    pub fn read_buf(&mut self, ts: u64, buf: &mut FrameBuffer)
        requires
            old(buf)@.wf(),
            old(self)@.frame_count + old(buf)@.frames.len() <= u64::MAX,
        ensures
            final(buf)@ == (FrameBufferView { frames: Seq::empty(), ..old(buf)@ }),
            final(buf)@.wf(),
            final(self)@ == old(self)@.read(ts, old(buf)@),
    {
        proof {
            pair::lemma_timed_len(buf@.frames, ts);
        }
        if self.connect_ts.is_none() {
            self.connect_ts = Some(ts);
        }
        let count: u64 = take_frames(buf, ts, &mut self.pending);
        self.frame_count = self.frame_count + count;
    }

    /// When the client was first heard of.
    pub fn connect_time(&self) -> (r: u64)
        ensures
            r == match self@.connect_ts {
                Some(t) => t,
                None => 0,
            },
    {
        match self.connect_ts {
            Some(t) => t,
            None => 0,
        }
    }

    /// Whether a frame waits.
    pub fn has_frame(&self) -> (r: bool)
        ensures
            r == (self@.pending.len() > 0),
    {
        self.pending.len() > 0
    }

    /// Takes the first frame that waits.
    pub fn pop_frame(&mut self) -> (r: (FrameInfo, u64))
        requires
            old(self)@.pending.len() > 0,
        ensures
            r == old(self)@.pending[0],
            final(self)@ == (ClientView {
                pending: old(self)@.pending.drop_first(),
                ..old(self)@
            }),
    {
        let ghost before = self@;
        let r = self.pending.pop_front().unwrap();
        assert(self@.pending =~= before.pending.drop_first());
        r
    }
}

/// A client of the source and its replay.
pub struct ComparePair {
    pub src: Client,
    pub replay: Client,
    pub replay_id: Option<ClientId>,
    pub stats: CompareStats,
}

/// The clients of a source and of its replay.
pub struct CompareMap<'a> {
    addr_map: &'a AddrMapReader,
    pub pairs: BTreeMap<ClientId, ComparePair>,
}

impl<'a> CompareMap<'a> {
    /// The addresses of the replay are known.
    pub closed spec fn wf(self) -> bool {
        self.addr_map.wf()
    }

    /// Which client was replayed from which address.
    pub closed spec fn addresses(self) -> Map<Addr, ClientId> {
        self.addr_map@
    }

    /// The clients that were heard of.
    pub closed spec fn known(self) -> Map<ClientId, ComparePair> {
        self.pairs@
    }

    /// No client was heard of.
    pub fn new(addr_map: &'a AddrMapReader) -> (r: Self)
        requires
            addr_map.wf(),
        ensures
            r.wf(),
            r.addresses() == addr_map@,
            r.known() == Map::<ClientId, ComparePair>::empty(),
    {
        CompareMap { addr_map, pairs: BTreeMap::new() }
    }

    /// Takes out a client. It is a new one where it was not heard of.
    pub fn take(&mut self, id: ClientId) -> (r: ComparePair)
        requires
            old(self).wf(),
        ensures
            final(self).wf(),
            final(self).addresses() == old(self).addresses(),
            final(self).known() == old(self).known().remove(id),
            if old(self).known().contains_key(id) {
                r == old(self).known()[id]
            } else {
                r.src@ == ClientView::fresh(id) && r.replay@ == ClientView::fresh(id)
                    && r.replay_id is None && r.stats == CompareStats::zero()
            },
    {
        match maps::take(&mut self.pairs, id) {
            Some(p) => p,
            None => ComparePair {
                src: Client::new(id),
                replay: Client::new(id),
                replay_id: None,
                stats: CompareStats::default(),
            },
        }
    }

    /// Puts back a client.
    pub fn put(&mut self, id: ClientId, pair: ComparePair)
        requires
            old(self).wf(),
        ensures
            final(self).wf(),
            final(self).addresses() == old(self).addresses(),
            final(self).known() == old(self).known().insert(id, pair),
    {
        maps::put(&mut self.pairs, id, pair);
    }

    /// The client that was replayed from an address.
    pub fn map_addr(&self, replay_addr: &Addr) -> (r: Option<u32>)
        requires
            self.wf(),
        ensures
            match r {
                Some(id) => self.addresses().contains_key(*replay_addr)
                    && self.addresses()[*replay_addr] == id,
                None => !self.addresses().contains_key(*replay_addr),
            },
    {
        self.addr_map.map_addr(replay_addr)
    }
}

} // verus!
