//! Captures of packets: the bytes that clients sent to a port.
use vstd::prelude::*;

use crate::capture::packet;
use crate::capture::packet::{
    filter_packet, parse_packet, stamp, CapturedBlock, TsPacket, TsPacketView,
};
use crate::capture::reader::ClientId;
use crate::capture::reassembler::{Reassembler, ReassemblerView};
use crate::utils::addr::{Addr, AddrTable};

verus! {

/// The segment to the given port that a block holds.
pub open spec fn segment_in(block: CapturedBlock<'_>, port: u16) -> Option<TsPacketView> {
    match block.packet() {
        Some((data, ts)) => if data.len() == 0 {
            None
        } else {
            match packet::packet_in(data) {
                Some(p) => packet::stamped(packet::sent_to(p, port), ts),
                None => None,
            }
        },
        None => None,
    }
}

/// Reads the segment to the given port that a block holds.
pub fn process_block(block: CapturedBlock<'_>, port: u16) -> (r: Option<TsPacket<'_>>)
    ensures
        packet::ts_view(r) == segment_in(block, port),
{
    let (data, ts) = match block.read() {
        Some(p) => p,
        None => {
            return None;
        },
    };
    if data.len() == 0 {
        return None;
    }
    match parse_packet(data) {
        Some(p) => stamp(filter_packet(p, port), ts),
        None => None,
    }
}

/// What is known of a client: its number, its stream, and whether a connection was
/// started of which no bytes were handed out yet.
#[verifier::ext_equal]
pub struct PcapClientView {
    pub id: ClientId,
    pub re: ReassemblerView,
    pub started: bool,
}

impl PcapClientView {
    /// A client of which nothing came yet.
    pub open spec fn fresh(id: ClientId) -> PcapClientView {
        PcapClientView {
            id,
            re: ReassemblerView { next_seq: None, held: Map::empty() },
            started: false,
        }
    }
}

/// How far a capture is read.
#[verifier::ext_equal]
pub struct PcapView {
    pub port: u16,
    pub ts_offset: u64,
    pub max_duration: u64,
    pub consume: usize,
    pub refill: bool,
    pub clients: Map<Addr, PcapClientView>,
    pub next_id: ClientId,
    pub first_ts: u64,
    pub packet_count: usize,
    pub bytes_read: usize,
    pub fail_count: usize,
}

/// What a segment leads to.
#[verifier::ext_equal]
pub enum PcapOutcome {
    /// There is more to read.
    Continue,
    /// The time to read has ended.
    Eof,
    /// Bytes of a client. `connect` says that they are the first since the start of
    /// its connection.
    Data { id: ClientId, addr: Addr, ts: u64, connect: bool, buf: Seq<u8> },
}

impl PcapView {
    /// The client at an address, or a fresh one.
    pub open spec fn client(self, addr: Addr) -> PcapClientView {
        if self.clients.contains_key(addr) {
            self.clients[addr]
        } else {
            PcapClientView::fresh(self.next_id)
        }
    }

    /// After a segment, or a block without one. Segments before the time to read
    /// change nothing but the counters.
    pub open spec fn after(self, packet: Option<TsPacketView>) -> (PcapView, PcapOutcome) {
        match packet {
            None => (
                PcapView { fail_count: (self.fail_count + 1) as usize, ..self },
                PcapOutcome::Continue,
            ),
            Some(p) => {
                let first = if self.first_ts == 0 {
                    p.ts
                } else {
                    self.first_ts
                };
                let ts_abs = if p.ts > first {
                    p.ts - first
                } else {
                    0
                };
                let v = PcapView {
                    first_ts: first,
                    packet_count: (self.packet_count + 1) as usize,
                    ..self
                };
                if ts_abs < self.ts_offset {
                    (v, PcapOutcome::Continue)
                } else if ts_abs - self.ts_offset > self.max_duration {
                    (v, PcapOutcome::Eof)
                } else {
                    let c = self.client(p.addr);
                    let (re, bytes, fed) = c.re.fed(p.seq, p.syn, p.payload);
                    let started = c.started || p.syn;
                    let d = PcapClientView { re, started: started && !fed, ..c };
                    (
                        PcapView {
                            clients: self.clients.insert(p.addr, d),
                            next_id: if self.clients.contains_key(p.addr) {
                                self.next_id
                            } else {
                                (self.next_id + 1) as u32
                            },
                            ..v
                        },
                        if fed {
                            PcapOutcome::Data {
                                id: c.id,
                                addr: p.addr,
                                ts: (ts_abs - self.ts_offset) as u64,
                                connect: started,
                                buf: bytes,
                            }
                        } else {
                            PcapOutcome::Continue
                        },
                    )
                }
            },
        }
    }

    /// With a block of so many bytes taken from what was read.
    pub open spec fn consumed(self, n: usize) -> PcapView {
        PcapView {
            consume: (self.consume + n) as usize,
            bytes_read: (self.bytes_read + n) as usize,
            ..self
        }
    }

    /// The counters have room for one more block of so many bytes.
    pub open spec fn roomy(self, n: usize) -> bool {
        &&& self.consume + n <= usize::MAX
        &&& self.bytes_read + n <= usize::MAX
        &&& self.packet_count < usize::MAX
        &&& self.fail_count < usize::MAX
        &&& self.next_id < u32::MAX
    }
}

struct PcapClient {
    id: ClientId,
    re: Reassembler,
    started: bool,
}

impl View for PcapClient {
    type V = PcapClientView;

    closed spec fn view(&self) -> PcapClientView {
        PcapClientView { id: self.id, re: self.re@, started: self.started }
    }
}

/// Reads a capture of packets.
pub struct PcapReader {
    port: u16,
    ts_offset: u64,
    max_duration: u64,
    consume: usize,
    refill: bool,
    clients: AddrTable<PcapClient>,
    next_id: ClientId,
    pub first_ts: u64,
    pub packet_count: usize,
    pub bytes_read: usize,
    pub fail_count: usize,
}

impl View for PcapReader {
    type V = PcapView;

    closed spec fn view(&self) -> PcapView {
        PcapView {
            port: self.port,
            ts_offset: self.ts_offset,
            max_duration: self.max_duration,
            consume: self.consume,
            refill: self.refill,
            clients: self.clients@.map_values(|c: PcapClient| c@),
            next_id: self.next_id,
            first_ts: self.first_ts,
            packet_count: self.packet_count,
            bytes_read: self.bytes_read,
            fail_count: self.fail_count,
        }
    }
}

/// What a segment leads to.
pub enum PcapStep {
    Continue,
    Eof,
    Data { id: ClientId, addr: Addr, ts: u64, connect: bool, buf: Vec<u8> },
}

impl View for PcapStep {
    type V = PcapOutcome;

    open spec fn view(&self) -> PcapOutcome {
        match *self {
            PcapStep::Continue => PcapOutcome::Continue,
            PcapStep::Eof => PcapOutcome::Eof,
            PcapStep::Data { id, addr, ts, connect, buf } => PcapOutcome::Data {
                id,
                addr,
                ts,
                connect,
                buf: buf@,
            },
        }
    }
}

impl PcapReader {
    /// No client is listed twice.
    pub closed spec fn wf(self) -> bool {
        self.clients.wf()
    }

    /// Nothing was read. Times before `ts_offset` are skipped, and reading ends
    /// `max_duration` after it.
    pub fn new(port: u16, ts_offset: u64, max_duration: u64) -> (r: Self)
        ensures
            r.wf(),
            r@ == (PcapView {
                port,
                ts_offset,
                max_duration,
                consume: 0,
                refill: false,
                clients: Map::empty(),
                next_id: 0,
                first_ts: 0,
                packet_count: 0,
                bytes_read: 0,
                fail_count: 0,
            }),
    {
        let r = PcapReader {
            port,
            ts_offset,
            max_duration,
            consume: 0,
            refill: false,
            clients: AddrTable::new(),
            next_id: 0,
            first_ts: 0,
            packet_count: 0,
            bytes_read: 0,
            fail_count: 0,
        };
        assert(r@.clients =~= Map::empty());
        r
    }

    /// Before a block is read: how many bytes to drop first, and whether to get more
    /// then.
    pub fn prepare(&mut self) -> (r: (usize, bool))
        ensures
            r == (old(self)@.consume, old(self)@.refill),
            final(self)@ == (PcapView { consume: 0, ..old(self)@ }),
            old(self).wf() ==> final(self).wf(),
    {
        let n: usize = self.consume;
        self.consume = 0;
        (n, self.refill)
    }

    /// More bytes were got.
    pub fn refilled(&mut self)
        ensures
            final(self)@ == (PcapView { refill: false, ..old(self)@ }),
            old(self).wf() ==> final(self).wf(),
    {
        self.refill = false;
    }

    /// A block is not all there: more bytes are needed.
    pub fn on_incomplete(&mut self)
        ensures
            final(self)@ == (PcapView { refill: true, ..old(self)@ }),
            old(self).wf() ==> final(self).wf(),
    {
        self.refill = true;
    }

    /// Whether the counters have room for one more block of so many bytes.
    pub fn has_room(&self, consumed: usize) -> (r: bool)
        ensures
            r == self@.roomy(consumed),
    {
        consumed <= usize::MAX - self.consume && consumed <= usize::MAX - self.bytes_read
            && self.packet_count < usize::MAX && self.fail_count < usize::MAX && self.next_id
            < u32::MAX
    }

    /// Takes in a block that took so many bytes.
    pub fn on_block(&mut self, consumed: usize, block: CapturedBlock<'_>) -> (r: PcapStep)
        requires
            old(self).wf(),
            old(self)@.roomy(consumed),
        ensures
            final(self).wf(),
            (final(self)@, r@) == old(self)@.consumed(consumed).after(
                segment_in(block, old(self)@.port),
            ),
    {
        self.bytes_read += consumed;
        self.consume += consumed;
        let packet = process_block(block, self.port);
        self.on_packet(packet)
    }

    /// Takes in a segment, or a block without one.
    pub fn on_packet(&mut self, packet: Option<TsPacket<'_>>) -> (r: PcapStep)
        requires
            old(self).wf(),
            old(self)@.packet_count < usize::MAX,
            old(self)@.fail_count < usize::MAX,
            old(self)@.next_id < u32::MAX,
        ensures
            final(self).wf(),
            (final(self)@, r@) == old(self)@.after(packet::ts_view(packet)),
    {
        let ghost before = self@;
        let p = match packet {
            Some(p) => p,
            None => {
                self.fail_count += 1;
                return PcapStep::Continue;
            },
        };
        self.packet_count += 1;
        if self.first_ts == 0 {
            self.first_ts = p.ts;
        }
        let ts_abs: u64 = p.ts.saturating_sub(self.first_ts);
        if ts_abs < self.ts_offset {
            return PcapStep::Continue;
        }
        let ts: u64 = ts_abs - self.ts_offset;
        if ts > self.max_duration {
            return PcapStep::Eof;
        }
        let ghost held = self.clients@;
        let mut client = match self.clients.take(&p.addr) {
            Some(c) => c,
            None => {
                let id: u32 = self.next_id;
                self.next_id = id + 1;
                PcapClient { id, re: Reassembler::default(), started: false }
            },
        };
        assert(client@ == before.client(p.addr));
        if p.tcp.syn {
            client.started = true;
        }
        let mut buf: Vec<u8> = Vec::new();
        let fed = client.re.feed(p.tcp.sequence_number, p.tcp.syn, p.tcp.payload, &mut buf);
        let id: u32 = client.id;
        let connect = client.started;
        if fed {
            client.started = false;
        }
        let ghost done = client@;
        self.clients.insert(p.addr, client);
        proof {
            assert(self@.clients =~= before.clients.insert(p.addr, done));
            let bytes = before.client(p.addr).re.fed(p.tcp.sequence_number, p.tcp.syn, p.tcp.payload@).1;
            assert(buf@ =~= bytes);
        }
        if fed {
            PcapStep::Data { id, addr: p.addr, ts, connect, buf }
        } else {
            PcapStep::Continue
        }
    }
}

} // verus!
