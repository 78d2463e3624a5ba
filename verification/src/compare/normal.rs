//! Comparison of two captures packet by packet.
use vstd::prelude::*;

use crate::capture::frame_buffer::FrameBufferView;
use crate::capture::packet::TsPacket;
use crate::capture::tcp_handler::TcpHandlerView;
use crate::compare::error::{format_frame_mismatch, CompareError};
use crate::compare::map::{
    ClientPair, CompareMap, CompareMapView, PairView, StreamClient, StreamClientView,
};
use crate::compare::pair;
use crate::compare::pair::frame_body;
use crate::compare::turns::{ReadOutcome, Side};
use crate::parser::c2s_display;
use crate::utils::addr::Addr;
use crate::utils::chars::same_bytes;

verus! {

/// What a packet is to a comparison.
#[derive(Debug, Clone, Copy, PartialEq, Eq, Structural)]
pub enum PacketFate {
    /// It goes to another port.
    OtherPort,
    /// Its sender is ignored.
    Ignored,
    /// Its sender has no counterpart, and is ignored from now on.
    NoCounterpart,
    /// It belongs to the pair with these addresses.
    Pair(Addr, Addr),
}

impl PacketFate {
    /// What a packet with this fate makes of the turn in which it was read.
    pub open spec fn counts_as(self) -> ReadOutcome {
        match self {
            PacketFate::OtherPort | PacketFate::Ignored => ReadOutcome::Passed,
            PacketFate::NoCounterpart | PacketFate::Pair(_, _) => ReadOutcome::Taken,
        }
    }

    /// What a packet with this fate makes of the turn in which it was read.
    pub fn outcome(self) -> (r: ReadOutcome)
        ensures
            r == self.counts_as(),
    {
        match self {
            PacketFate::OtherPort | PacketFate::Ignored => ReadOutcome::Passed,
            PacketFate::NoCounterpart | PacketFate::Pair(_, _) => ReadOutcome::Taken,
        }
    }
}

/// What one capture has shown: how many packets went to the port, when the first
/// of them came, and whose packets are ignored.
pub struct CaptureSide {
    pub port: u16,
    pub packets: u64,
    pub first_ts: Option<u64>,
    pub ignored: Vec<Addr>,
}

/// What one capture has shown.
#[verifier::ext_equal]
pub struct SideView {
    pub port: u16,
    pub packets: u64,
    pub first_ts: Option<u64>,
    pub ignored: Seq<Addr>,
}

impl View for CaptureSide {
    type V = SideView;

    open spec fn view(&self) -> SideView {
        SideView {
            port: self.port,
            packets: self.packets,
            first_ts: self.first_ts,
            ignored: self.ignored@,
        }
    }
}

impl SideView {
    /// After a packet, and what it is to the comparison. `pair` gives the addresses of
    /// the pair that its sender belongs to, if any.
    pub open spec fn shown(
        self,
        addr: Addr,
        ts: u64,
        port: u16,
        pair: Option<(Addr, Addr)>,
    ) -> (SideView, PacketFate) {
        if port != self.port {
            (self, PacketFate::OtherPort)
        } else {
            let v = SideView {
                packets: (self.packets + 1) as u64,
                first_ts: match self.first_ts {
                    Some(t) => Some(t),
                    None => Some(ts),
                },
                ..self
            };
            if self.ignored.contains(addr) {
                (v, PacketFate::Ignored)
            } else {
                match pair {
                    Some((a, b)) => (v, PacketFate::Pair(a, b)),
                    None => (
                        SideView { ignored: self.ignored.push(addr), ..v },
                        PacketFate::NoCounterpart,
                    ),
                }
            }
        }
    }
}

impl CaptureSide {
    /// Nothing was read yet.
    pub fn new(port: u16) -> (r: Self)
        ensures
            r@ == (SideView { port, packets: 0, first_ts: None, ignored: Seq::empty() }),
    {
        let r = CaptureSide { port, packets: 0, first_ts: None, ignored: Vec::new() };
        assert(r@.ignored =~= Seq::empty());
        r
    }

    /// Whether packets of an address are ignored.
    fn ignores(&self, addr: &Addr) -> (r: bool)
        ensures
            r == self.ignored@.contains(*addr),
    {
        let mut i: usize = 0;
        while i < self.ignored.len()
            invariant
                i <= self.ignored@.len(),
                forall|k: int| 0 <= k < i ==> self.ignored@[k] != *addr,
            decreases self.ignored@.len() - i,
        {
            if self.ignored[i] == *addr {
                return true;
            }
            i += 1;
        }
        false
    }

    /// Takes in a packet. `pair` gives the addresses of the pair that its sender
    /// belongs to, if any.
    pub fn on_packet(&mut self, addr: Addr, ts: u64, port: u16, pair: Option<(Addr, Addr)>) -> (r:
        PacketFate)
        requires
            old(self).packets < u64::MAX,
        ensures
            (final(self)@, r) == old(self)@.shown(addr, ts, port, pair),
    {
        if port != self.port {
            return PacketFate::OtherPort;
        }
        if self.first_ts.is_none() {
            self.first_ts = Some(ts);
        }
        self.packets += 1;
        if self.ignores(&addr) {
            return PacketFate::Ignored;
        }
        match pair {
            Some((a, b)) => PacketFate::Pair(a, b),
            None => {
                self.ignored.push(addr);
                PacketFate::NoCounterpart
            },
        }
    }
}

impl StreamClientView {
    /// With the frames that the segments so far complete. They came at `ts`.
    pub open spec fn read(self, ts: u64) -> StreamClientView {
        let stream = self.stream.cut(ts);
        let (n, m) = (self.stream.buf.frames.len(), stream.buf.frames.len());
        StreamClientView {
            connect_ts: match self.connect_ts {
                Some(t) => Some(t),
                None => Some(ts),
            },
            timings: self.timings + Seq::new(
                if m > n {
                    (m - n) as nat
                } else {
                    0
                },
                |i: int| ts,
            ),
            stream,
            ..self
        }
    }

    /// After a segment, and whether it had bytes that came next.
    pub open spec fn received(self, seq: u32, syn: bool, payload: Seq<u8>, ts: u64) -> (
        StreamClientView,
        bool,
    ) {
        let (stream, fed) = self.stream.processed(seq, syn, payload);
        let v = StreamClientView { stream, ..self };
        if fed {
            (v.read(ts), true)
        } else {
            (v, false)
        }
    }
}

impl StreamClient {
    /// Queues the frames that the segments so far complete. They came at `ts`.
    pub fn read_stream(&mut self, ts: u64)
        requires
            old(self).stream@.buf.wf(),
        ensures
            final(self)@ == old(self)@.read(ts),
            final(self).stream@.buf.wf(),
    {
        if self.connect_ts.is_none() {
            self.connect_ts = Some(ts);
        }
        let before: usize = self.stream.queued();
        let after: usize = self.stream.cut_frames(ts);
        let ghost start = self.timings@;
        let mut n: usize = before;
        assert(start =~= start + Seq::new(0, |i: int| ts));
        while n < after
            invariant
                before <= n,
                n <= after || n == before,
                self.timings@ == start + Seq::new((n - before) as nat, |i: int| ts),
                self.addr == old(self).addr,
                self.stream@ == old(self).stream@.cut(ts),
                self.stream@.buf.wf(),
                self.connect_ts == match old(self).connect_ts {
                    Some(t) => Some(t),
                    None => Some(ts),
                },
            decreases after - n,
        {
            self.timings.push(ts);
            n += 1;
            assert(self.timings@ =~= start + Seq::new((n - before) as nat, |i: int| ts));
        }
        assert(self@ =~= old(self)@.read(ts));
    }

    /// Takes in a segment that came at `ts`. The result says whether it had bytes that
    /// came next.
    pub fn receive(&mut self, packet: &TsPacket<'_>) -> (r: bool)
        requires
            old(self)@.stream.accepts(packet@.seq, packet@.syn, packet@.payload),
        ensures
            (final(self)@, r) == old(self)@.received(
                packet@.seq,
                packet@.syn,
                packet@.payload,
                packet@.ts,
            ),
            final(self)@.stream.buf.wf(),
    {
        if self.stream.process_packet(&packet.tcp) {
            self.read_stream(packet.ts);
            true
        } else {
            false
        }
    }
}

/// Whether two clients have frames that are not the same.
pub open spec fn first_frames_differ(v1: FrameBufferView, v2: FrameBufferView) -> bool {
    v1.frames.len() > 0 && v2.frames.len() > 0 && v1.frame_bytes(v1.frames[0]) != v2.frame_bytes(
        v2.frames[0],
    )
}

/// Without the first frame.
pub open spec fn stepped(t: TcpHandlerView) -> TcpHandlerView {
    TcpHandlerView {
        buf: FrameBufferView { frames: t.buf.frames.drop_first(), ..t.buf },
        ..t
    }
}

impl PairView {
    /// Without the first frames of both clients, where they are the same.
    pub open spec fn checked(self) -> PairView {
        let (a, b) = (self.c1.stream, self.c2.stream);
        if a.buf.frames.len() > 0 && b.buf.frames.len() > 0 && !first_frames_differ(
            a.buf,
            b.buf,
        ) {
            PairView {
                c1: StreamClientView { stream: stepped(a), ..self.c1 },
                c2: StreamClientView { stream: stepped(b), ..self.c2 },
            }
        } else {
            self
        }
    }

    /// What is said where the first frames of both clients are not the same.
    pub open spec fn mismatch(self, e: CompareError) -> bool {
        let (a, b) = (self.c1.stream, self.c2.stream);
        let (f, g) = (a.buf.frames[0], b.buf.frames[0]);
        &&& e.wf()
        &&& e matches CompareError::MismatchedFrames {
            addr1,
            info1,
            content1,
            addr2,
            info2,
            content2,
        } && addr1 == self.c1.addr && info1 == f && content1@ == c2s_display::frame_text(
            f.tag,
            pair::body(f, a.buf.frame_bytes(f)),
        ) && addr2 == self.c2.addr && info2 == g && content2@ == c2s_display::frame_text(
            g.tag,
            pair::body(g, b.buf.frame_bytes(g)),
        )
    }
}

/// Compares the first frames of two clients, where both have one, and drops them
/// where they are the same.
pub fn check_pair(pair: &mut ClientPair) -> (r: Result<(), CompareError>)
    requires
        old(pair)@.wf(),
    ensures
        final(pair)@ == old(pair)@.checked(),
        final(pair)@.wf(),
        match r {
            Ok(_) => !first_frames_differ(
                old(pair)@.c1.stream.buf,
                old(pair)@.c2.stream.buf,
            ),
            Err(e) => first_frames_differ(old(pair)@.c1.stream.buf, old(pair)@.c2.stream.buf)
                && old(pair)@.mismatch(e),
        },
{
    let (info1, info2) = match (pair.c1.stream.peek_frame(), pair.c2.stream.peek_frame()) {
        (Some(a), Some(b)) => (a, b),
        _ => return Ok(()),
    };
    let frame1 = pair.c1.stream.read_frame(&info1);
    let frame2 = pair.c2.stream.read_frame(&info2);
    if !same_bytes(frame1, frame2) {
        return Err(
            format_frame_mismatch(
                pair.c1.addr,
                &info1,
                frame_body(&info1, frame1),
                pair.c2.addr,
                &info2,
                frame_body(&info2, frame2),
            ),
        );
    }
    pair.c1.stream.next_frame();
    pair.c2.stream.next_frame();
    Ok(())
}

/// Two captures that are compared: the pairs of their clients, and what each has
/// shown.
#[verifier::ext_equal]
pub struct NormalView {
    pub map: CompareMapView,
    pub c1: SideView,
    pub c2: SideView,
}

impl NormalView {
    /// The addresses of the pair that a sender belongs to.
    pub open spec fn pair_of(self, side: Side, addr: Addr) -> Option<(Addr, Addr)> {
        match side {
            Side::First => if self.map.c1_to_c2.contains_key(addr) {
                Some((addr, self.map.c1_to_c2[addr]))
            } else {
                None
            },
            Side::Second => if self.map.c2_to_c1.contains_key(addr) {
                Some((self.map.c2_to_c1[addr], addr))
            } else {
                None
            },
        }
    }

    /// With what a packet shows, and what it is to the comparison.
    pub open spec fn shown(self, side: Side, addr: Addr, ts: u64, port: u16) -> (
        NormalView,
        PacketFate,
    ) {
        let pair = self.pair_of(side, addr);
        match side {
            Side::First => {
                let (c1, fate) = self.c1.shown(addr, ts, port, pair);
                (NormalView { c1, ..self }, fate)
            },
            Side::Second => {
                let (c2, fate) = self.c2.shown(addr, ts, port, pair);
                (NormalView { c2, ..self }, fate)
            },
        }
    }
}

/// A pair after a segment of one of its clients, and whether the segment had bytes
/// that came next.
pub open spec fn pair_received(
    p: PairView,
    side: Side,
    seq: u32,
    syn: bool,
    payload: Seq<u8>,
    ts: u64,
) -> (PairView, bool) {
    match side {
        Side::First => {
            let (c1, fed) = p.c1.received(seq, syn, payload, ts);
            (PairView { c1, ..p }, fed)
        },
        Side::Second => {
            let (c2, fed) = p.c2.received(seq, syn, payload, ts);
            (PairView { c2, ..p }, fed)
        },
    }
}

/// Whether there is room for a segment of one of the clients of a pair.
pub open spec fn pair_accepts(
    p: PairView,
    side: Side,
    seq: u32,
    syn: bool,
    payload: Seq<u8>,
) -> bool {
    match side {
        Side::First => p.c1.stream.accepts(seq, syn, payload),
        Side::Second => p.c2.stream.accepts(seq, syn, payload),
    }
}

/// Compares two captures packet by packet.
pub struct NormalCompare {
    pub map: CompareMap,
    pub c1: CaptureSide,
    pub c2: CaptureSide,
}

impl View for NormalCompare {
    type V = NormalView;

    open spec fn view(&self) -> NormalView {
        NormalView { map: self.map@, c1: self.c1@, c2: self.c2@ }
    }
}

impl NormalCompare {
    /// The tables are in order, and the buffers sound.
    pub open spec fn wf(self) -> bool {
        self.map.wf() && self.map@.wf()
    }

    /// Nothing was read of two captures with the given pairs of clients.
    pub fn new(map: CompareMap, port1: u16, port2: u16) -> (r: Self)
        requires
            map.wf(),
            map@.wf(),
        ensures
            r.wf(),
            r@ == (NormalView {
                map: map@,
                c1: SideView { port: port1, packets: 0, first_ts: None, ignored: Seq::empty() },
                c2: SideView { port: port2, packets: 0, first_ts: None, ignored: Seq::empty() },
            }),
    {
        NormalCompare { map, c1: CaptureSide::new(port1), c2: CaptureSide::new(port2) }
    }

    /// The addresses of the pair that a sender belongs to.
    fn find(&self, side: Side, addr: Addr) -> (r: Option<(Addr, Addr)>)
        requires
            self.wf(),
        ensures
            r == self@.pair_of(side, addr),
    {
        match side {
            Side::First => self.map.find_c1(addr),
            Side::Second => self.map.find_c2(addr),
        }
    }

    /// Whether there is room for a packet.
    pub fn has_room(&self, side: Side, packet: &TsPacket<'_>) -> (r: bool)
        requires
            self.wf(),
        ensures
            r == (self@.c1.packets < u64::MAX && self@.c2.packets < u64::MAX
                && match self@.pair_of(side, packet.addr) {
                Some((a, b)) => pair_accepts(
                    self@.map.pair(a, b),
                    side,
                    packet@.seq,
                    packet@.syn,
                    packet@.payload,
                ),
                None => true,
            }),
    {
        if self.c1.packets == u64::MAX || self.c2.packets == u64::MAX {
            return false;
        }
        match self.find(side, packet.addr) {
            Some((a, b)) => match self.map.pair(&a) {
                Some(p) => match side {
                    Side::First => p.c1.stream.has_room(&packet.tcp),
                    Side::Second => p.c2.stream.has_room(&packet.tcp),
                },
                None => {
                    let c = StreamClient::new(a);
                    c.stream.has_room(&packet.tcp)
                },
            },
            None => true,
        }
    }

    /// Takes in a packet of one of the captures. A packet of a pair goes to the stream
    /// of its sender, and where it brings bytes the pair is compared.
    pub fn on_packet(&mut self, side: Side, packet: &TsPacket<'_>) -> (r: Result<
        PacketFate,
        CompareError,
    >)
        requires
            old(self).wf(),
            old(self)@.c1.packets < u64::MAX,
            old(self)@.c2.packets < u64::MAX,
            match old(self)@.pair_of(side, packet.addr) {
                Some((a, b)) => pair_accepts(
                    old(self)@.map.pair(a, b),
                    side,
                    packet@.seq,
                    packet@.syn,
                    packet@.payload,
                ),
                None => true,
            },
        ensures
            final(self).wf(),
            ({
                let (v, fate) = old(self)@.shown(
                    side,
                    packet.addr,
                    packet.ts,
                    packet.destination_port,
                );
                match fate {
                    PacketFate::Pair(a, b) => {
                        let (p, fed) = pair_received(
                            old(self)@.map.pair(a, b),
                            side,
                            packet@.seq,
                            packet@.syn,
                            packet@.payload,
                            packet@.ts,
                        );
                        let differ = fed && first_frames_differ(
                            p.c1.stream.buf,
                            p.c2.stream.buf,
                        );
                        &&& final(self)@ == (NormalView {
                            map: CompareMapView {
                                clients: old(self)@.map.clients.insert(
                                    a,
                                    if fed {
                                        p.checked()
                                    } else {
                                        p
                                    },
                                ),
                                ..old(self)@.map
                            },
                            ..v
                        })
                        &&& match r {
                            Ok(f) => !differ && f == fate,
                            Err(e) => differ && p.mismatch(e),
                        }
                    },
                    _ => r matches Ok(f) && f == fate && final(self)@ == v,
                }
            }),
    {
        let ghost before = self@;
        let pair = self.find(side, packet.addr);
        let fate = match side {
            Side::First => self.c1.on_packet(
                packet.addr,
                packet.ts,
                packet.destination_port,
                pair,
            ),
            Side::Second => self.c2.on_packet(
                packet.addr,
                packet.ts,
                packet.destination_port,
                pair,
            ),
        };
        let (a, b) = match fate {
            PacketFate::Pair(a, b) => (a, b),
            _ => {
                return Ok(fate);
            },
        };
        let mut p = self.map.take_pair(a, b);
        let fed = match side {
            Side::First => p.c1.receive(packet),
            Side::Second => p.c2.receive(packet),
        };
        let result = if fed {
            check_pair(&mut p)
        } else {
            Ok(())
        };
        let ghost done = p@;
        self.map.put_pair(a, p);
        proof {
            assert(self@.map.clients =~= before.map.clients.insert(a, done));
        }
        match result {
            Ok(_) => Ok(fate),
            Err(e) => Err(e),
        }
    }
}

/// How much later a pair connected in the second capture than in the first, each
/// relative to the first packet.
pub fn connect_lag(connect1: u64, first1: u64, connect2: u64, first2: u64) -> (r: i128)
    requires
        first1 <= connect1,
        first2 <= connect2,
    ensures
        r == (connect2 - first2) - (connect1 - first1),
{
    (connect2 - first2) as i128 - (connect1 - first1) as i128
}

} // verus!
