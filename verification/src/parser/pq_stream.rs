//! One direction of a connection: segments in, frames out.
use std::collections::BTreeMap;

use vstd::prelude::*;

use crate::capture::frame_buffer;
use crate::capture::frame_buffer::MAX_FRAME_LEN;
use crate::capture::held;
use crate::capture::packet::{TsPacket, TsPacketView};
use crate::proto::tags;
use crate::utils::addr::Addr;
use crate::utils::parse;
use crate::utils::parse::{bytes_at, bytes_from, read_u32};
use crate::utils::wire::push_bytes;

verus! {

/// How many bytes that were consumed may stay in front of the others.
pub const MAX_CONSUMED: usize = 65_536;

/// A frame: whose, when it came, its type byte (zero where it has none), how many
/// bytes its header takes, and all its bytes.
pub struct PqFrame<'a> {
    pub addr: Addr,
    pub ts: u64,
    pub tag: u8,
    pub offset: usize,
    pub payload: &'a [u8],
}

/// What a stream holds: bytes, of which `head` are consumed (or more than there
/// are, where bytes to come are to be skipped); the order of segments; and the
/// time that the next frame gets.
#[verifier::ext_equal]
pub struct PqStreamView {
    pub buf: Seq<u8>,
    pub head: int,
    pub next_seq: Option<u32>,
    pub reorder: Map<u32, Seq<u8>>,
    pub addr: Addr,
    pub frame_ts: u64,
    pub update_ts: bool,
}

/// Whether a server sends frames with this type byte.
pub open spec fn is_backend_tag(tag: u8) -> bool {
    ||| tag == tags::B_AUTH_REQUEST
    ||| tag == tags::B_BACKEND_KEY_DATA
    ||| tag == tags::B_READY_FOR_QUERY
    ||| tag == tags::B_COMMAND_COMPLETE
    ||| tag == tags::B_PARAMETER_STATUS
    ||| tag == tags::B_PARSE_COMPLETE
    ||| tag == tags::B_BIND_COMPLETE
    ||| tag == tags::B_CLOSE_COMPLETE
    ||| tag == tags::B_NO_DATA
    ||| tag == tags::B_PORTAL_SUSPENDED
    ||| tag == tags::B_EMPTY_QUERY
    ||| tag == tags::B_ROW_DESC
    ||| tag == tags::B_PARAMETER_DESC
    ||| tag == tags::B_DATA_ROW
    ||| tag == tags::B_ERROR
    ||| tag == tags::B_NOTIFICATION
    ||| tag == tags::B_NOTICE
}

/// Whether a frame may start with these bytes: a type byte of the given side, and
/// a length in the limits.
pub open spec fn starts_frame(b: Seq<u8>, is_frontend: bool) -> bool {
    let len = parse::be32(b.skip(1));
    &&& if is_frontend {
        frame_buffer::is_client_tag(b[0])
    } else {
        is_backend_tag(b[0])
    }
    &&& 4 <= len <= MAX_FRAME_LEN
}

/// What stands at the start of bytes.
pub enum Head {
    /// A frame: its type byte (zero where it has none), the length of its header,
    /// and its length.
    Frame { tag: u8, offset: int, len: int },
    /// More bytes must come.
    Wait,
    /// A header of so many bytes that cannot be one.
    Corrupt(int),
}

/// What stands at the start of bytes: a frame without type byte where the first
/// byte is zero, and one with type byte otherwise.
pub open spec fn head_of(b: Seq<u8>) -> Head {
    if b.len() < 4 {
        Head::Wait
    } else if b[0] == 0 {
        let len = parse::be32(b);
        if len < 8 || len > MAX_FRAME_LEN {
            Head::Corrupt(4)
        } else if b.len() < len {
            Head::Wait
        } else {
            Head::Frame { tag: 0, offset: 4, len }
        }
    } else if b.len() < 5 {
        Head::Wait
    } else {
        let len = parse::be32(b.skip(1));
        if len < 4 || len > MAX_FRAME_LEN {
            Head::Corrupt(5)
        } else if b.len() < 1 + len {
            Head::Wait
        } else {
            Head::Frame { tag: b[0], offset: 5, len: 1 + len }
        }
    }
}

impl PqStreamView {
    /// The bytes that are not consumed.
    pub open spec fn rest(self) -> Seq<u8> {
        if self.head <= self.buf.len() {
            self.buf.skip(self.head)
        } else {
            Seq::empty()
        }
    }

    /// Whether there are enough bytes behind a corrupt header to go on with.
    pub open spec fn peekable(self) -> bool {
        head_of(self.rest()) matches Head::Corrupt(n) ==> self.rest().len() >= n + 5
    }

    /// Past a corrupt header. Where no frame may start there, all bytes are given up,
    /// and one that is to come.
    pub open spec fn resynced(self, is_frontend: bool) -> PqStreamView {
        match head_of(self.rest()) {
            Head::Corrupt(n) => PqStreamView {
                head: if starts_frame(self.rest().skip(n), is_frontend) {
                    self.head + n
                } else {
                    self.buf.len() as int + 1
                },
                ..self
            },
            _ => self,
        }
    }

    /// After a look at the next frame.
    pub open spec fn peeked(self, is_frontend: bool) -> PqStreamView {
        let v = self.resynced(is_frontend);
        if head_of(v.rest()) is Frame {
            PqStreamView { update_ts: true, ..v }
        } else {
            v
        }
    }

    /// After a segment.
    pub open spec fn ingested(self, seq: u32, payload: Seq<u8>) -> PqStreamView {
        let (next_seq, reorder, bytes) = held::sorted_in(
            self.next_seq,
            self.reorder,
            seq,
            payload,
        );
        PqStreamView { buf: self.buf + bytes, next_seq, reorder, ..self }
    }

    /// After the segment that opens the connection.
    pub open spec fn opened(self, syn_seq: u32) -> PqStreamView {
        PqStreamView {
            next_seq: match self.next_seq {
                Some(n) => Some(n),
                None => Some(held::advanced(syn_seq, 1)),
            },
            ..self
        }
    }

    /// When bytes came at `ts`.
    pub open spec fn stamped(self, ts: u64) -> PqStreamView {
        if self.update_ts {
            PqStreamView { frame_ts: ts, update_ts: false, ..self }
        } else {
            self
        }
    }

    /// After a packet. The segment that opens the connection takes a number of its
    /// own, in front of its bytes.
    pub open spec fn processed(self, p: TsPacketView) -> PqStreamView {
        if p.syn {
            self.stamped(p.ts).opened(p.seq).ingested(held::advanced(p.seq, 1), p.payload)
        } else {
            self.stamped(p.ts).ingested(p.seq, p.payload)
        }
    }

    /// Without the bytes that are consumed, where these are many, and more than half.
    pub open spec fn compacted(self) -> PqStreamView {
        if self.compacts() {
            PqStreamView { buf: self.buf.skip(self.head), head: 0, ..self }
        } else {
            self
        }
    }

    /// Whether the bytes that are consumed are many, and more than half.
    pub open spec fn compacts(self) -> bool {
        self.head > MAX_CONSUMED && self.head >= self.buf.len() / 2
    }
}

/// One direction of a connection.
pub struct PqStream {
    buf: Vec<u8>,
    head: usize,
    next_seq: Option<u32>,
    reorder: BTreeMap<u32, Vec<u8>>,
    pub addr: Addr,
    frame_ts: u64,
    update_ts: bool,
}

impl View for PqStream {
    type V = PqStreamView;

    closed spec fn view(&self) -> PqStreamView {
        PqStreamView {
            buf: self.buf@,
            head: self.head as int,
            next_seq: self.next_seq,
            reorder: held::bytes_of(self.reorder@),
            addr: self.addr,
            frame_ts: self.frame_ts,
            update_ts: self.update_ts,
        }
    }
}

/// Whether a frame may start with these bytes.
fn may_start(b: &[u8], is_frontend: bool) -> (r: bool)
    requires
        b@.len() >= 5,
    ensures
        r == starts_frame(b@, is_frontend),
{
    let tag: u8 = b[0];
    let len: u32 = read_u32(bytes_from(b, 1));
    let known: bool = if is_frontend {
        frame_buffer::client_tag(tag)
    } else {
        tag == tags::B_AUTH_REQUEST || tag == tags::B_BACKEND_KEY_DATA || tag
            == tags::B_READY_FOR_QUERY || tag == tags::B_COMMAND_COMPLETE || tag
            == tags::B_PARAMETER_STATUS || tag == tags::B_PARSE_COMPLETE || tag
            == tags::B_BIND_COMPLETE || tag == tags::B_CLOSE_COMPLETE || tag == tags::B_NO_DATA
            || tag == tags::B_PORTAL_SUSPENDED || tag == tags::B_EMPTY_QUERY || tag
            == tags::B_ROW_DESC || tag == tags::B_PARAMETER_DESC || tag == tags::B_DATA_ROW || tag
            == tags::B_ERROR || tag == tags::B_NOTIFICATION || tag == tags::B_NOTICE
    };
    known && 4 <= len && len <= MAX_FRAME_LEN
}

/// What stands at the start of bytes: a type byte, the length of the header and
/// the length of the frame; nothing where more bytes must come; and the length of
/// a corrupt header.
fn read_head(b: &[u8]) -> (r: Result<Option<(u8, usize, usize)>, usize>)
    ensures
        match head_of(b@) {
            Head::Frame { tag, offset, len } => r matches Ok(Some((t, o, l))) && t == tag && o
                == offset && l == len && 4 <= len <= b@.len(),
            Head::Wait => r matches Ok(None),
            Head::Corrupt(n) => r matches Err(k) && k == n && n <= b@.len(),
        },
{
    if b.len() < 4 {
        return Ok(None);
    }
    if b[0] == 0x00 {
        let length: u32 = read_u32(b);
        if length < 8 || length > MAX_FRAME_LEN {
            return Err(4);
        }
        if b.len() < length as usize {
            return Ok(None);
        }
        return Ok(Some((0, 4, length as usize)));
    }
    if b.len() < 5 {
        return Ok(None);
    }
    let length: u32 = read_u32(bytes_from(b, 1));
    if length < 4 || length > MAX_FRAME_LEN {
        return Err(5);
    }
    if b.len() < 1 + length as usize {
        return Ok(None);
    }
    Ok(Some((b[0], 5, 1 + length as usize)))
}

impl PqStream {
    /// A stream of which nothing came yet.
    pub fn new(addr: Addr) -> (r: Self)
        ensures
            r@ == (PqStreamView {
                buf: Seq::empty(),
                head: 0,
                next_seq: None,
                reorder: Map::empty(),
                addr,
                frame_ts: 0,
                update_ts: true,
            }),
    {
        let r = PqStream {
            buf: Vec::new(),
            head: 0,
            next_seq: None,
            reorder: BTreeMap::new(),
            addr,
            frame_ts: 0,
            update_ts: true,
        };
        assert(r@.reorder =~= Map::empty());
        r
    }

    /// Notes the number of the segment that opens the connection.
    pub fn set_isn(&mut self, syn_seq: u32)
        ensures
            final(self)@ == old(self)@.opened(syn_seq),
    {
        if self.next_seq.is_none() {
            self.next_seq = Some(held::advance(syn_seq, 1));
        }
    }

    /// Notes when the bytes came that the next frame starts with.
    pub fn set_ts(&mut self, ts: u64)
        ensures
            final(self)@ == old(self)@.stamped(ts),
    {
        if self.update_ts {
            self.frame_ts = ts;
            self.update_ts = false;
        }
    }

    /// Takes in a segment whose first byte has number `seq`.
    pub fn ingest(&mut self, seq: u32, payload: &[u8])
        ensures
            final(self)@ == old(self)@.ingested(seq, payload@),
    {
        let bytes = held::sort_in(&mut self.next_seq, &mut self.reorder, seq, payload);
        push_bytes(&mut self.buf, bytes.as_slice());
    }

    /// Takes in a packet.
    pub fn process_packet(&mut self, packet: &TsPacket<'_>)
        ensures
            final(self)@ == old(self)@.processed(packet@),
    {
        self.set_ts(packet.ts);
        let seq: u32 = packet.tcp.sequence_number;
        if packet.tcp.syn {
            self.set_isn(seq);
            self.ingest(held::advance(seq, 1), packet.tcp.payload);
        } else {
            self.ingest(seq, packet.tcp.payload);
        }
    }

    /// How many bytes are not consumed.
    pub fn len(&self) -> (r: usize)
        ensures
            r == self@.rest().len(),
    {
        self.buf.len().saturating_sub(self.head)
    }

    /// Whether there are enough bytes behind a corrupt header to go on with.
    pub fn is_peekable(&self) -> (r: bool)
        ensures
            r == self@.peekable(),
    {
        if self.len() < 4 {
            return true;
        }
        let b = bytes_from(self.buf.as_slice(), self.head);
        match read_head(b) {
            Err(n) => b.len() - n >= 5,
            _ => true,
        }
    }

    /// Looks at the next frame: its length, and the frame. A corrupt header is
    /// skipped.
    pub fn peek_frame(&mut self, is_frontend: bool) -> (r: Option<(usize, PqFrame<'_>)>)
        requires
            old(self)@.peekable(),
            old(self)@.buf.len() < usize::MAX,
        ensures
            final(self)@ == old(self)@.peeked(is_frontend),
            ({
                let v = old(self)@.resynced(is_frontend);
                match head_of(v.rest()) {
                    Head::Frame { tag, offset, len } => r matches Some((n, f)) && n == len && f.tag
                        == tag && f.offset == offset && f.payload@ == v.rest().take(len) && f.ts
                        == v.frame_ts && f.addr == v.addr,
                    _ => r is None,
                }
            }),
    {
        if self.len() < 4 {
            return None;
        }
        let ghost start = self@;
        let b = bytes_from(self.buf.as_slice(), self.head);
        if let Err(n) = read_head(b) {
            let ghost rest = start.rest();
            let found: bool = may_start(bytes_from(b, n), is_frontend);
            if found {
                self.head = self.head + n;
            } else {
                self.head = self.buf.len() + 1;
                return None;
            }
            assert(self@ == start.resynced(is_frontend));
        }
        let ghost v = self@;
        assert(v == start.resynced(is_frontend));
        let b = bytes_from(self.buf.as_slice(), self.head);
        assert(b@ =~= v.rest());
        match read_head(b) {
            Ok(Some((tag, offset, len))) => {
                self.update_ts = true;
                let payload = bytes_at(self.buf.as_slice(), self.head, len);
                assert(payload@ =~= v.rest().take(len as int));
                Some(
                    (len, PqFrame { addr: self.addr, ts: self.frame_ts, tag, offset, payload }),
                )
            },
            _ => None,
        }
    }

    /// Consumes bytes.
    pub fn consume(&mut self, length: usize)
        requires
            old(self)@.head + length <= usize::MAX,
            ({
                let v = PqStreamView { head: old(self)@.head + length, ..old(self)@ };
                v.compacts() ==> v.head <= v.buf.len()
            }),
        ensures
            final(self)@ == (PqStreamView {
                head: old(self)@.head + length,
                ..old(self)@
            }).compacted(),
    {
        self.head = self.head + length;
        let ghost v = self@;
        if self.head > MAX_CONSUMED && self.head >= self.buf.len() / 2 {
            let rest = self.buf.split_off(self.head);
            assert(rest@ =~= v.buf.skip(v.head));
            self.buf = rest;
            self.head = 0;
        }
    }
}

/// A frame that may start behind a corrupt header is not corrupt itself: one step
/// is enough.
pub proof fn law_resync_once(v: PqStreamView, is_frontend: bool)
    requires
        0 <= v.head,
        v.peekable(),
    ensures
        !(head_of(v.resynced(is_frontend).rest()) is Corrupt),
{
    if let Head::Corrupt(n) = head_of(v.rest()) {
        if starts_frame(v.rest().skip(n), is_frontend) {
            assert(v.resynced(is_frontend).rest() =~= v.rest().skip(n));
        }
    }
}

/// Consuming the frame that was looked at leaves what stands behind it, whether
/// or not bytes are let go of.
pub proof fn law_consume(v: PqStreamView, len: int)
    requires
        0 <= v.head <= v.buf.len(),
        0 <= len <= v.rest().len(),
    ensures
        (PqStreamView { head: v.head + len, ..v }).compacted().rest() == v.rest().skip(len),
{
    let w = PqStreamView { head: v.head + len, ..v };
    assert(w.compacted().rest() =~= v.rest().skip(len));
}

} // verus!
