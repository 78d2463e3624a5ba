//! Captures that are kept in one file: compressed records, then the addresses of
//! the clients, then how many bytes the addresses take.
use vstd::prelude::*;
use vstd::string::*;

use crate::capture::frame_buffer::{FrameBuffer, FrameBufferView};
use crate::capture::record;
use crate::capture::record::{push_record, read_record, Record, RecordView};
use crate::utils::addr::{Addr, AddrTable, Ip};
use crate::utils::parse::{bytes_at, bytes_from};
use crate::utils::text;
use crate::utils::text::push_decimal;
use crate::utils::wire;
use crate::utils::wire::{push_be, push_bytes, push_le16, push_le32, read_be, read_le16, read_le32};

verus! {

/// Marks an address of version 4.
pub const FLAG_V4: u8 = 4;

/// Marks an address of version 6.
pub const FLAG_V6: u8 = 6;

/// How an address is kept: a mark, the octets, and the port.
pub open spec fn addr_bytes(addr: Addr) -> Seq<u8> {
    match addr.ip {
        Ip::V4(n) => seq![FLAG_V4] + wire::be_bytes(n as nat, 4) + wire::le_bytes(
            addr.port as nat,
            2,
        ),
        Ip::V6(n) => seq![FLAG_V6] + wire::be_bytes(n as nat, 16) + wire::le_bytes(
            addr.port as nat,
            2,
        ),
    }
}

/// How addresses are kept.
pub open spec fn map_bytes(addrs: Seq<Addr>) -> Seq<u8>
    decreases addrs.len(),
{
    if addrs.len() == 0 {
        Seq::empty()
    } else {
        map_bytes(addrs.drop_last()) + addr_bytes(addrs.last())
    }
}

/// Why a capture cannot be read.
#[derive(Debug, PartialEq, Eq, Clone, Copy, Structural)]
pub enum ZcapError {
    /// There are not even the bytes that say how long the addresses are.
    TooSmall,
    /// There are fewer bytes than the addresses should take.
    BadLength,
    /// The bytes of an address are not all there.
    Truncated,
    /// A mark of an address is neither of the two.
    BadVersion,
}

impl ZcapError {
    /// The error in words.
    pub open spec fn text(self) -> Seq<char> {
        match self {
            ZcapError::TooSmall => "File too small"@,
            ZcapError::BadLength => "Invalid zcap header/map length"@,
            ZcapError::Truncated => "failed to fill whole buffer"@,
            ZcapError::BadVersion => "Invalid IP version flag in address map"@,
        }
    }

    /// The error in words.
    pub fn to_text(&self) -> (r: &'static str)
        ensures
            r@ == self.text(),
    {
        match self {
            ZcapError::TooSmall => "File too small",
            ZcapError::BadLength => "Invalid zcap header/map length",
            ZcapError::Truncated => "failed to fill whole buffer",
            ZcapError::BadVersion => "Invalid IP version flag in address map",
        }
    }
}

/// Appends an address.
fn serialize_addr(out: &mut Vec<u8>, addr: &Addr)
    ensures
        final(out)@ == old(out)@ + addr_bytes(*addr),
{
    let ghost start = out@;
    match addr.ip {
        Ip::V4(n) => {
            out.push(FLAG_V4);
            push_be(out, n as u128, 4);
        },
        Ip::V6(n) => {
            out.push(FLAG_V6);
            push_be(out, n, 16);
        },
    }
    push_le16(out, addr.port);
    assert(out@ =~= start + addr_bytes(*addr));
}

/// The addresses that bytes hold.
pub open spec fn addrs_of(b: Seq<u8>) -> Result<Seq<Addr>, ZcapError>
    decreases b.len(),
{
    if b.len() == 0 {
        Ok(Seq::empty())
    } else if b[0] != FLAG_V4 && b[0] != FLAG_V6 {
        Err(ZcapError::BadVersion)
    } else {
        let width: int = if b[0] == FLAG_V4 {
            4
        } else {
            16
        };
        if b.len() < width + 3 {
            Err(ZcapError::Truncated)
        } else {
            let n = wire::be(b.subrange(1, width + 1));
            let ip = if b[0] == FLAG_V4 {
                Ip::V4(n as u32)
            } else {
                Ip::V6(n as u128)
            };
            let port = wire::le(b.subrange(width + 1, width + 3)) as u16;
            match addrs_of(b.skip(width + 3)) {
                Ok(rest) => Ok(seq![Addr { ip, port }] + rest),
                Err(e) => Err(e),
            }
        }
    }
}

/// Reads the addresses.
pub fn deserialize_map(data: &[u8]) -> (r: Result<Vec<Addr>, ZcapError>)
    ensures
        match r {
            Ok(v) => addrs_of(data@) == Ok::<Seq<Addr>, ZcapError>(v@),
            Err(e) => addrs_of(data@) == Err::<Seq<Addr>, ZcapError>(e),
        },
{
    let mut addrs: Vec<Addr> = Vec::new();
    let mut at: usize = 0;
    assert(data@.skip(0) =~= data@);
    while at < data.len()
        invariant
            at <= data@.len(),
            addrs_of(data@) == (match addrs_of(data@.skip(at as int)) {
                Ok(rest) => Ok::<Seq<Addr>, ZcapError>(addrs@ + rest),
                Err(e) => Err(e),
            }),
        decreases data@.len() - at,
    {
        let rest = bytes_from(data, at);
        let kind: u8 = rest[0];
        if kind != FLAG_V4 && kind != FLAG_V6 {
            return Err(ZcapError::BadVersion);
        }
        let width: usize = if kind == FLAG_V4 {
            4
        } else {
            16
        };
        if rest.len() < width + 3 {
            return Err(ZcapError::Truncated);
        }
        let octets = bytes_at(rest, 1, width);
        let n: u128 = read_be(octets);
        let port: u16 = read_le16(bytes_from(rest, width + 1));
        let ip = if kind == FLAG_V4 {
            Ip::V4(n as u32)
        } else {
            Ip::V6(n)
        };
        let ghost before = addrs@;
        addrs.push(Addr { ip, port });
        proof {
            assert(rest@.skip(width + 1).take(2) =~= rest@.subrange(width + 1, width + 3));
            assert(rest@.skip(width + 3) =~= data@.skip(at + width + 3));
            match addrs_of(data@.skip(at + width + 3)) {
                Ok(t) => {
                    assert(before + (seq![Addr { ip, port }] + t) =~= addrs@ + t);
                },
                Err(_) => {},
            }
        }
        at = at + width + 3;
    }
    assert(data@.skip(at as int).len() == 0);
    assert(addrs@ + Seq::empty() =~= addrs@);
    Ok(addrs)
}

/// Bytes of one address in front of others are read as that address.
proof fn lemma_first_addr(addr: Addr, rest: Seq<u8>)
    ensures
        addrs_of(addr_bytes(addr) + rest) == (match addrs_of(rest) {
            Ok(v) => Ok::<Seq<Addr>, ZcapError>(seq![addr] + v),
            Err(e) => Err(e),
        }),
{
    let b = addr_bytes(addr) + rest;
    wire::lemma_be_limits();
    wire::lemma_le_limits();
    wire::lemma_le_read_back(addr.port as nat, 2);
    match addr.ip {
        Ip::V4(n) => {
            wire::lemma_be_read_back(n as nat, 4);
            assert(b.subrange(1, 5) =~= wire::be_bytes(n as nat, 4));
            assert(b.subrange(5, 7) =~= wire::le_bytes(addr.port as nat, 2));
            assert(b.skip(7) =~= rest);
        },
        Ip::V6(n) => {
            wire::lemma_be_read_back(n as nat, 16);
            assert(b.subrange(1, 17) =~= wire::be_bytes(n as nat, 16));
            assert(b.subrange(17, 19) =~= wire::le_bytes(addr.port as nat, 2));
            assert(b.skip(19) =~= rest);
        },
    }
}

/// Bytes of addresses in front of others are read as those addresses.
proof fn lemma_addrs(addrs: Seq<Addr>, rest: Seq<u8>)
    ensures
        addrs_of(map_bytes(addrs) + rest) == (match addrs_of(rest) {
            Ok(v) => Ok::<Seq<Addr>, ZcapError>(addrs + v),
            Err(e) => Err(e),
        }),
    decreases addrs.len(),
{
    if addrs.len() == 0 {
        assert(map_bytes(addrs) + rest =~= rest);
        if let Ok(v) = addrs_of(rest) {
            assert(addrs + v =~= v);
        }
    } else {
        let last = addrs.last();
        assert(map_bytes(addrs) + rest =~= map_bytes(addrs.drop_last()) + (addr_bytes(last)
            + rest));
        lemma_addrs(addrs.drop_last(), addr_bytes(last) + rest);
        lemma_first_addr(last, rest);
        if let Ok(v) = addrs_of(rest) {
            assert(addrs.drop_last() + (seq![last] + v) =~= addrs + v);
        }
    }
}

/// Addresses that were written are read back.
pub proof fn law_map_read_back(addrs: Seq<Addr>)
    ensures
        addrs_of(map_bytes(addrs)) == Ok::<Seq<Addr>, ZcapError>(addrs),
{
    lemma_addrs(addrs, Seq::empty());
    assert(map_bytes(addrs) + Seq::empty() =~= map_bytes(addrs));
    assert(addrs + Seq::empty() =~= addrs);
}

/// Traffic of a client, or with no bytes the start of its connection.
pub struct WireEvent {
    pub addr: Addr,
    pub ts: u32,
    pub data: Vec<u8>,
}

/// Numbers the clients in the order in which they occur, and writes their
/// records.
pub struct ZcapWriter {
    addr_ids: AddrTable<u32>,
    addrs_by_id: Vec<Addr>,
}

impl View for ZcapWriter {
    /// The clients by number.
    type V = Seq<Addr>;

    closed spec fn view(&self) -> Seq<Addr> {
        self.addrs_by_id@
    }
}

/// The clients when one more was met.
pub open spec fn met(addrs: Seq<Addr>, addr: Addr) -> Seq<Addr> {
    if addrs.contains(addr) {
        addrs
    } else {
        addrs.push(addr)
    }
}

impl ZcapWriter {
    /// No client has two numbers, and each is found by its address.
    pub closed spec fn wf(self) -> bool {
        &&& self.addr_ids.wf()
        &&& self.addrs_by_id@.no_duplicates()
        &&& self.addrs_by_id@.len() <= u32::MAX
        &&& forall|a: Addr|
            #![trigger self.addr_ids@.contains_key(a)]
            self.addr_ids@.contains_key(a) <==> self.addrs_by_id@.contains(a)
        &&& forall|a: Addr|
            #![trigger self.addr_ids@[a]]
            self.addr_ids@.contains_key(a) ==> self.addr_ids@[a] < self.addrs_by_id@.len()
                && self.addrs_by_id@[self.addr_ids@[a] as int] == a
    }

    /// No client has a number.
    pub fn new() -> (r: Self)
        ensures
            r.wf(),
            r@ == Seq::<Addr>::empty(),
    {
        ZcapWriter { addr_ids: AddrTable::new(), addrs_by_id: Vec::new() }
    }

    /// The record of an event.
    pub fn write_event(&mut self, event: &WireEvent) -> (r: Vec<u8>)
        requires
            old(self).wf(),
            old(self)@.len() < u32::MAX,
            event.data@.len() <= u32::MAX,
        ensures
            final(self).wf(),
            final(self)@ == met(old(self)@, event.addr),
            r@ == record::record_bytes(
                final(self)@.index_of(event.addr) as u32,
                event.ts,
                event.data@,
            ),
    {
        let ghost before = self.addrs_by_id@;
        let known: Option<u32> = match self.addr_ids.get(&event.addr) {
            Some(id) => Some(*id),
            None => None,
        };
        let id: u32 = match known {
            Some(id) => id,
            None => {
                let id: u32 = self.addrs_by_id.len() as u32;
                self.addr_ids.insert(event.addr, id);
                self.addrs_by_id.push(event.addr);
                proof {
                    assert(self.addrs_by_id@[id as int] == event.addr);
                    assert forall|a: Addr|
                        self.addr_ids@.contains_key(a) == self.addrs_by_id@.contains(a) by {
                        if before.contains(a) {
                            assert(self.addrs_by_id@[before.index_of(a)] == a);
                        }
                        if self.addrs_by_id@.contains(a) {
                            let i = self.addrs_by_id@.index_of(a);
                            if i < before.len() {
                                assert(before[i] == a);
                            }
                        }
                    }
                }
                id
            },
        };
        proof {
            assert(self.addrs_by_id@[id as int] == event.addr);
            assert(self.addrs_by_id@.contains(event.addr));
        }
        let mut out: Vec<u8> = Vec::new();
        push_record(&mut out, id, event.ts, event.data.as_slice());
        assert(out@ =~= record::record_bytes(id, event.ts, event.data@));
        out
    }

    /// What stands behind the records.
    pub fn finish(self) -> (r: Vec<u8>)
        requires
            self.wf(),
            map_bytes(self@).len() <= u32::MAX,
        ensures
            r@ == map_bytes(self@) + wire::le_bytes(map_bytes(self@).len(), 4),
    {
        let mut out: Vec<u8> = Vec::new();
        let mut i: usize = 0;
        let addrs = self.addrs_by_id;
        while i < addrs.len()
            invariant
                i <= addrs@.len(),
                out@ == map_bytes(addrs@.take(i as int)),
            decreases addrs@.len() - i,
        {
            serialize_addr(&mut out, &addrs[i]);
            assert(addrs@.take(i + 1).drop_last() =~= addrs@.take(i as int));
            i += 1;
        }
        assert(addrs@.take(i as int) =~= addrs@);
        let len: u32 = out.len() as u32;
        push_le32(&mut out, len);
        out
    }
}

/// Where the addresses stand in a file of so many bytes, by its last four: where
/// they start, and how many bytes they take.
pub open spec fn map_place(file_len: int, last: Option<nat>) -> Result<(int, int), ZcapError> {
    match last {
        None => Err(ZcapError::TooSmall),
        Some(n) => if file_len < 4 + n {
            Err(ZcapError::BadLength)
        } else {
            Ok((file_len - 4 - n, n as int))
        },
    }
}

/// Where the addresses stand in a file, by its last four bytes, or all of them if
/// it has fewer.
pub fn find_map(file_len: u64, tail: &[u8]) -> (r: Result<(u64, u32), ZcapError>)
    requires
        tail@.len() <= file_len,
        tail@.len() == 4 || tail@.len() == file_len && file_len < 4,
    ensures
        match r {
            Ok((start, len)) => map_place(file_len as int, Some(wire::le(tail@))) == Ok::<
                (int, int),
                ZcapError,
            >((start as int, len as int)) && tail@.len() == 4,
            Err(e) => map_place(
                file_len as int,
                if tail@.len() == 4 {
                    Some(wire::le(tail@))
                } else {
                    None
                },
            ) == Err::<(int, int), ZcapError>(e),
        },
{
    if file_len < 4 {
        return Err(ZcapError::TooSmall);
    }
    let map_len: u32 = read_le32(tail);
    assert(tail@.take(4) =~= tail@);
    if file_len < 4 + map_len as u64 {
        return Err(ZcapError::BadLength);
    }
    Ok((file_len - 4 - map_len as u64, map_len))
}

/// Behind any bytes, what a finished capture ends with is found again.
pub proof fn law_map_found(records: Seq<u8>, addrs: Seq<Addr>)
    requires
        map_bytes(addrs).len() <= u32::MAX,
    ensures
        ({
            let tail = map_bytes(addrs) + wire::le_bytes(map_bytes(addrs).len(), 4);
            let file = records + tail;
            let last = wire::le(file.skip(file.len() - 4));
            &&& map_place(file.len() as int, Some(last)) == Ok::<(int, int), ZcapError>(
                (records.len() as int, map_bytes(addrs).len() as int),
            )
            &&& addrs_of(
                file.subrange(records.len() as int, (records.len() + map_bytes(addrs).len()) as int),
            ) == Ok::<Seq<Addr>, ZcapError>(addrs)
        }),
{
    let map = map_bytes(addrs);
    let tail = map + wire::le_bytes(map.len(), 4);
    let file = records + tail;
    wire::lemma_le_limits();
    wire::lemma_le_read_back(map.len(), 4);
    assert(file.skip(file.len() - 4) =~= wire::le_bytes(map.len(), 4));
    assert(file.subrange(records.len() as int, (records.len() + map.len()) as int) =~= map);
    law_map_read_back(addrs);
}

/// How far reading is: the clients by number, the first time that is not zero, and
/// the bytes that came and were not read.
#[verifier::ext_equal]
pub struct ZcapView {
    pub addrs: Seq<Addr>,
    pub first_ts: u64,
    pub rest: Seq<u8>,
}

/// What reading leads to.
#[verifier::ext_equal]
pub enum ZcapOutcome {
    /// More bytes are needed.
    NeedMore,
    /// There is nothing more, or the start of a record.
    Eof,
    /// A record of a client without an address.
    UnknownId(u32),
    /// Bytes of a client, or with none the start of its connection.
    Data { id: u32, addr: Addr, ts: u64, data: Seq<u8> },
}

impl ZcapView {
    /// What reading leads to. `at_end` says that there are no more bytes.
    pub open spec fn next(self, at_end: bool) -> (ZcapView, ZcapOutcome) {
        match record::first_record(self.rest) {
            RecordView::Whole { id, ts, data } => {
                let first = if self.first_ts == 0 {
                    ts as u64
                } else {
                    self.first_ts
                };
                let rel = if ts > first {
                    (ts - first) as u64
                } else {
                    0
                };
                let v = ZcapView {
                    first_ts: first,
                    rest: self.rest.skip((record::HEADER_LEN + data.len()) as int),
                    ..self
                };
                if id < self.addrs.len() {
                    (v, ZcapOutcome::Data { id, addr: self.addrs[id as int], ts: rel, data })
                } else {
                    (v, ZcapOutcome::UnknownId(id))
                }
            },
            _ => (
                self,
                if at_end {
                    ZcapOutcome::Eof
                } else {
                    ZcapOutcome::NeedMore
                },
            ),
        }
    }
}

/// Reads the records of a capture into the buffers of its clients.
pub struct ZcapReader {
    addrs: Vec<Addr>,
    bytes: Vec<u8>,
    parsed: usize,
    buffers: AddrTable<FrameBuffer>,
    first_ts: u64,
}

impl View for ZcapReader {
    type V = ZcapView;

    closed spec fn view(&self) -> ZcapView {
        ZcapView {
            addrs: self.addrs@,
            first_ts: self.first_ts,
            rest: self.bytes@.skip(self.parsed as int),
        }
    }
}

/// What reading leads to.
pub enum ZcapStep {
    NeedMore,
    Eof,
    UnknownId(u32),
    /// The buffer of the client holds what came.
    Data { addr: Addr, ts: u64 },
}

/// A buffer when a record of its client was read.
pub open spec fn filled(b: FrameBufferView, ts: u64, data: Seq<u8>) -> FrameBufferView {
    if data.len() == 0 {
        b.connected(ts)
    } else {
        b.extended(data)
    }
}

impl ZcapReader {
    /// The buffers of the clients.
    pub closed spec fn buffers(self) -> Map<Addr, FrameBuffer> {
        self.buffers@
    }

    /// What was read is part of what came, and the buffers are sound.
    pub closed spec fn wf(self) -> bool {
        &&& self.parsed <= self.bytes@.len()
        &&& self.buffers.wf()
        &&& forall|a: Addr|
            #![trigger self.buffers@[a]]
            self.buffers@.contains_key(a) ==> self.buffers@[a]@.wf()
    }

    /// The buffer of a client, or a fresh one.
    pub open spec fn buffer(self, id: u32, addr: Addr) -> FrameBufferView {
        if self.buffers().contains_key(addr) {
            self.buffers()[addr]@
        } else {
            FrameBufferView::fresh(id)
        }
    }

    /// The next record fits in the buffer of its client.
    pub open spec fn roomy(self) -> bool {
        self@.next(false).1 matches ZcapOutcome::Data { id, addr, ts, data } ==> self.buffer(
            id,
            addr,
        ).end() + data.len() <= usize::MAX
    }

    /// Nothing was read, of a capture with the given addresses.
    pub fn new(map: &[u8]) -> (r: Result<Self, ZcapError>)
        ensures
            match r {
                Ok(z) => z.wf() && z.buffers() == Map::<Addr, FrameBuffer>::empty()
                    && addrs_of(map@) == Ok::<Seq<Addr>, ZcapError>(z@.addrs) && z@.first_ts == 0
                    && z@.rest == Seq::<u8>::empty(),
                Err(e) => addrs_of(map@) == Err::<Seq<Addr>, ZcapError>(e),
            },
    {
        match deserialize_map(map) {
            Ok(addrs) => {
                let r = ZcapReader {
                    addrs,
                    bytes: Vec::new(),
                    parsed: 0,
                    buffers: AddrTable::new(),
                    first_ts: 0,
                };
                assert(r@.rest =~= Seq::empty());
                Ok(r)
            },
            Err(e) => Err(e),
        }
    }

    /// Takes in bytes.
    pub fn feed(&mut self, bytes: &[u8])
        requires
            old(self).wf(),
        ensures
            final(self).wf(),
            final(self).buffers() == old(self).buffers(),
            final(self)@ == (ZcapView { rest: old(self)@.rest + bytes@, ..old(self)@ }),
    {
        let ghost before = self@;
        let mut rest: Vec<u8> = Vec::new();
        push_bytes(&mut rest, bytes_from(self.bytes.as_slice(), self.parsed));
        push_bytes(&mut rest, bytes);
        self.bytes = rest;
        self.parsed = 0;
        assert(self@.rest =~= before.rest + bytes@);
    }

    /// Whether the next record fits in the buffer of its client.
    pub fn has_room(&self) -> (r: bool)
        requires
            self.wf(),
        ensures
            r == self.roomy(),
    {
        let rest = bytes_from(self.bytes.as_slice(), self.parsed);
        assert(rest@ =~= self@.rest);
        match read_record(rest) {
            Record::Whole { id, ts: _, data } => {
                if (id as usize) < self.addrs.len() {
                    match self.buffers.get(&self.addrs[id as usize]) {
                        Some(b) => b.has_room(data.len()),
                        None => true,
                    }
                } else {
                    true
                }
            },
            _ => true,
        }
    }

    /// The buffer of a client.
    pub fn get_buffer(&self, addr: &Addr) -> (r: Option<&FrameBuffer>)
        requires
            self.wf(),
        ensures
            match r {
                Some(b) => self.buffers().contains_key(*addr) && self.buffers()[*addr] == *b
                    && b@.wf(),
                None => !self.buffers().contains_key(*addr),
            },
    {
        self.buffers.get(addr)
    }

    /// Reads on. `at_end` says that there are no more bytes.
    pub fn next(&mut self, at_end: bool) -> (r: ZcapStep)
        requires
            old(self).wf(),
            old(self).roomy(),
        ensures
            final(self).wf(),
            final(self)@ == old(self)@.next(at_end).0,
            match old(self)@.next(at_end).1 {
                ZcapOutcome::NeedMore => r is NeedMore && final(self).buffers() == old(
                    self,
                ).buffers(),
                ZcapOutcome::Eof => r is Eof && final(self).buffers() == old(self).buffers(),
                ZcapOutcome::UnknownId(id) => r == ZcapStep::UnknownId(id)
                    && final(self).buffers() == old(self).buffers(),
                ZcapOutcome::Data { id, addr, ts, data } => r == (ZcapStep::Data { addr, ts })
                    && final(self).buffers() == old(self).buffers().insert(
                    addr,
                    final(self).buffers()[addr],
                ) && final(self).buffers()[addr]@ == filled(old(self).buffer(id, addr), ts, data),
            },
    {
        let ghost before = *self;
        let rest = bytes_from(self.bytes.as_slice(), self.parsed);
        assert(rest@ =~= self@.rest);
        match read_record(rest) {
            Record::Whole { id, ts, data } => {
                let len: usize = data.len();
                if self.first_ts == 0 {
                    self.first_ts = ts as u64;
                }
                let ts_relative: u64 = (ts as u64).saturating_sub(self.first_ts);
                if (id as usize) < self.addrs.len() {
                    let addr: Addr = self.addrs[id as usize];
                    let mut fb = match self.buffers.take(&addr) {
                        Some(b) => b,
                        None => FrameBuffer::new(id),
                    };
                    assert(fb@ == before.buffer(id, addr));
                    let payload = bytes_at(
                        self.bytes.as_slice(),
                        self.parsed + record::HEADER_LEN,
                        len,
                    );
                    assert(payload@ =~= data@);
                    if len == 0 {
                        fb.mark_connection_start(ts_relative);
                    } else {
                        fb.extend(payload);
                    }
                    self.buffers.insert(addr, fb);
                    self.parsed = self.parsed + record::HEADER_LEN + len;
                    proof {
                        assert(self@.rest =~= before@.next(at_end).0.rest);
                        assert(self.buffers@ =~= before.buffers@.insert(addr, fb));
                    }
                    return ZcapStep::Data { addr, ts: ts_relative };
                }
                self.parsed = self.parsed + record::HEADER_LEN + len;
                assert(self@.rest =~= before@.next(at_end).0.rest);
                ZcapStep::UnknownId(id)
            },
            _ => if at_end {
                ZcapStep::Eof
            } else {
                ZcapStep::NeedMore
            },
        }
    }
}

/// The message on a record of a client without an address.
pub fn unknown_id(id: u32) -> (r: String)
    ensures
        r@ == "Unknown id: "@ + text::decimal(id as nat),
{
    let mut s = String::new();
    s.append("Unknown id: ");
    push_decimal(&mut s, id as u64);
    assert(s@ =~= "Unknown id: "@ + text::decimal(id as nat));
    s
}

/// A client keeps its number when others are met.
pub proof fn law_number_kept(addrs: Seq<Addr>, a: Addr, other: Addr)
    requires
        addrs.no_duplicates(),
        addrs.contains(a),
    ensures
        met(addrs, other).no_duplicates(),
        met(addrs, other).contains(a),
        met(addrs, other).index_of(a) == addrs.index_of(a),
{
    let i = addrs.index_of(a);
    assert(met(addrs, other)[i] == a);
}

/// What was written of a client is read back as of that client, with its time since the
/// first time that is not zero.
pub proof fn law_event_read_back(v: ZcapView, a: Addr, ts: u32, data: Seq<u8>, more: Seq<u8>)
    requires
        v.addrs.no_duplicates(),
        v.addrs.contains(a),
        v.addrs.len() <= u32::MAX,
        data.len() <= u32::MAX,
        v.rest == record::record_bytes(v.addrs.index_of(a) as u32, ts, data) + more,
    ensures
        v.next(false).0.rest == more,
        v.next(false).0.addrs == v.addrs,
        v.next(false).0.first_ts == if v.first_ts == 0 {
            ts as u64
        } else {
            v.first_ts
        },
        v.next(false).1 matches ZcapOutcome::Data { id, addr, ts: t, data: d } && {
            &&& id == v.addrs.index_of(a)
            &&& addr == a
            &&& d == data
            &&& t == if v.first_ts == 0 || ts <= v.first_ts {
                0
            } else {
                ts - v.first_ts
            }
        },
{
    record::law_record_read_back(v.addrs.index_of(a) as u32, ts, data, more);
}

} // verus!
