//! Capture at a network interface: events of the kernel, and the records that they
//! lead to.
use ahash::{AHashMap, RandomState};
use vstd::prelude::*;

use crate::capture::reader::ClientId;
use crate::capture::reassembler::{Reassembler, ReassemblerView};
use crate::capture::zcap;
use crate::capture_common::{CaptureEvent, EventView, CHUNK_SIZE};
use crate::utils::addr::{Addr, Ip};
use crate::utils::parse::bytes_at;
use crate::utils::wire;
use crate::utils::wire::read_be;

verus! {

/// The flag of a segment that opens a connection.
pub const TCP_FLAG_SYN: u8 = 0x02;

/// An address in numbers: its version, its octets as one number, and the port.
pub type AddrKey = (u8, u128, u16);

/// The hash map of `ahash`.
#[verifier::external_type_specification]
#[verifier::external_body]
#[verifier::reject_recursive_types(K)]
#[verifier::reject_recursive_types(V)]
#[verifier::reject_recursive_types(S)]
pub struct ExAHashMap<K, V, S>(ahash::AHashMap<K, V, S>);

/// The hasher of `ahash`.
#[verifier::external_type_specification]
#[verifier::external_body]
pub struct ExRandomState(ahash::RandomState);

/// What a hash map holds.
pub uninterp spec fn numbers(m: AHashMap<AddrKey, u32, RandomState>) -> Map<AddrKey, u32>;

/// Calls `ahash::AHashMap::new`. Believed: the map holds nothing.
#[verifier::external_body]
fn new_numbers() -> (r: AHashMap<AddrKey, u32, RandomState>)
    ensures
        numbers(r).dom() == Set::<AddrKey>::empty(),
{
    AHashMap::new()
}

/// Calls `ahash::AHashMap::get`. Believed: the value that the map holds for the key,
/// if it holds one.
#[verifier::external_body]
fn get_number(m: &AHashMap<AddrKey, u32, RandomState>, key: &AddrKey) -> (r: Option<u32>)
    ensures
        r == if numbers(*m).contains_key(*key) {
            Some(numbers(*m)[*key])
        } else {
            None
        },
{
    m.get(key).copied()
}

/// Calls `ahash::AHashMap::insert`. Believed: the map holds the value for the key
/// then, and what it held for other keys.
#[verifier::external_body]
fn put_number(m: &mut AHashMap<AddrKey, u32, RandomState>, key: AddrKey, number: u32)
    ensures
        numbers(*final(m)) == numbers(*old(m)).insert(key, number),
{
    m.insert(key, number);
}

/// An address in numbers.
pub open spec fn key_of(addr: Addr) -> AddrKey {
    match addr.ip {
        Ip::V4(n) => (4, n as u128, addr.port),
        Ip::V6(n) => (6, n, addr.port),
    }
}

/// An address in numbers.
fn key(addr: &Addr) -> (r: AddrKey)
    ensures
        r == key_of(*addr),
{
    match addr.ip {
        Ip::V4(n) => (4, n as u128, addr.port),
        Ip::V6(n) => (6, n, addr.port),
    }
}

/// Who sent the bytes of an event.
pub open spec fn sender(e: EventView) -> Addr {
    Addr {
        ip: if e.is_v6 != 0 {
            Ip::V6(wire::be(e.src_ip) as u128)
        } else {
            Ip::V4(wire::be(e.src_ip.subrange(0, 4)) as u32)
        },
        port: e.src_port,
    }
}

/// The bytes of an event.
pub open spec fn chunk(e: EventView) -> Seq<u8> {
    e.payload.take(
        if e.chunk_len < CHUNK_SIZE {
            e.chunk_len as int
        } else {
            CHUNK_SIZE as int
        },
    )
}

/// Whether an event opens a connection.
pub open spec fn opens(e: EventView) -> bool {
    (e.flags / 2) % 2 == 1
}

/// When an event was, in microseconds from the start of the capture. The times start
/// again after the largest.
pub open spec fn event_time(e: EventView, baseline_ns: u64) -> u32 {
    (if e.timestamp_ns > baseline_ns {
        ((e.timestamp_ns - baseline_ns) / 1000) % 0x1_0000_0000
    } else {
        0
    }) as u32
}

/// What is known of the clients: their addresses by number, and their streams.
#[verifier::ext_equal]
pub struct CaptureView {
    pub baseline_ns: u64,
    pub addrs: Seq<Addr>,
    pub streams: Seq<ReassemblerView>,
    pub total_recv: int,
}

/// What an event leads to: the number of its client, which may be new; a record at
/// the given time without bytes, where the event opens a connection (`start`); and
/// one with `data`, where there are bytes.
#[verifier::ext_equal]
pub struct PlanView {
    pub id: ClientId,
    pub addr: Addr,
    pub is_new: bool,
    pub ts: u32,
    pub start: bool,
    pub data: Seq<u8>,
}

impl CaptureView {
    /// The stream of a client.
    pub open spec fn stream(self, addr: Addr) -> ReassemblerView {
        if self.addrs.contains(addr) {
            self.streams[self.addrs.index_of(addr)]
        } else {
            ReassemblerView { next_seq: None, held: Map::empty() }
        }
    }

    /// After an event, and what it leads to.
    pub open spec fn after(self, e: EventView) -> (CaptureView, PlanView) {
        let addr = sender(e);
        let addrs = zcap::met(self.addrs, addr);
        let id = addrs.index_of(addr);
        let (re, data, _) = self.stream(addr).fed(e.seq, opens(e), chunk(e));
        (
            CaptureView {
                addrs,
                streams: if self.addrs.contains(addr) {
                    self.streams.update(id, re)
                } else {
                    self.streams.push(re)
                },
                total_recv: self.total_recv + chunk(e).len(),
                ..self
            },
            PlanView {
                id: id as u32,
                addr,
                is_new: !self.addrs.contains(addr),
                ts: event_time(e, self.baseline_ns),
                start: opens(e),
                data,
            },
        )
    }
}

/// What an event leads to.
pub struct EventPlan {
    pub id: ClientId,
    pub addr: Addr,
    pub is_new: bool,
    pub ts: u32,
    pub start: bool,
    pub data: Vec<u8>,
}

impl View for EventPlan {
    type V = PlanView;

    open spec fn view(&self) -> PlanView {
        PlanView {
            id: self.id,
            addr: self.addr,
            is_new: self.is_new,
            ts: self.ts,
            start: self.start,
            data: self.data@,
        }
    }
}

struct CaptureClient {
    addr: Addr,
    re: Reassembler,
}

/// Turns events of the kernel into records.
pub struct CaptureSession {
    baseline_ns: u64,
    ids: AHashMap<AddrKey, u32, RandomState>,
    clients: Vec<CaptureClient>,
    total_recv: usize,
}

impl View for CaptureSession {
    type V = CaptureView;

    closed spec fn view(&self) -> CaptureView {
        CaptureView {
            baseline_ns: self.baseline_ns,
            addrs: self.clients@.map_values(|c: CaptureClient| c.addr),
            streams: self.clients@.map_values(|c: CaptureClient| c.re@),
            total_recv: self.total_recv as int,
        }
    }
}

impl CaptureSession {
    /// Each client has one number, and is found by its address.
    pub closed spec fn wf(self) -> bool {
        &&& self@.addrs.no_duplicates()
        &&& self.clients@.len() <= u32::MAX
        &&& forall|a: Addr|
            #![trigger self@.addrs.contains(a)]
            #![trigger key_of(a)]
            self@.addrs.contains(a) <==> numbers(self.ids).contains_key(key_of(a))
        &&& forall|i: int|
            #![trigger self.clients@[i]]
            0 <= i < self.clients@.len() ==> numbers(self.ids).contains_key(
                key_of(self.clients@[i].addr),
            ) && numbers(self.ids)[key_of(self.clients@[i].addr)] == i
    }

    /// No client is known, at the given time.
    pub fn new(baseline_ns: u64) -> (r: Self)
        ensures
            r.wf(),
            r@ == (CaptureView {
                baseline_ns,
                addrs: Seq::empty(),
                streams: Seq::empty(),
                total_recv: 0,
            }),
    {
        let r = CaptureSession {
            baseline_ns,
            ids: new_numbers(),
            clients: Vec::new(),
            total_recv: 0,
        };
        proof {
            assert(r@.addrs =~= Seq::empty());
            assert(r@.streams =~= Seq::empty());
        }
        r
    }

    /// How many bytes came.
    pub fn total_recv(&self) -> (r: usize)
        ensures
            r == self@.total_recv,
    {
        self.total_recv
    }

    /// Whether one more client can be numbered, and one more event counted.
    pub fn has_room(&self) -> (r: bool)
        ensures
            r == (self@.addrs.len() < u32::MAX && self@.total_recv + CHUNK_SIZE <= usize::MAX),
    {
        self.clients.len() < u32::MAX as usize && self.total_recv <= usize::MAX - CHUNK_SIZE
    }

    /// Takes in an event.
    pub fn on_event(&mut self, event: &CaptureEvent) -> (r: EventPlan)
        requires
            old(self).wf(),
            event.payload@.len() >= CHUNK_SIZE,
            old(self)@.addrs.len() < u32::MAX,
            old(self)@.total_recv + CHUNK_SIZE <= usize::MAX,
        ensures
            final(self).wf(),
            (final(self)@, r@) == old(self)@.after(event@),
    {
        let ghost before = self@;
        let len: usize = if (event.chunk_len as usize) < CHUNK_SIZE {
            event.chunk_len as usize
        } else {
            CHUNK_SIZE
        };
        let payload = bytes_at(event.payload.as_slice(), 0, len);
        assert(payload@ =~= chunk(event@));
        let ip = if event.is_v6 != 0 {
            Ip::V6(read_be(event.src_ip.as_slice()))
        } else {
            let v4 = bytes_at(event.src_ip.as_slice(), 0, 4);
            Ip::V4(read_be(v4) as u32)
        };
        let addr = Addr::new(ip, event.src_port);
        let flags: u8 = event.flags;
        let is_syn = flags & TCP_FLAG_SYN != 0;
        assert((flags & 0x02u8 != 0) == ((flags / 2) % 2 == 1)) by (bit_vector);
        let ns: u64 = event.timestamp_ns.saturating_sub(self.baseline_ns);
        let ts: u32 = ((ns / 1000) % 0x1_0000_0000) as u32;
        let k = key(&addr);
        let known = get_number(&self.ids, &k);
        let is_new = known.is_none();
        let id: u32 = match known {
            Some(id) => {
                proof {
                    let i = before.addrs.index_of(addr);
                    assert(before.addrs.contains(addr));
                    assert(self.clients@[i].addr == addr);
                }
                id
            },
            None => {
                let id: u32 = self.clients.len() as u32;
                let ghost listed = self.clients@;
                put_number(&mut self.ids, k, id);
                self.clients.push(CaptureClient { addr, re: Reassembler::default() });
                proof {
                    assert(!before.addrs.contains(addr));
                    assert(self@.addrs =~= before.addrs.push(addr));
                    assert(self@.addrs[id as int] == addr);
                    assert forall|a: Addr|
                        #![trigger key_of(a)]
                        self@.addrs.contains(a) == numbers(self.ids).contains_key(key_of(a)) by {
                        if key_of(a) == k {
                            assert(a == addr);
                        }
                        if before.addrs.contains(a) {
                            assert(self@.addrs[before.addrs.index_of(a)] == a);
                        }
                        if self@.addrs.contains(a) && a != addr {
                            assert(before.addrs[self@.addrs.index_of(a)] == a);
                        }
                    }
                    assert forall|i: int|
                        #![trigger self.clients@[i]]
                        0 <= i < self.clients@.len() implies numbers(self.ids).contains_key(
                        key_of(self.clients@[i].addr),
                    ) && numbers(self.ids)[key_of(self.clients@[i].addr)] == i by {
                        if i < id {
                            assert(self.clients@[i] == listed[i]);
                            assert(before.addrs[i] == listed[i].addr);
                        }
                    }
                }
                id
            },
        };
        let ghost numbered = self@;
        let ghost listed = self.clients@;
        assert(numbered.addrs == zcap::met(before.addrs, addr));
        assert(numbered.addrs[id as int] == addr);
        assert(numbered.addrs.index_of(addr) == id) by {
            assert(numbered.addrs.contains(addr));
        }
        let mut client = self.clients.remove(id as usize);
        assert(client.re@ == before.stream(addr));
        let mut data: Vec<u8> = Vec::new();
        let _ = client.re.feed(event.seq, is_syn, payload, &mut data);
        let ghost fed = client.re@;
        self.clients.insert(id as usize, client);
        self.total_recv = self.total_recv + len;
        proof {
            assert(self@.addrs =~= numbered.addrs);
            assert(self@.streams =~= numbered.streams.update(id as int, fed));
            if is_new {
                assert(self@.streams =~= before.streams.push(fed));
            }
            assert(data@ =~= before.after(event@).1.data);
            assert forall|i: int|
                #![trigger self.clients@[i]]
                0 <= i < self.clients@.len() implies numbers(self.ids).contains_key(
                key_of(self.clients@[i].addr),
            ) && numbers(self.ids)[key_of(self.clients@[i].addr)] == i by {
                assert(self.clients@[i].addr == listed[i].addr);
            }
        }
        EventPlan { id, addr, is_new, ts, start: is_syn, data }
    }
}

} // verus!
