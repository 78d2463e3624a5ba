//! Pairs of clients of two captures, by the addresses from which they connected.
use vstd::prelude::*;
use vstd::string::*;

use crate::capture::tcp_handler::{TcpHandler, TcpHandlerView};
use crate::compare::addr_map;
use crate::compare::addr_map::has_content;
use crate::utils::addr::{Addr, AddrTable};
use crate::utils::chars;
use crate::utils::chars::{split_two, trim};
use crate::utils::text::copied;

verus! {

/// A line has no second address.
#[derive(Debug, Clone, Copy)]
pub struct MissingRightAddr;

/// The texts of the two addresses that a line gives, with an arrow between them.
/// There are none where the line says nothing.
pub fn parse_entry(line: &str) -> (r: Result<Option<(String, String)>, MissingRightAddr>)
    ensures
        ({
            let (left, right) = chars::two_parts(chars::trimmed(line@), "->"@);
            if !addr_map::says_something(line@) {
                r matches Ok(None)
            } else {
                match right {
                    None => r is Err,
                    Some(addr) => r matches Ok(Some((a, b))) && a@ == chars::trimmed(left) && b@
                        == chars::trimmed(addr),
                }
            }
        }),
{
    if !has_content(line) {
        return Ok(None);
    }
    proof {
        reveal_strlit("->");
    }
    let (left, right) = split_two(trim(line), "->");
    match right {
        Some(s) => Ok(Some((copied(trim(left)), copied(trim(s))))),
        None => Err(MissingRightAddr),
    }
}

/// A client of a capture: its segments and frames, when each frame came, and when
/// the client was first heard of.
pub struct StreamClient {
    pub addr: Addr,
    pub connect_ts: Option<u64>,
    pub timings: Vec<u64>,
    pub stream: TcpHandler,
}

/// What is known of a client of a capture.
#[verifier::ext_equal]
pub struct StreamClientView {
    pub addr: Addr,
    pub connect_ts: Option<u64>,
    pub timings: Seq<u64>,
    pub stream: TcpHandlerView,
}

impl View for StreamClient {
    type V = StreamClientView;

    open spec fn view(&self) -> StreamClientView {
        StreamClientView {
            addr: self.addr,
            connect_ts: self.connect_ts,
            timings: self.timings@,
            stream: self.stream@,
        }
    }
}

impl StreamClientView {
    /// A client that was not heard of.
    pub open spec fn fresh(addr: Addr) -> StreamClientView {
        StreamClientView {
            addr,
            connect_ts: None,
            timings: Seq::empty(),
            stream: TcpHandlerView::fresh(),
        }
    }
}

impl StreamClient {
    /// A client that was not heard of.
    pub fn new(addr: Addr) -> (r: Self)
        ensures
            r@ == StreamClientView::fresh(addr),
            r@.stream.buf.wf(),
    {
        let r = StreamClient {
            addr,
            connect_ts: None,
            timings: Vec::new(),
            stream: TcpHandler::default(),
        };
        assert(r@.timings =~= Seq::empty());
        r
    }
}

/// A client of the first capture and its counterpart in the second.
pub struct ClientPair {
    pub c1: StreamClient,
    pub c2: StreamClient,
}

/// What is known of a pair of clients.
#[verifier::ext_equal]
pub struct PairView {
    pub c1: StreamClientView,
    pub c2: StreamClientView,
}

impl View for ClientPair {
    type V = PairView;

    open spec fn view(&self) -> PairView {
        PairView { c1: self.c1@, c2: self.c2@ }
    }
}

impl PairView {
    /// The buffers of both clients are sound.
    pub open spec fn wf(self) -> bool {
        self.c1.stream.buf.wf() && self.c2.stream.buf.wf()
    }
}

/// How much later frame `i` came in the second capture than in the first, each
/// relative to the first frame.
pub open spec fn lag(t1: Seq<u64>, t2: Seq<u64>, i: int) -> int {
    (t2[i] - t2[0]) - (t1[i] - t1[0])
}

/// A number without its sign.
pub open spec fn magnitude(n: int) -> int {
    if n < 0 {
        -n
    } else {
        n
    }
}

/// The sum of the lags of the frames in front of frame `n`, without their signs.
pub open spec fn lag_sum(t1: Seq<u64>, t2: Seq<u64>, n: int) -> int
    decreases n,
{
    if n <= 1 {
        0
    } else {
        lag_sum(t1, t2, n - 1) + magnitude(lag(t1, t2, n - 1))
    }
}

/// The first of the largest lags of the frames in front of frame `n`.
pub open spec fn lag_max(t1: Seq<u64>, t2: Seq<u64>, n: int) -> int
    decreases n,
{
    if n <= 1 {
        0
    } else {
        let before = lag_max(t1, t2, n - 1);
        if magnitude(lag(t1, t2, n - 1)) > magnitude(before) {
            lag(t1, t2, n - 1)
        } else {
            before
        }
    }
}

/// Whether no frame came before the first one.
pub open spec fn from_first(t: Seq<u64>, n: int) -> bool {
    forall|i: int| 0 <= i < n ==> t[0] <= #[trigger] t[i]
}

impl ClientPair {
    /// How many frames can be compared.
    pub open spec fn common(self) -> int {
        let (a, b) = (self.c1.timings@.len(), self.c2.timings@.len());
        if a < b {
            a as int
        } else {
            b as int
        }
    }

    /// Whether no frame came before the first one of its client.
    pub fn in_time(&self) -> (r: bool)
        ensures
            r == (from_first(self.c1.timings@, self.common()) && from_first(
                self.c2.timings@,
                self.common(),
            )),
    {
        let t1 = &self.c1.timings;
        let t2 = &self.c2.timings;
        let mut i: usize = 0;
        while i < t1.len() && i < t2.len()
            invariant
                t1@ == self.c1.timings@,
                t2@ == self.c2.timings@,
                i <= self.common(),
                from_first(t1@, i as int),
                from_first(t2@, i as int),
            decreases self.common() - i,
        {
            if t1[i] < t1[0] || t2[i] < t2[0] {
                return false;
            }
            i += 1;
        }
        true
    }

    /// The sum of the lags without their signs, by how many frames it has to be
    /// divided for the average, and the largest lag.
    pub fn avg_max(&self) -> (r: (u128, usize, i128))
        requires
            from_first(self.c1.timings@, self.common()),
            from_first(self.c2.timings@, self.common()),
        ensures
            r.0 == lag_sum(self.c1.timings@, self.c2.timings@, self.common()),
            r.1 == self.common(),
            r.2 == lag_max(self.c1.timings@, self.c2.timings@, self.common()),
    {
        let t1 = &self.c1.timings;
        let t2 = &self.c2.timings;
        let len: usize = if t1.len() < t2.len() {
            t1.len()
        } else {
            t2.len()
        };
        if len == 0 {
            return (0, 0, 0);
        }
        let base1: u64 = t1[0];
        let base2: u64 = t2[0];
        let mut max: i128 = 0;
        let mut sum: u128 = 0;
        let mut i: usize = 1;
        while i < len
            invariant
                1 <= i <= len,
                len == self.common(),
                t1@ == self.c1.timings@,
                t2@ == self.c2.timings@,
                len <= t1@.len(),
                len <= t2@.len(),
                base1 == t1@[0],
                base2 == t2@[0],
                from_first(t1@, len as int),
                from_first(t2@, len as int),
                sum == lag_sum(t1@, t2@, i as int),
                max == lag_max(t1@, t2@, i as int),
                sum <= (i - 1) * 0xFFFF_FFFF_FFFF_FFFF,
                -0xFFFF_FFFF_FFFF_FFFF <= max <= 0xFFFF_FFFF_FFFF_FFFF,
            decreases len - i,
        {
            let rel_1: u64 = t1[i] - base1;
            let rel_2: u64 = t2[i] - base2;
            let delta: i128 = rel_2 as i128 - rel_1 as i128;
            let abs: i128 = if delta < 0 {
                -delta
            } else {
                delta
            };
            let abs_max: i128 = if max < 0 {
                -max
            } else {
                max
            };
            if abs > abs_max {
                max = delta;
            }
            sum = sum + abs as u128;
            i += 1;
        }
        (sum, len, max)
    }
}

/// Pairs of clients: which address of the first capture belongs to which of the
/// second, and the clients that were heard of, by their address in the first
/// capture.
pub struct CompareMap {
    c1_to_c2: AddrTable<Addr>,
    c2_to_c1: AddrTable<Addr>,
    clients: AddrTable<ClientPair>,
}

/// What a map of pairs holds.
#[verifier::ext_equal]
pub struct CompareMapView {
    pub c1_to_c2: Map<Addr, Addr>,
    pub c2_to_c1: Map<Addr, Addr>,
    pub clients: Map<Addr, PairView>,
}

impl View for CompareMap {
    type V = CompareMapView;

    closed spec fn view(&self) -> CompareMapView {
        CompareMapView {
            c1_to_c2: self.c1_to_c2@,
            c2_to_c1: self.c2_to_c1@,
            clients: self.clients@.map_values(|p: ClientPair| p@),
        }
    }
}

impl CompareMapView {
    /// What is known of a pair of clients.
    pub open spec fn pair(self, c1_addr: Addr, c2_addr: Addr) -> PairView {
        if self.clients.contains_key(c1_addr) {
            self.clients[c1_addr]
        } else {
            PairView {
                c1: StreamClientView::fresh(c1_addr),
                c2: StreamClientView::fresh(c2_addr),
            }
        }
    }

    /// The buffers of all clients are sound.
    pub open spec fn wf(self) -> bool {
        forall|a: Addr|
            #![trigger self.clients[a]]
            self.clients.contains_key(a) ==> self.clients[a].wf()
    }
}

impl CompareMap {
    /// The tables are in order.
    pub closed spec fn wf(self) -> bool {
        self.c1_to_c2.wf() && self.c2_to_c1.wf() && self.clients.wf()
    }

    /// No pair is known.
    pub fn new() -> (r: Self)
        ensures
            r.wf(),
            r@ == (CompareMapView {
                c1_to_c2: Map::empty(),
                c2_to_c1: Map::empty(),
                clients: Map::empty(),
            }),
    {
        let r = CompareMap {
            c1_to_c2: AddrTable::new(),
            c2_to_c1: AddrTable::new(),
            clients: AddrTable::new(),
        };
        assert(r@.clients =~= Map::empty());
        r
    }

    /// Notes which address of the first capture belongs to which of the second.
    pub fn insert(&mut self, addr_1: Addr, addr_2: Addr)
        requires
            old(self).wf(),
        ensures
            final(self).wf(),
            final(self)@ == (CompareMapView {
                c1_to_c2: old(self)@.c1_to_c2.insert(addr_1, addr_2),
                c2_to_c1: old(self)@.c2_to_c1.insert(addr_2, addr_1),
                ..old(self)@
            }),
    {
        self.c1_to_c2.insert(addr_1, addr_2);
        self.c2_to_c1.insert(addr_2, addr_1);
    }

    /// The addresses of the pair with the given address in the first capture.
    pub fn find_c1(&self, c1_addr: Addr) -> (r: Option<(Addr, Addr)>)
        requires
            self.wf(),
        ensures
            match r {
                Some((a, b)) => a == c1_addr && self@.c1_to_c2.contains_key(a)
                    && self@.c1_to_c2[a] == b,
                None => !self@.c1_to_c2.contains_key(c1_addr),
            },
    {
        match self.c1_to_c2.get(&c1_addr) {
            Some(c2_addr) => Some((c1_addr, *c2_addr)),
            None => None,
        }
    }

    /// The addresses of the pair with the given address in the second capture.
    pub fn find_c2(&self, c2_addr: Addr) -> (r: Option<(Addr, Addr)>)
        requires
            self.wf(),
        ensures
            match r {
                Some((a, b)) => b == c2_addr && self@.c2_to_c1.contains_key(b)
                    && self@.c2_to_c1[b] == a,
                None => !self@.c2_to_c1.contains_key(c2_addr),
            },
    {
        match self.c2_to_c1.get(&c2_addr) {
            Some(c1_addr) => Some((*c1_addr, c2_addr)),
            None => None,
        }
    }

    /// Takes out the clients of a pair. They are new ones where they were not heard
    /// of.
    pub fn take_pair(&mut self, c1_addr: Addr, c2_addr: Addr) -> (r: ClientPair)
        requires
            old(self).wf(),
        ensures
            final(self).wf(),
            final(self)@ == (CompareMapView {
                clients: old(self)@.clients.remove(c1_addr),
                ..old(self)@
            }),
            r@ == old(self)@.pair(c1_addr, c2_addr),
            old(self)@.wf() ==> r@.wf(),
    {
        let ghost before = self@;
        let found = self.clients.take(&c1_addr);
        assert(self@.clients =~= before.clients.remove(c1_addr));
        match found {
            Some(p) => {
                assert(before.clients[c1_addr] == p@);
                p
            },
            None => ClientPair { c1: StreamClient::new(c1_addr), c2: StreamClient::new(c2_addr) },
        }
    }

    /// Puts back the clients of a pair.
    pub fn put_pair(&mut self, c1_addr: Addr, pair: ClientPair)
        requires
            old(self).wf(),
        ensures
            final(self).wf(),
            final(self)@ == (CompareMapView {
                clients: old(self)@.clients.insert(c1_addr, pair@),
                ..old(self)@
            }),
    {
        let ghost before = self@;
        self.clients.insert(c1_addr, pair);
        assert(self@.clients =~= before.clients.insert(c1_addr, pair@));
    }

    /// The addresses in the first capture of the pairs that were heard of.
    pub fn addrs(&self) -> (r: Vec<Addr>)
        requires
            self.wf(),
        ensures
            r@.to_set() == self@.clients.dom(),
            r@.no_duplicates(),
    {
        let r = self.clients.keys();
        assert(self@.clients.dom() =~= self.clients@.dom());
        r
    }

    /// The clients of a pair that was heard of.
    pub fn pair(&self, c1_addr: &Addr) -> (r: Option<&ClientPair>)
        requires
            self.wf(),
        ensures
            match r {
                Some(p) => self@.clients.contains_key(*c1_addr) && self@.clients[*c1_addr] == p@,
                None => !self@.clients.contains_key(*c1_addr),
            },
    {
        self.clients.get(c1_addr)
    }
}

} // verus!
