//! Addresses of sockets.
use vstd::prelude::*;

verus! {

/// An address of the Internet protocol: its octets as one number, the first
/// octet the most significant.
#[derive(Debug, Clone, Copy, PartialEq, Eq, Structural)]
pub enum Ip {
    V4(u32),
    V6(u128),
}

/// An address and a port.
#[derive(Debug, Clone, Copy, PartialEq, Eq, Structural)]
pub struct Addr {
    pub ip: Ip,
    pub port: u16,
}

impl Addr {
    /// An address and a port.
    pub fn new(ip: Ip, port: u16) -> (r: Self)
        ensures
            r == (Addr { ip, port }),
    {
        Addr { ip, port }
    }
}

/// Values by address.
#[verifier::reject_recursive_types(V)]
pub struct AddrTable<V> {
    entries: Vec<(Addr, V)>,
}

impl<V> View for AddrTable<V> {
    type V = Map<Addr, V>;

    closed spec fn view(&self) -> Map<Addr, V> {
        Map::new(
            |a: Addr| exists|i: int| 0 <= i < self.entries@.len() && self.entries@[i].0 == a,
            |a: Addr| self.entries@[choose|i: int|
                0 <= i < self.entries@.len() && self.entries@[i].0 == a].1,
        )
    }
}

impl<V> AddrTable<V> {
    /// No address stands twice.
    pub closed spec fn wf(self) -> bool {
        forall|i: int, j: int|
            0 <= i < j < self.entries@.len() ==> self.entries@[i].0 != self.entries@[j].0
    }

    /// No address has a value.
    pub fn new() -> (r: Self)
        ensures
            r.wf(),
            r@ == Map::<Addr, V>::empty(),
    {
        let r = AddrTable { entries: Vec::new() };
        assert(r@ =~= Map::<Addr, V>::empty());
        r
    }

    /// Where an address stands.
    fn find(&self, addr: &Addr) -> (r: Option<usize>)
        ensures
            match r {
                Some(i) => i < self.entries@.len() && self.entries@[i as int].0 == *addr,
                None => forall|i: int|
                    0 <= i < self.entries@.len() ==> self.entries@[i].0 != *addr,
            },
    {
        let mut i: usize = 0;
        while i < self.entries.len()
            invariant
                i <= self.entries@.len(),
                forall|k: int| 0 <= k < i ==> self.entries@[k].0 != *addr,
            decreases self.entries@.len() - i,
        {
            if self.entries[i].0 == *addr {
                return Some(i);
            }
            i += 1;
        }
        None
    }

    /// Gives an address a value.
    pub fn insert(&mut self, addr: Addr, id: V)
        requires
            old(self).wf(),
        ensures
            final(self).wf(),
            final(self)@ == old(self)@.insert(addr, id),
    {
        let ghost before = self.entries@;
        match self.find(&addr) {
            Some(i) => {
                self.entries.set(i, (addr, id));
                proof {
                    assert(self.entries@[i as int].0 == addr);
                    assert forall|a: Addr| self@.contains_key(a) <==> old(self)@.insert(
                        addr,
                        id,
                    ).contains_key(a) by {
                        if old(self)@.contains_key(a) {
                            let k = choose|k: int| 0 <= k < before.len() && before[k].0 == a;
                            assert(self.entries@[k].0 == a);
                        }
                        if self@.contains_key(a) {
                            let k = choose|k: int|
                                0 <= k < self.entries@.len() && self.entries@[k].0 == a;
                            assert(before[k].0 == a);
                        }
                    }
                }
            },
            None => {
                self.entries.push((addr, id));
                proof {
                    let n = before.len() as int;
                    assert(self.entries@[n].0 == addr);
                    assert forall|a: Addr| self@.contains_key(a) <==> old(self)@.insert(
                        addr,
                        id,
                    ).contains_key(a) by {
                        if old(self)@.contains_key(a) {
                            let k = choose|k: int| 0 <= k < before.len() && before[k].0 == a;
                            assert(self.entries@[k].0 == a);
                        }
                        if self@.contains_key(a) && a != addr {
                            let k = choose|k: int|
                                0 <= k < self.entries@.len() && self.entries@[k].0 == a;
                            assert(before[k].0 == a);
                        }
                    }
                }
            },
        }
        proof {
            assert forall|a: Addr| self@.contains_key(a) implies self@[a] == old(self)@.insert(
                addr,
                id,
            )[a] by {
                let k = choose|k: int| 0 <= k < self.entries@.len() && self.entries@[k].0 == a;
                if a != addr {
                    assert(before[k].0 == a);
                    let m = choose|m: int| 0 <= m < before.len() && before[m].0 == a;
                    assert(m == k);
                }
            }
            assert(self@ =~= old(self)@.insert(addr, id));
        }
    }

    /// The value of an address.
    pub fn get(&self, addr: &Addr) -> (r: Option<&V>)
        requires
            self.wf(),
        ensures
            match r {
                Some(v) => self@.contains_key(*addr) && self@[*addr] == *v,
                None => !self@.contains_key(*addr),
            },
    {
        match self.find(addr) {
            Some(i) => {
                proof {
                    let k = choose|k: int|
                        0 <= k < self.entries@.len() && self.entries@[k].0 == *addr;
                    assert(k == i);
                }
                Some(&self.entries[i].1)
            },
            None => None,
        }
    }

    /// The addresses that have a value.
    pub fn keys(&self) -> (r: Vec<Addr>)
        requires
            self.wf(),
        ensures
            r@.to_set() == self@.dom(),
            r@.no_duplicates(),
    {
        let mut r: Vec<Addr> = Vec::new();
        let mut i: usize = 0;
        while i < self.entries.len()
            invariant
                i <= self.entries@.len(),
                r@.len() == i,
                forall|k: int| 0 <= k < i ==> r@[k] == self.entries@[k].0,
            decreases self.entries@.len() - i,
        {
            r.push(self.entries[i].0);
            i += 1;
        }
        proof {
            assert forall|a: Addr| r@.to_set().contains(a) <==> self@.dom().contains(a) by {
                if r@.to_set().contains(a) {
                    let k = choose|k: int| 0 <= k < r@.len() && r@[k] == a;
                    assert(self.entries@[k].0 == a);
                }
                if self@.dom().contains(a) {
                    let k = choose|k: int|
                        0 <= k < self.entries@.len() && self.entries@[k].0 == a;
                    assert(r@[k] == a);
                }
            }
            assert(r@.to_set() =~= self@.dom());
        }
        r
    }

    /// Takes out the value of an address.
    pub fn take(&mut self, addr: &Addr) -> (r: Option<V>)
        requires
            old(self).wf(),
        ensures
            final(self).wf(),
            final(self)@ == old(self)@.remove(*addr),
            match r {
                Some(v) => old(self)@.contains_key(*addr) && old(self)@[*addr] == v,
                None => !old(self)@.contains_key(*addr),
            },
    {
        let ghost before = self.entries@;
        match self.find(addr) {
            Some(i) => {
                let (_, v) = self.entries.remove(i);
                proof {
                    let m = choose|m: int| 0 <= m < before.len() && before[m].0 == *addr;
                    assert(m == i);
                    assert forall|a: Addr| self@.contains_key(a) <==> old(self)@.remove(
                        *addr,
                    ).contains_key(a) by {
                        if self@.contains_key(a) {
                            let k = choose|k: int|
                                0 <= k < self.entries@.len() && self.entries@[k].0 == a;
                            let n = if k < i {
                                k
                            } else {
                                k + 1
                            };
                            assert(before[n].0 == a);
                        }
                        if old(self)@.contains_key(a) && a != *addr {
                            let k = choose|k: int| 0 <= k < before.len() && before[k].0 == a;
                            let n = if k < i {
                                k
                            } else {
                                k - 1
                            };
                            assert(self.entries@[n].0 == a);
                        }
                    }
                    assert forall|a: Addr| self@.contains_key(a) implies self@[a] == old(
                        self,
                    )@.remove(*addr)[a] by {
                        let k = choose|k: int|
                            0 <= k < self.entries@.len() && self.entries@[k].0 == a;
                        let n = if k < i {
                            k
                        } else {
                            k + 1
                        };
                        assert(before[n].0 == a);
                        let q = choose|q: int| 0 <= q < before.len() && before[q].0 == a;
                        assert(q == n);
                    }
                    assert(self@ =~= old(self)@.remove(*addr));
                }
                Some(v)
            },
            None => {
                assert(self@ =~= old(self)@.remove(*addr));
                None
            },
        }
    }
}

} // verus!
