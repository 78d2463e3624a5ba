//! The file that tells from which address each client was replayed.
use vstd::prelude::*;
use vstd::string::*;

use crate::capture::reader::ClientId;
use crate::utils::addr::{Addr, AddrTable};
use crate::utils::chars;
use crate::utils::chars::{parse_number, split_two, trim};
use crate::utils::text::copied;

verus! {

/// What is wrong with a line.
#[derive(Debug)]
pub enum AddrMapError {
    /// There is no address.
    MissingReplayAddr,
    /// This is no number of a client.
    BadSourceId(String),
}

/// Whether a line says something: it is not blank, and not a remark.
pub open spec fn says_something(line: Seq<char>) -> bool {
    let t = chars::trimmed(line);
    t.len() > 0 && t[0] != '#'
}

/// Whether a line says something.
pub fn has_content(line: &str) -> (r: bool)
    ensures
        r == says_something(line@),
{
    let t = trim(line);
    !t.is_empty() && t.get_char(0) != '#'
}

/// The number of a client and the text of its address, as a line gives them: two
/// parts with a comma between them. There are none where the line says nothing.
pub fn parse_entry(line: &str) -> (r: Result<Option<(ClientId, String)>, AddrMapError>)
    ensures
        ({
            let (left, right) = chars::two_parts(chars::trimmed(line@), ","@);
            let id = chars::number(chars::trimmed(left), u32::MAX as nat);
            if !says_something(line@) {
                r matches Ok(None)
            } else {
                match right {
                    None => r matches Err(AddrMapError::MissingReplayAddr),
                    Some(addr) => match id {
                        Some(n) => r matches Ok(Some((i, a))) && i == n && a@ == chars::trimmed(
                            addr,
                        ),
                        None => r matches Err(AddrMapError::BadSourceId(t)) && t@
                            == chars::trimmed(left),
                    },
                }
            }
        }),
{
    if !has_content(line) {
        return Ok(None);
    }
    proof {
        reveal_strlit(",");
    }
    let (left, right) = split_two(trim(line), ",");
    let src_str = trim(left);
    let replay_str = match right {
        Some(s) => trim(s),
        None => return Err(AddrMapError::MissingReplayAddr),
    };
    match parse_number(src_str, u32::MAX as u64) {
        Some(n) => Ok(Some((n as ClientId, copied(replay_str)))),
        None => Err(AddrMapError::BadSourceId(copied(src_str))),
    }
}

/// Which client was replayed from which address.
pub struct AddrMapReader {
    replay_to_src: AddrTable<ClientId>,
}

impl View for AddrMapReader {
    type V = Map<Addr, ClientId>;

    closed spec fn view(&self) -> Map<Addr, ClientId> {
        self.replay_to_src@
    }
}

impl AddrMapReader {
    /// The table is in order.
    pub closed spec fn wf(self) -> bool {
        self.replay_to_src.wf()
    }

    /// No address is known.
    pub fn new() -> (r: Self)
        ensures
            r.wf(),
            r@ == Map::<Addr, ClientId>::empty(),
    {
        AddrMapReader { replay_to_src: AddrTable::new() }
    }

    /// Notes from which address a client was replayed.
    pub fn insert(&mut self, addr: Addr, id: ClientId)
        requires
            old(self).wf(),
        ensures
            final(self).wf(),
            final(self)@ == old(self)@.insert(addr, id),
    {
        self.replay_to_src.insert(addr, id);
    }

    /// The client that was replayed from an address.
    pub fn map_addr(&self, addr: &Addr) -> (r: Option<ClientId>)
        requires
            self.wf(),
        ensures
            match r {
                Some(id) => self@.contains_key(*addr) && self@[*addr] == id,
                None => !self@.contains_key(*addr),
            },
    {
        match self.replay_to_src.get(addr) {
            Some(id) => Some(*id),
            None => None,
        }
    }
}

} // verus!
