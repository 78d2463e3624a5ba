//! The file that tells from which address each client was replayed.
use vstd::prelude::*;
use vstd::string::*;

use crate::capture::reader::ClientId;
use crate::utils::text;
use crate::utils::text::push_decimal;

verus! {

/// The line of a client: its number and its address.
pub open spec fn entry_text(id: ClientId, addr: Seq<char>) -> Seq<char> {
    text::decimal(id as nat) + seq![','] + addr + seq!['\n']
}

/// The line of a client that was replayed from the address with the given text.
pub fn entry(id: ClientId, replay_addr: &str) -> (r: String)
    ensures
        r@ == entry_text(id, replay_addr@),
{
    let mut line = String::new();
    push_decimal(&mut line, id as u64);
    line.push(',');
    line.append(replay_addr);
    line.push('\n');
    assert(line@ =~= entry_text(id, replay_addr@));
    line
}

} // verus!
