//! How numbers are written in bytes and in digits.
use vstd::prelude::*;

use crate::utils::wire;

verus! {

/// A number in four bytes, least significant first.
pub open spec fn low_first(n: u32) -> Seq<u8> {
    seq![
        (n % 0x100) as u8,
        (n / 0x100 % 0x100) as u8,
        (n / 0x1_0000 % 0x100) as u8,
        (n / 0x100_0000) as u8,
    ]
}

/// A number in two bytes, least significant first.
pub open spec fn low_first_16(n: u16) -> Seq<u8> {
    seq![(n % 0x100) as u8, (n / 0x100) as u8]
}

/// A number in four bytes, most significant first.
pub open spec fn high_first(n: u32) -> Seq<u8> {
    seq![
        (n / 0x100_0000) as u8,
        (n / 0x1_0000 % 0x100) as u8,
        (n / 0x100 % 0x100) as u8,
        (n % 0x100) as u8,
    ]
}

/// The number that stands in four bytes, least significant first.
pub open spec fn low_first_number(b: Seq<u8>, at: int) -> int {
    b[at] + b[at + 1] * 0x100 + b[at + 2] * 0x1_0000 + b[at + 3] * 0x100_0000
}

/// Four bytes, least significant first.
pub proof fn law_le_bytes(n: u32)
    ensures
        wire::le_bytes(n as nat, 4) == low_first(n),
{
    reveal_with_fuel(wire::le_bytes, 5);
    assert(wire::le_bytes(n as nat, 4) =~= low_first(n));
}

/// Two bytes, least significant first.
pub proof fn law_le_bytes_16(n: u16)
    ensures
        wire::le_bytes(n as nat, 2) == low_first_16(n),
{
    reveal_with_fuel(wire::le_bytes, 3);
    assert(wire::le_bytes(n as nat, 2) =~= low_first_16(n));
}

/// Four bytes, most significant first.
pub proof fn law_be_bytes(n: u32)
    ensures
        wire::be_bytes(n as nat, 4) == high_first(n),
        wire::be32_bytes(n) == high_first(n),
{
    reveal_with_fuel(wire::be_bytes, 5);
    assert(wire::be_bytes(n as nat, 4) =~= high_first(n));
    assert(wire::be32_bytes(n) =~= high_first(n));
}

/// Four bytes stand for a number, least significant first.
pub proof fn law_le_number(b: Seq<u8>, at: int)
    requires
        0 <= at,
        at + 4 <= b.len(),
    ensures
        wire::le(b.subrange(at, at + 4)) == low_first_number(b, at),
{
    reveal_with_fuel(wire::le, 5);
    let s = b.subrange(at, at + 4);
    assert(s.drop_first().drop_first().drop_first().drop_first().len() == 0);
    assert(s[0] == b[at]);
    assert(s.drop_first()[0] == b[at + 1]);
    assert(s.drop_first().drop_first()[0] == b[at + 2]);
    assert(s.drop_first().drop_first().drop_first()[0] == b[at + 3]);
}

/// Four bytes stand for a number, most significant first.
pub proof fn law_be_number(b: Seq<u8>, at: int)
    requires
        0 <= at,
        at + 4 <= b.len(),
    ensures
        wire::be(b.subrange(at, at + 4)) == b[at] * 0x100_0000 + b[at + 1] * 0x1_0000 + b[at + 2]
            * 0x100 + b[at + 3],
{
    reveal_with_fuel(wire::be, 5);
    let s = b.subrange(at, at + 4);
    assert(s.drop_last().drop_last().drop_last().drop_last().len() == 0);
    assert(s.last() == b[at + 3]);
    assert(s.drop_last().last() == b[at + 2]);
    assert(s.drop_last().drop_last().last() == b[at + 1]);
    assert(s.drop_last().drop_last().drop_last().last() == b[at]);
}

} // verus!
