//! Writing of numbers and bytes, and reading of numbers whose least significant
//! byte comes first.
use vstd::prelude::*;

use crate::utils::parse;

verus! {

/// Four bytes that stand for a number, most significant byte first.
pub open spec fn be32_bytes(n: u32) -> Seq<u8> {
    seq![
        (n / 0x100_0000) as u8,
        (n / 0x1_0000 % 0x100) as u8,
        (n / 0x100 % 0x100) as u8,
        (n % 0x100) as u8,
    ]
}

/// Appends bytes.
pub fn push_bytes(out: &mut Vec<u8>, bytes: &[u8])
    ensures
        final(out)@ == old(out)@ + bytes@,
{
    out.extend_from_slice(bytes);
    assert(final(out)@ =~= old(out)@ + bytes@);
}

/// Appends a number, most significant byte first.
pub fn push_be32(out: &mut Vec<u8>, n: u32)
    ensures
        final(out)@ == old(out)@ + be32_bytes(n),
{
    out.push((n / 0x100_0000) as u8);
    out.push((n / 0x1_0000 % 0x100) as u8);
    out.push((n / 0x100 % 0x100) as u8);
    out.push((n % 0x100) as u8);
    assert(final(out)@ =~= old(out)@ + be32_bytes(n));
}

/// A number that was written is read back.
pub proof fn lemma_be32_read_back(n: u32, rest: Seq<u8>)
    ensures
        parse::be32(be32_bytes(n) + rest) == n,
{
    let b = be32_bytes(n) + rest;
    assert(b[0] == be32_bytes(n)[0] && b[1] == be32_bytes(n)[1]);
    assert(b[2] == be32_bytes(n)[2] && b[3] == be32_bytes(n)[3]);
}

/// The number that bytes stand for, least significant byte first.
pub open spec fn le(b: Seq<u8>) -> nat
    decreases b.len(),
{
    if b.len() == 0 {
        0
    } else {
        b[0] as nat + 0x100 * le(b.drop_first())
    }
}

/// As many bytes that stand for a number, least significant byte first.
pub open spec fn le_bytes(n: nat, width: nat) -> Seq<u8>
    decreases width,
{
    if width == 0 {
        Seq::empty()
    } else {
        seq![(n % 0x100) as u8] + le_bytes(n / 0x100, (width - 1) as nat)
    }
}

/// The largest number that fits in so many bytes, plus one.
pub open spec fn le_limit(width: nat) -> nat
    decreases width,
{
    if width == 0 {
        1
    } else {
        0x100 * le_limit((width - 1) as nat)
    }
}

/// A number that fits is read back.
pub proof fn lemma_le_read_back(n: nat, width: nat)
    requires
        n < le_limit(width),
    ensures
        le_bytes(n, width).len() == width,
        le(le_bytes(n, width)) == n,
    decreases width,
{
    if width > 0 {
        lemma_le_read_back(n / 0x100, (width - 1) as nat);
        assert(le_bytes(n, width).drop_first() =~= le_bytes(n / 0x100, (width - 1) as nat));
    }
}

/// Bytes of a number.
pub proof fn lemma_le_bytes_len(n: nat, width: nat)
    ensures
        le_bytes(n, width).len() == width,
    decreases width,
{
    if width > 0 {
        lemma_le_bytes_len(n / 0x100, (width - 1) as nat);
    }
}

/// Bytes stand for a number below the limit.
pub proof fn lemma_le_bound(b: Seq<u8>)
    ensures
        le(b) < le_limit(b.len()),
    decreases b.len(),
{
    if b.len() > 0 {
        lemma_le_bound(b.drop_first());
    }
}

/// The limits of the widths that occur.
pub proof fn lemma_le_limits()
    ensures
        le_limit(2) == 0x1_0000,
        le_limit(4) == 0x1_0000_0000,
        le_limit(8) == 0x1_0000_0000_0000_0000,
{
    reveal_with_fuel(le_limit, 9);
}

/// Appends a number in `width` bytes, least significant byte first.
fn push_le(out: &mut Vec<u8>, n: u64, width: usize)
    ensures
        final(out)@ == old(out)@ + le_bytes(n as nat, width as nat),
{
    let ghost start = out@;
    let mut rest: u64 = n;
    let mut left: usize = width;
    while left > 0
        invariant
            left <= width,
            start + le_bytes(n as nat, width as nat) =~= out@ + le_bytes(
                rest as nat,
                left as nat,
            ),
        decreases left,
    {
        let ghost before = out@;
        out.push((rest % 0x100) as u8);
        assert(before + le_bytes(rest as nat, left as nat) =~= out@ + le_bytes(
            rest as nat / 0x100,
            (left - 1) as nat,
        ));
        rest = rest / 0x100;
        left -= 1;
    }
    assert(out@ + le_bytes(rest as nat, 0) =~= out@);
}

/// Appends a 32-bit number, least significant byte first.
pub fn push_le32(out: &mut Vec<u8>, n: u32)
    ensures
        final(out)@ == old(out)@ + le_bytes(n as nat, 4),
{
    push_le(out, n as u64, 4);
}

/// Appends a 64-bit number, least significant byte first.
pub fn push_le64(out: &mut Vec<u8>, n: u64)
    ensures
        final(out)@ == old(out)@ + le_bytes(n as nat, 8),
{
    push_le(out, n, 8);
}

/// Appends a 16-bit number, least significant byte first.
pub fn push_le16(out: &mut Vec<u8>, n: u16)
    ensures
        final(out)@ == old(out)@ + le_bytes(n as nat, 2),
{
    push_le(out, n as u64, 2);
}

/// Reads a 16-bit number, least significant byte first.
pub fn read_le16(b: &[u8]) -> (r: u16)
    requires
        b@.len() >= 2,
    ensures
        r == le(b@.take(2)),
{
    proof {
        reveal_with_fuel(le, 4);
        let t = b@.take(2);
        assert(t.drop_first().drop_first() =~= Seq::<u8>::empty());
    }
    b[0] as u16 + b[1] as u16 * 0x100
}

/// Reads a 32-bit number, least significant byte first.
pub fn read_le32(b: &[u8]) -> (r: u32)
    requires
        b@.len() >= 4,
    ensures
        r == le(b@.take(4)),
{
    proof {
        reveal_with_fuel(le, 6);
        let t = b@.take(4);
        assert(t.drop_first().drop_first().drop_first().drop_first() =~= Seq::<u8>::empty());
    }
    b[0] as u32 + b[1] as u32 * 0x100 + b[2] as u32 * 0x1_0000 + b[3] as u32 * 0x100_0000
}

/// Reads a 64-bit number, least significant byte first.
pub fn read_le64(b: &[u8]) -> (r: u64)
    requires
        b@.len() >= 8,
    ensures
        r == le(b@.take(8)),
{
    let low: u32 = read_le32(b);
    let high: u32 = read_le32(&b[4..8]);
    proof {
        let t = b@.take(8);
        reveal_with_fuel(le, 10);
        let u = b@.take(4);
        let w = b@.subrange(4, 8).take(4);
        assert(t.drop_first().drop_first().drop_first().drop_first() =~= w);
        assert(u.drop_first().drop_first().drop_first().drop_first() =~= Seq::<u8>::empty());
        assert(t[0] == u[0] && t[1] == u[1] && t[2] == u[2] && t[3] == u[3]);
    }
    low as u64 + high as u64 * 0x1_0000_0000
}

/// The number that bytes stand for, most significant byte first.
pub open spec fn be(b: Seq<u8>) -> nat
    decreases b.len(),
{
    if b.len() == 0 {
        0
    } else {
        0x100 * be(b.drop_last()) + b.last() as nat
    }
}

/// As many bytes that stand for a number, most significant byte first.
pub open spec fn be_bytes(n: nat, width: nat) -> Seq<u8>
    decreases width,
{
    if width == 0 {
        Seq::empty()
    } else {
        be_bytes(n / 0x100, (width - 1) as nat).push((n % 0x100) as u8)
    }
}

/// A number that fits is read back.
pub proof fn lemma_be_read_back(n: nat, width: nat)
    requires
        n < le_limit(width),
    ensures
        be_bytes(n, width).len() == width,
        be(be_bytes(n, width)) == n,
    decreases width,
{
    if width > 0 {
        lemma_be_read_back(n / 0x100, (width - 1) as nat);
        assert(be_bytes(n, width).drop_last() =~= be_bytes(n / 0x100, (width - 1) as nat));
    }
}

/// The limits of the widths of addresses.
pub proof fn lemma_be_limits()
    ensures
        le_limit(4) == 0x1_0000_0000,
        le_limit(16) == 0x1_0000_0000_0000_0000_0000_0000_0000_0000,
{
    reveal_with_fuel(le_limit, 17);
}

/// Appends a number in `width` bytes, most significant byte first.
pub fn push_be(out: &mut Vec<u8>, n: u128, width: usize)
    ensures
        final(out)@ == old(out)@ + be_bytes(n as nat, width as nat),
    decreases width,
{
    let ghost start = out@;
    if width > 0 {
        push_be(out, n / 0x100, width - 1);
        out.push((n % 0x100) as u8);
    }
    assert(out@ =~= start + be_bytes(n as nat, width as nat));
}

/// Reads a number of at most sixteen bytes, most significant byte first.
pub fn read_be(b: &[u8]) -> (r: u128)
    requires
        b@.len() <= 16,
    ensures
        r == be(b@),
{
    let mut n: u128 = 0;
    let mut i: usize = 0;
    assert(b@.take(0) =~= Seq::empty());
    while i < b.len()
        invariant
            i <= b@.len() <= 16,
            n == be(b@.take(i as int)),
        decreases b@.len() - i,
    {
        proof {
            lemma_be_bound(b@.take(i + 1));
            lemma_limit_grows((i + 1) as nat, 16);
            lemma_be_limits();
            assert(b@.take(i + 1).drop_last() =~= b@.take(i as int));
        }
        n = n * 0x100 + b[i] as u128;
        i += 1;
    }
    assert(b@.take(b@.len() as int) =~= b@);
    n
}

/// Bytes stand for a number below the limit.
proof fn lemma_be_bound(b: Seq<u8>)
    ensures
        be(b) < le_limit(b.len()),
    decreases b.len(),
{
    if b.len() > 0 {
        lemma_be_bound(b.drop_last());
    }
}

/// More bytes hold larger numbers.
proof fn lemma_limit_grows(a: nat, b: nat)
    requires
        a <= b,
    ensures
        0 < le_limit(a) <= le_limit(b),
    decreases b,
{
    if a < b {
        lemma_limit_grows(a, (b - 1) as nat);
    } else if a > 0 {
        lemma_limit_grows((a - 1) as nat, (a - 1) as nat);
    }
}

} // verus!
