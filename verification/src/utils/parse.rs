//! Reading of the big-endian integers and zero-terminated strings that the
//! PostgreSQL wire protocol is made of.
use vstd::prelude::*;
use vstd::utf8::*;

verus! {

/// The unsigned number that two bytes stand for, most significant byte first.
pub open spec fn be16(b: Seq<u8>) -> int {
    b[0] * 0x100 + b[1]
}

/// The unsigned number that four bytes stand for, most significant byte first.
pub open spec fn be32(b: Seq<u8>) -> int {
    b[0] * 0x100_0000 + b[1] * 0x1_0000 + b[2] * 0x100 + b[3]
}

/// The two's complement reading of a 16-bit number.
pub open spec fn signed16(x: int) -> int {
    if x < 0x8000 {
        x
    } else {
        x - 0x1_0000
    }
}

/// The two's complement reading of a 32-bit number.
pub open spec fn signed32(x: int) -> int {
    if x < 0x8000_0000 {
        x
    } else {
        x - 0x1_0000_0000
    }
}

/// The bytes from `at` on.
pub fn bytes_from(src: &[u8], at: usize) -> (r: &[u8])
    requires
        at <= src@.len(),
    ensures
        r@ == src@.skip(at as int),
        at + r.len() == src.len(),
{
    let r = &src[at..src.len()];
    assert(r@ =~= src@.skip(at as int));
    r
}

/// `len` bytes from `off` on.
pub fn bytes_at(src: &[u8], off: usize, len: usize) -> (r: &[u8])
    requires
        off + len <= src@.len(),
    ensures
        r@ == src@.subrange(off as int, off + len),
{
    assert(src@.len() == src.len());
    &src[off..off + len]
}

/// Reads the first four bytes as an unsigned number.
pub fn read_u32(b: &[u8]) -> (r: u32)
    requires
        b@.len() >= 4,
    ensures
        r == be32(b@),
{
    b[0] as u32 * 0x100_0000 + b[1] as u32 * 0x1_0000 + b[2] as u32 * 0x100 + b[3] as u32
}

/// Reads the first four bytes as a signed number.
pub fn read_i32(b: &[u8]) -> (r: i32)
    requires
        b@.len() >= 4,
    ensures
        r == signed32(be32(b@)),
{
    let x: u32 = read_u32(b);
    if x < 0x8000_0000 {
        x as i32
    } else {
        (x as i64 - 0x1_0000_0000) as i32
    }
}

/// Reads the first two bytes as an unsigned number.
pub fn read_u16(b: &[u8]) -> (r: u16)
    requires
        b@.len() >= 2,
    ensures
        r == be16(b@),
{
    b[0] as u16 * 0x100 + b[1] as u16
}

/// Reads the first two bytes as a signed number.
pub fn read_i16(b: &[u8]) -> (r: i16)
    requires
        b@.len() >= 2,
    ensures
        r == signed16(be16(b@)),
{
    let x: u16 = read_u16(b);
    if x < 0x8000 {
        x as i16
    } else {
        (x as i32 - 0x1_0000) as i16
    }
}

/// `std::str::from_utf8`: succeeds exactly on well-formed UTF-8, and then
/// gives the characters that the bytes encode.
#[verifier::external_body]
pub(crate) fn utf8_text(bytes: &[u8]) -> (r: Option<&str>)
    ensures
        r is Some <==> valid_utf8(bytes@),
        r matches Some(s) ==> s@ == decode_utf8(bytes@),
{
    std::str::from_utf8(bytes).ok()
}

/// A zero-terminated string at the start of `b`: its characters and the number
/// of bytes that it takes, the terminator counted; or what is wrong with it.
pub open spec fn c_string(b: Seq<u8>) -> Result<(Seq<char>, int), Seq<char>> {
    match b.index_of_first(0u8) {
        None => Err("Missing null terminator"@),
        Some(n) => if valid_utf8(b.take(n)) {
            Ok((decode_utf8(b.take(n)), n + 1))
        } else {
            Err("Invalid UTF-8 in C string"@)
        },
    }
}

/// The position of the first zero byte.
pub fn find_zero(buf: &[u8]) -> (r: Option<usize>)
    ensures
        match r {
            Some(n) => n < buf.len() && buf@.index_of_first(0u8) == Some(n as int),
            None => buf@.index_of_first(0u8) is None,
        },
{
    let mut i: usize = 0;
    while i < buf.len()
        invariant
            i <= buf@.len(),
            forall|j: int| 0 <= j < i ==> buf@[j] != 0,
        decreases buf@.len() - i,
    {
        if buf[i] == 0 {
            proof {
                buf@.index_of_first_ensures(0u8);
            }
            return Some(i);
        }
        i += 1;
    }
    proof {
        buf@.index_of_first_ensures(0u8);
    }
    None
}

/// Reads a zero-terminated string from the start of `buf`. The number that
/// comes with it counts the terminator.
pub fn read_c_string(buf: &[u8]) -> (r: Result<(&str, usize), &'static str>)
    ensures
        match r {
            Ok((s, n)) => c_string(buf@) == Ok::<(Seq<char>, int), Seq<char>>((s@, n as int)) && 0
                < n <= buf@.len(),
            Err(e) => c_string(buf@) == Err::<(Seq<char>, int), Seq<char>>(e@),
        },
{
    proof {
        buf@.index_of_first_ensures(0u8);
    }
    match find_zero(buf) {
        None => Err("Missing null terminator"),
        Some(n) => {
            let text = &buf[0..n];
            assert(text@ =~= buf@.take(n as int));
            match utf8_text(text) {
                Some(s) => Ok((s, n + 1)),
                None => Err("Invalid UTF-8 in C string"),
            }
        },
    }
}

} // verus!
