//! Text of numbers, bytes and lists, as the dumps and reports print them.
use vstd::prelude::*;
use vstd::string::*;

verus! {

/// `String::push`: puts one character at the end.
pub assume_specification[ String::push ](s: &mut String, c: char)
    ensures
        final(s)@ == old(s)@.push(c),
;

/// A copy of a text.
pub fn copied(s: &str) -> (r: String)
    ensures
        r@ == s@,
{
    let mut r = String::new();
    r.append(s);
    assert(r@ =~= s@);
    r
}

/// The character of a decimal or hexadecimal digit, in lower case.
pub open spec fn digit_char(d: int) -> char {
    if d < 10 {
        (0x30 + d) as char
    } else {
        (0x57 + d) as char
    }
}

/// The character of a decimal or hexadecimal digit, in lower case.
pub fn digit(d: u8) -> (c: char)
    requires
        d < 16,
    ensures
        c == digit_char(d as int),
{
    if d < 10 {
        (0x30 + d) as char
    } else {
        (0x57 + d) as char
    }
}

/// A number in decimal, without leading zeros.
pub open spec fn decimal(n: nat) -> Seq<char>
    decreases n,
{
    if n < 10 {
        seq![digit_char(n as int)]
    } else {
        decimal(n / 10).push(digit_char((n % 10) as int))
    }
}

/// A signed number in decimal.
pub open spec fn signed_decimal(n: int) -> Seq<char> {
    if n < 0 {
        seq!['-'] + decimal((-n) as nat)
    } else {
        decimal(n as nat)
    }
}

/// Appends a number in decimal.
pub fn push_decimal(out: &mut String, n: u64)
    ensures
        final(out)@ == old(out)@ + decimal(n as nat),
    decreases n,
{
    if n >= 10 {
        push_decimal(out, n / 10);
    }
    out.push(digit((n % 10) as u8));
    proof {
        if n >= 10 {
            assert(old(out)@ + decimal((n / 10) as nat).push(digit_char((n % 10) as int)) =~= (old(
                out,
            )@ + decimal((n / 10) as nat)).push(digit_char((n % 10) as int)));
        } else {
            assert(old(out)@ + decimal(n as nat) =~= old(out)@.push(digit_char(n as int)));
        }
    }
}

/// Appends a signed number in decimal.
pub fn push_signed(out: &mut String, n: i64)
    ensures
        final(out)@ == old(out)@ + signed_decimal(n as int),
{
    if n < 0 {
        out.push('-');
        push_decimal(out, (-(n as i128)) as u64);
        assert(final(out)@ =~= old(out)@ + (seq!['-'] + decimal((-n) as nat)));
    } else {
        push_decimal(out, n as u64);
    }
}

/// One byte in the notation of Rust's byte strings: tab, line feed, carriage
/// return, the quotes and the backslash by their escapes, other printable
/// ASCII as it is, and everything else as `\x` with two digits.
pub open spec fn escaped_byte(b: u8) -> Seq<char> {
    if b == 0x09 {
        seq!['\\', 't']
    } else if b == 0x0a {
        seq!['\\', 'n']
    } else if b == 0x0d {
        seq!['\\', 'r']
    } else if b == 0x22 || b == 0x27 || b == 0x5c {
        seq!['\\', b as char]
    } else if 0x20 <= b <= 0x7e {
        seq![b as char]
    } else {
        seq!['\\', 'x', digit_char((b / 16) as int), digit_char((b % 16) as int)]
    }
}

/// Bytes in the notation of `escaped_byte`, one after the other.
pub open spec fn escaped(bytes: Seq<u8>) -> Seq<char>
    decreases bytes.len(),
{
    if bytes.len() == 0 {
        Seq::empty()
    } else {
        escaped(bytes.drop_last()) + escaped_byte(bytes.last())
    }
}

/// Bytes that print in escaped form.
pub struct DisplayBytes<'a>(pub &'a [u8]);

impl<'a> DisplayBytes<'a> {
    /// Appends the escaped form of the bytes.
    pub fn write(&self, out: &mut String)
        ensures
            final(out)@ == old(out)@ + escaped(self.0@),
    {
        write_escaped_bytes(out, self.0)
    }
}

/// Appends the escaped form of one byte.
fn push_escaped_byte(out: &mut String, b: u8)
    ensures
        final(out)@ == old(out)@ + escaped_byte(b),
{
    if b == 0x09 {
        out.push('\\');
        out.push('t');
    } else if b == 0x0a {
        out.push('\\');
        out.push('n');
    } else if b == 0x0d {
        out.push('\\');
        out.push('r');
    } else if b == 0x22 || b == 0x27 || b == 0x5c {
        out.push('\\');
        out.push(b as char);
    } else if 0x20 <= b && b <= 0x7e {
        out.push(b as char);
    } else {
        out.push('\\');
        out.push('x');
        out.push(digit(b / 16));
        out.push(digit(b % 16));
    }
    assert(final(out)@ =~= old(out)@ + escaped_byte(b));
}

/// Appends the escaped form of the bytes.
pub fn write_escaped_bytes(out: &mut String, bytes: &[u8])
    ensures
        final(out)@ == old(out)@ + escaped(bytes@),
{
    let ghost start = out@;
    let mut i: usize = 0;
    assert(bytes@.take(0) =~= Seq::<u8>::empty());
    assert(out@ =~= start + escaped(bytes@.take(0)));
    while i < bytes.len()
        invariant
            i <= bytes@.len(),
            out@ == start + escaped(bytes@.take(i as int)),
        decreases bytes@.len() - i,
    {
        push_escaped_byte(out, bytes[i]);
        assert(bytes@.take(i + 1).drop_last() =~= bytes@.take(i as int));
        assert(out@ =~= start + escaped(bytes@.take(i + 1)));
        i += 1;
    }
    assert(bytes@.take(i as int) =~= bytes@);
}

/// Pieces of text with a separator between every two of them.
pub open spec fn joined(items: Seq<Seq<char>>, sep: char) -> Seq<char>
    decreases items.len(),
{
    if items.len() == 0 {
        Seq::empty()
    } else if items.len() == 1 {
        items[0]
    } else {
        joined(items.drop_last(), sep).push(sep) + items.last()
    }
}

/// One more piece at the end of joined text.
pub proof fn lemma_joined_push(items: Seq<Seq<char>>, item: Seq<char>, sep: char)
    ensures
        joined(items.push(item), sep) == if items.len() == 0 {
            item
        } else {
            joined(items, sep).push(sep) + item
        },
{
    assert(items.push(item).drop_last() =~= items);
}

/// Pieces of text between brackets, with semicolons between them.
pub open spec fn bracketed(items: Seq<Seq<char>>) -> Seq<char> {
    seq!['['] + joined(items, ';') + seq![']']
}

/// The decimal texts of signed 16-bit numbers.
pub open spec fn i16_texts(codes: Seq<i16>) -> Seq<Seq<char>> {
    Seq::new(codes.len(), |i: int| signed_decimal(codes[i] as int))
}

/// Appends numbers between brackets, with semicolons between them.
pub fn write_i16_slice(w: &mut String, codes: &[i16])
    ensures
        final(w)@ == old(w)@ + bracketed(i16_texts(codes@)),
{
    let ghost start = w@;
    w.push('[');
    let mut i: usize = 0;
    assert(i16_texts(codes@).take(0) =~= Seq::empty());
    assert(w@ =~= start + (seq!['['] + joined(i16_texts(codes@).take(0), ';')));
    while i < codes.len()
        invariant
            i <= codes@.len(),
            w@ == start + (seq!['['] + joined(i16_texts(codes@).take(i as int), ';')),
        decreases codes@.len() - i,
    {
        let ghost texts = i16_texts(codes@);
        if i > 0 {
            w.push(';');
        }
        push_signed(w, codes[i] as i64);
        proof {
            lemma_joined_push(texts.take(i as int), texts[i as int], ';');
            assert(texts.take(i as int).push(texts[i as int]) =~= texts.take(i + 1));
            assert(w@ =~= start + (seq!['['] + joined(texts.take(i + 1), ';')));
        }
        i += 1;
    }
    w.push(']');
    assert(i16_texts(codes@).take(i as int) =~= i16_texts(codes@));
    assert(w@ =~= start + bracketed(i16_texts(codes@)));
}

/// The decimal texts of unsigned 32-bit numbers.
pub open spec fn u32_texts(items: Seq<u32>) -> Seq<Seq<char>> {
    Seq::new(items.len(), |i: int| decimal(items[i] as nat))
}

/// Appends numbers between brackets, with semicolons between them.
pub fn write_u32_slice(w: &mut String, items: &[u32])
    ensures
        final(w)@ == old(w)@ + bracketed(u32_texts(items@)),
{
    let ghost start = w@;
    w.push('[');
    let mut i: usize = 0;
    assert(u32_texts(items@).take(0) =~= Seq::empty());
    assert(w@ =~= start + (seq!['['] + joined(u32_texts(items@).take(0), ';')));
    while i < items.len()
        invariant
            i <= items@.len(),
            w@ == start + (seq!['['] + joined(u32_texts(items@).take(i as int), ';')),
        decreases items@.len() - i,
    {
        let ghost texts = u32_texts(items@);
        if i > 0 {
            w.push(';');
        }
        push_decimal(w, items[i] as u64);
        proof {
            lemma_joined_push(texts.take(i as int), texts[i as int], ';');
            assert(texts.take(i as int).push(texts[i as int]) =~= texts.take(i + 1));
            assert(w@ =~= start + (seq!['['] + joined(texts.take(i + 1), ';')));
        }
        i += 1;
    }
    w.push(']');
    assert(u32_texts(items@).take(i as int) =~= u32_texts(items@));
    assert(w@ =~= start + bracketed(u32_texts(items@)));
}

} // verus!
