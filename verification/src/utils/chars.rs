//! Reading of lines: blanks around text, separators, and numbers.
use vstd::prelude::*;
use vstd::string::*;
use vstd::utf8::*;

verus! {

/// Whether a character is a blank: one with the Unicode property `White_Space`.
pub open spec fn is_blank(c: char) -> bool {
    ||| '\u{9}' <= c <= '\u{d}'
    ||| c == '\u{20}'
    ||| c == '\u{85}'
    ||| c == '\u{a0}'
    ||| c == '\u{1680}'
    ||| '\u{2000}' <= c <= '\u{200a}'
    ||| c == '\u{2028}'
    ||| c == '\u{2029}'
    ||| c == '\u{202f}'
    ||| c == '\u{205f}'
    ||| c == '\u{3000}'
}

/// Whether a character is a blank.
pub fn blank(c: char) -> (r: bool)
    ensures
        r == is_blank(c),
{
    '\u{9}' <= c && c <= '\u{d}' || c == '\u{20}' || c == '\u{85}' || c == '\u{a0}' || c
        == '\u{1680}' || '\u{2000}' <= c && c <= '\u{200a}' || c == '\u{2028}' || c == '\u{2029}'
        || c == '\u{202f}' || c == '\u{205f}' || c == '\u{3000}'
}

/// Text without the blanks at its start.
pub open spec fn trimmed_start(s: Seq<char>) -> Seq<char>
    decreases s.len(),
{
    if s.len() > 0 && is_blank(s[0]) {
        trimmed_start(s.drop_first())
    } else {
        s
    }
}

/// Text without the blanks at its end.
pub open spec fn trimmed_end(s: Seq<char>) -> Seq<char>
    decreases s.len(),
{
    if s.len() > 0 && is_blank(s.last()) {
        trimmed_end(s.drop_last())
    } else {
        s
    }
}

/// Text without the blanks around it.
pub open spec fn trimmed(s: Seq<char>) -> Seq<char> {
    trimmed_end(trimmed_start(s))
}

/// Text without the blanks around it.
pub fn trim(s: &str) -> (r: &str)
    ensures
        r@ == trimmed(s@),
{
    let len: usize = s.unicode_len();
    let mut from: usize = 0;
    assert(s@.subrange(0, len as int) =~= s@);
    while from < len && blank(s.get_char(from))
        invariant
            from <= len,
            len == s@.len(),
            trimmed_start(s@) == trimmed_start(s@.subrange(from as int, len as int)),
        decreases len - from,
    {
        assert(s@.subrange(from as int, len as int).drop_first() =~= s@.subrange(
            from + 1,
            len as int,
        ));
        from += 1;
    }
    let mut to: usize = len;
    while to > from && blank(s.get_char(to - 1))
        invariant
            from <= to <= len,
            len == s@.len(),
            trimmed(s@) == trimmed_end(s@.subrange(from as int, to as int)),
        decreases to,
    {
        assert(s@.subrange(from as int, to as int).drop_last() =~= s@.subrange(
            from as int,
            to - 1,
        ));
        to -= 1;
    }
    s.substring_char(from, to)
}

/// Whether `sep` stands at place `i` of a text.
pub open spec fn stands_at(s: Seq<char>, sep: Seq<char>, i: int) -> bool {
    i + sep.len() <= s.len() && s.subrange(i, i + sep.len()) == sep
}

/// The first place from `i` on where `sep` stands.
pub open spec fn find_from(s: Seq<char>, sep: Seq<char>, i: int) -> Option<int>
    decreases s.len() - i + 1,
{
    if i + sep.len() > s.len() || i < 0 {
        None
    } else if stands_at(s, sep, i) {
        Some(i)
    } else {
        find_from(s, sep, i + 1)
    }
}

/// The first two parts of a text that is divided by `sep`: up to its first place,
/// and from there up to its second place, or to the end. There is no second part
/// where `sep` does not occur.
pub open spec fn two_parts(s: Seq<char>, sep: Seq<char>) -> (Seq<char>, Option<Seq<char>>) {
    match find_from(s, sep, 0) {
        None => (s, None),
        Some(i) => {
            let rest = s.skip(i + sep.len());
            match find_from(rest, sep, 0) {
                None => (s.take(i), Some(rest)),
                Some(j) => (s.take(i), Some(rest.take(j))),
            }
        },
    }
}

/// The first place where `sep` stands.
fn find(s: &str, sep: &str) -> (r: Option<usize>)
    requires
        sep@.len() > 0,
    ensures
        match find_from(s@, sep@, 0) {
            Some(i) => r matches Some(k) && k == i && 0 <= i && i + sep@.len() <= s@.len(),
            None => r is None,
        },
{
    let len: usize = s.unicode_len();
    let n: usize = sep.unicode_len();
    let mut i: usize = 0;
    while n <= len && i <= len - n
        invariant
            len == s@.len(),
            n == sep@.len() > 0,
            n <= len ==> i <= len - n + 1,
            n > len ==> i == 0,
            find_from(s@, sep@, 0) == find_from(s@, sep@, i as int),
        decreases len + 1 - i,
    {
        let part = s.substring_char(i, i + n);
        if same(part, sep) {
            return Some(i);
        }
        i += 1;
    }
    None
}

/// The first two parts of a text that is divided by `sep`.
pub fn split_two<'a>(s: &'a str, sep: &str) -> (r: (&'a str, Option<&'a str>))
    requires
        sep@.len() > 0,
    ensures
        r.0@ == two_parts(s@, sep@).0,
        match two_parts(s@, sep@).1 {
            Some(t) => r.1 matches Some(t2) && t2@ == t,
            None => r.1 is None,
        },
{
    match find(s, sep) {
        None => (s, None),
        Some(i) => {
            let first = s.substring_char(0, i);
            assert(first@ =~= s@.take(i as int));
            let len: usize = s.unicode_len();
            let rest = s.substring_char(i + sep.unicode_len(), len);
            assert(rest@ =~= s@.skip(i + sep@.len()));
            match find(rest, sep) {
                None => (first, Some(rest)),
                Some(j) => {
                    let second = rest.substring_char(0, j);
                    assert(second@ =~= rest@.take(j as int));
                    (first, Some(second))
                },
            }
        },
    }
}

/// Whether two byte strings are the same.
pub fn same_bytes(a: &[u8], b: &[u8]) -> (r: bool)
    ensures
        r == (a@ == b@),
{
    if a.len() != b.len() {
        return false;
    }
    let mut i: usize = 0;
    while i < a.len()
        invariant
            a@.len() == b@.len(),
            i <= a@.len(),
            forall|k: int| 0 <= k < i ==> a@[k] == b@[k],
        decreases a@.len() - i,
    {
        if a[i] != b[i] {
            return false;
        }
        i += 1;
    }
    assert(a@ =~= b@);
    true
}

/// Whether two texts are the same.
pub fn same(a: &str, b: &str) -> (r: bool)
    ensures
        r == (a@ == b@),
{
    proof {
        encode_utf8_decode_utf8(a@);
        encode_utf8_decode_utf8(b@);
    }
    same_bytes(a.as_bytes(), b.as_bytes())
}

/// Whether a character is a decimal digit.
pub open spec fn is_digit(c: char) -> bool {
    '0' <= c <= '9'
}

/// The number that digits stand for.
pub open spec fn digits_value(s: Seq<char>) -> nat
    decreases s.len(),
{
    if s.len() == 0 {
        0
    } else {
        10 * digits_value(s.drop_last()) + (s.last() as nat - '0' as nat) as nat
    }
}

/// The number that a text of digits stands for; nothing where it is larger than
/// `max`, or where there is no digit or something else.
pub open spec fn digits_number(digits: Seq<char>, max: nat) -> Option<nat> {
    if digits.len() > 0 && (forall|i: int| 0 <= i < digits.len() ==> is_digit(#[trigger] digits[i]))
        && digits_value(digits) <= max {
        Some(digits_value(digits))
    } else {
        None
    }
}

/// The number that a text stands for: digits, with or without a plus sign in
/// front; and nothing where it is larger than `max`.
pub open spec fn number(s: Seq<char>, max: nat) -> Option<nat> {
    if s.len() > 0 && s[0] == '+' {
        digits_number(s.skip(1), max)
    } else {
        digits_number(s, max)
    }
}

/// Leading digits stand for a smaller number.
proof fn lemma_digits_grow(s: Seq<char>, n: int)
    requires
        0 <= n <= s.len(),
    ensures
        digits_value(s.take(n)) <= digits_value(s),
    decreases s.len(),
{
    if n < s.len() {
        lemma_digits_grow(s.drop_last(), n);
        assert(s.drop_last().take(n) =~= s.take(n));
    } else {
        assert(s.take(n) =~= s);
    }
}

/// Reads a number that is not larger than `max`.
pub fn parse_number(s: &str, max: u64) -> (r: Option<u64>)
    ensures
        match number(s@, max as nat) {
            Some(n) => r matches Some(k) && k == n,
            None => r is None,
        },
{
    let len: usize = s.unicode_len();
    let start: usize = if len > 0 && s.get_char(0) == '+' {
        1
    } else {
        0
    };
    let ghost digits = s@.skip(start as int);
    assert(start == 0 ==> digits =~= s@);
    assert(number(s@, max as nat) == digits_number(digits, max as nat));
    if start == len {
        return None;
    }
    let mut i: usize = start;
    let mut n: u64 = 0;
    assert(digits.take(0) =~= Seq::empty());
    while i < len
        invariant
            len == s@.len(),
            start <= i <= len,
            start < len,
            start <= 1,
            digits == s@.skip(start as int),
            forall|k: int| 0 <= k < i - start ==> is_digit(#[trigger] digits[k]),
            n == digits_value(digits.take(i - start)),
            n <= max,
            number(s@, max as nat) == digits_number(digits, max as nat),
        decreases len - i,
    {
        let c = s.get_char(i);
        assert(digits[i - start] == c);
        if c < '0' || c > '9' {
            assert(!is_digit(digits[i - start]));
            return None;
        }
        let d: u64 = c as u64 - '0' as u64;
        proof {
            assert(digits.take(i - start + 1).drop_last() =~= digits.take(i - start));
            assert(digits_value(digits.take(i - start + 1)) == 10 * n + d);
            lemma_digits_grow(digits, i - start + 1);
        }
        if d > max || n > max / 10 || n * 10 > max - d {
            return None;
        }
        n = n * 10 + d;
        i += 1;
    }
    assert(digits.take(i - start) =~= digits);
    Some(n)
}

} // verus!
