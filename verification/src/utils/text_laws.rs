//! How numbers, bytes and lists are written as text, and how lines are taken apart.
use vstd::prelude::*;

use crate::compare::addr_map_laws;
use crate::utils::chars;
use crate::utils::text;

verus! {

/// The number that decimal digits stand for.
pub open spec fn value(s: Seq<char>) -> int
    decreases s.len(),
{
    if s.len() == 0 {
        0
    } else {
        10 * value(s.drop_last()) + (s.last() as int - 48)
    }
}

/// A number in decimal has only digits, no zero in front, and stands for itself.
pub proof fn law_decimal(n: nat)
    ensures
        text::decimal(n).len() > 0,
        value(text::decimal(n)) == n,
        forall|i: int|
            0 <= i < text::decimal(n).len() ==> 48 <= (#[trigger] text::decimal(n)[i]) as int <= 57,
        n > 0 ==> text::decimal(n)[0] != '0',
        n < 10 ==> text::decimal(n).len() == 1,
    decreases n,
{
    let s = text::decimal(n);
    if n < 10 {
        assert(s.drop_last() =~= Seq::empty());
        assert(value(s.drop_last()) == 0);
    } else {
        law_decimal(n / 10);
        assert(s.drop_last() =~= text::decimal(n / 10));
        assert(s[0] == text::decimal(n / 10)[0]);
    }
}

/// A number below zero is written with a minus sign in front.
pub proof fn law_signed(n: int)
    ensures
        n >= 0 ==> text::signed_decimal(n) == text::decimal(n as nat),
        n < 0 ==> text::signed_decimal(n) == seq!['-'] + text::decimal((0 - n) as nat),
{
}

/// The digits of base sixteen, in order.
pub open spec fn hex_digits() -> Seq<char> {
    seq!['0', '1', '2', '3', '4', '5', '6', '7', '8', '9', 'a', 'b', 'c', 'd', 'e', 'f']
}

/// Bytes in escaped form: printable ones as they are, but for quotes and the backslash, which
/// have a backslash in front; tab, line feed and carriage return by a letter; and others by two
/// hexadecimal digits. All of it is printable, and no two bytes look the same.
pub proof fn law_escaped_byte(a: u8, b: u8)
    ensures
        0x20 <= a <= 0x7E && a != 0x22 && a != 0x27 && a != 0x5C ==> text::escaped_byte(a) == seq![
            a as char,
        ],
        a == 0x22 || a == 0x27 || a == 0x5C ==> text::escaped_byte(a) == seq!['\\', a as char],
        a == 9 ==> text::escaped_byte(a) == seq!['\\', 't'],
        a == 10 ==> text::escaped_byte(a) == seq!['\\', 'n'],
        a == 13 ==> text::escaped_byte(a) == seq!['\\', 'r'],
        a < 0x20 && a != 9 && a != 10 && a != 13 || a > 0x7E ==> {
            text::escaped_byte(a) == seq![
                '\\',
                'x',
                hex_digits()[a as int / 16],
                hex_digits()[a as int % 16],
            ]
        },
        forall|i: int|
            0 <= i < text::escaped_byte(a).len() ==> 0x20 <= (#[trigger] text::escaped_byte(
                a,
            )[i]) as int <= 0x7E,
        a != b ==> text::escaped_byte(a) != text::escaped_byte(b),
{
    let (x, y) = (text::escaped_byte(a), text::escaped_byte(b));
    if x == y {
        assert(x.len() == y.len());
        if x.len() == 1 {
            assert(x[0] == y[0]);
        } else if x.len() == 2 {
            assert(x[1] == y[1]);
        } else {
            assert(x[2] == y[2] && x[3] == y[3]);
            assert(a / 16 == b / 16);
            assert(a % 16 == b % 16);
            assert(a == 16 * (a / 16) + a % 16);
            assert(b == 16 * (b / 16) + b % 16);
        }
    }
}

/// Bytes are escaped one by one.
pub proof fn law_escaped(a: Seq<u8>, b: u8)
    ensures
        text::escaped(Seq::<u8>::empty()) == Seq::<char>::empty(),
        text::escaped(a.push(b)) == text::escaped(a) + text::escaped_byte(b),
{
    assert(a.push(b).drop_last() =~= a);
}

/// Pieces of text are joined with a separator between every two of them, and none around them.
pub proof fn law_joined(items: Seq<Seq<char>>, item: Seq<char>, sep: char)
    ensures
        text::joined(Seq::empty(), sep) == Seq::<char>::empty(),
        text::joined(seq![item], sep) == item,
        items.len() > 0 ==> text::joined(items.push(item), sep) == text::joined(items, sep) + seq![
            sep,
        ] + item,
        text::bracketed(items) == seq!['['] + text::joined(items, ';') + seq![']'],
{
    text::lemma_joined_push(items, item, sep);
    if items.len() > 0 {
        assert(text::joined(items.push(item), sep) =~= text::joined(items, sep) + seq![sep] + item);
    }
}

/// Whether a text is nothing but blanks.
pub open spec fn all_blank(s: Seq<char>) -> bool {
    forall|i: int| 0 <= i < s.len() ==> chars::is_blank(#[trigger] s[i])
}

/// Blanks are the white space of Unicode; letters, digits and marks of ASCII are none.
pub proof fn law_blanks(c: char)
    ensures
        chars::is_blank(' ') && chars::is_blank('\t') && chars::is_blank('\n') && chars::is_blank(
            '\r',
        ),
        0x21 <= c as int <= 0x7E ==> !chars::is_blank(c),
{
}

/// The blanks around a text are taken away, and nothing else.
pub proof fn law_trimmed(front: Seq<char>, s: Seq<char>, back: Seq<char>)
    requires
        all_blank(front),
        all_blank(back),
        s.len() > 0,
        !chars::is_blank(s[0]),
        !chars::is_blank(s.last()),
    ensures
        chars::trimmed(front + s + back) == s,
{
    lemma_trimmed_start(front, s + back);
    assert(front + s + back =~= front + (s + back));
    assert((s + back)[0] == s[0]);
    lemma_trimmed_end(s, back);
}

/// Blanks in front.
proof fn lemma_trimmed_start(front: Seq<char>, s: Seq<char>)
    requires
        all_blank(front),
        s.len() > 0,
        !chars::is_blank(s[0]),
    ensures
        chars::trimmed_start(front + s) == s,
    decreases front.len(),
{
    if front.len() == 0 {
        assert(front + s =~= s);
    } else {
        assert(chars::is_blank(front[0]));
        assert((front + s).drop_first() =~= front.drop_first() + s);
        assert forall|i: int| 0 <= i < front.drop_first().len() implies chars::is_blank(
            #[trigger] front.drop_first()[i],
        ) by {
            assert(front.drop_first()[i] == front[i + 1]);
        }
        lemma_trimmed_start(front.drop_first(), s);
    }
}

/// Blanks behind.
proof fn lemma_trimmed_end(s: Seq<char>, back: Seq<char>)
    requires
        all_blank(back),
        s.len() > 0,
        !chars::is_blank(s.last()),
    ensures
        chars::trimmed_end(s + back) == s,
    decreases back.len(),
{
    if back.len() == 0 {
        assert(s + back =~= s);
    } else {
        assert(chars::is_blank(back[back.len() - 1]));
        assert((s + back).drop_last() =~= s + back.drop_last());
        assert forall|i: int| 0 <= i < back.drop_last().len() implies chars::is_blank(
            #[trigger] back.drop_last()[i],
        ) by {
            assert(back.drop_last()[i] == back[i]);
        }
        lemma_trimmed_end(s, back.drop_last());
    }
}

/// A text of blanks has nothing left.
pub proof fn law_all_trimmed(s: Seq<char>)
    requires
        all_blank(s),
    ensures
        chars::trimmed(s).len() == 0,
    decreases s.len(),
{
    if s.len() > 0 {
        assert(chars::is_blank(s[0]));
        let rest = s.drop_first();
        assert forall|i: int| 0 <= i < rest.len() implies chars::is_blank(#[trigger] rest[i]) by {
            assert(rest[i] == s[i + 1]);
        }
        law_all_trimmed(rest);
    }
}

/// Where a separator does not stand.
proof fn lemma_absent(s: Seq<char>, sep: char)
    requires
        !s.contains(sep),
    ensures
        forall|j: int| 0 <= j ==> !#[trigger] chars::stands_at(s, seq![sep], j),
{
    assert forall|j: int| 0 <= j implies !#[trigger] chars::stands_at(s, seq![sep], j) by {
        if chars::stands_at(s, seq![sep], j) {
            assert(s.subrange(j, j + 1)[0] == sep);
            assert(s[j] == sep);
        }
    }
}

/// The first place of a separator behind a text without it.
proof fn lemma_first(a: Seq<char>, sep: char, b: Seq<char>)
    requires
        !a.contains(sep),
    ensures
        chars::find_from(a + seq![sep] + b, seq![sep], 0) == Some(a.len() as int),
{
    let s = a + seq![sep] + b;
    assert(s.subrange(a.len() as int, a.len() as int + 1) =~= seq![sep]);
    assert forall|j: int| 0 <= j < a.len() implies !#[trigger] chars::stands_at(
        s,
        seq![sep],
        j,
    ) by {
        if chars::stands_at(s, seq![sep], j) {
            assert(s.subrange(j, j + 1)[0] == sep);
            assert(a[j] == sep);
        }
    }
    addr_map_laws::lemma_found(s, seq![sep], 0, a.len() as int);
}

/// A text that is divided by a character: what stands in front of its first place, and what
/// stands between that and the next, or the end. Without it there is no second part.
pub proof fn law_two_parts(a: Seq<char>, b: Seq<char>, c: Seq<char>, sep: char)
    requires
        !a.contains(sep),
        !b.contains(sep),
    ensures
        chars::two_parts(a, seq![sep]) == (a, None::<Seq<char>>),
        chars::two_parts(a + seq![sep] + b, seq![sep]) == (a, Some(b)),
        chars::two_parts(a + seq![sep] + b + seq![sep] + c, seq![sep]) == (a, Some(b)),
{
    lemma_absent(a, sep);
    addr_map_laws::lemma_not_found(a, seq![sep], 0);
    lemma_absent(b, sep);
    addr_map_laws::lemma_not_found(b, seq![sep], 0);
    lemma_first(a, sep, b);
    let s = a + seq![sep] + b;
    assert(s.skip(a.len() as int + 1) =~= b);
    assert(s.take(a.len() as int) =~= a);
    let tail = b + seq![sep] + c;
    lemma_first(a, sep, tail);
    lemma_first(b, sep, c);
    let t = a + seq![sep] + b + seq![sep] + c;
    assert(t =~= a + seq![sep] + tail);
    assert(t.skip(a.len() as int + 1) =~= tail);
    assert(t.take(a.len() as int) =~= a);
    assert(tail.take(b.len() as int) =~= b);
}

/// Decimal digits are read as the number that they stand for, with or without a plus sign, up
/// to the largest one that is allowed; anything else is no number.
pub proof fn law_number(n: nat, max: nat, s: Seq<char>)
    ensures
        n <= max ==> chars::number(text::decimal(n), max) == Some(n),
        n <= max ==> chars::number(seq!['+'] + text::decimal(n), max) == Some(n),
        n > max ==> chars::number(text::decimal(n), max) is None,
        s.len() == 0 ==> chars::number(s, max) is None,
        forall|i: int|
            1 <= i < s.len() && !('0' <= #[trigger] s[i] <= '9') ==> chars::number(s, max) is None,
        s.len() > 0 && !('0' <= s[0] <= '9') && s[0] != '+' ==> chars::number(s, max) is None,
{
    let d = text::decimal(n);
    addr_map_laws::lemma_decimal(n);
    assert(chars::is_digit(d[0]));
    assert((seq!['+'] + d).skip(1) =~= d);
    assert forall|i: int| 1 <= i < s.len() && !('0' <= #[trigger] s[i] <= '9') implies
        chars::number(s, max) is None by {
        if s[0] == '+' {
            assert(s.skip(1)[i - 1] == s[i]);
        }
    }
}

} // verus!
