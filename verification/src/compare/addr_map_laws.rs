//! What is written of clients and their addresses is read back.
use vstd::prelude::*;

use crate::capture::reader::ClientId;
use crate::compare::addr_map;
use crate::replay::addr_map::entry_text;
use crate::utils::chars;
use crate::utils::text;
use crate::utils::text_laws;

verus! {

/// The decimal digits of a number stand for it.
pub(crate) proof fn lemma_decimal(n: nat)
    ensures
        text::decimal(n).len() > 0,
        forall|i: int|
            0 <= i < text::decimal(n).len() ==> chars::is_digit(#[trigger] text::decimal(n)[i]),
        chars::digits_value(text::decimal(n)) == n,
    decreases n,
{
    let s = text::decimal(n);
    if n < 10 {
        assert(s.drop_last() =~= Seq::empty());
        assert(chars::digits_value(s.drop_last()) == 0);
    } else {
        lemma_decimal(n / 10);
        assert(s.drop_last() =~= text::decimal(n / 10));
    }
}

/// The first place of a separator.
pub(crate) proof fn lemma_found(s: Seq<char>, sep: Seq<char>, from: int, at: int)
    requires
        0 <= from <= at,
        at + sep.len() <= s.len(),
        chars::stands_at(s, sep, at),
        forall|j: int| from <= j < at ==> !#[trigger] chars::stands_at(s, sep, j),
    ensures
        chars::find_from(s, sep, from) == Some(at),
    decreases at - from,
{
    if from < at {
        assert(!chars::stands_at(s, sep, from));
        lemma_found(s, sep, from + 1, at);
    }
}

/// A separator that stands nowhere is not found.
pub(crate) proof fn lemma_not_found(s: Seq<char>, sep: Seq<char>, from: int)
    requires
        0 <= from,
        forall|j: int| from <= j ==> !#[trigger] chars::stands_at(s, sep, j),
    ensures
        chars::find_from(s, sep, from) is None,
    decreases s.len() - from + 1,
{
    if from + sep.len() <= s.len() {
        assert(!chars::stands_at(s, sep, from));
        lemma_not_found(s, sep, from + 1);
    }
}

/// Text without blanks around it has none at its end.
proof fn lemma_trimmed(s: Seq<char>)
    requires
        chars::trimmed(s) == s,
        s.len() > 0,
    ensures
        !chars::is_blank(s.last()),
{
    let t = chars::trimmed_start(s);
    lemma_start_shorter(s);
    lemma_end_shorter(t);
    assert(t.len() == s.len());
    if chars::is_blank(s[0]) {
        lemma_start_shorter(s.drop_first());
    }
    assert(t == s);
    if chars::is_blank(s.last()) {
        lemma_end_shorter(s.drop_last());
    }
}

/// Taking blanks away makes no text longer.
proof fn lemma_start_shorter(s: Seq<char>)
    ensures
        chars::trimmed_start(s).len() <= s.len(),
    decreases s.len(),
{
    if s.len() > 0 && chars::is_blank(s[0]) {
        lemma_start_shorter(s.drop_first());
    }
}

/// Taking blanks away makes no text longer.
proof fn lemma_end_shorter(s: Seq<char>)
    ensures
        chars::trimmed_end(s).len() <= s.len(),
    decreases s.len(),
{
    if s.len() > 0 && chars::is_blank(s.last()) {
        lemma_end_shorter(s.drop_last());
    }
}

/// The line that a replay writes of a client is read as that client and that address.
/// The text of an address has no comma, and no blanks around it.
pub proof fn law_entry_read_back(id: ClientId, addr: Seq<char>)
    requires
        !addr.contains(','),
        chars::trimmed(addr) == addr,
    ensures
        ({
            let line = entry_text(id, addr);
            let (left, right) = chars::two_parts(chars::trimmed(line), ","@);
            &&& addr_map::says_something(line)
            &&& chars::number(chars::trimmed(left), u32::MAX as nat) == Some(id as nat)
            &&& right == Some(addr)
        }),
{
    let d = text::decimal(id as nat);
    let line = entry_text(id, addr);
    let t = d + seq![','] + addr;
    let sep = ","@;
    reveal_strlit(",");
    assert(sep =~= seq![',']);
    lemma_decimal(id as nat);
    assert(chars::is_digit(d[0]));
    assert(!chars::is_blank(line[0]) && !chars::is_blank(t[0]));
    assert(chars::trimmed_start(line) == line);
    assert(line.drop_last() =~= t);
    assert(line.last() == '\n');
    if addr.len() > 0 {
        lemma_trimmed(addr);
        assert(t.last() == addr.last());
    } else {
        assert(t.last() == ',');
    }
    assert(chars::trimmed_end(t) == t);
    assert(chars::trimmed(line) == t);
    assert(t[0] == d[0]);
    assert(t.subrange(d.len() as int, d.len() as int + 1) =~= sep);
    assert forall|j: int| 0 <= j < d.len() implies !#[trigger] chars::stands_at(t, sep, j) by {
        assert(t[j] == d[j]);
        assert(chars::is_digit(d[j]));
        if chars::stands_at(t, sep, j) {
            assert(t.subrange(j, j + 1)[0] == sep[0]);
        }
    }
    lemma_found(t, sep, 0, d.len() as int);
    let rest = t.skip(d.len() as int + 1);
    assert(rest =~= addr);
    assert forall|j: int| 0 <= j implies !#[trigger] chars::stands_at(addr, sep, j) by {
        if chars::stands_at(addr, sep, j) {
            assert(addr.subrange(j, j + 1)[0] == sep[0]);
            assert(addr[j] == ',');
        }
    }
    lemma_not_found(addr, sep, 0);
    assert(t.take(d.len() as int) =~= d);
    assert(chars::is_digit(d.last()));
    assert(chars::trimmed(d) == d);
}

/// A line of blanks says nothing, nor does one that starts with a number sign, behind blanks or
/// not; any other does.
pub proof fn law_says_something(front: Seq<char>, s: Seq<char>, back: Seq<char>)
    requires
        text_laws::all_blank(front),
        text_laws::all_blank(back),
        s.len() > 0,
        !chars::is_blank(s[0]),
        !chars::is_blank(s.last()),
    ensures
        !addr_map::says_something(front),
        addr_map::says_something(front + s + back) <==> s[0] != '#',
{
    text_laws::law_all_trimmed(front);
    text_laws::law_trimmed(front, s, back);
}

} // verus!
