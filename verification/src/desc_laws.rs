//! What holds of descriptions of captures.
use vstd::prelude::*;

use crate::capture_desc;
use crate::capture_desc::{DescErrorView, DescView};
use crate::compare::addr_map_laws;
use crate::utils::chars;
use crate::utils::text;

verus! {

/// The longest unit, a year, in nanoseconds.
pub open spec fn year() -> nat {
    31_557_600_000_000_000
}

/// Ten to the given power.
spec fn ten(k: nat) -> nat
    decreases k,
{
    if k == 0 {
        1
    } else {
        10 * ten((k - 1) as nat)
    }
}

/// A text that is too short to say so much is read.
proof fn lemma_readable(s: Seq<char>, n: nat, fraction: Option<(nat, nat)>, total: nat)
    requires
        (total + (n + 1) * year()) * ten(s.len()) < 18_446_744_073_709_551_616_000_000_000,
        fraction matches Some((above, below)) ==> above < below,
    ensures
        capture_desc::readable(s, n, fraction, total),
    decreases s.len(),
{
    if s.len() > 0 {
        let rest = s.drop_first();
        let t = ten(rest.len());
        let held = total + (n + 1) * year();
        assert(ten(s.len()) == 10 * t);
        let digit = (s[0] as nat - '0' as nat) as nat;
        if chars::is_digit(s[0]) {
            match fraction {
                None => {
                    let m = n * 10 + digit;
                    assert((total + (m + 1) * 31_557_600_000_000_000) * t <= (total + (n + 1)
                        * 31_557_600_000_000_000) * (10 * t)) by (nonlinear_arith)
                        requires
                            m == n * 10 + digit,
                            digit <= 9,
                            total >= 0,
                            n >= 0,
                            t >= 0,
                    ;
                    lemma_readable(rest, m, None, total);
                },
                Some((above, below)) => {
                    assert(held * t <= held * (10 * t)) by (nonlinear_arith)
                        requires
                            held >= 0,
                            t >= 0,
                    ;
                    lemma_readable(rest, n, Some((above * 10 + digit, below * 10)), total);
                },
            }
        } else if chars::is_blank(s[0]) || s[0] == '.' {
            assert(held * t <= held * (10 * t)) by (nonlinear_arith)
                requires
                    held >= 0,
                    t >= 0,
            ;
            if chars::is_blank(s[0]) {
                lemma_readable(rest, n, fraction, total);
            } else {
                lemma_readable(rest, n, Some((0, 1)), total);
            }
        } else {
            let unit = capture_desc::unit_nanos(s);
            let whole = n * unit;
            let part = match fraction {
                Some((above, below)) => above * unit / below,
                None => 0,
            };
            assert(whole <= n * 31_557_600_000_000_000) by (nonlinear_arith)
                requires
                    whole == n * unit,
                    unit <= 31_557_600_000_000_000,
                    n >= 0,
            ;
            assert(part <= 31_557_600_000_000_000) by {
                if let Some((above, below)) = fraction {
                    assert(above * unit / below <= unit) by (nonlinear_arith)
                        requires
                            above < below,
                            unit >= 0,
                    ;
                }
            }
            assert((n + 1) * 31_557_600_000_000_000 == n * 31_557_600_000_000_000
                + 31_557_600_000_000_000) by (nonlinear_arith);
            let next = total + whole + part;
            assert(next <= held);
            lemma_ten(rest.len());
            assert(held < 18_446_744_073_709_551_616_000_000_000) by (nonlinear_arith)
                requires
                    held * (10 * t) < 18_446_744_073_709_551_616_000_000_000,
                    t >= 1,
                    held >= 0,
            ;
            assert((next + (0 + 1) * 31_557_600_000_000_000) * t <= held * (10 * t))
                by (nonlinear_arith)
                requires
                    next <= held,
                    held >= 31_557_600_000_000_000,
                    t >= 0,
                    next >= 0,
            ;
            lemma_readable(rest, 0, None, next);
        }
    }
}

/// Powers of ten.
proof fn lemma_ten(k: nat)
    ensures
        ten(k) >= 1,
    decreases k,
{
    if k > 0 {
        lemma_ten((k - 1) as nat);
    }
}

/// A duration of up to eleven characters is what it is taken for: its microseconds are those
/// that it is read as, less what does not fit in 64 bits, or it is refused with the cause.
pub proof fn law_short_durations(s: Seq<char>)
    requires
        s.len() <= 11,
    ensures
        match capture_desc::duration_of(s) {
            Ok(n) => capture_desc::micros_of(s) == Ok::<u64, DescErrorView>(
                (n % 0x1_0000_0000_0000_0000) as u64,
            ),
            Err(e) => capture_desc::micros_of(s) == Err::<u64, DescErrorView>(
                DescErrorView::InvalidDuration(e),
            ),
        },
{
    reveal_with_fuel(ten, 12);
    assert(ten(11) == 100_000_000_000);
    lemma_ten_rises(s.len(), 11);
    assert(31_557_600_000_000_000 * ten(s.len()) <= 31_557_600_000_000_000 * 100_000_000_000nat)
        by (nonlinear_arith)
        requires
            ten(s.len()) <= 100_000_000_000,
    ;
    lemma_readable(s, 0, None, 0);
}

/// Powers of ten rise.
proof fn lemma_ten_rises(a: nat, b: nat)
    requires
        a <= b,
    ensures
        ten(a) <= ten(b),
    decreases b,
{
    if a < b {
        lemma_ten_rises(a, (b - 1) as nat);
    }
}

/// A description that gives everything: a path, behind `:` a port, behind `@` where to start,
/// and behind `+` for how long. Both times are taken for what they are read as, and the first
/// that cannot be read is the error, the duration before the start.
pub proof fn law_full_description(
    path: Seq<char>,
    port: u16,
    start: Seq<char>,
    duration: Seq<char>,
)
    requires
        path.len() > 0,
        start.len() > 0,
        !start.contains('/'),
        !start.contains('\\'),
        !start.contains('@'),
        !duration.contains('/'),
        !duration.contains('\\'),
        !duration.contains('+'),
    ensures
        ({
            let s = path + seq![':'] + text::decimal(port as nat) + seq!['@'] + start + seq!['+']
                + duration;
            match capture_desc::micros_of(duration) {
                Err(e) => capture_desc::described(s) == Err::<DescView, DescErrorView>(e),
                Ok(d) => match capture_desc::micros_of(start) {
                    Err(e) => capture_desc::described(s) == Err::<DescView, DescErrorView>(e),
                    Ok(t) => capture_desc::described(s) == Ok::<DescView, DescErrorView>(
                        DescView { path, port, ts_offset: t, max_duration: d },
                    ),
                },
            }
        }),
{
    let digits = text::decimal(port as nat);
    let s = path + seq![':'] + digits + seq!['@'] + start + seq!['+'] + duration;
    let tail = seq![':'] + digits + seq!['@'] + start + seq!['+'] + duration;
    addr_map_laws::lemma_decimal(port as nat);
    assert(s =~= path + tail);
    assert forall|c: char| c == '/' || c == '\\' implies !tail.contains(c) by {
        if tail.contains(c) {
            let i = choose|i: int| 0 <= i < tail.len() && tail[i] == c;
            let (a, b) = (1 + digits.len(), 2 + digits.len() + start.len());
            if 1 <= i < a {
                assert(tail[i] == digits[i - 1]);
                assert(chars::is_digit(digits[i - 1]));
            } else if a < i < b {
                assert(tail[i] == start[i - a - 1]);
                assert(start.contains(c));
            } else if b < i {
                assert(tail[i] == duration[i - b - 1]);
                assert(duration.contains(c));
            }
        }
    }
    capture_desc::lemma_last_skips(path, tail, '/', '\\');
    capture_desc::lemma_last_place(path, '/', '\\');
    let at = match capture_desc::last_place(path, '/', '\\') {
        Some(i) => i + 1,
        None => 0,
    };
    let name = path.skip(at);
    assert(path.skip(0) =~= path && s.skip(0) =~= s && s.take(0) =~= Seq::empty());
    assert(s.take(at) =~= path.take(at));
    let head = name + seq![':'] + digits;
    assert(s.skip(at) =~= (head + seq!['@'] + start) + seq!['+'] + duration);
    capture_desc::lemma_last_in_front(head + seq!['@'] + start, '+', duration);
    capture_desc::lemma_last_in_front(head, '@', start);
    assert(!digits.contains(':')) by {
        if digits.contains(':') {
            let i = choose|i: int| 0 <= i < digits.len() && digits[i] == ':';
            assert(chars::is_digit(digits[i]));
        }
    }
    capture_desc::lemma_last_in_front(name, ':', digits);
    assert(path.take(at) + name =~= path);
    assert(digits[0] != '+') by {
        assert(chars::is_digit(digits[0]));
    }
}

/// Without a port it is 5432, without a start it is the first moment, and without a duration
/// there is no end. A part that is no number up to 65535 is no port, and without a path there
/// is no capture.
pub proof fn law_parts_left_out(s: Seq<char>)
    ensures
        ({
            let p = capture_desc::parts(s);
            let path = p.prefix + p.name;
            &&& p.duration is None && p.offset is None && p.port is None && path.len() > 0
                ==> capture_desc::described(s) == Ok::<DescView, DescErrorView>(
                DescView {
                    path,
                    port: 5432,
                    ts_offset: 0,
                    max_duration: 0xFFFF_FFFF_FFFF_FFFF,
                },
            )
            &&& p.duration is None && p.offset is None && p.port is None && path.len() == 0
                ==> capture_desc::described(s) == Err::<DescView, DescErrorView>(
                DescErrorView::EmptyPath,
            )
            &&& p.duration is None && p.offset is None && p.port is Some && chars::number(
                p.port->0,
                65535,
            ) is None ==> capture_desc::described(s) == Err::<DescView, DescErrorView>(
                DescErrorView::InvalidPort(capture_desc::port_cause(p.port->0)),
            )
        }),
{
}

/// Longer units are made of shorter ones: a minute of sixty seconds, an hour of sixty minutes,
/// a day of 24 hours, a week of seven days, a month of 3044 hundredths of a day, and four years
/// of 1461 days.
pub proof fn law_units(rest: Seq<char>)
    ensures
        ({
            let second = capture_desc::unit_nanos(seq!['s'] + rest);
            let minute = capture_desc::unit_nanos(seq!['m', 'i', 'n'] + rest);
            let hour = capture_desc::unit_nanos(seq!['h'] + rest);
            let day = capture_desc::unit_nanos(seq!['d'] + rest);
            let month = capture_desc::unit_nanos(seq!['m', 'o'] + rest);
            &&& capture_desc::unit_nanos(seq!['n'] + rest) == 1
            &&& capture_desc::unit_nanos(seq!['u'] + rest) == 1_000
            &&& capture_desc::unit_nanos(seq!['m', 's'] + rest) == 1_000_000
            &&& capture_desc::unit_nanos(seq!['m', 'i', 'l'] + rest) == 1_000_000
            &&& second == 1_000_000_000
            &&& minute == 60 * second
            &&& capture_desc::unit_nanos(seq!['m']) == minute
            &&& hour == 60 * minute
            &&& day == 24 * hour
            &&& capture_desc::unit_nanos(seq!['w'] + rest) == 7 * day
            &&& 100 * month == 3_044 * day
            &&& capture_desc::unit_nanos(seq!['M'] + rest) == month
            &&& 4 * capture_desc::unit_nanos(seq!['y'] + rest) == 1_461 * day
        }),
{
}

/// A number in front of a text is read before it.
proof fn lemma_number_read(n: nat, rest: Seq<char>, total: nat)
    requires
        n <= u64::MAX,
    ensures
        capture_desc::readable(text::decimal(n) + rest, 0, None, total) == capture_desc::readable(
            rest,
            n,
            None,
            total,
        ),
    decreases n,
{
    let s = text::decimal(n) + rest;
    if n < 10 {
        assert(s.drop_first() =~= rest);
        assert(chars::is_digit(s[0]));
    } else {
        let c = text::digit_char((n % 10) as int);
        let more = seq![c] + rest;
        assert(s =~= text::decimal(n / 10) + more);
        lemma_number_read(n / 10, more, total);
        assert(more.drop_first() =~= rest);
        assert(chars::is_digit(c));
    }
}

/// Seconds, and so many of a unit below a second.
proof fn lemma_carried(a: u64, b: u64, x: char, unit: nat)
    requires
        x == 'n' && unit == 1 || x == 'u' && unit == 1_000 || x == 'm' && unit == 1_000_000,
    ensures
        capture_desc::is_modest(
            text::decimal(a as nat) + seq!['s'] + text::decimal(b as nat) + seq![x, 's'],
        ) <==> !(b * unit <= 1_000_000_000 && a * 1_000_000_000 + b * unit
            == 18_446_744_073_709_551_616_000_000_000),
{
    let end = seq![x, 's'];
    let low = text::decimal(b as nat) + end;
    let mid = seq!['s'] + low;
    assert(text::decimal(a as nat) + seq!['s'] + text::decimal(b as nat) + end =~= text::decimal(
        a as nat,
    ) + mid);
    lemma_number_read(a as nat, mid, 0);
    assert(mid.drop_first() =~= low);
    let total = (a * 1_000_000_000) as nat;
    assert(capture_desc::readable(mid, a as nat, None, 0) == capture_desc::readable(
        low,
        0,
        None,
        total,
    ));
    lemma_number_read(b as nat, end, total);
    assert(end.drop_first() =~= seq!['s']);
    assert(seq!['s'].drop_first() =~= Seq::<char>::empty());
    assert(capture_desc::unit_nanos(end) == unit);
    let whole = b as nat * unit;
    assert(whole == b * unit);
    assert(capture_desc::readable(seq!['s'].drop_first(), 0, None, total + whole + 0));
    assert(total + whole < capture_desc::TOO_LONG ==> capture_desc::readable(
        seq!['s'],
        0,
        None,
        total + whole,
    ));
}

/// Seconds, and up to one second more in a smaller unit, are too long exactly where they make
/// the first duration that does not fit.
pub proof fn law_carried(a: u64, b: u64)
    ensures
        capture_desc::is_modest(
            text::decimal(a as nat) + seq!['s'] + text::decimal(b as nat) + seq!['n', 's'],
        ) <==> !(b <= 1_000_000_000 && a * 1_000_000_000 + b
            == 18_446_744_073_709_551_616_000_000_000),
        capture_desc::is_modest(
            text::decimal(a as nat) + seq!['s'] + text::decimal(b as nat) + seq!['u', 's'],
        ) <==> !(b <= 1_000_000 && a * 1_000_000_000 + b * 1_000
            == 18_446_744_073_709_551_616_000_000_000),
        capture_desc::is_modest(
            text::decimal(a as nat) + seq!['s'] + text::decimal(b as nat) + seq!['m', 's'],
        ) <==> !(b <= 1_000 && a * 1_000_000_000 + b * 1_000_000
            == 18_446_744_073_709_551_616_000_000_000),
{
    lemma_carried(a, b, 'n', 1);
    lemma_carried(a, b, 'u', 1_000);
    lemma_carried(a, b, 'm', 1_000_000);
}

} // verus!
