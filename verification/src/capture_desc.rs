//! Descriptions of captures: a path, and what to read of it.
use std::time::Duration;

use vstd::prelude::*;
use vstd::string::*;

use crate::utils::chars;
use crate::utils::chars::{blank, parse_number};
use crate::utils::text;
use crate::utils::text::{copied, push_decimal};

verus! {

/// The port that is read where none is given.
pub const DEFAULT_PORT: u16 = 5432;

/// A capture: where it lies, the port whose traffic is read, and the times to read,
/// in microseconds.
#[derive(Debug)]
pub struct CaptureDesc {
    pub path: String,
    pub port: u16,
    pub ts_offset: u64,
    pub max_duration: u64,
}

/// A capture.
#[verifier::ext_equal]
pub struct DescView {
    pub path: Seq<char>,
    pub port: u16,
    pub ts_offset: u64,
    pub max_duration: u64,
}

impl View for CaptureDesc {
    type V = DescView;

    open spec fn view(&self) -> DescView {
        DescView {
            path: self.path@,
            port: self.port,
            ts_offset: self.ts_offset,
            max_duration: self.max_duration,
        }
    }
}

/// What is wrong with a description.
#[derive(Debug)]
pub enum DescError {
    /// A duration is none, for the given reason.
    InvalidDuration(String),
    /// A duration cannot be read, because it lies just past the longest one.
    DurationTooLong,
    /// The port is no number of a port, for the given reason.
    InvalidPort(String),
    /// There is no path.
    EmptyPath,
}

/// What is wrong with a description.
#[verifier::ext_equal]
pub enum DescErrorView {
    InvalidDuration(Seq<char>),
    DurationTooLong,
    InvalidPort(Seq<char>),
    EmptyPath,
}

impl View for DescError {
    type V = DescErrorView;

    open spec fn view(&self) -> DescErrorView {
        match *self {
            DescError::InvalidDuration(s) => DescErrorView::InvalidDuration(s@),
            DescError::DurationTooLong => DescErrorView::DurationTooLong,
            DescError::InvalidPort(s) => DescErrorView::InvalidPort(s@),
            DescError::EmptyPath => DescErrorView::EmptyPath,
        }
    }
}

impl DescErrorView {
    /// The error in words.
    pub open spec fn text(self) -> Seq<char> {
        match self {
            DescErrorView::InvalidDuration(_) => "invalid duration"@,
            DescErrorView::DurationTooLong => "invalid duration"@,
            DescErrorView::InvalidPort(_) => "invalid port"@,
            DescErrorView::EmptyPath => "empty path in capture descriptor"@,
        }
    }
}

impl DescError {
    /// The error in words.
    pub fn to_text(&self) -> (r: &'static str)
        ensures
            r@ == self@.text(),
    {
        match self {
            DescError::InvalidDuration(_) => "invalid duration",
            DescError::DurationTooLong => "invalid duration",
            DescError::InvalidPort(_) => "invalid port",
            DescError::EmptyPath => "empty path in capture descriptor",
        }
    }
}

/// One nanosecond more than the longest `Duration` has.
pub const TOO_LONG: u128 = 18_446_744_073_709_551_616_000_000_000;

/// How many nanoseconds the unit that a text starts with has. One that is unknown
/// counts as a year.
pub open spec fn unit_nanos(s: Seq<char>) -> nat {
    let second = s.len() > 1;
    if s[0] == 'n' {
        1
    } else if s[0] == 'u' || s[0] == '\u{b5}' {
        1_000
    } else if s[0] == 'm' && second && (s[1] == 's' || s[1] == 'i' && s.len() > 2 && s[2] == 'l') {
        1_000_000
    } else if s[0] == 's' {
        1_000_000_000
    } else if s[0] == 'm' && !(second && s[1] == 'o') {
        60_000_000_000
    } else if s[0] == 'h' {
        3_600_000_000_000
    } else if s[0] == 'd' {
        86_400_000_000_000
    } else if s[0] == 'w' {
        604_800_000_000_000
    } else if s[0] == 'm' || s[0] == 'M' {
        2_630_016_000_000_000
    } else {
        31_557_600_000_000_000
    }
}

/// Whether nanoseconds carry a duration just past the longest `Duration`: `nanos`
/// more, which count as nanoseconds and not as seconds where `fine` says so.
pub open spec fn carries(total: nat, nanos: nat, fine: bool) -> bool {
    fine && nanos <= 1_000_000_000 && total + nanos == TOO_LONG
}

/// Whether a text can be read on to a total of nanoseconds, where the number `n` stands
/// in front of it, with the digits of a fraction behind a point, as numerator and
/// denominator: each number counts with the unit behind it, and what it adds, first the
/// whole part and then the fraction, does not carry the total just past the longest
/// `Duration`. What follows a total beyond that, or a number that does not fit in 64
/// bits, is not read.
pub open spec fn readable(s: Seq<char>, n: nat, fraction: Option<(nat, nat)>, total: nat) -> bool
    decreases s.len(),
{
    if s.len() == 0 {
        true
    } else {
        let rest = s.drop_first();
        let digit = (s[0] as nat - '0' as nat) as nat;
        if chars::is_digit(s[0]) {
            match fraction {
                None => n * 10 + digit > u64::MAX || readable(rest, n * 10 + digit, None, total),
                Some((above, below)) => below * 10 > u64::MAX || readable(
                    rest,
                    n,
                    Some((above * 10 + digit, below * 10)),
                    total,
                ),
            }
        } else if chars::is_blank(s[0]) {
            readable(rest, n, fraction, total)
        } else if s[0] == '.' {
            readable(rest, n, Some((0, 1)), total)
        } else {
            let unit = unit_nanos(s);
            let whole = n * unit;
            let part = match fraction {
                Some((above, below)) => above * unit / below,
                None => 0,
            };
            &&& !carries(total, whole, unit < 1_000_000_000)
            &&& total + whole < TOO_LONG ==> {
                &&& !carries(total + whole, part, unit <= 60_000_000_000)
                &&& total + whole + part < TOO_LONG ==> readable(
                    rest,
                    0,
                    None,
                    total + whole + part,
                )
            }
        }
    }
}

/// Reading the text of a duration does not carry it just past the longest `Duration`.
pub open spec fn is_modest(s: Seq<char>) -> bool {
    readable(s, 0, None, 0)
}

/// How many nanoseconds the unit at a place of a text has.
fn unit_at(s: &str, i: usize) -> (r: u128)
    requires
        i < s@.len(),
    ensures
        r == unit_nanos(s@.skip(i as int)),
        1 <= r <= 31_557_600_000_000_000,
{
    let len: usize = s.unicode_len();
    let c = s.get_char(i);
    let second = if len - i > 1 {
        s.get_char(i + 1)
    } else {
        ' '
    };
    let third = if len - i > 2 {
        s.get_char(i + 2)
    } else {
        ' '
    };
    if c == 'n' {
        1
    } else if c == 'u' || c == '\u{b5}' {
        1_000
    } else if c == 'm' && (second == 's' || second == 'i' && third == 'l') {
        1_000_000
    } else if c == 's' {
        1_000_000_000
    } else if c == 'm' && second != 'o' {
        60_000_000_000
    } else if c == 'h' {
        3_600_000_000_000
    } else if c == 'd' {
        86_400_000_000_000
    } else if c == 'w' {
        604_800_000_000_000
    } else if c == 'm' || c == 'M' {
        2_630_016_000_000_000
    } else {
        31_557_600_000_000_000
    }
}

/// The fraction behind a point, if there is a point.
spec fn fraction_of(point: bool, above: u64, below: u64) -> Option<(nat, nat)> {
    if point {
        Some((above as nat, below as nat))
    } else {
        None
    }
}

/// A number of units, in nanoseconds: the whole part, and the fraction.
fn count_part(n: u64, point: bool, above: u64, below: u64, unit: u128) -> (r: (u128, u128))
    requires
        1 <= unit <= 31_557_600_000_000_000,
        below > 0,
    ensures
        r.0 == n * unit,
        r.1 == match fraction_of(point, above, below) {
            Some((above, below)) => above * unit as nat / below,
            None => 0,
        },
        r.0 <= 0x1_0000_0000_0000_0000 * 31_557_600_000_000_000,
        r.1 <= 0x1_0000_0000_0000_0000 * 31_557_600_000_000_000,
{
    assert(n * unit <= 0xFFFF_FFFF_FFFF_FFFF * 31_557_600_000_000_000) by (nonlinear_arith)
        requires
            n <= 0xFFFF_FFFF_FFFF_FFFF,
            1 <= unit <= 31_557_600_000_000_000,
    ;
    assert(above * unit <= 0xFFFF_FFFF_FFFF_FFFF * 31_557_600_000_000_000) by (nonlinear_arith)
        requires
            above <= 0xFFFF_FFFF_FFFF_FFFF,
            1 <= unit <= 31_557_600_000_000_000,
    ;
    let whole: u128 = n as u128 * unit;
    if !point {
        return (whole, 0);
    }
    let scaled: u128 = above as u128 * unit;
    assert(scaled / (below as u128) <= scaled) by (nonlinear_arith)
        requires
            below > 0,
    ;
    (whole, scaled / below as u128)
}

/// Whether reading the text of a duration does not carry it just past the longest
/// `Duration`.
pub fn modest(s: &str) -> (r: bool)
    ensures
        r == is_modest(s@),
{
    let len: usize = s.unicode_len();
    let mut total: u128 = 0;
    let mut n: u64 = 0;
    let mut point: bool = false;
    let mut above: u64 = 0;
    let mut below: u64 = 1;
    let mut i: usize = 0;
    assert(s@.skip(0) =~= s@);
    while i < len
        invariant
            i <= len == s@.len(),
            total < TOO_LONG,
            below > 0,
            point ==> above < below,
            is_modest(s@) == readable(
                s@.skip(i as int),
                n as nat,
                fraction_of(point, above, below),
                total as nat,
            ),
        decreases len - i,
    {
        let c = s.get_char(i);
        proof {
            let rest = s@.skip(i as int);
            assert(rest.drop_first() =~= s@.skip(i + 1));
            assert(rest[0] == c);
        }
        if '0' <= c && c <= '9' {
            let d: u64 = c as u64 - '0' as u64;
            if point {
                if below > u64::MAX / 10 {
                    return true;
                }
                above = above * 10 + d;
                below = below * 10;
            } else {
                if n as u128 * 10 + d as u128 > u64::MAX as u128 {
                    return true;
                }
                n = n * 10 + d;
            }
        } else if c == '.' {
            point = true;
            above = 0;
            below = 1;
        } else if !blank(c) {
            let unit: u128 = unit_at(s, i);
            let (whole, part) = count_part(n, point, above, below, unit);
            if unit < 1_000_000_000 && whole <= 1_000_000_000 && total + whole == TOO_LONG {
                return false;
            }
            total = total + whole;
            if total >= TOO_LONG {
                return true;
            }
            if unit <= 60_000_000_000 && part <= 1_000_000_000 && total + part == TOO_LONG {
                return false;
            }
            total = total + part;
            if total >= TOO_LONG {
                return true;
            }
            n = 0;
            point = false;
        }
        i += 1;
    }
    proof {
        assert(s@.skip(i as int).len() == 0);
    }
    true
}

/// What `humantime::parse_duration` makes of a text, in whole microseconds, or why it
/// is no duration.
pub uninterp spec fn duration_of(s: Seq<char>) -> Result<u128, Seq<char>>;

/// What `humantime::format_duration` prints for microseconds.
pub uninterp spec fn duration_text(micros: u64) -> Seq<char>;

/// Calls `humantime::parse_duration`. Believed: that the result depends on the text
/// alone. The function panics where nanoseconds carry a duration just past the longest
/// `Duration`, so the text has to be one on which they do not. Nothing more is said of
/// which texts are durations.
#[verifier::external_body]
fn parse_duration(s: &str) -> (r: Result<u128, String>)
    requires
        is_modest(s@),
    ensures
        match r {
            Ok(n) => duration_of(s@) == Ok::<u128, Seq<char>>(n),
            Err(e) => duration_of(s@) == Err::<u128, Seq<char>>(e@),
        },
{
    match humantime::parse_duration(s) {
        Ok(d) => Ok(d.as_micros()),
        Err(e) => Err(e.to_string()),
    }
}

/// Calls `humantime::format_duration`. Believed: that the text depends on the number
/// alone.
#[verifier::external_body]
fn format_duration(micros: u64) -> (r: String)
    ensures
        r@ == duration_text(micros),
{
    humantime::format_duration(Duration::from_micros(micros)).to_string()
}

/// A number of microseconds, less what does not fit in 64 bits.
pub open spec fn low_micros(micros: u128) -> u64 {
    (micros % 0x1_0000_0000_0000_0000) as u64
}

/// The microseconds of a duration.
pub open spec fn micros_of(s: Seq<char>) -> Result<u64, DescErrorView> {
    if !is_modest(s) {
        Err(DescErrorView::DurationTooLong)
    } else {
        match duration_of(s) {
            Ok(n) => Ok(low_micros(n)),
            Err(e) => Err(DescErrorView::InvalidDuration(e)),
        }
    }
}

/// Reads the microseconds of a duration.
pub fn parse_micros(s: &str) -> (r: Result<u64, DescError>)
    ensures
        match r {
            Ok(n) => micros_of(s@) == Ok::<u64, DescErrorView>(n),
            Err(e) => micros_of(s@) == Err::<u64, DescErrorView>(e@),
        },
{
    if !modest(s) {
        return Err(DescError::DurationTooLong);
    }
    match parse_duration(s) {
        Ok(n) => Ok((n % 0x1_0000_0000_0000_0000) as u64),
        Err(e) => Err(DescError::InvalidDuration(e)),
    }
}

/// The last place of one of two characters.
pub open spec fn last_place(s: Seq<char>, a: char, b: char) -> Option<int>
    decreases s.len(),
{
    if s.len() == 0 {
        None
    } else if s.last() == a || s.last() == b {
        Some(s.len() - 1)
    } else {
        last_place(s.drop_last(), a, b)
    }
}

/// The last place of one of two characters.
fn find_last(s: &str, a: char, b: char) -> (r: Option<usize>)
    ensures
        match last_place(s@, a, b) {
            Some(i) => r matches Some(k) && k == i && 0 <= i < s@.len(),
            None => r is None,
        },
{
    let mut i: usize = s.unicode_len();
    assert(s@.take(i as int) =~= s@);
    while i > 0
        invariant
            i <= s@.len(),
            last_place(s@, a, b) == last_place(s@.take(i as int), a, b),
        decreases i,
    {
        let c = s.get_char(i - 1);
        if c == a || c == b {
            return Some(i - 1);
        }
        assert(s@.take(i as int).drop_last() =~= s@.take(i - 1));
        i -= 1;
    }
    None
}

/// A text without what follows the last place of a character, and what follows it.
pub open spec fn cut_last(s: Seq<char>, c: char) -> (Seq<char>, Option<Seq<char>>) {
    match last_place(s, c, c) {
        Some(i) => (s.take(i), Some(s.skip(i + 1))),
        None => (s, None),
    }
}

/// The view of a text, if there is one.
pub open spec fn text_view(s: Option<&str>) -> Option<Seq<char>> {
    match s {
        Some(t) => Some(t@),
        None => None,
    }
}

/// A text without what follows the last place of a character, and what follows it.
fn rsplit_once(s: &str, c: char) -> (r: (&str, Option<&str>))
    ensures
        (r.0@, text_view(r.1)) == cut_last(s@, c),
{
    match find_last(s, c, c) {
        Some(i) => {
            let len: usize = s.unicode_len();
            let head = s.substring_char(0, i);
            let tail = s.substring_char(i + 1, len);
            proof {
                assert(head@ =~= s@.take(i as int));
                assert(tail@ =~= s@.skip(i + 1));
            }
            (head, Some(tail))
        },
        None => (s, None),
    }
}

/// The parts of a description.
pub struct DescParts<'a> {
    pub prefix: &'a str,
    pub name: &'a str,
    pub port: Option<&'a str>,
    pub offset: Option<&'a str>,
    pub duration: Option<&'a str>,
}

/// The parts of a description.
#[verifier::ext_equal]
pub struct PartsView {
    pub prefix: Seq<char>,
    pub name: Seq<char>,
    pub port: Option<Seq<char>>,
    pub offset: Option<Seq<char>>,
    pub duration: Option<Seq<char>>,
}

impl<'a> View for DescParts<'a> {
    type V = PartsView;

    open spec fn view(&self) -> PartsView {
        PartsView {
            prefix: self.prefix@,
            name: self.name@,
            port: text_view(self.port),
            offset: text_view(self.offset),
            duration: text_view(self.duration),
        }
    }
}

/// The parts of a description: what stands up to the last slash, and behind it the
/// name, the port after the last `:`, the offset after the last `@`, and the duration
/// after the last `+`, from the end on.
pub open spec fn parts(s: Seq<char>) -> PartsView {
    let (prefix, rest) = match last_place(s, '/', '\\') {
        Some(i) => (s.take(i + 1), s.skip(i + 1)),
        None => (Seq::empty(), s),
    };
    let (rest1, duration) = cut_last(rest, '+');
    let (rest2, offset) = cut_last(rest1, '@');
    let (name, port) = cut_last(rest2, ':');
    PartsView { prefix, name, port, offset, duration }
}

/// Takes a description apart.
pub fn split_desc(s: &str) -> (r: DescParts<'_>)
    ensures
        r@ == parts(s@),
{
    let len: usize = s.unicode_len();
    let at: usize = match find_last(s, '/', '\\') {
        Some(i) => i + 1,
        None => 0,
    };
    let prefix = s.substring_char(0, at);
    let rest = s.substring_char(at, len);
    proof {
        assert(prefix@ =~= s@.take(at as int));
        assert(rest@ =~= s@.skip(at as int));
        assert(s@.skip(0) =~= s@);
        assert(s@.take(0) =~= Seq::empty());
    }
    let (rest1, duration) = rsplit_once(rest, '+');
    let (rest2, offset) = rsplit_once(rest1, '@');
    let (name, port) = rsplit_once(rest2, ':');
    DescParts { prefix, name, port, offset, duration }
}

/// What `u16::from_str` says of a text that is no number of a port.
pub uninterp spec fn port_cause(s: Seq<char>) -> Seq<char>;

/// Calls `u16::from_str` for the text of its error. Believed: that it depends on the
/// text alone. It is empty where there is no error. The words of the error are not
/// said.
#[verifier::external_body]
fn port_error(s: &str) -> (r: String)
    ensures
        r@ == port_cause(s@),
{
    match s.parse::<u16>() {
        Ok(_) => String::new(),
        Err(e) => e.to_string(),
    }
}

/// The port that a part gives, or the default one.
pub open spec fn port_of(s: Option<Seq<char>>) -> Result<u16, DescErrorView> {
    match s {
        None => Ok(DEFAULT_PORT),
        Some(t) => match chars::number(t, u16::MAX as nat) {
            Some(n) => Ok(n as u16),
            None => Err(DescErrorView::InvalidPort(port_cause(t))),
        },
    }
}

/// Reads the port that a part gives.
pub fn parse_port(s: Option<&str>) -> (r: Result<u16, DescError>)
    ensures
        match r {
            Ok(n) => port_of(text_view(s)) == Ok::<u16, DescErrorView>(n),
            Err(e) => port_of(text_view(s)) == Err::<u16, DescErrorView>(e@),
        },
{
    match s {
        Some(t) => match parse_number(t, u16::MAX as u64) {
            Some(n) => Ok(n as u16),
            None => Err(DescError::InvalidPort(port_error(t))),
        },
        None => Ok(DEFAULT_PORT),
    }
}

/// The capture that parts describe, with its port and the microseconds of its times.
pub open spec fn joined(
    p: PartsView,
    port: u16,
    ts_offset: Option<u64>,
    max_duration: Option<u64>,
) -> Result<DescView, DescErrorView> {
    if (p.prefix + p.name).len() == 0 {
        Err(DescErrorView::EmptyPath)
    } else {
        Ok(
            DescView {
                path: p.prefix + p.name,
                port,
                ts_offset: match ts_offset {
                    Some(t) => t,
                    None => 0,
                },
                max_duration: match max_duration {
                    Some(t) => t,
                    None => u64::MAX,
                },
            },
        )
    }
}

/// The capture that parts describe, with its port and the microseconds of its times.
pub fn join_desc(
    p: &DescParts<'_>,
    port: u16,
    ts_offset: Option<u64>,
    max_duration: Option<u64>,
) -> (r: Result<CaptureDesc, DescError>)
    ensures
        match r {
            Ok(d) => joined(p@, port, ts_offset, max_duration) == Ok::<DescView, DescErrorView>(d@),
            Err(e) => joined(p@, port, ts_offset, max_duration) == Err::<DescView, DescErrorView>(
                e@,
            ),
        },
{
    let mut path = copied(p.prefix);
    path.append(p.name);
    if path.as_str().unicode_len() == 0 {
        return Err(DescError::EmptyPath);
    }
    Ok(
        CaptureDesc {
            path,
            port,
            ts_offset: match ts_offset {
                Some(t) => t,
                None => 0,
            },
            max_duration: match max_duration {
                Some(t) => t,
                None => u64::MAX,
            },
        },
    )
}

/// The microseconds of a duration, if there is one.
pub open spec fn micros_if(s: Option<Seq<char>>) -> Result<Option<u64>, DescErrorView> {
    match s {
        None => Ok(None),
        Some(t) => match micros_of(t) {
            Ok(n) => Ok(Some(n)),
            Err(e) => Err(e),
        },
    }
}

/// The text of a time, if there is one: it may be left out behind its mark.
pub open spec fn given(s: Option<Seq<char>>) -> Option<Seq<char>> {
    match s {
        Some(t) => if t.len() == 0 {
            None
        } else {
            Some(t)
        },
        None => None,
    }
}

/// The capture that a text describes, or the first of the errors: in the duration, in
/// the offset, in the port, or in the path. The offset may be left out behind its `@`.
pub open spec fn described(s: Seq<char>) -> Result<DescView, DescErrorView> {
    let p = parts(s);
    match micros_if(p.duration) {
        Err(e) => Err(e),
        Ok(max_duration) => match micros_if(given(p.offset)) {
            Err(e) => Err(e),
            Ok(ts_offset) => match port_of(p.port) {
                Err(e) => Err(e),
                Ok(port) => joined(p, port, ts_offset, max_duration),
            },
        },
    }
}

impl CaptureDesc {
    /// Reads a description.
    pub fn from_str(s: &str) -> (r: Result<CaptureDesc, DescError>)
        ensures
            match r {
                Ok(d) => described(s@) == Ok::<DescView, DescErrorView>(d@),
                Err(e) => described(s@) == Err::<DescView, DescErrorView>(e@),
            },
    {
        let p = split_desc(s);
        let max_duration: Option<u64> = match p.duration {
            Some(t) => match parse_micros(t) {
                Ok(n) => Some(n),
                Err(e) => {
                    return Err(e);
                },
            },
            None => None,
        };
        let ts_offset: Option<u64> = match p.offset {
            Some(t) => if t.unicode_len() == 0 {
                None
            } else {
                match parse_micros(t) {
                    Ok(n) => Some(n),
                    Err(e) => {
                        return Err(e);
                    },
                }
            },
            None => None,
        };
        let port: u16 = match parse_port(p.port) {
            Ok(n) => n,
            Err(e) => {
                return Err(e);
            },
        };
        join_desc(&p, port, ts_offset, max_duration)
    }

    /// The capture in words, with the texts of its times.
    pub open spec fn text(self, offset: Seq<char>, duration: Seq<char>) -> Seq<char> {
        self.path@ + (if self.port != DEFAULT_PORT {
            ":"@ + text::decimal(self.port as nat)
        } else {
            Seq::empty()
        }) + (if self.ts_offset != 0 {
            "(@"@ + offset + ")"@
        } else {
            Seq::empty()
        }) + (if self.max_duration != u64::MAX {
            "(+"@ + duration + ")"@
        } else {
            Seq::empty()
        })
    }

    /// The capture in words, with the texts of its times.
    pub fn with_times(&self, offset: &str, duration: &str) -> (r: String)
        ensures
            r@ == self.text(offset@, duration@),
    {
        let mut s = copied(self.path.as_str());
        if self.port != DEFAULT_PORT {
            s.append(":");
            push_decimal(&mut s, self.port as u64);
        }
        if self.ts_offset != 0 {
            s.append("(@");
            s.append(offset);
            s.append(")");
        }
        if self.max_duration != u64::MAX {
            s.append("(+");
            s.append(duration);
            s.append(")");
        }
        assert(s@ =~= self.text(offset@, duration@));
        s
    }

    /// The capture in words.
    pub fn to_text(&self) -> (r: String)
        ensures
            r@ == self.text(duration_text(self.ts_offset), duration_text(self.max_duration)),
    {
        let offset = format_duration(self.ts_offset);
        let duration = format_duration(self.max_duration);
        self.with_times(offset.as_str(), duration.as_str())
    }
}

/// A part of a description as it stands in it, behind its mark.
pub open spec fn marked(mark: char, part: Option<Seq<char>>) -> Seq<char> {
    match part {
        Some(t) => seq![mark] + t,
        None => Seq::empty(),
    }
}

/// Nothing of a text is lost between the two sides of a character.
proof fn lemma_cut_last(s: Seq<char>, c: char)
    ensures
        cut_last(s, c).0 + marked(c, cut_last(s, c).1) == s,
{
    lemma_last_place(s, c, c);
    assert(cut_last(s, c).0 + marked(c, cut_last(s, c).1) =~= s);
}

/// The last place of one of two characters holds it.
pub(crate) proof fn lemma_last_place(s: Seq<char>, a: char, b: char)
    ensures
        match last_place(s, a, b) {
            Some(i) => 0 <= i < s.len() && (s[i] == a || s[i] == b),
            None => forall|i: int| 0 <= i < s.len() ==> s[i] != a && s[i] != b,
        },
    decreases s.len(),
{
    if s.len() > 0 {
        lemma_last_place(s.drop_last(), a, b);
        if last_place(s, a, b) is None {
            assert forall|i: int| 0 <= i < s.len() implies s[i] != a && s[i] != b by {
                if i < s.len() - 1 {
                    assert(s.drop_last()[i] == s[i]);
                }
            }
        }
    }
}

/// The parts of a description, put together again with their marks, are the
/// description.
pub proof fn law_parts_joined(s: Seq<char>)
    ensures
        ({
            let p = parts(s);
            p.prefix + p.name + marked(':', p.port) + marked('@', p.offset) + marked(
                '+',
                p.duration,
            ) == s
        }),
{
    let p = parts(s);
    lemma_last_place(s, '/', '\\');
    let rest = match last_place(s, '/', '\\') {
        Some(i) => s.skip(i + 1),
        None => s,
    };
    let rest1 = cut_last(rest, '+').0;
    let rest2 = cut_last(rest1, '@').0;
    lemma_cut_last(rest, '+');
    lemma_cut_last(rest1, '@');
    lemma_cut_last(rest2, ':');
    assert(p.prefix + rest =~= s);
    assert(p.prefix + p.name + marked(':', p.port) + marked('@', p.offset) + marked(
        '+',
        p.duration,
    ) =~= p.prefix + (p.name + marked(':', p.port) + marked('@', p.offset) + marked(
        '+',
        p.duration,
    )));
}

/// A text without marks describes all of the capture at that path, at the default
/// port.
pub proof fn law_plain_path(s: Seq<char>)
    requires
        s.len() > 0,
        !s.contains(':'),
        !s.contains('@'),
        !s.contains('+'),
    ensures
        described(s) == Ok::<DescView, DescErrorView>(
            DescView { path: s, port: DEFAULT_PORT, ts_offset: 0, max_duration: u64::MAX },
        ),
{
    let p = parts(s);
    law_parts_joined(s);
    let whole = p.prefix + p.name + marked(':', p.port) + marked('@', p.offset) + marked(
        '+',
        p.duration,
    );
    let (a, b) = (p.prefix + p.name, marked(':', p.port));
    let (c, d) = (marked('@', p.offset), marked('+', p.duration));
    if p.duration is Some {
        assert(whole[(a + b + c).len() as int] == '+');
    }
    if p.offset is Some {
        assert(whole[(a + b).len() as int] == '@');
    }
    if p.port is Some {
        assert(whole[a.len() as int] == ':');
    }
    assert(a =~= s);
}

/// The last place of a character in a text that ends in another text without it.
pub(crate) proof fn lemma_last_in_front(s: Seq<char>, c: char, t: Seq<char>)
    requires
        !t.contains(c),
    ensures
        cut_last(s + seq![c] + t, c) == (s, Some(t)),
{
    let all = s + seq![c] + t;
    lemma_last_skips(s + seq![c], t, c, c);
    assert((s + seq![c]).last() == c);
    assert(all.take(s.len() as int) =~= s);
    assert(all.skip((s.len() + 1) as int) =~= t);
}

/// Text without two characters does not move their last place.
pub(crate) proof fn lemma_last_skips(s: Seq<char>, t: Seq<char>, a: char, b: char)
    requires
        !t.contains(a),
        !t.contains(b),
    ensures
        last_place(s + t, a, b) == last_place(s, a, b),
    decreases t.len(),
{
    if t.len() == 0 {
        assert(s + t =~= s);
    } else {
        assert(t[t.len() - 1] == t.last());
        assert((s + t).drop_last() =~= s + t.drop_last());
        assert forall|c: char| t.drop_last().contains(c) implies t.contains(c) by {
            let i = choose|i: int| 0 <= i < t.drop_last().len() && t.drop_last()[i] == c;
            assert(t[i] == c);
        }
        lemma_last_skips(s, t.drop_last(), a, b);
    }
}

/// A description with a duration behind an `@` alone is the one without the `@`.
pub proof fn law_offset_left_out(path: Seq<char>, duration: Seq<char>)
    requires
        !path.contains('@'),
        !duration.contains('/'),
        !duration.contains('\\'),
        !duration.contains('+'),
    ensures
        described(path + seq!['@'] + seq!['+'] + duration) == described(
            path + seq!['+'] + duration,
        ),
{
    let (with, without) = (path + seq!['@'] + seq!['+'] + duration, path + seq!['+'] + duration);
    lemma_last_skips(path, seq!['@'] + seq!['+'] + duration, '/', '\\');
    lemma_last_skips(path, seq!['+'] + duration, '/', '\\');
    assert(with =~= path + (seq!['@'] + seq!['+'] + duration));
    assert(without =~= path + (seq!['+'] + duration));
    lemma_last_place(path, '/', '\\');
    let at = match last_place(path, '/', '\\') {
        Some(i) => i + 1,
        None => 0,
    };
    let name = path.skip(at);
    assert(with.skip(at) =~= name + seq!['@'] + seq!['+'] + duration);
    assert(without.skip(at) =~= name + seq!['+'] + duration);
    assert(with.take(at) =~= path.take(at) && without.take(at) =~= path.take(at));
    assert(path.skip(0) =~= path && with.skip(0) =~= with && without.skip(0) =~= without);
    lemma_last_in_front(name + seq!['@'], '+', duration);
    lemma_last_in_front(name, '+', duration);
    lemma_last_in_front(name, '@', Seq::empty());
    assert(name + seq!['@'] + Seq::<char>::empty() =~= name + seq!['@']);
    lemma_last_place(name, '@', '@');
    if let Some(i) = last_place(name, '@', '@') {
        assert(path[at + i] == '@');
    }
}

} // verus!
