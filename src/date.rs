use vstd::prelude::*;

use crate::text::{chars_of, digit_char, push_seq, string_of};

verus! {

/// A calendar date and time of day, to the second, without a time zone.
#[derive(Debug, Clone, Copy, PartialEq, Eq, Structural)]
pub struct DateTime {
    pub year: i32,
    pub month: u32,
    pub day: u32,
    pub hour: u32,
    pub minute: u32,
    pub second: u32,
}

pub open spec fn is_leap_year(y: int) -> bool {
    (y % 4 == 0 && y % 100 != 0) || y % 400 == 0
}

pub open spec fn days_in_month(y: int, m: int) -> int {
    if m == 2 {
        if is_leap_year(y) { 29 } else { 28 }
    } else if m == 4 || m == 6 || m == 9 || m == 11 {
        30
    } else {
        31
    }
}

/// A real day of the proleptic Gregorian calendar and a time of day.
pub open spec fn valid_date_time(d: DateTime) -> bool {
    &&& 1 <= d.month <= 12
    &&& 1 <= d.day <= days_in_month(d.year as int, d.month as int)
    &&& d.hour < 24
    &&& d.minute < 60
    &&& d.second < 60
}

pub open spec fn is_digit(c: char) -> bool {
    '0' <= c && c <= '9'
}

pub open spec fn digit_value(c: char) -> nat {
    (c as u32 - '0' as u32) as nat
}

/// How many digits, at most `max`, stand in `s` from `p` on.
pub open spec fn digits_at(s: Seq<char>, p: nat, max: nat) -> nat
    decreases max,
{
    if max == 0 || p >= s.len() || !is_digit(s[p as int]) {
        0
    } else {
        1 + digits_at(s, p + 1, (max - 1) as nat)
    }
}

/// The number written by the `k` digits of `s` from `p` on.
pub open spec fn value_of(s: Seq<char>, p: nat, k: nat) -> nat
    decreases k,
{
    if k == 0 {
        0
    } else {
        value_of(s, p, (k - 1) as nat) * 10 + digit_value(s[(p + k - 1) as int])
    }
}

/// A number of one or two digits at `p` followed by the character `sep`
/// (either of two): its value and the index after the separator.
pub open spec fn field_at(s: Seq<char>, p: nat, sep1: char, sep2: char) -> Option<(nat, nat)> {
    let k = digits_at(s, p, 2);
    if k >= 1 && p + k < s.len() && (s[(p + k) as int] == sep1 || s[(p + k) as int] == sep2) {
        Some((value_of(s, p, k), p + k + 1))
    } else {
        None
    }
}

/// The fields of `YYYY-MM-DD HH:MM:SS` (or `_` between date and time) at the
/// start of `s`, each but the year of one or two digits; anything after the
/// seconds, such as a fraction, is ignored.
pub open spec fn date_fields(s: Seq<char>) -> Option<(nat, nat, nat, nat, nat, nat)> {
    if digits_at(s, 0, 4) == 4 && s.len() > 4 && s[4] == '-' {
        let y = value_of(s, 0, 4);
        match field_at(s, 5, '-', '-') {
            None => None,
            Some((mo, p1)) => match field_at(s, p1, ' ', '_') {
                None => None,
                Some((d, p2)) => match field_at(s, p2, ':', ':') {
                    None => None,
                    Some((h, p3)) => match field_at(s, p3, ':', ':') {
                        None => None,
                        Some((mi, p4)) => {
                            let k = digits_at(s, p4, 2);
                            if k >= 1 {
                                Some((y, mo, d, h, mi, value_of(s, p4, k)))
                            } else {
                                None
                            }
                        },
                    },
                },
            },
        }
    } else {
        None
    }
}

/// The date and time written in `s`, if it follows the grammar and names a
/// real day and time.
pub open spec fn parse_date_spec(s: Seq<char>) -> Option<DateTime> {
    match date_fields(s) {
        None => None,
        Some((y, mo, d, h, mi, sec)) => {
            let dt = DateTime {
                year: y as i32,
                month: mo as u32,
                day: d as u32,
                hour: h as u32,
                minute: mi as u32,
                second: sec as u32,
            };
            if valid_date_time(dt) { Some(dt) } else { None }
        },
    }
}

/// Reads at most `max` digits of `s` from `p` on: how many, and their value.
fn read_number(s: &[char], p: usize, max: usize) -> (r: (usize, u32))
    requires
        max <= 4,
    ensures
        r.0 == digits_at(s@, p as nat, max as nat),
        r.1 == value_of(s@, p as nat, r.0 as nat),
{
    let mut k: usize = 0;
    let mut v: u32 = 0;
    while k < max && p < s.len() && k < s.len() - p && '0' <= s[p + k] && s[p + k] <= '9'
        invariant
            k <= max <= 4,
            digits_at(s@, p as nat, max as nat) == k + digits_at(s@, (p + k) as nat, (max - k) as nat),
            v == value_of(s@, p as nat, k as nat),
            k == 0 ==> v == 0,
            k <= 1 ==> v < 10,
            k <= 2 ==> v < 100,
            k <= 3 ==> v < 1000,
            v < 10000,
        decreases max - k,
    {
        let d = s[p + k] as u32 - '0' as u32;
        proof {
            assert(digits_at(s@, (p + k) as nat, (max - k) as nat)
                == 1 + digits_at(s@, (p + k + 1) as nat, (max - k - 1) as nat));
            assert(value_of(s@, p as nat, (k + 1) as nat)
                == value_of(s@, p as nat, k as nat) * 10 + digit_value(s@[p + k]));
        }
        v = v * 10 + d;
        k = k + 1;
    }
    proof {
        if k < max {
            assert(digits_at(s@, (p + k) as nat, (max - k) as nat) == 0);
        }
    }
    (k, v)
}

fn read_field(s: &[char], p: usize, sep1: char, sep2: char) -> (r: Option<(u32, usize)>)
    ensures
        match r {
            Some((v, q)) => field_at(s@, p as nat, sep1, sep2) == Some((v as nat, q as nat)),
            None => field_at(s@, p as nat, sep1, sep2) is None,
        },
{
    let (k, v) = read_number(s, p, 2);
    if k >= 1 && p < s.len() && k < s.len() - p && (s[p + k] == sep1 || s[p + k] == sep2) {
        Some((v, p + k + 1))
    } else {
        None
    }
}

fn exec_days_in_month(y: i32, m: u32) -> (r: u32)
    ensures
        r == days_in_month(y as int, m as int),
{
    if m == 2 {
        if (y % 4 == 0 && y % 100 != 0) || y % 400 == 0 { 29 } else { 28 }
    } else if m == 4 || m == 6 || m == 9 || m == 11 {
        30
    } else {
        31
    }
}

/// Reads `YYYY-MM-DD HH:MM:SS[.fff]` (or with `_` between date and time) at
/// the start of `buf`; fails when the text does not follow it or names no
/// real day and time.
pub fn parse_date_time(buf: &str) -> (r: Result<DateTime, String>)
    ensures
        match parse_date_spec(buf@) {
            Some(d) => r matches Ok(x) && x == d,
            None => r is Err,
        },
{
    let s = chars_of(buf);
    let sl = s.as_slice();
    let (ky, y) = read_number(sl, 0, 4);
    let fields = if ky == 4 && s.len() > 4 && s[4] == '-' {
        match read_field(sl, 5, '-', '-') {
            None => None,
            Some((mo, p1)) => match read_field(sl, p1, ' ', '_') {
                None => None,
                Some((d, p2)) => match read_field(sl, p2, ':', ':') {
                    None => None,
                    Some((h, p3)) => match read_field(sl, p3, ':', ':') {
                        None => None,
                        Some((mi, p4)) => {
                            let (k, sec) = read_number(sl, p4, 2);
                            if k >= 1 { Some((mo, d, h, mi, sec)) } else { None }
                        },
                    },
                },
            },
        }
    } else {
        None
    };
    if let Some((mo, d, h, mi, sec)) = fields {
        let dt = DateTime { year: y as i32, month: mo, day: d, hour: h, minute: mi, second: sec };
        if 1 <= mo && mo <= 12 && 1 <= d && d <= exec_days_in_month(y as i32, mo) && h < 24 && mi < 60
            && sec < 60 {
            return Ok(dt);
        }
    }
    let mut msg = chars_of("Unable to parse date time ");
    push_seq(&mut msg, sl);
    Err(string_of(msg.as_slice()))
}

/// Two digits for `n < 100`, zero-padded.
pub open spec fn two_digits(n: nat) -> Seq<char> {
    seq![digit_char(n / 10), digit_char(n % 10)]
}

/// Four digits for `n < 10000`, zero-padded.
pub open spec fn four_digits(n: nat) -> Seq<char> {
    two_digits(n / 100) + two_digits(n % 100)
}

fn push_two_digits(out: &mut Vec<char>, n: u32)
    requires
        n < 100,
    ensures
        final(out)@ == old(out)@ + two_digits(n as nat),
{
    out.push(crate::text::exec_digit_char(n / 10));
    out.push(crate::text::exec_digit_char(n % 10));
    assert(final(out)@ =~= old(out)@ + two_digits(n as nat));
}

/// The date as `YYYY-MM-DD` and the time as `HH:MM:SS`.
pub fn format_date_time(date_time: &DateTime) -> (r: (String, String))
    requires
        0 <= date_time.year < 10000,
        date_time.month < 100,
        date_time.day < 100,
        date_time.hour < 100,
        date_time.minute < 100,
        date_time.second < 100,
    ensures
        r.0@ == four_digits(date_time.year as nat) + seq!['-'] + two_digits(date_time.month as nat)
            + seq!['-'] + two_digits(date_time.day as nat),
        r.1@ == two_digits(date_time.hour as nat) + seq![':'] + two_digits(date_time.minute as nat)
            + seq![':'] + two_digits(date_time.second as nat),
{
    let mut d: Vec<char> = Vec::new();
    let y = date_time.year as u32;
    push_two_digits(&mut d, y / 100);
    push_two_digits(&mut d, y % 100);
    d.push('-');
    push_two_digits(&mut d, date_time.month);
    d.push('-');
    push_two_digits(&mut d, date_time.day);
    let mut t: Vec<char> = Vec::new();
    push_two_digits(&mut t, date_time.hour);
    t.push(':');
    push_two_digits(&mut t, date_time.minute);
    t.push(':');
    push_two_digits(&mut t, date_time.second);
    proof {
        assert(d@ =~= four_digits(date_time.year as nat) + seq!['-'] + two_digits(date_time.month as nat)
            + seq!['-'] + two_digits(date_time.day as nat));
        assert(t@ =~= two_digits(date_time.hour as nat) + seq![':'] + two_digits(date_time.minute as nat)
            + seq![':'] + two_digits(date_time.second as nat));
    }
    (string_of(d.as_slice()), string_of(t.as_slice()))
}

} // verus!
