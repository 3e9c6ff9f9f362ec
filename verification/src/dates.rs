//! Calendar dates and their `YYYY-MM-DD` text form.

use vstd::prelude::*;
use crate::numtext::{is_digit, digit_val, digit_char, digit_of, digit_to_char};

verus! {

/// A calendar date, held as plain year, month and day numbers.
#[derive(Clone, Copy, Debug, PartialEq, Eq, Structural)]
pub struct Date {
    pub year: u16,
    pub month: u8,
    pub day: u8,
}

/// Days of a month, honouring leap years.
pub open spec fn spec_days_in_month(y: int, m: int) -> int {
    if m == 2 {
        if y % 4 == 0 && (y % 100 != 0 || y % 400 == 0) {
            29
        } else {
            28
        }
    } else if m == 4 || m == 6 || m == 9 || m == 11 {
        30
    } else {
        31
    }
}

/// Days of a month, honouring leap years.
pub fn days_in_month(y: u16, m: u8) -> (r: u8)
    ensures
        r as int == spec_days_in_month(y as int, m as int),
{
    if m == 2 {
        if y % 4 == 0 && (y % 100 != 0 || y % 400 == 0) {
            29
        } else {
            28
        }
    } else if m == 4 || m == 6 || m == 9 || m == 11 {
        30
    } else {
        31
    }
}

/// A date that exists in the calendar, with a four-digit year.
pub open spec fn wf_date(d: Date) -> bool {
    &&& d.year <= 9999
    &&& 1 <= d.month <= 12
    &&& 1 <= d.day <= spec_days_in_month(d.year as int, d.month as int)
}

/// Checks that a date exists in the calendar.
pub fn date_valid(d: &Date) -> (r: bool)
    ensures
        r == wf_date(*d),
{
    d.year <= 9999 && 1 <= d.month && d.month <= 12 && 1 <= d.day && d.day <= days_in_month(
        d.year,
        d.month,
    )
}

/// A single number that orders dates chronologically.
pub open spec fn date_key(d: Date) -> int {
    d.year as int * 10000 + d.month as int * 100 + d.day as int
}

/// `a` is on or before `b`.
pub fn date_le(a: &Date, b: &Date) -> (r: bool)
    ensures
        r == (date_key(*a) <= date_key(*b)),
{
    let ka: u32 = a.year as u32 * 10000 + a.month as u32 * 100 + a.day as u32;
    let kb: u32 = b.year as u32 * 10000 + b.month as u32 * 100 + b.day as u32;
    ka <= kb
}

/// `a` is strictly before `b`.
pub fn date_lt(a: &Date, b: &Date) -> (r: bool)
    ensures
        r == (date_key(*a) < date_key(*b)),
{
    let ka: u32 = a.year as u32 * 10000 + a.month as u32 * 100 + a.day as u32;
    let kb: u32 = b.year as u32 * 10000 + b.month as u32 * 100 + b.day as u32;
    ka < kb
}

/// A two-digit, zero-padded number.
pub open spec fn enc2(v: int) -> Seq<char> {
    seq![digit_char((v / 10) % 10), digit_char(v % 10)]
}

/// A four-digit, zero-padded number.
pub open spec fn enc4(v: int) -> Seq<char> {
    seq![
        digit_char((v / 1000) % 10),
        digit_char((v / 100) % 10),
        digit_char((v / 10) % 10),
        digit_char(v % 10),
    ]
}

/// The `YYYY-MM-DD` text of a date.
pub open spec fn enc_date(d: Date) -> Seq<char> {
    enc4(d.year as int) + seq!['-'] + enc2(d.month as int) + seq!['-'] + enc2(d.day as int)
}

/// Renders a date as `YYYY-MM-DD`.
pub fn date_to_chars(d: &Date) -> (r: Vec<char>)
    requires
        wf_date(*d),
    ensures
        r@ == enc_date(*d),
{
    let y = d.year;
    let mut v: Vec<char> = Vec::new();
    v.push(digit_to_char(((y / 1000) % 10) as u8));
    v.push(digit_to_char(((y / 100) % 10) as u8));
    v.push(digit_to_char(((y / 10) % 10) as u8));
    v.push(digit_to_char((y % 10) as u8));
    v.push('-');
    v.push(digit_to_char((d.month / 10) % 10));
    v.push(digit_to_char(d.month % 10));
    v.push('-');
    v.push(digit_to_char((d.day / 10) % 10));
    v.push(digit_to_char(d.day % 10));
    proof {
        assert(v@ =~= enc_date(*d));
    }
    v
}

/// Reading a `YYYY-MM-DD` text, mirroring `parse_date`.
pub open spec fn spec_parse_date(s: Seq<char>) -> Option<Date> {
    if s.len() == 10 && is_digit(s[0]) && is_digit(s[1]) && is_digit(s[2]) && is_digit(s[3]) && s[4]
        == '-' && is_digit(s[5]) && is_digit(s[6]) && s[7] == '-' && is_digit(s[8]) && is_digit(
        s[9],
    ) {
        let y = digit_val(s[0]) * 1000 + digit_val(s[1]) * 100 + digit_val(s[2]) * 10 + digit_val(
            s[3],
        );
        let m = digit_val(s[5]) * 10 + digit_val(s[6]);
        let dd = digit_val(s[8]) * 10 + digit_val(s[9]);
        let d = Date { year: y as u16, month: m as u8, day: dd as u8 };
        if wf_date(d) {
            Some(d)
        } else {
            None
        }
    } else {
        None
    }
}

/// Reads a `YYYY-MM-DD` text; `None` on any other shape, or on a day that
/// the calendar does not have.
pub fn parse_date(s: &[char]) -> (r: Option<Date>)
    ensures
        r == spec_parse_date(s@),
{
    if s.len() != 10 {
        return None;
    }
    let d0 = digit_of(s[0]);
    let d1 = digit_of(s[1]);
    let d2 = digit_of(s[2]);
    let d3 = digit_of(s[3]);
    let d5 = digit_of(s[5]);
    let d6 = digit_of(s[6]);
    let d8 = digit_of(s[8]);
    let d9 = digit_of(s[9]);
    if d0.is_none() || d1.is_none() || d2.is_none() || d3.is_none() || s[4] != '-' || d5.is_none()
        || d6.is_none() || s[7] != '-' || d8.is_none() || d9.is_none() {
        return None;
    }
    let y: u16 = (d0.unwrap() as u16) * 1000 + (d1.unwrap() as u16) * 100 + (d2.unwrap() as u16)
        * 10 + (d3.unwrap() as u16);
    let m: u8 = d5.unwrap() * 10 + d6.unwrap();
    let dd: u8 = d8.unwrap() * 10 + d9.unwrap();
    let d = Date { year: y, month: m, day: dd };
    if date_valid(&d) {
        Some(d)
    } else {
        None
    }
}

/// Parsing inverts rendering for date text.
pub proof fn lemma_parse_date_enc(d: Date)
    requires
        wf_date(d),
    ensures
        enc_date(d).len() == 10,
        spec_parse_date(enc_date(d)) == Some(d),
{
    let s = enc_date(d);
    let y = d.year as int;
    let m = d.month as int;
    let dd = d.day as int;
    assert(s[0] == digit_char((y / 1000) % 10));
    assert(s[1] == digit_char((y / 100) % 10));
    assert(s[2] == digit_char((y / 10) % 10));
    assert(s[3] == digit_char(y % 10));
    assert(s[5] == digit_char((m / 10) % 10));
    assert(s[6] == digit_char(m % 10));
    assert(s[8] == digit_char((dd / 10) % 10));
    assert(s[9] == digit_char(dd % 10));
    lemma_digit_char_val_pub((y / 1000) % 10);
    lemma_digit_char_val_pub((y / 100) % 10);
    lemma_digit_char_val_pub((y / 10) % 10);
    lemma_digit_char_val_pub(y % 10);
    lemma_digit_char_val_pub((m / 10) % 10);
    lemma_digit_char_val_pub(m % 10);
    lemma_digit_char_val_pub((dd / 10) % 10);
    lemma_digit_char_val_pub(dd % 10);
    assert(((y / 1000) % 10) * 1000 + ((y / 100) % 10) * 100 + ((y / 10) % 10) * 10 + y % 10
        == y) by (nonlinear_arith)
        requires 0 <= y <= 9999;
    assert(((m / 10) % 10) * 10 + m % 10 == m) by (nonlinear_arith)
        requires 0 <= m <= 12;
    assert(((dd / 10) % 10) * 10 + dd % 10 == dd) by (nonlinear_arith)
        requires 0 <= dd <= 31;
}

/// `digit_char` and `digit_val` cancel for values below ten.
pub proof fn lemma_digit_char_val_pub(d: int)
    requires
        0 <= d <= 9,
    ensures
        is_digit(digit_char(d)),
        digit_val(digit_char(d)) == d,
{
}

} // verus!
