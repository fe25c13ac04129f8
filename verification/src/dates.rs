//! The calendar-date grammar used by the aggregation engine.
//!
//! A well-formed date is exactly `YYYY-MM-DD`: four digits, a dash, two
//! digits, a dash, two digits, naming a real calendar day (month lengths and
//! leap years included).

use vstd::prelude::*;

verus! {

pub open spec fn is_digit_char(c: char) -> bool {
    '0' <= c && c <= '9'
}

pub open spec fn digit_val(c: char) -> int {
    c as int - '0' as int
}

pub open spec fn leap_year(y: int) -> bool {
    y % 4 == 0 && (y % 100 != 0 || y % 400 == 0)
}

pub open spec fn days_in_month(y: int, m: int) -> int {
    if m == 2 {
        if leap_year(y) {
            29
        } else {
            28
        }
    } else if m == 4 || m == 6 || m == 9 || m == 11 {
        30
    } else {
        31
    }
}

/// The ten characters have the shape `YYYY-MM-DD`.
pub open spec fn date_shaped(s: Seq<char>) -> bool {
    &&& s.len() == 10
    &&& is_digit_char(s[0])
    &&& is_digit_char(s[1])
    &&& is_digit_char(s[2])
    &&& is_digit_char(s[3])
    &&& s[4] == '-'
    &&& is_digit_char(s[5])
    &&& is_digit_char(s[6])
    &&& s[7] == '-'
    &&& is_digit_char(s[8])
    &&& is_digit_char(s[9])
}

pub open spec fn date_year(s: Seq<char>) -> int {
    digit_val(s[0]) * 1000 + digit_val(s[1]) * 100 + digit_val(s[2]) * 10 + digit_val(s[3])
}

pub open spec fn date_month(s: Seq<char>) -> int {
    digit_val(s[5]) * 10 + digit_val(s[6])
}

pub open spec fn date_day(s: Seq<char>) -> int {
    digit_val(s[8]) * 10 + digit_val(s[9])
}

/// A shaped date string that names a real calendar day.
pub open spec fn valid_date(s: Seq<char>) -> bool {
    &&& date_shaped(s)
    &&& 1 <= date_month(s) <= 12
    &&& 1 <= date_day(s) <= days_in_month(date_year(s), date_month(s))
}

/// The `YYYY-MM` prefix that monthly aggregation groups by.
pub open spec fn month_key(s: Seq<char>) -> Seq<char> {
    s.subrange(0, 7)
}

/// The `YYYY` prefix that yearly aggregation groups by.
pub open spec fn year_key(s: Seq<char>) -> Seq<char> {
    s.subrange(0, 4)
}

fn digit_of(c: char) -> (d: u32)
    requires
        is_digit_char(c),
    ensures
        d == digit_val(c),
{
    c as u32 - '0' as u32
}

fn is_digit(c: char) -> (b: bool)
    ensures
        b == is_digit_char(c),
{
    '0' <= c && c <= '9'
}

/// Decides whether a year is a leap year.
pub fn is_leap_year(y: u32) -> (b: bool)
    ensures
        b == leap_year(y as int),
{
    y % 4 == 0 && (y % 100 != 0 || y % 400 == 0)
}

/// The number of days in the given month of the given year.
pub fn month_length(y: u32, m: u32) -> (d: u32)
    ensures
        d == days_in_month(y as int, m as int),
{
    if m == 2 {
        if is_leap_year(y) {
            29
        } else {
            28
        }
    } else if m == 4 || m == 6 || m == 9 || m == 11 {
        30
    } else {
        31
    }
}

/// Decides whether a string is a well-formed `YYYY-MM-DD` calendar date.
pub fn check_date(s: &str) -> (b: bool)
    ensures
        b == valid_date(s@),
{
    let n = s.unicode_len();
    if n != 10 {
        return false;
    }
    let c0 = s.get_char(0);
    let c1 = s.get_char(1);
    let c2 = s.get_char(2);
    let c3 = s.get_char(3);
    let c4 = s.get_char(4);
    let c5 = s.get_char(5);
    let c6 = s.get_char(6);
    let c7 = s.get_char(7);
    let c8 = s.get_char(8);
    let c9 = s.get_char(9);
    if !(is_digit(c0) && is_digit(c1) && is_digit(c2) && is_digit(c3) && c4 == '-' && is_digit(c5)
        && is_digit(c6) && c7 == '-' && is_digit(c8) && is_digit(c9)) {
        return false;
    }
    let year: u32 = digit_of(c0) * 1000 + digit_of(c1) * 100 + digit_of(c2) * 10 + digit_of(c3);
    let month: u32 = digit_of(c5) * 10 + digit_of(c6);
    let day: u32 = digit_of(c8) * 10 + digit_of(c9);
    1 <= month && month <= 12 && 1 <= day && day <= month_length(year, month)
}

} // verus!
