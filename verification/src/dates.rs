//! Calendar-date parsing for article timestamps.
//!
//! An article's update time arrives as a string `YYYY-MM-DD` (4-digit year,
//! 2-digit month, 2-digit day, dash-separated). A well-formed date is turned
//! into the number of seconds from the Unix epoch to midnight UTC of that
//! day, in the proleptic Gregorian calendar; anything malformed, an invalid
//! calendar date, or an absent string defaults to epoch zero.

use vstd::prelude::*;

verus! {

/// Days from 0000-01-01 to 1970-01-01 in the proleptic Gregorian calendar.
pub const EPOCH_DAY_NUMBER: u64 = 719528;

pub open spec fn is_digit(c: char) -> bool {
    48 <= c as int <= 57
}

pub open spec fn digit_val(c: char) -> int {
    c as int - 48
}

pub open spec fn is_leap_year(y: int) -> bool {
    (y % 4 == 0 && y % 100 != 0) || y % 400 == 0
}

pub open spec fn days_in_month(y: int, m: int) -> int {
    if m == 2 {
        if is_leap_year(y) {
            29
        } else {
            28
        }
    } else if m == 4 || m == 6 || m == 9 || m == 11 {
        30
    } else {
        31
    }
}

/// Days in the months of year `y` that come before month `m`.
pub open spec fn days_before_month(y: int, m: int) -> int
    decreases m,
{
    if m <= 1 {
        0
    } else {
        days_before_month(y, m - 1) + days_in_month(y, m - 1)
    }
}

/// Leap years `z` with `0 <= z < y` (year 0 is a leap year).
pub open spec fn leap_years_before(y: int) -> int {
    (y + 3) / 4 - (y + 99) / 100 + (y + 399) / 400
}

/// Days from 0000-01-01 to the first day of year `y`.
pub open spec fn days_before_year(y: int) -> int {
    365 * y + leap_years_before(y)
}

/// Days from 0000-01-01 to the civil date `y-m-d`.
pub open spec fn day_number(y: int, m: int, d: int) -> int {
    days_before_year(y) + days_before_month(y, m) + (d - 1)
}

pub open spec fn valid_date(y: int, m: int, d: int) -> bool {
    &&& 0 <= y <= 9999
    &&& 1 <= m <= 12
    &&& 1 <= d <= days_in_month(y, m)
}

/// Seconds from the Unix epoch to midnight UTC of `y-m-d`.
pub open spec fn date_epoch_seconds(y: int, m: int, d: int) -> int {
    (day_number(y, m, d) - EPOCH_DAY_NUMBER) * 86400
}

/// The date denoted by `s` when `s` is exactly `YYYY-MM-DD` and names a real
/// calendar date; `None` otherwise.
pub open spec fn spec_parse_date(s: Seq<char>) -> Option<(int, int, int)> {
    if s.len() == 10 && s[4] == '-' && s[7] == '-' && is_digit(s[0]) && is_digit(s[1]) && is_digit(
        s[2],
    ) && is_digit(s[3]) && is_digit(s[5]) && is_digit(s[6]) && is_digit(s[8]) && is_digit(s[9]) {
        let y = 1000 * digit_val(s[0]) + 100 * digit_val(s[1]) + 10 * digit_val(s[2]) + digit_val(
            s[3],
        );
        let m = 10 * digit_val(s[5]) + digit_val(s[6]);
        let d = 10 * digit_val(s[8]) + digit_val(s[9]);
        if valid_date(y, m, d) {
            Some((y, m, d))
        } else {
            None
        }
    } else {
        None
    }
}

pub open spec fn spec_parse_time(s: Seq<char>) -> Option<int> {
    match spec_parse_date(s) {
        Some((y, m, d)) => Some(date_epoch_seconds(y, m, d)),
        None => None,
    }
}

/// The timestamp a record's optional update-time string stands for: parse
/// failure and absence both default to epoch zero.
pub open spec fn spec_update_seconds(t: Option<Seq<char>>) -> int {
    match t {
        Some(s) => match spec_parse_time(s) {
            Some(v) => v,
            None => 0,
        },
        None => 0,
    }
}

fn digit(c: char) -> (r: Option<u64>)
    ensures
        match r {
            Some(v) => is_digit(c) && v == digit_val(c),
            None => !is_digit(c),
        },
{
    let u = c as u32;
    if 48 <= u && u <= 57 {
        Some((u - 48) as u64)
    } else {
        None
    }
}

fn days_in_month_exec(y: u64, m: u64) -> (r: u64)
    ensures
        r == days_in_month(y as int, m as int),
{
    if m == 2 {
        if (y % 4 == 0 && y % 100 != 0) || y % 400 == 0 {
            29
        } else {
            28
        }
    } else if m == 4 || m == 6 || m == 9 || m == 11 {
        30
    } else {
        31
    }
}

proof fn lemma_day_number_bounds(y: int, m: int, d: int)
    requires
        valid_date(y, m, d),
    ensures
        0 <= day_number(y, m, d) < 3700000,
{
    assert(0 <= leap_years_before(y) < 2600);
    lemma_days_before_month_bound(y, m);
}

proof fn lemma_days_before_month_bound(y: int, m: int)
    requires
        1 <= m <= 13,
    ensures
        0 <= days_before_month(y, m) <= 31 * (m - 1),
    decreases m,
{
    if m > 1 {
        lemma_days_before_month_bound(y, m - 1);
    }
}

/// Seconds from the Unix epoch to midnight UTC of the date written in `s`,
/// or `None` when `s` is not a well-formed `YYYY-MM-DD` calendar date.
pub fn parse_time(s: &str) -> (r: Option<i64>)
    ensures
        r is Some <==> spec_parse_time(s@) is Some,
        r matches Some(v) ==> spec_parse_time(s@) == Some(v as int),
{
    if s.unicode_len() != 10 {
        return None;
    }
    if s.get_char(4) != '-' || s.get_char(7) != '-' {
        return None;
    }
    let d0 = digit(s.get_char(0));
    let d1 = digit(s.get_char(1));
    let d2 = digit(s.get_char(2));
    let d3 = digit(s.get_char(3));
    let d5 = digit(s.get_char(5));
    let d6 = digit(s.get_char(6));
    let d8 = digit(s.get_char(8));
    let d9 = digit(s.get_char(9));
    match (d0, d1, d2, d3, d5, d6, d8, d9) {
        (
            Some(y0),
            Some(y1),
            Some(y2),
            Some(y3),
            Some(m0),
            Some(m1),
            Some(a0),
            Some(a1),
        ) => {
            let y: u64 = 1000 * y0 + 100 * y1 + 10 * y2 + y3;
            let m: u64 = 10 * m0 + m1;
            let d: u64 = 10 * a0 + a1;
            if m < 1 || m > 12 || d < 1 || d > days_in_month_exec(y, m) {
                return None;
            }
            let mut before_m: u64 = 0;
            let mut k: u64 = 1;
            while k < m
                invariant
                    1 <= k <= m <= 12,
                    y <= 9999,
                    before_m == days_before_month(y as int, k as int),
                    before_m <= 31 * (k - 1),
                decreases m - k,
            {
                before_m = before_m + days_in_month_exec(y, k);
                k = k + 1;
            }
            let before_y: u64 = 365 * y + (y + 3) / 4 + (y + 399) / 400 - (y + 99) / 100;
            assert(before_y == days_before_year(y as int));
            let day: u64 = before_y + before_m + (d - 1);
            proof {
                lemma_day_number_bounds(y as int, m as int, d as int);
            }
            assert(day == day_number(y as int, m as int, d as int));
            let secs: i64 = (day as i64 - EPOCH_DAY_NUMBER as i64) * 86400;
            assert(secs == date_epoch_seconds(y as int, m as int, d as int));
            Some(secs)
        },
        _ => None,
    }
}

/// The timestamp for a record's optional update-time string; parse failure
/// and absence both default to epoch zero.
pub fn update_seconds(t: &Option<String>) -> (r: i64)
    ensures
        r == spec_update_seconds(match *t {
            Some(ref s) => Some(s@),
            None => None,
        }),
{
    match t {
        Some(s) => match parse_time(s.as_str()) {
            Some(v) => v,
            None => 0,
        },
        None => 0,
    }
}

} // verus!
