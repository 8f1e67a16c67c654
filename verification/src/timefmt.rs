//! The local (UTC+8) time text stored with each received file.
use vstd::prelude::*;
use crate::num::{decimal, zero_pad, decimal_exec, zero_pad_exec};
use crate::text::{string_of, extend_chars};

verus! {

pub open spec fn is_leap(y: nat) -> bool {
    (y % 4 == 0 && y % 100 != 0) || y % 400 == 0
}

pub open spec fn year_len(y: nat) -> nat {
    if is_leap(y) { 366 } else { 365 }
}

/// Length of month `m` (0 for January) in a leap or common year.
pub open spec fn month_len(leap: bool, m: nat) -> nat {
    if m == 1 {
        if leap { 29 } else { 28 }
    } else if m == 3 || m == 5 || m == 8 || m == 10 {
        30
    } else {
        31
    }
}

/// Counting whole years from `y` on: the year that day `rem` falls in, and
/// the day within that year.
pub open spec fn year_of(y: nat, rem: nat) -> (nat, nat)
    decreases rem,
{
    if rem < year_len(y) {
        (y, rem)
    } else {
        year_of(y + 1, (rem - year_len(y)) as nat)
    }
}

/// Counting whole months from month `m` on: the month number (1 for January)
/// that day `rem` of the year falls in, and the day within it (from 0).
pub open spec fn month_of(leap: bool, m: nat, rem: nat) -> (nat, nat)
    decreases 12 - m,
{
    if m >= 12 {
        (1, rem)
    } else if rem < month_len(leap, m) {
        (m + 1, rem)
    } else {
        month_of(leap, m + 1, (rem - month_len(leap, m)) as nat)
    }
}

/// Seconds after the epoch in UTC+8.
pub open spec fn local_secs(unix_secs: nat) -> nat {
    unix_secs + 8 * 3600
}

/// The calendar date (year, month, day) of `unix_secs` in UTC+8.
pub open spec fn local_date(unix_secs: nat) -> (nat, nat, nat) {
    let days = local_secs(unix_secs) / 86400;
    let (y, rem) = year_of(1970, days);
    let (mo, r) = month_of(is_leap(y), 0, rem);
    (y, mo, r + 1)
}

/// `YYYY-MM-DD hh:mm` of `unix_secs` in UTC+8.
pub open spec fn received_time(unix_secs: nat) -> Seq<char> {
    let secs = local_secs(unix_secs);
    let (y, mo, d) = local_date(unix_secs);
    let h = (secs / 3600) % 24;
    let mi = (secs / 60) % 60;
    zero_pad(decimal(y), 4) + seq!['-'] + zero_pad(decimal(mo), 2) + seq!['-'] + zero_pad(decimal(d), 2)
        + seq![' '] + zero_pad(decimal(h), 2) + seq![':'] + zero_pad(decimal(mi), 2)
}

fn year_len_exec(y: u64) -> (r: u64)
    ensures
        r == year_len(y as nat),
{
    if (y % 4 == 0 && y % 100 != 0) || y % 400 == 0 { 366 } else { 365 }
}

fn month_len_exec(leap: bool, m: u64) -> (r: u64)
    ensures
        r == month_len(leap, m as nat),
{
    if m == 1 {
        if leap { 29 } else { 28 }
    } else if m == 3 || m == 5 || m == 8 || m == 10 {
        30
    } else {
        31
    }
}

/// The time text recorded for a file received `unix_secs` seconds after the
/// epoch, in UTC+8: `YYYY-MM-DD hh:mm`.
pub fn received_time_text(unix_secs: u64) -> (r: String)
    requires
        unix_secs + 8 * 3600 <= u64::MAX,
    ensures
        r@ == received_time(unix_secs as nat),
{
    let secs: u64 = unix_secs + 8 * 3600;
    let days = secs / 86400;
    let mut y: u64 = 1970;
    let mut rem: u64 = days;
    loop
        invariant
            days == secs / 86400,
            secs <= u64::MAX,
            1970 <= y,
            rem <= days,
            (y - 1970) * 365 <= days - rem,
            year_of(y as nat, rem as nat) == year_of(1970, days as nat),
        ensures
            rem < year_len(y as nat),
            year_of(y as nat, rem as nat) == year_of(1970, days as nat),
        decreases rem,
    {
        let yl = year_len_exec(y);
        if rem < yl {
            break;
        }
        rem = rem - yl;
        y = y + 1;
    }
    let leap = (y % 4 == 0 && y % 100 != 0) || y % 400 == 0;
    let mut mo: u64 = 1;
    let mut i: u64 = 0;
    let ghost start_rem = rem;
    assert(start_rem < 366);
    loop
        invariant_except_break
            mo == 1,
            month_of(leap, i as nat, rem as nat) == month_of(leap, 0, start_rem as nat),
        invariant
            i <= 12,
            leap == is_leap(y as nat),
            rem <= start_rem,
            start_rem < 366,
        ensures
            rem < 366,
            (mo as nat, rem as nat) == month_of(leap, 0, start_rem as nat),
        decreases 12 - i,
    {
        if i >= 12 {
            break;
        }
        let ml = month_len_exec(leap, i);
        if rem < ml {
            mo = i + 1;
            break;
        }
        rem = rem - ml;
        i = i + 1;
    }
    let d = rem + 1;
    let h = (secs / 3600) % 24;
    let m = (secs / 60) % 60;
    let mut out = zero_pad_exec(decimal_exec(y), 4);
    out.push('-');
    let t = zero_pad_exec(decimal_exec(mo), 2);
    extend_chars(&mut out, &t);
    out.push('-');
    let t = zero_pad_exec(decimal_exec(d), 2);
    extend_chars(&mut out, &t);
    out.push(' ');
    let t = zero_pad_exec(decimal_exec(h), 2);
    extend_chars(&mut out, &t);
    out.push(':');
    let t = zero_pad_exec(decimal_exec(m), 2);
    extend_chars(&mut out, &t);
    assert(out@ =~= received_time(unix_secs as nat));
    string_of(&out)
}


/// Days from 1970-01-01 to the first day of year `y`.
pub open spec fn days_before_year(y: nat) -> nat
    decreases y,
{
    if y <= 1970 {
        0
    } else {
        days_before_year((y - 1) as nat) + year_len((y - 1) as nat)
    }
}

/// Days from the first of the year to the first day of month `m` (0 for January).
pub open spec fn days_before_month(leap: bool, m: nat) -> nat
    decreases m,
{
    if m == 0 {
        0
    } else {
        days_before_month(leap, (m - 1) as nat) + month_len(leap, (m - 1) as nat)
    }
}

proof fn lemma_year_of(y: nat, rem: nat)
    requires
        y >= 1970,
    ensures
        year_of(y, rem).0 >= y,
        year_of(y, rem).1 < year_len(year_of(y, rem).0),
        days_before_year(year_of(y, rem).0) + year_of(y, rem).1 == days_before_year(y) + rem,
    decreases rem,
{
    if rem >= year_len(y) {
        lemma_year_of(y + 1, (rem - year_len(y)) as nat);
    }
}

proof fn lemma_month_of(leap: bool, m: nat, rem: nat)
    requires
        m <= 12,
        days_before_month(leap, m) + rem < days_before_month(leap, 12),
    ensures
        m < month_of(leap, m, rem).0 <= 12,
        month_of(leap, m, rem).1 < month_len(leap, (month_of(leap, m, rem).0 - 1) as nat),
        days_before_month(leap, (month_of(leap, m, rem).0 - 1) as nat) + month_of(leap, m, rem).1
            == days_before_month(leap, m) + rem,
    decreases 12 - m,
{
    if m == 12 {
    } else if rem < month_len(leap, m) {
    } else {
        assert(days_before_month(leap, m + 1) == days_before_month(leap, m) + month_len(leap, m));
        lemma_month_of(leap, m + 1, (rem - month_len(leap, m)) as nat);
    }
}

proof fn lemma_year_is_months(leap: bool)
    ensures
        days_before_month(leap, 12) == (if leap { 366nat } else { 365nat }),
{
    reveal_with_fuel(days_before_month, 13);
}

/// The date recorded for a received file is a real calendar date, and it lies
/// exactly as many days after 1970-01-01 as whole days have passed in UTC+8.
pub proof fn law_received_date_is_calendar_date(unix_secs: nat)
    ensures
        ({
            let (y, mo, d) = local_date(unix_secs);
            &&& y >= 1970
            &&& 1 <= mo <= 12
            &&& 1 <= d <= month_len(is_leap(y), (mo - 1) as nat)
            &&& days_before_year(y) + days_before_month(is_leap(y), (mo - 1) as nat) + d - 1
                == local_secs(unix_secs) / 86400
        }),
{
    let days = local_secs(unix_secs) / 86400;
    lemma_year_of(1970, days);
    let (y, rem) = year_of(1970, days);
    lemma_year_is_months(is_leap(y));
    lemma_month_of(is_leap(y), 0, rem);
}


/// Days before each month of the year (index 0 for January, 12 for the whole
/// year), for a leap or a common year.
proof fn lemma_days_before_months(leap: bool, m: nat)
    requires
        m <= 12,
    ensures
        days_before_month(leap, m) == (if leap {
            seq![0nat, 31, 60, 91, 121, 152, 182, 213, 244, 274, 305, 335, 366]
        } else {
            seq![0nat, 31, 59, 90, 120, 151, 181, 212, 243, 273, 304, 334, 365]
        })[m as int],
{
    reveal_with_fuel(days_before_month, 13);
}

/// The recorded date follows the Gregorian calendar: with the days before
/// each month of a common year 0, 31, 59, 90, 120, 151, 181, 212, 243, 273,
/// 304, 334 (one more from March on in a leap year), the day `d` of month
/// `mo` lies within that month, and the date is exactly as many days after
/// 1970-01-01 as whole days have passed in UTC+8.
pub proof fn law_received_date_gregorian(unix_secs: nat)
    ensures
        ({
            let (y, mo, d) = local_date(unix_secs);
            let before = if is_leap(y) {
                seq![0nat, 31, 60, 91, 121, 152, 182, 213, 244, 274, 305, 335, 366]
            } else {
                seq![0nat, 31, 59, 90, 120, 151, 181, 212, 243, 273, 304, 334, 365]
            };
            &&& 1 <= mo <= 12
            &&& 1 <= d
            &&& before[mo - 1] + d <= before[mo as int]
            &&& days_before_year(y) + before[mo - 1] + d - 1 == local_secs(unix_secs) / 86400
        }),
{
    law_received_date_is_calendar_date(unix_secs);
    let (y, mo, d) = local_date(unix_secs);
    lemma_days_before_months(is_leap(y), (mo - 1) as nat);
    lemma_days_before_months(is_leap(y), mo);
    assert(days_before_month(is_leap(y), mo) == days_before_month(is_leap(y), (mo - 1) as nat)
        + month_len(is_leap(y), (mo - 1) as nat));
}

}
