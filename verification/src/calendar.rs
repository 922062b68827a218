//! Calendar arithmetic: leap years, and the `YYYY-MM-DD HH:MM:SS` text of an
//! instant given in seconds since 1970-01-01 00:00:00 UTC.
use vstd::prelude::*;

use crate::text::{decimal, push_zero_padded, string_from_chars, zero_pad};

verus! {

/// The Gregorian leap year rule.
pub open spec fn is_leap(year: int) -> bool {
    (year % 4 == 0 && year % 100 != 0) || year % 400 == 0
}

/// Whether `year` is a leap year of the Gregorian calendar.
pub fn is_leap_year(year: i64) -> (b: bool)
    ensures
        b == is_leap(year as int),
{
    (year % 4 == 0 && year % 100 != 0) || (year % 400 == 0)
}

/// The number of days of a year.
pub open spec fn days_in_year(year: int) -> int {
    if is_leap(year) {
        366
    } else {
        365
    }
}

/// The number of days of month `m` (1 to 12) of `year`.
pub open spec fn days_in_month(year: int, m: int) -> int {
    if m == 2 {
        if is_leap(year) {
            29
        } else {
            28
        }
    } else if m == 4 || m == 6 || m == 9 || m == 11 {
        30
    } else {
        31
    }
}

/// The year that day `days` (counted from 0 in year `year`) falls in, and the
/// day's number within that year (from 0).
pub open spec fn year_and_day(days: int, year: int) -> (int, int)
    decreases days,
{
    if days < 0 || days < days_in_year(year) {
        (year, days)
    } else {
        year_and_day(days - days_in_year(year), year + 1)
    }
}

/// The month (from `m`) that day `d` of `year` falls in, and the day's number
/// within that month (from 0).
pub open spec fn month_and_day(d: int, year: int, m: int) -> (int, int)
    decreases 13 - m,
{
    if m > 12 || d < days_in_month(year, m) {
        (m, d)
    } else {
        month_and_day(d - days_in_month(year, m), year, m + 1)
    }
}

/// The calendar date `(year, month, day)` of day `days` since 1970-01-01.
pub open spec fn civil_date(days: nat) -> (int, int, int) {
    let (y, d) = year_and_day(days as int, 1970);
    let (m, dd) = month_and_day(d, y, 1);
    (y, m, dd + 1)
}

/// `YYYY-MM-DD HH:MM:SS` (UTC) for an instant `secs` seconds after the epoch.
pub open spec fn civil_timestamp_text(secs: nat) -> Seq<char> {
    let (y, m, d) = civil_date(secs / 86400);
    let rem = secs % 86400;
    zero_pad(decimal(y as nat), 4) + seq!['-'] + zero_pad(decimal(m as nat), 2) + seq!['-']
        + zero_pad(decimal(d as nat), 2) + seq![' '] + zero_pad(decimal(rem / 3600), 2) + seq![
        ':',
    ] + zero_pad(decimal((rem % 3600) / 60), 2) + seq![':'] + zero_pad(decimal(rem % 60), 2)
}

proof fn lemma_year_and_day_bounds(days: int, year: int)
    requires
        days >= 0,
        year >= 1970,
    ensures
        year_and_day(days, year).0 >= year,
        year_and_day(days, year).0 <= year + days,
        0 <= year_and_day(days, year).1 < days_in_year(year_and_day(days, year).0),
    decreases days,
{
    if days >= days_in_year(year) {
        lemma_year_and_day_bounds(days - days_in_year(year), year + 1);
    }
}

proof fn lemma_month_and_day_bounds(d: int, year: int, m: int)
    requires
        1 <= m <= 12,
        0 <= d,
        d < days_in_year(year) - days_before_month(year, m),
    ensures
        m <= month_and_day(d, year, m).0 <= 12,
        0 <= month_and_day(d, year, m).1 < days_in_month(year, month_and_day(d, year, m).0),
        days_before_month(year, month_and_day(d, year, m).0) + month_and_day(d, year, m).1
            == days_before_month(year, m) + d,
    decreases 13 - m,
{
    if d >= days_in_month(year, m) {
        if m == 12 {
            reveal_with_fuel(days_before_month, 13);
            assert(days_before_month(year, 12) + days_in_month(year, 12) == days_in_year(year));
        } else {
            lemma_month_and_day_bounds(d - days_in_month(year, m), year, m + 1);
        }
    }
}

/// The days of `year` before month `m` (1 to 13).
pub open spec fn days_before_month(year: int, m: int) -> int
    decreases m,
{
    if m <= 1 {
        0
    } else {
        days_before_month(year, m - 1) + days_in_month(year, m - 1)
    }
}

/// The days from 1970-01-01 to the first day of `year`.
pub open spec fn days_before_year(year: int) -> int
    decreases year - 1970,
{
    if year <= 1970 {
        0
    } else {
        days_before_year(year - 1) + days_in_year(year - 1)
    }
}

proof fn lemma_year_and_day_sum(days: int, year: int)
    requires
        days >= 0,
        year >= 1970,
    ensures
        days_before_year(year_and_day(days, year).0) + year_and_day(days, year).1
            == days_before_year(year) + days,
    decreases days,
{
    if days >= days_in_year(year) {
        lemma_year_and_day_sum(days - days_in_year(year), year + 1);
    }
}

/// The date that `civil_date` gives is a real calendar date (month 1 to 12,
/// day 1 to the month's length), and counting the days of the years and
/// months before it gives back `days`: the date is the one that lies `days`
/// days after 1970-01-01.
pub proof fn lemma_civil_date_is_exact(days: nat)
    ensures
        ({
            let (y, m, d) = civil_date(days);
            &&& y >= 1970
            &&& 1 <= m <= 12
            &&& 1 <= d <= days_in_month(y, m)
            &&& days_before_year(y) + days_before_month(y, m) + (d - 1) == days
        }),
{
    lemma_year_and_day_bounds(days as int, 1970);
    lemma_year_and_day_sum(days as int, 1970);
    let (y, dy) = year_and_day(days as int, 1970);
    lemma_month_and_day_bounds(dy, y, 1);
}

fn push_field(out: &mut Vec<char>, n: u64, width: usize, sep: Option<char>)
    ensures
        final(out)@ == old(out)@ + zero_pad(decimal(n as nat), width as nat) + match sep {
            Some(c) => seq![c],
            None => Seq::empty(),
        },
{
    push_zero_padded(out, n, width);
    if let Some(c) = sep {
        out.push(c);
        assert(final(out)@ =~= old(out)@ + zero_pad(decimal(n as nat), width as nat) + seq![c]);
    } else {
        assert(final(out)@ =~= old(out)@ + zero_pad(decimal(n as nat), width as nat) + Seq::<
            char,
        >::empty());
    }
}

/// `YYYY-MM-DD HH:MM:SS` (UTC) for an instant `secs` seconds after the epoch.
pub fn timestamp_from_unix_secs(secs: u64) -> (r: String)
    ensures
        r@ == civil_timestamp_text(secs as nat),
{
    let days = secs / 86400;
    let remaining = secs % 86400;
    let hours = remaining / 3600;
    let minutes = (remaining % 3600) / 60;
    let seconds = remaining % 60;
    let mut year: i64 = 1970;
    let mut remaining_days: i64 = days as i64;
    proof {
        lemma_year_and_day_bounds(days as int, 1970);
    }
    loop
        invariant
            1970 <= year,
            (year - 1970) * 365 <= days - remaining_days,
            0 <= remaining_days <= days,
            days <= u64::MAX / 86400,
            year_and_day(days as int, 1970) == year_and_day(remaining_days as int, year as int),
        ensures
            1970 <= year <= 1970 + days,
            0 <= remaining_days < days_in_year(year as int),
            year_and_day(days as int, 1970) == (year as int, remaining_days as int),
        decreases remaining_days,
    {
        let days_in_year: i64 = if is_leap_year(year) {
            366
        } else {
            365
        };
        if remaining_days < days_in_year {
            break;
        }
        remaining_days = remaining_days - days_in_year;
        year = year + 1;
    }
    let leap = is_leap_year(year);
    let mut month: i64 = 1;
    loop
        invariant
            1 <= month <= 13,
            0 <= remaining_days,
            year >= 1970,
            leap == is_leap(year as int),
            remaining_days <= 366,
            month_and_day(year_and_day(days as int, 1970).1, year as int, 1) == month_and_day(
                remaining_days as int,
                year as int,
                month as int,
            ),
        ensures
            month_and_day(year_and_day(days as int, 1970).1, year as int, 1) == (
                month as int,
                remaining_days as int,
            ),
            0 <= remaining_days <= 366,
            1 <= month <= 13,
        decreases 13 - month,
    {
        if month > 12 {
            break;
        }
        let dim: i64 = if month == 2 {
            if leap {
                29
            } else {
                28
            }
        } else if month == 4 || month == 6 || month == 9 || month == 11 {
            30
        } else {
            31
        };
        if remaining_days < dim {
            break;
        }
        remaining_days = remaining_days - dim;
        month = month + 1;
    }
    let day = remaining_days + 1;
    let mut out: Vec<char> = Vec::new();
    push_field(&mut out, year as u64, 4, Some('-'));
    push_field(&mut out, month as u64, 2, Some('-'));
    push_field(&mut out, day as u64, 2, Some(' '));
    push_field(&mut out, hours, 2, Some(':'));
    push_field(&mut out, minutes, 2, Some(':'));
    push_field(&mut out, seconds, 2, None);
    assert(out@ =~= civil_timestamp_text(secs as nat));
    string_from_chars(&out)
}

/// Seconds since 1970-01-01 00:00:00 UTC by the system clock
/// (`SystemTime::now` measured from `UNIX_EPOCH`), 0 for a clock set before
/// the epoch. Nothing is promised of the value: it is the current time.
#[verifier::external_body]
fn unix_time_secs() -> u64 {
    match std::time::SystemTime::now().duration_since(std::time::UNIX_EPOCH) {
        Ok(d) => d.as_secs(),
        Err(_) => 0,
    }
}

/// The current UTC time as `YYYY-MM-DD HH:MM:SS`.
pub fn chrono_lite_timestamp() -> (r: String)
    ensures
        exists|t: u64| r@ == civil_timestamp_text(t as nat),
{
    let t = unix_time_secs();
    timestamp_from_unix_secs(t)
}

} // verus!
