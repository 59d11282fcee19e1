use crate::error::Error;
use crate::time::Time;
use vstd::prelude::*;

verus! {

/// A year is a leap year in the proleptic Gregorian calendar exactly when it
/// is divisible by 4 but not by 100, or divisible by 400.
pub open spec fn spec_is_leap_year(year: int) -> bool {
    (year % 4 == 0 && year % 100 != 0) || year % 400 == 0
}

/// The number of days in `month` of `year`.
pub open spec fn spec_days_in_month(year: int, month: int) -> int {
    if month == 2 {
        if spec_is_leap_year(year) {
            29
        } else {
            28
        }
    } else if month == 4 || month == 6 || month == 9 || month == 11 {
        30
    } else {
        31
    }
}

/// Days in the proleptic Gregorian calendar strictly before January 1 of
/// `year` (counting from year 1).
pub open spec fn spec_days_before_year_ad(year: int) -> int {
    365 * (year - 1) + (year - 1) / 4 - (year - 1) / 100 + (year - 1) / 400
}

/// Days in `year` strictly before the first day of `month`.
pub open spec fn spec_days_before_month_of_year(year: int, month: int) -> int {
    let base: int = if month == 1 {
        0
    } else if month == 2 {
        31
    } else if month == 3 {
        59
    } else if month == 4 {
        90
    } else if month == 5 {
        120
    } else if month == 6 {
        151
    } else if month == 7 {
        181
    } else if month == 8 {
        212
    } else if month == 9 {
        243
    } else if month == 10 {
        273
    } else if month == 11 {
        304
    } else {
        334
    };
    if month > 2 && spec_is_leap_year(year) {
        base + 1
    } else {
        base
    }
}

/// Days in the proleptic Gregorian calendar strictly before January 1, 1970.
pub const DAYS_BEFORE_UNIX_EPOCH_AD: u64 = 719162;

/// Seconds since the Unix epoch of the instant `year`-`month`-`day`
/// `hour`:`minute`:`second` UTC, for instants at or after the epoch.
pub open spec fn spec_seconds_from_ymdhms_utc(
    year: int,
    month: int,
    day: int,
    hour: int,
    minute: int,
    second: int,
) -> int {
    let days = spec_days_before_year_ad(year) - DAYS_BEFORE_UNIX_EPOCH_AD
        + spec_days_before_month_of_year(year, month) + (day - 1);
    days * 86400 + hour * 3600 + minute * 60 + second
}

/// Integer division by a positive divisor is monotonic in the dividend, and
/// one more in the dividend raises the quotient by at most one.
proof fn lemma_div_steps(x: int, d: int)
    requires
        d >= 1,
    ensures
        x / d <= (x + 1) / d,
        (x + 1) / d <= x / d + 1,
{
    assert(x / d <= (x + 1) / d && (x + 1) / d <= x / d + 1) by (nonlinear_arith)
        requires
            d >= 1,
    ;
}

/// The day count before a year never goes down as the year goes up.
proof fn lemma_days_before_year_monotonic(y1: int, y2: int)
    requires
        1 <= y1 <= y2,
    ensures
        spec_days_before_year_ad(y1) <= spec_days_before_year_ad(y2),
    decreases y2 - y1,
{
    if y1 < y2 {
        lemma_days_before_year_monotonic(y1, y2 - 1);
        lemma_div_steps(y2 - 3, 4);
        lemma_div_steps(y2 - 3, 100);
        lemma_div_steps(y2 - 3, 400);
        assert((y2 - 2) / 4 <= (y2 - 3 + 1) / 4);
        // Going from year y2 - 1 to year y2 adds 365 days plus at most one
        // leap-day correction in each division term; the lone negative term
        // subtracts at most one.
        assert(spec_days_before_year_ad(y2 - 1) <= spec_days_before_year_ad(y2));
    }
}

/// `spec_days_before_year_ad(1970)` evaluates to the epoch day count.
proof fn lemma_days_before_unix_epoch()
    ensures
        spec_days_before_year_ad(1970) == DAYS_BEFORE_UNIX_EPOCH_AD,
{
    assert(spec_days_before_year_ad(1970) == 365 * 1969int + 1969int / 4 - 1969int / 100
        + 1969int / 400);
}

/// Bounds used to show the second count fits comfortably in a `u64`.
proof fn lemma_days_before_year_bounds(year: int)
    requires
        1 <= year <= 9999,
    ensures
        0 <= spec_days_before_year_ad(year) <= 3653000,
{
    let a = year - 1;
    assert(0 <= a / 4 <= 2500 && 0 <= a / 100 <= 100 && 0 <= a / 400 <= 25 && a / 100 <= a / 4)
        by (nonlinear_arith)
        requires
            0 <= a <= 9998,
    ;
}

/// The number of days in `month` of `year`, leap years included.
pub fn days_in_month(year: u64, month: u64) -> (d: u64)
    requires
        1 <= month <= 12,
    ensures
        d == spec_days_in_month(year as int, month as int),
        28 <= d <= 31,
{
    match month {
        1 | 3 | 5 | 7 | 8 | 10 | 12 => 31,
        4 | 6 | 9 | 11 => 30,
        _ => {
            let leap = (year % 4 == 0 && year % 100 != 0) || year % 400 == 0;
            if leap {
                29
            } else {
                28
            }
        },
    }
}

/// Converts a validated year/month/day/hour/minute/second tuple in UTC into
/// a [`Time`]. Fails with [`Error::BadDerTime`] exactly when the composed
/// instant lies before the Unix epoch, the lower end of the supported range.
pub fn time_from_ymdhms_utc(
    year: u64,
    month: u64,
    day_of_month: u64,
    hours: u64,
    minutes: u64,
    seconds: u64,
) -> (res: Result<Time, Error>)
    requires
        year <= 9999,
        1 <= month <= 12,
        1 <= day_of_month <= spec_days_in_month(year as int, month as int),
        hours <= 23,
        minutes <= 59,
        seconds <= 59,
    ensures
        year < 1970 ==> res == Err::<Time, Error>(Error::BadDerTime),
        year >= 1970 ==> (res matches Ok(t) && t@ == spec_seconds_from_ymdhms_utc(
            year as int,
            month as int,
            day_of_month as int,
            hours as int,
            minutes as int,
            seconds as int,
        )),
{
    if year < 1970 {
        return Err(Error::BadDerTime);
    }
    let a = year - 1;
    proof {
        lemma_days_before_year_bounds(year as int);
        lemma_days_before_year_monotonic(1970, year as int);
        lemma_days_before_unix_epoch();
    }
    let days_before_year_ad = 365 * a + a / 4 + a / 400 - a / 100;
    assert(days_before_year_ad == spec_days_before_year_ad(year as int));
    let days_before_year = days_before_year_ad - DAYS_BEFORE_UNIX_EPOCH_AD;
    let leap = (year % 4 == 0 && year % 100 != 0) || year % 400 == 0;
    let non_leap_days_before_month: u64 = match month {
        1 => 0,
        2 => 31,
        3 => 59,
        4 => 90,
        5 => 120,
        6 => 151,
        7 => 181,
        8 => 212,
        9 => 243,
        10 => 273,
        11 => 304,
        _ => 334,
    };
    let days_before_month = if month > 2 && leap {
        non_leap_days_before_month + 1
    } else {
        non_leap_days_before_month
    };
    let days = days_before_year + days_before_month + (day_of_month - 1);
    let total = days * 86400 + hours * 3600 + minutes * 60 + seconds;
    Ok(Time::from_seconds_since_unix_epoch(total))
}

} // verus!
