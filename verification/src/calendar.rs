//! The proleptic Gregorian calendar as a mathematical model: leap years,
//! month lengths, and the number of each day counted from January 1 of
//! year 1, which is day 1.

use vstd::prelude::*;

verus! {

/// The first year in which an instant can lie.
pub const MIN_YEAR: i32 = -262143;

/// The last year in which an instant can lie.
pub const MAX_YEAR: i32 = 262142;

/// The number of the day January 1, 1970.
pub const UNIX_EPOCH_DAY: i64 = 719163;

pub const SECONDS_PER_DAY: u32 = 86400;

pub const NANOS_PER_SECOND: u32 = 1000000000;

pub open spec fn is_leap_year(year: int) -> bool {
    year % 4 == 0 && (year % 100 != 0 || year % 400 == 0)
}

pub open spec fn days_in_year(year: int) -> int {
    if is_leap_year(year) {
        366
    } else {
        365
    }
}

/// The length of a month; `month` is counted from 1.
pub open spec fn days_in_month(year: int, month: int) -> int {
    if month == 2 {
        if is_leap_year(year) {
            29
        } else {
            28
        }
    } else if month == 4 || month == 6 || month == 9 || month == 11 {
        30
    } else {
        31
    }
}

/// The days of `year` that lie before the first day of `month`.
pub open spec fn days_before_month(year: int, month: int) -> int
    decreases month,
{
    if month <= 1 {
        0
    } else {
        days_before_month(year, month - 1) + days_in_month(year, month - 1)
    }
}

/// The days from January 1 of year 1 up to, and without, January 1 of `year`.
#[verifier::opaque]
pub open spec fn days_before_year(year: int) -> int {
    let y = year - 1;
    365 * y + y / 4 - y / 100 + y / 400
}

/// The number of a day, with January 1 of year 1 as day 1.
pub open spec fn days_from_ce(year: int, month: int, day: int) -> int {
    days_before_year(year) + days_before_month(year, month) + day
}

/// Whether year, month and day name a day of the calendar within the
/// supported years.
pub open spec fn valid_date(year: int, month: int, day: int) -> bool {
    &&& MIN_YEAR <= year <= MAX_YEAR
    &&& 1 <= month <= 12
    &&& 1 <= day <= days_in_month(year, month)
}

/// Whether the first date comes before the second, comparing year, then
/// month, then day.
pub open spec fn date_before(y1: int, m1: int, d1: int, y2: int, m2: int, d2: int) -> bool {
    y1 < y2 || (y1 == y2 && (m1 < m2 || (m1 == m2 && d1 < d2)))
}

pub fn leap_year(year: i32) -> (r: bool)
    ensures
        r == is_leap_year(year as int),
{
    year % 4 == 0 && (year % 100 != 0 || year % 400 == 0)
}

/// The length of a month; `month` is counted from 1.
pub fn month_length(year: i32, month: u32) -> (r: u32)
    ensures
        r == days_in_month(year as int, month as int),
{
    if month == 2 {
        if leap_year(year) {
            29
        } else {
            28
        }
    } else if month == 4 || month == 6 || month == 9 || month == 11 {
        30
    } else {
        31
    }
}

/// The days of `year` that lie before the first day of `month`, for a
/// month from 1 to 12.
pub fn days_before(year: i32, month: u32) -> (r: u32)
    requires
        1 <= month <= 12,
    ensures
        r == days_before_month(year as int, month as int),
{
    proof {
        lemma_days_before_month(year as int, month as int);
    }
    let leap: u32 = if month > 2 && leap_year(year) {
        1
    } else {
        0
    };
    let common: u32 = match month {
        1 => 0,
        2 => 31,
        3 => 59,
        4 => 90,
        5 => 120,
        6 => 151,
        7 => 181,
        8 => 212,
        9 => 243,
        10 => 273,
        11 => 304,
        _ => 334,
    };
    common + leap
}

/// The number of a day of the supported years, with January 1 of year 1
/// as day 1.
pub fn day_number(year: i32, month: u32, day: u32) -> (r: i64)
    requires
        valid_date(year as int, month as int, day as int),
    ensures
        r == days_from_ce(year as int, month as int, day as int),
{
    proof {
        reveal(days_before_year);
    }
    // Years are counted from one that lies before all of them and is a
    // multiple of 400, so that every division is one of natural numbers.
    let y: i64 = year as i64 - 1;
    let shifted: i64 = y + 262400;
    let leaps: i64 = (shifted / 4 - 65600) - (shifted / 100 - 2624) + (shifted / 400 - 656);
    365 * y + leaps + days_before(year, month) as i64 + day as i64
}

/// The days before each month, written out.
pub proof fn lemma_days_before_month(year: int, month: int)
    requires
        1 <= month <= 12,
    ensures
        days_before_month(year, month) == (if month == 1 {
            0int
        } else if month == 2 {
            31
        } else {
            let leap: int = if is_leap_year(year) { 1 } else { 0 };
            leap + (if month == 3 {
                59int
            } else if month == 4 {
                90
            } else if month == 5 {
                120
            } else if month == 6 {
                151
            } else if month == 7 {
                181
            } else if month == 8 {
                212
            } else if month == 9 {
                243
            } else if month == 10 {
                273
            } else if month == 11 {
                304
            } else {
                334
            })
        }),
        0 <= days_before_month(year, month),
        days_before_month(year, month) + days_in_month(year, month) <= days_in_year(year),
{
    reveal_with_fuel(days_before_month, 13);
}

/// A year begins when the one before it has run its length.
pub proof fn lemma_days_before_next_year(year: int)
    ensures
        days_before_year(year + 1) == days_before_year(year) + days_in_year(year),
{
    reveal(days_before_year);
    let y = year - 1;
    assert((y + 1) / 4 - y / 4 == if year % 4 == 0 { 1int } else { 0 });
    assert((y + 1) / 100 - y / 100 == if year % 100 == 0 { 1int } else { 0 });
    assert((y + 1) / 400 - y / 400 == if year % 400 == 0 { 1int } else { 0 });
    assert(year % 400 == 0 ==> year % 100 == 0);
    assert(year % 100 == 0 ==> year % 4 == 0);
}

/// Between the beginnings of two years lie at least 365 days for each
/// year that separates them, and at most 366.
pub proof fn lemma_days_before_year_grows(from: int, to: int)
    requires
        from <= to,
    ensures
        days_before_year(from) + 365 * (to - from) <= days_before_year(to),
        days_before_year(to) <= days_before_year(from) + 366 * (to - from),
    decreases to - from,
{
    if from < to {
        lemma_days_before_year_grows(from, to - 1);
        lemma_days_before_next_year(to - 1);
    }
}

/// Days are numbered in the order of their dates: an earlier date has a
/// smaller number, and one number names one date.
pub proof fn lemma_date_order(y1: int, m1: int, d1: int, y2: int, m2: int, d2: int)
    requires
        1 <= m1 <= 12,
        1 <= d1 <= days_in_month(y1, m1),
        1 <= m2 <= 12,
        1 <= d2 <= days_in_month(y2, m2),
    ensures
        date_before(y1, m1, d1, y2, m2, d2) <==> days_from_ce(y1, m1, d1) < days_from_ce(
            y2,
            m2,
            d2,
        ),
        (y1 == y2 && m1 == m2 && d1 == d2) <==> days_from_ce(y1, m1, d1) == days_from_ce(
            y2,
            m2,
            d2,
        ),
{
    lemma_days_before_month(y1, m1);
    lemma_days_before_month(y2, m2);
    if y1 < y2 {
        lemma_days_before_year_grows(y1 + 1, y2);
        lemma_days_before_next_year(y1);
    } else if y2 < y1 {
        lemma_days_before_year_grows(y2 + 1, y1);
        lemma_days_before_next_year(y2);
    }
}

/// The same month and day in a later year lie at least 365 days later.
pub proof fn lemma_same_date_in_later_year(from: int, to: int, month: int, day: int)
    requires
        from < to,
        1 <= month <= 12,
    ensures
        days_from_ce(from, month, day) + 365 <= days_from_ce(to, month, day),
{
    lemma_days_before_next_year(from);
    lemma_days_before_year_grows(from + 1, to);
    lemma_days_before_month(from, month);
    lemma_days_before_month(to, month);
}

} // verus!
