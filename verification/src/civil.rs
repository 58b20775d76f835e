//! The model of an instant: a civil date and a time of day in UTC, as
//! mathematical integers. Instants are ordered by their fields: year, month,
//! day, second and nanosecond, in that rank.
//!
//! The last second of a minute may be followed by a leap second. An instant
//! within a leap second has the second that the leap second follows and a
//! nanosecond from 1,000,000,000 on.

use crate::calendar::{
    date_before, days_before_year, days_from_ce, days_in_month, lemma_date_order,
    lemma_days_before_month, lemma_days_before_next_year, lemma_days_before_year_grows,
    valid_date, MAX_YEAR, MIN_YEAR, NANOS_PER_SECOND, SECONDS_PER_DAY, UNIX_EPOCH_DAY,
};
use vstd::prelude::*;

verus! {

/// The model of an instant: a date of the calendar, the second of that day
/// and the nanosecond of that second.
pub struct Civil {
    pub year: int,
    pub month: int,
    pub day: int,
    pub second: int,
    pub nano: int,
}

/// The instant with these fields.
pub open spec fn civil(year: int, month: int, day: int, second: int, nano: int) -> Civil {
    Civil { year, month, day, second, nano }
}

/// The nanoseconds of a day without a leap second.
pub open spec fn nanos_per_day() -> int {
    86400int * 1000000000
}

/// The places that the order of instants has for one day: each second has
/// two thousand million, its own nanoseconds and those of a leap second
/// that may follow it.
pub open spec fn positions_per_day() -> int {
    86400int * 2000000000
}

/// The number of the first supported day.
pub open spec fn first_day() -> int {
    days_from_ce(MIN_YEAR as int, 1, 1)
}

/// The number of the last supported day.
pub open spec fn last_day() -> int {
    days_from_ce(MAX_YEAR as int, 12, 31)
}

/// Whole days in a span of nanoseconds, rounded toward zero.
pub open spec fn whole_days(nanos: int) -> int {
    if nanos >= 0 {
        nanos / nanos_per_day()
    } else {
        -((-nanos) / nanos_per_day())
    }
}

impl Civil {
    /// The date exists, within the supported years, and the time of day is
    /// one of that day; a nanosecond from 1,000,000,000 on stands only after
    /// the last second of a minute.
    pub open spec fn wf(self) -> bool {
        &&& valid_date(self.year, self.month, self.day)
        &&& 0 <= self.second < SECONDS_PER_DAY
        &&& 0 <= self.nano < 2 * NANOS_PER_SECOND
        &&& self.nano >= NANOS_PER_SECOND ==> self.second % 60 == 59
    }

    /// Whether the instant lies after the last instant to which chrono
    /// steps by days: within the leap second that ends the last supported
    /// day.
    pub open spec fn after_last_step(self) -> bool {
        self.day_number() == last_day() && self.second == SECONDS_PER_DAY - 1
            && self.in_leap_second()
    }

    /// Whether the instant lies within a leap second.
    pub open spec fn in_leap_second(self) -> bool {
        self.nano >= NANOS_PER_SECOND
    }

    /// The number of the day, with January 1 of year 1 as day 1.
    pub open spec fn day_number(self) -> int {
        days_from_ce(self.year, self.month, self.day)
    }

    /// The place of the instant in the order of instants: the later of two
    /// instants has the larger number. The number counts the days, then the
    /// seconds of the day, then the nanoseconds, as the fields rank.
    pub open spec fn position(self) -> int {
        self.day_number() * positions_per_day() + self.second * 2000000000 + self.nano
    }

    /// Nanoseconds since 1970-01-01T00:00:00Z, negative before it, with
    /// 86,400 seconds to every day. Within a leap second the count runs on
    /// beyond the second that the leap second follows.
    pub open spec fn nanos(self) -> int {
        (self.day_number() - UNIX_EPOCH_DAY) * nanos_per_day() + self.second * NANOS_PER_SECOND
            + self.nano
    }

    /// The nanoseconds from this instant to `to`, negative where `to` is the
    /// earlier. Days count 86,400 seconds each. A leap second is counted
    /// only where one of the two instants lies within it, and the other
    /// stands, by its second of the day, on the far side of it.
    pub open spec fn nanos_until(self, to: Civil) -> int {
        let leap: int = if to.second > self.second && self.in_leap_second() {
            1
        } else if to.second < self.second && to.in_leap_second() {
            -1
        } else {
            0
        };
        ((to.day_number() - self.day_number()) * 86400 + (to.second - self.second) + leap)
            * NANOS_PER_SECOND + (to.nano - self.nano)
    }

    /// The day of the week, from 0 for Monday to 6 for Sunday. Day 1 of the
    /// calendar is a Monday.
    pub open spec fn weekday(self) -> int {
        (self.day_number() + 6) % 7
    }

    /// The same month, day and time of day in another year. There is none
    /// where that year has no such day (February 29), or is not supported.
    pub open spec fn with_year(self, year: int) -> Option<Civil> {
        if MIN_YEAR <= year <= MAX_YEAR && self.day <= days_in_month(year, self.month) {
            Some(Civil { year, ..self })
        } else {
            None
        }
    }

    /// The same day and time of day `months` months later; where the month
    /// reached is too short for the day, its last day. There is none beyond
    /// the supported years.
    pub open spec fn plus_months(self, months: int) -> Option<Civil> {
        let index = self.year * 12 + (self.month - 1) + months;
        let year = index / 12;
        let month = index % 12 + 1;
        let last = days_in_month(year, month);
        if MIN_YEAR <= year <= MAX_YEAR {
            Some(Civil { year, month, day: if self.day <= last { self.day } else { last }, ..self })
        } else {
            None
        }
    }

    /// This time of day on the day with the given number.
    pub open spec fn on_day(self, number: int) -> Civil {
        choose|c: Civil|
            c.wf() && c.day_number() == number && c.second == self.second && c.nano == self.nano
    }

    /// The same time of day `days` days later, or earlier for a negative
    /// count. There is none beyond the supported years.
    pub open spec fn plus_days(self, days: int) -> Option<Civil> {
        let number = self.day_number() + days;
        if first_day() <= number <= last_day() {
            Some(self.on_day(number))
        } else {
            None
        }
    }

    /// The order of year, month, day, second and nanosecond, in that rank.
    pub open spec fn fields_before(self, other: Civil) -> bool {
        ||| date_before(self.year, self.month, self.day, other.year, other.month, other.day)
        ||| (self.year == other.year && self.month == other.month && self.day == other.day && (
        self.second < other.second || (self.second == other.second && self.nano < other.nano)))
    }
}

/// An earlier instant is one whose fields come first; two instants at the
/// same place have the same fields.
pub proof fn lemma_order_by_fields(a: Civil, b: Civil)
    requires
        a.wf(),
        b.wf(),
    ensures
        a.fields_before(b) <==> a.position() < b.position(),
        a == b <==> a.position() == b.position(),
{
    lemma_date_order(a.year, a.month, a.day, b.year, b.month, b.day);
    let da = a.day_number();
    let db = b.day_number();
    let n = positions_per_day();
    let ta = a.second * 2000000000 + a.nano;
    let tb = b.second * 2000000000 + b.nano;
    assert(0 <= ta < n && 0 <= tb < n);
    if da < db {
        assert(da * n + n <= db * n) by (nonlinear_arith)
            requires
                da < db,
                n > 0,
        ;
    } else if db < da {
        assert(db * n + n <= da * n) by (nonlinear_arith)
            requires
                db < da,
                n > 0,
        ;
    }
}

/// From an instant to one that is not before it, chrono's count of the
/// time is never a whole day in the negative; where neither lies within a
/// leap second, it is the difference of their nanoseconds.
pub proof fn lemma_nanos_until(a: Civil, b: Civil)
    requires
        a.wf(),
        b.wf(),
    ensures
        a.position() <= b.position() ==> -1000000000 < a.nanos_until(b),
        a.position() <= b.position() ==> whole_days(a.nanos_until(b)) >= 0,
        !a.in_leap_second() && !b.in_leap_second() ==> a.nanos_until(b) == b.nanos() - a.nanos(),
        !a.in_leap_second() && !b.in_leap_second() && a.position() <= b.position()
            ==> whole_days(a.nanos_until(b)) == (b.nanos() - a.nanos()) / nanos_per_day(),
{
    lemma_order_by_fields(a, b);
    lemma_date_order(a.year, a.month, a.day, b.year, b.month, b.day);
    let days = b.day_number() - a.day_number();
    let e = a.nanos_until(b);
    assert((days * 86400) * 1000000000 == days * (86400int * 1000000000)) by (nonlinear_arith);
    assert(((b.day_number() - UNIX_EPOCH_DAY) - (a.day_number() - UNIX_EPOCH_DAY)) * (86400int
        * 1000000000) == (b.day_number() - UNIX_EPOCH_DAY) * (86400int * 1000000000) - (
    a.day_number() - UNIX_EPOCH_DAY) * (86400int * 1000000000)) by (nonlinear_arith);
    if a.position() <= b.position() {
        if days >= 1 {
            assert(days * (86400int * 1000000000) >= 86400int * 1000000000) by (nonlinear_arith)
                requires
                    days >= 1,
            ;
        }
        assert(-1000000000 < e);
        if e < 0 {
            assert(nanos_per_day() == 86400000000000);
            assert((-e) / 86400000000000 == 0);
        } else {
            assert(e / nanos_per_day() >= 0);
        }
    }
}

/// An instant that is not the later one does not lie on a later day.
pub proof fn lemma_day_order(a: Civil, b: Civil)
    requires
        a.wf(),
        b.wf(),
        a.position() <= b.position(),
    ensures
        a.day_number() <= b.day_number(),
{
    lemma_order_by_fields(a, b);
    lemma_date_order(a.year, a.month, a.day, b.year, b.month, b.day);
}

/// Every supported day number names a date.
pub proof fn lemma_day_exists(number: int) -> (date: (int, int, int))
    requires
        first_day() <= number <= last_day(),
    ensures
        valid_date(date.0, date.1, date.2),
        days_from_ce(date.0, date.1, date.2) == number,
    decreases number - first_day(),
{
    lemma_days_before_month(MIN_YEAR as int, 1);
    if number == first_day() {
        (MIN_YEAR as int, 1, 1)
    } else {
        let (y, m, d) = lemma_day_exists(number - 1);
        lemma_days_before_month(y, m);
        lemma_date_order(y, m, d, MAX_YEAR as int, 12, 31);
        if d < days_in_month(y, m) {
            (y, m, d + 1)
        } else if m < 12 {
            lemma_days_before_month(y, m + 1);
            (y, m + 1, 1)
        } else {
            lemma_days_before_month(y + 1, 1);
            lemma_days_before_next_year(y);
            (y + 1, 1, 1)
        }
    }
}

/// The first and the last supported day lie within a hundred million
/// days of day 0.
pub proof fn lemma_day_bounds()
    ensures
        -100000000 < first_day(),
        last_day() < 100000000,
{
    lemma_days_before_year_grows(MIN_YEAR as int, 1);
    lemma_days_before_year_grows(1, MAX_YEAR as int);
    lemma_days_before_month(MIN_YEAR as int, 1);
    lemma_days_before_month(MAX_YEAR as int, 12);
    assert(days_before_year(1) == 0) by {
        reveal(days_before_year);
    }
}

/// The days of the supported years are those from the first to the last.
pub proof fn lemma_day_in_range(c: Civil)
    requires
        c.wf(),
    ensures
        first_day() <= c.day_number() <= last_day(),
{
    lemma_date_order(MIN_YEAR as int, 1, 1, c.year, c.month, c.day);
    lemma_date_order(c.year, c.month, c.day, MAX_YEAR as int, 12, 31);
}

/// What `on_day` picks, where the day is supported.
pub proof fn lemma_on_day(c: Civil, number: int)
    requires
        c.wf(),
        first_day() <= number <= last_day(),
    ensures
        c.on_day(number).wf(),
        c.on_day(number).day_number() == number,
        c.on_day(number).second == c.second,
        c.on_day(number).nano == c.nano,
{
    let (y, m, d) = lemma_day_exists(number);
    let witness = Civil { year: y, month: m, day: d, second: c.second, nano: c.nano };
    assert(witness.wf() && witness.day_number() == number && witness.second == c.second
        && witness.nano == c.nano);
}

/// One day number and one time of day make one instant.
pub proof fn lemma_same_day_and_time(a: Civil, b: Civil)
    requires
        a.wf(),
        b.wf(),
        a.day_number() == b.day_number(),
        a.second == b.second,
        a.nano == b.nano,
    ensures
        a == b,
{
    lemma_date_order(a.year, a.month, a.day, b.year, b.month, b.day);
}

/// `plus_days` is the instant `days` days away at the same time of day.
pub proof fn lemma_plus_days(c: Civil, days: int, moved: Civil)
    requires
        c.wf(),
        moved.wf(),
        moved.day_number() == c.day_number() + days,
        moved.second == c.second,
        moved.nano == c.nano,
    ensures
        c.plus_days(days) == Some(moved),
        moved.position() == c.position() + days * positions_per_day(),
{
    lemma_day_in_range(moved);
    lemma_on_day(c, moved.day_number());
    lemma_same_day_and_time(c.on_day(moved.day_number()), moved);
    let n = positions_per_day();
    let d = c.day_number();
    assert((d + days) * n == d * n + days * n) by (nonlinear_arith);
}

/// What `plus_days` gives is an instant at the same time of day on the
/// day `days` days away.
pub proof fn lemma_plus_days_some(c: Civil, days: int)
    requires
        c.wf(),
        c.plus_days(days) is Some,
    ensures
        c.plus_days(days)->0.wf(),
        c.plus_days(days)->0.day_number() == c.day_number() + days,
        c.plus_days(days)->0.second == c.second,
        c.plus_days(days)->0.nano == c.nano,
        c.plus_days(days)->0.position() == c.position() + days * positions_per_day(),
{
    lemma_on_day(c, c.day_number() + days);
    lemma_plus_days(c, days, c.plus_days(days)->0);
}

/// What `plus_months` gives is an instant: a later one for a positive
/// count of months, an earlier one for a negative count.
pub proof fn lemma_plus_months_some(c: Civil, months: int)
    requires
        c.wf(),
        c.plus_months(months) is Some,
    ensures
        c.plus_months(months)->0.wf(),
        c.plus_months(months)->0.second == c.second,
        c.plus_months(months)->0.nano == c.nano,
        months > 0 ==> c.plus_months(months)->0.position() > c.position(),
        months > 0 ==> c.plus_months(months)->0.day_number() > c.day_number(),
        months < 0 ==> c.plus_months(months)->0.position() < c.position(),
{
    let moved = c.plus_months(months)->0;
    assert(moved.year * 12 + (moved.month - 1) == c.year * 12 + (c.month - 1) + months);
    if months > 0 {
        assert(date_before(c.year, c.month, c.day, moved.year, moved.month, moved.day));
        lemma_order_by_fields(c, moved);
        lemma_date_order(c.year, c.month, c.day, moved.year, moved.month, moved.day);
    } else if months < 0 {
        assert(date_before(moved.year, moved.month, moved.day, c.year, c.month, c.day));
        lemma_order_by_fields(moved, c);
    }
}

/// Year and month follow from the count of months since year 0.
pub proof fn lemma_month_index(y1: int, m1: int, y2: int, m2: int)
    requires
        1 <= m1 <= 12,
        1 <= m2 <= 12,
        y1 * 12 + m1 == y2 * 12 + m2,
    ensures
        y1 == y2,
        m1 == m2,
{
}

} // verus!
