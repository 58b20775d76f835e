//! An instant on the time line, held as a civil date and a time of day in
//! UTC, and what chrono computes on such instants.
//!
//! The steps by days and months and the count of days between two
//! instants are chrono's. Each of these functions of chrono stands here
//! behind a function of its own, whose contract is not proved: it states
//! over the model what the call gives. An instant
//! holds what chrono's `DateTime<Utc>` holds, a leap second too, and
//! instants are ordered as chrono orders them.

use crate::calendar::{
    day_number, month_length, MAX_YEAR, MIN_YEAR, NANOS_PER_SECOND, SECONDS_PER_DAY,
    UNIX_EPOCH_DAY,
};
use crate::civil::{
    civil, first_day, last_day, lemma_day_bounds, lemma_day_in_range, lemma_order_by_fields,
    whole_days, Civil,
};
use chrono::{Datelike, Days, Months, NaiveDate, NaiveTime, Timelike};
use vstd::prelude::*;

verus! {

/// A date and time of day in UTC, between the years `MIN_YEAR` and
/// `MAX_YEAR`, to the nanosecond.
#[derive(Clone, Copy, Debug, PartialEq, Eq)]
pub struct Instant {
    year: i32,
    month: u32,
    day: u32,
    second: u32,
    nano: u32,
}

impl View for Instant {
    type V = Civil;

    closed spec fn view(&self) -> Civil {
        Civil {
            year: self.year as int,
            month: self.month as int,
            day: self.day as int,
            second: self.second as int,
            nano: self.nano as int,
        }
    }
}

/// The model of an instant that may be missing.
pub open spec fn view_of(t: Option<Instant>) -> Option<Civil> {
    match t {
        Some(t) => Some(t@),
        None => None,
    }
}

impl Instant {
    /// Every instant holds a date that exists and a time of its day.
    #[verifier::type_invariant]
    pub open spec fn well_formed(self) -> bool {
        self@.wf()
    }

    /// The instant with these fields, where they name one: the date must
    /// exist, `second` is the second of the day and `nano` the nanosecond of
    /// that second. An instant within a leap second has the second before
    /// it, the last of a minute, and a nanosecond from 1,000,000,000 on.
    pub fn new(year: i32, month: u32, day: u32, second: u32, nano: u32) -> (r: Option<Instant>)
        ensures
            r matches Some(t) ==> t@ == civil(
                year as int,
                month as int,
                day as int,
                second as int,
                nano as int,
            ),
            r is Some <==> civil(
                year as int,
                month as int,
                day as int,
                second as int,
                nano as int,
            ).wf(),
    {
        if year < MIN_YEAR || year > MAX_YEAR || month < 1 || month > 12 {
            return None;
        }
        if day < 1 || day > month_length(year, month) {
            return None;
        }
        if second >= SECONDS_PER_DAY || nano >= 2 * NANOS_PER_SECOND {
            return None;
        }
        if nano >= NANOS_PER_SECOND && second % 60 != 59 {
            return None;
        }
        Some(Instant { year, month, day, second, nano })
    }

    /// The year; years before year 1 are 0 and the negative ones.
    pub fn year(&self) -> (r: i32)
        ensures
            r == self@.year,
    {
        self.year
    }

    /// The month, from 1 to 12.
    pub fn month(&self) -> (r: u32)
        ensures
            r == self@.month,
    {
        self.month
    }

    /// The day of the month, from 1.
    pub fn day(&self) -> (r: u32)
        ensures
            r == self@.day,
    {
        self.day
    }

    /// The second of the day, from 0 to 86399.
    pub fn second_of_day(&self) -> (r: u32)
        ensures
            r == self@.second,
    {
        self.second
    }

    /// The nanosecond of the second; from 1,000,000,000 on within a leap
    /// second.
    pub fn nanosecond(&self) -> (r: u32)
        ensures
            r == self@.nano,
    {
        self.nano
    }

    /// The number of the day, with January 1 of year 1 as day 1.
    pub fn day_number(&self) -> (r: i64)
        ensures
            r == self@.day_number(),
    {
        proof {
            use_type_invariant(self);
        }
        day_number(self.year, self.month, self.day)
    }

    /// Whole seconds since 1970-01-01T00:00:00Z, negative before it; within
    /// a leap second, those of the second that it follows.
    pub fn timestamp(&self) -> (r: i64)
        ensures
            r == (self@.day_number() - UNIX_EPOCH_DAY) * SECONDS_PER_DAY + self@.second,
            r * NANOS_PER_SECOND + self@.nano == self@.nanos(),
    {
        proof {
            use_type_invariant(self);
            lemma_day_in_range(self@);
            lemma_day_bounds();
            let d = self@.day_number() - UNIX_EPOCH_DAY;
            assert((d * 86400 + self@.second) * 1000000000 + self@.nano == d * (86400int
                * 1000000000) + (self@.second * 1000000000 + self@.nano)) by (nonlinear_arith);
        }
        (self.day_number() - UNIX_EPOCH_DAY) * (SECONDS_PER_DAY as i64) + self.second as i64
    }

    /// The day of the week, from 0 for Monday to 6 for Sunday.
    pub fn weekday(&self) -> (r: u32)
        ensures
            r == self@.weekday(),
    {
        proof {
            use_type_invariant(self);
            lemma_day_in_range(self@);
            lemma_day_bounds();
        }
        // The day numbers are moved above 0 by a multiple of seven.
        let shifted: i64 = self.day_number() + 6 + 700000000;
        (shifted % 7) as u32
    }

    /// The same month, day and time of day in another year; nothing where
    /// that year has no such day (February 29) or is not supported.
    pub fn with_year(&self, year: i32) -> (r: Option<Instant>)
        ensures
            view_of(r) == self@.with_year(year as int),
    {
        proof {
            use_type_invariant(self);
        }
        Instant::new(year, self.month, self.day, self.second, self.nano)
    }

    /// Whether this instant comes strictly before `other`, by year, month,
    /// day, second and nanosecond, in that rank.
    pub fn is_before(&self, other: &Instant) -> (r: bool)
        ensures
            r == self@.fields_before(other@),
            r == (self@.position() < other@.position()),
    {
        proof {
            use_type_invariant(self);
            use_type_invariant(other);
            lemma_order_by_fields(self@, other@);
        }
        if self.year != other.year {
            self.year < other.year
        } else if self.month != other.month {
            self.month < other.month
        } else if self.day != other.day {
            self.day < other.day
        } else if self.second != other.second {
            self.second < other.second
        } else {
            self.nano < other.nano
        }
    }

    /// Whether the two are the same instant.
    pub fn is_same(&self, other: &Instant) -> (r: bool)
        ensures
            r == (self@ == other@),
            r == (self@.position() == other@.position()),
    {
        proof {
            use_type_invariant(self);
            use_type_invariant(other);
            lemma_order_by_fields(self@, other@);
        }
        self.year == other.year && self.month == other.month && self.day == other.day
            && self.second == other.second && self.nano == other.nano
    }
}

/// Calls `chrono::DateTime::<Utc>::checked_add_months` on the date and
/// time that `t` holds. Believed of chrono, not proved: it advances the
/// month by `months`, keeps the day or, where the month reached is shorter,
/// takes its last day, keeps the time of day, and gives nothing exactly
/// where the year reached lies outside chrono's years.
#[verifier::external_body]
pub(crate) fn chrono_add_months(t: &Instant, months: u32) -> (r: Option<Instant>)
    requires
        t@.wf(),
    ensures
        view_of(r) == t@.plus_months(months as int),
{
    let date = NaiveDate::from_ymd_opt(t.year, t.month, t.day)?;
    let time = NaiveTime::from_num_seconds_from_midnight_opt(t.second, t.nano)?;
    let moved = date.and_time(time).and_utc().checked_add_months(Months::new(months))?;
    Some(Instant {
        year: moved.year(),
        month: moved.month(),
        day: moved.day(),
        second: moved.num_seconds_from_midnight(),
        nano: moved.nanosecond(),
    })
}

/// Calls `chrono::DateTime::<Utc>::checked_add_days` on the date and time
/// that `t` holds. Believed of chrono, not proved: for no days it gives the
/// instant itself; else it gives the date that lies `days` days later in
/// the proleptic Gregorian calendar, at the same time of day, and nothing
/// exactly where that date lies after chrono's last day, December 31 of
/// `MAX_YEAR`, or is that day and the time lies after chrono's last
/// instant, 23:59:59.999999999 of it, which is so within the leap second
/// after it.
#[verifier::external_body]
pub(crate) fn chrono_add_days(t: &Instant, days: u32) -> (r: Option<Instant>)
    requires
        t@.wf(),
    ensures
        match r {
            Some(u) => u@.wf() && u@.day_number() == t@.day_number() + days && u@.second
                == t@.second && u@.nano == t@.nano && (days > 0 ==> !u@.after_last_step()),
            None => days > 0 && (t@.day_number() + days > last_day() || (t@.day_number() + days
                == last_day() && t@.second == SECONDS_PER_DAY - 1 && t@.in_leap_second())),
        },
{
    let date = NaiveDate::from_ymd_opt(t.year, t.month, t.day)?;
    let time = NaiveTime::from_num_seconds_from_midnight_opt(t.second, t.nano)?;
    let moved = date.and_time(time).and_utc().checked_add_days(Days::new(days as u64))?;
    Some(Instant {
        year: moved.year(),
        month: moved.month(),
        day: moved.day(),
        second: moved.num_seconds_from_midnight(),
        nano: moved.nanosecond(),
    })
}

/// Calls `chrono::DateTime::<Utc>::checked_sub_days` on the date and time
/// that `t` holds. Believed of chrono, not proved: it gives the date that
/// lies `days` days earlier in the proleptic Gregorian calendar, at the same
/// time of day, and nothing exactly where that date lies before chrono's
/// first day, January 1 of `MIN_YEAR`.
#[verifier::external_body]
pub(crate) fn chrono_sub_days(t: &Instant, days: u32) -> (r: Option<Instant>)
    requires
        t@.wf(),
    ensures
        match r {
            Some(u) => u@.wf() && u@.day_number() == t@.day_number() - days && u@.second
                == t@.second && u@.nano == t@.nano,
            None => t@.day_number() - days < first_day(),
        },
{
    let date = NaiveDate::from_ymd_opt(t.year, t.month, t.day)?;
    let time = NaiveTime::from_num_seconds_from_midnight_opt(t.second, t.nano)?;
    let moved = date.and_time(time).and_utc().checked_sub_days(Days::new(days as u64))?;
    Some(Instant {
        year: moved.year(),
        month: moved.month(),
        day: moved.day(),
        second: moved.num_seconds_from_midnight(),
        nano: moved.nanosecond(),
    })
}

/// Calls `chrono::DateTime::signed_duration_since` on the two instants
/// and `chrono::TimeDelta::num_days` on what it gives. Believed of chrono,
/// not proved: the time from `from` to `to` is counted with 86,400 seconds
/// to the day; a leap second is counted where one of the two lies within
/// it and the other has, in its own day, a second on the far side of it;
/// and the result is that time in whole days, rounded toward zero.
#[verifier::external_body]
pub(crate) fn chrono_num_days(from: &Instant, to: &Instant) -> (r: i64)
    requires
        from@.wf(),
        to@.wf(),
    ensures
        r == whole_days(from@.nanos_until(to@)),
{
    let start = NaiveDate::from_ymd_opt(from.year, from.month, from.day).unwrap().and_time(
        NaiveTime::from_num_seconds_from_midnight_opt(from.second, from.nano).unwrap(),
    );
    let end = NaiveDate::from_ymd_opt(to.year, to.month, to.day).unwrap().and_time(
        NaiveTime::from_num_seconds_from_midnight_opt(to.second, to.nano).unwrap(),
    );
    end.and_utc().signed_duration_since(start.and_utc()).num_days()
}

} // verus!
