//! What the commands decide before anything is stored: which dates they
//! accept, what a new payment holds, and what a refusal of the store means.

use crate::calendar::{valid_date, MAX_YEAR};
use crate::civil::{civil, Civil};
use crate::error::Error;
use crate::instant::Instant;
use crate::model::{Expense, NewExpense, NewPayment, Periodicity};
use crate::recurrence::{get_next_due_date_aux, next_due};
use chrono::{DateTime, Datelike, NaiveDate, Timelike};
use vstd::prelude::*;

verus! {

/// The code with which the store refuses a payment for an expense that it
/// does not hold (SQLite's extended code for a foreign key).
pub const FOREIGN_KEY_VIOLATION: i32 = 787;

/// The code with which the store refuses a second expense of one name
/// (SQLite's extended code for a unique column).
pub const UNIQUE_VIOLATION: i32 = 2067;

/// Year, month and day that `chrono::NaiveDate::parse_from_str` reads from
/// `text` under `format`; nothing where it reports an error.
pub uninterp spec fn parsed_date(text: Seq<char>, format: Seq<char>) -> Option<(i32, u32, u32)>;

/// Year, month, day, second of the day and nanosecond, in UTC, of the
/// instant that `chrono::DateTime::parse_from_rfc3339` reads from `text`;
/// nothing where it reports an error.
pub uninterp spec fn parsed_rfc3339(text: Seq<char>) -> Option<(i32, u32, u32, u32, u32)>;

/// `chrono::NaiveDate::parse_from_str`: the date that chrono reads from
/// `text` under `format`, handed on as year, month and day. Believed of
/// chrono, not proved: what it reads is a date that it can hold, one that
/// exists within its years.
#[verifier::external_body]
fn chrono_parse_date(text: &str, format: &str) -> (r: Option<(i32, u32, u32)>)
    ensures
        r == parsed_date(text@, format@),
        r matches Some(d) ==> valid_date(d.0 as int, d.1 as int, d.2 as int),
{
    let date = NaiveDate::parse_from_str(text, format).ok()?;
    Some((date.year(), date.month(), date.day()))
}

/// `chrono::DateTime::parse_from_rfc3339`: the instant that chrono reads
/// from `text`, taken to UTC and handed on as its fields. Believed of
/// chrono, not proved: what it reads is an instant that it can hold, with a
/// date that exists within its years, a second of that day, and a
/// nanosecond from 1,000,000,000 on, below 2,000,000,000, only where the
/// text names second 60, which chrono holds as a leap second after the
/// last second of the minute.
#[verifier::external_body]
fn chrono_parse_rfc3339(text: &str) -> (r: Option<(i32, u32, u32, u32, u32)>)
    ensures
        r == parsed_rfc3339(text@),
        r matches Some(f) ==> civil(f.0 as int, f.1 as int, f.2 as int, f.3 as int, f.4 as int).wf(),
{
    let at = DateTime::parse_from_rfc3339(text).ok()?.to_utc();
    Some((at.year(), at.month(), at.day(), at.num_seconds_from_midnight(), at.nanosecond()))
}

/// The reference date of a new expense, given what was read from the
/// text: a text that is no date is refused, and so is a day after the 28th
/// unless the expense is weekly, since not every month has such a day.
pub open spec fn reference_date_of(parsed: Option<(i32, u32, u32)>, period: Periodicity) -> Result<
    (i32, u32, u32),
    Error,
> {
    match parsed {
        None => Err(Error::InvalidDate),
        Some(date) => if date.2 > 28 && period != Periodicity::Weekly {
            Err(Error::DayNotInEveryMonth)
        } else {
            Ok(date)
        },
    }
}

/// The instant of a payment, given what was read from the text: the
/// instant with those fields. Fields that name no instant are refused; no
/// text that chrono reads gives such fields.
pub open spec fn paid_instant_of(parsed: Option<(i32, u32, u32, u32, u32)>) -> Result<
    Civil,
    Error,
> {
    match parsed {
        None => Err(Error::InvalidDate),
        Some(f) => {
            let c = civil(f.0 as int, f.1 as int, f.2 as int, f.3 as int, f.4 as int);
            if c.wf() {
                Ok(c)
            } else {
                Err(Error::InvalidDate)
            }
        },
    }
}

/// The model of an instant or an error.
pub open spec fn view_of_result(r: Result<Instant, Error>) -> Result<Civil, Error> {
    match r {
        Ok(t) => Ok(t@),
        Err(e) => Err(e),
    }
}

/// Applies the rule on reference dates to what was read from the text.
pub fn check_reference_date(parsed: Option<(i32, u32, u32)>, period: Periodicity) -> (r: Result<
    (i32, u32, u32),
    Error,
>)
    ensures
        r == reference_date_of(parsed, period),
{
    match parsed {
        None => Err(Error::InvalidDate),
        Some(date) => {
            let weekly = match period {
                Periodicity::Weekly => true,
                _ => false,
            };
            if date.2 > 28 && !weekly {
                Err(Error::DayNotInEveryMonth)
            } else {
                Ok(date)
            }
        },
    }
}

/// The reference date of a new expense, read from a text such as
/// `1996-12-19`: year, month and day of a date that exists.
pub fn parse_reference_date(text: &str, period: Periodicity) -> (r: Result<(i32, u32, u32), Error>)
    ensures
        r == reference_date_of(parsed_date(text@, "%Y-%m-%d"@), period),
        r matches Ok(d) ==> valid_date(d.0 as int, d.1 as int, d.2 as int),
{
    check_reference_date(chrono_parse_date(text, "%Y-%m-%d"), period)
}

/// The instant with the fields that were read from the text.
pub fn check_paid_instant(parsed: Option<(i32, u32, u32, u32, u32)>) -> (r: Result<Instant, Error>)
    ensures
        view_of_result(r) == paid_instant_of(parsed),
{
    match parsed {
        None => Err(Error::InvalidDate),
        Some(f) => match Instant::new(f.0, f.1, f.2, f.3, f.4) {
            Some(t) => Ok(t),
            None => Err(Error::InvalidDate),
        },
    }
}

/// When a payment was made: the instant read from a text such as
/// `1996-12-19T16:39:57-08:00` or, where no text is given, `now`. Every
/// text that chrono reads gives its instant; any other is refused.
pub fn parse_paid_instant(text: Option<&str>, now: &Instant) -> (r: Result<Instant, Error>)
    ensures
        view_of_result(r) == (match text {
            Some(t) => paid_instant_of(parsed_rfc3339(t@)),
            None => Ok(now@),
        }),
        text matches Some(t) ==> (r is Ok <==> parsed_rfc3339(t@) is Some),
        text is None ==> r == Ok::<Instant, Error>(*now),
{
    match text {
        Some(t) => check_paid_instant(chrono_parse_rfc3339(t)),
        None => Ok(*now),
    }
}

/// The expense that the add command stores.
pub fn new_expense<'a>(name: &'a str, period: Periodicity, reference: Instant, now: &Instant) -> (r:
    NewExpense<'a>)
    ensures
        r.name@ == name@,
        r.periodicity == period,
        r.due_date_reference == reference,
        r.created_at == *now,
{
    NewExpense { created_at: *now, name, periodicity: period, due_date_reference: reference }
}

/// The payment that the pay command stores for the expense called
/// `name`, paid at `paid_at`: it is made for the occurrence that is next due
/// at `now`. `expense` is what the store holds under that name.
pub fn new_payment<'a>(
    name: &'a str,
    expense: &Option<Expense>,
    paid_at: Instant,
    now: &Instant,
) -> (r: Result<NewPayment<'a>, Error>)
    ensures
        match r {
            Ok(payment) => expense matches Some(e) && next_due(
                e.due_date_reference@,
                now@,
                e.periodicity,
            ) == Some(payment.due_date_of_expense@) && payment.expense_name@ == name@
                && payment.paid_at == paid_at && payment.created_at == *now,
            Err(e) => match expense {
                None => e == Error::NoSuchExpense,
                Some(held) => e == Error::OutOfRange && next_due(
                    held.due_date_reference@,
                    now@,
                    held.periodicity,
                ) is None,
            },
        },
        expense is Some && now@.year < MAX_YEAR ==> r is Ok,
{
    let held = match expense {
        Some(held) => held,
        None => {
            return Err(Error::NoSuchExpense);
        },
    };
    let due_date_of_expense = match get_next_due_date_aux(
        &held.due_date_reference,
        now,
        held.periodicity,
    ) {
        Ok(t) => t,
        Err(e) => {
            return Err(e);
        },
    };
    Ok(NewPayment { created_at: *now, paid_at, expense_name: name, due_date_of_expense })
}

/// What it means that the store refuses a new expense, by the code that
/// came with the refusal: an expense of that name exists already, or
/// nothing that this library knows of.
pub fn explain_add_failure(extended_code: i32) -> (r: Option<Error>)
    ensures
        r == (if extended_code == UNIQUE_VIOLATION {
            Some(Error::DuplicateExpense)
        } else {
            None
        }),
{
    if extended_code == UNIQUE_VIOLATION {
        Some(Error::DuplicateExpense)
    } else {
        None
    }
}

/// What it means that the store refuses a new payment, by the code that
/// came with the refusal: the expense that it names is not there, or
/// nothing that this library knows of.
pub fn explain_pay_failure(extended_code: i32) -> (r: Option<Error>)
    ensures
        r == (if extended_code == FOREIGN_KEY_VIOLATION {
            Some(Error::NoSuchExpense)
        } else {
            None
        }),
{
    if extended_code == FOREIGN_KEY_VIOLATION {
        Some(Error::NoSuchExpense)
    } else {
        None
    }
}

} // verus!
