//! The status of an expense at a given instant: when it is next due, how
//! many days remain, and whether that occurrence has been paid.

use crate::calendar::MAX_YEAR;
use crate::civil::{lemma_nanos_until, nanos_per_day, whole_days, Civil};
use crate::error::Error;
use crate::instant::{chrono_num_days, view_of, Instant};
use crate::laws::{
    lemma_due_date_passes, lemma_due_date_stands_until_reached, lemma_next_due_not_before,
};
use crate::model::{Expense, Payment, Periodicity};
use crate::recurrence::{get_next_due_date_aux, next_due};
use vstd::prelude::*;

verus! {

/// One expense with its status, as it is shown.
#[derive(Clone, Copy, Debug)]
pub struct RowDisplay<'a> {
    pub expense_name: &'a str,
    /// When the most recent payment was made; `None` where there is none.
    pub last_payment: Option<Instant>,
    pub periodicity: Periodicity,
    pub next_due_date: Instant,
    /// Whole days from the present instant to the due date.
    pub days_left: i64,
    pub is_paid: bool,
}

impl<'a> RowDisplay<'a> {
    /// Whether the occurrence that is next due has been paid.
    pub fn is_paid(&self) -> (r: bool)
        ensures
            r == self.is_paid,
    {
        self.is_paid
    }
}

/// When the payment was made, where there is one.
pub open spec fn paid_at(payment: Option<Payment>) -> Option<Civil> {
    match payment {
        Some(p) => Some(p.paid_at@),
        None => None,
    }
}

/// Whether `row` is the status of `expense` at `now`, given its most recent
/// payment: the due date is the next occurrence, the days left are the
/// whole days up to it, and the expense counts as paid where the payment
/// was made for exactly that occurrence. The days are never negative;
/// apart from leap seconds, they are the nanoseconds between the two
/// instants divided by those of a day, rounded down.
pub open spec fn reconciles(expense: Expense, payment: Option<Payment>, now: Civil, row: RowDisplay) -> bool {
    &&& row.expense_name@ == expense.name@
    &&& row.periodicity == expense.periodicity
    &&& next_due(expense.due_date_reference@, now, expense.periodicity) == Some(row.next_due_date@)
    &&& row.days_left == whole_days(now.nanos_until(row.next_due_date@))
    &&& row.is_paid == (payment matches Some(p) && p.due_date_of_expense@ == row.next_due_date@)
    &&& view_of(row.last_payment) == paid_at(payment)
}

/// An expense counts as unpaid while no payment was made for it, and also
/// where its most recent payment was made for another occurrence than the
/// one that is due now.
pub proof fn lemma_unpaid_without_matching_payment(
    expense: Expense,
    payment: Option<Payment>,
    now: Civil,
    row: RowDisplay,
)
    requires
        reconciles(expense, payment, now, row),
    ensures
        payment is None ==> !row.is_paid,
        payment matches Some(p) ==> (row.is_paid <==> Some(p.due_date_of_expense@) == next_due(
            expense.due_date_reference@,
            now,
            expense.periodicity,
        )),
{
}

/// A payment made for the occurrence that is due at `now` counts from
/// `now` up to that due date, and no longer once the date has passed. This
/// holds of a weekly expense and of one whose day exists in every month.
pub proof fn lemma_payment_counts_until_due(
    expense: Expense,
    payment: Payment,
    now: Civil,
    later: Civil,
    row: RowDisplay,
)
    requires
        expense.due_date_reference@.wf(),
        now.wf(),
        later.wf(),
        expense.periodicity == Periodicity::Weekly || expense.due_date_reference@.day <= 28,
        next_due(expense.due_date_reference@, now, expense.periodicity) == Some(
            payment.due_date_of_expense@,
        ),
        now.position() <= later.position(),
        reconciles(expense, Some(payment), later, row),
    ensures
        row.is_paid <==> later.position() <= payment.due_date_of_expense@.position(),
{
    let reference = expense.due_date_reference@;
    let due = payment.due_date_of_expense@;
    if later.position() <= due.position() {
        lemma_due_date_stands_until_reached(reference, now, later, expense.periodicity);
    } else {
        lemma_due_date_passes(reference, later, due, expense.periodicity);
    }
}

/// The status of one expense at `now`; `payment` is the most recent
/// payment made for it, if any.
pub fn reconcile<'a>(expense: &'a Expense, payment: &Option<Payment>, now: &Instant) -> (r: Result<
    RowDisplay<'a>,
    Error,
>)
    ensures
        match r {
            Ok(row) => reconciles(*expense, *payment, now@, row),
            Err(e) => e == Error::OutOfRange && next_due(
                expense.due_date_reference@,
                now@,
                expense.periodicity,
            ) is None,
        },
        r matches Ok(row) ==> row.next_due_date@.position() >= now@.position() && row.days_left >= 0,
        r matches Ok(row) ==> (!now@.in_leap_second() && !row.next_due_date@.in_leap_second()
            ==> row.days_left == (row.next_due_date@.nanos() - now@.nanos()) / nanos_per_day()),
        now@.year < MAX_YEAR ==> r is Ok,
{
    let next_due_date = match get_next_due_date_aux(
        &expense.due_date_reference,
        now,
        expense.periodicity,
    ) {
        Ok(t) => t,
        Err(e) => {
            return Err(e);
        },
    };
    proof {
        use_type_invariant(now);
        use_type_invariant(&next_due_date);
        use_type_invariant(&expense.due_date_reference);
        lemma_next_due_not_before(
            expense.due_date_reference@,
            now@,
            expense.periodicity,
        );
        lemma_nanos_until(now@, next_due_date@);
    }
    let days_left = chrono_num_days(now, &next_due_date);
    let (last_payment, is_paid) = match payment {
        Some(p) => (Some(p.paid_at), p.due_date_of_expense.is_same(&next_due_date)),
        None => (None, false),
    };
    Ok(
        RowDisplay {
            expense_name: expense.name.as_str(),
            last_payment,
            periodicity: expense.periodicity,
            next_due_date,
            days_left,
            is_paid,
        },
    )
}

/// The status at `now` of every expense in `entries`, in their order. Each
/// entry holds an expense and the most recent payment made for it.
pub fn generate_rows<'a>(entries: &'a [(Expense, Option<Payment>)], now: &Instant) -> (r: Result<
    Vec<RowDisplay<'a>>,
    Error,
>)
    ensures
        match r {
            Ok(rows) => rows.len() == entries.len() && forall|i: int|
                0 <= i < rows.len() ==> reconciles(
                    entries[i].0,
                    entries[i].1,
                    now@,
                    #[trigger] rows[i],
                ),
            Err(e) => e == Error::OutOfRange && exists|i: int|
                0 <= i < entries.len() && next_due(
                    (#[trigger] entries[i]).0.due_date_reference@,
                    now@,
                    entries[i].0.periodicity,
                ) is None,
        },
        now@.year < MAX_YEAR ==> r is Ok,
{
    let mut rows: Vec<RowDisplay<'a>> = Vec::new();
    let mut i: usize = 0;
    while i < entries.len()
        invariant
            i <= entries.len(),
            rows.len() == i,
            forall|j: int|
                0 <= j < i ==> reconciles(entries[j].0, entries[j].1, now@, #[trigger] rows[j]),
        decreases entries.len() - i,
    {
        match reconcile(&entries[i].0, &entries[i].1, now) {
            Ok(row) => {
                rows.push(row);
            },
            Err(e) => {
                return Err(e);
            },
        }
        i = i + 1;
    }
    Ok(rows)
}

} // verus!
