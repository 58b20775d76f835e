//! What is asked of the stored expenses and payments: for each expense,
//! the most recent payment made for it.

use crate::model::{Expense, Payment};
use vstd::prelude::*;

verus! {

/// Whether `a` counts as more recent than `b`: it was paid later or, where
/// both were paid at the same instant, it has the higher id.
pub open spec fn more_recent(a: Payment, b: Payment) -> bool {
    a.paid_at@.position() > b.paid_at@.position() || (a.paid_at@.position() == b.paid_at@.position() && a.id
        > b.id)
}

/// Whether the payment at index `at` is the most recent one made for the
/// expense called `name`: every other payment for that expense is less
/// recent or, where paid at the same instant under the same id, comes
/// later in `payments`.
pub open spec fn is_latest_payment(payments: Seq<Payment>, name: Seq<char>, at: int) -> bool {
    &&& 0 <= at < payments.len()
    &&& payments[at].expense_name@ == name
    &&& forall|j: int|
        0 <= j < payments.len() && j != at && (#[trigger] payments[j]).expense_name@ == name
            ==> more_recent(payments[at], payments[j]) || (!more_recent(payments[j], payments[at])
            && at < j)
}

/// The most recent payment for the expense called `name`, where one was
/// made.
pub open spec fn latest_payment_of(payments: Seq<Payment>, name: Seq<char>, found: Option<
    Payment,
>) -> bool {
    match found {
        Some(p) => exists|at: int| is_latest_payment(payments, name, at) && payments[at] == p,
        None => forall|j: int|
            0 <= j < payments.len() ==> (#[trigger] payments[j]).expense_name@ != name,
    }
}

/// The index of the most recent payment made for the expense called
/// `name`; none where no payment was made for it.
pub fn latest_payment(payments: &[Payment], name: &str) -> (r: Option<usize>)
    ensures
        match r {
            Some(at) => is_latest_payment(payments@, name@, at as int),
            None => forall|j: int|
                0 <= j < payments.len() ==> (#[trigger] payments[j]).expense_name@ != name@,
        },
{
    let wanted = name.to_owned();
    let mut best: Option<usize> = None;
    let mut i: usize = 0;
    while i < payments.len()
        invariant
            i <= payments.len(),
            wanted@ == name@,
            match best {
                Some(at) => is_latest_payment(payments@.take(i as int), name@, at as int),
                None => forall|j: int|
                    0 <= j < i ==> (#[trigger] payments[j]).expense_name@ != name@,
            },
        decreases payments.len() - i,
    {
        let ghost seen = payments@.take(i as int);
        let ghost next = payments@.take(i + 1);
        assert(forall|j: int| 0 <= j < i ==> next[j] == seen[j]);
        if payments[i].expense_name == wanted {
            let newer = match best {
                Some(at) => {
                    let held = &payments[at];
                    let found = &payments[i];
                    held.paid_at.is_before(&found.paid_at) || (held.paid_at.is_same(
                        &found.paid_at,
                    ) && held.id < found.id)
                },
                None => true,
            };
            if newer {
                best = Some(i);
            }
        }
        i = i + 1;
    }
    assert(payments@.take(i as int) == payments@);
    best
}

/// Every expense with the most recent payment made for it, in the order of
/// `expenses`.
pub fn get_entries(expenses: &[Expense], payments: &[Payment]) -> (r: Vec<
    (Expense, Option<Payment>),
>)
    ensures
        r.len() == expenses.len(),
        forall|i: int|
            0 <= i < r.len() ==> (#[trigger] r[i]).0 == expenses[i] && latest_payment_of(
                payments@,
                expenses[i].name@,
                r[i].1,
            ),
{
    let mut entries: Vec<(Expense, Option<Payment>)> = Vec::new();
    let mut i: usize = 0;
    while i < expenses.len()
        invariant
            i <= expenses.len(),
            entries.len() == i,
            forall|j: int|
                0 <= j < i ==> (#[trigger] entries[j]).0 == expenses[j] && latest_payment_of(
                    payments@,
                    expenses[j].name@,
                    entries[j].1,
                ),
        decreases expenses.len() - i,
    {
        let payment = match latest_payment(payments, expenses[i].name.as_str()) {
            Some(at) => Some(payments[at].clone()),
            None => None,
        };
        entries.push((expenses[i].clone(), payment));
        i = i + 1;
    }
    entries
}

} // verus!
