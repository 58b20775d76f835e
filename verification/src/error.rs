//! What can go wrong in this library.

use vstd::prelude::*;

verus! {

#[derive(Clone, Copy, Debug, PartialEq, Eq, Structural)]
pub enum Error {
    /// A date was not written as the command expects it.
    InvalidDate,
    /// A day after the 28th was chosen for a periodicity counted in months:
    /// not every month has such a day.
    DayNotInEveryMonth,
    /// No expense has the name that was given.
    NoSuchExpense,
    /// An expense of that name exists already.
    DuplicateExpense,
    /// A date computed on the way lies outside the supported years.
    OutOfRange,
    /// A stored periodicity is none of the known ones.
    UnknownPeriodicity,
}

} // verus!
