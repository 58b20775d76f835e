//! Recurring expenses: when the next occurrence of an expense is due, and
//! whether that occurrence has been paid.
//!
//! An expense has a reference, the instant that anchors its schedule, and a
//! periodicity. [`recurrence`] finds the occurrence that is next due at a
//! given instant, [`reconcile`] compares it with the most recent payment,
//! which [`queries`] picks from the stored ones, and [`commands`] holds
//! what the commands decide before anything is stored. The present instant
//! is always an argument: nothing here reads a clock.
//!
//! Every instant is a civil date and time of day in UTC ([`instant`]), and
//! holds what chrono's `DateTime<Utc>` holds. The contracts speak of its
//! model ([`civil`]) and of the proleptic Gregorian calendar
//! ([`calendar`]); what they promise beyond the single function is proved
//! in [`laws`]. The steps by days and months, the count of days between two
//! instants and the reading of dates are chrono's.

pub mod calendar;
pub mod civil;
pub mod commands;
pub mod error;
pub mod instant;
pub mod laws;
pub mod model;
pub mod queries;
pub mod reconcile;
pub mod recurrence;
