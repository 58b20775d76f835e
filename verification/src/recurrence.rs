//! When an expense is next due: the first occurrence of its schedule that
//! does not lie before the present instant.
//!
//! The schedule of an expense starts at its reference and goes on in steps
//! of its periodicity: seven days, or a number of months. A step of months
//! keeps the day of the month; where the month reached is too short for it,
//! the step ends on the last day of that month, and the steps after it go on
//! from there. A reference far in the past is first moved into the year
//! before the present one, so that only a few steps remain to be taken;
//! where that year lacks its day, February 29, it is moved to February 28,
//! which is where the steps of months lead from the next year on.
//!
//! What holds of the functions of this module is proved in
//! [`crate::laws`].

use crate::calendar::MAX_YEAR;
use crate::error::Error;
use crate::civil::{
    first_day, lemma_day_in_range, lemma_day_order, lemma_on_day, lemma_plus_days,
    lemma_plus_days_some, lemma_plus_months_some, lemma_same_day_and_time, Civil,
};
use crate::instant::{chrono_add_days, chrono_add_months, chrono_sub_days, view_of, Instant};
use crate::laws::{
    lemma_anchor_is_near, lemma_moved_into, lemma_next_due_exists,
    lemma_next_due_is_tightest, lemma_next_due_not_before, lemma_occurrence_add,
    lemma_steps_so_far, lemma_weekly_keeps_weekday, month_index,
};
use crate::model::Periodicity;
use vstd::prelude::*;

verus! {

/// The occurrence after `c`: seven days later for `Weekly`, else the
/// periodicity's months later. There is none beyond the supported years,
/// and a weekly step does not lead into the leap second that ends the last
/// supported day.
pub open spec fn advance(c: Civil, p: Periodicity) -> Option<Civil> {
    if p == Periodicity::Weekly {
        match c.plus_days(7) {
            Some(next) => if next.after_last_step() {
                None
            } else {
                Some(next)
            },
            None => None,
        }
    } else {
        c.plus_months(p.months())
    }
}

/// One step back from `c`: seven days, or the periodicity's months.
pub open spec fn retreat(c: Civil, p: Periodicity) -> Option<Civil> {
    if p == Periodicity::Weekly {
        c.plus_days(-7)
    } else {
        c.plus_months(-p.months())
    }
}

/// The occurrence that lies `k` steps after `start`; none where a step on
/// the way leaves the supported years.
pub open spec fn occurrence(start: Civil, p: Periodicity, k: nat) -> Option<Civil>
    decreases k,
{
    if k == 0 {
        Some(start)
    } else {
        match advance(start, p) {
            Some(next) => occurrence(next, p, (k - 1) as nat),
            None => None,
        }
    }
}

/// A bound on the steps from `start` to `now`: one more than the days
/// between them, and 0 once `start` has reached `now`.
pub open spec fn span(start: Civil, now: Civil) -> int {
    if start.position() < now.position() {
        now.day_number() - start.day_number() + 1
    } else {
        0
    }
}

/// A step leads to a later instant, on a later day.
pub proof fn lemma_advance(c: Civil, p: Periodicity)
    requires
        c.wf(),
        advance(c, p) is Some,
    ensures
        advance(c, p)->0.wf(),
        advance(c, p)->0.position() > c.position(),
        advance(c, p)->0.day_number() > c.day_number(),
{
    if p == Periodicity::Weekly {
        lemma_plus_days_some(c, 7);
    } else {
        lemma_plus_months_some(c, p.months());
    }
}

/// The first occurrence from `start` on that does not lie before `now`;
/// none where a step on the way leaves the supported years.
pub open spec fn first_due(start: Civil, now: Civil, p: Periodicity) -> Option<Civil>
    decreases span(start, now),
    when start.wf() && now.wf()
    via first_due_terminates
{
    if start.position() >= now.position() {
        Some(start)
    } else {
        match advance(start, p) {
            Some(next) => first_due(next, now, p),
            None => None,
        }
    }
}

/// A step from before `now` leads to a later instant, and shortens the
/// span that is left.
pub proof fn lemma_step(start: Civil, now: Civil, p: Periodicity)
    requires
        start.wf(),
        now.wf(),
        start.position() < now.position(),
        advance(start, p) is Some,
    ensures
        advance(start, p)->0.wf(),
        advance(start, p)->0.position() > start.position(),
        advance(start, p)->0.day_number() > start.day_number(),
        0 <= span(advance(start, p)->0, now) < span(start, now),
{
    let next = advance(start, p)->0;
    lemma_advance(start, p);
    lemma_day_order(start, now);
    if next.position() < now.position() {
        lemma_day_order(next, now);
    }
}

#[via_fn]
proof fn first_due_terminates(start: Civil, now: Civil, p: Periodicity) {
    if start.wf() && now.wf() && start.position() < now.position() && advance(start, p) is Some {
        lemma_step(start, now, p);
    }
}

/// Where the year jump of a weekly expense lands: on the last day up to
/// `shifted` that falls on the reference's day of the week.
pub open spec fn weekly_anchor(reference: Civil, shifted: Civil) -> Civil {
    let back = (shifted.weekday() - reference.weekday()) % 7;
    shifted.on_day(shifted.day_number() - back)
}

/// The reference moved into `year`: the same month, day and time of day
/// there or, where that year has no such day, which is February 29, the
/// day before it.
pub open spec fn moved_into(reference: Civil, year: int) -> Option<Civil> {
    match reference.with_year(year) {
        Some(shifted) => Some(shifted),
        None => {
            let day_before = Civil { year, day: reference.day - 1, ..reference };
            if day_before.wf() {
                Some(day_before)
            } else {
                None
            }
        },
    }
}

/// Where the search for the next due date starts. A reference from before
/// last year is moved into last year; a weekly one from there back to its
/// own day of the week. Any later reference is itself the start.
pub open spec fn anchor(reference: Civil, now: Civil, p: Periodicity) -> Civil {
    if reference.year < now.year - 1 {
        match moved_into(reference, now.year - 1) {
            Some(shifted) => if p == Periodicity::Weekly {
                weekly_anchor(reference, shifted)
            } else {
                shifted
            },
            None => reference,
        }
    } else {
        reference
    }
}

/// The instant at which an expense is next due: its reference while that
/// lies ahead, else the first occurrence from the anchor on that does not
/// lie before `now`; none where a step on the way leaves the supported
/// years.
pub open spec fn next_due(reference: Civil, now: Civil, p: Periodicity) -> Option<Civil> {
    if reference.position() > now.position() {
        Some(reference)
    } else {
        first_due(anchor(reference, now, p), now, p)
    }
}

/// The next due date as the plain walk finds it, step by step from the
/// reference, with no year jump.
pub open spec fn next_due_by_steps(reference: Civil, now: Civil, p: Periodicity) -> Option<Civil> {
    if reference.position() > now.position() {
        Some(reference)
    } else {
        first_due(reference, now, p)
    }
}

/// The occurrence that follows `t`, or nothing where it would lie beyond
/// the supported years.
pub fn next_occurrence(t: &Instant, periodicity: Periodicity) -> (r: Option<Instant>)
    ensures
        view_of(r) == advance(t@, periodicity),
{
    proof {
        use_type_invariant(t);
    }
    match periodicity {
        Periodicity::Weekly => {
            let r = chrono_add_days(t, 7);
            proof {
                lemma_day_in_range(t@);
                match r {
                    Some(u) => {
                        lemma_plus_days(t@, 7, u@);
                    },
                    None => {
                        if t@.plus_days(7) is Some {
                            lemma_plus_days_some(t@, 7);
                        }
                    },
                }
            }
            r
        },
        _ => chrono_add_months(t, periodicity.step_months()),
    }
}

/// The year jump: the instant from which the occurrences are walked.
pub fn year_jump(reference: &Instant, now: &Instant, periodicity: Periodicity) -> (r: Instant)
    ensures
        r@ == anchor(reference@, now@, periodicity),
        periodicity == Periodicity::Weekly ==> r@.weekday() == reference@.weekday(),
{
    proof {
        use_type_invariant(reference);
        use_type_invariant(now);
        lemma_weekly_keeps_weekday(reference@, now@);
    }
    if reference.year() >= now.year() - 1 {
        return *reference;
    }
    let year = now.year() - 1;
    let shifted = match reference.with_year(year) {
        Some(shifted) => shifted,
        // Last year has no February 29: the reference is moved to the day
        // before it.
        None => match Instant::new(
            year,
            reference.month(),
            reference.day() - 1,
            reference.second_of_day(),
            reference.nanosecond(),
        ) {
            Some(day_before) => day_before,
            None => {
                return *reference;
            },
        },
    };
    match periodicity {
        Periodicity::Weekly => {},
        _ => {
            return shifted;
        },
    }
    let wanted = reference.weekday();
    let ghost back = (shifted@.weekday() - reference@.weekday()) % 7;
    proof {
        lemma_day_in_range(reference@);
        lemma_moved_into(reference@, year as int);
    }
    let mut found: Option<Instant> = None;
    let mut i: u32 = 0;
    while i < 7 && found.is_none()
        invariant
            i <= 7,
            shifted@.wf(),
            reference@.wf(),
            wanted == reference@.weekday(),
            back == (shifted@.weekday() - reference@.weekday()) % 7,
            shifted@.day_number() - 7 >= first_day(),
            found is None ==> i <= back,
            found matches Some(c) ==> c@ == weekly_anchor(reference@, shifted@),
        decreases 7 - i + (if found is None { 1int } else { 0int }),
    {
        let candidate = chrono_sub_days(&shifted, i);
        if let Some(c) = candidate {
            if c.weekday() == wanted {
                proof {
                    assert(i == back);
                    lemma_day_in_range(shifted@);
                    lemma_on_day(shifted@, shifted@.day_number() - back);
                    lemma_same_day_and_time(
                        c@,
                        shifted@.on_day(shifted@.day_number() - back),
                    );
                }
                found = Some(c);
            }
        }
        i = i + 1;
    }
    match found {
        Some(c) => c,
        None => *reference,
    }
}

/// The instant at which the expense with this reference and periodicity
/// is next due, seen from `now`.
pub fn get_next_due_date_aux(reference: &Instant, now: &Instant, periodicity: Periodicity) -> (r:
    Result<Instant, Error>)
    ensures
        match r {
            Ok(t) => next_due(reference@, now@, periodicity) == Some(t@),
            Err(e) => e == Error::OutOfRange && next_due(reference@, now@, periodicity) is None,
        },
        reference@.position() > now@.position() ==> r == Ok::<Instant, Error>(*reference),
        r matches Ok(t) ==> t@.position() >= now@.position(),
        r matches Ok(t) ==> (reference@.position() <= now@.position() ==> (retreat(
            t@,
            periodicity,
        ) matches Some(b) ==> b.position() < now@.position())),
        r matches Ok(t) ==> (periodicity == Periodicity::Weekly ==> t@.weekday()
            == reference@.weekday()),
        now@.year < MAX_YEAR ==> r is Ok,
        r matches Ok(t) ==> (reference@.position() <= now@.position() ==> exists|k: nat|
            k <= 106 && (periodicity != Periodicity::Weekly ==> k <= 24) && #[trigger] occurrence(
                anchor(reference@, now@, periodicity),
                periodicity,
                k,
            ) == Some(t@)),
{
    proof {
        use_type_invariant(reference);
        use_type_invariant(now);
        if now@.year < MAX_YEAR {
            lemma_next_due_exists(reference@, now@, periodicity);
        }
        if next_due(reference@, now@, periodicity) is Some {
            lemma_next_due_not_before(reference@, now@, periodicity);
        }
        lemma_weekly_keeps_weekday(reference@, now@);
        if reference@.position() <= now@.position() {
            lemma_next_due_is_tightest(reference@, now@, periodicity);
        }
    }
    if now.is_before(reference) {
        return Ok(*reference);
    }
    let mut current = year_jump(reference, now, periodicity);
    let ghost start = current@;
    let ghost mut steps: nat = 0;
    proof {
        use_type_invariant(&current);
        lemma_anchor_is_near(reference@, now@, periodicity);
    }
    // The year jump has left few steps to take: the count of those taken
    // stays below a fixed bound.
    while current.is_before(now)
        invariant
            now@.wf(),
            current@.wf(),
            start.wf(),
            start == anchor(reference@, now@, periodicity),
            now@.day_number() - start.day_number() <= 737,
            periodicity != Periodicity::Weekly ==> month_index(now@) - month_index(start) <= 23,
            occurrence(start, periodicity, steps) == Some(current@),
            steps <= 106,
            periodicity != Periodicity::Weekly ==> steps <= 24,
            first_due(current@, now@, periodicity) == next_due(reference@, now@, periodicity),
            now@.year < MAX_YEAR ==> next_due(reference@, now@, periodicity) is Some,
        decreases 106 - steps,
    {
        proof {
            lemma_steps_so_far(start, now@, periodicity, steps);
        }
        match next_occurrence(&current, periodicity) {
            Some(next) => {
                proof {
                    lemma_step(current@, now@, periodicity);
                    lemma_occurrence_add(start, periodicity, steps, 1);
                    reveal_with_fuel(occurrence, 2);
                    steps = steps + 1;
                }
                current = next;
            },
            None => {
                return Err(Error::OutOfRange);
            },
        }
    }
    Ok(current)
}

} // verus!
