//! What holds of the next due date: it is the first occurrence that does
//! not lie before the present instant, it is found again when it is taken
//! as a reference, and the year jump changes neither it nor, for a weekly
//! expense, the day of the week.

use crate::calendar::{
    lemma_date_order, lemma_days_before_month, lemma_days_before_next_year,
    lemma_same_date_in_later_year, MAX_YEAR,
};
use crate::civil::{
    last_day, lemma_day_in_range, lemma_day_order, lemma_month_index, lemma_on_day,
    lemma_order_by_fields, lemma_plus_days_some, lemma_plus_months_some,
    lemma_same_day_and_time, Civil,
};
use crate::model::Periodicity;
use crate::recurrence::{
    advance, anchor, first_due, lemma_advance, lemma_step, moved_into, next_due, next_due_by_steps,
    occurrence, retreat, span, weekly_anchor,
};
use vstd::prelude::*;

verus! {

/// What `first_due` gives is an instant that does not lie before `now`.
pub proof fn lemma_first_due_not_before(start: Civil, now: Civil, p: Periodicity)
    requires
        start.wf(),
        now.wf(),
        first_due(start, now, p) is Some,
    ensures
        first_due(start, now, p)->0.wf(),
        first_due(start, now, p)->0.position() >= now.position(),
    decreases span(start, now),
{
    if start.position() < now.position() {
        let next = advance(start, p)->0;
        lemma_step(start, now, p);
        lemma_first_due_not_before(next, now, p);
    }
}

/// Going back from day `from` by the difference of the days of the week
/// leads to a day that lies whole weeks away from day `to`.
proof fn lemma_weekday_distance(from: int, to: int)
    ensures
        0 <= ((from + 6) % 7 - (to + 6) % 7) % 7 < 7,
        (from - ((from + 6) % 7 - (to + 6) % 7) % 7 - to) % 7 == 0,
        (from - ((from + 6) % 7 - (to + 6) % 7) % 7 + 6) % 7 == (to + 6) % 7,
{
}

/// A reference is moved to an instant in the year asked for, at the same
/// time of day and at least 364 days after the reference.
pub proof fn lemma_moved_into(reference: Civil, year: int)
    requires
        reference.wf(),
        reference.year < year <= MAX_YEAR,
    ensures
        moved_into(reference, year) matches Some(shifted) && shifted.wf() && shifted.year == year
            && shifted.month == reference.month && shifted.second == reference.second
            && shifted.nano == reference.nano && reference.day_number() + 364
            <= shifted.day_number(),
        reference.with_year(year) is Some ==> moved_into(reference, year) == reference.with_year(
            year,
        ),
        reference.with_year(year) is None ==> reference.month == 2 && reference.day == 29
            && moved_into(reference, year) == Some(Civil { year, day: 28, ..reference }),
{
    lemma_same_date_in_later_year(reference.year, year, reference.month, reference.day);
    lemma_same_date_in_later_year(reference.year, year, reference.month, reference.day - 1);
}

/// Where the year jump of a weekly expense lands: up to six days before
/// `shifted`, at the same time of day, on the reference's day of the week
/// and after the reference.
pub proof fn lemma_weekly_anchor(reference: Civil, shifted: Civil)
    requires
        reference.wf(),
        shifted.wf(),
        shifted.second == reference.second,
        shifted.nano == reference.nano,
        reference.day_number() + 7 <= shifted.day_number(),
    ensures
        weekly_anchor(reference, shifted).wf(),
        shifted.day_number() - 6 <= weekly_anchor(reference, shifted).day_number()
            <= shifted.day_number(),
        weekly_anchor(reference, shifted).second == reference.second,
        weekly_anchor(reference, shifted).nano == reference.nano,
        weekly_anchor(reference, shifted).weekday() == reference.weekday(),
        reference.day_number() < weekly_anchor(reference, shifted).day_number(),
        (weekly_anchor(reference, shifted).day_number() - reference.day_number()) % 7 == 0,
{
    let back = (shifted.weekday() - reference.weekday()) % 7;
    lemma_day_in_range(shifted);
    lemma_day_in_range(reference);
    lemma_weekday_distance(shifted.day_number(), reference.day_number());
    lemma_on_day(shifted, shifted.day_number() - back);
}

/// The anchor is an instant.
pub proof fn lemma_anchor(reference: Civil, now: Civil, p: Periodicity)
    requires
        reference.wf(),
        now.wf(),
    ensures
        anchor(reference, now, p).wf(),
{
    if reference.year < now.year - 1 {
        lemma_moved_into(reference, now.year - 1);
        if p == Periodicity::Weekly {
            lemma_weekly_anchor(reference, moved_into(reference, now.year - 1)->0);
        }
    }
}

/// The next due date is an instant that does not lie before `now`.
pub proof fn lemma_next_due_not_before(reference: Civil, now: Civil, p: Periodicity)
    requires
        reference.wf(),
        now.wf(),
        next_due(reference, now, p) is Some,
    ensures
        next_due(reference, now, p)->0.wf(),
        next_due(reference, now, p)->0.position() >= now.position(),
{
    if reference.position() <= now.position() {
        lemma_anchor(reference, now, p);
        lemma_first_due_not_before(anchor(reference, now, p), now, p);
    }
}

/// A step back leads to an earlier instant.
pub proof fn lemma_retreat(c: Civil, p: Periodicity)
    requires
        c.wf(),
        retreat(c, p) is Some,
    ensures
        retreat(c, p)->0.wf(),
        retreat(c, p)->0.position() < c.position(),
{
    if p == Periodicity::Weekly {
        lemma_plus_days_some(c, -7);
    } else {
        lemma_plus_months_some(c, -p.months());
    }
}

/// A step back from the occurrence after `c` does not lead beyond `c`.
pub proof fn lemma_retreat_after_advance(c: Civil, p: Periodicity)
    requires
        c.wf(),
        advance(c, p) is Some,
        retreat(advance(c, p)->0, p) is Some,
    ensures
        retreat(advance(c, p)->0, p)->0.position() <= c.position(),
{
    let t = advance(c, p)->0;
    let b = retreat(t, p)->0;
    lemma_advance(c, p);
    lemma_retreat(t, p);
    if p == Periodicity::Weekly {
        lemma_plus_days_some(c, 7);
        lemma_plus_days_some(t, -7);
        lemma_same_day_and_time(b, c);
    } else {
        lemma_plus_months_some(c, p.months());
        lemma_plus_months_some(t, -p.months());
        lemma_month_index(b.year, b.month, c.year, c.month);
        lemma_order_by_fields(b, c);
    }
}

/// The anchor of a reference that does not lie after `now` does not lie
/// after it either, and lies before it where the reference was moved.
pub proof fn lemma_anchor_not_after(reference: Civil, now: Civil, p: Periodicity)
    requires
        reference.wf(),
        now.wf(),
        reference.position() <= now.position(),
    ensures
        anchor(reference, now, p).wf(),
        anchor(reference, now, p).position() <= now.position(),
        anchor(reference, now, p) != reference ==> anchor(reference, now, p).position()
            < now.position(),
{
    lemma_anchor(reference, now, p);
    let a = anchor(reference, now, p);
    if a != reference {
        lemma_moved_into(reference, now.year - 1);
        let shifted = moved_into(reference, now.year - 1)->0;
        lemma_order_by_fields(shifted, now);
        if p == Periodicity::Weekly {
            lemma_weekly_anchor(reference, shifted);
            lemma_date_order(a.year, a.month, a.day, now.year, now.month, now.day);
            lemma_date_order(
                shifted.year,
                shifted.month,
                shifted.day,
                now.year,
                now.month,
                now.day,
            );
            lemma_order_by_fields(a, now);
        }
    }
}

/// From a start that does not lie after `now`, the first due occurrence is
/// the tightest: it does not lie before `now`, and one step back from it
/// does.
pub proof fn lemma_first_due_is_tightest(start: Civil, now: Civil, p: Periodicity)
    requires
        start.wf(),
        now.wf(),
        start.position() <= now.position(),
    ensures
        first_due(start, now, p) matches Some(t) ==> t.wf() && t.position() >= now.position() && (retreat(
            t,
            p,
        ) matches Some(b) ==> b.position() < now.position()),
    decreases span(start, now),
{
    if first_due(start, now, p) is Some {
        if start.position() == now.position() {
            if retreat(start, p) is Some {
                lemma_retreat(start, p);
            }
        } else {
            let next = advance(start, p)->0;
            lemma_step(start, now, p);
            if next.position() < now.position() {
                lemma_first_due_is_tightest(next, now, p);
            } else {
                assert(first_due(next, now, p) == Some(next));
                if retreat(next, p) is Some {
                    lemma_retreat_after_advance(start, p);
                }
            }
        }
    }
}

/// For a reference that does not lie after `now`, the next due date is the
/// tightest: it does not lie before `now`, and one step back from it does.
pub proof fn lemma_next_due_is_tightest(reference: Civil, now: Civil, p: Periodicity)
    requires
        reference.wf(),
        now.wf(),
        reference.position() <= now.position(),
    ensures
        next_due(reference, now, p) matches Some(t) ==> t.wf() && t.position() >= now.position() && (
        retreat(t, p) matches Some(b) ==> b.position() < now.position()),
{
    lemma_anchor_not_after(reference, now, p);
    lemma_first_due_is_tightest(anchor(reference, now, p), now, p);
}

/// A reference that lies after `now` is itself the next due date.
pub proof fn lemma_future_reference_is_due(reference: Civil, now: Civil, p: Periodicity)
    requires
        reference.position() > now.position(),
    ensures
        next_due(reference, now, p) == Some(reference),
{
}

/// The next due date is a fixed point: seen as a reference, it is due at
/// itself.
pub proof fn lemma_next_due_is_idempotent(reference: Civil, now: Civil, p: Periodicity)
    requires
        reference.wf(),
        now.wf(),
    ensures
        next_due(reference, now, p) matches Some(t) ==> next_due(t, now, p) == Some(t),
{
    if next_due(reference, now, p) is Some {
        let t = next_due(reference, now, p)->0;
        lemma_next_due_not_before(reference, now, p);
        if t.position() == now.position() {
            lemma_order_by_fields(t, now);
            assert(anchor(t, now, p) == t);
            assert(first_due(t, now, p) == Some(t));
        }
    }
}

/// Occurrences are instants, and none lies before the start.
pub proof fn lemma_occurrence(start: Civil, p: Periodicity, k: nat)
    requires
        start.wf(),
        occurrence(start, p, k) is Some,
    ensures
        occurrence(start, p, k)->0.wf(),
        occurrence(start, p, k)->0.position() >= start.position(),
        k > 0 ==> occurrence(start, p, k)->0.position() > start.position(),
    decreases k,
{
    if k > 0 {
        lemma_advance(start, p);
        lemma_occurrence(advance(start, p)->0, p, (k - 1) as nat);
    }
}

/// The walk may start at any occurrence that does not lie after `now`: it
/// ends where the walk from the start ends.
pub proof fn lemma_first_due_from_occurrence(start: Civil, now: Civil, p: Periodicity, k: nat)
    requires
        start.wf(),
        now.wf(),
        occurrence(start, p, k) matches Some(c) && c.position() <= now.position(),
    ensures
        first_due(start, now, p) == first_due(occurrence(start, p, k)->0, now, p),
    decreases k,
{
    if k > 0 {
        let next = advance(start, p)->0;
        lemma_advance(start, p);
        lemma_occurrence(next, p, (k - 1) as nat);
        lemma_first_due_from_occurrence(next, now, p, (k - 1) as nat);
    }
}

/// The first due occurrence is an occurrence, and those before it lie
/// before `now`: it is the first that does not.
pub proof fn lemma_first_due_is_first(start: Civil, now: Civil, p: Periodicity) -> (k: nat)
    requires
        start.wf(),
        now.wf(),
        first_due(start, now, p) is Some,
    ensures
        occurrence(start, p, k) == first_due(start, now, p),
        forall|j: nat|
            j < k ==> (#[trigger] occurrence(start, p, j) matches Some(c) && c.position()
                < now.position()),
    decreases span(start, now),
{
    if start.position() >= now.position() {
        0
    } else {
        let next = advance(start, p)->0;
        lemma_step(start, now, p);
        let k = lemma_first_due_is_first(next, now, p);
        assert forall|j: nat| j < k + 1 implies (#[trigger] occurrence(start, p, j) matches Some(c)
            && c.position() < now.position()) by {
            if j > 0 {
                assert(occurrence(start, p, j) == occurrence(next, p, (j - 1) as nat));
            }
        }
        k + 1
    }
}

/// The months of an instant, counted from year 0.
pub open spec fn month_index(c: Civil) -> int {
    c.year * 12 + (c.month - 1)
}

/// How far the occurrence after `k` steps lies from the start: `k` weeks,
/// or `k` times the months of the periodicity.
pub proof fn lemma_occurrence_distance(start: Civil, p: Periodicity, k: nat)
    requires
        start.wf(),
        occurrence(start, p, k) is Some,
    ensures
        p == Periodicity::Weekly ==> occurrence(start, p, k)->0.day_number() == start.day_number()
            + 7 * k,
        p != Periodicity::Weekly ==> month_index(occurrence(start, p, k)->0) == month_index(start)
            + k * p.months(),
    decreases k,
{
    let n = p.months();
    if k > 0 {
        let next = advance(start, p)->0;
        lemma_advance(start, p);
        lemma_occurrence_distance(next, p, (k - 1) as nat);
        if p == Periodicity::Weekly {
            lemma_plus_days_some(start, 7);
        } else {
            assert((k - 1) * n + n == k * n) by (nonlinear_arith);
        }
    } else {
        assert(k * n == 0);
    }
}

/// The anchor lies near `now`, however far in the past the reference
/// lies: no more than 737 days before it, and no more than 23 months.
pub proof fn lemma_anchor_is_near(reference: Civil, now: Civil, p: Periodicity)
    requires
        reference.wf(),
        now.wf(),
        reference.position() <= now.position(),
    ensures
        anchor(reference, now, p).wf(),
        anchor(reference, now, p).position() <= now.position(),
        now.day_number() - anchor(reference, now, p).day_number() <= 737,
        p != Periodicity::Weekly ==> month_index(now) - month_index(anchor(reference, now, p))
            <= 23,
{
    lemma_anchor_not_after(reference, now, p);
    let y = now.year - 1;
    lemma_date_order(now.year, now.month, now.day, now.year, 12, 31);
    lemma_days_before_month(now.year, 12);
    lemma_days_before_month(y, 1);
    lemma_days_before_next_year(y);
    if reference.year < y {
        lemma_moved_into(reference, y);
        let shifted = moved_into(reference, y)->0;
        lemma_date_order(y, 1, 1, shifted.year, shifted.month, shifted.day);
        if p == Periodicity::Weekly {
            lemma_weekly_anchor(reference, shifted);
        }
    } else {
        lemma_order_by_fields(reference, now);
        lemma_date_order(y, 1, 1, reference.year, reference.month, reference.day);
    }
}

/// An occurrence that lies before `now` lies few steps after a start that
/// is near `now`.
pub proof fn lemma_steps_so_far(start: Civil, now: Civil, p: Periodicity, steps: nat)
    requires
        start.wf(),
        now.wf(),
        occurrence(start, p, steps) matches Some(c) && c.position() < now.position(),
        now.day_number() - start.day_number() <= 737,
        p != Periodicity::Weekly ==> month_index(now) - month_index(start) <= 23,
    ensures
        steps < 106,
        p != Periodicity::Weekly ==> steps < 24,
{
    let current = occurrence(start, p, steps)->0;
    let n = p.months();
    lemma_occurrence(start, p, steps);
    lemma_occurrence_distance(start, p, steps);
    lemma_day_order(current, now);
    lemma_order_by_fields(current, now);
    if p != Periodicity::Weekly {
        assert(steps <= 23) by (nonlinear_arith)
            requires
                steps * n <= 23,
                1 <= n,
        ;
    }
}

/// After the year jump few steps remain, however far in the past the
/// reference lies: the walk from the anchor ends within 106 steps for a
/// weekly expense, and within 24 for one counted in months.
pub proof fn lemma_walk_after_jump_is_short(reference: Civil, now: Civil, p: Periodicity) -> (k:
    nat)
    requires
        reference.wf(),
        now.wf(),
        reference.position() <= now.position(),
        next_due(reference, now, p) is Some,
    ensures
        occurrence(anchor(reference, now, p), p, k) == next_due(reference, now, p),
        k <= 106,
        p != Periodicity::Weekly ==> k <= 24,
{
    let a = anchor(reference, now, p);
    lemma_anchor_is_near(reference, now, p);
    let k = lemma_first_due_is_first(a, now, p);
    if k > 0 {
        lemma_steps_so_far(a, now, p, (k - 1) as nat);
    }
    k
}

/// Where the year jump changes nothing, the next due date is the first
/// occurrence of the reference's own schedule that does not lie before
/// `now`.
pub proof fn lemma_next_due_is_first_occurrence(reference: Civil, now: Civil, p: Periodicity) -> (k:
    nat)
    requires
        reference.wf(),
        now.wf(),
        reference.position() <= now.position(),
        p == Periodicity::Weekly || reference.day <= 28 || anchor(reference, now, p) == reference,
        next_due(reference, now, p) is Some,
    ensures
        occurrence(reference, p, k) == next_due(reference, now, p),
        forall|j: nat|
            j < k ==> (#[trigger] occurrence(reference, p, j) matches Some(c) && c.position()
                < now.position()),
{
    lemma_year_jump_is_faithful(reference, now, p);
    lemma_first_due_is_first(reference, now, p)
}

/// The weekly occurrences are the instants whole weeks after the start, at
/// its time of day.
pub proof fn lemma_weekly_occurrence(start: Civil, target: Civil, k: nat)
    requires
        start.wf(),
        target.wf(),
        target.day_number() == start.day_number() + 7 * k,
        target.second == start.second,
        target.nano == start.nano,
        k > 0 ==> !target.after_last_step(),
    ensures
        occurrence(start, Periodicity::Weekly, k) == Some(target),
    decreases k,
{
    if k == 0 {
        lemma_same_day_and_time(start, target);
    } else {
        lemma_day_in_range(start);
        lemma_day_in_range(target);
        lemma_on_day(start, start.day_number() + 7);
        lemma_weekly_occurrence(start.plus_days(7)->0, target, (k - 1) as nat);
    }
}

/// Where the day exists in every month, the occurrences counted in months
/// are the start with whole steps of months added.
pub proof fn lemma_monthly_occurrence(start: Civil, p: Periodicity, k: nat)
    requires
        start.wf(),
        start.day <= 28,
        p != Periodicity::Weekly,
        start.plus_months(k * p.months()) is Some,
    ensures
        occurrence(start, p, k) == start.plus_months(k * p.months()),
    decreases k,
{
    let n = p.months();
    if k == 0 {
        assert(k * n == 0);
        assert(start.plus_months(0) == Some(start));
    } else {
        assert(k * n == (k - 1) * n + n) by (nonlinear_arith);
        assert((k - 1) * n >= 0) by (nonlinear_arith)
            requires
                k >= 1,
                n >= 1,
        ;
        let target = start.plus_months(k * n)->0;
        lemma_plus_months_some(start, k * n);
        let next = Civil {
            year: (start.year * 12 + (start.month - 1) + n) / 12,
            month: (start.year * 12 + (start.month - 1) + n) % 12 + 1,
            ..start
        };
        assert(start.year <= next.year <= target.year);
        assert(advance(start, p) == Some(next));
        assert(next.plus_months((k - 1) * n) == Some(target));
        lemma_monthly_occurrence(next, p, (k - 1) as nat);
    }
}

/// Steps of a periodicity counted in months that make up whole years.
proof fn lemma_steps_in_years(p: Periodicity, years: nat) -> (k: nat)
    requires
        p != Periodicity::Weekly,
    ensures
        k * p.months() == 12 * years,
{
    let k: nat = match p {
        Periodicity::Monthly => 12 * years,
        Periodicity::Bimonthly => 6 * years,
        Periodicity::Trimonthly => 4 * years,
        Periodicity::Quarterly => 3 * years,
        _ => 2 * years,
    };
    let n = p.months();
    assert(k * n == 12 * years) by (nonlinear_arith)
        requires
            (n == 1 && k == 12 * years) || (n == 2 && k == 6 * years) || (n == 3 && k == 4 * years)
                || (n == 4 && k == 3 * years) || (n == 6 && k == 2 * years),
    ;
    k
}

/// The months from the month of `c` to the February that follows it.
pub open spec fn months_to_february(c: Civil) -> int {
    (13 - c.month) % 12 + 1
}

/// Months added in two parts add up, where the first part keeps the day.
pub proof fn lemma_plus_months_add(start: Civil, first: int, rest: int)
    requires
        start.wf(),
        start.plus_months(first) matches Some(mid) && mid.day == start.day,
    ensures
        start.plus_months(first)->0.plus_months(rest) == start.plus_months(first + rest),
{
    let mid = start.plus_months(first)->0;
    assert(mid.year * 12 + (mid.month - 1) == start.year * 12 + (start.month - 1) + first);
}

/// A step of months from the 29th that ends before the next February
/// keeps the 29th, and brings that February nearer by its months.
pub proof fn lemma_step_before_february(start: Civil, months: int)
    requires
        start.wf(),
        start.day == 29,
        1 <= months < months_to_february(start),
        start.plus_months(months) is Some,
    ensures
        start.plus_months(months)->0.wf(),
        start.plus_months(months)->0.day == 29,
        months_to_february(start.plus_months(months)->0) == months_to_february(start) - months,
{
    let next = start.plus_months(months)->0;
    let index = start.year * 12 + (start.month - 1) + months;
    let m = start.month - 1 + months;
    assert(months_to_february(start) == if start.month == 1 {
        1int
    } else if start.month == 2 {
        12
    } else {
        14 - start.month
    });
    if m < 12 {
        assert(index / 12 == start.year && index % 12 == m);
    } else {
        assert(index == (start.year + 1) * 12 + (m - 12));
        assert(index / 12 == start.year + 1 && index % 12 == m - 12);
    }
    assert(next.month != 2);
    assert(months_to_february(next) == if next.month == 1 {
        1int
    } else {
        14 - next.month
    });
    lemma_plus_months_some(start, months);
}

/// Steps of months keep the 29th up to the next February: until then the
/// occurrences are the start with whole steps of months added.
pub proof fn lemma_occurrence_until_february(start: Civil, p: Periodicity, k: nat)
    requires
        start.wf(),
        start.day == 29,
        p != Periodicity::Weekly,
        k * p.months() <= months_to_february(start),
        start.plus_months(k * p.months()) is Some,
    ensures
        occurrence(start, p, k) == start.plus_months(k * p.months()),
    decreases k,
{
    let n = p.months();
    if k == 0 {
        assert(k * n == 0);
        assert(start.plus_months(0) == Some(start));
    } else if k == 1 {
        assert(k * n == n);
        reveal_with_fuel(occurrence, 2);
    } else {
        assert(k * n == n + (k - 1) * n) by (nonlinear_arith);
        assert((k - 1) * n >= n) by (nonlinear_arith)
            requires
                k >= 2,
                n >= 1,
        ;
        let target = start.plus_months(k * n)->0;
        lemma_plus_months_some(start, k * n);
        assert(start.plus_months(n) is Some) by {
            let index = start.year * 12 + (start.month - 1);
            assert(index / 12 == start.year);
            assert(start.year <= (index + n) / 12 <= (index + k * n) / 12);
        }
        lemma_step_before_february(start, n);
        lemma_plus_months_add(start, n, (k - 1) * n);
        lemma_occurrence_until_february(start.plus_months(n)->0, p, (k - 1) as nat);
    }
}

/// Steps add up: `b` steps after the occurrence that lies `a` steps after
/// the start lead to the occurrence that lies `a + b` steps after it.
pub proof fn lemma_occurrence_add(start: Civil, p: Periodicity, a: nat, b: nat)
    requires
        occurrence(start, p, a) is Some,
    ensures
        occurrence(start, p, a + b) == occurrence(occurrence(start, p, a)->0, p, b),
    decreases a,
{
    if a > 0 {
        lemma_occurrence_add(advance(start, p)->0, p, (a - 1) as nat, b);
    }
}

/// The year jump changes nothing: for a weekly expense, for one whose day
/// exists in every month, and for one on February 29 that is moved to
/// February 28, the next due date is the one that the plain walk from the
/// reference finds.
pub proof fn lemma_year_jump_is_faithful(reference: Civil, now: Civil, p: Periodicity)
    requires
        reference.wf(),
        now.wf(),
        p == Periodicity::Weekly || reference.day <= 28 || reference.with_year(now.year - 1)
            is None || anchor(reference, now, p) == reference,
    ensures
        next_due(reference, now, p) == next_due_by_steps(reference, now, p),
{
    let a = anchor(reference, now, p);
    if reference.position() <= now.position() && a != reference {
        lemma_anchor_not_after(reference, now, p);
        lemma_moved_into(reference, now.year - 1);
        let shifted = moved_into(reference, now.year - 1)->0;
        if p == Periodicity::Weekly {
            lemma_weekly_anchor(reference, shifted);
            lemma_day_order(a, now);
            lemma_date_order(
                shifted.year,
                shifted.month,
                shifted.day,
                now.year,
                now.month,
                now.day,
            );
            lemma_day_in_range(now);
            let k = ((a.day_number() - reference.day_number()) / 7) as nat;
            lemma_weekly_occurrence(reference, a, k);
            lemma_first_due_from_occurrence(reference, now, p, k);
        } else if reference.with_year(now.year - 1) is Some {
            let years = (shifted.year - reference.year) as nat;
            let k = lemma_steps_in_years(p, years);
            assert(reference.plus_months((12 * years) as int) == Some(shifted));
            lemma_monthly_occurrence(reference, p, k);
            lemma_first_due_from_occurrence(reference, now, p, k);
        } else {
            // The steps reach February 28 a year after the reference, and
            // keep the 28th from there on.
            let next_year = Civil { year: reference.year + 1, day: 28, ..reference };
            let first = lemma_steps_in_years(p, 1);
            assert(reference.plus_months(12) == Some(next_year));
            lemma_occurrence_until_february(reference, p, first);
            let years = (shifted.year - next_year.year) as nat;
            let rest = lemma_steps_in_years(p, years);
            assert(next_year.plus_months((12 * years) as int) == Some(shifted));
            lemma_monthly_occurrence(next_year, p, rest);
            lemma_occurrence_add(reference, p, first, rest);
            lemma_first_due_from_occurrence(reference, now, p, first + rest);
        }
    }
}

/// A weekly expense is always due on the day of the week of its
/// reference; the year jump keeps it.
pub proof fn lemma_weekly_keeps_weekday(reference: Civil, now: Civil)
    requires
        reference.wf(),
        now.wf(),
    ensures
        anchor(reference, now, Periodicity::Weekly).weekday() == reference.weekday(),
        next_due(reference, now, Periodicity::Weekly) matches Some(t) ==> t.weekday()
            == reference.weekday(),
{
    let a = anchor(reference, now, Periodicity::Weekly);
    if a != reference {
        lemma_moved_into(reference, now.year - 1);
        lemma_weekly_anchor(reference, moved_into(reference, now.year - 1)->0);
    }
    lemma_anchor(reference, now, Periodicity::Weekly);
    if reference.position() <= now.position() && first_due(a, now, Periodicity::Weekly) is Some {
        let k = lemma_first_due_is_first(a, now, Periodicity::Weekly);
        lemma_occurrence_keeps_weekday(a, k);
    }
}

/// Whole weeks keep the day of the week.
pub proof fn lemma_occurrence_keeps_weekday(start: Civil, k: nat)
    requires
        start.wf(),
        occurrence(start, Periodicity::Weekly, k) is Some,
    ensures
        occurrence(start, Periodicity::Weekly, k)->0.weekday() == start.weekday(),
    decreases k,
{
    if k > 0 {
        lemma_plus_days_some(start, 7);
        lemma_occurrence_keeps_weekday(start.plus_days(7)->0, (k - 1) as nat);
    }
}

/// The walk ends at the same occurrence from every instant between `now`
/// and the occurrence that is first due at `now`.
pub proof fn lemma_first_due_stands(start: Civil, now: Civil, later: Civil, p: Periodicity)
    requires
        start.wf(),
        now.wf(),
        later.wf(),
        first_due(start, now, p) matches Some(due) && now.position() <= later.position() <= due.position(),
    ensures
        first_due(start, later, p) == first_due(start, now, p),
    decreases span(start, now),
{
    if start.position() < now.position() {
        let next = advance(start, p)->0;
        lemma_step(start, now, p);
        lemma_first_due_stands(next, now, later, p);
    }
}

/// A due date stands until it is reached: for a weekly expense, and for
/// one whose day exists in every month, the date that is due at `now` is
/// due at every instant from `now` up to that date.
pub proof fn lemma_due_date_stands_until_reached(
    reference: Civil,
    now: Civil,
    later: Civil,
    p: Periodicity,
)
    requires
        reference.wf(),
        now.wf(),
        later.wf(),
        p == Periodicity::Weekly || reference.day <= 28,
        next_due(reference, now, p) matches Some(due) && now.position() <= later.position()
            <= due.position(),
    ensures
        next_due(reference, later, p) == next_due(reference, now, p),
{
    lemma_year_jump_is_faithful(reference, now, p);
    lemma_year_jump_is_faithful(reference, later, p);
    if reference.position() > now.position() {
        if reference.position() <= later.position() {
            assert(first_due(reference, later, p) == Some(reference));
        }
    } else {
        lemma_first_due_stands(reference, now, later, p);
    }
}

/// Once a due date has passed, another date is due.
pub proof fn lemma_due_date_passes(reference: Civil, later: Civil, due: Civil, p: Periodicity)
    requires
        reference.wf(),
        later.wf(),
        due.position() < later.position(),
    ensures
        next_due(reference, later, p) != Some(due),
{
    if next_due(reference, later, p) is Some {
        lemma_next_due_not_before(reference, later, p);
    }
}

/// While `now` lies before the last supported year, every step of the
/// walk stays within the supported years.
pub proof fn lemma_first_due_exists(start: Civil, now: Civil, p: Periodicity)
    requires
        start.wf(),
        now.wf(),
        now.year < MAX_YEAR,
    ensures
        first_due(start, now, p) is Some,
    decreases span(start, now),
{
    if start.position() < now.position() {
        lemma_order_by_fields(start, now);
        lemma_day_order(start, now);
        if p == Periodicity::Weekly {
            lemma_date_order(now.year, now.month, now.day, now.year, 12, 31);
            lemma_days_before_month(now.year, 12);
            lemma_days_before_month(now.year + 1, 12);
            lemma_days_before_next_year(now.year);
            lemma_date_order(now.year + 1, 12, 31, MAX_YEAR as int, 12, 31);
            lemma_day_in_range(start);
            assert(start.day_number() + 7 < last_day());
            lemma_on_day(start, start.day_number() + 7);
        }
        let next = advance(start, p)->0;
        lemma_step(start, now, p);
        lemma_first_due_exists(next, now, p);
    }
}

/// While `now` lies before the last supported year, there is a next due
/// date.
pub proof fn lemma_next_due_exists(reference: Civil, now: Civil, p: Periodicity)
    requires
        reference.wf(),
        now.wf(),
        now.year < MAX_YEAR,
    ensures
        next_due(reference, now, p) is Some,
{
    if reference.position() <= now.position() {
        lemma_anchor(reference, now, p);
        lemma_first_due_exists(anchor(reference, now, p), now, p);
    }
}

} // verus!
