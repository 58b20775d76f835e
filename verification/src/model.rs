//! The data that the library works on: periodicities, expenses and payments.

use crate::error::Error;
use crate::instant::Instant;
use vstd::prelude::*;

verus! {

/// How urgent an expense is, by the days left until it is due.
#[derive(Clone, Copy, Debug, PartialEq, Eq, Structural)]
pub enum Severity {
    Red,
    Yellow,
    Normal,
}

/// How often an expense recurs.
#[derive(Clone, Copy, Debug, PartialEq, Eq, Structural)]
pub enum Periodicity {
    Weekly,
    Monthly,
    Bimonthly,
    Trimonthly,
    Quarterly,
    Biannual,
}

impl Periodicity {
    /// The months from one occurrence to the next; 0 for `Weekly`, whose
    /// occurrences lie seven days apart.
    pub open spec fn months(self) -> int {
        match self {
            Periodicity::Weekly => 0,
            Periodicity::Monthly => 1,
            Periodicity::Bimonthly => 2,
            Periodicity::Trimonthly => 3,
            Periodicity::Quarterly => 4,
            Periodicity::Biannual => 6,
        }
    }

    /// With fewer days left than this, an expense is urgent.
    pub open spec fn red_below(self) -> int {
        match self {
            Periodicity::Weekly => 2,
            Periodicity::Monthly => 5,
            Periodicity::Bimonthly => 10,
            Periodicity::Trimonthly => 15,
            Periodicity::Quarterly => 20,
            Periodicity::Biannual => 30,
        }
    }

    /// With fewer days left than this, an expense calls for attention.
    pub open spec fn yellow_below(self) -> int {
        match self {
            Periodicity::Weekly => 4,
            Periodicity::Monthly => 11,
            Periodicity::Bimonthly => 16,
            Periodicity::Trimonthly => 31,
            Periodicity::Quarterly => 31,
            Periodicity::Biannual => 61,
        }
    }

    /// The severity of an expense with `days_left` days to go: red below
    /// the first limit, which holds for every overdue expense too, yellow
    /// from there up to the second limit, and normal from then on.
    pub open spec fn severity(self, days_left: int) -> Severity {
        if days_left < self.red_below() {
            Severity::Red
        } else if days_left < self.yellow_below() {
            Severity::Yellow
        } else {
            Severity::Normal
        }
    }

    /// The name under which the periodicity is stored and shown.
    pub open spec fn name(self) -> Seq<char> {
        match self {
            Periodicity::Weekly => "Weekly"@,
            Periodicity::Monthly => "Monthly"@,
            Periodicity::Bimonthly => "Bimonthly"@,
            Periodicity::Trimonthly => "Trimonthly"@,
            Periodicity::Quarterly => "Quarterly"@,
            Periodicity::Biannual => "Biannual"@,
        }
    }

    /// The periodicity with the given name, if there is one.
    pub open spec fn named(text: Seq<char>) -> Option<Periodicity> {
        if text == "Weekly"@ {
            Some(Periodicity::Weekly)
        } else if text == "Monthly"@ {
            Some(Periodicity::Monthly)
        } else if text == "Bimonthly"@ {
            Some(Periodicity::Bimonthly)
        } else if text == "Trimonthly"@ {
            Some(Periodicity::Trimonthly)
        } else if text == "Quarterly"@ {
            Some(Periodicity::Quarterly)
        } else if text == "Biannual"@ {
            Some(Periodicity::Biannual)
        } else {
            None
        }
    }

    /// The colour in which a row with `days_left` days to go is shown.
    pub fn get_row_color_on_time_left(&self, days_left: i64) -> (r: Severity)
        ensures
            r == self.severity(days_left as int),
    {
        let (red_below, yellow_below): (i64, i64) = match self {
            Periodicity::Weekly => (2, 4),
            Periodicity::Monthly => (5, 11),
            Periodicity::Bimonthly => (10, 16),
            Periodicity::Trimonthly => (15, 31),
            Periodicity::Quarterly => (20, 31),
            Periodicity::Biannual => (30, 61),
        };
        if days_left < red_below {
            return Severity::Red;
        } else if days_left < yellow_below {
            return Severity::Yellow;
        }
        Severity::Normal
    }

    /// The name under which the periodicity is stored and shown.
    pub fn as_str(&self) -> (r: &'static str)
        ensures
            r@ == self.name(),
    {
        match self {
            Periodicity::Weekly => "Weekly",
            Periodicity::Monthly => "Monthly",
            Periodicity::Bimonthly => "Bimonthly",
            Periodicity::Trimonthly => "Trimonthly",
            Periodicity::Quarterly => "Quarterly",
            Periodicity::Biannual => "Biannual",
        }
    }

    /// The periodicity that is stored under `name`. Any other text is
    /// refused.
    pub fn from_name(name: &str) -> (r: Result<Periodicity, Error>)
        ensures
            r == (match Periodicity::named(name@) {
                Some(p) => Ok::<Periodicity, Error>(p),
                None => Err(Error::UnknownPeriodicity),
            }),
    {
        let text = name.to_owned();
        if text == "Weekly".to_owned() {
            Ok(Periodicity::Weekly)
        } else if text == "Monthly".to_owned() {
            Ok(Periodicity::Monthly)
        } else if text == "Bimonthly".to_owned() {
            Ok(Periodicity::Bimonthly)
        } else if text == "Trimonthly".to_owned() {
            Ok(Periodicity::Trimonthly)
        } else if text == "Quarterly".to_owned() {
            Ok(Periodicity::Quarterly)
        } else if text == "Biannual".to_owned() {
            Ok(Periodicity::Biannual)
        } else {
            Err(Error::UnknownPeriodicity)
        }
    }

    pub fn step_months(&self) -> (r: u32)
        ensures
            r == self.months(),
    {
        match self {
            Periodicity::Weekly => 0,
            Periodicity::Monthly => 1,
            Periodicity::Bimonthly => 2,
            Periodicity::Trimonthly => 3,
            Periodicity::Quarterly => 4,
            Periodicity::Biannual => 6,
        }
    }
}

/// The fewer days are left, the more severe: an overdue expense is red,
/// and more days left never make an expense more urgent.
pub proof fn lemma_severity_grows_with_urgency(p: Periodicity, fewer: int, more: int)
    requires
        fewer <= more,
    ensures
        fewer < 0 ==> p.severity(fewer) == Severity::Red,
        p.severity(more) == Severity::Red ==> p.severity(fewer) == Severity::Red,
        p.severity(fewer) == Severity::Normal ==> p.severity(more) == Severity::Normal,
{
}

/// No two periodicities share a name.
pub proof fn lemma_names_differ(p: Periodicity, q: Periodicity)
    ensures
        p.name() == q.name() <==> p == q,
{
    reveal_strlit("Weekly");
    reveal_strlit("Monthly");
    reveal_strlit("Bimonthly");
    reveal_strlit("Trimonthly");
    reveal_strlit("Quarterly");
    reveal_strlit("Biannual");
    if p != q && p.name().len() == q.name().len() {
        assert(p.name()[0] != q.name()[0]);
    }
}

/// A periodicity is found again under its own name, and under no other.
pub proof fn lemma_name_round_trip(p: Periodicity, text: Seq<char>)
    ensures
        Periodicity::named(p.name()) == Some(p),
        Periodicity::named(text) == Some(p) <==> text == p.name(),
{
    lemma_names_differ(p, Periodicity::Weekly);
    lemma_names_differ(p, Periodicity::Monthly);
    lemma_names_differ(p, Periodicity::Bimonthly);
    lemma_names_differ(p, Periodicity::Trimonthly);
    lemma_names_differ(p, Periodicity::Quarterly);
    lemma_names_differ(p, Periodicity::Biannual);
    if Periodicity::named(text) is Some {
        let q = Periodicity::named(text)->0;
        lemma_names_differ(p, q);
        assert(text == q.name());
    }
}

/// An expense as it is stored. Its reference anchors the schedule of its
/// occurrences; name, periodicity and reference never change.
#[derive(Debug)]
pub struct Expense {
    pub id: i32,
    pub created_at: Instant,
    pub name: String,
    pub periodicity: Periodicity,
    pub due_date_reference: Instant,
}

impl Clone for Expense {
    fn clone(&self) -> (r: Self)
        ensures
            r == *self,
    {
        Expense {
            id: self.id,
            created_at: self.created_at,
            name: self.name.clone(),
            periodicity: self.periodicity,
            due_date_reference: self.due_date_reference,
        }
    }
}

/// An expense that is about to be stored.
#[derive(Clone, Copy, Debug)]
pub struct NewExpense<'a> {
    pub created_at: Instant,
    pub name: &'a str,
    pub periodicity: Periodicity,
    pub due_date_reference: Instant,
}

/// A payment as it is stored: when it was made, and the occurrence of the
/// expense that it was meant for.
#[derive(Debug)]
pub struct Payment {
    pub id: i32,
    pub created_at: Instant,
    pub paid_at: Instant,
    pub expense_name: String,
    pub due_date_of_expense: Instant,
}

impl Clone for Payment {
    fn clone(&self) -> (r: Self)
        ensures
            r == *self,
    {
        Payment {
            id: self.id,
            created_at: self.created_at,
            paid_at: self.paid_at,
            expense_name: self.expense_name.clone(),
            due_date_of_expense: self.due_date_of_expense,
        }
    }
}

/// A payment that is about to be stored.
#[derive(Clone, Copy, Debug)]
pub struct NewPayment<'a> {
    pub created_at: Instant,
    pub paid_at: Instant,
    pub expense_name: &'a str,
    pub due_date_of_expense: Instant,
}

} // verus!
