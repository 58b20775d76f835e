use expenses::commands::{
    check_paid_instant, check_reference_date, explain_add_failure, explain_pay_failure,
    new_expense, new_payment, parse_paid_instant, parse_reference_date, FOREIGN_KEY_VIOLATION,
    UNIQUE_VIOLATION,
};
use expenses::error::Error;
use expenses::instant::Instant;
use expenses::model::{Expense, Periodicity};

const MONTHS: [Periodicity; 5] = [
    Periodicity::Monthly,
    Periodicity::Bimonthly,
    Periodicity::Trimonthly,
    Periodicity::Quarterly,
    Periodicity::Biannual,
];

#[test]
fn reference_date_is_read() {
    assert_eq!(parse_reference_date("1996-12-19", Periodicity::Monthly), Ok((1996, 12, 19)));
    assert_eq!(parse_reference_date("2024-02-28", Periodicity::Biannual), Ok((2024, 2, 28)));
    assert_eq!(parse_reference_date("2024-1-5", Periodicity::Weekly), Ok((2024, 1, 5)));
}

#[test]
fn reference_date_that_is_no_date_is_refused() {
    for text in ["", "tomorrow", "2024-13-01", "2023-02-29", "2024-01-15T00:00:00Z", "15/01/2024"] {
        assert_eq!(parse_reference_date(text, Periodicity::Weekly), Err(Error::InvalidDate));
        assert_eq!(parse_reference_date(text, Periodicity::Monthly), Err(Error::InvalidDate));
    }
    assert_eq!(check_reference_date(None, Periodicity::Weekly), Err(Error::InvalidDate));
}

#[test]
fn late_day_of_month_needs_a_weekly_expense() {
    for text in ["2024-01-29", "2024-01-30", "2024-01-31", "2024-02-29"] {
        assert!(parse_reference_date(text, Periodicity::Weekly).is_ok());
        for periodicity in MONTHS {
            assert_eq!(parse_reference_date(text, periodicity), Err(Error::DayNotInEveryMonth));
        }
    }
    for periodicity in MONTHS {
        assert_eq!(check_reference_date(Some((2024, 5, 28)), periodicity), Ok((2024, 5, 28)));
        assert_eq!(
            check_reference_date(Some((2024, 5, 29)), periodicity),
            Err(Error::DayNotInEveryMonth)
        );
    }
    assert_eq!(check_reference_date(Some((2024, 5, 31)), Periodicity::Weekly), Ok((2024, 5, 31)));
}

#[test]
fn paid_instant_is_read_and_taken_to_utc() {
    let now = Instant::new(2024, 2, 10, 0, 0).unwrap();
    assert_eq!(
        parse_paid_instant(Some("1996-12-19T16:39:57-08:00"), &now),
        Ok(Instant::new(1996, 12, 20, 39 * 60 + 57, 0).unwrap())
    );
    assert_eq!(
        parse_paid_instant(Some("2024-02-09T23:00:00.125Z"), &now),
        Ok(Instant::new(2024, 2, 9, 23 * 3600, 125_000_000).unwrap())
    );
}

#[test]
fn paid_instant_defaults_to_now() {
    let now = Instant::new(2024, 2, 10, 4711, 12).unwrap();
    assert_eq!(parse_paid_instant(None, &now), Ok(now));
}

#[test]
fn paid_instant_that_is_no_instant_is_refused() {
    let now = Instant::new(2024, 2, 10, 0, 0).unwrap();
    for text in ["", "2024-02-09", "yesterday", "2024-02-30T00:00:00Z", "2024-02-09 23:00:00"] {
        assert_eq!(parse_paid_instant(Some(text), &now), Err(Error::InvalidDate));
    }
    assert_eq!(check_paid_instant(None), Err(Error::InvalidDate));
    assert_eq!(check_paid_instant(Some((2023, 2, 29, 0, 0))), Err(Error::InvalidDate));
    assert_eq!(check_paid_instant(Some((2023, 2, 28, 86400, 0))), Err(Error::InvalidDate));
    assert_eq!(
        check_paid_instant(Some((2023, 2, 28, 86398, 1_000_000_000))),
        Err(Error::InvalidDate)
    );
    assert_eq!(
        check_paid_instant(Some((2023, 2, 28, 86399, 2_000_000_000))),
        Err(Error::InvalidDate)
    );
    assert_eq!(
        check_paid_instant(Some((2023, 2, 28, 86399, 999_999_999))),
        Ok(Instant::new(2023, 2, 28, 86399, 999_999_999).unwrap())
    );
    assert_eq!(
        check_paid_instant(Some((2023, 2, 28, 86399, 1_000_000_000))),
        Ok(Instant::new(2023, 2, 28, 86399, 1_000_000_000).unwrap())
    );
}

#[test]
fn payment_in_a_leap_second_is_read() {
    let now = Instant::new(2024, 2, 10, 0, 0).unwrap();
    assert_eq!(
        parse_paid_instant(Some("2016-12-31T23:59:60Z"), &now),
        Ok(Instant::new(2016, 12, 31, 86399, 1_000_000_000).unwrap())
    );
    assert_eq!(
        parse_paid_instant(Some("2015-07-01T01:29:60.25+01:30"), &now),
        Ok(Instant::new(2015, 6, 30, 86399, 1_250_000_000).unwrap())
    );
    assert_eq!(
        parse_paid_instant(Some("2024-03-05T10:17:60-00:00"), &now),
        Ok(Instant::new(2024, 3, 5, 10 * 3600 + 17 * 60 + 59, 1_000_000_000).unwrap())
    );
    assert_eq!(parse_paid_instant(Some("2016-12-31T23:59:61Z"), &now), Err(Error::InvalidDate));
}

#[test]
fn payment_in_a_leap_second_is_recorded() {
    let reference = Instant::new(2016, 1, 15, 0, 0).unwrap();
    let held = Expense {
        id: 1,
        created_at: reference,
        name: "Rent".to_string(),
        periodicity: Periodicity::Monthly,
        due_date_reference: reference,
    };
    let now = Instant::new(2017, 1, 1, 30, 0).unwrap();
    let paid_at = parse_paid_instant(Some("2016-12-31T23:59:60Z"), &now).unwrap();
    let stored = new_payment("Rent", &Some(held), paid_at, &now).unwrap();
    assert_eq!(stored.paid_at, Instant::new(2016, 12, 31, 86399, 1_000_000_000).unwrap());
    assert_eq!(stored.due_date_of_expense, Instant::new(2017, 1, 15, 0, 0).unwrap());
    assert_eq!(stored.created_at, now);
}

#[test]
fn payment_needs_its_expense() {
    let now = Instant::new(2024, 2, 10, 0, 0).unwrap();
    assert_eq!(new_payment("Rent", &None, now, &now).err(), Some(Error::NoSuchExpense));
}

#[test]
fn payment_is_made_for_the_next_occurrence() {
    let reference = Instant::new(2020, 6, 5, 7200, 0).unwrap();
    let held = Expense {
        id: 7,
        created_at: reference,
        name: "Water".to_string(),
        periodicity: Periodicity::Trimonthly,
        due_date_reference: reference,
    };
    let now = Instant::new(2024, 2, 10, 0, 0).unwrap();
    let paid_at = Instant::new(2024, 2, 1, 0, 0).unwrap();
    let stored = new_payment("Water", &Some(held), paid_at, &now).unwrap();
    assert_eq!(stored.due_date_of_expense, Instant::new(2024, 3, 5, 7200, 0).unwrap());
    assert_eq!(stored.paid_at, paid_at);
    assert_eq!(stored.created_at, now);
    assert_eq!(stored.expense_name, "Water");
}

#[test]
fn payment_fails_where_the_due_date_is_out_of_range() {
    let reference = Instant::new(262142, 12, 20, 0, 0).unwrap();
    let held = Expense {
        id: 7,
        created_at: reference,
        name: "Water".to_string(),
        periodicity: Periodicity::Monthly,
        due_date_reference: reference,
    };
    let now = Instant::new(262142, 12, 21, 0, 0).unwrap();
    assert_eq!(new_payment("Water", &Some(held), now, &now).err(), Some(Error::OutOfRange));
}

#[test]
fn new_expense_holds_what_it_was_given() {
    let now = Instant::new(2024, 2, 10, 10, 10).unwrap();
    let reference = Instant::new(2024, 1, 15, 0, 0).unwrap();
    let stored = new_expense("Rent", Periodicity::Monthly, reference, &now);
    assert_eq!(stored.name, "Rent");
    assert_eq!(stored.periodicity, Periodicity::Monthly);
    assert_eq!(stored.due_date_reference, reference);
    assert_eq!(stored.created_at, now);
}

#[test]
fn storage_failures_are_told_apart() {
    assert_eq!(FOREIGN_KEY_VIOLATION, 787);
    assert_eq!(UNIQUE_VIOLATION, 2067);
    assert_eq!(explain_pay_failure(787), Some(Error::NoSuchExpense));
    assert_eq!(explain_add_failure(2067), Some(Error::DuplicateExpense));
    assert_eq!(explain_pay_failure(2067), None);
    assert_eq!(explain_add_failure(787), None);
    for code in [0, 1, 19, 275, 1299, 1555, -787, -2067, i32::MAX, i32::MIN] {
        assert_eq!(explain_pay_failure(code), None);
        assert_eq!(explain_add_failure(code), None);
    }
}
