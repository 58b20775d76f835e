use expenses::instant::Instant;
use expenses::model::{Expense, Payment, Periodicity};
use expenses::queries::{get_entries, latest_payment};

fn day(year: i32, month: u32, day: u32) -> Instant {
    Instant::new(year, month, day, 0, 0).unwrap()
}

fn expense(id: i32, name: &str) -> Expense {
    Expense {
        id,
        created_at: day(2024, 1, 1),
        name: name.to_string(),
        periodicity: Periodicity::Monthly,
        due_date_reference: day(2024, 1, 15),
    }
}

fn payment(id: i32, name: &str, paid_at: Instant) -> Payment {
    Payment {
        id,
        created_at: paid_at,
        paid_at,
        expense_name: name.to_string(),
        due_date_of_expense: day(2024, 2, 15),
    }
}

#[test]
fn latest_payment_is_the_one_paid_last() {
    let payments = vec![
        payment(1, "Rent", day(2024, 2, 1)),
        payment(2, "Gym", day(2024, 5, 1)),
        payment(3, "Rent", day(2024, 3, 1)),
        payment(4, "Rent", day(2024, 1, 1)),
    ];
    assert_eq!(latest_payment(&payments, "Rent"), Some(2));
    assert_eq!(latest_payment(&payments, "Gym"), Some(1));
    assert_eq!(latest_payment(&payments, "Water"), None);
    assert_eq!(latest_payment(&payments, "rent"), None);
    assert_eq!(latest_payment(&[], "Rent"), None);
}

#[test]
fn payments_at_one_instant_are_ranked_by_id() {
    let payments = vec![
        payment(5, "Rent", day(2024, 3, 1)),
        payment(9, "Rent", day(2024, 3, 1)),
        payment(7, "Rent", day(2024, 3, 1)),
        payment(9, "Rent", day(2024, 3, 1)),
        payment(20, "Rent", day(2024, 2, 1)),
    ];
    assert_eq!(latest_payment(&payments, "Rent"), Some(1));
}

#[test]
fn entries_pair_each_expense_with_its_latest_payment() {
    let expenses = vec![expense(1, "Rent"), expense(2, "Gym"), expense(3, "Water")];
    let payments = vec![
        payment(1, "Rent", day(2024, 2, 1)),
        payment(2, "Water", day(2024, 2, 2)),
        payment(3, "Rent", day(2024, 3, 1)),
        payment(4, "Orphan", day(2024, 4, 1)),
    ];
    let entries = get_entries(&expenses, &payments);
    assert_eq!(entries.len(), 3);
    assert_eq!(entries[0].0.name, "Rent");
    assert_eq!(entries[0].0.id, 1);
    assert_eq!(entries[0].1.as_ref().map(|p| p.id), Some(3));
    assert_eq!(entries[0].1.as_ref().map(|p| p.paid_at), Some(day(2024, 3, 1)));
    assert_eq!(entries[1].0.name, "Gym");
    assert!(entries[1].1.is_none());
    assert_eq!(entries[2].0.name, "Water");
    assert_eq!(entries[2].1.as_ref().map(|p| p.id), Some(2));
    assert_eq!(entries[2].1.as_ref().map(|p| p.expense_name.as_str()), Some("Water"));
}

#[test]
fn entries_hold_no_row_for_an_expense_that_is_gone() {
    let expenses = vec![expense(2, "Gym")];
    let payments = vec![payment(2, "Gym", day(2024, 2, 2))];
    let entries = get_entries(&expenses, &payments);
    assert_eq!(entries.len(), 1);
    assert!(entries.iter().all(|(e, _)| e.name != "Rent"));
    assert!(get_entries(&[], &[]).is_empty());
    assert!(get_entries(&[], &payments).is_empty());
}
