use chrono::{Datelike, Days, NaiveDate, NaiveTime};
use expenses::calendar::{
    day_number, days_before, leap_year, month_length, MAX_YEAR, MIN_YEAR, UNIX_EPOCH_DAY,
};
use expenses::instant::Instant;

#[test]
fn leap_years() {
    for year in [2000, 2004, 2024, 1600, 0, -4, -400, 262140] {
        assert!(leap_year(year));
    }
    for year in [1900, 2001, 2023, 2100, -1, -100, -262143, 262142] {
        assert!(!leap_year(year));
    }
}

#[test]
fn month_lengths() {
    let lengths = [31, 28, 31, 30, 31, 30, 31, 31, 30, 31, 30, 31];
    for (month, length) in (1..=12).zip(lengths) {
        assert_eq!(month_length(2023, month), length);
        assert_eq!(month_length(2024, month), if month == 2 { 29 } else { length });
    }
}

#[test]
fn the_dates_that_exist_are_those_of_the_calendar() {
    for year in [MIN_YEAR, -401, -1, 0, 1, 1900, 2000, 2023, 2024, MAX_YEAR] {
        for month in 0..14 {
            for day in 0..33 {
                assert_eq!(
                    Instant::new(year, month, day, 0, 0).is_some(),
                    NaiveDate::from_ymd_opt(year, month, day).is_some()
                );
            }
        }
    }
    assert!(Instant::new(MIN_YEAR - 1, 12, 31, 0, 0).is_none());
    assert!(Instant::new(MAX_YEAR + 1, 1, 1, 0, 0).is_none());
    assert_eq!(NaiveDate::MIN, NaiveDate::from_ymd_opt(MIN_YEAR, 1, 1).unwrap());
    assert_eq!(NaiveDate::MAX, NaiveDate::from_ymd_opt(MAX_YEAR, 12, 31).unwrap());
}

#[test]
fn time_of_day_must_lie_within_the_day() {
    assert!(Instant::new(2024, 1, 1, 86399, 999_999_999).is_some());
    assert!(Instant::new(2024, 1, 1, 86400, 0).is_none());
    assert!(Instant::new(2024, 1, 1, u32::MAX, 0).is_none());
    assert!(Instant::new(2024, 1, 1, 0, u32::MAX).is_none());
}

#[test]
fn a_leap_second_follows_the_last_second_of_a_minute() {
    assert!(Instant::new(2024, 1, 1, 86399, 1_000_000_000).is_some());
    assert!(Instant::new(2024, 1, 1, 86399, 1_999_999_999).is_some());
    assert!(Instant::new(2024, 1, 1, 86399, 2_000_000_000).is_none());
    assert!(Instant::new(2024, 1, 1, 59, 1_500_000_000).is_some());
    assert!(Instant::new(2024, 1, 1, 0, 1_000_000_000).is_none());
    assert!(Instant::new(2024, 1, 1, 58, 1_000_000_000).is_none());
    assert!(Instant::new(2024, 1, 1, 60, 1_000_000_000).is_none());
    for second in [0, 1, 58, 59, 60, 119, 3599, 3600, 86398, 86399, 86400] {
        for nano in [0, 999_999_999, 1_000_000_000, 1_999_999_999, 2_000_000_000] {
            assert_eq!(
                Instant::new(2024, 1, 1, second, nano).is_some(),
                NaiveTime::from_num_seconds_from_midnight_opt(second, nano).is_some()
            );
        }
    }
}

#[test]
fn instants_are_ordered_as_chrono_orders_them() {
    let fields = [
        (2016, 12, 31, 86398, 999_999_999),
        (2016, 12, 31, 86399, 0),
        (2016, 12, 31, 86399, 999_999_999),
        (2016, 12, 31, 86399, 1_000_000_000),
        (2016, 12, 31, 86399, 1_999_999_999),
        (2017, 1, 1, 0, 0),
        (2017, 1, 1, 59, 1_500_000_000),
        (2017, 1, 1, 60, 200_000_000),
    ];
    for (i, a) in fields.iter().enumerate() {
        for (j, b) in fields.iter().enumerate() {
            let left = Instant::new(a.0, a.1, a.2, a.3, a.4).unwrap();
            let right = Instant::new(b.0, b.1, b.2, b.3, b.4).unwrap();
            let at = |f: &(i32, u32, u32, u32, u32)| {
                NaiveDate::from_ymd_opt(f.0, f.1, f.2)
                    .unwrap()
                    .and_time(NaiveTime::from_num_seconds_from_midnight_opt(f.3, f.4).unwrap())
                    .and_utc()
            };
            assert_eq!(left.is_before(&right), at(a) < at(b));
            assert_eq!(left.is_same(&right), at(a) == at(b));
            assert_eq!(left.is_before(&right), i < j);
        }
    }
}

#[test]
fn weekdays_are_counted_from_monday() {
    assert_eq!(Instant::new(1, 1, 1, 0, 0).unwrap().weekday(), 0);
    assert_eq!(Instant::new(1970, 1, 1, 0, 0).unwrap().weekday(), 3);
    assert_eq!(Instant::new(2015, 9, 8, 0, 0).unwrap().weekday(), 1);
    assert_eq!(Instant::new(-308, 3, 14, 0, 0).unwrap().weekday(), 4);
    assert_eq!(Instant::new(2026, 11, 1, 86399, 1_000_000_000).unwrap().weekday(), 6);
    for start in [NaiveDate::MIN, NaiveDate::from_ymd_opt(-1, 12, 1).unwrap(),
        NaiveDate::from_ymd_opt(2023, 12, 1).unwrap(), NaiveDate::from_ymd_opt(262_142, 10, 1).unwrap()]
    {
        let mut date = start;
        for _ in 0..90 {
            let t = Instant::new(date.year(), date.month(), date.day(), 0, 0).unwrap();
            assert_eq!(t.weekday(), date.weekday().num_days_from_monday());
            date = date.checked_add_days(Days::new(1)).unwrap();
        }
    }
}

#[test]
fn the_year_is_replaced_where_the_day_exists() {
    let t = Instant::new(2020, 2, 29, 86399, 1_000_000_000).unwrap();
    assert_eq!(t.with_year(2024), Some(Instant::new(2024, 2, 29, 86399, 1_000_000_000).unwrap()));
    assert_eq!(t.with_year(2020), Some(t));
    assert_eq!(t.with_year(2023), None);
    assert_eq!(t.with_year(1900), None);
    assert_eq!(t.with_year(MAX_YEAR + 1), None);
    assert_eq!(t.with_year(MIN_YEAR - 1), None);
    let u = Instant::new(2021, 7, 31, 5, 6).unwrap();
    for year in [MIN_YEAR, -1, 0, 1999, MAX_YEAR] {
        assert_eq!(u.with_year(year), Some(Instant::new(year, 7, 31, 5, 6).unwrap()));
        let there = NaiveDate::from_ymd_opt(2021, 7, 31).unwrap().with_year(year).unwrap();
        assert_eq!((there.year(), there.month(), there.day()), (year, 7, 31));
    }
}

#[test]
fn fields_are_kept() {
    let t = Instant::new(-44, 3, 15, 43200, 7).unwrap();
    assert_eq!(t.year(), -44);
    assert_eq!(t.month(), 3);
    assert_eq!(t.day(), 15);
    assert_eq!(t.second_of_day(), 43200);
    assert_eq!(t.nanosecond(), 7);
}

#[test]
fn instants_are_ordered_by_their_fields() {
    let ordered = [
        Instant::new(-1, 12, 31, 86399, 999_999_999).unwrap(),
        Instant::new(0, 1, 1, 0, 0).unwrap(),
        Instant::new(2023, 12, 31, 86399, 0).unwrap(),
        Instant::new(2024, 1, 1, 0, 0).unwrap(),
        Instant::new(2024, 1, 1, 0, 1).unwrap(),
        Instant::new(2024, 1, 1, 1, 0).unwrap(),
        Instant::new(2024, 1, 2, 0, 0).unwrap(),
        Instant::new(2024, 2, 1, 0, 0).unwrap(),
    ];
    for (i, a) in ordered.iter().enumerate() {
        for (j, b) in ordered.iter().enumerate() {
            assert_eq!(a.is_before(b), i < j);
            assert_eq!(a.is_same(b), i == j);
            assert_eq!(a == b, i == j);
        }
    }
}

#[test]
fn days_before_each_month() {
    let common = [0, 31, 59, 90, 120, 151, 181, 212, 243, 273, 304, 334];
    for (month, before) in (1..=12).zip(common) {
        assert_eq!(days_before(2023, month), before);
        assert_eq!(days_before(2024, month), if month > 2 { before + 1 } else { before });
    }
}

#[test]
fn day_numbers_are_those_of_the_calendar() {
    assert_eq!(day_number(1, 1, 1), 1);
    assert_eq!(day_number(0, 12, 31), 0);
    assert_eq!(day_number(1970, 1, 1), UNIX_EPOCH_DAY);
    assert_eq!(day_number(1999, 9, 3), 730_000);
    let starts = [
        NaiveDate::MIN,
        NaiveDate::from_ymd_opt(-100_000, 2, 20).unwrap(),
        NaiveDate::from_ymd_opt(-402, 12, 1).unwrap(),
        NaiveDate::from_ymd_opt(-1, 11, 1).unwrap(),
        NaiveDate::from_ymd_opt(1899, 1, 1).unwrap(),
        NaiveDate::from_ymd_opt(1999, 1, 1).unwrap(),
        NaiveDate::from_ymd_opt(2023, 1, 1).unwrap(),
        NaiveDate::from_ymd_opt(262_139, 6, 1).unwrap(),
    ];
    for start in starts {
        let mut date = start;
        for _ in 0..1096 {
            let t = Instant::new(date.year(), date.month(), date.day(), 0, 0).unwrap();
            assert_eq!(t.day_number(), i64::from(date.num_days_from_ce()));
            assert_eq!(day_number(date.year(), date.month(), date.day()), t.day_number());
            assert_eq!(
                (t.day_number() + 6).rem_euclid(7),
                i64::from(date.weekday().num_days_from_monday())
            );
            date = date.checked_add_days(Days::new(1)).unwrap();
        }
    }
    let last = Instant::new(MAX_YEAR, 12, 31, 0, 0).unwrap();
    assert_eq!(last.day_number(), i64::from(NaiveDate::MAX.num_days_from_ce()));
}

#[test]
fn timestamps_count_seconds_since_1970() {
    assert_eq!(Instant::new(1970, 1, 1, 0, 0).unwrap().timestamp(), 0);
    assert_eq!(Instant::new(1969, 12, 31, 86399, 5).unwrap().timestamp(), -1);
    assert_eq!(Instant::new(2015, 5, 15, 0, 0).unwrap().timestamp(), 1_431_648_000);
    assert_eq!(Instant::new(2001, 9, 9, 6400, 999).unwrap().timestamp(), 1_000_000_000);
    for (year, month, day, second) in [(-262143, 1, 1, 0), (262142, 12, 31, 86399), (-1, 2, 3, 4)] {
        let expected = NaiveDate::from_ymd_opt(year, month, day)
            .unwrap()
            .and_hms_opt(second / 3600, second / 60 % 60, second % 60)
            .unwrap()
            .and_utc()
            .timestamp();
        assert_eq!(Instant::new(year, month, day, second, 0).unwrap().timestamp(), expected);
    }
}
