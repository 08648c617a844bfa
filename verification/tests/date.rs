use chrono::{Datelike, Local, NaiveDate};
use domake::{render_today, Date};

#[test]
fn stamp_is_day_month_year() {
    assert_eq!(Date::new(2024, 3, 9).unwrap().stamp(), "09/03/2024");
    assert_eq!(Date::new(1999, 12, 31).unwrap().stamp(), "31/12/1999");
    assert_eq!(Date::new(2000, 1, 1).unwrap().stamp(), "01/01/2000");
    assert_eq!(Date::new(2026, 10, 28).unwrap().stamp(), "28/10/2026");
}

#[test]
fn short_years_get_four_digits() {
    assert_eq!(Date::new(0, 1, 1).unwrap().stamp(), "01/01/0000");
    assert_eq!(Date::new(5, 6, 7).unwrap().stamp(), "07/06/0005");
    assert_eq!(Date::new(42, 6, 7).unwrap().stamp(), "07/06/0042");
    assert_eq!(Date::new(987, 6, 7).unwrap().stamp(), "07/06/0987");
    assert_eq!(Date::new(9999, 6, 7).unwrap().stamp(), "07/06/9999");
}

#[test]
fn years_out_of_four_digits_get_a_sign() {
    assert_eq!(Date::new(10000, 1, 2).unwrap().stamp(), "02/01/+10000");
    assert_eq!(Date::new(262142, 1, 2).unwrap().stamp(), "02/01/+262142");
    assert_eq!(Date::new(i32::MAX, 1, 2).unwrap().stamp(), "02/01/+2147483647");
    assert_eq!(Date::new(-1, 1, 2).unwrap().stamp(), "02/01/-0001");
    assert_eq!(Date::new(-44, 3, 15).unwrap().stamp(), "15/03/-0044");
    assert_eq!(Date::new(-12345, 1, 2).unwrap().stamp(), "02/01/-12345");
    assert_eq!(Date::new(i32::MIN, 1, 2).unwrap().stamp(), "02/01/-2147483648");
}

#[test]
fn month_and_day_out_of_range_give_no_date() {
    assert!(Date::new(2024, 0, 1).is_none());
    assert!(Date::new(2024, 13, 1).is_none());
    assert!(Date::new(2024, 1, 0).is_none());
    assert!(Date::new(2024, 1, 32).is_none());
    assert!(Date::new(2024, u32::MAX, 1).is_none());
    assert!(Date::new(2024, 257, 1).is_none());
    assert!(Date::new(2024, 1, 257).is_none());
    assert!(Date::new(2024, 12, 31).is_some());
    assert!(Date::new(2024, 1, 1).is_some());
}

#[test]
fn day_is_not_held_against_the_month() {
    assert_eq!(Date::new(2023, 2, 31).unwrap().stamp(), "31/02/2023");
}

#[test]
fn date_gives_back_its_parts() {
    let date = Date::new(-7, 11, 30).unwrap();
    assert_eq!(date.year(), -7);
    assert_eq!(date.month(), 11);
    assert_eq!(date.day(), 30);
    assert_eq!(date, Date::new(-7, 11, 30).unwrap());
    assert_ne!(date, Date::new(-7, 11, 29).unwrap());
}

#[test]
fn stamp_is_what_chrono_writes() {
    let years = [
        -262143, -10000, -9999, -1000, -999, -100, -10, -1, 0, 1, 9, 10, 99, 100, 999, 1000, 1970,
        2024, 9999, 10000, 99999, 262142,
    ];
    for year in years {
        for month in 1..=12u32 {
            for day in [1u32, 9, 10, 28] {
                let theirs = NaiveDate::from_ymd_opt(year, month, day)
                    .unwrap()
                    .format("%d/%m/%Y")
                    .to_string();
                let ours = Date::new(year, month, day).unwrap().stamp();
                assert_eq!(ours, theirs);
            }
        }
    }
    assert_eq!(
        Date::new(2024, 1, 31).unwrap().stamp(),
        NaiveDate::from_ymd_opt(2024, 1, 31).unwrap().format("%d/%m/%Y").to_string()
    );
}

#[test]
fn today_is_the_day_on_the_clock() {
    let before = Local::now();
    let today = Date::today();
    let after = Local::now();
    let matches_before =
        (today.year(), today.month(), today.day()) == (before.year(), before.month(), before.day());
    let matches_after =
        (today.year(), today.month(), today.day()) == (after.year(), after.month(), after.day());
    assert!(matches_before || matches_after);
    assert!((1..=12).contains(&today.month()));
    assert!((1..=31).contains(&today.day()));
}

#[test]
fn makefile_of_today_carries_the_date_of_today() {
    let before = Local::now().format("%d/%m/%Y").to_string();
    let out = render_today(&Vec::new(), "helpers", &Vec::new());
    let after = Local::now().format("%d/%m/%Y").to_string();
    let with = |stamp: &str| {
        format!(
            "# This Makefile was done using 'domake'\n# Generated at {}\n\n\nhelpers\n\n",
            stamp
        )
    };
    assert!(out == with(&before) || out == with(&after));
}
