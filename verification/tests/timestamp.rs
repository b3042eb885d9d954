use diag_logger::Timestamp;

fn text(year: i32, month: u32, day: u32, hour: u32, minute: u32, second: u32) -> String {
    Timestamp::new(year, month, day, hour, minute, second).unwrap().render()
}

#[test]
fn fields_are_padded_with_zeros() {
    assert_eq!(text(2024, 1, 5, 3, 7, 9), "05/01/2024 03:07:09");
    assert_eq!(text(1970, 1, 1, 0, 0, 0), "01/01/1970 00:00:00");
    assert_eq!(text(2038, 12, 31, 23, 59, 59), "31/12/2038 23:59:59");
}

#[test]
fn years_of_fewer_than_four_digits_are_padded() {
    assert_eq!(text(0, 1, 1, 0, 0, 0), "01/01/0000 00:00:00");
    assert_eq!(text(7, 6, 15, 12, 0, 0), "15/06/0007 12:00:00");
    assert_eq!(text(987, 6, 15, 12, 0, 0), "15/06/0987 12:00:00");
    assert_eq!(text(9999, 12, 31, 23, 59, 59), "31/12/9999 23:59:59");
}

#[test]
fn years_beyond_four_digits_carry_a_sign() {
    assert_eq!(text(10000, 1, 1, 0, 0, 0), "01/01/+10000 00:00:00");
    assert_eq!(text(262142, 12, 31, 23, 59, 59), "31/12/+262142 23:59:59");
}

#[test]
fn years_before_zero_carry_a_sign() {
    assert_eq!(text(-1, 1, 1, 0, 0, 0), "01/01/-0001 00:00:00");
    assert_eq!(text(-44, 3, 15, 12, 0, 0), "15/03/-0044 12:00:00");
    assert_eq!(text(-9999, 3, 15, 12, 0, 0), "15/03/-9999 12:00:00");
    assert_eq!(text(-10000, 3, 15, 12, 0, 0), "15/03/-10000 12:00:00");
    assert_eq!(text(-262143, 1, 1, 0, 0, 0), "01/01/-262143 00:00:00");
}

#[test]
fn leap_days_exist_in_leap_years_only() {
    assert!(Timestamp::new(2024, 2, 29, 0, 0, 0).is_some());
    assert!(Timestamp::new(2000, 2, 29, 0, 0, 0).is_some());
    assert!(Timestamp::new(0, 2, 29, 0, 0, 0).is_some());
    assert!(Timestamp::new(-4, 2, 29, 0, 0, 0).is_some());
    assert!(Timestamp::new(-400, 2, 29, 0, 0, 0).is_some());
    assert!(Timestamp::new(2023, 2, 29, 0, 0, 0).is_none());
    assert!(Timestamp::new(1900, 2, 29, 0, 0, 0).is_none());
    assert!(Timestamp::new(2100, 2, 29, 0, 0, 0).is_none());
    assert!(Timestamp::new(-100, 2, 29, 0, 0, 0).is_none());
    assert!(Timestamp::new(-1, 2, 29, 0, 0, 0).is_none());
    assert!(Timestamp::new(2024, 2, 30, 0, 0, 0).is_none());
}

#[test]
fn days_that_do_not_exist_are_refused() {
    assert!(Timestamp::new(2024, 0, 1, 0, 0, 0).is_none());
    assert!(Timestamp::new(2024, 13, 1, 0, 0, 0).is_none());
    assert!(Timestamp::new(2024, 1, 0, 0, 0, 0).is_none());
    assert!(Timestamp::new(2024, 1, 32, 0, 0, 0).is_none());
    assert!(Timestamp::new(2024, 4, 31, 0, 0, 0).is_none());
    assert!(Timestamp::new(2024, 6, 31, 0, 0, 0).is_none());
    assert!(Timestamp::new(2024, 9, 31, 0, 0, 0).is_none());
    assert!(Timestamp::new(2024, 11, 31, 0, 0, 0).is_none());
    assert!(Timestamp::new(2024, 4, 30, 0, 0, 0).is_some());
    assert!(Timestamp::new(2024, 12, 31, 0, 0, 0).is_some());
    assert!(Timestamp::new(2024, u32::MAX, 1, 0, 0, 0).is_none());
    assert!(Timestamp::new(2024, 1, u32::MAX, 0, 0, 0).is_none());
}

#[test]
fn times_of_day_that_do_not_exist_are_refused() {
    assert!(Timestamp::new(2024, 1, 1, 24, 0, 0).is_none());
    assert!(Timestamp::new(2024, 1, 1, 0, 60, 0).is_none());
    assert!(Timestamp::new(2024, 1, 1, 0, 0, 60).is_none());
    assert!(Timestamp::new(2024, 1, 1, u32::MAX, 0, 0).is_none());
    assert!(Timestamp::new(2024, 1, 1, 23, 59, 59).is_some());
}

#[test]
fn years_outside_the_calendar_are_refused() {
    assert!(Timestamp::new(262142, 12, 31, 23, 59, 59).is_some());
    assert!(Timestamp::new(262143, 1, 1, 0, 0, 0).is_none());
    assert!(Timestamp::new(-262143, 1, 1, 0, 0, 0).is_some());
    assert!(Timestamp::new(-262144, 12, 31, 23, 59, 59).is_none());
    assert!(Timestamp::new(i32::MAX, 1, 1, 0, 0, 0).is_none());
    assert!(Timestamp::new(i32::MIN, 1, 1, 0, 0, 0).is_none());
}

#[test]
fn equal_fields_make_equal_readings() {
    let a = Timestamp::new(2024, 1, 5, 13, 7, 42).unwrap();
    let b = Timestamp::new(2024, 1, 5, 13, 7, 42).unwrap();
    let c = Timestamp::new(2024, 1, 5, 13, 7, 43).unwrap();
    assert_eq!(a, b);
    assert_ne!(a, c);
    assert_ne!(a.render(), c.render());
}

/// The years on which the sweeps below run: the ends of the calendar, the
/// places where the year's text changes its form, and a spread in between.
fn sample_years() -> Vec<i32> {
    let mut years = vec![-262144, -262143, -262142, 262141, 262142, 262143];
    years.extend(-10002..=-9998);
    years.extend(-1001..=-998);
    years.extend(-402..=402);
    years.extend(998..=1001);
    years.extend(1890..=2110);
    years.extend(9998..=10002);
    let mut year = -262000;
    while year < 262000 {
        years.push(year);
        year += 1777;
    }
    years
}

#[test]
fn the_days_that_exist_are_those_of_the_calendar() {
    for year in sample_years() {
        for month in 0..=13 {
            for day in 0..=32 {
                let ours = Timestamp::new(year, month, day, 12, 30, 45).is_some();
                let theirs = chrono::NaiveDate::from_ymd_opt(year, month, day).is_some();
                assert_eq!(ours, theirs, "{}-{}-{}", year, month, day);
            }
        }
    }
}

#[test]
fn the_text_is_made_of_the_fields() {
    for year in sample_years() {
        for (month, day) in [(1, 1), (2, 28), (7, 9), (10, 31), (12, 31)] {
            for (hour, minute, second) in [(0, 0, 0), (9, 5, 7), (10, 10, 10), (23, 59, 59)] {
                let Some(at) = Timestamp::new(year, month, day, hour, minute, second) else {
                    continue;
                };
                let shown = if (0..=9999).contains(&year) {
                    format!("{:04}", year)
                } else {
                    format!("{:+05}", year)
                };
                let expected = format!(
                    "{:02}/{:02}/{} {:02}:{:02}:{:02}",
                    day, month, shown, hour, minute, second
                );
                assert_eq!(at.render(), expected);
            }
        }
    }
}
