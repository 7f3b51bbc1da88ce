use paperwork::calendar::{Date, TimeOfDay, Timestamp, UNIX_EPOCH_DAY};

#[test]
fn date_numbers_follow_the_calendar() {
    assert_eq!(Date::from_ymd(1, 1, 1), Some(Date { day: 1 }));
    assert_eq!(Date::from_ymd(1970, 1, 1), Some(Date { day: UNIX_EPOCH_DAY }));
    let a = Date::from_ymd(2024, 2, 28).unwrap();
    let b = Date::from_ymd(2024, 3, 1).unwrap();
    assert_eq!(b.day - a.day, 2);
    assert_eq!(Date::from_ymd(2015, 2, 29), None);
    assert_eq!(Date::from_ymd(2015, 13, 1), None);
}

#[test]
fn timestamp_date_and_time_of_day() {
    let t = Timestamp { seconds: 0 };
    assert_eq!(t.date(), Date::from_ymd(1970, 1, 1).unwrap());
    let before = Timestamp { seconds: -1 };
    assert_eq!(before.date(), Date::from_ymd(1969, 12, 31).unwrap());
    assert_eq!(before.time_of_day(), TimeOfDay { seconds: 86_399 });
    let noon = Timestamp { seconds: 1_704_110_400 };
    assert_eq!(noon.date(), Date::from_ymd(2024, 1, 1).unwrap());
    assert_eq!(noon.time_of_day(), TimeOfDay { seconds: 43_200 });
}

#[test]
fn rfc3339_texts_are_read_as_instants() {
    let t = Timestamp::parse_rfc3339("2024-01-01T08:00:00Z").unwrap();
    assert_eq!(t.seconds, 1_704_096_000);
    let offset = Timestamp::parse_rfc3339("2024-01-01T10:00:00+02:00").unwrap();
    assert_eq!(offset, t);
    assert!(Timestamp::parse_rfc3339("yesterday").is_err());
}

#[test]
fn timestamps_outside_the_range_are_refused() {
    assert_eq!(Timestamp::from_seconds(5), Some(Timestamp { seconds: 5 }));
    assert_eq!(Timestamp::from_seconds(i64::MAX), None);
    assert_eq!(TimeOfDay::from_seconds(86_400), None);
    assert_eq!(TimeOfDay::from_seconds(60), Some(TimeOfDay { seconds: 60 }));
}

#[test]
fn add_days_moves_the_date() {
    let d = Date::from_ymd(2020, 1, 1).unwrap();
    assert_eq!(d.add_days(31), Date::from_ymd(2020, 2, 1));
    assert_eq!(Date { day: i64::MAX }.add_days(1), None);
}

#[test]
fn gregorian_leap_years_and_year_range() {
    assert!(Date::from_ymd(2024, 2, 29).is_some());
    assert!(Date::from_ymd(2000, 2, 29).is_some());
    assert_eq!(Date::from_ymd(2100, 2, 29), None);
    assert_eq!(Date::from_ymd(2023, 4, 31), None);
    assert_eq!(Date::from_ymd(2023, 1, 0), None);
    assert!(Date::from_ymd(262_142, 12, 31).is_some());
    assert_eq!(Date::from_ymd(262_143, 1, 1), None);
    assert!(Date::from_ymd(-262_143, 1, 1).is_some());
    assert_eq!(Date::from_ymd(-262_144, 12, 31), None);
    assert_eq!(Date::from_ymd(0, 1, 1), Some(Date { day: -365 }));
    let a = Date::from_ymd(2000, 1, 1).unwrap();
    let b = Date::from_ymd(2001, 1, 1).unwrap();
    assert_eq!(b.day - a.day, 366);
}
