use paperwork::calendar::{Date, TimeOfDay, Timestamp, UNIX_EPOCH_DAY};
use paperwork::duration::Duration;
use paperwork::models::{Event, ExpectedDuration, TimeEntry, TimeSheetRow};
use paperwork::report::{fill_gaps, view_full_timesheet, view_timesheet, ReportError};
use paperwork::store::TimeStore;

fn date(y: i32, m: u32, d: u32) -> Date {
    Date::from_ymd(y, m, d).unwrap()
}

fn at(y: i32, m: u32, d: u32, h: i64, min: i64) -> Timestamp {
    Timestamp { seconds: (date(y, m, d).day - UNIX_EPOCH_DAY) * 86_400 + h * 3600 + min * 60 }
}

fn entry(id: i64, start: Timestamp, stop: Option<Timestamp>) -> TimeEntry {
    TimeEntry { id, description: None, start, stop, project_id: None, workspace_id: None }
}

fn event(time: Timestamp, name: &str) -> Event {
    Event { time, name: name.to_string() }
}

fn row(day: i64, saldo: i64) -> TimeSheetRow {
    let mut r = TimeSheetRow::empty(Date { day });
    r.actual_duration = Duration::of(100);
    r.delta = Duration::of(100);
    r.saldo = Duration::of(saldo);
    r.locations = "office".to_string();
    r
}

#[test]
fn scenario_gap_between_two_days_with_zero_default() {
    let entries = vec![
        entry(1, at(2024, 1, 1, 8, 0), Some(at(2024, 1, 1, 12, 0))),
        entry(2, at(2024, 1, 3, 8, 0), Some(at(2024, 1, 3, 9, 0))),
    ];
    let rows = view_full_timesheet(
        &entries,
        &vec![],
        &vec![],
        Duration::zero(),
        date(2024, 1, 1),
        date(2024, 1, 3),
    )
    .unwrap();
    assert_eq!(rows.len(), 3);
    assert_eq!(rows[0].date, date(2024, 1, 1));
    assert_eq!(rows[0].actual_duration, Duration::of(4 * 3600));
    assert_eq!(rows[0].saldo, Duration::of(4 * 3600));
    assert_eq!(rows[1].date, date(2024, 1, 2));
    assert_eq!(rows[1].actual_duration, Duration::zero());
    assert_eq!(rows[1].delta, Duration::zero());
    assert_eq!(rows[1].saldo, rows[0].saldo);
    assert_eq!(rows[1].locations, "");
    assert_eq!(rows[2].date, date(2024, 1, 3));
    assert_eq!(rows[2].actual_duration, Duration::of(3600));
    assert_eq!(rows[2].saldo, Duration::of(5 * 3600));
}

#[test]
fn scenario_exact_default_day_keeps_the_balance() {
    let entries = vec![
        entry(1, at(2024, 1, 1, 8, 0), Some(at(2024, 1, 1, 17, 0))),
        entry(2, at(2024, 1, 2, 9, 0), Some(at(2024, 1, 2, 17, 0))),
    ];
    let rows = view_full_timesheet(
        &entries,
        &vec![],
        &vec![],
        Duration::of(8 * 3600),
        date(2024, 1, 1),
        date(2024, 1, 2),
    )
    .unwrap();
    assert_eq!(rows.len(), 2);
    assert_eq!(rows[0].delta, Duration::of(3600));
    assert_eq!(rows[1].actual_duration, Duration::of(8 * 3600));
    assert_eq!(rows[1].expected_duration, Duration::of(8 * 3600));
    assert_eq!(rows[1].delta, Duration::zero());
    assert_eq!(rows[1].saldo, rows[0].saldo);
}

#[test]
fn report_fields_of_one_day() {
    let entries = vec![
        entry(7, at(2024, 5, 6, 9, 30), Some(at(2024, 5, 6, 12, 0))),
        entry(8, at(2024, 5, 6, 13, 0), Some(at(2024, 5, 6, 16, 30))),
        entry(9, at(2024, 5, 6, 17, 0), None),
    ];
    let expected = vec![ExpectedDuration { date: date(2024, 5, 6), duration: Duration::of(7 * 3600) }];
    let events = vec![
        event(at(2024, 5, 6, 8, 0), "office"),
        event(at(2024, 5, 6, 12, 0), "home"),
        event(at(2024, 5, 6, 18, 0), "office"),
        event(at(2024, 5, 7, 8, 0), "train"),
    ];
    let rows = view_timesheet(&entries, &expected, &events, Duration::zero(), date(2024, 5, 1), date(2024, 5, 31))
        .unwrap();
    assert_eq!(rows.len(), 1);
    let r = &rows[0];
    assert_eq!(r.actual_duration, Duration::of(6 * 3600));
    assert_eq!(r.expected_duration, Duration::of(7 * 3600));
    assert_eq!(r.delta, Duration::of(-3600));
    assert_eq!(r.saldo, Duration::of(-3600));
    assert_eq!(r.normalized_start_of_business, TimeOfDay { seconds: 9 * 3600 + 1800 });
    assert_eq!(r.normalized_end_of_business, TimeOfDay { seconds: 15 * 3600 + 1800 });
    assert_eq!(r.locations, "office, home");
}

#[test]
fn entry_crossing_midnight_counts_on_its_start_day() {
    let entries = vec![entry(1, at(2024, 1, 1, 22, 0), Some(at(2024, 1, 2, 2, 0)))];
    let rows = view_full_timesheet(&entries, &vec![], &vec![], Duration::zero(), date(2024, 1, 1), date(2024, 1, 5))
        .unwrap();
    assert_eq!(rows.len(), 1);
    assert_eq!(rows[0].date, date(2024, 1, 1));
    assert_eq!(rows[0].actual_duration, Duration::of(4 * 3600));
    assert_eq!(rows[0].normalized_end_of_business, TimeOfDay { seconds: 2 * 3600 });
}

#[test]
fn balance_counts_days_before_the_range() {
    let entries = vec![
        entry(1, at(2024, 1, 1, 8, 0), Some(at(2024, 1, 1, 10, 0))),
        entry(2, at(2024, 1, 10, 8, 0), Some(at(2024, 1, 10, 9, 0))),
    ];
    let rows = view_timesheet(&entries, &vec![], &vec![], Duration::of(3600), date(2024, 1, 5), date(2024, 1, 31))
        .unwrap();
    assert_eq!(rows.len(), 1);
    assert_eq!(rows[0].delta, Duration::zero());
    assert_eq!(rows[0].saldo, Duration::of(3600));
}

#[test]
fn test_format() {
    let begin = date(2020, 1, 1);
    let mut store = TimeStore::new();
    for id in 0..10i64 {
        let day = (begin.day - UNIX_EPOCH_DAY + id) * 86_400;
        store.insert_time_entry(&entry(
            id,
            Timestamp { seconds: day + 8 * 3600 },
            Some(Timestamp { seconds: day + 12 * 3600 }),
        ));
    }
    let end = begin.add_days(10).unwrap();
    store.insert_default_expected_duration(Duration::of(42));
    assert_eq!(10, store.list_time_entries().len());
    assert_eq!(10, store.list_expected_durations().len());
    let rows = store.view_timesheet(Duration::zero(), begin, end).unwrap();
    assert_eq!(10, rows.len());
    assert_eq!(rows[9].saldo, Duration::of(10 * (4 * 3600 - 42)));
}

#[test]
fn empty_report_stays_empty() {
    let rows = view_full_timesheet(&vec![], &vec![], &vec![], Duration::zero(), date(2024, 1, 1), date(2024, 1, 3))
        .unwrap();
    assert!(rows.is_empty());
    assert!(fill_gaps(&vec![]).is_empty());
}

#[test]
fn gap_filling_covers_every_date_once() {
    let rows = vec![row(100, 5), row(103, 9), row(104, 12)];
    let filled = fill_gaps(&rows);
    assert_eq!(filled.len(), (104 - 100) + 1);
    for (k, r) in filled.iter().enumerate() {
        assert_eq!(r.date.day, 100 + k as i64);
    }
    assert_eq!(filled[0], rows[0]);
    assert_eq!(filled[3], rows[1]);
    assert_eq!(filled[4], rows[2]);
    assert_eq!(filled[1].saldo, Duration::of(5));
    assert_eq!(filled[2].saldo, Duration::of(5));
    assert_eq!(filled[2].actual_duration, Duration::zero());
    assert_eq!(filled[2].locations, "");
}

#[test]
fn balance_chains_over_filled_rows() {
    let entries = vec![
        entry(1, at(2024, 3, 1, 8, 0), Some(at(2024, 3, 1, 15, 0))),
        entry(2, at(2024, 3, 4, 8, 0), Some(at(2024, 3, 4, 18, 0))),
        entry(3, at(2024, 3, 6, 8, 0), Some(at(2024, 3, 6, 9, 0))),
    ];
    let rows = view_full_timesheet(&entries, &vec![], &vec![], Duration::of(8 * 3600), date(2024, 3, 1), date(2024, 3, 31))
        .unwrap();
    assert_eq!(rows.len(), 6);
    for k in 1..rows.len() {
        assert_eq!(rows[k].saldo.seconds, rows[k - 1].saldo.seconds + rows[k].delta.seconds);
    }
    assert_eq!(rows[5].saldo, Duration::of(-3600 + 2 * 3600 - 7 * 3600));
}

#[test]
fn overflowing_day_is_reported() {
    let lo = Timestamp { seconds: -8_796_093_022_208 };
    let hi = Timestamp { seconds: 8_796_093_022_208 };
    let entries: Vec<TimeEntry> = (0..600).map(|id| entry(id, lo, Some(hi))).collect();
    let r = view_timesheet(&entries, &vec![], &vec![], Duration::zero(), lo.date(), lo.date());
    assert_eq!(r, Err(ReportError::DurationOverflow));
    let outside = view_timesheet(&entries, &vec![], &vec![], Duration::zero(), hi.date(), hi.date());
    assert_eq!(outside, Ok(vec![]));
}

#[test]
fn entry_duration_is_stop_minus_start() {
    let closed = entry(1, at(2024, 1, 1, 8, 0), Some(at(2024, 1, 1, 9, 15)));
    assert_eq!(closed.duration(), Some(Duration::of(4500)));
    assert_eq!(entry(2, at(2024, 1, 1, 8, 0), None).duration(), None);
}
