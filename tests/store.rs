use paperwork::calendar::{Date, Timestamp, UNIX_EPOCH_DAY};
use paperwork::duration::Duration;
use paperwork::models::{Event, ExpectedDuration, TimeEntry};
use paperwork::store::{DocumentStore, TimeStore};

fn date(y: i32, m: u32, d: u32) -> Date {
    Date::from_ymd(y, m, d).unwrap()
}

fn at(y: i32, m: u32, d: u32, h: i64) -> Timestamp {
    Timestamp { seconds: (date(y, m, d).day - UNIX_EPOCH_DAY) * 86_400 + h * 3600 }
}

#[test]
fn reimporting_an_export_changes_nothing() {
    let mut store = TimeStore::new();
    store.insert_events(&vec![
        Event { time: at(2024, 1, 1, 8), name: "office".to_string() },
        Event { time: at(2024, 1, 1, 9), name: "home".to_string() },
        Event { time: at(2024, 1, 2, 8), name: "office".to_string() },
    ]);
    let export = store.list_events();
    store.insert_events(&export);
    assert_eq!(store.list_events(), export);
    assert_eq!(export.len(), 3);
}

#[test]
fn event_with_same_name_and_date_is_replaced() {
    let mut store = TimeStore::new();
    store.insert_event(&Event { time: at(2024, 1, 1, 8), name: "office".to_string() });
    store.insert_event(&Event { time: at(2024, 1, 1, 15), name: "office".to_string() });
    let events = store.list_events();
    assert_eq!(events.len(), 1);
    assert_eq!(events[0].time, at(2024, 1, 1, 15));
}

#[test]
fn upsert_overwrites_all_fields_of_an_entry() {
    let mut store = TimeStore::new();
    let first = TimeEntry {
        id: 42,
        description: Some("draft".to_string()),
        start: at(2024, 1, 1, 8),
        stop: None,
        project_id: Some(1),
        workspace_id: Some(2),
    };
    let other = TimeEntry { id: 43, ..first.clone() };
    store.insert_time_entries(&vec![first, other.clone()]);
    let second = TimeEntry {
        id: 42,
        description: None,
        start: at(2024, 1, 2, 9),
        stop: Some(at(2024, 1, 2, 11)),
        project_id: None,
        workspace_id: Some(3),
    };
    store.insert_time_entry(&second);
    let entries = store.list_time_entries();
    assert_eq!(entries.len(), 2);
    assert_eq!(entries[0], second);
    assert_eq!(entries[1], other);
}

#[test]
fn default_expected_duration_fills_only_missing_dates() {
    let mut store = TimeStore::new();
    store.insert_time_entry(&TimeEntry {
        id: 1,
        description: None,
        start: at(2024, 1, 1, 8),
        stop: Some(at(2024, 1, 1, 10)),
        project_id: None,
        workspace_id: None,
    });
    store.insert_time_entry(&TimeEntry {
        id: 2,
        description: None,
        start: at(2024, 1, 2, 8),
        stop: None,
        project_id: None,
        workspace_id: None,
    });
    store.insert_expected_duration(ExpectedDuration { date: date(2024, 1, 1), duration: Duration::of(60) });
    store.insert_default_expected_duration(Duration::of(28_800));
    store.insert_default_expected_duration(Duration::of(1));
    let expected = store.list_expected_durations();
    assert_eq!(expected.len(), 2);
    assert_eq!(expected[0], ExpectedDuration { date: date(2024, 1, 1), duration: Duration::of(60) });
    assert_eq!(expected[1], ExpectedDuration { date: date(2024, 1, 2), duration: Duration::of(28_800) });
}

#[test]
fn test_key_value_store() {
    let mut store = TimeStore::new();

    let date = date(2020, 1, 1);

    for i in 1..10i64 {
        let current_date = date.add_days(i).unwrap();
        store.put(current_date, Duration::of(i));
        let result = store.get(&current_date).unwrap();
        assert_eq!(i as u64, result.num_seconds() as u64);
    }
}

#[test]
fn expected_duration_is_replaced_by_date() {
    let mut store = TimeStore::new();
    let day = date(2024, 2, 1);
    store.insert_expected_duration(ExpectedDuration { date: day, duration: Duration::of(10) });
    store.insert_expected_duration(ExpectedDuration { date: day, duration: Duration::of(20) });
    assert_eq!(store.list_expected_durations().len(), 1);
    assert_eq!(store.get_expected_duration(day), Some(Duration::of(20)));
    assert_eq!(store.get_expected_duration(date(2024, 2, 2)), None);
}

#[test]
fn events_of_a_date_and_names() {
    let mut store = TimeStore::new();
    store.insert_events(&vec![
        Event { time: at(2024, 1, 1, 8), name: "office".to_string() },
        Event { time: at(2024, 1, 1, 9), name: "home".to_string() },
        Event { time: at(2024, 1, 2, 8), name: "office".to_string() },
    ]);
    let on_first = store.view_events_where_date_eq(date(2024, 1, 1));
    assert_eq!(on_first.len(), 2);
    assert_eq!(store.view_event_names(), vec!["office".to_string(), "home".to_string()]);
    store.insert_current_event(&"desk".to_string(), at(2024, 1, 3, 10));
    assert_eq!(store.list_events().len(), 4);
    assert_eq!(store.list_events()[3].name, "desk");
    assert_eq!(store.list_events()[3].time, at(2024, 1, 3, 10));
}

#[test]
fn export_report_covers_every_day() {
    let mut store = TimeStore::new();
    store.insert_time_entry(&TimeEntry {
        id: 1,
        description: None,
        start: at(1990, 1, 1, 8),
        stop: Some(at(1990, 1, 1, 9)),
        project_id: None,
        workspace_id: None,
    });
    store.insert_time_entry(&TimeEntry {
        id: 2,
        description: None,
        start: at(2030, 1, 1, 8),
        stop: Some(at(2030, 1, 1, 9)),
        project_id: None,
        workspace_id: None,
    });
    let rows = store.view_timesheet_export(Duration::zero()).unwrap();
    assert_eq!(rows.len(), 2);
    assert_eq!(rows[1].saldo, Duration::of(7200));
}
