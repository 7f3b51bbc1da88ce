use paperwork::calendar::Timestamp;
use paperwork::toggl::{time_entries_from_records, value_as_time_entry, JsonField, TogglApiError, TogglRecord};

fn text(s: &str) -> JsonField {
    JsonField::Text(s.to_string())
}

fn record() -> TogglRecord {
    TogglRecord {
        id: JsonField::Integer(11),
        description: text("meeting"),
        start: text("2024-01-01T08:00:00Z"),
        stop: text("2024-01-01T09:30:00+00:00"),
        project_id: JsonField::Null,
        workspace_id: JsonField::Integer(5),
    }
}

#[test]
fn record_becomes_a_time_entry() {
    let e = value_as_time_entry(&record()).unwrap();
    assert_eq!(e.id, 11);
    assert_eq!(e.description, Some("meeting".to_string()));
    assert_eq!(e.start, Timestamp { seconds: 1_704_096_000 });
    assert_eq!(e.stop, Some(Timestamp { seconds: 1_704_101_400 }));
    assert_eq!(e.project_id, None);
    assert_eq!(e.workspace_id, Some(5));
}

#[test]
fn open_record_has_no_stop() {
    let r = TogglRecord { stop: JsonField::Null, ..record() };
    assert_eq!(value_as_time_entry(&r).unwrap().stop, None);
}

#[test]
fn record_errors() {
    let no_start = TogglRecord { start: JsonField::Null, ..record() };
    assert_eq!(value_as_time_entry(&no_start), Err(TogglApiError::ValueError("Start time not set!".to_string())));
    let bad_start = TogglRecord { start: text("soon"), ..record() };
    assert!(matches!(value_as_time_entry(&bad_start), Err(TogglApiError::ParseError(_))));
    let odd_stop = TogglRecord { stop: JsonField::Integer(3), ..record() };
    assert_eq!(value_as_time_entry(&odd_stop), Err(TogglApiError::ValueError("Could not parse value!".to_string())));
    let text_id = TogglRecord { id: text("11"), ..record() };
    assert_eq!(value_as_time_entry(&text_id), Err(TogglApiError::SerdeError));
    let odd_project = TogglRecord { project_id: JsonField::Other, ..record() };
    assert_eq!(value_as_time_entry(&odd_project), Err(TogglApiError::SerdeError));
}

#[test]
fn invalid_records_are_skipped() {
    let records = vec![
        record(),
        TogglRecord { start: JsonField::Null, ..record() },
        TogglRecord { id: JsonField::Integer(12), ..record() },
    ];
    let entries = time_entries_from_records(&records);
    assert_eq!(entries.len(), 2);
    assert_eq!(entries[0].id, 11);
    assert_eq!(entries[1].id, 12);
}
