//! Reading the records that the time-tracking service returns: each record's
//! fields become a time entry, or the record is rejected.

use vstd::prelude::*;

use crate::calendar::{rfc3339_seconds, Timestamp};
use crate::models::TimeEntry;

verus! {

/// A field of a record as the service sends it.
#[derive(Clone, Debug, PartialEq, Eq)]
pub enum JsonField {
    /// `null`, or a field that is absent.
    Null,
    /// An integer that fits in 64 signed bits.
    Integer(i64),
    /// A string.
    Text(String),
    /// Anything else: a fraction, a larger integer, a boolean, an array or
    /// an object.
    Other,
}

/// The fields of one time-entry record.
#[derive(Clone, Debug, PartialEq, Eq)]
pub struct TogglRecord {
    pub id: JsonField,
    pub description: JsonField,
    pub start: JsonField,
    pub stop: JsonField,
    pub project_id: JsonField,
    pub workspace_id: JsonField,
}

/// Why talking to the time-tracking service, or reading its answer, failed.
#[derive(Debug, PartialEq, Eq)]
pub enum TogglApiError {
    Unknown,
    /// The request could not be sent or its answer not received.
    RequestError,
    /// A value does not have the type that its field asks for.
    SerdeError,
    /// A field holds no usable value; the text says which problem it is.
    ValueError(String),
    /// A text is not an RFC 3339 instant; chrono's reason.
    ParseError(chrono::format::ParseError),
}

/// Whether the field may stand for an optional text.
pub open spec fn is_optional_text(f: JsonField) -> bool {
    f is Null || f is Text
}

/// Whether the field may stand for an optional integer.
pub open spec fn is_optional_integer(f: JsonField) -> bool {
    f is Null || f is Integer
}

/// Whether the field may stand for an optional instant.
pub open spec fn is_optional_instant(f: JsonField) -> bool {
    match f {
        JsonField::Null => true,
        JsonField::Text(s) => rfc3339_seconds(s@) is Some,
        _ => false,
    }
}

/// The optional text of a field.
pub open spec fn text_value(f: JsonField) -> Option<String> {
    match f {
        JsonField::Text(s) => Some(s),
        _ => None,
    }
}

/// The optional integer of a field.
pub open spec fn integer_value(f: JsonField) -> Option<i64> {
    match f {
        JsonField::Integer(v) => Some(v),
        _ => None,
    }
}

/// The optional instant of a field.
pub open spec fn instant_value(f: JsonField) -> Option<Timestamp> {
    match f {
        JsonField::Text(s) => match rfc3339_seconds(s@) {
            Some(t) => Some(Timestamp { seconds: t }),
            None => None,
        },
        _ => None,
    }
}

/// The time entry that a record stands for, if it stands for one: its id is
/// an integer, its start an instant, its stop an instant or null, and its
/// other fields are of their types or null.
pub open spec fn decoded(record: TogglRecord) -> Option<TimeEntry> {
    if record.id is Integer && is_optional_text(record.description) && record.start is Text
        && is_optional_instant(record.start) && is_optional_instant(record.stop)
        && is_optional_integer(record.project_id) && is_optional_integer(record.workspace_id) {
        Some(
            TimeEntry {
                id: record.id->Integer_0,
                description: text_value(record.description),
                start: instant_value(record.start).unwrap(),
                stop: instant_value(record.stop),
                project_id: integer_value(record.project_id),
                workspace_id: integer_value(record.workspace_id),
            },
        )
    } else {
        None
    }
}

/// Whether `e` is the error of the first field, in the order id,
/// description, start, stop, project, workspace, that a record fails on.
pub open spec fn is_decode_error(record: TogglRecord, e: TogglApiError) -> bool {
    if !(record.id is Integer) || !is_optional_text(record.description) {
        e == TogglApiError::SerdeError
    } else if !is_optional_instant(record.start) {
        if record.start is Text {
            e is ParseError
        } else {
            e matches TogglApiError::ValueError(m) && m@ == "Could not parse value!"@
        }
    } else if record.start is Null {
        e matches TogglApiError::ValueError(m) && m@ == "Start time not set!"@
    } else if !is_optional_instant(record.stop) {
        if record.stop is Text {
            e is ParseError
        } else {
            e matches TogglApiError::ValueError(m) && m@ == "Could not parse value!"@
        }
    } else {
        e == TogglApiError::SerdeError
    }
}

/// Reads an instant field: an RFC 3339 text, or null.
fn as_naive_date_time(value: &JsonField) -> (r: Result<Option<Timestamp>, TogglApiError>)
    ensures
        r is Ok <==> is_optional_instant(*value),
        r matches Ok(t) ==> t == instant_value(*value) && (t matches Some(t) ==> t.wf()),
        r matches Err(e) ==> if value is Text {
            e is ParseError
        } else {
            e matches TogglApiError::ValueError(m) && m@ == "Could not parse value!"@
        },
{
    match value {
        JsonField::Text(s) => match Timestamp::parse_rfc3339(s.as_str()) {
            Ok(t) => Ok(Some(t)),
            Err(e) => Err(TogglApiError::ParseError(e)),
        },
        JsonField::Null => Ok(None),
        _ => Err(TogglApiError::ValueError(String::from_str("Could not parse value!"))),
    }
}

/// Reads an optional integer field.
fn optional_integer(value: &JsonField) -> (r: Result<Option<i64>, TogglApiError>)
    ensures
        r is Ok <==> is_optional_integer(*value),
        r matches Ok(v) ==> v == integer_value(*value),
        r matches Err(e) ==> e == TogglApiError::SerdeError,
{
    match value {
        JsonField::Integer(v) => Ok(Some(*v)),
        JsonField::Null => Ok(None),
        _ => Err(TogglApiError::SerdeError),
    }
}

/// The time entry of a record, or the error of the first field that it
/// fails on.
pub fn value_as_time_entry(record: &TogglRecord) -> (r: Result<TimeEntry, TogglApiError>)
    ensures
        r is Ok <==> decoded(*record) is Some,
        r matches Ok(e) ==> decoded(*record) == Some(e) && e.wf(),
        r matches Err(e) ==> is_decode_error(*record, e),
{
    let id = match &record.id {
        JsonField::Integer(v) => *v,
        _ => {
            return Err(TogglApiError::SerdeError);
        },
    };
    let description = match &record.description {
        JsonField::Text(s) => Some(s.clone()),
        JsonField::Null => None,
        _ => {
            return Err(TogglApiError::SerdeError);
        },
    };
    let start = match as_naive_date_time(&record.start) {
        Ok(Some(t)) => t,
        Ok(None) => {
            return Err(TogglApiError::ValueError(String::from_str("Start time not set!")));
        },
        Err(e) => {
            return Err(e);
        },
    };
    let stop = match as_naive_date_time(&record.stop) {
        Ok(t) => t,
        Err(e) => {
            return Err(e);
        },
    };
    let project_id = match optional_integer(&record.project_id) {
        Ok(v) => v,
        Err(e) => {
            return Err(e);
        },
    };
    let workspace_id = match optional_integer(&record.workspace_id) {
        Ok(v) => v,
        Err(e) => {
            return Err(e);
        },
    };
    Ok(TimeEntry { id, description, start, stop, project_id, workspace_id })
}

/// The time entries of the records that stand for one, in order.
pub open spec fn decoded_entries(records: Seq<TogglRecord>) -> Seq<TimeEntry>
    decreases records.len(),
{
    if records.len() == 0 {
        seq![]
    } else {
        let prev = decoded_entries(records.drop_last());
        match decoded(records.last()) {
            Some(e) => prev.push(e),
            None => prev,
        }
    }
}

/// The time entries of the records; a record that stands for none is
/// skipped.
pub fn time_entries_from_records(records: &Vec<TogglRecord>) -> (r: Vec<TimeEntry>)
    ensures
        r@ == decoded_entries(records@),
        forall|i: int| 0 <= i < r@.len() ==> (#[trigger] r@[i]).wf(),
{
    let mut out: Vec<TimeEntry> = Vec::new();
    let n = records.len();
    for i in 0..n
        invariant
            n == records@.len(),
            out@ == decoded_entries(records@.subrange(0, i as int)),
            forall|j: int| 0 <= j < out@.len() ==> (#[trigger] out@[j]).wf(),
    {
        assert(records@.subrange(0, i + 1).drop_last() =~= records@.subrange(0, i as int));
        match value_as_time_entry(&records[i]) {
            Ok(e) => {
                out.push(e);
            },
            Err(_) => {},
        }
    }
    assert(records@.subrange(0, n as int) =~= records@);
    out
}

} // verus!
