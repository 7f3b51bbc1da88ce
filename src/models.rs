//! The records that the store holds and the rows that a report is made of.

use vstd::prelude::*;

use crate::calendar::{Date, TimeOfDay, Timestamp};
use crate::duration::Duration;

verus! {

/// A presence observation: at `time`, the person was at the place `name`.
#[derive(Clone, Debug, PartialEq, Eq)]
pub struct Event {
    pub time: Timestamp,
    pub name: String,
}

/// The expected work duration on a date; the date is its natural key.
#[derive(Clone, Debug, PartialEq, Eq)]
pub struct ExpectedDuration {
    pub date: Date,
    pub duration: Duration,
}

/// An interval imported from a time-tracking service, keyed by its external
/// `id`. An entry without `stop` is still open.
#[derive(Clone, Debug, PartialEq, Eq)]
pub struct TimeEntry {
    pub id: i64,
    pub description: Option<String>,
    pub start: Timestamp,
    pub stop: Option<Timestamp>,
    pub project_id: Option<i64>,
    pub workspace_id: Option<i64>,
}

/// One day of a timesheet report.
#[derive(Clone, Debug, PartialEq, Eq)]
pub struct TimeSheetRow {
    pub date: Date,
    pub actual_duration: Duration,
    pub expected_duration: Duration,
    pub delta: Duration,
    pub saldo: Duration,
    pub normalized_start_of_business: TimeOfDay,
    pub normalized_end_of_business: TimeOfDay,
    pub locations: String,
}

/// Copies an optional text.
fn copy_text(t: &Option<String>) -> (r: Option<String>)
    ensures
        r == *t,
{
    match t {
        Some(s) => Some(s.clone()),
        None => None,
    }
}

impl Event {
    /// Whether the event's instant lies within the range of instants.
    pub open spec fn wf(self) -> bool {
        self.time.wf()
    }

    /// An exact copy of the event.
    pub fn duplicate(&self) -> (r: Event)
        ensures
            r == *self,
    {
        Event { time: self.time, name: self.name.clone() }
    }
}

impl ExpectedDuration {
    /// Whether the duration lies within the range of durations.
    pub open spec fn wf(self) -> bool {
        self.duration.wf()
    }

    /// An exact copy of the record.
    pub fn duplicate(&self) -> (r: ExpectedDuration)
        ensures
            r == *self,
    {
        ExpectedDuration { date: self.date, duration: self.duration }
    }
}

impl TimeEntry {
    /// Whether both instants lie within the range of instants.
    pub open spec fn wf(self) -> bool {
        &&& self.start.wf()
        &&& self.stop matches Some(stop) ==> stop.wf()
    }

    /// The span of a closed entry in seconds; an open entry counts zero.
    pub open spec fn closed_seconds(self) -> int {
        match self.stop {
            Some(stop) => stop.seconds - self.start.seconds,
            None => 0,
        }
    }

    /// An exact copy of the entry.
    pub fn duplicate(&self) -> (r: TimeEntry)
        ensures
            r == *self,
    {
        TimeEntry {
            id: self.id,
            description: copy_text(&self.description),
            start: self.start,
            stop: self.stop,
            project_id: self.project_id,
            workspace_id: self.workspace_id,
        }
    }

    /// The span from start to stop; `None` while the entry is open.
    pub fn duration(&self) -> (r: Option<Duration>)
        requires
            self.wf(),
        ensures
            r == (match self.stop {
                Some(stop) => Some(Duration { seconds: (stop.seconds - self.start.seconds) as i64 }),
                None => None,
            }),
            r matches Some(d) ==> d.wf(),
    {
        match self.stop {
            Some(stop) => Some(Duration { seconds: stop.seconds - self.start.seconds }),
            None => None,
        }
    }
}

impl TimeSheetRow {
    /// Whether the row is the placeholder for a day without activity, with
    /// the balance `saldo`.
    pub open spec fn is_empty_row(self, saldo: Duration) -> bool {
        &&& self.actual_duration.seconds == 0
        &&& self.expected_duration.seconds == 0
        &&& self.delta.seconds == 0
        &&& self.saldo == saldo
        &&& self.normalized_start_of_business.seconds == 0
        &&& self.normalized_end_of_business.seconds == 0
        &&& self.locations@.len() == 0
    }

    /// The row of a day without activity: zero durations, midnight times,
    /// no locations and a zero balance.
    pub fn empty(date: Date) -> (r: TimeSheetRow)
        ensures
            r.date == date,
            r.is_empty_row(Duration { seconds: 0 }),
    {
        TimeSheetRow {
            date,
            actual_duration: Duration::zero(),
            expected_duration: Duration::zero(),
            delta: Duration::zero(),
            saldo: Duration::zero(),
            normalized_start_of_business: TimeOfDay::midnight(),
            normalized_end_of_business: TimeOfDay::midnight(),
            locations: String::new(),
        }
    }

    /// An exact copy of the row.
    pub fn duplicate(&self) -> (r: TimeSheetRow)
        ensures
            r == *self,
    {
        TimeSheetRow {
            date: self.date,
            actual_duration: self.actual_duration,
            expected_duration: self.expected_duration,
            delta: self.delta,
            saldo: self.saldo,
            normalized_start_of_business: self.normalized_start_of_business,
            normalized_end_of_business: self.normalized_end_of_business,
            locations: self.locations.clone(),
        }
    }
}

} // verus!
