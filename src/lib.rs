//! Work presence and time tracking: a timesheet aggregation engine that turns
//! time entries, expected durations and presence events into daily report rows.

pub mod duration;
pub mod calendar;
pub mod models;
pub mod report;
pub mod store;
pub mod config;
pub mod toggl;
