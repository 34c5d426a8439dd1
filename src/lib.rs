//! Calendar aggregation: ICS timestamp normalisation, weekly recurrence
//! expansion, cross-source deduplication, a TTL snapshot cache and the
//! "current / next meeting" queries that drive a meeting monitor.

pub mod datetime;
pub mod text;
pub mod meeting;
pub mod recurrence;
pub mod ics;
pub mod schedule;
pub mod query;
pub mod config;
pub mod calendar;
pub mod google_calendar;
