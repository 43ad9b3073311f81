//! Household scorekeeping library.
//!
//! A small fixed set of "kids" accrue +1/-1 counter events ("notes") that are
//! aggregated over a configurable time granularity (daily, weekly, monthly or
//! yearly).  The crate provides the calendar arithmetic that buckets an
//! instant into the current period, the repository of kids, notes and the
//! granularity setting, and the aggregation that sums each kid's notes inside
//! the current period's window.

pub mod calendar;
pub mod models;
pub mod period;
pub mod store;
pub mod text;
