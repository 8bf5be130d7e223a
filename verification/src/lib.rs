//! Verified core of a chunked binary event store.
//!
//! A capture run appends fixed-width event records to chunk files that are
//! partitioned by calendar date and rotated by size. This crate holds the
//! pure logic of that store: the calendar-date model, the rotation policy,
//! the chunk naming scheme, record encoding and decoding, the rules for
//! walking a date-partitioned hierarchy, and size aggregation. All file,
//! device and terminal I/O lives outside the crate and exchanges plain
//! values with it.

pub mod commands;
pub mod config;
pub mod csv;
pub mod date;
pub mod naming;
pub mod record;
pub mod rotation;
pub mod size;
pub mod text;
pub mod walk;
