//! Work-time accounting for clock logs.
//!
//! A log is plain text.  A line that holds a clock entry has the shape
//! `[<start>]--[<end>] => <H:MM>`; every other line is a note and is passed
//! over.  Each entry is checked (both timestamps on one calendar date, the
//! claimed duration equal to the interval), its minutes are added to the total
//! of its date, and the totals are laid out as a report.

pub mod calendar;
pub mod entry;
pub mod input;
pub mod ledger;
pub mod pattern;
pub mod report;
pub mod shape;
pub mod text;
pub mod totals;
