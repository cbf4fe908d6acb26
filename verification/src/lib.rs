//! A verified work-log library: parses log lines of the form
//! `DD.MM HH:MM HH:MM [comment]` into work units and sums their durations.

pub mod datetime;
pub mod errors;
pub mod format;
pub mod laws;
pub mod parse;
pub mod workunit;

use vstd::prelude::*;

verus! {

/// All log entries belong to this fixed year.
pub const YEAR: i32 = 2020;

} // verus!
