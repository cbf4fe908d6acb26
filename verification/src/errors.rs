//! Error types for log-line parsing.

use vstd::prelude::*;

verus! {

/// What went wrong while parsing a single log line.
#[derive(Clone, Copy, PartialEq, Eq, Structural, Debug)]
pub enum ParseError {
    /// The line holds no token at all.
    MissingDate,
    /// The line holds a date token but no start-time token.
    MissingStartTime,
    /// The line holds a date and a start-time token but no end-time token.
    MissingEndTime,
    /// The date token has no `.` separator, so the month component is missing.
    MissingMonth,
    /// A time token has no `:` separator, so the minute component is missing.
    MissingMinute,
    /// A numeric component is empty, holds a non-digit, or overflows.
    NonNumeric,
    /// A day, month, hour or minute lies outside the calendar or the clock.
    OutOfRange,
}

impl ParseError {
    /// A short human-readable description of the error.
    pub fn message(&self) -> (s: &'static str)
        ensures
            s@ == self.spec_message(),
    {
        proof {
            reveal_strlit("missing date");
            reveal_strlit("missing start time");
            reveal_strlit("missing end time");
            reveal_strlit("missing month");
            reveal_strlit("missing minute");
            reveal_strlit("invalid number");
            reveal_strlit("value out of range");
        }
        match self {
            ParseError::MissingDate => "missing date",
            ParseError::MissingStartTime => "missing start time",
            ParseError::MissingEndTime => "missing end time",
            ParseError::MissingMonth => "missing month",
            ParseError::MissingMinute => "missing minute",
            ParseError::NonNumeric => "invalid number",
            ParseError::OutOfRange => "value out of range",
        }
    }

    /// The text that `message` returns for each variant.
    pub open spec fn spec_message(self) -> Seq<char> {
        match self {
            ParseError::MissingDate => "missing date"@,
            ParseError::MissingStartTime => "missing start time"@,
            ParseError::MissingEndTime => "missing end time"@,
            ParseError::MissingMonth => "missing month"@,
            ParseError::MissingMinute => "missing minute"@,
            ParseError::NonNumeric => "invalid number"@,
            ParseError::OutOfRange => "value out of range"@,
        }
    }
}

/// A parse error together with the 1-based number of the offending line.
#[derive(Clone, Copy, PartialEq, Eq, Structural, Debug)]
pub struct LineError {
    pub line_number: usize,
    pub error: ParseError,
}

} // verus!
