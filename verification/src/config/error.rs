use vstd::prelude::*;
use crate::packet::types::Timestamp;

verus! {

/// The part of a fourteen-digit date-time entry that could not be accepted.
#[derive(Debug, Clone, Copy, PartialEq, Eq, Structural)]
pub enum DateField {
    Year,
    Month,
    Day,
    Hour,
    Minute,
    Second,
    /// Year, month and day are numbers but name no day of the calendar.
    Date,
    /// Hour, minute and second are numbers but name no time of day.
    Time,
}

/// Why the settings of a run were refused.
#[derive(Debug, PartialEq, Eq)]
pub enum ConfigError {
    EnvFileReadError(String),
    EnvVarError(String),
    EnvVarParseError(String),
    /// The end of a time range is not after its start; holds start, then end.
    InvalidDateOrder(Timestamp, Timestamp),
    /// A date-time entry is not fourteen bytes long; holds its length.
    InvalidInputLength(usize),
    IoError(String),
    ParseError(DateField),
}

} // verus!
