//! The values that flow through the agenda: calendar entries as read from a
//! document, the occurrences extracted from them, and the display policy.
//!
//! Instants are whole seconds since 1970-01-01T00:00:00 on some clock: a
//! "wall-clock" instant is read on the local clock without any zone attached,
//! a UTC instant is a Unix timestamp. Durations are signed seconds.
use vstd::prelude::*;

verus! {

/// Why a calendar entry yields no occurrences.
#[derive(Debug)]
pub enum CalendarError {
    MissingStartTime,
    MissingEndTime,
    InvalidTimezone(String),
    RRuleParseError(String),
    /// An instant lies outside the range that the time library represents.
    TimeOutOfRange,
}

/// One concrete occurrence of a calendar entry.
pub struct AgendaEntry {
    pub name: String,
    /// Wall-clock start, in seconds.
    pub start: i64,
    /// Length, in seconds.
    pub duration: i64,
}

impl View for AgendaEntry {
    type V = (Seq<char>, int, int);

    open spec fn view(&self) -> (Seq<char>, int, int) {
        (self.name@, self.start as int, self.duration as int)
    }
}

impl AgendaEntry {
    pub fn new(name: String, start: i64, duration: i64) -> (r: AgendaEntry)
        ensures
            r.name == name,
            r.start == start,
            r.duration == duration,
    {
        AgendaEntry { name, start, duration }
    }
}

/// How an occurrence is rendered.
#[derive(Clone, Copy, PartialEq, Eq, Structural, Debug)]
pub enum DisplayMode {
    Default,
    Compact,
}

/// A date-time value as a calendar document writes it.
#[derive(Debug)]
pub enum CalendarDateTime {
    /// A wall-clock reading with no zone: already local.
    Floating(i64),
    /// A UTC instant.
    Utc(i64),
    /// A reading of the clocks of the named IANA zone.
    WithTimezone { date_time: i64, tzid: String },
}

/// A calendar value that is either a whole day or a date-time.
#[derive(Debug)]
pub enum DatePerhapsTime {
    DateTime(CalendarDateTime),
    /// Days since 1970-01-01.
    Date(i32),
}

/// The parts of a calendar component (event, to-do or venue) that an agenda
/// reads. The recurrence properties hold the raw property values.
#[derive(Debug)]
pub struct CalendarEntry {
    pub start: Option<DatePerhapsTime>,
    pub end: Option<DatePerhapsTime>,
    pub summary: Option<String>,
    pub dtstart: Option<String>,
    pub rrule: Option<String>,
    pub exrule: Option<String>,
    pub rdate: Option<String>,
    pub exdate: Option<String>,
}

} // verus!
