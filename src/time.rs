//! Normalization of calendar date-times into local wall-clock instants.
use crate::model::{CalendarDateTime, CalendarError};
use chrono::TimeZone;
use vstd::arithmetic::div_mod::lemma_fundamental_div_mod_converse;
use vstd::prelude::*;

verus! {

/// Seconds in a day.
pub const SECS_PER_DAY: i64 = 86400;

/// The largest distance from 1970 in seconds, either way, of an instant that
/// the library hands to chrono (about 253,000 years; chrono represents about
/// 262,000 years either way).
pub const MAX_INSTANT: i64 = 8_000_000_000_000;

/// Whether an instant lies within `MAX_INSTANT` of 1970.
pub open spec fn in_range(t: int) -> bool {
    -MAX_INSTANT <= t <= MAX_INSTANT
}

/// The UTC instant at which the clocks of the IANA zone `tzid` read `local`,
/// when the zone is known and the reading names exactly one instant there.
pub uninterp spec fn zone_utc_of(tzid: Seq<char>, local: int) -> Option<int>;

/// Relies on chrono's `DateTime::from_timestamp` and `Local` offset lookup
/// (`TimeZone::offset_from_utc_datetime`, `FixedOffset::local_minus_utc`): the
/// local clock's offset from UTC at a UTC instant, in seconds; `None` only when
/// chrono cannot represent the instant. A `FixedOffset` always lies strictly
/// within one day.
#[verifier::external_body]
fn local_offset_at(utc: i64) -> (r: Option<i32>)
    ensures
        in_range(utc as int) ==> r is Some,
        r matches Some(o) ==> -86400 < o < 86400,
{
    match chrono::DateTime::from_timestamp(utc, 0) {
        Some(u) => Some(chrono::Local.offset_from_utc_datetime(&u.naive_utc()).local_minus_utc()),
        None => None,
    }
}

/// Relies on chrono-tz's `Tz::from_str` and chrono's
/// `TimeZone::from_local_datetime` with `MappedLocalTime::single`: looks the
/// zone up in the IANA database compiled into chrono-tz and gives the UTC
/// instant at which its clocks read `local`, when there is exactly one. The
/// two differ by the zone's offset, which lies strictly within one day.
#[verifier::external_body]
fn zone_to_utc(tzid: &str, local: i64) -> (r: Option<i64>)
    ensures
        r matches Some(u) ==> zone_utc_of(tzid@, local as int) == Some(u as int),
        r is None ==> zone_utc_of(tzid@, local as int) is None,
        r matches Some(u) ==> -86400 < local - u < 86400,
{
    let tz = tzid.parse::<chrono_tz::Tz>().ok()?;
    let reading = chrono::DateTime::from_timestamp(local, 0)?.naive_utc();
    match tz.from_local_datetime(&reading).single() {
        Some(z) => Some(z.timestamp()),
        None => None,
    }
}

/// The second within its day of a wall-clock instant.
pub open spec fn second_of_day(t: int) -> int {
    t % 86400
}

/// Whether two instants differ by less than a day, as a UTC instant and the
/// local clock's reading of it do.
pub open spec fn within_a_day(utc: int, local: int) -> bool {
    -86400 < local - utc < 86400
}

/// The second within its day of a wall-clock instant, `t mod 86400`.
pub fn seconds_into_day(t: i64) -> (r: u64)
    ensures
        r as int == second_of_day(t as int),
        r < 86400,
{
    if t >= 0 {
        (t as u64) % 86400
    } else {
        let k: u64 = (-(t as i128 + 1)) as u64;
        let r: u64 = 86399 - k % 86400;
        proof {
            let q = k as int / 86400;
            let rr = k as int % 86400;
            assert(k as int == q * 86400 + rr);
            lemma_fundamental_div_mod_converse(t as int, 86400, -q - 1, r as int);
        }
        r
    }
}

/// The wall-clock instant of midnight at the start of a day, given as days
/// since 1970-01-01.
pub fn midnight_of(days: i32) -> (r: i64)
    ensures
        r == days as int * 86400,
{
    days as i64 * SECS_PER_DAY
}

/// Converts a UTC instant to a reading of the local clock.
pub fn utc_to_local(utc: i64) -> (r: Result<i64, CalendarError>)
    ensures
        in_range(utc as int) ==> r is Ok,
        r matches Ok(t) ==> within_a_day(utc as int, t as int),
        r matches Err(e) ==> e is TimeOutOfRange,
{
    match local_offset_at(utc) {
        Some(off) => match utc.checked_add(off as i64) {
            Some(t) => Ok(t),
            None => Err(CalendarError::TimeOutOfRange),
        },
        None => Err(CalendarError::TimeOutOfRange),
    }
}

/// Whether `t` is a valid outcome of normalizing `dt` to the local clock:
/// a floating value is kept as it is; a UTC value is read on the local clock;
/// a zone-tied value is resolved to the one UTC instant at which the zone's
/// clocks show it, and that instant is read on the local clock.
pub open spec fn normalizes_to(dt: CalendarDateTime, t: int) -> bool {
    match dt {
        CalendarDateTime::Floating(f) => t == f,
        CalendarDateTime::Utc(u) => within_a_day(u as int, t),
        CalendarDateTime::WithTimezone { date_time, tzid } => zone_utc_of(tzid@, date_time as int) matches Some(
            u,
        ) && within_a_day(u, t),
    }
}

/// Whether `e` is an error that normalizing `dt` may end in: `InvalidTimezone`
/// naming the zone exactly when the zone is unknown or the reading does not
/// name one instant there; otherwise `TimeOutOfRange`, for an instant beyond
/// what chrono represents.
pub open spec fn normalize_fails_with(dt: CalendarDateTime, e: CalendarError) -> bool {
    match dt {
        CalendarDateTime::Floating(_) => false,
        CalendarDateTime::Utc(u) => e is TimeOutOfRange && !in_range(u as int),
        CalendarDateTime::WithTimezone { date_time, tzid } => match zone_utc_of(tzid@, date_time as int) {
            None => e is InvalidTimezone && e->InvalidTimezone_0@ == tzid@,
            Some(u) => e is TimeOutOfRange && !in_range(u),
        },
    }
}

/// Whether normalizing `dt` is sure to succeed: a floating value; a UTC
/// instant in range; a zone-tied reading that names one UTC instant in range.
pub open spec fn normalize_succeeds(dt: CalendarDateTime) -> bool {
    match dt {
        CalendarDateTime::Floating(_) => true,
        CalendarDateTime::Utc(u) => in_range(u as int),
        CalendarDateTime::WithTimezone { date_time, tzid } => zone_utc_of(tzid@, date_time as int) matches Some(
            u,
        ) && in_range(u),
    }
}

/// Converts a calendar date-time into a local wall-clock instant.
pub fn normalize(dt: &CalendarDateTime) -> (r: Result<i64, CalendarError>)
    ensures
        match r {
            Ok(t) => normalizes_to(*dt, t as int),
            Err(e) => normalize_fails_with(*dt, e),
        },
        normalize_succeeds(*dt) ==> r is Ok,
{
    match dt {
        CalendarDateTime::Floating(f) => Ok(*f),
        CalendarDateTime::Utc(u) => utc_to_local(*u),
        CalendarDateTime::WithTimezone { date_time, tzid } => match zone_to_utc(tzid.as_str(), *date_time) {
            None => Err(CalendarError::InvalidTimezone(tzid.clone())),
            Some(u) => utc_to_local(u),
        },
    }
}

/// Converts a calendar date-time into a local wall-clock instant: a floating
/// value is kept as it is; a UTC value is read on the local clock; a value
/// tied to a zone is resolved in that zone and then read on the local clock,
/// and fails with `InvalidTimezone` when the zone is unknown or the reading
/// does not name exactly one instant there.
pub fn as_naive(dt: CalendarDateTime) -> (r: Result<i64, CalendarError>)
    ensures
        match r {
            Ok(t) => normalizes_to(dt, t as int),
            Err(e) => normalize_fails_with(dt, e),
        },
        normalize_succeeds(dt) ==> r is Ok,
{
    normalize(&dt)
}

} // verus!
