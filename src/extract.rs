//! Expansion of one calendar entry into its occurrences within a window.
use crate::model::{AgendaEntry, CalendarDateTime, CalendarEntry, CalendarError, DatePerhapsTime};
use crate::time::{
    in_range, midnight_of, normalize, normalize_fails_with, normalize_succeeds, normalizes_to,
    second_of_day, seconds_into_day, utc_to_local, within_a_day, zone_utc_of, MAX_INSTANT,
};
use vstd::prelude::*;

verus! {

/// The most occurrences that one recurring entry yields.
pub const MAX_EVENTS: u16 = 100;

/// Hours after the current instant up to which occurrences are expanded.
pub const HOURS_AHEAD: i64 = 32;

/// Hours before the current instant from which occurrences are expanded.
pub const HOURS_BEHIND: i64 = 32;

/// A bound on the wall-clock instants of start and end values whose
/// resolution is sure to succeed; the span between two of them fits in `i64`.
pub const MAX_RESOLVED: i64 = 0x1000_0000_0000_0000;

#[verifier::external_type_specification]
#[verifier::external_body]
pub struct ExRRuleSet(rrule::RRuleSet);

/// Relies on rrule's `RRuleSet::from_str`: parses a recurrence specification,
/// giving the parser's error message on malformed input.
#[verifier::external_body]
fn parse_recurrence(spec: &str) -> (r: Result<rrule::RRuleSet, String>)
{
    spec.parse::<rrule::RRuleSet>().map_err(|e| e.to_string())
}

/// Relies on rrule's `RRuleSet::after`, `before` and `all(limit)`: at most
/// `limit` recurrences, each at or after `after` and at or before `before`
/// (both bounds inclusive), as UTC instants.
#[verifier::external_body]
fn recurrences_between(set: rrule::RRuleSet, after: i64, before: i64, limit: u16) -> (r: Vec<i64>)
    requires
        -MAX_INSTANT - 1 <= after <= MAX_INSTANT + 1,
        -MAX_INSTANT - 1 <= before <= MAX_INSTANT + 1,
    ensures
        r.len() <= limit,
        forall|i: int| 0 <= i < r.len() ==> after <= #[trigger] r[i] <= before,
{
    let lo = chrono::DateTime::from_timestamp(after, 0).unwrap_or_default();
    let hi = chrono::DateTime::from_timestamp(before, 0).unwrap_or_default();
    let found = set.after(lo.with_timezone(&rrule::Tz::UTC)).before(hi.with_timezone(&rrule::Tz::UTC)).all(limit);
    found.dates.into_iter().map(|d| d.timestamp()).collect()
}

/// The display name of an entry: its summary, or empty.
pub open spec fn entry_name(entry: CalendarEntry) -> Seq<char> {
    match entry.summary {
        Some(s) => s@,
        None => Seq::empty(),
    }
}

/// One line `NAME:value` of a recurrence specification, or nothing.
pub open spec fn property_line(name: Seq<char>, value: Option<String>) -> Seq<char> {
    match value {
        Some(v) => name + seq![':'] + v@ + seq!['\n'],
        None => Seq::empty(),
    }
}

/// The recurrence specification of an entry: its properties DTSTART, RRULE,
/// EXRULE, RDATE and EXDATE in this order, one line each, those absent left
/// out.
pub open spec fn recurrence_text(entry: CalendarEntry) -> Seq<char> {
    property_line("DTSTART"@, entry.dtstart) + property_line("RRULE"@, entry.rrule)
        + property_line("EXRULE"@, entry.exrule) + property_line("RDATE"@, entry.rdate)
        + property_line("EXDATE"@, entry.exdate)
}

/// Whether `t` is a valid wall-clock start for the start value `v`: a date
/// starts at its midnight; a date-time is normalized to the local clock.
pub open spec fn start_resolves_to(v: DatePerhapsTime, t: int) -> bool {
    match v {
        DatePerhapsTime::Date(d) => t == d as int * 86400,
        DatePerhapsTime::DateTime(dt) => normalizes_to(dt, t),
    }
}

/// Whether `d` is a valid duration for an entry starting at `start` and
/// ending at the value `v`: an end date-time gives the span between the two;
/// an end date gives the rest of the day on which the entry starts.
pub open spec fn duration_resolves_to(v: DatePerhapsTime, start: int, d: int) -> bool {
    match v {
        DatePerhapsTime::Date(_) => d == 86399 - second_of_day(start),
        DatePerhapsTime::DateTime(dt) => exists|e: int| normalizes_to(dt, e) && d == e - start,
    }
}

/// Whether resolving a start or end value is sure to succeed, within
/// `MAX_RESOLVED` of 1970: a date; a floating date-time within that bound; a
/// date-time whose normalization is sure to succeed.
pub open spec fn resolves_surely(v: DatePerhapsTime) -> bool {
    match v {
        DatePerhapsTime::Date(_) => true,
        DatePerhapsTime::DateTime(CalendarDateTime::Floating(f)) => -MAX_RESOLVED <= f <= MAX_RESOLVED,
        DatePerhapsTime::DateTime(dt) => normalize_succeeds(dt),
    }
}

/// Whether the start and the end of an entry are both present and sure to
/// resolve.
pub open spec fn timed_surely(entry: CalendarEntry) -> bool {
    &&& entry.start matches Some(s) && resolves_surely(s)
    &&& entry.end matches Some(e) && resolves_surely(e)
}

/// The instants of `s` strictly inside `(sod, eod)`, in order.
pub open spec fn inside_window(s: Seq<i64>, sod: int, eod: int) -> Seq<i64>
    decreases s.len(),
{
    if s.len() == 0 {
        Seq::empty()
    } else if sod < s.last() < eod {
        inside_window(s.drop_last(), sod, eod).push(s.last())
    } else {
        inside_window(s.drop_last(), sod, eod)
    }
}

/// Whether `v` holds one occurrence per instant of `ws`, in order, up to
/// `MAX_EVENTS`: each with the given name and duration, starting at the local
/// clock's reading of its instant.
pub open spec fn occurrences_of(v: Seq<AgendaEntry>, ws: Seq<i64>, name: Seq<char>, duration: int) -> bool {
    &&& v.len() == if ws.len() < MAX_EVENTS { ws.len() as int } else { MAX_EVENTS as int }
    &&& forall|i: int| 0 <= i < v.len() ==> {
        &&& (#[trigger] v[i]).name@ == name
        &&& v[i].duration == duration
        &&& within_a_day(ws[i] as int, v[i].start as int)
    }
}

/// Whether `v` is a valid outcome of extracting the occurrences of `entry`
/// in the UTC window `(sod, eod)`: its start and duration resolve; without a
/// recurrence rule there is exactly one occurrence, with the entry's name, the
/// start and the duration; with one, `v` holds the occurrences of what the
/// recurrence evaluator found: at most `MAX_EVENTS` instants, all strictly
/// inside the window.
pub open spec fn extraction_ok(entry: CalendarEntry, sod: int, eod: int, v: Seq<AgendaEntry>) -> bool {
    exists|start: int, duration: int| {
        &&& entry.start is Some && entry.end is Some
        &&& start_resolves_to(entry.start->Some_0, start)
        &&& duration_resolves_to(entry.end->Some_0, start, duration)
        &&& entry.rrule is None ==> v.len() == 1 && v[0]@ == (entry_name(entry), start, duration)
        &&& entry.rrule is Some ==> exists|w: Seq<i64>| {
            &&& w.len() <= MAX_EVENTS
            &&& forall|i: int| 0 <= i < w.len() ==> sod < #[trigger] w[i] < eod
            &&& occurrences_of(v, inside_window(w, sod, eod), entry_name(entry), duration)
        }
    }
}

/// The zone of a zone-tied date-time value whose reading names no single
/// instant in that zone (or whose zone is unknown).
pub open spec fn unresolved_zone(v: Option<DatePerhapsTime>) -> Option<Seq<char>> {
    match v {
        Some(DatePerhapsTime::DateTime(CalendarDateTime::WithTimezone { date_time, tzid })) => if zone_utc_of(
            tzid@,
            date_time as int,
        ) is None {
            Some(tzid@)
        } else {
            None
        },
        _ => None,
    }
}

/// Whether `e` reports the zone `zone` as invalid.
pub open spec fn fails_on_zone(e: CalendarError, zone: Seq<char>) -> bool {
    e matches CalendarError::InvalidTimezone(id) && id@ == zone
}

/// Whether `e` is an error that extracting `entry` in the UTC window
/// `(sod, eod)` may end in, and from where it comes.
pub open spec fn extraction_fails_with(entry: CalendarEntry, sod: int, eod: int, e: CalendarError) -> bool {
    ||| e is MissingStartTime && entry.start is None
    ||| e is MissingEndTime && entry.start is Some && entry.end is None
    ||| entry.start matches Some(DatePerhapsTime::DateTime(dt)) && normalize_fails_with(dt, e)
    ||| entry.end matches Some(DatePerhapsTime::DateTime(dt)) && normalize_fails_with(dt, e)
    ||| e is TimeOutOfRange && !timed_surely(entry)
    ||| e is TimeOutOfRange && entry.rrule is Some && !(in_range(sod) && in_range(eod))
    ||| e is RRuleParseError && entry.rrule is Some
}

fn resolve_start(v: &DatePerhapsTime) -> (r: Result<i64, CalendarError>)
    ensures
        match r {
            Ok(t) => start_resolves_to(*v, t as int),
            Err(e) => *v matches DatePerhapsTime::DateTime(dt) && normalize_fails_with(dt, e),
        },
        resolves_surely(*v) ==> (r matches Ok(t) && -MAX_RESOLVED <= t <= MAX_RESOLVED),
{
    match v {
        DatePerhapsTime::Date(d) => Ok(midnight_of(*d)),
        DatePerhapsTime::DateTime(dt) => normalize(dt),
    }
}

fn resolve_duration(v: &DatePerhapsTime, start: i64) -> (r: Result<i64, CalendarError>)
    ensures
        match r {
            Ok(d) => duration_resolves_to(*v, start as int, d as int),
            Err(e) => (*v matches DatePerhapsTime::DateTime(dt) && normalize_fails_with(dt, e))
                || (e is TimeOutOfRange && !(resolves_surely(*v) && -MAX_RESOLVED <= start <= MAX_RESOLVED)),
        },
        resolves_surely(*v) && -MAX_RESOLVED <= start <= MAX_RESOLVED ==> r is Ok,
        unresolved_zone(Some(*v)) is Some ==> r is Err && fails_on_zone(r->Err_0, unresolved_zone(Some(*v))->Some_0),
{
    match v {
        DatePerhapsTime::Date(_) => Ok(86399 - seconds_into_day(start) as i64),
        DatePerhapsTime::DateTime(dt) => {
            let end = normalize(dt)?;
            match end.checked_sub(start) {
                Some(d) => Ok(d),
                None => Err(CalendarError::TimeOutOfRange),
            }
        },
    }
}

fn append_property(s: &mut String, name: &str, value: &Option<String>)
    ensures
        final(s)@ == old(s)@ + property_line(name@, *value),
{
    match value {
        Some(v) => {
            s.append(name);
            proof {
                reveal_strlit(":");
                reveal_strlit("\n");
            }
            s.append(":");
            s.append(v.as_str());
            s.append("\n");
            proof {
                assert(final(s)@ =~= old(s)@ + property_line(name@, *value));
            }
        },
        None => {
            proof {
                assert(final(s)@ =~= old(s)@ + property_line(name@, *value));
            }
        },
    }
}

/// The recurrence specification of an entry.
pub fn recurrence_spec(entry: &CalendarEntry) -> (r: String)
    ensures
        r@ == recurrence_text(*entry),
{
    let mut s = String::new();
    append_property(&mut s, "DTSTART", &entry.dtstart);
    append_property(&mut s, "RRULE", &entry.rrule);
    append_property(&mut s, "EXRULE", &entry.exrule);
    append_property(&mut s, "RDATE", &entry.rdate);
    append_property(&mut s, "EXDATE", &entry.exdate);
    proof {
        assert(s@ =~= recurrence_text(*entry));
    }
    s
}

proof fn lemma_inside_window_prefix(s: Seq<i64>, sod: int, eod: int, i: int, j: int)
    requires
        0 <= i <= j <= s.len(),
    ensures
        inside_window(s.take(i), sod, eod).len() <= inside_window(s.take(j), sod, eod).len(),
        forall|k: int| 0 <= k < inside_window(s.take(i), sod, eod).len() ==> inside_window(s.take(i), sod, eod)[k]
            == #[trigger] inside_window(s.take(j), sod, eod)[k],
    decreases j - i,
{
    if i < j {
        lemma_inside_window_prefix(s, sod, eod, i, j - 1);
        assert(s.take(j).drop_last() =~= s.take(j - 1));
    }
}

/// Turns the UTC instants that a recurrence evaluator found into occurrences:
/// one for each of those strictly inside the window `(sod, eod)`, in order, up
/// to `MAX_EVENTS`, each read on the local clock and carrying the entry's name
/// and duration.
pub fn occurrences_in_window(
    name: &String,
    duration: i64,
    instants: &Vec<i64>,
    sod: i64,
    eod: i64,
) -> (r: Result<Vec<AgendaEntry>, CalendarError>)
    ensures
        match r {
            Ok(v) => occurrences_of(v@, inside_window(instants@, sod as int, eod as int), name@, duration as int),
            Err(e) => e is TimeOutOfRange,
        },
        (forall|i: int| 0 <= i < instants.len() ==> in_range(#[trigger] instants[i] as int)) ==> r is Ok,
{
    let ghost s = instants@;
    let mut out: Vec<AgendaEntry> = Vec::new();
    let mut i: usize = 0;
    assert(s.take(0) =~= Seq::<i64>::empty());
    while i < instants.len() && out.len() < MAX_EVENTS as usize
        invariant
            s == instants@,
            i <= instants.len(),
            out.len() <= MAX_EVENTS,
            out.len() == inside_window(s.take(i as int), sod as int, eod as int).len(),
            forall|k: int| 0 <= k < out.len() ==> {
                &&& (#[trigger] out[k]).name@ == name@
                &&& out[k].duration == duration
                &&& within_a_day(inside_window(s.take(i as int), sod as int, eod as int)[k] as int, out[k].start as int)
            },
        decreases instants.len() - i,
    {
        let t = instants[i];
        let ghost before = inside_window(s.take(i as int), sod as int, eod as int);
        proof {
            assert(s.take(i + 1).drop_last() =~= s.take(i as int));
            assert(s.take(i + 1).last() == t);
        }
        if sod < t && t < eod {
            let local = utc_to_local(t)?;
            let ghost prev = out@;
            out.push(AgendaEntry::new(name.clone(), local, duration));
            proof {
                let after = inside_window(s.take(i + 1), sod as int, eod as int);
                assert(after == before.push(t));
                assert forall|k: int| 0 <= k < out.len() implies {
                    &&& (#[trigger] out[k]).name@ == name@
                    &&& out[k].duration == duration
                    &&& within_a_day(after[k] as int, out[k].start as int)
                } by {
                    if k < prev.len() {
                        assert(out[k] == prev[k]);
                        assert(after[k] == before[k]);
                    }
                }
            }
        }
        i = i + 1;
    }
    proof {
        let w = inside_window(s, sod as int, eod as int);
        assert(s.take(s.len() as int) =~= s);
        lemma_inside_window_prefix(s, sod as int, eod as int, i as int, s.len() as int);
    }
    Ok(out)
}

/// Extracts the occurrences of one calendar entry: a single occurrence for an
/// entry without a recurrence rule, else one for each recurrence strictly
/// inside the UTC window `(sod, eod)`, at most `MAX_EVENTS`. A failure to
/// resolve the start or the end is handed on as it is.
pub fn extract_event(entry: &CalendarEntry, sod: i64, eod: i64) -> (r: Result<Vec<AgendaEntry>, CalendarError>)
    ensures
        entry.start is None <==> r matches Err(CalendarError::MissingStartTime),
        entry.start matches Some(s) && resolves_surely(s) && entry.end is None ==> r matches Err(
            CalendarError::MissingEndTime,
        ),
        unresolved_zone(entry.start) is Some ==> r is Err && fails_on_zone(r->Err_0, unresolved_zone(entry.start)->Some_0),
        entry.start matches Some(s) && resolves_surely(s) && unresolved_zone(entry.end) is Some ==> r is Err
            && fails_on_zone(r->Err_0, unresolved_zone(entry.end)->Some_0),
        timed_surely(*entry) && entry.rrule is None ==> r is Ok,
        timed_surely(*entry) && entry.rrule is Some ==> (r matches Err(CalendarError::TimeOutOfRange)
            <==> !(in_range(sod as int) && in_range(eod as int))),
        timed_surely(*entry) && entry.rrule is Some && r is Err ==> r->Err_0 is TimeOutOfRange
            || r->Err_0 is RRuleParseError,
        r matches Err(e) ==> extraction_fails_with(*entry, sod as int, eod as int, e),
        r matches Ok(v) ==> extraction_ok(*entry, sod as int, eod as int, v@),
{
    let start = match &entry.start {
        None => {
            return Err(CalendarError::MissingStartTime);
        },
        Some(v) => resolve_start(v)?,
    };
    let duration = match &entry.end {
        None => {
            return Err(CalendarError::MissingEndTime);
        },
        Some(v) => resolve_duration(v, start)?,
    };
    let name = match &entry.summary {
        Some(s) => s.clone(),
        None => String::new(),
    };
    if entry.rrule.is_none() {
        let mut v: Vec<AgendaEntry> = Vec::new();
        v.push(AgendaEntry::new(name, start, duration));
        return Ok(v);
    }
    if !(-MAX_INSTANT <= sod && sod <= MAX_INSTANT && -MAX_INSTANT <= eod && eod <= MAX_INSTANT) {
        return Err(CalendarError::TimeOutOfRange);
    }
    let spec = recurrence_spec(entry);
    let set = match parse_recurrence(spec.as_str()) {
        Ok(s) => s,
        Err(msg) => {
            return Err(CalendarError::RRuleParseError(msg));
        },
    };
    // Instants are whole seconds: these inclusive bounds keep the window open.
    let instants = recurrences_between(set, sod + 1, eod - 1, MAX_EVENTS);
    let found = occurrences_in_window(&name, duration, &instants, sod, eod);
    proof {
        assert forall|i: int| 0 <= i < instants.len() implies sod < #[trigger] instants@[i] < eod
            && in_range(instants@[i] as int) by {
            assert(instants@[i] == instants[i]);
        }
    }
    found
}

/// An entry without a recurrence rule whose start `S` and end `E` are
/// floating date-times yields exactly one occurrence, named after the entry,
/// starting at `S` and lasting `E - S`.
pub proof fn single_occurrence_spans_start_to_end(
    entry: CalendarEntry,
    sod: int,
    eod: int,
    v: Seq<AgendaEntry>,
    s: i64,
    e: i64,
)
    requires
        entry.rrule is None,
        entry.start == Some(DatePerhapsTime::DateTime(CalendarDateTime::Floating(s))),
        entry.end == Some(DatePerhapsTime::DateTime(CalendarDateTime::Floating(e))),
        extraction_ok(entry, sod, eod, v),
    ensures
        v.len() == 1,
        v[0]@ == (entry_name(entry), s as int, e - s),
{
}

} // verus!
