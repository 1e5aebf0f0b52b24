use calendar_agenda::agenda::{
    format_agenda_entry, format_agenda_entry_compact, format_agenda_entry_default,
    process_calendar, render_agenda, select,
};
use calendar_agenda::extract::{extract_event, recurrence_spec, MAX_EVENTS};
use calendar_agenda::model::{
    AgendaEntry, CalendarDateTime, CalendarEntry, CalendarError, DatePerhapsTime, DisplayMode,
};
use calendar_agenda::text::format_duration;
use calendar_agenda::time::{as_naive, midnight_of, seconds_into_day};
use chrono::NaiveDate;

const HOUR: i64 = 3600;
const MINUTE: i64 = 60;

fn at(y: i32, mo: u32, d: u32, h: u32, mi: u32) -> i64 {
    NaiveDate::from_ymd_opt(y, mo, d)
        .unwrap()
        .and_hms_opt(h, mi, 0)
        .unwrap()
        .and_utc()
        .timestamp()
}

fn day_number(y: i32, mo: u32, d: u32) -> i32 {
    NaiveDate::from_ymd_opt(y, mo, d)
        .unwrap()
        .signed_duration_since(NaiveDate::from_ymd_opt(1970, 1, 1).unwrap())
        .num_days() as i32
}

fn entry(summary: Option<&str>, start: Option<DatePerhapsTime>, end: Option<DatePerhapsTime>) -> CalendarEntry {
    CalendarEntry {
        start,
        end,
        summary: summary.map(|s| s.to_string()),
        dtstart: None,
        rrule: None,
        exrule: None,
        rdate: None,
        exdate: None,
    }
}

fn fl(t: i64) -> Option<DatePerhapsTime> {
    Some(DatePerhapsTime::DateTime(CalendarDateTime::Floating(t)))
}

fn occ(name: &str, start: i64, duration: i64) -> AgendaEntry {
    AgendaEntry::new(name.to_string(), start, duration)
}

fn names(v: &[AgendaEntry]) -> Vec<String> {
    v.iter().map(|e| e.name.clone()).collect()
}

#[test]
fn duration_picks_largest_nonzero_unit() {
    assert_eq!(format_duration(59), "59s");
    assert_eq!(format_duration(60), "1min");
    assert_eq!(format_duration(90), "1.5min");
    assert_eq!(format_duration(3599), "59.98min");
    assert_eq!(format_duration(HOUR), "1h");
    assert_eq!(format_duration(HOUR + 15 * MINUTE), "1.25h");
    assert_eq!(format_duration(HOUR + 20 * MINUTE), "1.33h");
    assert_eq!(format_duration(HOUR + 61), "1.01h");
    assert_eq!(format_duration(HOUR + 30), "1h");
    assert_eq!(format_duration(26 * HOUR), "26h");
}

#[test]
fn duration_of_negative_span_has_sign() {
    assert_eq!(format_duration(-90), "-1.5min");
    assert_eq!(format_duration(-2 * HOUR), "-2h");
    assert_eq!(format_duration(-1), "-1s");
    assert_eq!(format_duration(i64::MIN), "-2562047788015215.5h");
}

#[test]
fn future_event_example_both_modes() {
    let now = at(2023, 5, 1, 14, 0);
    let e = occ("Future Event", at(2023, 5, 1, 14, 30), HOUR);
    assert_eq!(format_agenda_entry(DisplayMode::Default, &e, now), "Future Event 14:30 (in 30min)");
    assert_eq!(format_agenda_entry(DisplayMode::Compact, &e, now), "Future Event · 30min");
}

#[test]
fn ongoing_event_example_compact() {
    let now = at(2023, 5, 1, 14, 0);
    let e = occ("Ongoing Event", at(2023, 5, 1, 13, 15), 2 * HOUR);
    assert_eq!(format_agenda_entry_compact(&e, now), "Ongoing Event · 45min/1.25h");
}

#[test]
fn default_mode_at_exact_start_is_ago() {
    let now = at(2023, 5, 1, 9, 5);
    let e = occ("Standup", now, 15 * MINUTE);
    assert_eq!(format_agenda_entry_default(&e, now), "Standup 09:05 (0s ago)");
}

#[test]
fn compact_mode_within_the_minute_shows_elapsed_and_remaining() {
    let now = at(2023, 5, 1, 9, 0);
    let e = occ("Call", now + 30, HOUR);
    assert_eq!(format_agenda_entry_compact(&e, now), "Call · 30s/1h");
    let late = occ("Call", now - 10, MINUTE);
    assert_eq!(format_agenda_entry_compact(&late, now), "Call · 10s/50s");
}

#[test]
fn clock_time_before_1970() {
    let t = at(1969, 12, 31, 23, 30);
    assert_eq!(seconds_into_day(t), 23 * 3600 + 30 * 60);
    let e = occ("Eve", t, MINUTE);
    assert_eq!(format_agenda_entry_default(&e, t + HOUR), "Eve 23:30 (1h ago)");
}

#[test]
fn rendering_twice_gives_same_text() {
    let now = at(2023, 5, 1, 14, 0);
    let e = occ("Same", at(2023, 5, 1, 15, 10), HOUR);
    for mode in [DisplayMode::Default, DisplayMode::Compact] {
        assert_eq!(format_agenda_entry(mode, &e, now), format_agenda_entry(mode, &e, now));
    }
}

#[test]
fn three_occurrences_show_first_two() {
    let now = at(2023, 5, 1, 9, 30);
    let occs = vec![
        occ("A", at(2023, 5, 1, 10, 0), HOUR),
        occ("B", at(2023, 5, 1, 11, 0), HOUR),
        occ("C", at(2023, 5, 1, 12, 0), HOUR),
    ];
    let line = render_agenda(&occs, DisplayMode::Default, now);
    assert_eq!(line, "A 10:00 (in 30min) » B 11:00 (in 1.5h)");
    assert!(!line.contains("C "));
}

#[test]
fn select_sorts_by_start_and_keeps_ties_in_order() {
    let now = at(2023, 5, 1, 8, 0);
    let occs = vec![
        occ("late", at(2023, 5, 1, 12, 0), HOUR),
        occ("tie-first", at(2023, 5, 1, 10, 0), HOUR),
        occ("tie-second", at(2023, 5, 1, 10, 0), HOUR),
    ];
    assert_eq!(names(&select(&occs, now)), vec!["tie-first", "tie-second"]);
    let line = render_agenda(&occs, DisplayMode::Compact, now);
    assert_eq!(line, "tie-first · 2h » tie-second · 2h");
}

#[test]
fn select_drops_ended_and_day_old_occurrences() {
    let now = at(2023, 5, 2, 12, 0);
    let occs = vec![
        occ("ended", now - 2 * HOUR, HOUR),
        occ("just ended", now - HOUR - 1, HOUR),
        occ("ends now", now - HOUR, HOUR),
        occ("day old", now - 24 * HOUR, 48 * HOUR),
        occ("almost a day", now - 24 * HOUR + 1, 48 * HOUR),
    ];
    assert_eq!(names(&select(&occs, now)), vec!["almost a day", "ends now"]);
}

#[test]
fn select_of_nothing_is_empty() {
    let occs: Vec<AgendaEntry> = Vec::new();
    assert!(select(&occs, 0).is_empty());
    assert_eq!(render_agenda(&occs, DisplayMode::Default, 0), "");
}

#[test]
fn single_occurrence_spans_start_to_end() {
    let s = at(2023, 5, 1, 10, 0);
    let e = entry(Some("Meeting"), fl(s), fl(s + 90 * MINUTE));
    let v = extract_event(&e, 0, 1).unwrap();
    assert_eq!(v.len(), 1);
    assert_eq!(v[0].name, "Meeting");
    assert_eq!(v[0].start, s);
    assert_eq!(v[0].duration, 90 * MINUTE);
}

#[test]
fn missing_summary_gives_empty_name() {
    let s = at(2023, 5, 1, 10, 0);
    let v = extract_event(&entry(None, fl(s), fl(s + HOUR)), 0, 1).unwrap();
    assert_eq!(v[0].name, "");
}

#[test]
fn all_day_entry_lasts_until_end_of_its_day() {
    let d = day_number(2023, 5, 1);
    let e = entry(
        Some("Holiday"),
        Some(DatePerhapsTime::Date(d)),
        Some(DatePerhapsTime::Date(d + 1)),
    );
    let v = extract_event(&e, 0, 1).unwrap();
    assert_eq!(v[0].start, at(2023, 5, 1, 0, 0));
    assert_eq!(v[0].duration, 86399);
    assert_eq!(midnight_of(d), at(2023, 5, 1, 0, 0));
}

#[test]
fn date_end_after_timed_start_counts_rest_of_day() {
    let s = at(2023, 5, 1, 18, 0);
    let e = entry(Some("Evening"), fl(s), Some(DatePerhapsTime::Date(day_number(2023, 5, 2))));
    let v = extract_event(&e, 0, 1).unwrap();
    assert_eq!(v[0].duration, 6 * HOUR - 1);
}

#[test]
fn missing_start_is_reported() {
    let e = entry(Some("x"), None, fl(0));
    assert!(matches!(extract_event(&e, 0, 1), Err(CalendarError::MissingStartTime)));
}

#[test]
fn missing_end_is_reported() {
    let e = entry(Some("x"), fl(0), None);
    assert!(matches!(extract_event(&e, 0, 1), Err(CalendarError::MissingEndTime)));
}

#[test]
fn unknown_zone_is_reported() {
    let dt = CalendarDateTime::WithTimezone { date_time: 0, tzid: "Invalid/Timezone".to_string() };
    match as_naive(dt) {
        Err(CalendarError::InvalidTimezone(id)) => assert_eq!(id, "Invalid/Timezone"),
        other => panic!("unexpected {:?}", other),
    }
    let e = entry(
        Some("x"),
        Some(DatePerhapsTime::DateTime(CalendarDateTime::WithTimezone {
            date_time: 0,
            tzid: "Nowhere/Special".to_string(),
        })),
        fl(HOUR),
    );
    assert!(matches!(extract_event(&e, 0, 1), Err(CalendarError::InvalidTimezone(_))));
}

#[test]
fn nonexistent_zone_reading_is_reported() {
    // 02:30 on 2023-03-12 does not occur in New York: clocks jump from 02:00 to 03:00.
    let dt = CalendarDateTime::WithTimezone {
        date_time: at(2023, 3, 12, 2, 30),
        tzid: "America/New_York".to_string(),
    };
    assert!(matches!(as_naive(dt), Err(CalendarError::InvalidTimezone(_))));
}

#[test]
fn zone_reading_is_resolved_to_the_local_clock() {
    let t = at(2023, 5, 1, 14, 0);
    let utc_zone = CalendarDateTime::WithTimezone { date_time: t, tzid: "Etc/UTC".to_string() };
    assert_eq!(as_naive(utc_zone).unwrap(), as_naive(CalendarDateTime::Utc(t)).unwrap());
    let new_york = CalendarDateTime::WithTimezone { date_time: t, tzid: "America/New_York".to_string() };
    assert_eq!(as_naive(new_york).unwrap(), as_naive(CalendarDateTime::Utc(t + 4 * HOUR)).unwrap());
}

#[test]
fn unrepresentable_instant_is_reported() {
    assert!(matches!(as_naive(CalendarDateTime::Utc(i64::MAX)), Err(CalendarError::TimeOutOfRange)));
}

#[test]
fn recurrence_spec_lists_present_properties_in_order() {
    let mut e = entry(Some("r"), fl(0), fl(1));
    e.exdate = Some("20230503T100000".to_string());
    e.rrule = Some("FREQ=DAILY".to_string());
    e.dtstart = Some("20230501T100000".to_string());
    assert_eq!(
        recurrence_spec(&e),
        "DTSTART:20230501T100000\nRRULE:FREQ=DAILY\nEXDATE:20230503T100000\n"
    );
    assert_eq!(recurrence_spec(&entry(None, None, None)), "");
}

fn daily(name: &str, rule: &str) -> CalendarEntry {
    let s = at(2023, 5, 1, 10, 0);
    let mut e = entry(Some(name), fl(s), fl(s + HOUR));
    e.dtstart = Some("20230501T100000".to_string());
    e.rrule = Some(rule.to_string());
    e
}

#[test]
fn malformed_rule_is_reported() {
    let e = daily("bad", "FREQ=SOMETIMES");
    assert!(matches!(
        extract_event(&e, at(2023, 4, 30, 0, 0), at(2023, 5, 5, 0, 0)),
        Err(CalendarError::RRuleParseError(_))
    ));
}

#[test]
fn recurrences_lie_strictly_inside_window() {
    let e = daily("daily", "FREQ=DAILY;COUNT=10");
    let v = extract_event(&e, at(2023, 4, 29, 0, 0), at(2023, 5, 4, 0, 0)).unwrap();
    assert_eq!(v.len(), 3);
    assert!(v.iter().all(|o| o.name == "daily" && o.duration == HOUR));
    let local = as_naive(CalendarDateTime::Utc(at(2023, 5, 1, 0, 0))).unwrap() - at(2023, 5, 1, 0, 0);
    let first_utc = v[0].start - local;
    // The window is bounded by the instants of the first and third recurrence: both are left out.
    let w = extract_event(&e, first_utc, first_utc + 2 * 24 * HOUR).unwrap();
    assert_eq!(w.len(), 1);
    assert_eq!(w[0].start, v[1].start);
}

#[test]
fn recurrences_are_capped() {
    let e = daily("often", "FREQ=MINUTELY");
    let v = extract_event(&e, at(2023, 4, 30, 0, 0), at(2023, 5, 3, 0, 0)).unwrap();
    assert_eq!(v.len(), MAX_EVENTS as usize);
}

#[test]
fn calendar_skips_failing_entries() {
    let now = at(2023, 5, 1, 9, 0);
    let entries = vec![
        entry(Some("no end"), fl(now + HOUR), None),
        entry(Some("Ok"), fl(now + HOUR), fl(now + 2 * HOUR)),
        entry(None, None, None),
    ];
    let line = process_calendar(&entries, DisplayMode::Compact, now, now);
    assert_eq!(line, "Ok · 1h");
}

#[test]
fn recurrence_on_window_start_does_not_use_up_the_cap() {
    let e = daily("often", "FREQ=MINUTELY");
    let all = extract_event(&e, at(2023, 4, 30, 0, 0), at(2023, 5, 3, 0, 0)).unwrap();
    let local = as_naive(CalendarDateTime::Utc(at(2023, 5, 1, 0, 0))).unwrap() - at(2023, 5, 1, 0, 0);
    let first_utc = all[0].start - local;
    let v = extract_event(&e, first_utc, first_utc + 300 * MINUTE).unwrap();
    assert_eq!(v.len(), MAX_EVENTS as usize);
    assert_eq!(v[0].start, all[1].start);
}

#[test]
fn calendar_far_from_now_window_is_clamped() {
    let entries = vec![entry(Some("Ok"), fl(i64::MAX - HOUR), fl(i64::MAX))];
    let line = process_calendar(&entries, DisplayMode::Compact, i64::MAX, i64::MAX - 30 * MINUTE);
    assert_eq!(line, "Ok · 30min/30min");
}
