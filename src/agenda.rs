//! Selection of the occurrences relevant at the current instant and their
//! rendering as one line of text.
use crate::extract::{extract_event, extraction_ok, timed_surely, HOURS_AHEAD, HOURS_BEHIND};
use crate::model::{AgendaEntry, CalendarEntry, DisplayMode};
use crate::text::{append_clock, append_duration, clock_text, duration_text};
use crate::time::{second_of_day, seconds_into_day};
use vstd::prelude::*;

verus! {

broadcast use vstd::seq_lib::group_to_multiset_ensures;

/// How many occurrences an agenda shows at most.
pub const MAX_SHOWN: usize = 2;

/// Whether an occurrence `(name, start, duration)` is worth showing at `now`:
/// it has not ended yet and it started less than a day ago.
pub open spec fn is_relevant(e: (Seq<char>, int, int), now: int) -> bool {
    e.1 + e.2 >= now && now - e.1 < 86400
}

/// The first `k` occurrences of `s` that are relevant at `now`, in order.
pub open spec fn first_relevant(s: Seq<(Seq<char>, int, int)>, now: int, k: nat) -> Seq<
    (Seq<char>, int, int),
>
    decreases s.len(),
{
    if s.len() == 0 || k == 0 {
        Seq::empty()
    } else if is_relevant(s[0], now) {
        seq![s[0]] + first_relevant(s.drop_first(), now, (k - 1) as nat)
    } else {
        first_relevant(s.drop_first(), now, k)
    }
}

/// Each occurrence's start paired with its position.
pub open spec fn start_keys(occs: Seq<AgendaEntry>) -> Seq<(i64, usize)> {
    Seq::new(occs.len(), |i: int| (occs[i].start, i as usize))
}

/// Lexicographic order on `(start, position)` pairs.
pub open spec fn key_le(a: (i64, usize), b: (i64, usize)) -> bool {
    a.0 < b.0 || (a.0 == b.0 && a.1 <= b.1)
}

/// Whether `p` lists the keys of `occs` by ascending start, ties in their
/// original order: the one order of a stable sort by start.
pub open spec fn is_start_order(occs: Seq<AgendaEntry>, p: Seq<(i64, usize)>) -> bool {
    &&& p.to_multiset() == start_keys(occs).to_multiset()
    &&& forall|i: int, j: int| 0 <= i < j < p.len() ==> key_le(p[i], p[j])
}

/// The occurrences of `occs` taken in the order `p`.
pub open spec fn in_order(occs: Seq<AgendaEntry>, p: Seq<(i64, usize)>) -> Seq<
    (Seq<char>, int, int),
> {
    p.map_values(|k: (i64, usize)| occs[k.1 as int]@)
}

/// The views of a sequence of occurrences.
pub open spec fn views(v: Seq<AgendaEntry>) -> Seq<(Seq<char>, int, int)> {
    v.map_values(|e: AgendaEntry| e@)
}

/// Whether `r` is what an agenda shows of `occs` at `now`: sorted by start
/// (stably), filtered to the relevant ones, the first `MAX_SHOWN` of them.
pub open spec fn is_selection(occs: Seq<AgendaEntry>, now: int, r: Seq<AgendaEntry>) -> bool {
    exists|p: Seq<(i64, usize)>|
        #[trigger] is_start_order(occs, p) && views(r) == first_relevant(in_order(occs, p), now, MAX_SHOWN as nat)
}

/// Whether the occurrences are in ascending order of start.
pub open spec fn sorted_by_start(s: Seq<(Seq<char>, int, int)>) -> bool {
    forall|i: int, j: int| 0 <= i < j < s.len() ==> s[i].1 <= s[j].1
}

/// The default rendering: name, start time, and how long ago it started or
/// how long until it starts.
pub open spec fn default_text(e: (Seq<char>, int, int), now: int) -> Seq<char> {
    e.0 + " "@ + clock_text(second_of_day(e.1) as nat) + if e.1 <= now {
        " ("@ + duration_text(now - e.1) + " ago)"@
    } else {
        " (in "@ + duration_text(e.1 - now) + ")"@
    }
}

/// The compact rendering: the time until start for an occurrence at least a
/// minute away, else the time since start and the time until the end.
pub open spec fn compact_text(e: (Seq<char>, int, int), now: int) -> Seq<char> {
    if e.1 - now >= 60 {
        e.0 + " · "@ + duration_text(e.1 - now)
    } else {
        e.0 + " · "@ + duration_text(if e.1 >= now { e.1 - now } else { now - e.1 }) + "/"@
            + duration_text(e.1 + e.2 - now)
    }
}

/// The rendering of an occurrence under a display mode.
pub open spec fn entry_text(mode: DisplayMode, e: (Seq<char>, int, int), now: int) -> Seq<char> {
    match mode {
        DisplayMode::Default => default_text(e, now),
        DisplayMode::Compact => compact_text(e, now),
    }
}

/// The parts in order, with `sep` between consecutive ones.
pub open spec fn joined(parts: Seq<Seq<char>>, sep: Seq<char>) -> Seq<char>
    decreases parts.len(),
{
    if parts.len() == 0 {
        Seq::empty()
    } else if parts.len() == 1 {
        parts[0]
    } else {
        parts[0] + sep + joined(parts.drop_first(), sep)
    }
}

/// The agenda line for the selected occurrences.
pub open spec fn agenda_text(mode: DisplayMode, shown: Seq<(Seq<char>, int, int)>, now: int) -> Seq<
    char,
> {
    joined(shown.map_values(|e: (Seq<char>, int, int)| entry_text(mode, e, now)), " » "@)
}

/// Relies on itertools' `Itertools::sorted_unstable`: the same pairs, in
/// ascending order of the tuples' lexicographic `Ord`.
#[verifier::external_body]
fn sort_keys(keys: Vec<(i64, usize)>) -> (r: Vec<(i64, usize)>)
    ensures
        r@.to_multiset() == keys@.to_multiset(),
        forall|i: int, j: int| 0 <= i < j < r.len() ==> key_le(r[i], r[j]),
{
    itertools::Itertools::sorted_unstable(keys.into_iter()).collect()
}

/// Relies on itertools' `Itertools::intersperse`, collected into a `String`:
/// the parts in order with `sep` between consecutive ones.
#[verifier::external_body]
fn join_parts(parts: Vec<String>, sep: &str) -> (r: String)
    ensures
        r@ == joined(parts@.map_values(|p: String| p@), sep@),
{
    itertools::Itertools::intersperse(parts.into_iter(), sep.to_string()).collect()
}

proof fn lemma_first_relevant(s: Seq<(Seq<char>, int, int)>, now: int, k: nat)
    ensures
        first_relevant(s, now, k).len() <= k,
        first_relevant(s, now, k).len() <= s.len(),
        forall|i: int|
            0 <= i < first_relevant(s, now, k).len() ==> is_relevant(
                #[trigger] first_relevant(s, now, k)[i],
                now,
            ) && s.contains(first_relevant(s, now, k)[i]),
        sorted_by_start(s) ==> sorted_by_start(first_relevant(s, now, k)),
    decreases s.len(),
{
    if s.len() == 0 || k == 0 {
    } else {
        let t = s.drop_first();
        lemma_first_relevant(t, now, (k - 1) as nat);
        lemma_first_relevant(t, now, k);
        let r = first_relevant(s, now, k);
        assert forall|i: int| 0 <= i < r.len() implies is_relevant(#[trigger] r[i], now) && s.contains(r[i]) by {
            if is_relevant(s[0], now) {
                if i == 0 {
                    assert(s[0] == r[0]);
                } else {
                    let x = first_relevant(t, now, (k - 1) as nat)[i - 1];
                    assert(r[i] == x);
                    let j = choose|j: int| 0 <= j < t.len() && t[j] == x;
                    assert(s[j + 1] == x);
                }
            } else {
                let x = first_relevant(t, now, k)[i];
                let j = choose|j: int| 0 <= j < t.len() && t[j] == x;
                assert(s[j + 1] == x);
            }
        }
        if sorted_by_start(s) {
            assert(sorted_by_start(t));
            if is_relevant(s[0], now) {
                let rt = first_relevant(t, now, (k - 1) as nat);
                assert forall|i: int, j: int| 0 <= i < j < r.len() implies r[i].1 <= r[j].1 by {
                    if i == 0 {
                        let jj = choose|jj: int| 0 <= jj < t.len() && t[jj] == rt[j - 1];
                        assert(s[jj + 1] == r[j]);
                    } else {
                        assert(r[i] == rt[i - 1] && r[j] == rt[j - 1]);
                    }
                }
            }
        }
    }
}

proof fn lemma_start_order(occs: Seq<AgendaEntry>, p: Seq<(i64, usize)>)
    requires
        occs.len() <= usize::MAX,
        is_start_order(occs, p),
    ensures
        forall|k: int| 0 <= k < p.len() ==> (#[trigger] p[k]).1 < occs.len()
            && p[k].0 == occs[p[k].1 as int].start,
        sorted_by_start(in_order(occs, p)),
{
    let keys = start_keys(occs);
    assert forall|k: int| 0 <= k < p.len() implies (#[trigger] p[k]).1 < occs.len()
        && p[k].0 == occs[p[k].1 as int].start by {
        assert(p.contains(p[k]));
        assert(p.to_multiset().count(p[k]) > 0);
        assert(keys.to_multiset().count(p[k]) > 0);
        assert(keys.contains(p[k]));
        let j = choose|j: int| 0 <= j < keys.len() && keys[j] == p[k];
        assert(keys[j] == (occs[j].start, j as usize));
    }
    let order = in_order(occs, p);
    assert forall|a: int, b: int| 0 <= a < b < order.len() implies order[a].1 <= order[b].1 by {
        assert(key_le(p[a], p[b]));
    }
}

/// Picks what an agenda shows at `now`: the occurrences sorted stably by
/// start, filtered to those not yet ended that started less than a day ago,
/// the first `MAX_SHOWN` of them.
pub fn select(occs: &Vec<AgendaEntry>, now: i64) -> (r: Vec<AgendaEntry>)
    ensures
        is_selection(occs@, now as int, r@),
        r.len() <= MAX_SHOWN,
        sorted_by_start(views(r@)),
        forall|i: int| 0 <= i < r.len() ==> is_relevant(#[trigger] r[i]@, now as int),
{
    let mut keys: Vec<(i64, usize)> = Vec::new();
    let mut i: usize = 0;
    while i < occs.len()
        invariant
            i <= occs.len(),
            keys@ == start_keys(occs@).take(i as int),
        decreases occs.len() - i,
    {
        keys.push((occs[i].start, i));
        i = i + 1;
        proof {
            assert(keys@ =~= start_keys(occs@).take(i as int));
        }
    }
    assert(keys@ =~= start_keys(occs@));
    let sorted = sort_keys(keys);
    let ghost order = in_order(occs@, sorted@);
    proof {
        assert(is_start_order(occs@, sorted@));
        lemma_start_order(occs@, sorted@);
    }
    let mut out: Vec<AgendaEntry> = Vec::new();
    let mut k: usize = 0;
    assert(views(out@) =~= Seq::empty());
    assert(order.skip(0) =~= order);
    while k < sorted.len() && out.len() < MAX_SHOWN
        invariant
            k <= sorted.len(),
            out.len() <= MAX_SHOWN,
            order == in_order(occs@, sorted@),
            forall|k: int| 0 <= k < sorted.len() ==> (#[trigger] sorted[k]).1 < occs.len()
                && sorted[k].0 == occs[sorted[k].1 as int].start,
            views(out@) + first_relevant(order.skip(k as int), now as int, (MAX_SHOWN - out.len()) as nat)
                == first_relevant(order, now as int, MAX_SHOWN as nat),
        decreases sorted.len() - k,
    {
        let idx = sorted[k].1;
        let e = &occs[idx];
        let ghost rest = order.skip(k as int);
        let ghost m = (MAX_SHOWN - out.len()) as nat;
        proof {
            assert(rest.drop_first() =~= order.skip(k + 1));
            assert(rest[0] == e@);
        }
        if e.start as i128 + e.duration as i128 >= now as i128 && (now as i128) - (e.start as i128) < 86400 {
            let ghost prev = out@;
            out.push(AgendaEntry::new(e.name.clone(), e.start, e.duration));
            proof {
                assert(views(out@) =~= views(prev) + seq![e@]);
                assert(first_relevant(rest, now as int, m) == seq![e@] + first_relevant(
                    order.skip(k + 1),
                    now as int,
                    (m - 1) as nat,
                ));
                assert(views(out@) + first_relevant(order.skip(k + 1), now as int, (MAX_SHOWN - out.len()) as nat)
                    =~= views(prev) + first_relevant(rest, now as int, m));
            }
        }
        k = k + 1;
    }
    proof {
        assert(first_relevant(order.skip(k as int), now as int, (MAX_SHOWN - out.len()) as nat) =~= Seq::empty());
        assert(views(out@) =~= first_relevant(order, now as int, MAX_SHOWN as nat));
        lemma_first_relevant(order, now as int, MAX_SHOWN as nat);
        assert forall|i: int| 0 <= i < out.len() implies is_relevant(#[trigger] out[i]@, now as int) by {
            assert(views(out@)[i] == out[i]@);
        }
    }
    out
}

/// Renders an occurrence as its name, its start time `HH:MM`, and how long
/// ago it started (start at or before `when`) or how long until it starts.
pub fn format_agenda_entry_default(entry: &AgendaEntry, when: i64) -> (r: String)
    ensures
        r@ == default_text(entry@, when as int),
{
    let mut s = entry.name.clone();
    s.append(" ");
    append_clock(&mut s, seconds_into_day(entry.start));
    if entry.start <= when {
        s.append(" (");
        append_duration(&mut s, when as i128 - entry.start as i128);
        s.append(" ago)");
    } else {
        s.append(" (in ");
        append_duration(&mut s, entry.start as i128 - when as i128);
        s.append(")");
    }
    proof {
        assert(s@ =~= default_text(entry@, when as int));
    }
    s
}

/// Renders an occurrence as its name and the time until it starts, when
/// that is at least a minute; else as its name, the time since it started
/// and the time until it ends.
pub fn format_agenda_entry_compact(entry: &AgendaEntry, when: i64) -> (r: String)
    ensures
        r@ == compact_text(entry@, when as int),
{
    let until: i128 = entry.start as i128 - when as i128;
    let mut s = entry.name.clone();
    s.append(" · ");
    if until >= 60 {
        append_duration(&mut s, until);
    } else {
        append_duration(&mut s, if until >= 0 { until } else { -until });
        s.append("/");
        append_duration(&mut s, entry.start as i128 + entry.duration as i128 - when as i128);
    }
    proof {
        assert(s@ =~= compact_text(entry@, when as int));
    }
    s
}

/// Renders an occurrence under a display mode.
pub fn format_agenda_entry(mode: DisplayMode, entry: &AgendaEntry, when: i64) -> (r: String)
    ensures
        r@ == entry_text(mode, entry@, when as int),
{
    match mode {
        DisplayMode::Default => format_agenda_entry_default(entry, when),
        DisplayMode::Compact => format_agenda_entry_compact(entry, when),
    }
}

/// The agenda line at `now` for a list of occurrences: the selected ones,
/// each rendered under `mode`, joined by ` » `.
pub fn render_agenda(occs: &Vec<AgendaEntry>, mode: DisplayMode, now: i64) -> (r: String)
    ensures
        exists|shown: Seq<AgendaEntry>|
            is_selection(occs@, now as int, shown) && r@ == agenda_text(mode, views(shown), now as int),
{
    let shown = select(occs, now);
    let mut parts: Vec<String> = Vec::new();
    let mut i: usize = 0;
    while i < shown.len()
        invariant
            i <= shown.len(),
            parts.len() == i,
            forall|j: int| 0 <= j < i ==> (#[trigger] parts[j])@ == entry_text(mode, shown[j]@, now as int),
        decreases shown.len() - i,
    {
        parts.push(format_agenda_entry(mode, &shown[i], now));
        i = i + 1;
    }
    let r = join_parts(parts, " » ");
    proof {
        assert(parts@.map_values(|p: String| p@) =~= views(shown@).map_values(
            |e: (Seq<char>, int, int)| entry_text(mode, e, now as int),
        ));
    }
    r
}

/// The first instant of the window of a calendar at the UTC instant `now`:
/// `HOURS_BEHIND` hours earlier, or the earliest `i64`.
pub open spec fn window_start(now: int) -> int {
    if now - HOURS_BEHIND * 3600 < i64::MIN {
        i64::MIN as int
    } else {
        now - HOURS_BEHIND * 3600
    }
}

/// The last instant of the window of a calendar at the UTC instant `now`:
/// `HOURS_AHEAD` hours later, or the latest `i64`.
pub open spec fn window_end(now: int) -> int {
    if now + HOURS_AHEAD * 3600 > i64::MAX {
        i64::MAX as int
    } else {
        now + HOURS_AHEAD * 3600
    }
}

/// The parts one after another.
pub open spec fn concat_parts(parts: Seq<Seq<AgendaEntry>>) -> Seq<AgendaEntry>
    decreases parts.len(),
{
    if parts.len() == 0 {
        Seq::empty()
    } else {
        concat_parts(parts.drop_last()) + parts.last()
    }
}

/// Whether `part` is what one entry contributes to a calendar's occurrences
/// in the UTC window `(sod, eod)`: the outcome of extracting it, or nothing
/// when that fails. An entry without a recurrence rule whose times are sure to
/// resolve contributes its occurrence; one without a start or an end
/// contributes nothing.
pub open spec fn contributes(entry: CalendarEntry, sod: int, eod: int, part: Seq<AgendaEntry>) -> bool {
    &&& part.len() == 0 || extraction_ok(entry, sod, eod, part)
    &&& timed_surely(entry) && entry.rrule is None ==> extraction_ok(entry, sod, eod, part)
    &&& entry.start is None || entry.end is None ==> part.len() == 0
}

/// The agenda line of a calendar at an instant given both as a UTC instant
/// and as a reading of the local clock: each entry's occurrences within
/// `HOURS_BEHIND` before and `HOURS_AHEAD` after it, in the order of the
/// entries, entries that fail to extract contributing none, rendered by
/// `render_agenda`.
pub fn process_calendar(entries: &Vec<CalendarEntry>, mode: DisplayMode, now_utc: i64, now_local: i64) -> (r: String)
    ensures
        exists|parts: Seq<Seq<AgendaEntry>>, shown: Seq<AgendaEntry>| {
            &&& parts.len() == entries.len()
            &&& forall|i: int| 0 <= i < entries.len() ==> contributes(
                entries@[i],
                window_start(now_utc as int),
                window_end(now_utc as int),
                #[trigger] parts[i],
            )
            &&& is_selection(concat_parts(parts), now_local as int, shown)
            &&& r@ == agenda_text(mode, views(shown), now_local as int)
        },
{
    let sod: i64 = if now_utc >= i64::MIN + HOURS_BEHIND * 3600 {
        now_utc - HOURS_BEHIND * 3600
    } else {
        i64::MIN
    };
    let eod: i64 = if now_utc <= i64::MAX - HOURS_AHEAD * 3600 {
        now_utc + HOURS_AHEAD * 3600
    } else {
        i64::MAX
    };
    let mut all: Vec<AgendaEntry> = Vec::new();
    let ghost mut parts: Seq<Seq<AgendaEntry>> = Seq::empty();
    let mut i: usize = 0;
    while i < entries.len()
        invariant
            i <= entries.len(),
            sod == window_start(now_utc as int),
            eod == window_end(now_utc as int),
            parts.len() == i,
            all@ == concat_parts(parts),
            forall|k: int| 0 <= k < i ==> contributes(entries@[k], sod as int, eod as int, #[trigger] parts[k]),
        decreases entries.len() - i,
    {
        let ghost prev = parts;
        match extract_event(&entries[i], sod, eod) {
            Ok(found) => {
                proof {
                    parts = parts.push(found@);
                }
                let mut found = found;
                all.append(&mut found);
            },
            Err(_) => {
                proof {
                    parts = parts.push(Seq::empty());
                }
            },
        }
        proof {
            assert(parts.drop_last() =~= prev);
            assert(concat_parts(parts) =~= concat_parts(prev) + parts.last());
            assert(all@ =~= concat_parts(parts));
            assert forall|k: int| 0 <= k < i + 1 implies contributes(
                entries@[k],
                sod as int,
                eod as int,
                #[trigger] parts[k],
            ) by {
                if k < i {
                    assert(parts[k] == prev[k]);
                }
            }
        }
        i = i + 1;
    }
    let r = render_agenda(&all, mode, now_local);
    proof {
        let shown = choose|shown: Seq<AgendaEntry>|
            is_selection(all@, now_local as int, shown) && r@ == agenda_text(mode, views(shown), now_local as int);
        assert(forall|i: int| 0 <= i < entries.len() ==> contributes(
            entries@[i],
            window_start(now_utc as int),
            window_end(now_utc as int),
            #[trigger] parts[i],
        ));
        assert(is_selection(concat_parts(parts), now_local as int, shown));
    }
    r
}

/// Rendering is a function of the mode, the occurrence and the instant:
/// two renderings of the same occurrence under the same mode at the same
/// instant are the same text.
pub proof fn rendering_is_deterministic(
    mode: DisplayMode,
    entry: AgendaEntry,
    when: i64,
    first: String,
    second: String,
)
    requires
        first@ == entry_text(mode, entry@, when as int),
        second@ == entry_text(mode, entry@, when as int),
    ensures
        first@ == second@,
{
}

/// An agenda shows at most two occurrences, in ascending order of start,
/// each one not yet ended and started less than a day ago.
pub proof fn selection_is_short_sorted_and_relevant(
    occs: Seq<AgendaEntry>,
    now: int,
    shown: Seq<AgendaEntry>,
)
    requires
        occs.len() <= usize::MAX,
        is_selection(occs, now, shown),
    ensures
        shown.len() <= MAX_SHOWN,
        sorted_by_start(views(shown)),
        forall|i: int| 0 <= i < shown.len() ==> is_relevant(#[trigger] shown[i]@, now),
{
    let p = choose|p: Seq<(i64, usize)>|
        #[trigger] is_start_order(occs, p) && views(shown) == first_relevant(in_order(occs, p), now, MAX_SHOWN as nat);
    let order = in_order(occs, p);
    lemma_start_order(occs, p);
    lemma_first_relevant(order, now, MAX_SHOWN as nat);
    assert forall|i: int| 0 <= i < shown.len() implies is_relevant(#[trigger] shown[i]@, now) by {
        assert(views(shown)[i] == shown[i]@);
    }
}

} // verus!
