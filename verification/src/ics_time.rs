//! Times of calendar events and the expansion of recurring ones.
//!
//! An instant is a count of seconds since the Unix epoch. A wall time is a
//! date and time of day without a zone, counted the same way as if it were
//! UTC. chrono reads the texts and knows the zones; which instant a wall
//! time names in the machine's own zone depends on the machine, so of that
//! only what holds everywhere is stated.

use crate::tempo_calendar::{is_ics_date_only, Frequency, IcsWeekday, RRule, RawEvent};
use crate::text::all_digits;
use crate::text::{push_str, str_eq, trim, trimmed};
use crate::tempo_calendar::{ics_events, parse_rrule, raws_read, rule_read};
use chrono::{Datelike, Offset, TimeZone};
use vstd::prelude::*;

verus! {

/// Inside the span chrono can represent (its dates run from the year
/// -262143 to 262142, under 8.3e12 seconds either side of the epoch), with
/// room to spare.
pub open spec fn in_time_range(t: int) -> bool {
    -17592186044416 <= t <= 17592186044416
}

/// `DateTime::from_timestamp(t, 0)` gives a date and time: chrono can
/// represent the instant `t`.
pub uninterp spec fn representable(t: i64) -> bool;

/// An instant chrono can represent, in the span the library counts in.
pub open spec fn instant(t: i64) -> bool {
    in_time_range(t as int) && representable(t)
}

/// What `NaiveDateTime::parse_from_str(s, "%Y%m%dT%H%M%S")` reads, as a
/// wall time.
pub uninterp spec fn wall_time_parsed(s: Seq<char>) -> Option<i64>;

/// `chrono::NaiveDateTime::parse_from_str` in the ICS date-time format
/// `%Y%m%dT%H%M%S`: the wall time that `s` writes. Its value is named, not
/// written out; chrono's dates lie in its span, and chrono represents
/// each as an instant.
#[verifier::external_body]
fn parse_wall_time(s: &str) -> (r: Option<i64>)
    ensures
        r == wall_time_parsed(s@),
        r matches Some(t) ==> in_time_range(t as int) && representable(t),
{
    let wall = chrono::NaiveDateTime::parse_from_str(s, "%Y%m%dT%H%M%S").ok()?;
    Some(wall.and_utc().timestamp())
}

/// What `NaiveDate::parse_from_str(s, "%Y%m%d")` reads, as the wall time
/// of the date's midnight.
pub uninterp spec fn date_parsed(s: Seq<char>) -> Option<i64>;

/// `chrono::NaiveDate::parse_from_str` in the ICS date format `%Y%m%d`: the
/// date that `s` writes, as the wall time of its midnight, a whole number
/// of days, which chrono represents as an instant.
#[verifier::external_body]
fn parse_date(s: &str) -> (r: Option<i64>)
    ensures
        r == date_parsed(s@),
        r matches Some(t) ==> in_time_range(t as int) && representable(t) && t % 86400 == 0,
{
    let date = chrono::NaiveDate::parse_from_str(s, "%Y%m%d").ok()?;
    Some(date.and_time(chrono::NaiveTime::MIN).and_utc().timestamp())
}

/// The midnight after a date's midnight, unless the date is chrono's last.
pub uninterp spec fn day_after(midnight: i64) -> Option<i64>;

/// `chrono::NaiveDate::succ_opt` on the date of a midnight: the next
/// date's midnight, a day later, which chrono represents; `None` on
/// chrono's last date.
#[verifier::external_body]
fn next_midnight(midnight: i64) -> (r: Option<i64>)
    requires
        midnight % 86400 == 0,
    ensures
        r == day_after(midnight),
        r matches Some(t) ==> t == midnight + 86400 && in_time_range(t as int) && representable(t),
{
    let next = chrono::DateTime::from_timestamp(midnight, 0)?.date_naive().succ_opt()?;
    Some(next.and_time(chrono::NaiveTime::MIN).and_utc().timestamp())
}

/// Whether chrono-tz knows the zone, and if so the instant a wall time
/// names there when it names exactly one.
pub uninterp spec fn zoned_instant(zone: Seq<char>, wall: i64) -> Option<Option<i64>>;

/// `zone.parse::<chrono_tz::Tz>()` and then `from_local_datetime(..).single()`
/// in that zone: `None` for a zone name chrono-tz does not know, else the
/// instant, when the wall time names exactly one there. The zone database
/// is compiled into chrono-tz, so the result depends on the arguments alone.
/// An instant given is one chrono represents.
#[verifier::external_body]
fn zoned_single(zone: &str, wall: i64) -> (r: Option<Option<i64>>)
    ensures
        r == zoned_instant(zone@, wall),
        r matches Some(Some(t)) ==> in_time_range(t as int) && representable(t),
{
    let tz = zone.parse::<chrono_tz::Tz>().ok()?;
    let naive = match chrono::DateTime::from_timestamp(wall, 0) {
        Some(d) => d.naive_utc(),
        None => return Some(None),
    };
    match tz.from_local_datetime(&naive).single() {
        Some(t) => Some(Some(t.timestamp())),
        None => Some(None),
    }
}

/// `chrono::Local.from_local_datetime(..).single()`: the instant a wall time
/// names in the machine's zone, when it names exactly one. That depends on
/// the machine's zone, so only what holds in every zone is stated: the
/// instant lies in chrono's span, chrono represents it, and it lies less
/// than a day from the wall time
/// (chrono's offsets are under 86400 seconds either way).
#[verifier::external_body]
fn local_single(wall: i64) -> (r: Option<i64>)
    ensures
        r matches Some(t) ==> in_time_range(t as int) && representable(t) && t - wall < 86400 && wall - t < 86400,
{
    let naive = chrono::DateTime::from_timestamp(wall, 0)?.naive_utc();
    Some(chrono::Local.from_local_datetime(&naive).single()?.timestamp())
}

/// An instant moved by some seconds, while chrono can represent it.
pub uninterp spec fn plus_seconds(t: i64, secs: i64) -> Option<i64>;

/// `DateTime::checked_add_signed` with `TimeDelta::try_seconds(secs)`: the
/// instant `secs` seconds after `t`, or `None` where chrono cannot
/// represent the delta or the result (where `+` panics); a result is an
/// instant chrono represents.
#[verifier::external_body]
fn add_seconds(t: i64, secs: i64) -> (r: Option<i64>)
    ensures
        r == plus_seconds(t, secs),
        r matches Some(x) ==> x == t + secs && in_time_range(x as int) && representable(x),
{
    let delta = chrono::TimeDelta::try_seconds(secs)?;
    Some(chrono::DateTime::from_timestamp(t, 0)?.checked_add_signed(delta)?.timestamp())
}

/// How an ICS time reads: a definite instant, a wall time to be placed in
/// the machine's zone, or nothing.
#[derive(Clone, Copy, PartialEq, Eq, Structural, Debug)]
pub enum Reading {
    At(i64),
    Wall(i64),
    Invalid,
}

/// An ICS date-time (`%Y%m%dT%H%M%S`, `Z` for UTC, a `TZID` zone) or date
/// (`%Y%m%d`, at midnight), read after trimming white space. A wall time
/// in a known zone that names no single instant there is taken as UTC; so
/// is a wall time the machine's zone gives no single instant.
pub open spec fn ics_reading(value: Seq<char>, zone: Option<Seq<char>>) -> Reading {
    let v = trimmed(value);
    if v.len() > 0 && v.last() == 'Z' && wall_time_parsed(v.drop_last()) is Some {
        Reading::At(wall_time_parsed(v.drop_last())->0)
    } else {
        match wall_time_parsed(v) {
            Some(w) => match zone {
                Some(z) => match zoned_instant(z, w) {
                    Some(Some(t)) => Reading::At(t),
                    Some(None) => Reading::At(w),
                    None => Reading::Wall(w),
                },
                None => Reading::Wall(w),
            },
            None => match date_parsed(v) {
                Some(m) => Reading::Wall(m),
                None => Reading::Invalid,
            },
        }
    }
}

/// The reading of an ICS time.
pub fn read_ics_time(value: &str, zone: &Option<String>) -> (r: Reading)
    ensures
        r == ics_reading(
            value@,
            match zone {
                Some(z) => Some(z@),
                None => None,
            },
        ),
        match r {
            Reading::At(t) => instant(t),
            Reading::Wall(w) => instant(w),
            Reading::Invalid => true,
        },
{
    let v = trim(value);
    let n = v.unicode_len();
    if n > 0 && v.get_char(n - 1) == 'Z' {
        let head = crate::text::substring(v.as_str(), 0, n - 1);
        assert(head@ =~= v@.drop_last());
        if let Some(t) = parse_wall_time(head.as_str()) {
            return Reading::At(t);
        }
    }
    match parse_wall_time(v.as_str()) {
        Some(w) => match zone {
            Some(z) => match zoned_single(z.as_str(), w) {
                Some(Some(t)) => Reading::At(t),
                Some(None) => Reading::At(w),
                None => Reading::Wall(w),
            },
            None => Reading::Wall(w),
        },
        None => match parse_date(v.as_str()) {
            Some(m) => Reading::Wall(m),
            None => Reading::Invalid,
        },
    }
}

/// The instant of a wall time: the one the machine's zone names, when it
/// names exactly one, else the wall time taken as UTC.
pub fn settle(wall: i64, single: Option<i64>) -> (r: i64)
    ensures
        r == match single {
            Some(t) => t,
            None => wall,
        },
{
    match single {
        Some(t) => t,
        None => wall,
    }
}

/// The instant of an ICS time, `None` where it cannot be read. A wall time
/// is placed in the machine's zone, so of it only that some instant comes
/// back is stated.
pub fn parse_ics_datetime(value: &str, zone: &Option<String>) -> (r: Option<i64>)
    ensures
        match ics_reading(
            value@,
            match zone {
                Some(z) => Some(z@),
                None => None,
            },
        ) {
            Reading::At(t) => r == Some(t),
            Reading::Wall(_) => r is Some,
            Reading::Invalid => r is None,
        },
        r matches Some(t) ==> instant(t),
{
    match read_ics_time(value, zone) {
        Reading::At(t) => Some(t),
        Reading::Wall(w) => Some(settle(w, local_single(w))),
        Reading::Invalid => None,
    }
}

/// A zone name's characters.
pub open spec fn zone_view(z: Option<String>) -> Option<Seq<char>> {
    match z {
        Some(s) => Some(s@),
        None => None,
    }
}

/// An all-day end (`%Y%m%d`, read after trimming): the midnight after the
/// date, as a wall time.
pub open spec fn date_end_reading(value: Seq<char>) -> Reading {
    match date_parsed(trimmed(value)) {
        Some(m) => match day_after(m) {
            Some(n) => Reading::Wall(n),
            None => Reading::Invalid,
        },
        None => Reading::Invalid,
    }
}

/// The reading of an all-day end.
pub fn read_date_end(value: &str) -> (r: Reading)
    ensures
        r == date_end_reading(value@),
        r matches Reading::Wall(w) ==> instant(w),
        r !is At,
{
    let v = trim(value);
    match parse_date(v.as_str()) {
        Some(m) => match next_midnight(m) {
            Some(n) => Reading::Wall(n),
            None => Reading::Invalid,
        },
        None => Reading::Invalid,
    }
}

/// The instant an all-day event ends, `None` where its end cannot be read.
pub fn parse_ics_date_end(value: &str) -> (r: Option<i64>)
    ensures
        match date_end_reading(value@) {
            Reading::Invalid => r is None,
            _ => r is Some,
        },
        r matches Some(t) ==> instant(t),
{
    match read_date_end(value) {
        Reading::Wall(w) => Some(settle(w, local_single(w))),
        _ => None,
    }
}

/// The times of an event: skipped when its start cannot be read, out of
/// range where chrono cannot represent its default end.
#[derive(Clone, Copy, PartialEq, Eq, Structural, Debug)]
pub enum EventTimes {
    Skipped,
    Times(i64, i64),
    OutOfRange,
}

/// How an event's end reads, and how long it lasts when that fails: an
/// all-day `DTEND` ends at the next midnight, else a day after the start;
/// another `DTEND` is an ICS time, else an hour after the start; without
/// one the event lasts an hour.
pub open spec fn end_rule(end: Option<(String, Option<String>)>) -> (Reading, i64) {
    match end {
        None => (Reading::Invalid, 3600),
        Some((v, z)) => if v@.len() == 8 && all_digits(v@) {
            (date_end_reading(v@), 86400)
        } else {
            (ics_reading(v@, zone_view(z)), 3600)
        },
    }
}

/// The times read of an event: skipped exactly when its start cannot be
/// read; an exact start or end is kept; an end that cannot be read lies
/// the default length after the start, and the times are out of range
/// exactly where that length cannot be added to an exact start; both
/// readable gives times, which lie in chrono's span.
pub open spec fn times_read(e: RawEvent, r: EventTimes) -> bool {
    let rs = ics_reading(e.start.0@, zone_view(e.start.1));
    let (re, fallback) = end_rule(e.end);
    &&& rs is Invalid <==> r is Skipped
    &&& r matches EventTimes::Times(s, t) ==> {
        &&& rs matches Reading::At(a) ==> s == a
        &&& re matches Reading::At(b) ==> t == b
        &&& re is Invalid ==> plus_seconds(s, fallback) == Some(t)
        &&& instant(s) && instant(t)
    }
    &&& r is OutOfRange ==> re is Invalid
    &&& !(rs is Invalid) && !(re is Invalid) ==> r is Times
    &&& rs matches Reading::At(a) ==> ((re is Invalid) ==> ((r is OutOfRange) <==> (plus_seconds(a, fallback) is None)))
}

/// The start and end of an event. Where a time is a wall time, the instant
/// depends on the machine's zone; the rest is exact.
pub fn event_times(e: &RawEvent) -> (r: EventTimes)
    ensures
        times_read(*e, r),
{
    let start = match parse_ics_datetime(e.start.0.as_str(), &e.start.1) {
        Some(s) => s,
        None => return EventTimes::Skipped,
    };
    let (read, fallback): (Reading, i64) = match &e.end {
        None => (Reading::Invalid, 3600),
        Some((v, z)) => if is_ics_date_only(v.as_str()) {
            (read_date_end(v.as_str()), 86400)
        } else {
            (read_ics_time(v.as_str(), z), 3600)
        },
    };
    match read {
        Reading::At(t) => EventTimes::Times(start, t),
        Reading::Wall(w) => EventTimes::Times(start, settle(w, local_single(w))),
        Reading::Invalid => match add_seconds(start, fallback) {
            Some(t) => EventTimes::Times(start, t),
            None => EventTimes::OutOfRange,
        },
    }
}

/// A recurrence as the expansion uses it: the step between candidate
/// starts and the length of each occurrence in seconds, how many to emit,
/// the last start allowed, and the days allowed (every day when empty).
pub struct Recurrence {
    pub step: i64,
    pub duration: i64,
    pub count: usize,
    pub until: Option<i64>,
    pub byday: Vec<IcsWeekday>,
}

/// The days between candidate starts: the interval (at least 1) in days,
/// weeks, 30-day months or 365-day years.
pub open spec fn step_days(freq: Frequency, interval: u32) -> int {
    let n: int = if interval >= 1 {
        interval as int
    } else {
        1
    };
    match freq {
        Frequency::Daily => n,
        Frequency::Weekly => 7 * n,
        Frequency::Monthly => 30 * n,
        Frequency::Yearly => 365 * n,
    }
}

/// The recurrence of `rule` for an event from `start` to `end`: no count
/// means no limit; an `UNTIL` that cannot be read means no end, and one in
/// wall time ends at an instant that depends on the machine's zone.
pub open spec fn recurrence_read(rule: RRule, start: i64, end: i64, r: Recurrence) -> bool {
    &&& r.step == step_days(rule.freq, rule.interval) * 86400
    &&& r.duration == end - start
    &&& r.count == match rule.count {
        Some(c) => c,
        None => usize::MAX,
    }
    &&& match rule.until {
        None => r.until is None,
        Some(u) => match ics_reading(u@, None) {
            Reading::At(t) => r.until == Some(t),
            Reading::Wall(_) => r.until is Some,
            Reading::Invalid => r.until is None,
        },
    }
    &&& r.byday@ == rule.byday@
}

/// The recurrence of a rule for an event from `start` to `end`: no count
/// means no limit, and an `UNTIL` that cannot be read means no end.
pub fn recurrence_of(rule: &RRule, start: i64, end: i64) -> (r: Recurrence)
    requires
        in_time_range(start as int),
        in_time_range(end as int),
    ensures
        recurrence_read(*rule, start, end, r),
{
    let n: i64 = if rule.interval >= 1 {
        rule.interval as i64
    } else {
        1
    };
    let days: i64 = match rule.freq {
        Frequency::Daily => n,
        Frequency::Weekly => 7 * n,
        Frequency::Monthly => 30 * n,
        Frequency::Yearly => 365 * n,
    };
    let count = match rule.count {
        Some(c) => c,
        None => usize::MAX,
    };
    let until = match &rule.until {
        Some(u) => parse_ics_datetime(u.as_str(), &None),
        None => None,
    };
    let mut byday: Vec<IcsWeekday> = Vec::new();
    let mut i: usize = 0;
    while i < rule.byday.len()
        invariant
            i <= rule.byday@.len(),
            byday@ == rule.byday@.take(i as int),
        decreases rule.byday@.len() - i,
    {
        byday.push(rule.byday[i]);
        assert(byday@ =~= rule.byday@.take(i + 1));
        i = i + 1;
    }
    assert(byday@ =~= rule.byday@);
    Recurrence { step: days * 86400, duration: end - start, count, until, byday }
}

/// A rule repeats every `INTERVAL` periods of its frequency (one period
/// when the interval is missing or 0): a day is 86400 seconds, a week 7
/// days, a month 30 days and a year 365 days.
pub proof fn law_recurrence_step(rule: RRule, start: i64, end: i64, r: Recurrence)
    requires
        recurrence_read(rule, start, end, r),
    ensures
        ({
            let periods: int = if rule.interval == 0 {
                1
            } else {
                rule.interval as int
            };
            &&& rule.freq == Frequency::Daily ==> r.step == periods * 86400
            &&& rule.freq == Frequency::Weekly ==> r.step == periods * 7 * 86400
            &&& rule.freq == Frequency::Monthly ==> r.step == periods * 30 * 86400
            &&& rule.freq == Frequency::Yearly ==> r.step == periods * 365 * 86400
        }),
        r.step >= 86400,
        r.duration == end - start,
{
}

/// Where the expansion stands: the next candidate start, how many
/// occurrences were emitted, and the occurrences so far.
pub struct Expansion {
    pub current: i64,
    pub emitted: usize,
    pub occurrences: Vec<(i64, i64)>,
}

impl Expansion {
    /// The expansion before its first step, at the event's start.
    pub fn new(start: i64) -> (r: Self)
        ensures
            r.current == start,
            r.emitted == 0,
            r.occurrences@.len() == 0,
    {
        Expansion { current: start, emitted: 0, occurrences: Vec::new() }
    }
}

/// What a step of the expansion leads to.
#[derive(Clone, Copy, PartialEq, Eq, Structural, Debug)]
pub enum Step {
    Next,
    Done,
    OutOfRange,
}

/// Whether a candidate on the given day counts: every day counts when the
/// rule names none.
pub open spec fn day_counts(days: Seq<IcsWeekday>, day: IcsWeekday) -> bool {
    days.len() == 0 || days.contains(day)
}

/// One step: stop once `count` occurrences are out or the candidate lies
/// after `until`; else emit the candidate when its day counts, move to the
/// next candidate, and stop once more than 500 occurrences are out.
/// `OutOfRange` where chrono cannot represent an occurrence's end or the
/// next candidate.
pub open spec fn step_of(
    rec: Recurrence,
    current: i64,
    emitted: usize,
    occ: Seq<(i64, i64)>,
    day: IcsWeekday,
) -> (Step, i64, usize, Seq<(i64, i64)>) {
    if !(emitted < rec.count) || (rec.until matches Some(u) && current > u) {
        (Step::Done, current, emitted, occ)
    } else if day_counts(rec.byday@, day) && plus_seconds(current, rec.duration) is None {
        (Step::OutOfRange, current, emitted, occ)
    } else {
        let (e2, o2) = if day_counts(rec.byday@, day) {
            ((emitted + 1) as usize, occ.push((current, plus_seconds(current, rec.duration)->0)))
        } else {
            (emitted, occ)
        };
        match plus_seconds(current, rec.step) {
            None => (Step::OutOfRange, current, e2, o2),
            Some(next) => (if o2.len() > 500 {
                Step::Done
            } else {
                Step::Next
            }, next, e2, o2),
        }
    }
}

fn day_listed(days: &Vec<IcsWeekday>, day: IcsWeekday) -> (r: bool)
    ensures
        r == day_counts(days@, day),
{
    if days.len() == 0 {
        return true;
    }
    let mut i: usize = 0;
    while i < days.len()
        invariant
            i <= days@.len(),
            forall|j: int| 0 <= j < i ==> days@[j] != day,
        decreases days@.len() - i,
    {
        if days[i] == day {
            assert(days@.contains(day));
            return true;
        }
        i = i + 1;
    }
    false
}

/// Takes one step of the expansion; `day` is the day of the week the
/// current candidate falls on in the machine's zone.
pub fn expand_step(rec: &Recurrence, ex: &mut Expansion, day: IcsWeekday) -> (r: Step)
    ensures
        ({
            let (st, cur, em, occ) = step_of(*rec, old(ex).current, old(ex).emitted, old(ex).occurrences@, day);
            &&& r == st
            &&& r != Step::OutOfRange ==> final(ex).current == cur && final(ex).emitted == em
                && final(ex).occurrences@ == occ
        }),
        expansion_ok(*rec, old(ex).current, old(ex).emitted, old(ex).occurrences@) && rec.step > 0 && r
            != Step::OutOfRange ==> expansion_ok(*rec, final(ex).current, final(ex).emitted, final(ex).occurrences@),
        r == Step::Next ==> final(ex).occurrences@.len() <= 500,
        r == Step::Next ==> final(ex).current == old(ex).current + rec.step && instant(final(ex).current),
{
    let ghost occ0 = ex.occurrences@;
    if !(ex.emitted < rec.count) {
        return Step::Done;
    }
    if let Some(u) = rec.until {
        if ex.current > u {
            return Step::Done;
        }
    }
    if day_listed(&rec.byday, day) {
        match add_seconds(ex.current, rec.duration) {
            Some(end) => {
                ex.occurrences.push((ex.current, end));
                ex.emitted = ex.emitted + 1;
            },
            None => {
                return Step::OutOfRange;
            },
        }
    }
    match add_seconds(ex.current, rec.step) {
        Some(next) => {
            ex.current = next;
        },
        None => {
            return Step::OutOfRange;
        },
    }
    proof {
        let o2 = ex.occurrences@;
        if expansion_ok(*rec, old(ex).current, old(ex).emitted, occ0) && rec.step > 0 {
            assert forall|i: int, j: int| 0 <= i < j < o2.len() implies (#[trigger] o2[i]).0 < (#[trigger] o2[j]).0 by {
                if i < occ0.len() {
                    assert(o2[i] == occ0[i]);
                }
                if j < occ0.len() {
                    assert(o2[j] == occ0[j]);
                }
            }
            assert forall|i: int| 0 <= i < o2.len() implies (#[trigger] o2[i]).0 < ex.current && o2[i].1 == o2[i].0
                + rec.duration by {
                if i < occ0.len() {
                    assert(o2[i] == occ0[i]);
                }
            }
        }
    }
    if ex.occurrences.len() > 500 {
        Step::Done
    } else {
        Step::Next
    }
}

/// What holds of an expansion all along: as many occurrences as were
/// emitted, no more than the count, in increasing order of start, all
/// before the current candidate, each lasting the event's length.
pub open spec fn expansion_ok(rec: Recurrence, current: i64, emitted: usize, occ: Seq<(i64, i64)>) -> bool {
    &&& occ.len() == emitted
    &&& emitted <= rec.count
    &&& forall|i: int, j: int| 0 <= i < j < occ.len() ==> (#[trigger] occ[i]).0 < (#[trigger] occ[j]).0
    &&& forall|i: int| 0 <= i < occ.len() ==> (#[trigger] occ[i]).0 < current && occ[i].1 == occ[i].0 + rec.duration
}

/// A new expansion is in order.
pub proof fn law_new_expansion_is_ok(rec: Recurrence, start: i64)
    ensures
        expansion_ok(rec, start, 0, Seq::empty()),
{
}

/// The occurrences of an expansion, or the event itself where none came
/// out.
pub fn occurrences_or_single(ex: Expansion, start: i64, end: i64) -> (r: Vec<(i64, i64)>)
    ensures
        r@ == if ex.occurrences@.len() == 0 {
            seq![(start, end)]
        } else {
            ex.occurrences@
        },
{
    if ex.occurrences.len() == 0 {
        vec![(start, end)]
    } else {
        ex.occurrences
    }
}

/// `DateTime::from_timestamp`, `with_timezone(&Local)` and `weekday()`: the
/// day of the week an instant chrono represents falls on in the machine's
/// zone. It depends on the machine's zone, so nothing is stated of it.
#[verifier::external_body]
fn local_weekday(t: i64) -> (r: IcsWeekday)
    requires
        representable(t),
{
    let utc = chrono::DateTime::from_timestamp(t, 0).expect("the instant is representable");
    match utc.with_timezone(&chrono::Local).weekday() {
        chrono::Weekday::Mon => IcsWeekday::Mon,
        chrono::Weekday::Tue => IcsWeekday::Tue,
        chrono::Weekday::Wed => IcsWeekday::Wed,
        chrono::Weekday::Thu => IcsWeekday::Thu,
        chrono::Weekday::Fri => IcsWeekday::Fri,
        chrono::Weekday::Sat => IcsWeekday::Sat,
        chrono::Weekday::Sun => IcsWeekday::Sun,
    }
}

/// An expansion run from the given state, with `days` the days of the week
/// its candidates fall on, one per step, ends with `out`: the occurrences
/// once a step is done, `None` where a step left chrono's range. False
/// where the days fit no run.
pub open spec fn expansion_ends(
    rec: Recurrence,
    current: i64,
    emitted: usize,
    occ: Seq<(i64, i64)>,
    days: Seq<IcsWeekday>,
    out: Option<Seq<(i64, i64)>>,
) -> bool
    decreases days.len(),
{
    if days.len() == 0 {
        false
    } else {
        let (st, cur, em, o) = step_of(rec, current, emitted, occ, days[0]);
        match st {
            Step::Done => days.len() == 1 && out == Some(o),
            Step::OutOfRange => days.len() == 1 && out is None,
            Step::Next => expansion_ends(rec, cur, em, o, days.drop_first(), out),
        }
    }
}

/// The occurrences of an expansion, or the event itself where none came out.
pub open spec fn or_single(occ: Seq<(i64, i64)>, start: i64, end: i64) -> Seq<(i64, i64)> {
    if occ.len() == 0 {
        seq![(start, end)]
    } else {
        occ
    }
}

/// The spans of a recurring event from `start` to `end`: its expansion run
/// to the end, one step after another, with the day of the week of each
/// candidate read in the machine's zone; `None` where a step leaves
/// chrono's range.
pub fn expand_spans(rec: &Recurrence, start: i64, end: i64) -> (r: Option<Vec<(i64, i64)>>)
    requires
        rec.step > 0,
        instant(start),
    ensures
        exists|days: Seq<IcsWeekday>, out: Option<Seq<(i64, i64)>>|
            #[trigger] expansion_ends(*rec, start, 0, Seq::empty(), days, out) && match out {
                None => r is None,
                Some(o) => r matches Some(v) && v@ == or_single(o, start, end),
            },
{
    let mut ex = Expansion::new(start);
    let ghost mut drawn: Seq<IcsWeekday> = Seq::empty();
    proof {
        assert forall|rest: Seq<IcsWeekday>, out: Option<Seq<(i64, i64)>>|
            #[trigger] expansion_ends(*rec, ex.current, ex.emitted, ex.occurrences@, rest, out) implies expansion_ends(
            *rec,
            start,
            0,
            Seq::empty(),
            drawn + rest,
            out,
        ) by {
            assert(drawn + rest =~= rest);
            assert(ex.occurrences@ =~= Seq::<(i64, i64)>::empty());
        }
    }
    loop
        invariant
            rec.step > 0,
            instant(ex.current),
            forall|rest: Seq<IcsWeekday>, out: Option<Seq<(i64, i64)>>|
                #[trigger] expansion_ends(*rec, ex.current, ex.emitted, ex.occurrences@, rest, out) ==> expansion_ends(
                    *rec,
                    start,
                    0,
                    Seq::empty(),
                    drawn + rest,
                    out,
                ),
        decreases i64::MAX - ex.current,
    {
        let ghost c0 = ex.current;
        let ghost e0 = ex.emitted;
        let ghost o0 = ex.occurrences@;
        let day = local_weekday(ex.current);
        let ghost one: Seq<IcsWeekday> = seq![day];
        match expand_step(rec, &mut ex, day) {
            Step::Next => {
                proof {
                    let (st, cur, em, o) = step_of(*rec, c0, e0, o0, day);
                    assert forall|rest: Seq<IcsWeekday>, out: Option<Seq<(i64, i64)>>|
                        #[trigger] expansion_ends(*rec, ex.current, ex.emitted, ex.occurrences@, rest, out)
                            implies expansion_ends(*rec, start, 0, Seq::empty(), drawn.push(day) + rest, out) by {
                        let longer = one + rest;
                        assert(longer.drop_first() =~= rest);
                        assert(longer[0] == day);
                        assert(expansion_ends(*rec, c0, e0, o0, longer, out));
                        assert(drawn + longer =~= drawn.push(day) + rest);
                    }
                    drawn = drawn.push(day);
                }
            },
            Step::Done => {
                let ghost (st, cur, em, o) = step_of(*rec, c0, e0, o0, day);
                proof {
                    assert(expansion_ends(*rec, c0, e0, o0, one, Some(ex.occurrences@)));
                }
                return Some(occurrences_or_single(ex, start, end));
            },
            Step::OutOfRange => {
                proof {
                    assert(expansion_ends(*rec, c0, e0, o0, one, None));
                }
                return None;
            },
        }
    }
}

/// How an event with the times read spreads into spans, with `days` the
/// days of the week drawn while expanding it: none when skipped, `None`
/// where its times or its expansion leave chrono's range, the event itself
/// when it does not recur, else the expansion of its rule.
pub open spec fn spans_read(
    e: RawEvent,
    times: EventTimes,
    days: Seq<IcsWeekday>,
    spans: Option<Seq<(i64, i64)>>,
) -> bool {
    match times {
        EventTimes::Skipped => spans == Some(Seq::<(i64, i64)>::empty()),
        EventTimes::OutOfRange => spans is None,
        EventTimes::Times(s, t) => match e.rrule {
            None => spans == Some(seq![(s, t)]),
            Some(raw) => exists|rule: RRule, rec: Recurrence, out: Option<Seq<(i64, i64)>>|
                #![trigger rule_read(raw@, rule), recurrence_read(rule, s, t, rec), expansion_ends(rec, s, 0, Seq::empty(), days, out)]
                rule_read(raw@, rule) && recurrence_read(rule, s, t, rec) && expansion_ends(
                    rec,
                    s,
                    0,
                    Seq::empty(),
                    days,
                    out,
                ) && spans == match out {
                    None => None,
                    Some(o) => Some(or_single(o, s, t)),
                },
        },
    }
}

/// A view of an optional vector.
pub open spec fn opt_seq(v: Option<Vec<(i64, i64)>>) -> Option<Seq<(i64, i64)>> {
    match v {
        Some(x) => Some(x@),
        None => None,
    }
}

/// The times and spans of an event: its times read, then, where it
/// recurs, its rule expanded.
pub fn event_spans(e: &RawEvent) -> (r: (EventTimes, Option<Vec<(i64, i64)>>))
    ensures
        times_read(*e, r.0),
        exists|days: Seq<IcsWeekday>| #[trigger] spans_read(*e, r.0, days, opt_seq(r.1)),
{
    let times = event_times(e);
    match times {
        EventTimes::Skipped => {
            let v: Vec<(i64, i64)> = Vec::new();
            proof {
                assert(v@ =~= Seq::<(i64, i64)>::empty());
                assert(spans_read(*e, times, Seq::empty(), opt_seq(Some(v))));
            }
            (times, Some(v))
        },
        EventTimes::OutOfRange => {
            proof {
                assert(spans_read(*e, times, Seq::empty(), opt_seq(None)));
            }
            (times, None)
        },
        EventTimes::Times(s, t) => match &e.rrule {
            None => {
                let v = vec![(s, t)];
                proof {
                    assert(v@ =~= seq![(s, t)]);
                    assert(spans_read(*e, times, Seq::empty(), opt_seq(Some(v))));
                }
                (times, Some(v))
            },
            Some(raw) => {
                let rule = parse_rrule(raw.as_str());
                let rec = recurrence_of(&rule, s, t);
                proof {
                    lemma_step_positive(rule.freq, rule.interval);
                }
                let spans = expand_spans(&rec, s, t);
                proof {
                    let (days, out) = choose|days: Seq<IcsWeekday>, out: Option<Seq<(i64, i64)>>|
                        #[trigger] expansion_ends(rec, s, 0, Seq::empty(), days, out) && match out {
                            None => spans is None,
                            Some(o) => spans matches Some(v) && v@ == or_single(o, s, t),
                        };
                    assert(rule_read(raw@, rule) && recurrence_read(rule, s, t, rec) && expansion_ends(
                        rec,
                        s,
                        0,
                        Seq::empty(),
                        days,
                        out,
                    ));
                    assert(spans_read(*e, times, days, opt_seq(spans)));
                }
                (times, spans)
            },
        },
    }
}

proof fn lemma_step_positive(freq: Frequency, interval: u32)
    ensures
        step_days(freq, interval) >= 1,
{
}

/// An event as it is compared: title, start, end and color.
pub open spec fn event_view(e: CalendarEvent) -> (Seq<char>, i64, i64, Option<Seq<char>>) {
    (e.title@, e.start, e.end, zone_view(e.color))
}

/// The views of some events.
pub open spec fn event_views(evs: Seq<CalendarEvent>) -> Seq<(Seq<char>, i64, i64, Option<Seq<char>>)> {
    evs.map_values(|e: CalendarEvent| event_view(e))
}

/// The events that spans make, with a title and a color.
pub open spec fn span_events(title: Seq<char>, color: Seq<char>, sp: Seq<(i64, i64)>) -> Seq<
    (Seq<char>, i64, i64, Option<Seq<char>>),
> {
    sp.map_values(|p: (i64, i64)| (title, p.0, p.1, Some(color)))
}

/// The events the spans of the first events make, in order, each with its
/// event's title and the calendar's color.
pub open spec fn spread_events(
    raws: Seq<RawEvent>,
    spans: Seq<Option<Seq<(i64, i64)>>>,
    color: Seq<char>,
) -> Seq<(Seq<char>, i64, i64, Option<Seq<char>>)>
    decreases spans.len(),
{
    if spans.len() == 0 {
        Seq::empty()
    } else {
        let n = spans.len() - 1;
        let title = raws[n].title@;
        spread_events(raws, spans.drop_last(), color) + match spans[n] {
            Some(sp) => span_events(title, color, sp),
            None => Seq::empty(),
        }
    }
}

/// The events of ICS text read, and for the first of them their times,
/// the days of the week drawn while expanding them and their spans, each
/// but the last within chrono's range.
pub open spec fn events_read(
    raw: Seq<char>,
    raws: Seq<RawEvent>,
    times: Seq<EventTimes>,
    days: Seq<Seq<IcsWeekday>>,
    spans: Seq<Option<Seq<(i64, i64)>>>,
) -> bool {
    &&& raws_read(raw, raws)
    &&& times.len() == spans.len() && days.len() == spans.len() && spans.len() <= raws.len()
    &&& forall|k: int|
        #![trigger spans_read(raws[k], times[k], days[k], spans[k])]
        #![trigger times[k]]
        0 <= k < spans.len() ==> times_read(raws[k], times[k]) && spans_read(raws[k], times[k], days[k], spans[k])
    &&& forall|k: int| 0 <= k < spans.len() - 1 ==> #[trigger] spans[k] is Some
}

/// The events of ICS text: each event's times read, its recurrence
/// expanded with the days of the week its candidates fall on in the
/// machine's zone, each span an event with the event's title and the
/// calendar's color, copies dropped; `None` where an event's times or its
/// expansion leave chrono's range, at the first event that does.
pub fn parse_ics_events(raw: &str, color: &str) -> (r: Option<Vec<CalendarEvent>>)
    ensures
        exists|
            raws: Seq<RawEvent>,
            times: Seq<EventTimes>,
            days: Seq<Seq<IcsWeekday>>,
            spans: Seq<Option<Seq<(i64, i64)>>>,
        |
            #[trigger] events_read(raw@, raws, times, days, spans) && match r {
                None => spans.len() >= 1 && spans.last() is None,
                Some(v) => spans.len() == raws.len() && (forall|k: int| 0 <= k < spans.len() ==> #[trigger] spans[k] is Some)
                    && exists|all: Seq<CalendarEvent>, walls: Map<i64, Option<i64>>|
                    event_views(all) == spread_events(raws, spans, color@) && v@ == kept(
                        all,
                        #[trigger] wall_keys(all, walls),
                    ),
            },
{
    let evs = ics_events(raw);
    let mut all: Vec<CalendarEvent> = Vec::new();
    let ghost mut times: Seq<EventTimes> = Seq::empty();
    let ghost mut days: Seq<Seq<IcsWeekday>> = Seq::empty();
    let ghost mut spans: Seq<Option<Seq<(i64, i64)>>> = Seq::empty();
    let mut i: usize = 0;
    while i < evs.len()
        invariant
            i <= evs@.len(),
            spans.len() == i,
            events_read(raw@, evs@, times, days, spans),
            forall|k: int| 0 <= k < spans.len() ==> #[trigger] spans[k] is Some,
            event_views(all@) == spread_events(evs@, spans, color@),
        decreases evs@.len() - i,
    {
        let (t, sp) = event_spans(&evs[i]);
        let ghost d = choose|d: Seq<IcsWeekday>| #[trigger] spans_read(evs@[i as int], t, d, opt_seq(sp));
        let ghost times1 = times.push(t);
        let ghost days1 = days.push(d);
        let ghost spans1 = spans.push(opt_seq(sp));
        proof {
            assert forall|k: int|
                #![trigger spans_read(evs@[k], times1[k], days1[k], spans1[k])]
                #![trigger times1[k]]
                0 <= k < spans1.len() implies times_read(evs@[k], times1[k]) && spans_read(
                evs@[k],
                times1[k],
                days1[k],
                spans1[k],
            ) by {
                if k < spans.len() {
                    assert(times1[k] == times[k]);
                    assert(spans_read(evs@[k], times[k], days[k], spans[k]));
                }
            }
            assert forall|k: int| 0 <= k < spans1.len() - 1 implies #[trigger] spans1[k] is Some by {
                assert(spans[k] is Some);
            }
            assert(times_read(evs@[i as int], t));
            assert(spans_read(evs@[i as int], t, d, opt_seq(sp)));
            assert(raws_read(raw@, evs@));
            assert(events_read(raw@, evs@, times1, days1, spans1));
        }
        match sp {
            None => {
                return None;
            },
            Some(v) => {
                let mut title = String::new();
                push_str(&mut title, evs[i].title.as_str());
                let ghost base = event_views(all@);
                let ghost tl = evs@[i as int].title@;
                let mut j: usize = 0;
                while j < v.len()
                    invariant
                        j <= v@.len(),
                        title@ == tl,
                        event_views(all@) == base + span_events(tl, color@, v@.take(j as int)),
                    decreases v@.len() - j,
                {
                    let mut c = String::new();
                    push_str(&mut c, color);
                    let mut tt = String::new();
                    push_str(&mut tt, title.as_str());
                    let ev = CalendarEvent { title: tt, start: v[j].0, end: v[j].1, color: Some(c) };
                    let ghost before = all@;
                    all.push(ev);
                    proof {
                        assert(all@ =~= before.push(ev));
                        assert(event_views(before.push(ev)) =~= event_views(before).push(event_view(ev)));
                        assert(span_events(tl, color@, v@.take(j + 1)) =~= span_events(tl, color@, v@.take(j as int)).push(
                            event_view(ev),
                        ));
                        assert(event_views(all@) =~= base + span_events(tl, color@, v@.take(j + 1)));
                    }
                    j = j + 1;
                }
                proof {
                    assert(v@.take(v@.len() as int) =~= v@);
                    assert(spans1.drop_last() =~= spans);
                    assert(spans1[spans1.len() - 1] == Some(v@));
                    assert(spread_events(evs@, spans1, color@) =~= spread_events(evs@, spans, color@) + span_events(
                        tl,
                        color@,
                        v@,
                    ));
                    times = times1;
                    days = days1;
                    spans = spans1;
                }
            },
        }
        i = i + 1;
    }
    let ghost all_v = all@;
    let r = dedup_events(all);
    Some(r)
}

/// An event of a calendar, between two instants.
pub struct CalendarEvent {
    pub title: String,
    pub start: i64,
    pub end: i64,
    pub color: Option<String>,
}

/// `with_timezone(&Local)`, then `checked_add_offset` of the local offset
/// (what `naive_local` computes, without its panic): the wall time an
/// instant shows in the machine's zone, `None` where it falls outside
/// chrono's range. That depends on the machine's zone, so only what holds
/// in every zone is stated: the wall time is less than a day from the
/// instant (chrono's offsets are under 86400 seconds either way).
#[verifier::external_body]
fn local_wall(t: i64) -> (r: Option<i64>)
    ensures
        r matches Some(w) ==> w - t < 86400 && t - w < 86400,
{
    let local = chrono::DateTime::from_timestamp(t, 0)?.with_timezone(&chrono::Local);
    let wall = local.naive_utc().checked_add_offset(local.offset().fix())?;
    Some(wall.and_utc().timestamp())
}

/// The wall times an event shows, the key by which copies are found.
pub type WallKey = (Option<i64>, Option<i64>);

/// Two events are copies: the same title, wall times and color.
pub open spec fn copies(a: CalendarEvent, ka: WallKey, b: CalendarEvent, kb: WallKey) -> bool {
    &&& a.title@ == b.title@
    &&& ka == kb
    &&& zone_view(a.color) == zone_view(b.color)
}

/// No earlier event is a copy of event `i`.
pub open spec fn first_copy(evs: Seq<CalendarEvent>, keys: Seq<WallKey>, i: int) -> bool {
    forall|j: int| 0 <= j < i ==> !copies(#[trigger] evs[j], keys[j], evs[i], keys[i])
}

/// The events that are no copy of an earlier one, in their order.
pub open spec fn kept(evs: Seq<CalendarEvent>, keys: Seq<WallKey>) -> Seq<CalendarEvent>
    decreases evs.len(),
{
    if evs.len() == 0 {
        Seq::empty()
    } else {
        let n = evs.len() - 1;
        let before = kept(evs.drop_last(), keys);
        if first_copy(evs, keys, n) {
            before.push(evs[n])
        } else {
            before
        }
    }
}

fn same_wall(a: Option<i64>, b: Option<i64>) -> (r: bool)
    ensures
        r == (a == b),
{
    match (a, b) {
        (Some(x), Some(y)) => x == y,
        (None, None) => true,
        _ => false,
    }
}

fn same_color(a: &Option<String>, b: &Option<String>) -> (r: bool)
    ensures
        r == (zone_view(*a) == zone_view(*b)),
{
    match (a, b) {
        (Some(x), Some(y)) => str_eq(x.as_str(), y.as_str()),
        (None, None) => true,
        _ => false,
    }
}

/// Drops each event that is a copy of an earlier one, by the given keys.
pub fn dedup_by_keys(events: Vec<CalendarEvent>, keys: &Vec<WallKey>) -> (r: Vec<CalendarEvent>)
    requires
        keys@.len() == events@.len(),
    ensures
        r@ == kept(events@, keys@),
{
    let ghost evs = events@;
    let n = events.len();
    let mut keep: Vec<bool> = Vec::new();
    let mut i: usize = 0;
    while i < n
        invariant
            n == evs.len(),
            events@ == evs,
            keys@.len() == n,
            i <= n,
            keep@.len() == i,
            forall|k: int| 0 <= k < i ==> #[trigger] keep@[k] == first_copy(evs, keys@, k),
        decreases n - i,
    {
        let mut first = true;
        let mut j: usize = 0;
        while j < i
            invariant
                n == evs.len(),
                events@ == evs,
                keys@.len() == n,
                i < n,
                j <= i,
                first == forall|k: int| 0 <= k < j ==> !copies(#[trigger] evs[k], keys@[k], evs[i as int], keys@[i as int]),
            decreases i - j,
        {
            if str_eq(events[j].title.as_str(), events[i].title.as_str()) && same_wall(keys[j].0, keys[i].0) && same_wall(keys[j].1, keys[i].1) && same_color(
                &events[j].color,
                &events[i].color,
            ) {
                first = false;
            }
            j = j + 1;
        }
        keep.push(first);
        i = i + 1;
    }
    let mut rest = events;
    let mut out: Vec<CalendarEvent> = Vec::new();
    let mut i: usize = 0;
    while i < n
        invariant
            n == evs.len(),
            keys@.len() == n,
            i <= n,
            keep@.len() == n,
            forall|k: int| 0 <= k < n ==> #[trigger] keep@[k] == first_copy(evs, keys@, k),
            rest@ == evs.skip(i as int),
            out@ == kept(evs.take(i as int), keys@),
        decreases n - i,
    {
        let ghost t = evs.take(i + 1);
        assert(t.drop_last() =~= evs.take(i as int));
        assert(first_copy(t, keys@, i as int) == first_copy(evs, keys@, i as int)) by {
            assert forall|j: int| 0 <= j < i implies t[j] == evs[j] by {}
            assert(t[i as int] == evs[i as int]);
        }
        let e = rest.remove(0);
        assert(rest@ =~= evs.skip(i + 1));
        if keep[i] {
            out.push(e);
        }
        i = i + 1;
    }
    assert(evs.take(n as int) =~= evs);
    out
}

/// The keys of the events, each instant's wall time read from `walls`.
pub open spec fn wall_keys(evs: Seq<CalendarEvent>, walls: Map<i64, Option<i64>>) -> Seq<WallKey> {
    Seq::new(evs.len(), |i: int| (walls[evs[i].start], walls[evs[i].end]))
}

/// Two events with the same title, start, end and color.
pub open spec fn same_event(a: CalendarEvent, b: CalendarEvent) -> bool {
    &&& a.title@ == b.title@
    &&& a.start == b.start
    &&& a.end == b.end
    &&& zone_view(a.color) == zone_view(b.color)
}

/// `memo` holds the wall times `walls` maps instants to, each instant once.
pub open spec fn memo_of(memo: Seq<(i64, Option<i64>)>, walls: Map<i64, Option<i64>>) -> bool {
    &&& forall|m: int| 0 <= m < memo.len() ==> walls.contains_key(#[trigger] memo[m].0) && walls[memo[m].0] == memo[m].1
    &&& forall|t: i64| #[trigger] walls.contains_key(t) ==> exists|m: int| 0 <= m < memo.len() && memo[m].0 == t
}

/// The first `n` keys are the wall times `walls` gives the events' starts
/// and ends.
pub open spec fn keyed_by(evs: Seq<CalendarEvent>, keys: Seq<WallKey>, walls: Map<i64, Option<i64>>, n: int) -> bool {
    forall|k: int|
        #![trigger keys[k]]
        #![trigger evs[k]]
        0 <= k < n ==> walls.contains_key(evs[k].start) && walls.contains_key(evs[k].end) && keys[k].0 == walls[evs[k].start]
            && keys[k].1 == walls[evs[k].end]
}

proof fn lemma_keyed_push(
    evs: Seq<CalendarEvent>,
    keys: Seq<WallKey>,
    walls0: Map<i64, Option<i64>>,
    walls1: Map<i64, Option<i64>>,
    n: int,
    key: WallKey,
)
    requires
        keyed_by(evs, keys, walls0, n),
        keys.len() == n,
        0 <= n < evs.len(),
        forall|x: i64| #[trigger] walls0.contains_key(x) ==> walls1.contains_key(x) && walls1[x] == walls0[x],
        walls1.contains_key(evs[n].start),
        walls1.contains_key(evs[n].end),
        key == (walls1[evs[n].start], walls1[evs[n].end]),
    ensures
        keyed_by(evs, keys.push(key), walls1, n + 1),
{
    assert forall|k: int|
        #![trigger keys.push(key)[k]]
        #![trigger evs[k]]
        0 <= k < n + 1 implies walls1.contains_key(evs[k].start) && walls1.contains_key(evs[k].end)
        && keys.push(key)[k] == (walls1[evs[k].start], walls1[evs[k].end]) by {
        if k < n {
            assert(keys.push(key)[k] == keys[k]);
            assert(keys[k] == (walls0[evs[k].start], walls0[evs[k].end]));
            assert(walls0.contains_key(evs[k].start) && walls0.contains_key(evs[k].end));
        }
    }
}

/// The wall time of an instant, read once per instant: an instant met
/// before gets the wall time it got then.
fn wall_at(memo: &mut Vec<(i64, Option<i64>)>, t: i64, walls: Ghost<Map<i64, Option<i64>>>) -> (r: (
    Option<i64>,
    Ghost<Map<i64, Option<i64>>>,
))
    requires
        memo_of(old(memo)@, walls@),
    ensures
        memo_of(final(memo)@, r.1@),
        r.1@.contains_key(t),
        r.1@[t] == r.0,
        forall|x: i64| #[trigger] walls@.contains_key(x) ==> r.1@.contains_key(x) && r.1@[x] == walls@[x],
{
    let mut m: usize = 0;
    while m < memo.len()
        invariant
            m <= memo@.len(),
            memo_of(memo@, walls@),
            forall|k: int| 0 <= k < m ==> memo@[k].0 != t,
        decreases memo@.len() - m,
    {
        if memo[m].0 == t {
            let w = memo[m].1;
            return (w, walls);
        }
        m = m + 1;
    }
    assert(!walls@.contains_key(t));
    let w = local_wall(t);
    let ghost old_memo = memo@;
    memo.push((t, w));
    let ghost grown = walls@.insert(t, w);
    proof {
        assert forall|x: i64| #[trigger] grown.contains_key(x) implies exists|k: int|
            0 <= k < memo@.len() && memo@[k].0 == x by {
            if x == t {
                assert(memo@[old_memo.len() as int].0 == x);
            } else {
                let k = choose|k: int| 0 <= k < old_memo.len() && old_memo[k].0 == x;
                assert(memo@[k] == old_memo[k]);
            }
        }
        assert forall|k: int| 0 <= k < memo@.len() implies grown.contains_key(#[trigger] memo@[k].0) && grown[memo@[k].0]
            == memo@[k].1 by {
            if k < old_memo.len() {
                assert(memo@[k] == old_memo[k]);
            }
        }
    }
    (w, Ghost(grown))
}

/// Drops each event that shows the same title, wall times and color as an
/// earlier one. The wall times depend on the machine's zone, so the result
/// is stated for the wall times read, one per instant, whatever they are:
/// an event with the same title, start, end and color as an earlier one
/// is always dropped.
pub fn dedup_events(events: Vec<CalendarEvent>) -> (r: Vec<CalendarEvent>)
    ensures
        exists|walls: Map<i64, Option<i64>>| r@ == kept(events@, #[trigger] wall_keys(events@, walls)),
        forall|walls: Map<i64, Option<i64>>, i: int, j: int|
            #![trigger first_copy(events@, wall_keys(events@, walls), i), events@[j]]
            0 <= j < i < events@.len() && same_event(events@[j], events@[i]) ==> !first_copy(
                events@,
                wall_keys(events@, walls),
                i,
            ),
{
    let mut keys: Vec<WallKey> = Vec::new();
    let mut memo: Vec<(i64, Option<i64>)> = Vec::new();
    let mut walls: Ghost<Map<i64, Option<i64>>> = Ghost(Map::empty());
    let mut i: usize = 0;
    while i < events.len()
        invariant
            i <= events@.len(),
            keys@.len() == i,
            memo_of(memo@, walls@),
            keyed_by(events@, keys@, walls@, i as int),
        decreases events@.len() - i,
    {
        let ghost before = walls@;
        let (s, w1) = wall_at(&mut memo, events[i].start, walls);
        let ghost mid = w1@;
        let (e, w2) = wall_at(&mut memo, events[i].end, w1);
        walls = w2;
        proof {
            assert(mid.contains_key(events@[i as int].start));
            lemma_keyed_push(events@, keys@, before, walls@, i as int, (s, e));
        }
        keys.push((s, e));
        i = i + 1;
    }
    let ghost ks = keys@;
    assert(ks =~= wall_keys(events@, walls@));
    let r = dedup_by_keys(events, &keys);
    proof {
        let evs = events@;
        assert forall|w: Map<i64, Option<i64>>, i: int, j: int|
            #![trigger first_copy(evs, wall_keys(evs, w), i), evs[j]]
            0 <= j < i < evs.len() && same_event(evs[j], evs[i]) implies !first_copy(
                evs,
                wall_keys(evs, w),
                i,
            ) by {
            assert(copies(evs[j], wall_keys(evs, w)[j], evs[i], wall_keys(evs, w)[i]));
        }
    }
    r
}

/// Where a calendar comes from, and the color its events get.
pub enum CalendarSource {
    Url { url: String, color: String },
    Path { path: String, color: String },
}

impl CalendarSource {
    /// The key under which the events of the source are cached:
    /// `url:` or `path:`, then the location.
    pub fn cache_key(&self) -> (r: String)
        ensures
            r@ == match *self {
                CalendarSource::Url { url, .. } => "url:"@ + url@,
                CalendarSource::Path { path, .. } => "path:"@ + path@,
            },
    {
        match self {
            CalendarSource::Url { url, .. } => {
                let mut k = String::new();
                push_str(&mut k, "url:");
                push_str(&mut k, url.as_str());
                k
            },
            CalendarSource::Path { path, .. } => {
                let mut k = String::new();
                push_str(&mut k, "path:");
                push_str(&mut k, path.as_str());
                k
            },
        }
    }

    /// The color of the source's events.
    pub fn color(&self) -> (r: &str)
        ensures
            r@ == match *self {
                CalendarSource::Url { color, .. } => color@,
                CalendarSource::Path { color, .. } => color@,
            },
    {
        match self {
            CalendarSource::Url { color, .. } => color.as_str(),
            CalendarSource::Path { color, .. } => color.as_str(),
        }
    }
}

/// How long fetched events are reused, in seconds.
pub const CACHE_SECS: u64 = 600;

/// Cached events are reused while younger than ten minutes; `age_secs` is
/// the whole seconds since they were fetched.
pub fn cache_is_fresh(age_secs: u64) -> (r: bool)
    ensures
        r == (age_secs < CACHE_SECS),
{
    age_secs < CACHE_SECS
}

} // verus!
