use ashell::ics_time::{
    cache_is_fresh, dedup_by_keys, dedup_events, parse_ics_events, event_times, expand_step, occurrences_or_single, read_date_end, read_ics_time,
    recurrence_of, settle, CalendarEvent, CalendarSource, EventTimes, Expansion, Reading, Recurrence, Step,
};
use ashell::tempo_calendar::{parse_rrule, IcsWeekday, RawEvent};

fn zone(z: &str) -> Option<String> {
    Some(z.to_string())
}

#[test]
fn ics_times_read_as_instants_or_wall_times() {
    assert_eq!(read_ics_time("20240102T030405Z", &None), Reading::At(1704164645));
    assert_eq!(read_ics_time(" 20240102T030405Z ", &zone("Europe/Berlin")), Reading::At(1704164645));
    assert_eq!(read_ics_time("20240102T030405", &zone("Europe/Berlin")), Reading::At(1704164645 - 3600));
    assert_eq!(read_ics_time("20240701T120000", &zone("Europe/Berlin")), Reading::At(1719835200 - 7200));
    assert_eq!(read_ics_time("20240102T030405", &zone("Nowhere/Zone")), Reading::Wall(1704164645));
    assert_eq!(read_ics_time("20240102T030405", &None), Reading::Wall(1704164645));
    assert_eq!(read_ics_time("20240102", &None), Reading::Wall(1704153600));
    assert_eq!(read_ics_time("soon", &None), Reading::Invalid);
}

#[test]
fn a_wall_time_in_a_gap_of_its_zone_is_taken_as_utc() {
    // 02:30 does not exist in Berlin on the night clocks go forward.
    assert_eq!(read_ics_time("20240331T023000", &zone("Europe/Berlin")), Reading::At(1711852200));
}

#[test]
fn all_day_ends_are_the_next_midnight() {
    assert_eq!(read_date_end("20240102"), Reading::Wall(1704240000));
    assert_eq!(read_date_end(" 20240102\t"), Reading::Wall(1704240000));
    assert_eq!(read_date_end("20241302"), Reading::Invalid);
    assert_eq!(settle(5, Some(7)), 7);
    assert_eq!(settle(5, None), 5);
}

fn raw(start: &str, end: Option<&str>) -> RawEvent {
    RawEvent {
        title: "Standup".to_string(),
        start: (start.to_string(), None),
        end: end.map(|e| (e.to_string(), None)),
        rrule: None,
    }
}

#[test]
fn event_ends_default_to_an_hour_or_a_day() {
    let s = 1704164645;
    assert_eq!(event_times(&raw("20240102T030405Z", None)), EventTimes::Times(s, s + 3600));
    assert_eq!(event_times(&raw("20240102T030405Z", Some("20240102T050405Z"))), EventTimes::Times(s, s + 7200));
    assert_eq!(event_times(&raw("20240102T030405Z", Some("later"))), EventTimes::Times(s, s + 3600));
    assert_eq!(event_times(&raw("20240102T030405Z", Some("20241399"))), EventTimes::Times(s, s + 86400));
    assert_eq!(event_times(&raw("not a time", None)), EventTimes::Skipped);
    match event_times(&raw("20240102T030405Z", Some("20240103"))) {
        EventTimes::Times(a, _) => assert_eq!(a, s),
        other => panic!("expected times, got {other:?}"),
    }
}

fn recurrence(step: i64, count: usize, until: Option<i64>, byday: Vec<IcsWeekday>) -> Recurrence {
    Recurrence { step, duration: 600, count, until, byday }
}

fn run(rec: &Recurrence, start: i64, days: &[IcsWeekday]) -> (Vec<(i64, i64)>, Step) {
    let mut ex = Expansion::new(start);
    let mut last = Step::Next;
    for d in days {
        last = expand_step(rec, &mut ex, *d);
        if last != Step::Next {
            break;
        }
    }
    (occurrences_or_single(ex, start, start + 600), last)
}

#[test]
fn counted_daily_recurrence_stops_after_count() {
    let rec = recurrence(86400, 3, None, vec![]);
    let (occ, last) = run(&rec, 1000, &[IcsWeekday::Mon; 10]);
    assert_eq!(occ, vec![(1000, 1600), (87400, 88000), (173800, 174400)]);
    assert_eq!(last, Step::Done);
}

#[test]
fn listed_days_filter_candidates_and_until_ends() {
    let rec = recurrence(86400, usize::MAX, Some(1000 + 3 * 86400), vec![IcsWeekday::Tue, IcsWeekday::Thu]);
    let days = [IcsWeekday::Mon, IcsWeekday::Tue, IcsWeekday::Wed, IcsWeekday::Thu, IcsWeekday::Fri];
    let (occ, last) = run(&rec, 1000, &days);
    assert_eq!(occ, vec![(1000 + 86400, 1600 + 86400), (1000 + 3 * 86400, 1600 + 3 * 86400)]);
    assert_eq!(last, Step::Done);
}

#[test]
fn no_match_keeps_the_event_itself() {
    let rec = recurrence(86400, usize::MAX, Some(1000), vec![IcsWeekday::Sun]);
    let (occ, _) = run(&rec, 1000, &[IcsWeekday::Mon, IcsWeekday::Mon]);
    assert_eq!(occ, vec![(1000, 1600)]);
    let none = recurrence(86400, 0, None, vec![]);
    assert_eq!(run(&none, 1000, &[IcsWeekday::Mon]), (vec![(1000, 1600)], Step::Done));
}

#[test]
fn expansion_stops_after_five_hundred_and_one() {
    let rec = recurrence(3600, usize::MAX, None, vec![]);
    let (occ, last) = run(&rec, 0, &[IcsWeekday::Wed; 600]);
    assert_eq!(occ.len(), 501);
    assert_eq!(last, Step::Done);
}

#[test]
fn steps_chrono_cannot_take_are_out_of_range() {
    let rule = parse_rrule("FREQ=YEARLY;INTERVAL=4000000000");
    let rec = recurrence_of(&rule, 1000, 1600);
    assert_eq!(rec.step, 365 * 4000000000 * 86400);
    let mut ex = Expansion::new(1000);
    assert_eq!(expand_step(&rec, &mut ex, IcsWeekday::Mon), Step::OutOfRange);
}

#[test]
fn rules_become_recurrences() {
    let rule = parse_rrule("FREQ=MONTHLY;INTERVAL=0;COUNT=4;UNTIL=20240102T030405Z;BYDAY=MO,XX,FR");
    let rec = recurrence_of(&rule, 1000, 4600);
    assert_eq!(rec.step, 30 * 86400);
    assert_eq!(rec.duration, 3600);
    assert_eq!(rec.count, 4);
    assert_eq!(rec.until, Some(1704164645));
    assert_eq!(rec.byday, vec![IcsWeekday::Mon, IcsWeekday::Fri]);
    let weekly = recurrence_of(&parse_rrule("INTERVAL=2;UNTIL=never"), 0, 0);
    assert_eq!(weekly.step, 14 * 86400);
    assert_eq!(weekly.count, usize::MAX);
    assert_eq!(weekly.until, None);
}

fn event(title: &str, start: i64, color: Option<&str>) -> CalendarEvent {
    CalendarEvent { title: title.to_string(), start, end: start + 60, color: color.map(|c| c.to_string()) }
}

#[test]
fn copies_are_dropped_by_their_keys() {
    let events = vec![
        event("a", 1, Some("red")),
        event("a", 1, Some("red")),
        event("a", 1, Some("blue")),
        event("b", 1, Some("red")),
        event("a", 2, Some("red")),
    ];
    let keys = vec![(Some(1), Some(61)), (Some(1), Some(61)), (Some(1), Some(61)), (Some(1), Some(61)), (Some(1), Some(61))];
    let kept = dedup_by_keys(events, &keys);
    let seen: Vec<(String, i64, Option<String>)> = kept.into_iter().map(|e| (e.title, e.start, e.color)).collect();
    assert_eq!(
        seen,
        vec![
            ("a".to_string(), 1, Some("red".to_string())),
            ("a".to_string(), 1, Some("blue".to_string())),
            ("b".to_string(), 1, Some("red".to_string())),
        ]
    );
}

#[test]
fn sources_are_cached_by_location_for_ten_minutes() {
    let url = CalendarSource::Url { url: "https://x/cal.ics".to_string(), color: "#fff".to_string() };
    let path = CalendarSource::Path { path: "~/cal.ics".to_string(), color: "red".to_string() };
    assert_eq!(url.cache_key(), "url:https://x/cal.ics");
    assert_eq!(path.cache_key(), "path:~/cal.ics");
    assert_eq!(url.color(), "#fff");
    assert!(cache_is_fresh(599));
    assert!(!cache_is_fresh(600));
}

fn ics(body: &[&str]) -> String {
    let mut lines = vec!["BEGIN:VCALENDAR"];
    lines.extend_from_slice(body);
    lines.push("END:VCALENDAR");
    lines.join("\r\n")
}

#[test]
fn ics_text_becomes_expanded_deduplicated_events() {
    let raw = ics(&[
        "BEGIN:VEVENT",
        "SUMMARY:Standup",
        "DTSTART:20240102T090000Z",
        "DTEND:20240102T091500Z",
        "RRULE:FREQ=DAILY;COUNT=3",
        "END:VEVENT",
        "BEGIN:VEVENT",
        "SUMMARY:Lunch",
        "DTSTART:20240102T120000Z",
        "END:VEVENT",
        "BEGIN:VEVENT",
        "SUMMARY:Lunch",
        "DTSTART:20240102T120000Z",
        "END:VEVENT",
        "BEGIN:VEVENT",
        "SUMMARY:No start",
        "END:VEVENT",
    ]);
    let events = parse_ics_events(&raw, "#ff0000").expect("in range");
    let s = 1704186000; // 2024-01-02T09:00:00Z
    let got: Vec<(String, i64, i64)> = events.iter().map(|e| (e.title.clone(), e.start, e.end)).collect();
    assert_eq!(
        got,
        vec![
            ("Standup".to_string(), s, s + 900),
            ("Standup".to_string(), s + 86400, s + 86400 + 900),
            ("Standup".to_string(), s + 2 * 86400, s + 2 * 86400 + 900),
            ("Lunch".to_string(), s + 10800, s + 14400),
        ]
    );
    assert!(events.iter().all(|e| e.color.as_deref() == Some("#ff0000")));
    assert_eq!(parse_ics_events("", "#000000").map(|v| v.len()), Some(0));
}

#[test]
fn exact_copies_are_dropped() {
    let ev = |t: &str, s: i64| CalendarEvent { title: t.to_string(), start: s, end: s + 60, color: None };
    let kept = dedup_events(vec![ev("a", 0), ev("b", 0), ev("a", 0), ev("a", 60)]);
    let got: Vec<(String, i64)> = kept.iter().map(|e| (e.title.clone(), e.start)).collect();
    assert_eq!(got, vec![("a".to_string(), 0), ("b".to_string(), 0), ("a".to_string(), 60)]);
}
