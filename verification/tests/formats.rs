use ashell::network::dbus::DeviceState;
use ashell::network::iwd::{access_point_of, is_open, iwd_events, iwd_strength, wireless_enabled, IwdChange, IwdEvent, IwdStationState};
use ashell::tempo_calendar::{
    get_ics_value, get_ics_value_and_tzid, ics_events, is_ics_date_only, parse_rrule, parse_weekday, split_lines,
    split_on, split_on_str, trim_start, unfold_ics_lines, Frequency, IcsWeekday,
};
use ashell::text::{parse_u32, parse_usize};
use ashell::upower::dbus::UpDeviceKind;

fn calendar() -> String {
    [
        "BEGIN:VCALENDAR",
        "VERSION:2.0",
        "BEGIN:VEVENT",
        "SUMMARY:Team meeting about the long",
        " er agenda",
        "DTSTART;TZID=Europe/Rome:20240105T100000",
        "DTEND;TZID=Europe/Rome:20240105T110000",
        "RRULE:FREQ=WEEKLY;COUNT=3;BYDAY=FR,XX",
        "END:VEVENT",
        "BEGIN:VEVENT",
        "SUMMARY:Holiday",
        "DTSTART;VALUE=DATE:20240106",
        "DTEND;VALUE=DATE:20240107",
        "END:VEVENT",
        "BEGIN:VEVENT",
        "DTSTART:20240108T090000Z",
        "END:VEVENT",
        "END:VCALENDAR",
    ]
    .iter()
    .map(|l| format!("{l}\r\n"))
    .collect()
}

#[test]
fn lines_split_like_str_lines() {
    assert_eq!(split_lines("a\r\nb\n\nc"), vec!["a", "b", "", "c"]);
    assert_eq!(split_lines("a\n"), vec!["a"]);
    assert_eq!(split_lines("a\r"), vec!["a\r"]);
    assert!(split_lines("").is_empty());
    assert_eq!(split_on("a;b;;c", ';'), vec!["a", "b", "", "c"]);
    assert_eq!(split_on("", ';'), vec![""]);
    assert_eq!(split_on_str("xxAByyABzz", "AB"), vec!["xx", "yy", "zz"]);
    assert_eq!(split_on_str("AAA", "AA"), vec!["", "A"]);
    assert_eq!(trim_start("  \tx y "), "x y ");
}

#[test]
fn folded_lines_are_joined() {
    assert_eq!(unfold_ics_lines("A:1\r\n  B\r\n\tC\nD:2"), "A:1BC\nD:2");
    assert_eq!(unfold_ics_lines(""), "");
}

#[test]
fn property_values_and_time_zones() {
    let section = "SUMMARY:  Lunch \nDTSTART;X=1;TZID=Europe/Rome:20240105T120000\nNOCOLON\n";
    assert_eq!(get_ics_value(section, "SUMMARY"), Some("Lunch".to_string()));
    assert_eq!(get_ics_value(section, "NOCOLON"), None);
    assert_eq!(get_ics_value(section, "DTEND"), None);
    assert_eq!(
        get_ics_value_and_tzid(section, "DTSTART"),
        Some(("20240105T120000".to_string(), Some("Europe/Rome".to_string())))
    );
    assert_eq!(get_ics_value_and_tzid("DTSTART:20240105\n", "DTSTART"), Some(("20240105".to_string(), None)));
    assert!(is_ics_date_only("20240105"));
    assert!(!is_ics_date_only("20240105T1"));
    assert!(!is_ics_date_only("2024010a"));
}

#[test]
fn recurrence_rules_are_read() {
    let rule = parse_rrule("FREQ=DAILY;INTERVAL=2;COUNT=5;UNTIL=20241231T000000Z;BYDAY=MO,XX,FR");
    assert_eq!(rule.freq, Frequency::Daily);
    assert_eq!(rule.interval, 2);
    assert_eq!(rule.count, Some(5));
    assert_eq!(rule.until, Some("20241231T000000Z".to_string()));
    assert_eq!(rule.byday, vec![IcsWeekday::Mon, IcsWeekday::Fri]);
    let rule = parse_rrule("FREQ=SOMETIMES;INTERVAL=x");
    assert_eq!(rule.freq, Frequency::Weekly);
    assert_eq!(rule.interval, 1);
    assert_eq!(rule.count, None);
    assert!(rule.byday.is_empty());
    assert_eq!(parse_weekday("SU"), Some(IcsWeekday::Sun));
    assert_eq!(parse_weekday("su"), None);
}

#[test]
fn events_of_a_calendar() {
    let events = ics_events(&calendar());
    assert_eq!(events.len(), 2);
    assert_eq!(events[0].title, "Team meeting about the longer agenda");
    assert_eq!(events[0].start, ("20240105T100000".to_string(), Some("Europe/Rome".to_string())));
    assert_eq!(events[0].end, Some(("20240105T110000".to_string(), Some("Europe/Rome".to_string()))));
    assert_eq!(events[0].rrule, Some("FREQ=WEEKLY;COUNT=3;BYDAY=FR,XX".to_string()));
    assert_eq!(events[1].title, "Holiday");
    assert_eq!(events[1].start, ("20240106".to_string(), None));
    assert!(events[1].rrule.is_none());
}

#[test]
fn numbers_parse_like_from_str() {
    assert_eq!(parse_u32("+42"), Some(42));
    assert_eq!(parse_u32("4294967296"), None);
    assert_eq!(parse_usize("17"), Some(17));
    assert_eq!(parse_usize(""), None);
    assert_eq!(parse_usize("1 "), None);
}

#[test]
fn iwd_values() {
    assert_eq!(IwdStationState::from("connected".to_string()), IwdStationState::Connected);
    assert_eq!(IwdStationState::from("weird".to_string()), IwdStationState::Disconnected);
    assert_eq!(iwd_strength(-6000), 40);
    assert_eq!(iwd_strength(-150), 99);
    assert_eq!(iwd_strength(0), 100);
    assert!(is_open("open"));
    assert!(!is_open("psk"));
    let ap = access_point_of("home".to_string(), "psk", -4500, "/n/1".to_string(), "/d/1".to_string());
    assert_eq!(ap.strength, 55);
    assert_eq!(ap.state, DeviceState::Unknown);
    assert!(!ap.public);
    assert!(!ap.working);
}

#[test]
fn device_kind_codes_round_trip() {
    for code in 0u32..30 {
        if let Some(kind) = UpDeviceKind::from_u32(code) {
            assert_eq!(kind.to_u32(), code);
        }
    }
    assert!(UpDeviceKind::from_u32(1000).is_none());
}

#[test]
fn device_kind_converts_to_its_code() {
    assert_eq!(u32::from(UpDeviceKind::Battery), 2);
    for code in 0u32..30 {
        if let Some(kind) = UpDeviceKind::from_u32(code) {
            assert_eq!(u32::from(kind), code);
        }
    }
}

#[test]
fn iwd_changes_become_events() {
    let ev = iwd_events(IwdChange::Powered { wifi_enabled: true });
    assert!(ev.len() == 1 && matches!(ev[0], IwdEvent::WiFiEnabled(true)));
    let ev = iwd_events(IwdChange::StationState { states: vec![IwdStationState::Connected], active: vec![] });
    assert_eq!(ev.len(), 2);
    assert!(matches!(&ev[0], IwdEvent::Connectivity(s) if s.len() == 1 && s[0] == IwdStationState::Connected));
    assert!(matches!(&ev[1], IwdEvent::ActiveConnections(a) if a.is_empty()));
    let ap = || access_point_of("home".to_string(), "psk", -5000, "/n".to_string(), "/d".to_string());
    let ev = iwd_events(IwdChange::Scanning { scanning: true, access_points: vec![ap()], known: vec![], wifi_enabled: true });
    assert_eq!(ev.len(), 3);
    assert!(matches!(&ev[0], IwdEvent::KnownConnections(k) if k.is_empty()));
    assert!(matches!(ev[1], IwdEvent::ScanningNearbyWifi));
    assert!(matches!(&ev[2], IwdEvent::WirelessAccessPoint(a) if a.len() == 1 && a[0].ssid == "home"));
    let ev = iwd_events(IwdChange::Scanning { scanning: false, access_points: vec![ap()], known: vec![], wifi_enabled: false });
    assert_eq!(ev.len(), 2);
    assert!(matches!(&ev[1], IwdEvent::WirelessDevice { wifi_present: false, wireless_access_points: a } if a.len() == 1));
    let ev = iwd_events(IwdChange::SignalLevel(2));
    assert!(ev.len() == 1 && matches!(&ev[0], IwdEvent::Strength(n, 2) if n.is_empty()));
    let ev = iwd_events(IwdChange::SignalLevel(-1));
    assert!(matches!(&ev[0], IwdEvent::Strength(_, 255)));
}

#[test]
fn wifi_is_enabled_when_a_device_is_powered() {
    assert!(!wireless_enabled(&vec![]));
    assert!(!wireless_enabled(&vec![false, false]));
    assert!(wireless_enabled(&vec![false, true]));
}
