use ashell::user_services::{plan_user_units, unloaded_unit, user_unit_dirs, LoadedUnit, UnitPlan};
use ashell::audio::{
    audio_request, compute_volume_pct, keep_sink, keep_source, percent_volume, ports_from, sink_icon, source_icon,
    AudioCmd, AudioRequest, Device, DeviceType, Port, PortInfo, PortKind, ServerInfo,
};
use ashell::battery::{battery_device, battery_status};
use ashell::bluetooth::{
    adapter_state, bluetooth_action, connected_devices, effective_state, rfkill_soft_blocked, BluetoothAction,
    BluetoothCmd, BluetoothState, DeviceProbe,
};
use ashell::brightness::{brightness_change, parse_brightness};
use ashell::compat::bench_selected;
use ashell::icons::StaticIcon;
use ashell::idle_inhibitor::{global_kind, GlobalKind, IdleState, InhibitAction, LayerSurfaceEvent, RegistryEvent};
use ashell::keyboard_locks::{apply_led, is_event_node, KeyboardLocksData, LockKind, LockTracker};
use ashell::notifications::{
    icon_candidates, is_path_like, lookup_name, Notification, NotificationEvent, NotificationStore,
};
use ashell::privacy::{media_from_class, ApplicationNode, Media, PrivacyData, PrivacyEvent};
use ashell::settings::{battery_label, settings_button_classes, toggle_sub_menu, SubMenu};
use ashell::system_info::{
    interface_priority, network_summary, should_rescan_sensors, sleep_slices, speed_kbps, InterfaceStats,
    RefreshScope, SystemInfoIndicator,
};
use ashell::updates::{parse_updates, should_run_update, UpdatesData};
use ashell::upower::{BatteryStatus, PowerProfile};

fn device(name: &str, volume: u32, mute: bool, active: bool) -> Device {
    Device {
        name: name.to_string(),
        description: format!("{name} device"),
        volume,
        is_mute: mute,
        ports: vec![Port {
            name: "port".to_string(),
            description: "Port".to_string(),
            device_type: DeviceType::Speaker,
            active,
        }],
    }
}

#[test]
fn sink_icons_follow_volume_thresholds() {
    let sinks = vec![device("a", 43254, false, true)];
    assert_eq!(sink_icon(&sinks, "a"), StaticIcon::Speaker3);
    let sinks = vec![device("a", 43253, false, true)];
    assert_eq!(sink_icon(&sinks, "a"), StaticIcon::Speaker2);
    let sinks = vec![device("a", 21626, false, true)];
    assert_eq!(sink_icon(&sinks, "a"), StaticIcon::Speaker1);
    let sinks = vec![device("a", 65536, true, true)];
    assert_eq!(sink_icon(&sinks, "a"), StaticIcon::Speaker0);
    let sinks = vec![device("a", 65536, false, false)];
    assert_eq!(sink_icon(&sinks, "a"), StaticIcon::Speaker0);
    assert_eq!(sink_icon(&sinks, "b"), StaticIcon::Speaker0);
    assert_eq!(DeviceType::Hdmi.get_icon(), StaticIcon::MonitorSpeaker);
}

#[test]
fn source_icon_and_volume_percent() {
    let sources = vec![device("mic", 32768, false, true)];
    assert_eq!(source_icon(&sources, "mic"), StaticIcon::Mic1);
    assert_eq!(source_icon(&sources, "other"), StaticIcon::Mic0);
    assert_eq!(compute_volume_pct(&sources, "mic"), 50);
    assert_eq!(compute_volume_pct(&vec![device("x", 65535, false, true)], "x"), 99);
    assert_eq!(compute_volume_pct(&vec![device("x", 131072, false, true)], "x"), 200);
    assert_eq!(compute_volume_pct(&vec![device("x", 65536, true, true)], "x"), 0);
}

#[test]
fn audio_requests_act_on_the_default_device() {
    let sinks = vec![device("a", 100, false, false), device("b", 100, true, true)];
    let sources: Vec<Device> = vec![];
    let info = ServerInfo { default_sink: "b".to_string(), default_source: "m".to_string() };
    match audio_request(&AudioCmd::ToggleSinkMute, &sinks, &sources, &info) {
        Some(AudioRequest::SinkMute(n, m)) => assert_eq!((n.as_str(), m), ("b", false)),
        _ => panic!("expected a mute request"),
    }
    assert!(audio_request(&AudioCmd::ToggleSourceMute, &sinks, &sources, &info).is_none());
    match audio_request(&AudioCmd::SinkVolume(29), &sinks, &sources, &info) {
        Some(AudioRequest::SinkVolume(n, v)) => assert_eq!((n.as_str(), v), ("b", 19005)),
        _ => panic!("expected a volume request"),
    }
    assert_eq!(percent_volume(50), 32768);
    assert_eq!(percent_volume(150), 65536);
    assert_eq!(percent_volume(-3), 0);
    match audio_request(&AudioCmd::DefaultSource("s".to_string(), "p".to_string()), &sinks, &sources, &info) {
        Some(AudioRequest::DefaultSource(a, b)) => assert_eq!((a.as_str(), b.as_str()), ("s", "p")),
        _ => panic!("expected a default source request"),
    }
}

#[test]
fn audio_devices_are_filtered_and_ports_kept() {
    assert!(keep_sink(&vec![false, true]));
    assert!(!keep_sink(&vec![false]));
    assert!(keep_source(Some("alsa_input.usb")));
    assert!(!keep_source(Some("alsa_output.monitor")));
    assert!(!keep_source(None));
    let ports = vec![
        PortInfo { name: Some("hp".to_string()), description: "Headphones".to_string(), kind: PortKind::Headphones, available: true },
        PortInfo { name: Some("off".to_string()), description: "Gone".to_string(), kind: PortKind::Speaker, available: false },
        PortInfo { name: None, description: "Odd".to_string(), kind: PortKind::Other, available: true },
    ];
    let kept = ports_from(&ports, Some("hp"));
    assert_eq!(kept.len(), 2);
    assert_eq!(kept[0].name, "hp");
    assert!(kept[0].active);
    assert_eq!(kept[0].device_type, DeviceType::Headphones);
    assert_eq!(kept[1].name, "");
    assert!(!kept[1].active);
    assert_eq!(kept[1].device_type, DeviceType::Speaker);
}

#[test]
fn bluetooth_state_and_actions() {
    assert_eq!(adapter_state(false, true), BluetoothState::Unavailable);
    assert_eq!(adapter_state(true, true), BluetoothState::Active);
    assert_eq!(adapter_state(true, false), BluetoothState::Inactive);
    let listing = "0: hci0: Bluetooth\n\tSoft blocked: yes\n\tHard blocked: no\n";
    assert!(rfkill_soft_blocked(listing));
    assert!(!rfkill_soft_blocked("\tSoft blocked: no\n"));
    assert_eq!(effective_state(BluetoothState::Active, true), BluetoothState::Inactive);
    assert_eq!(effective_state(BluetoothState::Unavailable, true), BluetoothState::Unavailable);
    assert!(bluetooth_action(BluetoothCmd::Toggle(BluetoothState::Unavailable)).is_none());
    assert!(matches!(
        bluetooth_action(BluetoothCmd::Toggle(BluetoothState::Active)),
        Some(BluetoothAction::SetPowered(false))
    ));
    assert!(matches!(
        bluetooth_action(BluetoothCmd::Toggle(BluetoothState::Inactive)),
        Some(BluetoothAction::SetPowered(true))
    ));
    let probes = vec![
        DeviceProbe { name: "buds".to_string(), path: "/d/1".to_string(), connected: true, paired: true, battery: Some(80) },
        DeviceProbe { name: "mouse".to_string(), path: "/d/2".to_string(), connected: false, paired: true, battery: None },
    ];
    let devices = connected_devices(probes);
    assert_eq!(devices.len(), 1);
    assert_eq!(devices[0].name, "buds");
    assert_eq!(devices[0].battery, Some(80));
}

fn note(summary: &str) -> Notification {
    Notification {
        id: 0,
        app_name: "app".to_string(),
        app_icon: String::new(),
        summary: summary.to_string(),
        body: String::new(),
        actions: vec![],
        hints: vec![],
        expire_timeout: -1,
    }
}

#[test]
fn notifications_get_ids_and_close() {
    let mut store = NotificationStore::new();
    let (first, ev) = store.notify(note("one"), 0);
    assert_eq!(first, 1);
    assert!(matches!(ev, NotificationEvent::Received(n) if n.id == 1 && n.summary == "one"));
    let (second, _) = store.notify(note("two"), 0);
    assert_eq!(second, 2);
    let (replaced, _) = store.notify(note("one again"), 1);
    assert_eq!(replaced, 1);
    assert_eq!(store.get(1).map(|n| n.summary.as_str()), Some("one again"));
    assert!(matches!(store.close(2), Some(NotificationEvent::Closed(2))));
    assert!(store.close(2).is_none());
    assert!(store.get(2).is_none());
    assert_eq!(store.next_id, 2);
}

#[test]
fn notification_icon_candidates() {
    let hints = vec![
        ("icon_name".to_string(), "  mail  ".to_string()),
        ("image-path".to_string(), "/tmp/a.png".to_string()),
        ("urgency".to_string(), "x".to_string()),
    ];
    assert_eq!(
        icon_candidates("Thunderbird", " ", &hints),
        vec!["/tmp/a.png".to_string(), "mail".to_string(), "Thunderbird".to_string()]
    );
    assert!(is_path_like("/usr/share/icons/a.svg"));
    assert!(is_path_like("./icon.png"));
    assert!(!is_path_like("firefox"));
    assert_eq!(lookup_name("org.gnome.Nautilus.desktop"), "org.gnome.Nautilus");
    assert_eq!(lookup_name("firefox"), "firefox");
}

#[test]
fn idle_inhibitor_toggles() {
    let mut st = IdleState::new();
    assert_eq!(st.toggle(), InhibitAction::Nothing);
    let ev = RegistryEvent::Global { name: 5, interface: "wl_compositor".to_string() };
    assert_eq!(st.on_registry(&ev), Some(GlobalKind::Compositor));
    assert_eq!(st.on_registry(&ev), None);
    let ev = RegistryEvent::Global { name: 6, interface: "zwp_idle_inhibit_manager_v1".to_string() };
    assert_eq!(st.on_registry(&ev), Some(GlobalKind::IdleManager));
    assert_eq!(st.toggle(), InhibitAction::Create);
    assert!(st.inhibited);
    assert_eq!(st.toggle(), InhibitAction::Destroy);
    assert!(!st.inhibited);
    assert_eq!(st.set_inhibit_idle(false), InhibitAction::Nothing);
    st.on_registry(&RegistryEvent::GlobalRemove { name: 5 });
    assert!(!st.has_surface);
    assert_eq!(st.set_inhibit_idle(true), InhibitAction::Nothing);
    st.on_layer_surface(LayerSurfaceEvent::Configure);
    assert!(st.surface_ready);
    assert_eq!(global_kind("wl_shm"), Some(GlobalKind::Shm));
    assert_eq!(global_kind("wl_seat"), None);
}

#[test]
fn system_info_decisions() {
    let indicators = vec![SystemInfoIndicator::Cpu, SystemInfoIndicator::DownloadSpeed, SystemInfoIndicator::Disk("/".to_string())];
    let scope = RefreshScope::from_indicators(&indicators);
    assert_eq!(scope, RefreshScope { cpu: true, memory: false, temperature: false, disks: true, network: true });
    assert_eq!(RefreshScope::all(), RefreshScope { cpu: true, memory: true, temperature: true, disks: true, network: true });
    assert_eq!(interface_priority("enp3s0"), Some(0));
    assert_eq!(interface_priority("wlan0"), Some(2));
    assert_eq!(interface_priority("lo"), None);
    assert_eq!(speed_kbps(50_000, Some(5)), 10);
    assert_eq!(speed_kbps(50_000, Some(0)), 0);
    assert_eq!(speed_kbps(50_000, None), 0);
    let ifs = vec![
        InterfaceStats { name: "lo".to_string(), received: 5, transmitted: 5, addrs: vec![(false, 1)] },
        InterfaceStats { name: "wlan0".to_string(), received: 100, transmitted: 10, addrs: vec![(true, 9), (false, 7), (false, 3)] },
        InterfaceStats { name: "eth0".to_string(), received: 1, transmitted: 2, addrs: vec![] },
    ];
    assert_eq!(network_summary(&ifs), (Some((1, 2)), 101, 12));
    assert!(should_rescan_sensors(true, 24, false));
    assert!(!should_rescan_sensors(true, 0, false));
    assert!(!should_rescan_sensors(true, 24, true));
    assert_eq!(sleep_slices(0), 2);
    assert_eq!(sleep_slices(5), 10);
}

#[test]
fn updates_are_read_from_checker_output() {
    let out = "firefox 120.0-1 -> 121.0-1\n\nbad line\nlinux 6.6.1 -> 6.6.2 extra\n";
    let updates = parse_updates(out);
    assert_eq!(updates.len(), 2);
    assert_eq!(updates[0].package, "firefox");
    assert_eq!(updates[0].from, "120.0-1");
    assert_eq!(updates[0].to, "121.0-1");
    assert_eq!(updates[1].to, "6.6.2");
    assert!(UpdatesData::default().is_checking);
    assert!(should_run_update("yay -Syu"));
    assert!(!should_run_update(""));
}

#[test]
fn settings_menu_decisions() {
    assert_eq!(toggle_sub_menu(None, SubMenu::Audio), Some(SubMenu::Audio));
    assert_eq!(toggle_sub_menu(Some(SubMenu::Audio), SubMenu::Audio), None);
    assert_eq!(toggle_sub_menu(Some(SubMenu::Power), SubMenu::Audio), Some(SubMenu::Audio));
    assert_eq!(settings_button_classes(true), vec!["bg", "pl-2", "pr-4", "rounded-r-m", "interactive", "active"]);
    assert_eq!(settings_button_classes(false).len(), 5);
    assert_eq!(battery_label(87), "87%");
    assert!(bench_selected("Audio,Network", "ashell::services::network::NetworkService"));
    assert!(!bench_selected("Audio,Bluetooth", "ashell::services::network::NetworkService"));
}

#[test]
fn battery_device_and_status() {
    assert_eq!(battery_device(&vec![(1, true), (2, false), (2, true)]), Some(2));
    assert_eq!(battery_device(&vec![(1, true)]), None);
    assert_eq!(battery_status(1, 60, 0), BatteryStatus::Charging(60));
    assert_eq!(battery_status(2, 0, 90), BatteryStatus::Discharging(90));
    assert_eq!(battery_status(4, 1, 1), BatteryStatus::Full);
    assert_eq!(battery_status(6, 1, 1), BatteryStatus::Discharging(0));
}

#[test]
fn privacy_counts_streams_and_handles() {
    let mut data = PrivacyData::new(0);
    assert!(data.no_access());
    data.update(PrivacyEvent::AddNode(ApplicationNode { id: 3, media: Media::Audio }));
    assert!(data.microphone_access());
    assert!(!data.screenshare_access());
    data.update(PrivacyEvent::WebcamOpen);
    assert!(data.webcam_access());
    data.update(PrivacyEvent::WebcamClose);
    data.update(PrivacyEvent::WebcamClose);
    assert!(!data.webcam_access());
    data.update(PrivacyEvent::RemoveNode(3));
    assert!(data.no_access());
    assert_eq!(media_from_class("Stream/Input/Video"), Some(Media::Video));
    assert_eq!(media_from_class("Stream/Output/Audio"), None);
}

#[test]
fn keyboard_locks_aggregate_over_devices() {
    let off = KeyboardLocksData { caps_lock: false, num_lock: false, scroll_lock: false };
    let caps = KeyboardLocksData { caps_lock: true, ..off };
    assert_eq!(apply_led(off, Some(LockKind::Caps), 1), Some(caps));
    assert_eq!(apply_led(caps, Some(LockKind::Caps), 1), None);
    assert_eq!(apply_led(off, None, 1), None);
    let mut tracker = LockTracker::new();
    tracker.add_device("/dev/input/event3", off);
    let ev = tracker.handle("/dev/input/event3", Some(caps));
    assert_eq!(ev.map(|e| e.0), Some(caps));
    tracker.add_device("/dev/input/event4", off);
    assert!(tracker.handle("/dev/input/event4", Some(off)).is_none());
    let ev = tracker.handle("/dev/input/event3", None);
    assert_eq!(ev.map(|e| e.0), Some(off));
    assert!(is_event_node("event12"));
    assert!(!is_event_node("mouse0"));
}

#[test]
fn brightness_values() {
    assert_eq!(parse_brightness(" 4882\n"), Some(4882));
    assert_eq!(parse_brightness("abc"), None);
    assert_eq!(brightness_change(10, 12).map(|e| e.0), Some(12));
    assert!(brightness_change(10, 10).is_none());
}

#[test]
fn user_units_merge_files_with_loaded_units() {
    let dirs = user_unit_dirs(&Some("/home/u".to_string()));
    assert_eq!(dirs, vec!["/home/u/.config/systemd/user".to_string(), "/home/u/.local/share/systemd/user".to_string()]);
    assert!(user_unit_dirs(&None).is_empty());
    let files = vec![
        ("/home/u/.config/systemd/user/a.service".to_string(), "disabled".to_string()),
        ("/usr/lib/systemd/user/b.service".to_string(), "enabled".to_string()),
        ("/home/u/.config/systemd/user/c.timer".to_string(), "enabled".to_string()),
        ("/home/u/.local/share/systemd/user/d.service".to_string(), "static".to_string()),
        ("/home/u/.local/share/systemd/user/a.service".to_string(), "enabled".to_string()),
    ];
    let loaded = vec![LoadedUnit {
        name: "a.service".to_string(),
        description: "A".to_string(),
        load_state: "loaded".to_string(),
        active_state: "active".to_string(),
        sub_state: "running".to_string(),
        object_path: "/unit/a".to_string(),
    }];
    let plan = plan_user_units(&dirs, &files, &loaded);
    assert_eq!(plan.len(), 2);
    match &plan[0] {
        UnitPlan::Ready(info) => {
            assert_eq!(info.name, "a.service");
            assert_eq!(info.unit_file_state, "enabled");
            assert_eq!(info.active_state, "active");
            assert_eq!(info.object_path, "/unit/a");
        }
        _ => panic!("a is loaded"),
    }
    match &plan[1] {
        UnitPlan::Load { name, unit_file_state } => {
            assert_eq!((name.as_str(), unit_file_state.as_str()), ("d.service", "static"));
        }
        _ => panic!("d is not loaded"),
    }
    let u = unloaded_unit("d.service".to_string(), "static".to_string(), "/unit/d".to_string());
    assert_eq!((u.description.as_str(), u.load_state.as_str(), u.active_state.as_str(), u.sub_state.as_str()), ("d.service", "not-found", "inactive", "dead"));
}

#[test]
fn power_profiles_toggle_in_a_cycle() {
    let mut p = PowerProfile::from_name("balanced");
    let mut seen = Vec::new();
    for _ in 0..3 {
        let next = p.next_name().expect("a known profile has a next one");
        seen.push(next.to_string());
        p = PowerProfile::from_name(next);
    }
    assert_eq!(seen, vec!["performance", "power-saver", "balanced"]);
    assert!(PowerProfile::from_name("turbo").next_name().is_none());
}
