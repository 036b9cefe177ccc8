use ashell::compat::{apply_event, ReadOnlyService, ServiceEvent};
use ashell::compositor::backend::{default_refusal, detect, CompositorEvent, CompositorService, StatePatch};
use ashell::compositor::types::{CompositorChoice, CompositorCommand, CompositorState};
use ashell::network::dbus::{ConnectivityState, DeviceState};
use ashell::network::{after_action, network_action, network_snapshot, AccessPoint, NetworkAction, NetworkCmd, Vpn};

fn state(layout: &str) -> CompositorState {
    CompositorState {
        workspaces: Vec::new(),
        monitors: Vec::new(),
        active_workspace_ids: vec![1],
        active_window: None,
        keyboard_layout: layout.to_string(),
        submap: None,
    }
}

#[test]
fn backends_are_detected_in_order() {
    assert!(detect(true, true, true) == Some(CompositorChoice::Hyprland));
    assert!(detect(false, true, true) == Some(CompositorChoice::Niri));
    assert!(detect(false, false, true) == Some(CompositorChoice::Generic));
    assert!(detect(false, false, false).is_none());
}

#[test]
fn unsupported_requests_are_refused_in_words() {
    assert_eq!(default_refusal(&CompositorCommand::NextLayout), "switch keyboard layout is not supported on this compositor");
    assert_eq!(default_refusal(&CompositorCommand::FocusMonitor(3)), "focus monitor is not supported on this compositor");
}

#[test]
fn patches_and_events_replace_the_state() {
    let mut s = state("us");
    StatePatch::Full(Box::new(state("de"))).apply_to(&mut s);
    assert_eq!(s.keyboard_layout, "de");
    let mut service = CompositorService { state: state("us"), backend: CompositorChoice::Niri };
    service.update(CompositorEvent::ActionPerformed);
    assert_eq!(service.state.keyboard_layout, "us");
    service.update(CompositorEvent::StateChanged(Box::new(state("fr"))));
    assert_eq!(service.state.keyboard_layout, "fr");
    assert!(service.backend == CompositorChoice::Niri);
}

fn ap(ssid: &str) -> AccessPoint {
    AccessPoint {
        ssid: ssid.to_string(),
        strength: 50,
        state: DeviceState::Activated,
        public: false,
        working: false,
        path: "/ap".to_string(),
        device_path: "/dev".to_string(),
    }
}

#[test]
fn refreshed_network_data_derives_airplane_mode() {
    let d = network_snapshot(true, false, vec![ap("home")], Vec::new(), Vec::new(), ConnectivityState::Full, true);
    assert!(d.airplane_mode);
    assert!(!d.scanning_nearby_wifi);
    assert_eq!(d.wireless_access_points.len(), 1);
    let d = network_snapshot(true, true, Vec::new(), Vec::new(), Vec::new(), ConnectivityState::Full, true);
    assert!(!d.airplane_mode);
}

#[test]
fn network_requests_become_actions() {
    assert!(matches!(network_action(NetworkCmd::ToggleWiFi(true)), NetworkAction::SetWifi(false)));
    assert!(matches!(network_action(NetworkCmd::ToggleAirplaneMode(false)), NetworkAction::SetAirplane(true)));
    let vpn = Vpn { name: "work".to_string(), path: "/profile/3".to_string() };
    match network_action(NetworkCmd::ToggleVpn(vpn, Some("/active/7".to_string()))) {
        NetworkAction::SetVpn(p, up) => assert_eq!((p.as_str(), up), ("/active/7", false)),
        _ => panic!("expected a VPN action"),
    }
    let vpn = Vpn { name: "work".to_string(), path: "/profile/3".to_string() };
    match network_action(NetworkCmd::ToggleVpn(vpn, None)) {
        NetworkAction::SetVpn(p, up) => assert_eq!((p.as_str(), up), ("/profile/3", true)),
        _ => panic!("expected a VPN action"),
    }
    let mut d = network_snapshot(true, true, Vec::new(), Vec::new(), Vec::new(), ConnectivityState::Full, false);
    after_action(&mut d, &NetworkAction::SetWifi(false), false);
    assert!(d.wifi_enabled);
    after_action(&mut d, &NetworkAction::SetWifi(false), true);
    assert!(!d.wifi_enabled);
    after_action(&mut d, &NetworkAction::Scan, false);
    assert!(d.scanning_nearby_wifi);
}

#[test]
fn runner_applies_events_to_the_kept_service() {
    let mut kept: Option<CompositorService> = None;
    assert!(!apply_event(&mut kept, ServiceEvent::Update(CompositorEvent::StateChanged(Box::new(state("de"))))));
    assert!(kept.is_none());
    let first = CompositorService { state: state("us"), backend: CompositorChoice::Niri };
    assert!(apply_event(&mut kept, ServiceEvent::Init(first)));
    assert_eq!(kept.as_ref().unwrap().state.keyboard_layout, "us");
    assert!(apply_event(&mut kept, ServiceEvent::Update(CompositorEvent::StateChanged(Box::new(state("fr"))))));
    assert_eq!(kept.as_ref().unwrap().state.keyboard_layout, "fr");
    assert!(!apply_event(&mut kept, ServiceEvent::Error("lost".to_string())));
    assert_eq!(kept.as_ref().unwrap().state.keyboard_layout, "fr");
}
