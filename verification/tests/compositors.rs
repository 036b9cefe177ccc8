use ashell::compositor::generic::GenericState;
use ashell::compositor::generic_events::{generic_action, handle_for, GlobalBind};
use ashell::compositor::hyprland::{hyprlang_dispatch, HyprDispatch};
use ashell::compositor::mangowc::{
    build_state as mango_build_state, decode_workspace_id, encode_workspace_id, focus_dispatches, mango_action,
    monitors_fit, MangoAction, MangoClient, MangoMonitor, MangoTag,
};
use ashell::compositor::sway::{is_event_frame, parse_frame_header, FrameError};
use ashell::compositor::types::{ActiveWindow, ActiveWindowGeneric, ActiveWindowHyprland, ActiveWindowNiri, CompositorCommand};
use ashell::compositor::wayfire::{
    build_state as wayfire_build_state, encode_workspace_id as wf_encode, find_cell, keyboard_layout_of,
    next_layout_index, outputs_fit, scroll_target, view_workspace, wayfire_action, WayfireAction, WfCell, WfGeometry, WfKeyboardState,
    WfOutput, WfView, WfWorkspaceInfo,
};

fn geometry(x: i64, y: i64, width: i64, height: i64) -> WfGeometry {
    WfGeometry { x, y, width, height }
}

fn wf_output() -> WfOutput {
    WfOutput {
        id: 7,
        name: "DP-1".to_string(),
        geometry: geometry(0, 0, 1920, 1080),
        workspace: WfWorkspaceInfo { x: 1, y: 0, grid_width: Some(3), grid_height: Some(2) },
    }
}

fn wf_view(id: i64, app: &str, x: i64) -> WfView {
    WfView {
        id,
        title: Some(format!("window {id}")),
        app_id: Some(app.to_string()),
        output_id: Some(7),
        geometry: geometry(x, 100, 200, 100),
        role: "toplevel".to_string(),
        mapped: true,
    }
}

#[test]
fn wayfire_grid_cells_become_workspaces() {
    let outputs = vec![wf_output()];
    let mut hidden = wf_view(3, "ignored", 100);
    hidden.mapped = false;
    let views = vec![wf_view(1, "firefox", 100), wf_view(2, "kitty", -1000), hidden];
    let focused = wf_view(1, "firefox", 100);
    let kb = WfKeyboardState { layout: Some("us".to_string()), layout_index: Some(0), possible_layouts: vec![] };
    let (state, cells) = wayfire_build_state(&outputs, &views, Some(7), Some(&focused), Some(&kb), true);

    assert_eq!(state.workspaces.len(), 6);
    let ids: Vec<i32> = state.workspaces.iter().map(|w| w.id).collect();
    assert_eq!(ids, vec![1, 2, 3, 4, 5, 6]);
    let names: Vec<&str> = state.workspaces.iter().map(|w| w.name.as_str()).collect();
    assert_eq!(names, vec!["1", "2", "3", "4", "5", "6"]);
    let windows: Vec<u16> = state.workspaces.iter().map(|w| w.windows).collect();
    assert_eq!(windows, vec![1, 1, 0, 0, 0, 0]);
    assert_eq!(state.workspaces[0].window_classes, vec!["kitty".to_string()]);
    assert_eq!(state.workspaces[1].window_classes, vec!["firefox".to_string()]);
    assert_eq!(state.workspaces[0].monitor, "DP-1");
    assert_eq!(state.workspaces[0].monitor_id, Some(0));
    assert_eq!(state.active_workspace_ids, vec![2]);
    assert_eq!(state.monitors.len(), 1);
    assert_eq!(state.monitors[0].active_workspace_id, 2);
    assert_eq!(state.monitors[0].special_workspace_id, -1);
    assert_eq!(state.keyboard_layout, "us");
    assert!(state.submap.is_none());
    match &state.active_window {
        Some(ActiveWindow::Wayfire(w)) => {
            assert_eq!(w.title, "window 1");
            assert_eq!(w.class, "firefox");
            assert_eq!(w.address, "1");
        }
        _ => panic!("expected a Wayfire window"),
    }
    assert_eq!(cells.len(), 6);
    assert_eq!(cells[4], WfCell { id: 5, output_id: 7, x: 1, y: 1 });
    assert_eq!(find_cell(&cells, 5), Some(WfCell { id: 5, output_id: 7, x: 1, y: 1 }));
    assert_eq!(find_cell(&cells, 9), None);
}

#[test]
fn wayfire_other_output_is_not_active_and_classes_can_be_left_out() {
    let outputs = vec![wf_output()];
    let views = vec![wf_view(1, "firefox", 100)];
    let (state, _) = wayfire_build_state(&outputs, &views, Some(8), None, None, false);
    assert!(state.active_workspace_ids.is_empty());
    assert!(state.workspaces[1].window_classes.is_empty());
    assert_eq!(state.workspaces[1].windows, 1);
    assert!(state.active_window.is_none());
    assert_eq!(state.keyboard_layout, "Unknown");
}

#[test]
fn wayfire_view_cell_follows_its_centre() {
    let out = wf_output();
    assert_eq!(view_workspace(&wf_view(1, "a", 100), &out), (1, 0));
    assert_eq!(view_workspace(&wf_view(1, "a", 2000), &out), (2, 0));
    assert_eq!(view_workspace(&wf_view(1, "a", 10000), &out), (2, 0));
    assert_eq!(view_workspace(&wf_view(1, "a", -5000), &out), (0, 0));
}

#[test]
fn wayfire_ids_and_scrolls() {
    assert_eq!(wf_encode(0, 0), Some(1));
    assert_eq!(wf_encode(2, 5), Some(206));
    assert_eq!(wf_encode(0, 100), None);
    let out = wf_output();
    assert_eq!(scroll_target(&out, 1), (0, 0));
    assert_eq!(scroll_target(&out, -1), (2, 0));
    let mut first = wf_output();
    first.workspace.x = 0;
    assert_eq!(scroll_target(&first, 1), (2, 1));
}

#[test]
fn wayfire_layout_and_actions() {
    let kb = WfKeyboardState {
        layout: Some(String::new()),
        layout_index: Some(2),
        possible_layouts: vec!["us".to_string(), "de".to_string(), "fr".to_string()],
    };
    assert_eq!(next_layout_index(&kb), Some(0));
    let single = WfKeyboardState { layout: None, layout_index: None, possible_layouts: vec!["us".to_string()] };
    assert_eq!(next_layout_index(&single), None);
    assert_eq!(keyboard_layout_of(Some(&kb)), "Unknown");
    assert_eq!(wayfire_action(&CompositorCommand::FocusWorkspace(3)), Ok(WayfireAction::FocusWorkspace(3)));
    assert_eq!(
        wayfire_action(&CompositorCommand::FocusMonitor(1)),
        Err("FocusMonitor(1) is not supported on the Wayfire backend".to_string())
    );
}

fn tag(index: i32, urgent: bool, clients: u16) -> MangoTag {
    MangoTag { index, is_urgent: urgent, client_count: clients }
}

fn mango_monitors() -> Vec<MangoMonitor> {
    vec![
        MangoMonitor {
            name: "eDP-1".to_string(),
            active: false,
            tags: vec![tag(2, true, 0), tag(1, false, 2)],
            active_tags: vec![2, 1],
            active_client: MangoClient { title: Some("a".to_string()), appid: None },
            keymode: "default".to_string(),
            keyboardlayout: "us".to_string(),
        },
        MangoMonitor {
            name: "HDMI-A-1".to_string(),
            active: true,
            tags: vec![tag(1, false, 1)],
            active_tags: vec![1],
            active_client: MangoClient { title: None, appid: None },
            keymode: "resize".to_string(),
            keyboardlayout: String::new(),
        },
    ]
}

#[test]
fn mango_tags_become_sorted_workspaces() {
    let state = mango_build_state(&mango_monitors());
    let ids: Vec<i32> = state.workspaces.iter().map(|w| w.id).collect();
    assert_eq!(ids, vec![1, 2, 101]);
    assert_eq!(state.workspaces[0].windows, 2);
    assert!(state.workspaces[1].has_urgent);
    assert_eq!(state.workspaces[2].monitor, "HDMI-A-1");
    assert_eq!(state.workspaces[2].monitor_id, Some(1));
    assert_eq!(state.workspaces[2].name, "1");
    assert_eq!(state.active_workspace_ids, vec![1, 2, 101]);
    assert_eq!(state.monitors[0].active_workspace_id, 1);
    assert_eq!(state.monitors[1].active_workspace_id, 101);
    match &state.active_window {
        Some(ActiveWindow::Mango(w)) => {
            assert_eq!(w.title, "a");
            assert_eq!(w.class, "");
        }
        _ => panic!("expected a Mango window"),
    }
    assert_eq!(state.keyboard_layout, "us");
    assert_eq!(state.submap, Some("resize".to_string()));
}

#[test]
fn mango_ids_round_trip_and_commands() {
    assert_eq!(encode_workspace_id(3, 7), 307);
    assert_eq!(decode_workspace_id(307), (3, 7));
    assert_eq!(decode_workspace_id(5), (0, 5));
    assert_eq!(decode_workspace_id(-7), (0, -7));
    match mango_action(CompositorCommand::FocusWorkspace(102)) {
        Ok(MangoAction::FocusTag { monitor, tag }) => assert_eq!((monitor, tag), (1, 2)),
        _ => panic!("expected a focus"),
    }
    match mango_action(CompositorCommand::CustomDispatch("spawn".to_string(), "foot".to_string())) {
        Ok(MangoAction::Dispatch(f)) => assert_eq!(f, "spawn,foot"),
        _ => panic!("expected a dispatch"),
    }
    match mango_action(CompositorCommand::ScrollWorkspace(1)) {
        Ok(MangoAction::Dispatch(f)) => assert_eq!(f, "viewtoleft_have_client"),
        _ => panic!("expected a dispatch"),
    }
    assert!(matches!(
        mango_action(CompositorCommand::FocusMonitor(0)),
        Err(e) if e == "FocusMonitor(0) is not supported on the MangoWC backend"
    ));
    let names = vec!["eDP-1".to_string(), "HDMI-A-1".to_string()];
    assert_eq!(focus_dispatches(&names, 1, 2), vec!["focusmon,HDMI-A-1".to_string(), "view,2".to_string()]);
    assert_eq!(focus_dispatches(&names[..1].to_vec(), 0, 2), vec!["view,2".to_string()]);
}

#[test]
fn generic_events_build_the_state() {
    let mut st = GenericState::new();
    assert_eq!(st.on_global(1, "wl_output"), GlobalBind::Output);
    st.output_bound(10, 1);
    st.output_name(10, "DP-2".to_string());
    assert_eq!(st.on_global(2, "ext_workspace_manager_v1"), GlobalBind::WorkspaceManager);
    assert_eq!(st.on_global(3, "ext_workspace_manager_v1"), GlobalBind::Nothing);
    assert_eq!(st.on_global(4, "zwlr_foreign_toplevel_manager_v1"), GlobalBind::ToplevelManager);
    st.group_created(20);
    st.group_output_enter(20, 10);
    st.workspace_created(30);
    st.workspace_created(31);
    st.workspace_name(30, "1".to_string());
    st.workspace_name(31, "web".to_string());
    st.group_workspace_enter(20, 30);
    st.group_workspace_enter(20, 31);
    st.workspace_state(31, 1);
    st.workspaces_done();
    st.toplevel_created(40);
    st.toplevel_title(40, "editor".to_string());
    st.toplevel_app_id(40, "code".to_string());
    st.toplevel_state(40, &2u32.to_ne_bytes().to_vec());
    st.toplevel_done();
    assert!(st.dirty);
    assert!(st.handles_changed);

    let state = st.build_state();
    let ids: Vec<i32> = state.workspaces.iter().map(|w| w.id).collect();
    assert_eq!(ids, vec![1, 2]);
    assert_eq!(state.workspaces[0].index, 1);
    assert_eq!(state.workspaces[1].index, 2);
    assert_eq!(state.workspaces[1].monitor, "DP-2");
    assert_eq!(state.active_workspace_ids, vec![2]);
    assert_eq!(state.monitors[0].active_workspace_id, 2);
    match &state.active_window {
        Some(ActiveWindow::Generic(w)) => {
            assert_eq!(w.title, "editor");
            assert_eq!(w.class, "code");
        }
        _ => panic!("expected a generic window"),
    }

    let handles = st.command_handles();
    assert_eq!(handles, vec![(1, 30), (2, 31)]);
    assert_eq!(handle_for(&handles, 2), Some(31));
    assert_eq!(handle_for(&handles, 5), None);

    st.workspace_removed(30);
    st.toplevel_closed(40);
    let state = st.build_state();
    assert_eq!(state.workspaces.len(), 1);
    assert!(state.active_window.is_none());
    assert!(st.on_global_remove(2));
    assert!(st.build_state().workspaces.is_empty());
    assert!(!st.on_global_remove(1));
    assert!(st.build_state().monitors.is_empty());
    assert_eq!(generic_action(&CompositorCommand::FocusWorkspace(4)), Ok(4));
    assert_eq!(
        generic_action(&CompositorCommand::NextLayout),
        Err("NextLayout is not supported on the generic Wayland backend".to_string())
    );
}

#[test]
fn sway_frames_are_checked() {
    let mut header = b"i3-ipc".to_vec();
    header.extend_from_slice(&12u32.to_ne_bytes());
    header.extend_from_slice(&0x8000_0003u32.to_ne_bytes());
    assert_eq!(parse_frame_header(&header), Ok((12, 0x8000_0003)));
    assert!(is_event_frame(0x8000_0003));
    assert!(!is_event_frame(3));
    let mut bad = header.clone();
    bad[0] = b'x';
    assert_eq!(parse_frame_header(&bad), Err(FrameError::BadMagic));
    let mut big = b"i3-ipc".to_vec();
    big.extend_from_slice(&(64u32 * 1024 * 1024).to_ne_bytes());
    big.extend_from_slice(&0u32.to_ne_bytes());
    assert_eq!(parse_frame_header(&big), Err(FrameError::TooLarge(64 * 1024 * 1024)));
}

#[test]
fn hyprlang_dispatches() {
    assert!(matches!(hyprlang_dispatch(CompositorCommand::ScrollWorkspace(-3)), HyprDispatch::RelativeWorkspace(-1)));
    assert!(matches!(hyprlang_dispatch(CompositorCommand::ScrollWorkspace(2)), HyprDispatch::RelativeWorkspace(1)));
    assert!(matches!(hyprlang_dispatch(CompositorCommand::FocusWorkspace(4)), HyprDispatch::Workspace(4)));
    match hyprlang_dispatch(CompositorCommand::CustomDispatch("exec".to_string(), "foot".to_string())) {
        HyprDispatch::Custom(d, a) => assert_eq!((d.as_str(), a.as_str()), ("exec", "foot")),
        _ => panic!("expected a custom dispatch"),
    }
}

#[test]
fn mango_ids_out_of_range_are_refused() {
    let mut ms = mango_monitors();
    assert!(monitors_fit(&ms));
    ms[1].tags.push(tag(i32::MAX - 50, false, 0));
    assert!(!monitors_fit(&ms));
    let mut ms = mango_monitors();
    ms[1].active_tags.push(i32::MAX - 99);
    assert!(!monitors_fit(&ms));
    ms[1].active_tags[1] = i32::MAX - 100;
    assert!(monitors_fit(&ms));
}

#[test]
fn wayfire_geometry_out_of_range_is_refused() {
    let outputs = vec![wf_output()];
    let views = vec![wf_view(1, "a", 100)];
    assert!(outputs_fit(&outputs, &views));
    assert!(!outputs_fit(&outputs, &vec![wf_view(1, "a", 100), wf_view(2, "b", i64::MAX - 10)]));
    let mut far = wf_view(2, "b", i64::MAX - 10);
    far.mapped = false;
    assert!(outputs_fit(&outputs, &vec![far]));
    let mut big = wf_output();
    big.workspace.grid_width = Some(i64::MAX);
    assert!(!outputs_fit(&vec![big], &Vec::new()));
}

#[test]
fn unsupported_requests_are_named_as_debug_writes_them() {
    assert_eq!(
        wayfire_action(&CompositorCommand::CustomDispatch("vdesk".to_string(), "2 \"x\"".to_string())),
        Err(r#"CustomDispatch("vdesk", "2 \"x\"") is not supported on the Wayfire backend"#.to_string())
    );
    assert_eq!(
        generic_action(&CompositorCommand::ScrollWorkspace(-1)),
        Err("ScrollWorkspace(-1) is not supported on the generic Wayland backend".to_string())
    );
    assert!(matches!(
        mango_action(CompositorCommand::ToggleSpecialWorkspace("scratch\n".to_string())),
        Err(e) if e == r#"ToggleSpecialWorkspace("scratch\n") is not supported on the MangoWC backend"#
    ));
    for cmd in [
        CompositorCommand::FocusWorkspace(-3),
        CompositorCommand::FocusSpecialWorkspace("a\\b".to_string()),
        CompositorCommand::FocusMonitor(i128::MIN),
        CompositorCommand::ToggleSpecialWorkspace(String::new()),
        CompositorCommand::ScrollWorkspace(1),
        CompositorCommand::CustomDispatch("é".to_string(), "\t".to_string()),
        CompositorCommand::NextLayout,
    ] {
        assert_eq!(cmd.debug_text(), format!("{cmd:?}"));
    }
}

fn niri_window() -> ActiveWindowNiri {
    ActiveWindowNiri { title: "t".to_string(), class: "c".to_string(), address: "1".to_string() }
}

#[test]
fn initial_title_and_class_come_from_hyprland_only() {
    let h = ActiveWindow::Hyprland(ActiveWindowHyprland {
        title: "Terminal".to_string(),
        class: "kitty".to_string(),
        address: "0x1".to_string(),
        initial_title: "kitty".to_string(),
        initial_class: "kitty-class".to_string(),
    });
    assert_eq!(h.initial_title(), Ok("kitty"));
    assert_eq!(h.initial_class(), Ok("kitty-class"));
    let n = ActiveWindow::Niri(niri_window());
    assert_eq!(n.initial_title(), Err("InitialTitle isn't supported on Niri"));
    assert_eq!(n.initial_class(), Err("InitialClass isn't supported on Niri"));
    let s = ActiveWindow::Sway(niri_window());
    assert_eq!(s.initial_title(), Err("InitialTitle isn't supported on this compositor"));
    let g = ActiveWindow::Generic(ActiveWindowGeneric { title: "t".to_string(), class: "c".to_string() });
    assert_eq!(g.initial_class(), Err("InitialClass isn't supported on this compositor"));
}
