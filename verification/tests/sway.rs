use ashell::compositor::sway::{
    build_state, command_for, find_focused_view, optional, quote, sorted_active_outputs,
    workspace_contents, NodeType, SwayInput, SwayNode, SwayOutput, SwaySnapshot, SwayWorkspace,
    WindowProperties, WorkspaceRegistry, NAMED_ID_BASE,
};
use ashell::compositor::types::{CompositorCommand, CompositorState, CompositorWorkspace};
use ashell::text::str_lt;

fn node(id: i64, name: &str, node_type: NodeType, focus: Vec<i64>, nodes: Vec<SwayNode>) -> SwayNode {
    SwayNode {
        id,
        name: Some(name.to_string()),
        node_type,
        focus,
        nodes,
        floating_nodes: Vec::new(),
        shell: None,
        pid: None,
        app_id: None,
        window_properties: None,
    }
}

/// eDP-1 shows workspace "1" (focused, one firefox view inside a split
/// container), HDMI-A-1 shows named workspace "chat" (visible, one xdg-shell
/// view without app_id plus one floating XWayland view).
fn tree() -> SwayNode {
    let mut firefox = node(100, "Mozilla Firefox", NodeType::Con, vec![], vec![]);
    firefox.pid = Some(10);
    firefox.shell = Some("xdg_shell".to_string());
    firefox.app_id = Some("firefox".to_string());
    let split = node(90, "", NodeType::Con, vec![100], vec![firefox]);
    let ws1 = node(10, "1", NodeType::Workspace, vec![90], vec![split]);

    let mut no_app_id = node(200, "some dialog", NodeType::Con, vec![], vec![]);
    no_app_id.pid = Some(20);
    no_app_id.shell = Some("xdg_shell".to_string());
    let mut xwayland = node(201, "xterm", NodeType::FloatingCon, vec![], vec![]);
    xwayland.pid = Some(21);
    xwayland.shell = Some("xwayland".to_string());
    xwayland.window_properties = Some(WindowProperties { class: Some("XTerm".to_string()) });
    let mut ws_chat = node(11, "chat", NodeType::Workspace, vec![200], vec![no_app_id]);
    ws_chat.floating_nodes = vec![xwayland];

    let edp = node(2, "eDP-1", NodeType::Output, vec![10], vec![ws1]);
    let hdmi = node(3, "HDMI-A-1", NodeType::Output, vec![11], vec![ws_chat]);
    node(1, "root", NodeType::Root, vec![2, 3], vec![edp, hdmi])
}

fn workspace(num: i32, name: &str, visible: bool, focused: bool, urgent: bool, output: &str) -> SwayWorkspace {
    SwayWorkspace {
        num,
        name: name.to_string(),
        visible,
        focused,
        urgent,
        output: output.to_string(),
    }
}

fn workspaces() -> Vec<SwayWorkspace> {
    vec![
        workspace(1, "1", true, true, false, "eDP-1"),
        workspace(-1, "chat", true, false, true, "HDMI-A-1"),
        workspace(3, "3:web", false, false, false, "eDP-1"),
        workspace(3, "3:mail", false, false, false, "eDP-1"),
    ]
}

fn outputs() -> Vec<SwayOutput> {
    vec![
        SwayOutput {
            name: "eDP-1".to_string(),
            active: true,
            current_workspace: Some("1".to_string()),
        },
        SwayOutput {
            name: "HDMI-A-1".to_string(),
            active: true,
            current_workspace: Some("chat".to_string()),
        },
        SwayOutput { name: "DP-9".to_string(), active: false, current_workspace: None },
    ]
}

fn inputs() -> Vec<SwayInput> {
    vec![
        SwayInput {
            input_type: "keyboard".to_string(),
            xkb_active_layout_name: Some("English (US)".to_string()),
            xkb_layout_names: vec!["English (US)".to_string()],
        },
        SwayInput {
            input_type: "keyboard".to_string(),
            xkb_active_layout_name: Some("German".to_string()),
            xkb_layout_names: vec!["English (US)".to_string(), "German".to_string()],
        },
        SwayInput {
            input_type: "pointer".to_string(),
            xkb_active_layout_name: None,
            xkb_layout_names: vec![],
        },
    ]
}

fn snapshot() -> SwaySnapshot {
    SwaySnapshot {
        workspaces: workspaces(),
        outputs: outputs(),
        tree: Some(tree()),
        inputs: inputs(),
        binding_state: Some("resize".to_string()),
    }
}

fn find<'a>(state: &'a CompositorState, name: &str) -> &'a CompositorWorkspace {
    state
        .workspaces
        .iter()
        .find(|ws| ws.name == name)
        .unwrap_or_else(|| panic!("workspace {name} missing"))
}

#[test]
fn maps_a_multi_monitor_sway_state() {
    let mut registry = WorkspaceRegistry::new();
    let state = build_state(&snapshot(), &mut registry, true);

    // numbered workspaces keep their sway number as id and index
    assert_eq!((find(&state, "1").id, find(&state, "1").index), (1, 1));
    assert_eq!((find(&state, "3:web").id, find(&state, "3:web").index), (3, 3));

    // two workspaces sharing a number still get distinct positive ids
    let dup = find(&state, "3:mail");
    assert!(dup.id >= NAMED_ID_BASE, "got {}", dup.id);
    assert_eq!(dup.index, 3);

    // a named workspace sorts after the numbered ones, with a dense index
    let chat = find(&state, "chat");
    assert!(chat.id >= NAMED_ID_BASE, "got {}", chat.id);
    assert_eq!(chat.index, 4);

    // monitor ids follow the sorted list of *active* outputs
    assert_eq!(find(&state, "1").monitor_id, Some(1));
    assert_eq!(chat.monitor_id, Some(0));
    assert_eq!(
        state.monitors.iter().map(|m| m.name.as_str()).collect::<Vec<_>>(),
        vec!["HDMI-A-1", "eDP-1"],
    );

    // every output reports the workspace visible on it
    let hdmi = &state.monitors[0];
    let edp = &state.monitors[1];
    assert_eq!(hdmi.active_workspace_id, chat.id);
    assert_eq!(edp.active_workspace_id, 1);

    // only the focused workspace is "active"
    assert_eq!(state.active_workspace_ids, vec![1]);

    // urgency is carried over
    assert!(chat.has_urgent);
    assert!(!find(&state, "1").has_urgent);

    // views are counted through split containers; a split con is not a window
    assert_eq!(find(&state, "1").windows, 1);
    assert_eq!(find(&state, "1").window_classes, vec!["firefox".to_string()]);
    // an xdg-shell view without app_id counts, and an XWayland view falls
    // back to window_properties.class
    assert_eq!(chat.windows, 2);
    assert_eq!(chat.window_classes, vec!["XTerm".to_string()]);
    assert_eq!(find(&state, "3:web").windows, 0);

    // the focused view is found through the focus chain
    let window = state.active_window.as_ref().expect("active window");
    assert_eq!(window.title(), "Mozilla Firefox");
    assert_eq!(window.class(), "firefox");

    // the power button does not win over the real keyboard
    assert_eq!(state.keyboard_layout, "German");
    assert_eq!(state.submap.as_deref(), Some("resize"));
}

#[test]
fn ids_stay_stable_and_commands_resolve() {
    let mut registry = WorkspaceRegistry::new();
    let first = build_state(&snapshot(), &mut registry, true);
    let second = build_state(&snapshot(), &mut registry, true);
    assert_eq!(
        first.workspaces.iter().map(|ws| (ws.name.clone(), ws.id)).collect::<Vec<_>>(),
        second.workspaces.iter().map(|ws| (ws.name.clone(), ws.id)).collect::<Vec<_>>(),
    );

    // every id maps back to the name a `workspace` command needs
    for ws in &second.workspaces {
        assert_eq!(registry.name_for(ws.id), Some(ws.name.as_str()));
    }

    assert_eq!(quote(r#"we"ird\ws"#), r#""we\"ird\\ws""#);
}

#[test]
fn survives_a_missing_tree_and_binding_state() {
    let mut snapshot = snapshot();
    snapshot.tree = None;
    snapshot.binding_state = None;
    snapshot.inputs = Vec::new();

    let mut registry = WorkspaceRegistry::new();
    let state = build_state(&snapshot, &mut registry, true);
    assert_eq!(state.workspaces.len(), 4);
    assert_eq!(state.active_workspace_ids, vec![1]);
    assert!(state.active_window.is_none());
    assert!(state.submap.is_none());
    assert_eq!(state.keyboard_layout, "Unknown");
    assert!(state.workspaces.iter().all(|ws| ws.windows == 0));
}

#[test]
fn workspace_registry_prunes_dead_workspaces() {
    let mut registry = WorkspaceRegistry::new();
    assert_eq!(registry.id_for("1", 1), 1);
    let chat = registry.id_for("chat", -1);
    assert_eq!(chat, NAMED_ID_BASE);

    registry.retain(&["1".to_string()]);
    assert_eq!(registry.name_for(chat), None);
    assert_eq!(registry.name_for(1), Some("1"));
    // the freed id is handed out again
    assert_eq!(registry.id_for("later", -1), NAMED_ID_BASE);
}

#[test]
fn registry_hands_out_the_next_free_named_id() {
    let mut registry = WorkspaceRegistry::new();
    assert_eq!(registry.id_for("a", -1), NAMED_ID_BASE);
    assert_eq!(registry.id_for("b", -1), NAMED_ID_BASE + 1);
    // a number already taken falls back to the named range
    assert_eq!(registry.id_for("3:web", 3), 3);
    assert_eq!(registry.id_for("3:mail", 3), NAMED_ID_BASE + 2);
    // asking again answers the same id
    assert_eq!(registry.id_for("a", 7), NAMED_ID_BASE);
}

#[test]
fn workspace_names_drive_commands() {
    let mut registry = WorkspaceRegistry::new();
    let state = build_state(&snapshot(), &mut registry, false);
    let outputs: Vec<String> = state.monitors.iter().map(|m| m.name.clone()).collect();
    let chat = state.workspaces.iter().find(|ws| ws.name == "chat").unwrap().id;

    assert_eq!(
        command_for(&CompositorCommand::FocusWorkspace(chat), &registry, &outputs),
        Ok("workspace --no-auto-back-and-forth \"chat\"".to_string())
    );
    assert_eq!(
        command_for(&CompositorCommand::FocusWorkspace(77), &registry, &outputs),
        Err("unknown Sway workspace id 77".to_string())
    );
    assert_eq!(
        command_for(&CompositorCommand::FocusMonitor(1), &registry, &outputs),
        Ok("focus output \"eDP-1\"".to_string())
    );
    assert_eq!(
        command_for(&CompositorCommand::FocusMonitor(-2), &registry, &outputs),
        Err("unknown Sway output id -2".to_string())
    );
    assert_eq!(
        command_for(&CompositorCommand::ScrollWorkspace(1), &registry, &outputs),
        Ok("workspace next_on_output".to_string())
    );
    assert_eq!(
        command_for(&CompositorCommand::ScrollWorkspace(-1), &registry, &outputs),
        Ok("workspace prev_on_output".to_string())
    );
    assert_eq!(
        command_for(&CompositorCommand::NextLayout, &registry, &outputs),
        Ok("input type:keyboard xkb_switch_layout next".to_string())
    );
    assert_eq!(
        command_for(
            &CompositorCommand::ToggleSpecialWorkspace("scratch".to_string()),
            &registry,
            &outputs
        ),
        Err("special workspaces are not supported on Sway".to_string())
    );
    assert_eq!(
        command_for(
            &CompositorCommand::CustomDispatch("exec".to_string(), "foot".to_string()),
            &registry,
            &outputs
        ),
        Ok("exec foot".to_string())
    );
    assert_eq!(
        command_for(
            &CompositorCommand::CustomDispatch("reload".to_string(), String::new()),
            &registry,
            &outputs
        ),
        Ok("reload".to_string())
    );
}

#[test]
fn classes_are_left_out_when_not_asked_for() {
    let t = tree();
    let contents = workspace_contents(Some(&t), false);
    let names: Vec<&str> = contents.iter().map(|c| c.name.as_str()).collect();
    // the walk visits the last output first
    assert_eq!(names, vec!["chat", "1"]);
    assert!(contents.iter().all(|c| c.classes.is_empty()));
    assert_eq!(contents[0].windows, 2);
}

#[test]
fn focus_chain_ends_at_a_view() {
    let t = tree();
    let view = find_focused_view(&t).expect("a focused view");
    assert_eq!(view.id, 100);
    let mut no_focus = tree();
    no_focus.focus = vec![];
    assert!(find_focused_view(&no_focus).is_none());
}

#[test]
fn outputs_sort_by_code_point() {
    let sorted = sorted_active_outputs(&outputs());
    assert_eq!(sorted, vec!["HDMI-A-1".to_string(), "eDP-1".to_string()]);
    assert!(str_lt("ab", "abc"));
    assert!(!str_lt("abc", "ab"));
    assert!(!str_lt("x", "x"));
}

const RECT: &str = r#"{"x":0,"y":0,"width":1920,"height":1080}"#;

fn json_node(id: i64, name: &str, node_type: &str, extra: &str, children: &str) -> String {
    format!(
        r#"{{"id":{id},"name":"{name}","type":"{node_type}","border":"pixel",
        "current_border_width":2,"layout":"splith","orientation":"horizontal","percent":1.0,
        "rect":{RECT},"window_rect":{RECT},"deco_rect":{RECT},"geometry":{RECT},
        "urgent":false,"focused":false,"floating":null,"floating_nodes":[],"sticky":false,
        "nodes":[{children}]{extra}}}"#
    )
}

/// The same tree as `tree()`, as sway's `get_tree` reply.
fn tree_json() -> String {
    let firefox = json_node(
        100,
        "Mozilla Firefox",
        "con",
        r#","focus":[],"pid":10,"shell":"xdg_shell","app_id":"firefox""#,
        "",
    );
    let split = json_node(90, "", "con", r#","focus":[100]"#, &firefox);
    let ws1 = json_node(10, "1", "workspace", r#","focus":[90],"num":1"#, &split);
    let no_app_id = json_node(200, "some dialog", "con", r#","focus":[],"pid":20,"shell":"xdg_shell""#, "");
    let xwayland = json_node(
        201,
        "xterm",
        "floating_con",
        r#","focus":[],"pid":21,"shell":"xwayland",
        "window":42,"window_properties":{"title":"xterm","class":"XTerm","instance":"xterm",
        "window_role":null,"window_type":"normal","transient_for":null}"#,
        "",
    );
    let ws_chat = format!(
        r#"{{"id":11,"name":"chat","type":"workspace","border":"none","current_border_width":0,
        "layout":"splith","orientation":"horizontal","percent":null,"rect":{RECT},
        "window_rect":{RECT},"deco_rect":{RECT},"geometry":{RECT},"urgent":false,
        "focused":false,"focus":[200],"sticky":false,"num":-1,
        "nodes":[{no_app_id}],"floating_nodes":[{xwayland}]}}"#
    );
    let edp = json_node(2, "eDP-1", "output", r#","focus":[10]"#, &ws1);
    let hdmi = json_node(3, "HDMI-A-1", "output", r#","focus":[11]"#, &ws_chat);
    json_node(1, "root", "root", r#","focus":[2,3]"#, &format!("{edp},{hdmi}"))
}

#[test]
fn a_node_without_urgent_still_parses_as_a_frame_payload() {
    let without_urgent = tree_json().replace(r#""urgent":false,"#, "");
    assert!(serde_json::from_str::<swayipc_types::Node>(&without_urgent).is_err());
    assert!(optional::<swayipc_types::Node, String>(Err("boom".to_string())).is_none());
}

#[test]
fn optional_keeps_a_successful_reply() {
    assert!(serde_json::from_str::<swayipc_types::Node>(&tree_json()).is_ok());
    assert_eq!(optional::<i32, String>(Ok(7)), Some(7));
}
