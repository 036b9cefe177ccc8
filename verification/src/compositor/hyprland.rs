//! Hyprland backend: the state assembled from hyprctl's replies, and the
//! Lua commands of the configurations that take them.

use super::types::{
    ActiveWindow, ActiveWindowHyprland, CompositorCommand, CompositorMonitor, CompositorState,
    CompositorWorkspace,
};
use crate::text::{decimal, i128_to_string, i64_to_string, push_str, str_eq, views};
use vstd::prelude::*;

verus! {

/// A workspace as `hyprctl workspaces` reports it.
pub struct HyprWorkspace {
    pub id: i32,
    pub name: String,
    pub monitor: String,
    pub monitor_id: Option<i128>,
    pub windows: u16,
}

/// A monitor as `hyprctl monitors` reports it.
pub struct HyprMonitor {
    pub id: i128,
    pub name: String,
    pub active_workspace_id: i32,
    pub special_workspace_id: i32,
}

/// A client window.
pub struct HyprClient {
    pub workspace_id: i32,
    pub title: String,
    pub class: String,
    pub address: String,
    pub initial_title: String,
    pub initial_class: String,
}

/// A keyboard and its active keymap.
pub struct HyprKeyboard {
    pub main: bool,
    pub active_keymap: String,
}

/// hyprctl's replies; the optional parts are those whose request may fail.
pub struct HyprReplies {
    pub clients: Vec<HyprClient>,
    pub workspaces: Vec<HyprWorkspace>,
    pub monitors: Vec<HyprMonitor>,
    pub active_workspace: Option<i32>,
    pub active_window: Option<HyprClient>,
    pub keyboards: Option<Vec<HyprKeyboard>>,
}

/// `perm` lists the workspaces sorted by id, ties in reply order.
pub open spec fn sorted_by_id(ws: Seq<HyprWorkspace>, perm: Seq<usize>) -> bool {
    &&& perm.len() == ws.len()
    &&& forall|i: int| 0 <= i < perm.len() ==> (#[trigger] perm[i]) < ws.len()
    &&& forall|i: int, j: int| 0 <= i < j < perm.len() ==> #[trigger] perm[i] != #[trigger] perm[j]
    &&& forall|i: int, j: int|
        0 <= i < j < perm.len() ==> ws[#[trigger] perm[i] as int].id <= ws[#[trigger] perm[j] as int].id
    &&& forall|i: int, j: int|
        0 <= i < j < perm.len() && ws[#[trigger] perm[i] as int].id == ws[#[trigger] perm[j] as int].id
            ==> perm[i] < perm[j]
}

/// The classes of the clients on a workspace, in reply order.
pub open spec fn classes_on(clients: Seq<HyprClient>, id: i32) -> Seq<Seq<char>>
    decreases clients.len(),
{
    if clients.len() == 0 {
        Seq::empty()
    } else {
        classes_on(clients.drop_last(), id) + if clients.last().workspace_id == id {
            seq![clients.last().class@]
        } else {
            Seq::empty()
        }
    }
}

/// The classes sorted position `i` takes: those of its workspace id, unless
/// an earlier position of the same id took them.
pub open spec fn classes_for(ws: Seq<HyprWorkspace>, perm: Seq<usize>, clients: Seq<HyprClient>, i: int, collect: bool) -> Seq<Seq<char>> {
    if collect && !(exists|j: int| 0 <= j < i && ws[perm[j] as int].id == ws[perm[i] as int].id) {
        classes_on(clients, ws[perm[i] as int].id)
    } else {
        Seq::empty()
    }
}

/// `w` is what the bar shows of a Hyprland workspace; negative ids are
/// special workspaces.
pub open spec fn hypr_workspace(w: CompositorWorkspace, src: HyprWorkspace, classes: Seq<Seq<char>>) -> bool {
    &&& w.id == src.id
    &&& w.index == src.id
    &&& w.name@ == src.name@
    &&& w.monitor@ == src.monitor@
    &&& w.monitor_id == src.monitor_id
    &&& w.windows == src.windows
    &&& w.is_special == (src.id < 0)
    &&& !w.has_urgent
    &&& views(w.window_classes@) == classes
}

/// The layout shown: the active keymap of the first main keyboard,
/// "Unknown" without one.
pub open spec fn hypr_layout(keyboards: Option<Vec<HyprKeyboard>>) -> Seq<char> {
    match keyboards {
        Some(ks) => if exists|i: int| 0 <= i < ks@.len() && ks@[i].main {
            ks@[choose|i: int|
                0 <= i < ks@.len() && ks@[i].main && forall|j: int| 0 <= j < i ==> !(#[trigger] ks@[j]).main].active_keymap@
        } else {
            "Unknown"@
        },
        None => "Unknown"@,
    }
}

/// The layout shown is the active keymap of the first keyboard that is
/// the main one, never that of another keyboard, and "Unknown" when no
/// keyboard is main or none was read.
pub proof fn law_layout_is_main_keymap(keyboards: Option<Vec<HyprKeyboard>>)
    ensures
        match keyboards {
            None => hypr_layout(keyboards) == "Unknown"@,
            Some(ks) => {
                &&& (forall|i: int| 0 <= i < ks@.len() ==> !(#[trigger] ks@[i]).main) ==> hypr_layout(keyboards)
                    == "Unknown"@
                &&& forall|i: int|
                    0 <= i < ks@.len() && (#[trigger] ks@[i]).main && (forall|j: int| 0 <= j < i ==> !ks@[j].main)
                        ==> hypr_layout(keyboards) == ks@[i].active_keymap@
            },
        },
{
    if let Some(ks) = keyboards {
        assert forall|i: int|
            0 <= i < ks@.len() && (#[trigger] ks@[i]).main && (forall|j: int| 0 <= j < i ==> !ks@[j].main) implies hypr_layout(
            keyboards,
        ) == ks@[i].active_keymap@ by {
            let c = choose|c: int|
                0 <= c < ks@.len() && ks@[c].main && forall|j: int| 0 <= j < c ==> !(#[trigger] ks@[j]).main;
            if c < i {
                assert(!ks@[c].main);
            } else if i < c {
                assert(!ks@[i].main);
            }
        }
    }
}

fn sort_by_id(ws: &Vec<HyprWorkspace>) -> (perm: Vec<usize>)
    ensures
        sorted_by_id(ws@, perm@),
{
    let mut perm: Vec<usize> = Vec::new();
    let mut k: usize = 0;
    while k < ws.len()
        invariant
            k <= ws@.len(),
            perm@.len() == k,
            forall|i: int| 0 <= i < perm@.len() ==> (#[trigger] perm@[i]) < k,
            forall|i: int, j: int| 0 <= i < j < perm@.len() ==> #[trigger] perm@[i] != #[trigger] perm@[j],
            forall|i: int, j: int|
                0 <= i < j < perm@.len() ==> ws@[#[trigger] perm@[i] as int].id <= ws@[#[trigger] perm@[j] as int].id,
            forall|i: int, j: int|
                0 <= i < j < perm@.len() && ws@[#[trigger] perm@[i] as int].id == ws@[#[trigger] perm@[j] as int].id
                    ==> perm@[i] < perm@[j],
        decreases ws@.len() - k,
    {
        let key = ws[k].id;
        let mut p: usize = 0;
        while p < perm.len() && ws[perm[p]].id <= key
            invariant
                p <= perm@.len(),
                forall|i: int| 0 <= i < perm@.len() ==> (#[trigger] perm@[i]) < ws@.len(),
                forall|q: int| 0 <= q < p ==> ws@[#[trigger] perm@[q] as int].id <= key,
            decreases perm@.len() - p,
        {
            p = p + 1;
        }
        let ghost before = perm@;
        proof {
            assert forall|q: int| p <= q < before.len() implies key < ws@[#[trigger] before[q] as int].id by {
                if q > p {
                    assert(ws@[before[p as int] as int].id <= ws@[before[q] as int].id);
                }
            }
        }
        perm.insert(p, k);
        proof {
            let now = perm@;
            assert(now =~= before.insert(p as int, k));
            assert forall|i: int, j: int| 0 <= i < j < now.len() implies #[trigger] now[i] != #[trigger] now[j] by {
                if i < p && j < p {
                    assert(now[i] == before[i] && now[j] == before[j]);
                } else if i < p && j > p {
                    assert(now[i] == before[i] && now[j] == before[j - 1]);
                } else if i > p && j > p {
                    assert(now[i] == before[i - 1] && now[j] == before[j - 1]);
                } else if i < p {
                    assert(now[i] == before[i]);
                } else {
                    assert(now[j] == before[j - 1]);
                }
            }
            assert forall|i: int, j: int|
                0 <= i < j < now.len() implies ws@[#[trigger] now[i] as int].id <= ws@[#[trigger] now[j] as int].id by {
                if i < p && j < p {
                    assert(now[i] == before[i] && now[j] == before[j]);
                } else if i < p && j > p {
                    assert(now[i] == before[i] && now[j] == before[j - 1]);
                } else if i > p && j > p {
                    assert(now[i] == before[i - 1] && now[j] == before[j - 1]);
                } else if i < p {
                    assert(now[i] == before[i]);
                } else {
                    assert(now[j] == before[j - 1]);
                }
            }
            assert forall|i: int, j: int|
                0 <= i < j < now.len() && ws@[#[trigger] now[i] as int].id == ws@[#[trigger] now[j] as int].id
                    implies now[i] < now[j] by {
                if i < p && j < p {
                    assert(now[i] == before[i] && now[j] == before[j]);
                } else if i < p && j > p {
                    assert(now[i] == before[i] && now[j] == before[j - 1]);
                } else if i > p && j > p {
                    assert(now[i] == before[i - 1] && now[j] == before[j - 1]);
                } else if i < p {
                    assert(now[i] == before[i]);
                } else {
                    assert(now[j] == before[j - 1]);
                }
            }
        }
        k = k + 1;
    }
    perm
}

fn collect_classes(clients: &Vec<HyprClient>, id: i32) -> (r: Vec<String>)
    ensures
        views(r@) == classes_on(clients@, id),
{
    let mut r: Vec<String> = Vec::new();
    let mut i: usize = 0;
    while i < clients.len()
        invariant
            i <= clients@.len(),
            views(r@) == classes_on(clients@.take(i as int), id),
        decreases clients@.len() - i,
    {
        assert(clients@.take(i + 1).drop_last() =~= clients@.take(i as int));
        if clients[i].workspace_id == id {
            let c = clients[i].class.clone();
            let ghost before = r@;
            r.push(c);
            assert(views(r@) =~= views(before).push(clients@[i as int].class@));
        }
        i = i + 1;
    }
    assert(clients@.take(clients@.len() as int) =~= clients@);
    r
}

fn main_keymap(keyboards: &Option<Vec<HyprKeyboard>>) -> (r: String)
    ensures
        r@ == hypr_layout(*keyboards),
{
    match keyboards {
        Some(ks) => {
            let mut i: usize = 0;
            while i < ks.len()
                invariant
                    *keyboards == Some(*ks),
                    i <= ks@.len(),
                    forall|j: int| 0 <= j < i ==> !(#[trigger] ks@[j]).main,
                decreases ks@.len() - i,
            {
                if ks[i].main {
                    proof {
                        assert(exists|c: int| 0 <= c < ks@.len() && ks@[c].main);
                        let c = choose|c: int|
                            0 <= c < ks@.len() && ks@[c].main && forall|j: int| 0 <= j < c ==> !(#[trigger] ks@[j]).main;
                        if c > i {
                            assert(!ks@[i as int].main);
                        }
                        assert(c == i);
                        assert(hypr_layout(*keyboards) == ks@[i as int].active_keymap@);
                    }
                    return ks[i].active_keymap.clone();
                }
                i = i + 1;
            }
            "Unknown".to_owned()
        },
        None => "Unknown".to_owned(),
    }
}

fn id_taken_before(ws: &Vec<HyprWorkspace>, perm: &Vec<usize>, i: usize) -> (r: bool)
    requires
        sorted_by_id(ws@, perm@),
        i < perm@.len(),
    ensures
        r == exists|j: int| 0 <= j < i && ws@[perm@[j] as int].id == ws@[perm@[i as int] as int].id,
{
    let mut j: usize = 0;
    while j < i
        invariant
            i < perm@.len(),
            sorted_by_id(ws@, perm@),
            j <= i,
            forall|q: int| 0 <= q < j ==> ws@[#[trigger] perm@[q] as int].id != ws@[perm@[i as int] as int].id,
        decreases i - j,
    {
        if ws[perm[j]].id == ws[perm[i]].id {
            return true;
        }
        j = j + 1;
    }
    false
}

fn build_workspaces(replies: &HyprReplies, perm: &Vec<usize>, collect: bool) -> (r: Vec<CompositorWorkspace>)
    requires
        sorted_by_id(replies.workspaces@, perm@),
    ensures
        r@.len() == perm@.len(),
        forall|i: int| 0 <= i < r@.len() ==> hypr_workspace(
            #[trigger] r@[i],
            replies.workspaces@[perm@[i] as int],
            classes_for(replies.workspaces@, perm@, replies.clients@, i, collect),
        ),
{
    let ws = &replies.workspaces;
    let n = perm.len();
    let mut r: Vec<CompositorWorkspace> = Vec::new();
    let mut i: usize = 0;
    while i < n
        invariant
            n == perm@.len(),
            sorted_by_id(ws@, perm@),
            i <= n,
            r@.len() == i,
            forall|k: int| 0 <= k < i ==> hypr_workspace(
                #[trigger] r@[k],
                ws@[perm@[k] as int],
                classes_for(ws@, perm@, replies.clients@, k, collect),
            ),
        decreases n - i,
    {
        let w = &ws[perm[i]];
        let taken = id_taken_before(ws, perm, i);
        let window_classes = if collect && !taken {
            collect_classes(&replies.clients, w.id)
        } else {
            let e: Vec<String> = Vec::new();
            assert(views(e@) =~= Seq::<Seq<char>>::empty());
            e
        };
        r.push(
            CompositorWorkspace {
                id: w.id,
                index: w.id,
                name: w.name.clone(),
                monitor: w.monitor.clone(),
                monitor_id: w.monitor_id,
                windows: w.windows,
                is_special: w.id < 0,
                has_urgent: false,
                window_classes,
            },
        );
        i = i + 1;
    }
    r
}

/// The bar's state from hyprctl's replies: workspaces sorted by id, each
/// with the classes of its clients when asked for, the monitors as they
/// are, the active workspace and window, and the submap unless empty.
pub fn assemble_state(replies: &HyprReplies, submap: &str, collect_classes: bool) -> (state: CompositorState)
    ensures
        ({
            let ws = replies.workspaces@;
            &&& exists|perm: Seq<usize>|
                #[trigger] sorted_by_id(ws, perm) && state.workspaces@.len() == ws.len() && forall|i: int|
                    0 <= i < ws.len() ==> hypr_workspace(
                        #[trigger] state.workspaces@[i],
                        ws[perm[i] as int],
                        classes_for(ws, perm, replies.clients@, i, collect_classes),
                    )
            &&& state.monitors@.len() == replies.monitors@.len()
            &&& forall|i: int|
                0 <= i < state.monitors@.len() ==> {
                    let m = #[trigger] state.monitors@[i];
                    let src = replies.monitors@[i];
                    &&& m.id == src.id
                    &&& m.name@ == src.name@
                    &&& m.active_workspace_id == src.active_workspace_id
                    &&& m.special_workspace_id == src.special_workspace_id
                }
            &&& state.active_workspace_ids@ == match replies.active_workspace {
                Some(id) => seq![id],
                None => Seq::<i32>::empty(),
            }
            &&& match replies.active_window {
                Some(c) => state.active_window matches Some(ActiveWindow::Hyprland(a)) && a.title@
                    == c.title@ && a.class@ == c.class@ && a.address@ == c.address@ && a.initial_title@
                    == c.initial_title@ && a.initial_class@ == c.initial_class@,
                None => state.active_window is None,
            }
            &&& state.keyboard_layout@ == hypr_layout(replies.keyboards)
            &&& match state.submap {
                Some(s) => submap@.len() > 0 && s@ == submap@,
                None => submap@.len() == 0,
            }
        }),
{
    let perm = sort_by_id(&replies.workspaces);
    let workspaces = build_workspaces(replies, &perm, collect_classes);
    let ghost pv = perm@;
    let mut monitors: Vec<CompositorMonitor> = Vec::new();
    let mut i: usize = 0;
    while i < replies.monitors.len()
        invariant
            i <= replies.monitors@.len(),
            monitors@.len() == i,
            forall|k: int|
                0 <= k < i ==> {
                    let m = #[trigger] monitors@[k];
                    let src = replies.monitors@[k];
                    &&& m.id == src.id
                    &&& m.name@ == src.name@
                    &&& m.active_workspace_id == src.active_workspace_id
                    &&& m.special_workspace_id == src.special_workspace_id
                },
        decreases replies.monitors@.len() - i,
    {
        let m = &replies.monitors[i];
        monitors.push(
            CompositorMonitor {
                id: m.id,
                name: m.name.clone(),
                active_workspace_id: m.active_workspace_id,
                special_workspace_id: m.special_workspace_id,
            },
        );
        i = i + 1;
    }
    let mut active_workspace_ids: Vec<i32> = Vec::new();
    if let Some(id) = replies.active_workspace {
        active_workspace_ids.push(id);
    }
    assert(active_workspace_ids@ =~= match replies.active_workspace {
        Some(id) => seq![id],
        None => Seq::<i32>::empty(),
    });
    let active_window = match &replies.active_window {
        Some(c) => Some(
            ActiveWindow::Hyprland(
                ActiveWindowHyprland {
                    title: c.title.clone(),
                    class: c.class.clone(),
                    address: c.address.clone(),
                    initial_title: c.initial_title.clone(),
                    initial_class: c.initial_class.clone(),
                },
            ),
        ),
        None => None,
    };
    let state = CompositorState {
        workspaces,
        monitors,
        active_workspace_ids,
        active_window,
        keyboard_layout: main_keymap(&replies.keyboards),
        submap: if submap.unicode_len() == 0 {
            None
        } else {
            Some(submap.to_owned())
        },
    };
    assert(sorted_by_id(replies.workspaces@, pv));
    state
}

/// `p` starts a line of `s`.
pub open spec fn line_starts_with(s: Seq<char>, p: Seq<char>) -> bool {
    exists|i: int|
        0 <= i && i + p.len() <= s.len() && (i == 0 || s[i - 1] == '\n') && #[trigger] s.subrange(i, i + p.len()) == p
}

/// `hyprctl status` names a Lua configuration.
pub fn is_lua_status(status: &str) -> (r: bool)
    ensures
        r == line_starts_with(status@, "configProvider: lua"@),
{
    let p = "configProvider: lua";
    let m = p.unicode_len();
    let n = status.unicode_len();
    if m > n {
        proof {
            assert forall|i: int| 0 <= i && i + m <= n implies !(#[trigger] status@.subrange(i, i + m) == p@) by {}
        }
        return false;
    }
    let mut i: usize = 0;
    while i <= n - m
        invariant_except_break
            i <= n - m,
        invariant
            p@ == "configProvider: lua"@,
            n == status@.len(),
            m == p@.len(),
            m <= n,
            forall|k: int| 0 <= k < i && (k == 0 || status@[k - 1] == '\n') ==> #[trigger] status@.subrange(k, k + m) != p@,
        ensures
            forall|k: int| 0 <= k <= n - m && (k == 0 || status@[k - 1] == '\n') ==> #[trigger] status@.subrange(k, k + m) != p@,
        decreases n - m - i,
    {
        let at_line = i == 0 || status.get_char(i - 1) == '\n';
        if at_line {
            let part = crate::text::substring(status, i, i + m);
            if str_eq(part.as_str(), p) {
                assert(status@.subrange(i as int, i + m) == p@);
                assert(i == 0 || status@[i - 1] == '\n');
                return true;
            }
        }
        if i == n - m {
            break;
        }
        i = i + 1;
    }
    false
}

/// The Lua expression a command becomes on Lua configurations; switching
/// the keyboard layout has none, it goes through `hyprctl switchxkblayout`.
pub open spec fn lua_command(cmd: CompositorCommand) -> Option<Seq<char>> {
    match cmd {
        CompositorCommand::FocusWorkspace(id) => Some(
            "hl.dispatch(hl.dsp.focus({ workspace = "@ + decimal(id as int) + " }))"@,
        ),
        CompositorCommand::FocusSpecialWorkspace(name) => Some(
            "hl.dispatch(hl.dsp.focus({ workspace = \"special:"@ + name@ + "\" }))"@,
        ),
        CompositorCommand::ToggleSpecialWorkspace(name) => Some(
            "hl.dispatch(hl.dsp.workspace.toggle_special(\""@ + name@ + "\"))"@,
        ),
        CompositorCommand::FocusMonitor(id) => Some(
            "hl.dispatch(hl.dsp.focus({ monitor = "@ + decimal(id as int) + " }))"@,
        ),
        CompositorCommand::ScrollWorkspace(dir) => Some(
            "hl.dispatch(hl.dsp.focus({ workspace = \""@ + (if dir > 0 {
                "+1"@
            } else {
                "-1"@
            }) + "\" }))"@,
        ),
        CompositorCommand::NextLayout => None,
        CompositorCommand::CustomDispatch(dispatcher, args) => Some(
            "hl.dispatch(hl.dsp."@ + dispatcher@ + "("@ + args@ + "))"@,
        ),
    }
}

pub fn lua_dispatch(cmd: &CompositorCommand) -> (r: Option<String>)
    ensures
        match r {
            Some(s) => lua_command(*cmd) == Some(s@),
            None => lua_command(*cmd) is None,
        },
{
    match cmd {
        CompositorCommand::FocusWorkspace(id) => {
            let mut s = "hl.dispatch(hl.dsp.focus({ workspace = ".to_owned();
            let d = i64_to_string(*id as i64);
            push_str(&mut s, d.as_str());
            push_str(&mut s, " }))");
            assert(s@ =~= "hl.dispatch(hl.dsp.focus({ workspace = "@ + decimal(*id as int) + " }))"@);
            Some(s)
        },
        CompositorCommand::FocusSpecialWorkspace(name) => {
            let mut s = "hl.dispatch(hl.dsp.focus({ workspace = \"special:".to_owned();
            push_str(&mut s, name.as_str());
            push_str(&mut s, "\" }))");
            assert(s@ =~= "hl.dispatch(hl.dsp.focus({ workspace = \"special:"@ + name@ + "\" }))"@);
            Some(s)
        },
        CompositorCommand::ToggleSpecialWorkspace(name) => {
            let mut s = "hl.dispatch(hl.dsp.workspace.toggle_special(\"".to_owned();
            push_str(&mut s, name.as_str());
            push_str(&mut s, "\"))");
            assert(s@ =~= "hl.dispatch(hl.dsp.workspace.toggle_special(\""@ + name@ + "\"))"@);
            Some(s)
        },
        CompositorCommand::FocusMonitor(id) => {
            let mut s = "hl.dispatch(hl.dsp.focus({ monitor = ".to_owned();
            let d = i128_to_string(*id);
            push_str(&mut s, d.as_str());
            push_str(&mut s, " }))");
            assert(s@ =~= "hl.dispatch(hl.dsp.focus({ monitor = "@ + decimal(*id as int) + " }))"@);
            Some(s)
        },
        CompositorCommand::ScrollWorkspace(dir) => {
            let mut s = "hl.dispatch(hl.dsp.focus({ workspace = \"".to_owned();
            let d = if *dir > 0 {
                "+1"
            } else {
                "-1"
            };
            push_str(&mut s, d);
            push_str(&mut s, "\" }))");
            assert(s@ =~= "hl.dispatch(hl.dsp.focus({ workspace = \""@ + d@ + "\" }))"@);
            Some(s)
        },
        CompositorCommand::NextLayout => None,
        CompositorCommand::CustomDispatch(dispatcher, args) => {
            let mut s = "hl.dispatch(hl.dsp.".to_owned();
            push_str(&mut s, dispatcher.as_str());
            push_str(&mut s, "(");
            push_str(&mut s, args.as_str());
            push_str(&mut s, "))");
            assert(s@ =~= "hl.dispatch(hl.dsp."@ + dispatcher@ + "("@ + args@ + "))"@);
            Some(s)
        },
    }
}

/// A dispatch of the classic (hyprlang) socket protocol.
pub enum HyprDispatch {
    Workspace(i32),
    SpecialWorkspace(String),
    ToggleSpecialWorkspace(String),
    FocusMonitor(i128),
    /// A relative workspace move, +1 or -1.
    RelativeWorkspace(i32),
    NextLayout,
    Custom(String, String),
}

/// The classic dispatch of a request of the bar: a scroll with a positive
/// direction goes one workspace up, any other one down.
pub fn hyprlang_dispatch(cmd: CompositorCommand) -> (r: HyprDispatch)
    ensures
        match cmd {
            CompositorCommand::FocusWorkspace(id) => r == HyprDispatch::Workspace(id),
            CompositorCommand::FocusSpecialWorkspace(n) => r matches HyprDispatch::SpecialWorkspace(m) && m@ == n@,
            CompositorCommand::ToggleSpecialWorkspace(n) => r matches HyprDispatch::ToggleSpecialWorkspace(m) && m@ == n@,
            CompositorCommand::FocusMonitor(id) => r == HyprDispatch::FocusMonitor(id),
            CompositorCommand::ScrollWorkspace(dir) => r == HyprDispatch::RelativeWorkspace(
                if dir > 0 {
                    1i32
                } else {
                    -1i32
                },
            ),
            CompositorCommand::NextLayout => r == HyprDispatch::NextLayout,
            CompositorCommand::CustomDispatch(d, a) => r matches HyprDispatch::Custom(x, y) && x@ == d@ && y@ == a@,
        },
{
    match cmd {
        CompositorCommand::FocusWorkspace(id) => HyprDispatch::Workspace(id),
        CompositorCommand::FocusSpecialWorkspace(n) => HyprDispatch::SpecialWorkspace(n),
        CompositorCommand::ToggleSpecialWorkspace(n) => HyprDispatch::ToggleSpecialWorkspace(n),
        CompositorCommand::FocusMonitor(id) => HyprDispatch::FocusMonitor(id),
        CompositorCommand::ScrollWorkspace(dir) => HyprDispatch::RelativeWorkspace(
            if dir > 0 {
                1
            } else {
                -1
            },
        ),
        CompositorCommand::NextLayout => HyprDispatch::NextLayout,
        CompositorCommand::CustomDispatch(d, a) => HyprDispatch::Custom(d, a),
    }
}

} // verus!
