//! Generic Wayland backend: the state built from `wl_output`,
//! `ext-workspace-v1` and `wlr-foreign-toplevel-management` events, mapped
//! onto the compositor state.

use super::types::{
    ActiveWindow, ActiveWindowGeneric, CompositorMonitor, CompositorState, CompositorWorkspace,
};
use crate::text::u32_of;
use vstd::prelude::*;

verus! {

/// An output and its connector name.
pub struct OutputEntry {
    pub global_name: u32,
    pub name: String,
}

/// A workspace group: the outputs it spans and its workspaces.
pub struct GroupEntry {
    pub outputs: Vec<u32>,
    pub workspaces: Vec<u32>,
}

/// A workspace: the id handed to the bar, its name and state, its group.
pub struct WorkspaceEntry {
    pub numeric_id: i32,
    pub name: String,
    pub active: bool,
    pub urgent: bool,
    pub group: Option<u32>,
}

/// A toplevel window.
pub struct ToplevelEntry {
    pub title: String,
    pub app_id: String,
    pub activated: bool,
}

/// The protocol objects, by object id: outputs in announcement order,
/// groups in the order they are kept here, workspaces and toplevels with
/// their creation order; the registry names of the bound managers; and
/// whether the state changed since it was last published, and whether the
/// set of workspaces did.
pub struct GenericState {
    pub outputs: Vec<(u32, OutputEntry)>,
    pub groups: Vec<(u32, GroupEntry)>,
    pub workspaces: Vec<(u32, WorkspaceEntry)>,
    pub workspace_order: Vec<u32>,
    pub next_workspace_id: i32,
    pub toplevels: Vec<(u32, ToplevelEntry)>,
    pub toplevel_order: Vec<u32>,
    pub workspace_manager: Option<u32>,
    pub toplevel_manager: Option<u32>,
    pub dirty: bool,
    pub handles_changed: bool,
}

/// The entry of the first pair with key `k`.
pub open spec fn lookup<V>(s: Seq<(u32, V)>, k: u32) -> Option<V>
    decreases s.len(),
{
    if s.len() == 0 {
        None
    } else if s[0].0 == k {
        Some(s[0].1)
    } else {
        lookup(s.drop_first(), k)
    }
}

/// The position of the first pair with key `k`.
pub open spec fn position<V>(s: Seq<(u32, V)>, k: u32) -> Option<int>
    decreases s.len(),
{
    if s.len() == 0 {
        None
    } else if s[0].0 == k {
        Some(0)
    } else {
        match position(s.drop_first(), k) {
            Some(i) => Some(i + 1),
            None => None,
        }
    }
}

fn find_key<V>(s: &Vec<(u32, V)>, k: u32) -> (r: Option<usize>)
    ensures
        match r {
            Some(i) => i < s@.len() && position(s@, k) == Some(i as int) && lookup(s@, k) == Some(
                s@[i as int].1,
            ),
            None => position(s@, k) is None && lookup(s@, k) is None,
        },
{
    let mut i: usize = 0;
    assert(s@.skip(0) =~= s@);
    while i < s.len()
        invariant
            i <= s@.len(),
            lookup(s@, k) == lookup(s@.skip(i as int), k),
            position(s@, k) == match position(s@.skip(i as int), k) {
                Some(j) => Some(j + i),
                None => None::<int>,
            },
        decreases s@.len() - i,
    {
        assert(s@.skip(i as int).drop_first() =~= s@.skip(i + 1));
        assert(s@.skip(i as int)[0] == s@[i as int]);
        if s[i].0 == k {
            return Some(i);
        }
        i = i + 1;
    }
    None
}

/// The entries of the objects in `order` that exist, in that order.
pub open spec fn in_order<V>(order: Seq<u32>, s: Seq<(u32, V)>) -> Seq<V>
    decreases order.len(),
{
    if order.len() == 0 {
        Seq::empty()
    } else {
        in_order(order.drop_last(), s) + match lookup(s, order.last()) {
            Some(v) => seq![v],
            None => Seq::empty(),
        }
    }
}

/// The monitor of a workspace: the first output of its group, by name and
/// position; none when the group, its output or the output is unknown.
pub open spec fn monitor_of(st: GenericState, ws: WorkspaceEntry) -> (Seq<char>, Option<i128>) {
    match ws.group {
        Some(g) => match lookup(st.groups@, g) {
            Some(ge) => if ge.outputs@.len() > 0 {
                match position(st.outputs@, ge.outputs@[0]) {
                    Some(i) => (st.outputs@[i].1.name@, Some(i as i128)),
                    None => (Seq::<char>::empty(), None::<i128>),
                }
            } else {
                (Seq::<char>::empty(), None::<i128>)
            },
            None => (Seq::<char>::empty(), None::<i128>),
        },
        None => (Seq::<char>::empty(), None::<i128>),
    }
}

/// The bar index of the workspace at display position `pos`: its name when
/// that is a positive `i32`, else its position counted from 1.
pub open spec fn generic_index(name: Seq<char>, pos: int) -> i32 {
    match u32_of(name) {
        Some(v) => if 0 < v && v <= i32::MAX {
            v as i32
        } else {
            (pos + 1) as i32
        },
        None => (pos + 1) as i32,
    }
}

/// `w` is what the bar shows of workspace `ws` at display position `pos`;
/// ext-workspace counts no windows, so every workspace shows one.
pub open spec fn generic_workspace(w: CompositorWorkspace, st: GenericState, ws: WorkspaceEntry, pos: int) -> bool {
    &&& w.id == ws.numeric_id
    &&& w.index == generic_index(ws.name@, pos)
    &&& w.name@ == ws.name@
    &&& w.monitor@ == monitor_of(st, ws).0
    &&& w.monitor_id == monitor_of(st, ws).1
    &&& w.windows == 1
    &&& !w.is_special
    &&& w.has_urgent == ws.urgent
    &&& w.window_classes@.len() == 0
}

/// The first group (in walk order) that spans the output.
pub open spec fn group_of_output(groups: Seq<(u32, GroupEntry)>, oid: u32) -> Option<GroupEntry>
    decreases groups.len(),
{
    if groups.len() == 0 {
        None
    } else if groups[0].1.outputs@.contains(oid) {
        Some(groups[0].1)
    } else {
        group_of_output(groups.drop_first(), oid)
    }
}

/// The first active workspace of a list.
pub open spec fn first_active(ws: Seq<WorkspaceEntry>) -> Option<i32>
    decreases ws.len(),
{
    if ws.len() == 0 {
        None
    } else if ws[0].active {
        Some(ws[0].numeric_id)
    } else {
        first_active(ws.drop_first())
    }
}

/// The workspace an output shows: the first active workspace of the first
/// group spanning it, -1 for none.
pub open spec fn output_workspace(st: GenericState, oid: u32) -> i32 {
    match group_of_output(st.groups@, oid) {
        Some(g) => match first_active(in_order(g.workspaces@, st.workspaces@)) {
            Some(id) => id,
            None => -1i32,
        },
        None => -1i32,
    }
}

/// The ids of the active workspaces, in display order (one per group).
pub open spec fn active_ids(ws: Seq<WorkspaceEntry>) -> Seq<i32>
    decreases ws.len(),
{
    if ws.len() == 0 {
        Seq::empty()
    } else {
        active_ids(ws.drop_last()) + if ws.last().active {
            seq![ws.last().numeric_id]
        } else {
            Seq::empty()
        }
    }
}

/// The first activated toplevel, in creation order.
pub open spec fn first_activated(ts: Seq<ToplevelEntry>) -> Option<ToplevelEntry>
    decreases ts.len(),
{
    if ts.len() == 0 {
        None
    } else if ts[0].activated {
        Some(ts[0])
    } else {
        first_activated(ts.drop_first())
    }
}

fn ordered_indices<V>(order: &Vec<u32>, s: &Vec<(u32, V)>) -> (r: Vec<usize>)
    ensures
        r@.len() == in_order(order@, s@).len(),
        forall|i: int| 0 <= i < r@.len() ==> (#[trigger] r@[i]) < s@.len() && s@[r@[i] as int].1 == in_order(order@, s@)[i],
{
    let mut r: Vec<usize> = Vec::new();
    let mut i: usize = 0;
    while i < order.len()
        invariant
            i <= order@.len(),
            r@.len() == in_order(order@.take(i as int), s@).len(),
            forall|j: int| 0 <= j < r@.len() ==> (#[trigger] r@[j]) < s@.len() && s@[r@[j] as int].1 == in_order(order@.take(i as int), s@)[j],
        decreases order@.len() - i,
    {
        let ghost t = order@.take(i + 1);
        assert(t.drop_last() =~= order@.take(i as int));
        assert(t.last() == order@[i as int]);
        match find_key(s, order[i]) {
            Some(k) => {
                r.push(k);
            },
            None => {},
        }
        i = i + 1;
    }
    assert(order@.take(order@.len() as int) =~= order@);
    r
}

fn contains_id(v: &Vec<u32>, x: u32) -> (r: bool)
    ensures
        r == v@.contains(x),
{
    let mut i: usize = 0;
    while i < v.len()
        invariant
            i <= v@.len(),
            forall|j: int| 0 <= j < i ==> v@[j] != x,
        decreases v@.len() - i,
    {
        if v[i] == x {
            assert(v@[i as int] == x);
            return true;
        }
        i = i + 1;
    }
    false
}

impl GenericState {
    fn workspace_monitor(&self, ws: &WorkspaceEntry) -> (r: (String, Option<i128>))
        ensures
            r.0@ == monitor_of(*self, *ws).0,
            r.1 == monitor_of(*self, *ws).1,
    {
        if let Some(g) = ws.group {
            if let Some(gi) = find_key(&self.groups, g) {
                let ge = &self.groups[gi].1;
                if ge.outputs.len() > 0 {
                    if let Some(i) = find_key(&self.outputs, ge.outputs[0]) {
                        return (self.outputs[i].1.name.clone(), Some(i as i128));
                    }
                }
            }
        }
        (String::new(), None)
    }

    fn output_active(&self, oid: u32) -> (r: i32)
        ensures
            r == output_workspace(*self, oid),
    {
        let mut gi: usize = 0;
        assert(self.groups@.skip(0) =~= self.groups@);
        while gi < self.groups.len()
            invariant
                gi <= self.groups@.len(),
                group_of_output(self.groups@, oid) == group_of_output(self.groups@.skip(gi as int), oid),
            decreases self.groups@.len() - gi,
        {
            assert(self.groups@.skip(gi as int).drop_first() =~= self.groups@.skip(gi + 1));
            assert(self.groups@.skip(gi as int)[0] == self.groups@[gi as int]);
            if contains_id(&self.groups[gi].1.outputs, oid) {
                let idx = ordered_indices(&self.groups[gi].1.workspaces, &self.workspaces);
                let ghost ws = in_order(self.groups@[gi as int].1.workspaces@, self.workspaces@);
                let ghost g = self.groups@[gi as int].1;
                assert(group_of_output(self.groups@, oid) == Some(g));
                let mut j: usize = 0;
                assert(ws.skip(0) =~= ws);
                while j < idx.len()
                    invariant
                        group_of_output(self.groups@, oid) == Some(g),
                        ws == in_order(g.workspaces@, self.workspaces@),
                        j <= idx@.len(),
                        idx@.len() == ws.len(),
                        forall|q: int| 0 <= q < idx@.len() ==> (#[trigger] idx@[q]) < self.workspaces@.len() && self.workspaces@[idx@[q] as int].1 == ws[q],
                        first_active(ws) == first_active(ws.skip(j as int)),
                    decreases idx@.len() - j,
                {
                    assert(ws.skip(j as int).drop_first() =~= ws.skip(j + 1));
                    assert(ws.skip(j as int)[0] == ws[j as int]);
                    let w = &self.workspaces[idx[j]].1;
                    if w.active {
                        return w.numeric_id;
                    }
                    j = j + 1;
                }
                return -1;
            }
            gi = gi + 1;
        }
        -1
    }

    /// The bar's state: workspaces in display order, outputs with the
    /// workspace they show, the active workspaces and window. ext-workspace
    /// reports no keyboard layout or submap.
    pub fn build_state(&self) -> (state: CompositorState)
        requires
            self.workspace_order@.len() < i32::MAX,
        ensures
            ({
                let ws = in_order(self.workspace_order@, self.workspaces@);
                &&& state.workspaces@.len() == ws.len()
                &&& forall|i: int|
                    0 <= i < ws.len() ==> generic_workspace(#[trigger] state.workspaces@[i], *self, ws[i], i)
                &&& state.monitors@.len() == self.outputs@.len()
                &&& forall|i: int|
                    0 <= i < self.outputs@.len() ==> {
                        let m = #[trigger] state.monitors@[i];
                        &&& m.id == i
                        &&& m.name@ == self.outputs@[i].1.name@
                        &&& m.active_workspace_id == output_workspace(*self, self.outputs@[i].0)
                        &&& m.special_workspace_id == -1
                    }
                &&& state.active_workspace_ids@ == active_ids(ws)
                &&& match first_activated(in_order(self.toplevel_order@, self.toplevels@)) {
                    Some(t) => state.active_window matches Some(ActiveWindow::Generic(a)) && a.title@
                        == t.title@ && a.class@ == t.app_id@,
                    None => state.active_window is None,
                }
                &&& state.keyboard_layout@.len() == 0
                &&& state.submap is None
            }),
    {
        let ghost ws_seq = in_order(self.workspace_order@, self.workspaces@);
        let idx = ordered_indices(&self.workspace_order, &self.workspaces);
        proof {
            lemma_in_order_len(self.workspace_order@, self.workspaces@);
        }
        let mut workspaces: Vec<CompositorWorkspace> = Vec::new();
        let mut active_workspace_ids: Vec<i32> = Vec::new();
        let mut pos: usize = 0;
        while pos < idx.len()
            invariant
                idx@.len() == ws_seq.len(),
                ws_seq.len() < i32::MAX,
                ws_seq == in_order(self.workspace_order@, self.workspaces@),
                forall|q: int| 0 <= q < idx@.len() ==> (#[trigger] idx@[q]) < self.workspaces@.len() && self.workspaces@[idx@[q] as int].1 == ws_seq[q],
                pos <= idx@.len(),
                workspaces@.len() == pos,
                forall|i: int| 0 <= i < pos ==> generic_workspace(#[trigger] workspaces@[i], *self, ws_seq[i], i),
                active_workspace_ids@ == active_ids(ws_seq.take(pos as int)),
            decreases idx@.len() - pos,
        {
            assert(ws_seq.take(pos + 1).drop_last() =~= ws_seq.take(pos as int));
            let ws = &self.workspaces[idx[pos]].1;
            let (monitor, monitor_id) = self.workspace_monitor(ws);
            let index = match crate::text::parse_u32(ws.name.as_str()) {
                Some(v) => if 0 < v && v <= 2147483647 {
                    v as i32
                } else {
                    pos as i32 + 1
                },
                None => pos as i32 + 1,
            };
            workspaces.push(
                CompositorWorkspace {
                    id: ws.numeric_id,
                    index,
                    name: ws.name.clone(),
                    monitor,
                    monitor_id,
                    windows: 1,
                    is_special: false,
                    has_urgent: ws.urgent,
                    window_classes: Vec::new(),
                },
            );
            if ws.active {
                active_workspace_ids.push(ws.numeric_id);
            }
            pos = pos + 1;
        }
        assert(ws_seq.take(ws_seq.len() as int) =~= ws_seq);

        let mut monitors: Vec<CompositorMonitor> = Vec::new();
        let mut i: usize = 0;
        while i < self.outputs.len()
            invariant
                i <= self.outputs@.len(),
                monitors@.len() == i,
                forall|j: int|
                    0 <= j < i ==> {
                        let m = #[trigger] monitors@[j];
                        &&& m.id == j
                        &&& m.name@ == self.outputs@[j].1.name@
                        &&& m.active_workspace_id == output_workspace(*self, self.outputs@[j].0)
                        &&& m.special_workspace_id == -1
                    },
            decreases self.outputs@.len() - i,
        {
            let active = self.output_active(self.outputs[i].0);
            monitors.push(
                CompositorMonitor {
                    id: i as i128,
                    name: self.outputs[i].1.name.clone(),
                    active_workspace_id: active,
                    special_workspace_id: -1,
                },
            );
            i = i + 1;
        }

        let active_window = self.active_toplevel();
        CompositorState {
            workspaces,
            monitors,
            active_workspace_ids,
            active_window,
            keyboard_layout: String::new(),
            submap: None,
        }
    }

    fn active_toplevel(&self) -> (r: Option<ActiveWindow>)
        ensures
            match first_activated(in_order(self.toplevel_order@, self.toplevels@)) {
                Some(t) => r matches Some(ActiveWindow::Generic(a)) && a.title@ == t.title@ && a.class@
                    == t.app_id@,
                None => r is None,
            },
    {
        let tidx = ordered_indices(&self.toplevel_order, &self.toplevels);
        let ghost ts = in_order(self.toplevel_order@, self.toplevels@);
        let mut j: usize = 0;
        assert(ts.skip(0) =~= ts);
        while j < tidx.len()
            invariant
                j <= tidx@.len(),
                tidx@.len() == ts.len(),
                ts == in_order(self.toplevel_order@, self.toplevels@),
                forall|q: int| 0 <= q < tidx@.len() ==> (#[trigger] tidx@[q]) < self.toplevels@.len() && self.toplevels@[tidx@[q] as int].1 == ts[q],
                first_activated(ts) == first_activated(ts.skip(j as int)),
            decreases tidx@.len() - j,
        {
            assert(ts.skip(j as int).drop_first() =~= ts.skip(j + 1));
            assert(ts.skip(j as int)[0] == ts[j as int]);
            let t = &self.toplevels[tidx[j]].1;
            if t.activated {
                return Some(
                    ActiveWindow::Generic(
                        ActiveWindowGeneric { title: t.title.clone(), class: t.app_id.clone() },
                    ),
                );
            }
            j = j + 1;
        }
        None
    }
}

proof fn lemma_in_order_len<V>(order: Seq<u32>, s: Seq<(u32, V)>)
    ensures
        in_order(order, s).len() <= order.len(),
    decreases order.len(),
{
    if order.len() > 0 {
        lemma_in_order_len(order.drop_last(), s);
    }
}

} // verus!
