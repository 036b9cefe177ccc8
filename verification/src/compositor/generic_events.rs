//! The generic Wayland backend's event handling: how each protocol event
//! changes the objects kept in [`GenericState`], as maps from object ids.

use super::generic::{lookup, GenericState, GroupEntry, OutputEntry, ToplevelEntry, WorkspaceEntry};
use super::types::{command_text, unsupported, CompositorCommand};
use crate::text::{str_eq, u32_native, le_u32, be_u32};
use vstd::prelude::*;

verus! {

/// No object id occurs twice.
pub open spec fn distinct_keys<V>(s: Seq<(u32, V)>) -> bool {
    forall|i: int, j: int| 0 <= i < j < s.len() ==> #[trigger] s[i].0 != #[trigger] s[j].0
}

pub proof fn lemma_lookup<V>(s: Seq<(u32, V)>, k: u32)
    requires
        distinct_keys(s),
    ensures
        lookup(s, k) is None <==> forall|i: int| 0 <= i < s.len() ==> s[i].0 != k,
        forall|i: int| 0 <= i < s.len() && s[i].0 == k ==> lookup(s, k) == Some(s[i].1),
    decreases s.len(),
{
    if s.len() > 0 {
        let t = s.drop_first();
        assert(distinct_keys(t)) by {
            assert forall|i: int, j: int| 0 <= i < j < t.len() implies #[trigger] t[i].0 != #[trigger] t[j].0 by {
                assert(s[i + 1].0 != s[j + 1].0);
            }
        }
        lemma_lookup(t, k);
        assert forall|i: int| 0 <= i < s.len() && s[i].0 == k implies lookup(s, k) == Some(s[i].1) by {
            if i > 0 {
                assert(t[i - 1] == s[i]);
                assert(s[0].0 != s[i].0);
            }
        }
        if s[0].0 != k {
            if forall|i: int| 0 <= i < t.len() ==> t[i].0 != k {
                assert forall|i: int| 0 <= i < s.len() implies s[i].0 != k by {
                    if i > 0 {
                        assert(t[i - 1] == s[i]);
                    }
                }
            } else {
                let i = choose|i: int| 0 <= i < t.len() && t[i].0 == k;
                assert(s[i + 1] == t[i]);
            }
        }
    }
}

/// The map operations agree: `t` holds `s`'s entries except at `k`.
pub open spec fn same_except<V>(t: Seq<(u32, V)>, s: Seq<(u32, V)>, k: u32) -> bool {
    forall|q: u32| q != k ==> #[trigger] lookup(t, q) == lookup(s, q)
}

fn find_key<V>(s: &Vec<(u32, V)>, k: u32) -> (r: Option<usize>)
    requires
        distinct_keys(s@),
    ensures
        match r {
            Some(i) => i < s@.len() && s@[i as int].0 == k && lookup(s@, k) == Some(s@[i as int].1),
            None => lookup(s@, k) is None,
        },
{
    proof {
        lemma_lookup(s@, k);
    }
    let mut i: usize = 0;
    while i < s.len()
        invariant
            distinct_keys(s@),
            i <= s@.len(),
            forall|j: int| 0 <= j < i ==> s@[j].0 != k,
        decreases s@.len() - i,
    {
        if s[i].0 == k {
            proof {
                lemma_lookup(s@, k);
                assert(s@[i as int].0 == k);
            }
            return Some(i);
        }
        i = i + 1;
    }
    None
}

/// Sets the entry of `k`, replacing the one there is.
fn put<V>(s: &mut Vec<(u32, V)>, k: u32, v: V)
    requires
        distinct_keys(old(s)@),
    ensures
        distinct_keys(final(s)@),
        lookup(final(s)@, k) == Some(v),
        same_except(final(s)@, old(s)@, k),
{
    let ghost before = s@;
    let found = find_key(s, k);
    let ghost mut at: int = 0;
    match found {
        Some(i) => {
            s.set(i, (k, v));
            proof {
                at = i as int;
            }
        },
        None => {
            proof {
                lemma_lookup(before, k);
            }
            s.push((k, v));
            proof {
                at = before.len() as int;
            }
        },
    }
    proof {
        let now = s@;
        assert(now[at] == (k, v));
        assert(forall|q: int| 0 <= q < now.len() && q != at ==> now[q] == before[q]);
        assert(distinct_keys(now)) by {
            assert forall|a: int, b: int| 0 <= a < b < now.len() implies #[trigger] now[a].0 != #[trigger] now[b].0 by {
                if a != at && b != at {
                    assert(now[a] == before[a] && now[b] == before[b]);
                } else if a == at {
                    assert(now[b] == before[b]);
                } else {
                    assert(now[a] == before[a]);
                }
            }
        }
        lemma_lookup(now, k);
        assert forall|q: u32| q != k implies #[trigger] lookup(now, q) == lookup(before, q) by {
            lemma_lookup(now, q);
            lemma_lookup(before, q);
            if lookup(before, q) is Some {
                let j = choose|j: int| 0 <= j < before.len() && before[j].0 == q;
                assert(now[j] == before[j]);
            } else if lookup(now, q) is Some {
                let j = choose|j: int| 0 <= j < now.len() && now[j].0 == q;
                assert(now[j] == before[j]);
            }
        }
    }
}

/// Removes the entry of `k`, keeping the others in order.
fn drop_key<V>(s: &mut Vec<(u32, V)>, k: u32)
    requires
        distinct_keys(old(s)@),
    ensures
        distinct_keys(final(s)@),
        lookup(final(s)@, k) is None,
        same_except(final(s)@, old(s)@, k),
        forall|q: u32| lookup(old(s)@, q) is None ==> lookup(final(s)@, q) is None,
{
    let ghost before = s@;
    proof {
        lemma_lookup(before, k);
    }
    match find_key(s, k) {
        Some(i) => {
            let _ = s.remove(i);
            proof {
                let now = s@;
                assert(now =~= before.remove(i as int));
                assert(distinct_keys(now)) by {
                    assert forall|a: int, b: int| 0 <= a < b < now.len() implies #[trigger] now[a].0 != #[trigger] now[b].0 by {
                        let a2 = if a < i { a } else { a + 1 };
                        let b2 = if b < i { b } else { b + 1 };
                        assert(now[a] == before[a2] && now[b] == before[b2]);
                    }
                }
                lemma_lookup(now, k);
                assert forall|q: int| 0 <= q < now.len() implies now[q].0 != k by {
                    let q2 = if q < i { q } else { q + 1 };
                    assert(now[q] == before[q2]);
                }
                assert forall|q: u32| q != k implies #[trigger] lookup(now, q) == lookup(before, q) by {
                    lemma_lookup(now, q);
                    lemma_lookup(before, q);
                    if lookup(before, q) is Some {
                        let j = choose|j: int| 0 <= j < before.len() && before[j].0 == q;
                        assert(j != i);
                        let j2 = if j < i { j } else { j - 1 };
                        assert(now[j2] == before[j]);
                    } else if lookup(now, q) is Some {
                        let j = choose|j: int| 0 <= j < now.len() && now[j].0 == q;
                        let j2 = if j < i { j } else { j + 1 };
                        assert(now[j] == before[j2]);
                    }
                }
                assert forall|q: u32| lookup(before, q) is None implies lookup(now, q) is None by {
                    lemma_lookup(now, q);
                    lemma_lookup(before, q);
                    if lookup(now, q) is Some {
                        let j = choose|j: int| 0 <= j < now.len() && now[j].0 == q;
                        let j2 = if j < i { j } else { j + 1 };
                        assert(now[j] == before[j2]);
                    }
                }
            }
        },
        None => {},
    }
}

/// Removes every occurrence of `x`, keeping the rest in order.
fn drop_all(v: &mut Vec<u32>, x: u32)
    ensures
        final(v)@ == old(v)@.filter(|y: u32| y != x),
{
    let ghost pred = |y: u32| y != x;
    let ghost all = v@;
    let mut kept: Vec<u32> = Vec::new();
    let mut i: usize = 0;
    while i < v.len()
        invariant
            pred == (|y: u32| y != x),
            all == v@,
            i <= v@.len(),
            kept@ == v@.take(i as int).filter(pred),
        decreases v@.len() - i,
    {
        proof {
            v@.take(i as int).lemma_filter_push(v@[i as int], pred);
            assert(v@.take(i + 1) =~= v@.take(i as int).push(v@[i as int]));
        }
        if v[i] != x {
            kept.push(v[i]);
        }
        i = i + 1;
    }
    assert(v@.take(v@.len() as int) =~= v@);
    *v = kept;
}

fn copy_ids(v: &Vec<u32>) -> (r: Vec<u32>)
    ensures
        r@ == v@,
{
    let mut r: Vec<u32> = Vec::new();
    let mut i: usize = 0;
    while i < v.len()
        invariant
            i <= v@.len(),
            r@ == v@.take(i as int),
        decreases v@.len() - i,
    {
        r.push(v[i]);
        assert(r@ =~= v@.take(i + 1));
        i = i + 1;
    }
    assert(v@.take(v@.len() as int) =~= v@);
    r
}

/// A global the generic backend binds.
#[derive(Clone, Copy, PartialEq, Eq, Structural, Debug)]
pub enum GlobalBind {
    Nothing,
    Output,
    WorkspaceManager,
    ToplevelManager,
}

/// The position of the first output with the registry name.
pub open spec fn output_with_name(outputs: Seq<(u32, OutputEntry)>, name: u32) -> Option<int>
    decreases outputs.len(),
{
    if outputs.len() == 0 {
        None
    } else if outputs[0].1.global_name == name {
        Some(0)
    } else {
        match output_with_name(outputs.drop_first(), name) {
            Some(i) => Some(i + 1),
            None => None,
        }
    }
}

/// The position of the first output with the object id.
pub open spec fn output_with_id(outputs: Seq<(u32, OutputEntry)>, id: u32) -> Option<int>
    decreases outputs.len(),
{
    if outputs.len() == 0 {
        None
    } else if outputs[0].0 == id {
        Some(0)
    } else {
        match output_with_id(outputs.drop_first(), id) {
            Some(i) => Some(i + 1),
            None => None,
        }
    }
}

proof fn lemma_output_with_name(outputs: Seq<(u32, OutputEntry)>, name: u32, k: int)
    requires
        0 <= k <= outputs.len(),
        forall|j: int| 0 <= j < k ==> outputs[j].1.global_name != name,
        k < outputs.len() ==> outputs[k].1.global_name == name,
    ensures
        output_with_name(outputs, name) == if k < outputs.len() {
            Some(k)
        } else {
            None::<int>
        },
    decreases k,
{
    if k > 0 {
        lemma_output_with_name(outputs.drop_first(), name, k - 1);
    }
}

proof fn lemma_output_with_id(outputs: Seq<(u32, OutputEntry)>, id: u32, k: int)
    requires
        0 <= k <= outputs.len(),
        forall|j: int| 0 <= j < k ==> outputs[j].0 != id,
        k < outputs.len() ==> outputs[k].0 == id,
    ensures
        output_with_id(outputs, id) == if k < outputs.len() {
            Some(k)
        } else {
            None::<int>
        },
    decreases k,
{
    if k > 0 {
        lemma_output_with_id(outputs.drop_first(), id, k - 1);
    }
}

impl GenericState {
    /// Groups, workspaces and toplevels are each held once per object id.
    pub open spec fn wf(&self) -> bool {
        &&& distinct_keys(self.groups@)
        &&& distinct_keys(self.workspaces@)
        &&& distinct_keys(self.toplevels@)
    }

    /// Nothing known yet.
    pub fn new() -> (r: Self)
        ensures
            r.wf(),
            r.outputs@.len() == 0 && r.groups@.len() == 0 && r.workspaces@.len() == 0,
            r.workspace_order@.len() == 0 && r.toplevels@.len() == 0 && r.toplevel_order@.len() == 0,
            r.next_workspace_id == 0,
            r.workspace_manager is None && r.toplevel_manager is None,
            !r.dirty && !r.handles_changed,
    {
        GenericState {
            outputs: Vec::new(),
            groups: Vec::new(),
            workspaces: Vec::new(),
            workspace_order: Vec::new(),
            next_workspace_id: 0,
            toplevels: Vec::new(),
            toplevel_order: Vec::new(),
            workspace_manager: None,
            toplevel_manager: None,
            dirty: false,
            handles_changed: false,
        }
    }

    /// A global is announced: every output is bound; the workspace and
    /// toplevel managers are bound once, their registry names kept.
    pub fn on_global(&mut self, name: u32, interface: &str) -> (r: GlobalBind)
        ensures
            r == if interface@ == "wl_output"@ {
                GlobalBind::Output
            } else if interface@ == "ext_workspace_manager_v1"@ && old(self).workspace_manager is None {
                GlobalBind::WorkspaceManager
            } else if interface@ == "zwlr_foreign_toplevel_manager_v1"@ && old(self).toplevel_manager is None {
                GlobalBind::ToplevelManager
            } else {
                GlobalBind::Nothing
            },
            final(self).workspace_manager == if r == GlobalBind::WorkspaceManager {
                Some(name)
            } else {
                old(self).workspace_manager
            },
            final(self).toplevel_manager == if r == GlobalBind::ToplevelManager {
                Some(name)
            } else {
                old(self).toplevel_manager
            },
            final(self).outputs@ == old(self).outputs@,
            final(self).groups@ == old(self).groups@,
            final(self).workspaces@ == old(self).workspaces@,
            final(self).workspace_order@ == old(self).workspace_order@,
            final(self).next_workspace_id == old(self).next_workspace_id,
            final(self).toplevels@ == old(self).toplevels@,
            final(self).toplevel_order@ == old(self).toplevel_order@,
            final(self).dirty == old(self).dirty,
            final(self).handles_changed == old(self).handles_changed,
    {
        if str_eq(interface, "wl_output") {
            GlobalBind::Output
        } else if str_eq(interface, "ext_workspace_manager_v1") && self.workspace_manager.is_none() {
            self.workspace_manager = Some(name);
            GlobalBind::WorkspaceManager
        } else if str_eq(interface, "zwlr_foreign_toplevel_manager_v1") && self.toplevel_manager.is_none() {
            self.toplevel_manager = Some(name);
            GlobalBind::ToplevelManager
        } else {
            GlobalBind::Nothing
        }
    }

    /// A bound output joins the outputs, last, still without a name.
    pub fn output_bound(&mut self, object: u32, global_name: u32)
        ensures
            final(self).outputs@.len() == old(self).outputs@.len() + 1,
            final(self).outputs@.drop_last() == old(self).outputs@,
            final(self).outputs@.last().0 == object,
            final(self).outputs@.last().1.global_name == global_name,
            final(self).outputs@.last().1.name@.len() == 0,
            final(self).dirty,
            final(self).groups@ == old(self).groups@,
            final(self).workspaces@ == old(self).workspaces@,
            final(self).workspace_order@ == old(self).workspace_order@,
            final(self).next_workspace_id == old(self).next_workspace_id,
            final(self).toplevels@ == old(self).toplevels@,
            final(self).toplevel_order@ == old(self).toplevel_order@,
            final(self).workspace_manager == old(self).workspace_manager,
            final(self).toplevel_manager == old(self).toplevel_manager,
            final(self).handles_changed == old(self).handles_changed,
    {
        self.outputs.push((object, OutputEntry { global_name, name: String::new() }));
        assert(self.outputs@.drop_last() =~= old(self).outputs@);
        self.dirty = true;
    }

    /// A global goes away: the first output with its name is dropped;
    /// else, when it is the workspace manager, its groups and workspaces go
    /// with it (and the workspace control is withdrawn: the result says
    /// so); else, when it is the toplevel manager, its toplevels go.
    pub fn on_global_remove(&mut self, name: u32) -> (withdraw: bool)
        requires
            old(self).wf(),
        ensures
            final(self).wf(),
            withdraw == (output_with_name(old(self).outputs@, name) is None && old(self).workspace_manager == Some(name)),
            match output_with_name(old(self).outputs@, name) {
                Some(i) => {
                    &&& final(self).outputs@ == old(self).outputs@.remove(i)
                    &&& final(self).dirty
                    &&& final(self).groups@ == old(self).groups@
                    &&& final(self).workspaces@ == old(self).workspaces@
                    &&& final(self).workspace_order@ == old(self).workspace_order@
                    &&& final(self).toplevels@ == old(self).toplevels@
                    &&& final(self).toplevel_order@ == old(self).toplevel_order@
                    &&& final(self).workspace_manager == old(self).workspace_manager
                    &&& final(self).toplevel_manager == old(self).toplevel_manager
                },
                None => if old(self).workspace_manager == Some(name) {
                    &&& final(self).workspace_manager is None
                    &&& final(self).groups@.len() == 0
                    &&& final(self).workspaces@.len() == 0
                    &&& final(self).workspace_order@.len() == 0
                    &&& final(self).dirty
                    &&& final(self).outputs@ == old(self).outputs@
                    &&& final(self).toplevels@ == old(self).toplevels@
                    &&& final(self).toplevel_order@ == old(self).toplevel_order@
                    &&& final(self).toplevel_manager == old(self).toplevel_manager
                } else if old(self).toplevel_manager == Some(name) {
                    &&& final(self).toplevel_manager is None
                    &&& final(self).toplevels@.len() == 0
                    &&& final(self).toplevel_order@.len() == 0
                    &&& final(self).dirty
                    &&& final(self).outputs@ == old(self).outputs@
                    &&& final(self).groups@ == old(self).groups@
                    &&& final(self).workspaces@ == old(self).workspaces@
                    &&& final(self).workspace_order@ == old(self).workspace_order@
                    &&& final(self).workspace_manager == old(self).workspace_manager
                } else {
                    &&& final(self).outputs@ == old(self).outputs@
                    &&& final(self).groups@ == old(self).groups@
                    &&& final(self).workspaces@ == old(self).workspaces@
                    &&& final(self).workspace_order@ == old(self).workspace_order@
                    &&& final(self).toplevels@ == old(self).toplevels@
                    &&& final(self).toplevel_order@ == old(self).toplevel_order@
                    &&& final(self).workspace_manager == old(self).workspace_manager
                    &&& final(self).toplevel_manager == old(self).toplevel_manager
                    &&& final(self).dirty == old(self).dirty
                },
            },
            final(self).next_workspace_id == old(self).next_workspace_id,
            final(self).handles_changed == old(self).handles_changed,
    {
        let mut i: usize = 0;
        while i < self.outputs.len()
            invariant
                *self == *old(self),
                self.wf(),
                i <= self.outputs@.len(),
                forall|j: int| 0 <= j < i ==> self.outputs@[j].1.global_name != name,
            decreases self.outputs@.len() - i,
        {
            if self.outputs[i].1.global_name == name {
                proof {
                    lemma_output_with_name(self.outputs@, name, i as int);
                }
                let _ = self.outputs.remove(i);
                self.dirty = true;
                return false;
            }
            i = i + 1;
        }
        proof {
            lemma_output_with_name(self.outputs@, name, self.outputs@.len() as int);
        }
        if self.workspace_manager == Some(name) {
            self.workspace_manager = None;
            self.groups = Vec::new();
            self.workspaces = Vec::new();
            self.workspace_order = Vec::new();
            self.dirty = true;
            true
        } else {
            if self.toplevel_manager == Some(name) {
                self.toplevel_manager = None;
                self.toplevels = Vec::new();
                self.toplevel_order = Vec::new();
                self.dirty = true;
            }
            false
        }
    }

    /// An output reports its connector name.
    pub fn output_name(&mut self, output: u32, name: String)
        requires
            old(self).wf(),
        ensures
            final(self).wf(),
            match output_with_id(old(self).outputs@, output) {
                Some(i) => {
                    &&& final(self).outputs@.len() == old(self).outputs@.len()
                    &&& forall|j: int| 0 <= j < old(self).outputs@.len() && j != i ==> #[trigger] final(self).outputs@[j] == old(self).outputs@[j]
                    &&& final(self).outputs@[i].0 == output
                    &&& final(self).outputs@[i].1.global_name == old(self).outputs@[i].1.global_name
                    &&& final(self).outputs@[i].1.name@ == name@
                    &&& final(self).dirty
                },
                None => final(self).outputs@ == old(self).outputs@ && final(self).dirty == old(self).dirty,
            },
            keeps_workspace_side(*final(self), *old(self)),
            keeps_toplevel_side(*final(self), *old(self)),
            final(self).workspace_manager == old(self).workspace_manager,
            final(self).toplevel_manager == old(self).toplevel_manager,
            final(self).handles_changed == old(self).handles_changed,
    {
        let mut i: usize = 0;
        while i < self.outputs.len()
            invariant
                *self == *old(self),
                self.wf(),
                i <= self.outputs@.len(),
                forall|j: int| 0 <= j < i ==> self.outputs@[j].0 != output,
            decreases self.outputs@.len() - i,
        {
            if self.outputs[i].0 == output {
                proof {
                    lemma_output_with_id(self.outputs@, output, i as int);
                }
                let global_name = self.outputs[i].1.global_name;
                self.outputs.set(i, (output, OutputEntry { global_name, name }));
                self.dirty = true;
                return;
            }
            i = i + 1;
        }
        proof {
            lemma_output_with_id(self.outputs@, output, self.outputs@.len() as int);
        }
    }

    /// A workspace group appears, with no outputs and no workspaces yet.
    pub fn group_created(&mut self, group: u32)
        requires
            old(self).wf(),
        ensures
            final(self).wf(),
            lookup(final(self).groups@, group) matches Some(g) && g.outputs@.len() == 0 && g.workspaces@.len() == 0,
            same_except(final(self).groups@, old(self).groups@, group),
            final(self).outputs@ == old(self).outputs@,
            final(self).workspaces@ == old(self).workspaces@,
            final(self).workspace_order@ == old(self).workspace_order@,
            final(self).next_workspace_id == old(self).next_workspace_id,
            keeps_toplevel_side(*final(self), *old(self)),
            final(self).workspace_manager == old(self).workspace_manager,
            final(self).toplevel_manager == old(self).toplevel_manager,
            final(self).dirty == old(self).dirty,
            final(self).handles_changed == old(self).handles_changed,
    {
        put(&mut self.groups, group, GroupEntry { outputs: Vec::new(), workspaces: Vec::new() });
    }

    /// A workspace appears: it gets the next id (ids start at 1, since the
    /// bar takes ids up to 0 for special workspaces) and goes last in
    /// display order.
    pub fn workspace_created(&mut self, workspace: u32)
        requires
            old(self).wf(),
            old(self).next_workspace_id < i32::MAX,
        ensures
            final(self).wf(),
            final(self).next_workspace_id == old(self).next_workspace_id + 1,
            lookup(final(self).workspaces@, workspace) matches Some(e) && e.numeric_id == final(self).next_workspace_id
                && e.name@.len() == 0 && !e.active && !e.urgent && e.group is None,
            same_except(final(self).workspaces@, old(self).workspaces@, workspace),
            final(self).workspace_order@ == old(self).workspace_order@.push(workspace),
            final(self).handles_changed,
            final(self).outputs@ == old(self).outputs@,
            final(self).groups@ == old(self).groups@,
            keeps_toplevel_side(*final(self), *old(self)),
            final(self).workspace_manager == old(self).workspace_manager,
            final(self).toplevel_manager == old(self).toplevel_manager,
            final(self).dirty == old(self).dirty,
    {
        self.next_workspace_id = self.next_workspace_id + 1;
        let entry = WorkspaceEntry {
            numeric_id: self.next_workspace_id,
            name: String::new(),
            active: false,
            urgent: false,
            group: None,
        };
        put(&mut self.workspaces, workspace, entry);
        self.workspace_order.push(workspace);
        self.handles_changed = true;
    }

    /// The workspace manager's batch of changes is complete.
    pub fn workspaces_done(&mut self)
        ensures
            final(self).dirty,
            final(self).outputs@ == old(self).outputs@,
            keeps_workspace_side(*final(self), *old(self)),
            keeps_toplevel_side(*final(self), *old(self)),
            final(self).workspace_manager == old(self).workspace_manager,
            final(self).toplevel_manager == old(self).toplevel_manager,
            final(self).handles_changed == old(self).handles_changed,
    {
        self.dirty = true;
    }
}

impl GenericState {
    /// An output enters a group: it is added to the group's outputs.
    pub fn group_output_enter(&mut self, group: u32, output: u32)
        requires
            old(self).wf(),
        ensures
            final(self).wf(),
            match lookup(old(self).groups@, group) {
                Some(g) => {
                    &&& lookup(final(self).groups@, group) matches Some(h) && h.outputs@ == g.outputs@.push(output)
                        && h.workspaces@ == g.workspaces@
                    &&& same_except(final(self).groups@, old(self).groups@, group)
                    &&& final(self).dirty
                },
                None => final(self).groups@ == old(self).groups@ && final(self).dirty == old(self).dirty,
            },
            final(self).outputs@ == old(self).outputs@,
            final(self).workspaces@ == old(self).workspaces@,
            final(self).workspace_order@ == old(self).workspace_order@,
            final(self).next_workspace_id == old(self).next_workspace_id,
            keeps_toplevel_side(*final(self), *old(self)),
            final(self).workspace_manager == old(self).workspace_manager,
            final(self).toplevel_manager == old(self).toplevel_manager,
            final(self).handles_changed == old(self).handles_changed,
    {
        if let Some(i) = find_key(&self.groups, group) {
            let mut outs = copy_ids(&self.groups[i].1.outputs);
            let wss = copy_ids(&self.groups[i].1.workspaces);
            outs.push(output);
            put(&mut self.groups, group, GroupEntry { outputs: outs, workspaces: wss });
            self.dirty = true;
        }
    }

    /// An output leaves a group.
    pub fn group_output_leave(&mut self, group: u32, output: u32)
        requires
            old(self).wf(),
        ensures
            final(self).wf(),
            match lookup(old(self).groups@, group) {
                Some(g) => {
                    &&& lookup(final(self).groups@, group) matches Some(h) && h.outputs@ == g.outputs@.filter(
                        |o: u32| o != output,
                    ) && h.workspaces@ == g.workspaces@
                    &&& same_except(final(self).groups@, old(self).groups@, group)
                    &&& final(self).dirty
                },
                None => final(self).groups@ == old(self).groups@ && final(self).dirty == old(self).dirty,
            },
            final(self).outputs@ == old(self).outputs@,
            final(self).workspaces@ == old(self).workspaces@,
            final(self).workspace_order@ == old(self).workspace_order@,
            final(self).next_workspace_id == old(self).next_workspace_id,
            keeps_toplevel_side(*final(self), *old(self)),
            final(self).workspace_manager == old(self).workspace_manager,
            final(self).toplevel_manager == old(self).toplevel_manager,
            final(self).handles_changed == old(self).handles_changed,
    {
        if let Some(i) = find_key(&self.groups, group) {
            let mut outs = copy_ids(&self.groups[i].1.outputs);
            let wss = copy_ids(&self.groups[i].1.workspaces);
            drop_all(&mut outs, output);
            put(&mut self.groups, group, GroupEntry { outputs: outs, workspaces: wss });
            self.dirty = true;
        }
    }

    /// A workspace enters a group: the group lists it, and it belongs to
    /// the group.
    pub fn group_workspace_enter(&mut self, group: u32, workspace: u32)
        requires
            old(self).wf(),
        ensures
            final(self).wf(),
            match lookup(old(self).groups@, group) {
                Some(g) => {
                    &&& lookup(final(self).groups@, group) matches Some(h) && h.workspaces@ == g.workspaces@.push(workspace)
                        && h.outputs@ == g.outputs@
                    &&& same_except(final(self).groups@, old(self).groups@, group)
                },
                None => final(self).groups@ == old(self).groups@,
            },
            match lookup(old(self).workspaces@, workspace) {
                Some(e) => {
                    &&& lookup(final(self).workspaces@, workspace) matches Some(f) && f.group == Some(group)
                        && f.numeric_id == e.numeric_id && f.name@ == e.name@ && f.active == e.active && f.urgent
                        == e.urgent
                    &&& same_except(final(self).workspaces@, old(self).workspaces@, workspace)
                },
                None => final(self).workspaces@ == old(self).workspaces@,
            },
            final(self).dirty,
            final(self).outputs@ == old(self).outputs@,
            final(self).workspace_order@ == old(self).workspace_order@,
            final(self).next_workspace_id == old(self).next_workspace_id,
            keeps_toplevel_side(*final(self), *old(self)),
            final(self).workspace_manager == old(self).workspace_manager,
            final(self).toplevel_manager == old(self).toplevel_manager,
            final(self).handles_changed == old(self).handles_changed,
    {
        if let Some(i) = find_key(&self.groups, group) {
            let outs = copy_ids(&self.groups[i].1.outputs);
            let mut wss = copy_ids(&self.groups[i].1.workspaces);
            wss.push(workspace);
            put(&mut self.groups, group, GroupEntry { outputs: outs, workspaces: wss });
        }
        if let Some(i) = find_key(&self.workspaces, workspace) {
            let e = &self.workspaces[i].1;
            let entry = WorkspaceEntry {
                numeric_id: e.numeric_id,
                name: e.name.clone(),
                active: e.active,
                urgent: e.urgent,
                group: Some(group),
            };
            put(&mut self.workspaces, workspace, entry);
        }
        self.dirty = true;
    }

    /// A workspace leaves a group: the group no longer lists it.
    pub fn group_workspace_leave(&mut self, group: u32, workspace: u32)
        requires
            old(self).wf(),
        ensures
            final(self).wf(),
            match lookup(old(self).groups@, group) {
                Some(g) => {
                    &&& lookup(final(self).groups@, group) matches Some(h) && h.workspaces@ == g.workspaces@.filter(
                        |w: u32| w != workspace,
                    ) && h.outputs@ == g.outputs@
                    &&& same_except(final(self).groups@, old(self).groups@, group)
                    &&& final(self).dirty
                },
                None => final(self).groups@ == old(self).groups@ && final(self).dirty == old(self).dirty,
            },
            final(self).outputs@ == old(self).outputs@,
            final(self).workspaces@ == old(self).workspaces@,
            final(self).workspace_order@ == old(self).workspace_order@,
            final(self).next_workspace_id == old(self).next_workspace_id,
            keeps_toplevel_side(*final(self), *old(self)),
            final(self).workspace_manager == old(self).workspace_manager,
            final(self).toplevel_manager == old(self).toplevel_manager,
            final(self).handles_changed == old(self).handles_changed,
    {
        if let Some(i) = find_key(&self.groups, group) {
            let outs = copy_ids(&self.groups[i].1.outputs);
            let mut wss = copy_ids(&self.groups[i].1.workspaces);
            drop_all(&mut wss, workspace);
            put(&mut self.groups, group, GroupEntry { outputs: outs, workspaces: wss });
            self.dirty = true;
        }
    }

    /// A group is removed.
    pub fn group_removed(&mut self, group: u32)
        requires
            old(self).wf(),
        ensures
            final(self).wf(),
            lookup(final(self).groups@, group) is None,
            same_except(final(self).groups@, old(self).groups@, group),
            final(self).dirty,
            final(self).outputs@ == old(self).outputs@,
            final(self).workspaces@ == old(self).workspaces@,
            final(self).workspace_order@ == old(self).workspace_order@,
            final(self).next_workspace_id == old(self).next_workspace_id,
            keeps_toplevel_side(*final(self), *old(self)),
            final(self).workspace_manager == old(self).workspace_manager,
            final(self).toplevel_manager == old(self).toplevel_manager,
            final(self).handles_changed == old(self).handles_changed,
    {
        drop_key(&mut self.groups, group);
        self.dirty = true;
    }

    /// A workspace reports its name.
    pub fn workspace_name(&mut self, workspace: u32, name: String)
        requires
            old(self).wf(),
        ensures
            final(self).wf(),
            match lookup(old(self).workspaces@, workspace) {
                Some(e) => {
                    &&& lookup(final(self).workspaces@, workspace) matches Some(f) && f.name@ == name@ && f.numeric_id
                        == e.numeric_id && f.active == e.active && f.urgent == e.urgent && f.group == e.group
                    &&& same_except(final(self).workspaces@, old(self).workspaces@, workspace)
                    &&& final(self).dirty
                },
                None => final(self).workspaces@ == old(self).workspaces@ && final(self).dirty == old(self).dirty,
            },
            final(self).outputs@ == old(self).outputs@,
            final(self).groups@ == old(self).groups@,
            final(self).workspace_order@ == old(self).workspace_order@,
            final(self).next_workspace_id == old(self).next_workspace_id,
            keeps_toplevel_side(*final(self), *old(self)),
            final(self).workspace_manager == old(self).workspace_manager,
            final(self).toplevel_manager == old(self).toplevel_manager,
            final(self).handles_changed == old(self).handles_changed,
    {
        if let Some(i) = find_key(&self.workspaces, workspace) {
            let e = &self.workspaces[i].1;
            let entry = WorkspaceEntry { numeric_id: e.numeric_id, name, active: e.active, urgent: e.urgent, group: e.group };
            put(&mut self.workspaces, workspace, entry);
            self.dirty = true;
        }
    }

    /// A workspace reports its state flags: bit 1 is active, bit 2 urgent.
    pub fn workspace_state(&mut self, workspace: u32, bits: u32)
        requires
            old(self).wf(),
        ensures
            final(self).wf(),
            match lookup(old(self).workspaces@, workspace) {
                Some(e) => {
                    &&& lookup(final(self).workspaces@, workspace) matches Some(f) && f.active == (bits & 1 != 0)
                        && f.urgent == (bits & 2 != 0) && f.numeric_id == e.numeric_id && f.name@ == e.name@ && f.group
                        == e.group
                    &&& same_except(final(self).workspaces@, old(self).workspaces@, workspace)
                    &&& final(self).dirty
                },
                None => final(self).workspaces@ == old(self).workspaces@ && final(self).dirty == old(self).dirty,
            },
            final(self).outputs@ == old(self).outputs@,
            final(self).groups@ == old(self).groups@,
            final(self).workspace_order@ == old(self).workspace_order@,
            final(self).next_workspace_id == old(self).next_workspace_id,
            keeps_toplevel_side(*final(self), *old(self)),
            final(self).workspace_manager == old(self).workspace_manager,
            final(self).toplevel_manager == old(self).toplevel_manager,
            final(self).handles_changed == old(self).handles_changed,
    {
        if let Some(i) = find_key(&self.workspaces, workspace) {
            let e = &self.workspaces[i].1;
            let entry = WorkspaceEntry {
                numeric_id: e.numeric_id,
                name: e.name.clone(),
                active: bits & 1 != 0,
                urgent: bits & 2 != 0,
                group: e.group,
            };
            put(&mut self.workspaces, workspace, entry);
            self.dirty = true;
        }
    }

    /// A workspace is removed from the workspaces and the display order.
    pub fn workspace_removed(&mut self, workspace: u32)
        requires
            old(self).wf(),
        ensures
            final(self).wf(),
            lookup(final(self).workspaces@, workspace) is None,
            same_except(final(self).workspaces@, old(self).workspaces@, workspace),
            final(self).workspace_order@ == old(self).workspace_order@.filter(|w: u32| w != workspace),
            final(self).handles_changed,
            final(self).dirty,
            final(self).outputs@ == old(self).outputs@,
            final(self).groups@ == old(self).groups@,
            final(self).next_workspace_id == old(self).next_workspace_id,
            keeps_toplevel_side(*final(self), *old(self)),
            final(self).workspace_manager == old(self).workspace_manager,
            final(self).toplevel_manager == old(self).toplevel_manager,
    {
        drop_key(&mut self.workspaces, workspace);
        drop_all(&mut self.workspace_order, workspace);
        self.handles_changed = true;
        self.dirty = true;
    }
}

/// Some 4-byte entry of a toplevel's state array is the `activated` state
/// (2), read in the machine's byte order: either order counts here, the
/// contracts below state what holds in both.
pub open spec fn has_state_entry(states: Seq<u8>, v: int, le: bool) -> bool {
    exists|k: int|
        0 <= k && (k + 1) * 4 <= states.len() && (if le {
            le_u32(#[trigger] states.subrange(k * 4, k * 4 + 4))
        } else {
            be_u32(states.subrange(k * 4, k * 4 + 4))
        }) == v
}

impl GenericState {
    /// A toplevel window appears, untitled and inactive, last in creation
    /// order.
    pub fn toplevel_created(&mut self, toplevel: u32)
        requires
            old(self).wf(),
        ensures
            final(self).wf(),
            lookup(final(self).toplevels@, toplevel) matches Some(t) && t.title@.len() == 0 && t.app_id@.len() == 0
                && !t.activated,
            same_except(final(self).toplevels@, old(self).toplevels@, toplevel),
            final(self).toplevel_order@ == old(self).toplevel_order@.push(toplevel),
            final(self).outputs@ == old(self).outputs@,
            keeps_workspace_side(*final(self), *old(self)),
            final(self).workspace_manager == old(self).workspace_manager,
            final(self).toplevel_manager == old(self).toplevel_manager,
            final(self).dirty == old(self).dirty,
            final(self).handles_changed == old(self).handles_changed,
    {
        put(
            &mut self.toplevels,
            toplevel,
            ToplevelEntry { title: String::new(), app_id: String::new(), activated: false },
        );
        self.toplevel_order.push(toplevel);
    }

    /// A toplevel reports its title.
    pub fn toplevel_title(&mut self, toplevel: u32, title: String)
        requires
            old(self).wf(),
        ensures
            final(self).wf(),
            match lookup(old(self).toplevels@, toplevel) {
                Some(t) => {
                    &&& lookup(final(self).toplevels@, toplevel) matches Some(u) && u.title@ == title@ && u.app_id@
                        == t.app_id@ && u.activated == t.activated
                    &&& same_except(final(self).toplevels@, old(self).toplevels@, toplevel)
                },
                None => final(self).toplevels@ == old(self).toplevels@,
            },
            final(self).toplevel_order@ == old(self).toplevel_order@,
            final(self).outputs@ == old(self).outputs@,
            keeps_workspace_side(*final(self), *old(self)),
            final(self).workspace_manager == old(self).workspace_manager,
            final(self).toplevel_manager == old(self).toplevel_manager,
            final(self).dirty == old(self).dirty,
            final(self).handles_changed == old(self).handles_changed,
    {
        if let Some(i) = find_key(&self.toplevels, toplevel) {
            let t = &self.toplevels[i].1;
            let entry = ToplevelEntry { title, app_id: t.app_id.clone(), activated: t.activated };
            put(&mut self.toplevels, toplevel, entry);
        }
    }

    /// A toplevel reports its application id.
    pub fn toplevel_app_id(&mut self, toplevel: u32, app_id: String)
        requires
            old(self).wf(),
        ensures
            final(self).wf(),
            match lookup(old(self).toplevels@, toplevel) {
                Some(t) => {
                    &&& lookup(final(self).toplevels@, toplevel) matches Some(u) && u.app_id@ == app_id@ && u.title@
                        == t.title@ && u.activated == t.activated
                    &&& same_except(final(self).toplevels@, old(self).toplevels@, toplevel)
                },
                None => final(self).toplevels@ == old(self).toplevels@,
            },
            final(self).toplevel_order@ == old(self).toplevel_order@,
            final(self).outputs@ == old(self).outputs@,
            keeps_workspace_side(*final(self), *old(self)),
            final(self).workspace_manager == old(self).workspace_manager,
            final(self).toplevel_manager == old(self).toplevel_manager,
            final(self).dirty == old(self).dirty,
            final(self).handles_changed == old(self).handles_changed,
    {
        if let Some(i) = find_key(&self.toplevels, toplevel) {
            let t = &self.toplevels[i].1;
            let entry = ToplevelEntry { title: t.title.clone(), app_id, activated: t.activated };
            put(&mut self.toplevels, toplevel, entry);
        }
    }

    /// A toplevel reports its states, an array of 4-byte entries (a
    /// trailing partial entry is ignored): it is active when one of them is
    /// `activated` (2). The entries are read in the machine's byte order,
    /// which is not stated: the contract says only that an active toplevel
    /// has an entry reading 2 in one order or the other.
    pub fn toplevel_state(&mut self, toplevel: u32, states: &Vec<u8>)
        requires
            old(self).wf(),
        ensures
            final(self).wf(),
            match lookup(old(self).toplevels@, toplevel) {
                Some(t) => {
                    &&& lookup(final(self).toplevels@, toplevel) matches Some(u) && u.title@ == t.title@ && u.app_id@
                        == t.app_id@ && (u.activated ==> (has_state_entry(states@, 2, true) || has_state_entry(
                        states@,
                        2,
                        false,
                    )))
                    &&& same_except(final(self).toplevels@, old(self).toplevels@, toplevel)
                },
                None => final(self).toplevels@ == old(self).toplevels@,
            },
            final(self).toplevel_order@ == old(self).toplevel_order@,
            final(self).outputs@ == old(self).outputs@,
            keeps_workspace_side(*final(self), *old(self)),
            final(self).workspace_manager == old(self).workspace_manager,
            final(self).toplevel_manager == old(self).toplevel_manager,
            final(self).dirty == old(self).dirty,
            final(self).handles_changed == old(self).handles_changed,
    {
        if let Some(i) = find_key(&self.toplevels, toplevel) {
            let mut activated = false;
            let mut k: usize = 0;
            let len = states.len();
            let n = len / 4;
            while k < n
                invariant
                    len == states@.len(),
                    n == len / 4,
                    k <= n,
                    activated ==> (has_state_entry(states@, 2, true) || has_state_entry(states@, 2, false)),
                decreases n - k,
            {
                assert(k * 4 + 4 <= len) by (nonlinear_arith)
                    requires
                        k < n,
                        n == len / 4,
                ;
                let b = [states[k * 4], states[k * 4 + 1], states[k * 4 + 2], states[k * 4 + 3]];
                let v = u32_native(b);
                proof {
                    assert(b@ =~= states@.subrange(k * 4, k * 4 + 4));
                }
                if v == 2 {
                    activated = true;
                    proof {
                        let c = states@.subrange(k * 4, k * 4 + 4);
                        if le_u32(c) == 2 {
                            assert(has_state_entry(states@, 2, true));
                        } else {
                            assert(has_state_entry(states@, 2, false));
                        }
                    }
                }
                k = k + 1;
            }
            let t = &self.toplevels[i].1;
            let entry = ToplevelEntry { title: t.title.clone(), app_id: t.app_id.clone(), activated };
            put(&mut self.toplevels, toplevel, entry);
        }
    }

    /// A toplevel's batch of changes is complete.
    pub fn toplevel_done(&mut self)
        ensures
            final(self).dirty,
            final(self).outputs@ == old(self).outputs@,
            keeps_workspace_side(*final(self), *old(self)),
            keeps_toplevel_side(*final(self), *old(self)),
            final(self).workspace_manager == old(self).workspace_manager,
            final(self).toplevel_manager == old(self).toplevel_manager,
            final(self).handles_changed == old(self).handles_changed,
    {
        self.dirty = true;
    }

    /// A toplevel closes: it leaves the toplevels and the creation order.
    pub fn toplevel_closed(&mut self, toplevel: u32)
        requires
            old(self).wf(),
        ensures
            final(self).wf(),
            lookup(final(self).toplevels@, toplevel) is None,
            same_except(final(self).toplevels@, old(self).toplevels@, toplevel),
            final(self).toplevel_order@ == old(self).toplevel_order@.filter(|t: u32| t != toplevel),
            final(self).dirty,
            final(self).outputs@ == old(self).outputs@,
            keeps_workspace_side(*final(self), *old(self)),
            final(self).workspace_manager == old(self).workspace_manager,
            final(self).toplevel_manager == old(self).toplevel_manager,
            final(self).handles_changed == old(self).handles_changed,
    {
        drop_key(&mut self.toplevels, toplevel);
        drop_all(&mut self.toplevel_order, toplevel);
        self.dirty = true;
    }
}

/// The workspaces the bar can focus, in display order: (bar id, object id)
/// of each ordered workspace that exists.
pub open spec fn handles_of(order: Seq<u32>, ws: Seq<(u32, WorkspaceEntry)>) -> Seq<(i32, u32)>
    decreases order.len(),
{
    if order.len() == 0 {
        Seq::empty()
    } else {
        handles_of(order.drop_last(), ws) + match lookup(ws, order.last()) {
            Some(e) => seq![(e.numeric_id, order.last())],
            None => Seq::empty(),
        }
    }
}

impl GenericState {
    /// The workspace handles published for focusing.
    pub fn command_handles(&self) -> (r: Vec<(i32, u32)>)
        requires
            self.wf(),
        ensures
            r@ == handles_of(self.workspace_order@, self.workspaces@),
    {
        let mut r: Vec<(i32, u32)> = Vec::new();
        let mut i: usize = 0;
        while i < self.workspace_order.len()
            invariant
                self.wf(),
                i <= self.workspace_order@.len(),
                r@ == handles_of(self.workspace_order@.take(i as int), self.workspaces@),
            decreases self.workspace_order@.len() - i,
        {
            let ghost t = self.workspace_order@.take(i + 1);
            assert(t.drop_last() =~= self.workspace_order@.take(i as int));
            assert(t.last() == self.workspace_order@[i as int]);
            let w = self.workspace_order[i];
            match find_key(&self.workspaces, w) {
                Some(k) => {
                    r.push((self.workspaces[k].1.numeric_id, w));
                },
                None => {},
            }
            proof {
                assert(r@ =~= handles_of(t, self.workspaces@));
            }
            i = i + 1;
        }
        assert(self.workspace_order@.take(self.workspace_order@.len() as int) =~= self.workspace_order@);
        r
    }
}

/// The object of the first handle with the bar id.
pub fn handle_for(handles: &Vec<(i32, u32)>, id: i32) -> (r: Option<u32>)
    ensures
        match r {
            Some(o) => exists|i: int|
                0 <= i < handles@.len() && handles@[i] == (id, o) && forall|j: int| 0 <= j < i ==> handles@[j].0 != id,
            None => forall|i: int| 0 <= i < handles@.len() ==> handles@[i].0 != id,
        },
{
    let mut i: usize = 0;
    while i < handles.len()
        invariant
            i <= handles@.len(),
            forall|j: int| 0 <= j < i ==> handles@[j].0 != id,
        decreases handles@.len() - i,
    {
        if handles[i].0 == id {
            return Some(handles[i].1);
        }
        i = i + 1;
    }
    None
}

/// What the generic backend does with a request: it can only focus a
/// workspace by its bar id.
pub fn generic_action(cmd: &CompositorCommand) -> (r: Result<i32, String>)
    ensures
        match *cmd {
            CompositorCommand::FocusWorkspace(id) => r == Ok::<i32, String>(id),
            _ => r matches Err(e) && e@ == command_text(*cmd) + " is not supported on the generic Wayland backend"@,
        },
{
    match cmd {
        CompositorCommand::FocusWorkspace(id) => Ok(*id),
        _ => Err(unsupported(cmd, " is not supported on the generic Wayland backend")),
    }
}

/// The workspace side (groups, workspaces, their order and the next id)
/// is the same in both states.
pub open spec fn keeps_workspace_side(a: GenericState, b: GenericState) -> bool {
    &&& a.groups@ == b.groups@
    &&& a.workspaces@ == b.workspaces@
    &&& a.workspace_order@ == b.workspace_order@
    &&& a.next_workspace_id == b.next_workspace_id
}

/// The toplevel side is the same in both states.
pub open spec fn keeps_toplevel_side(a: GenericState, b: GenericState) -> bool {
    &&& a.toplevels@ == b.toplevels@
    &&& a.toplevel_order@ == b.toplevel_order@
}

} // verus!
