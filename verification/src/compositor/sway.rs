//! Sway backend: maps the replies of sway's i3-compatible IPC onto the
//! compositor state, and resolves the bar's commands to sway commands.

use super::types::{
    ActiveWindow, ActiveWindowNiri, CompositorMonitor, CompositorState, CompositorWorkspace,
};
use super::types::CompositorCommand;
use crate::text::{
    decimal, i128_to_string, i64_to_string, lemma_lex_asym, lemma_lex_total, lemma_lex_trans, lex_lt,
    push_char, push_str, str_eq, str_lt, u32_native, le_u32, be_u32,
};
use vstd::prelude::*;

verus! {

/// Start of the id range handed to workspaces that cannot use their own
/// number: far beyond any plausible workspace number.
pub const NAMED_ID_BASE: i32 = 10000;

/// The kind of a node of sway's layout tree.
#[derive(Clone, Copy, PartialEq, Eq, Structural)]
pub enum NodeType {
    Root,
    Output,
    Workspace,
    Con,
    FloatingCon,
    Dockarea,
}

/// X11 properties of an XWayland view.
pub struct WindowProperties {
    pub class: Option<String>,
}

/// A node of sway's layout tree (`GET_TREE`), with the fields the bar reads.
pub struct SwayNode {
    pub id: i64,
    pub name: Option<String>,
    pub node_type: NodeType,
    /// Child ids in focus order.
    pub focus: Vec<i64>,
    pub nodes: Vec<SwayNode>,
    pub floating_nodes: Vec<SwayNode>,
    pub shell: Option<String>,
    pub pid: Option<i32>,
    pub app_id: Option<String>,
    pub window_properties: Option<WindowProperties>,
}

/// An entry of `GET_WORKSPACES`.
pub struct SwayWorkspace {
    pub num: i32,
    pub name: String,
    pub visible: bool,
    pub focused: bool,
    pub urgent: bool,
    pub output: String,
}

/// An entry of `GET_OUTPUTS`.
pub struct SwayOutput {
    pub name: String,
    pub active: bool,
    pub current_workspace: Option<String>,
}

/// An entry of `GET_INPUTS`.
pub struct SwayInput {
    pub input_type: String,
    pub xkb_active_layout_name: Option<String>,
    pub xkb_layout_names: Vec<String>,
}

/// Everything a state update is built from. The tree, the inputs and the
/// binding state are optional so the bar still shows workspaces when they
/// cannot be read.
pub struct SwaySnapshot {
    pub workspaces: Vec<SwayWorkspace>,
    pub outputs: Vec<SwayOutput>,
    pub tree: Option<SwayNode>,
    pub inputs: Vec<SwayInput>,
    pub binding_state: Option<String>,
}

/// Degrades gracefully for the parts of the state that are not essential:
/// a failed request becomes `None`.
pub fn optional<T, E>(result: Result<T, E>) -> (r: Option<T>)
    ensures
        match result {
            Ok(v) => r == Some(v),
            Err(_) => r is None,
        },
{
    match result {
        Ok(value) => Some(value),
        Err(_) => None,
    }
}

// ---------------------------------------------------------------------------
// Workspace ids
// ---------------------------------------------------------------------------

/// Name-to-id entries, keyed by name.
pub open spec fn ids_unique(s: Seq<(String, i32)>) -> bool {
    forall|i: int, j: int| 0 <= i < j < s.len() ==> #[trigger] s[i].0@ != #[trigger] s[j].0@
}

/// Id-to-name entries, keyed by id.
pub open spec fn names_unique(s: Seq<(i32, String)>) -> bool {
    forall|i: int, j: int| 0 <= i < j < s.len() ==> #[trigger] s[i].0 != #[trigger] s[j].0
}

/// The map that name-to-id entries stand for.
pub open spec fn ids_of(s: Seq<(String, i32)>) -> Map<Seq<char>, i32> {
    Map::new(
        |n: Seq<char>| exists|i: int| 0 <= i < s.len() && s[i].0@ == n,
        |n: Seq<char>| s[choose|i: int| 0 <= i < s.len() && s[i].0@ == n].1,
    )
}

/// The map that id-to-name entries stand for.
pub open spec fn names_of(s: Seq<(i32, String)>) -> Map<i32, Seq<char>> {
    Map::new(
        |k: i32| exists|i: int| 0 <= i < s.len() && s[i].0 == k,
        |k: i32| s[choose|i: int| 0 <= i < s.len() && s[i].0 == k].1@,
    )
}

proof fn lemma_ids_at(s: Seq<(String, i32)>, i: int)
    requires
        ids_unique(s),
        0 <= i < s.len(),
    ensures
        ids_of(s).contains_key(s[i].0@),
        ids_of(s)[s[i].0@] == s[i].1,
{
    let n = s[i].0@;
    let k = choose|k: int| 0 <= k < s.len() && s[k].0@ == n;
    if k < i {
        assert(s[k].0@ != s[i].0@);
    } else if k > i {
        assert(s[i].0@ != s[k].0@);
    }
}

proof fn lemma_names_at(s: Seq<(i32, String)>, i: int)
    requires
        names_unique(s),
        0 <= i < s.len(),
    ensures
        names_of(s).contains_key(s[i].0),
        names_of(s)[s[i].0] == s[i].1@,
{
    let n = s[i].0;
    let k = choose|k: int| 0 <= k < s.len() && s[k].0 == n;
    if k < i {
        assert(s[k].0 != s[i].0);
    } else if k > i {
        assert(s[i].0 != s[k].0);
    }
}

/// `k` is the least id from `NAMED_ID_BASE` on that `names` leaves free.
pub open spec fn least_free(names: Map<i32, Seq<char>>, k: i32) -> bool {
    &&& NAMED_ID_BASE <= k < i32::MAX
    &&& !names.contains_key(k)
    &&& forall|j: i32| NAMED_ID_BASE <= j < k ==> names.contains_key(j)
}

/// The id a new workspace gets: its own number when that is not negative
/// and free, else the least free id from `NAMED_ID_BASE` on, and
/// `NAMED_ID_BASE` itself when that whole range is taken.
pub open spec fn fresh_id(names: Map<i32, Seq<char>>, num: i32) -> i32 {
    if num >= 0 && !names.contains_key(num) {
        num
    } else if exists|k: i32| least_free(names, k) {
        choose|k: i32| least_free(names, k)
    } else {
        NAMED_ID_BASE
    }
}

/// What `id_for` does to the two maps, and the id it answers.
pub open spec fn registry_step(
    ids: Map<Seq<char>, i32>,
    names: Map<i32, Seq<char>>,
    name: Seq<char>,
    num: i32,
) -> (Map<Seq<char>, i32>, Map<i32, Seq<char>>, i32) {
    if ids.contains_key(name) {
        (ids, names, ids[name])
    } else {
        let id = fresh_id(names, num);
        (ids.insert(name, id), names.insert(id, name), id)
    }
}

/// The names among `live`.
pub open spec fn name_set(live: Seq<String>) -> Set<Seq<char>> {
    Set::new(|n: Seq<char>| exists|i: int| 0 <= i < live.len() && live[i]@ == n)
}

fn contains_name(live: &[String], name: &str) -> (r: bool)
    ensures
        r == name_set(live@).contains(name@),
{
    let mut i: usize = 0;
    while i < live.len()
        invariant
            i <= live@.len(),
            forall|j: int| 0 <= j < i ==> live@[j]@ != name@,
        decreases live@.len() - i,
    {
        if str_eq(live[i].as_str(), name) {
            return true;
        }
        i = i + 1;
    }
    false
}

fn holds_id(entries: &Vec<(String, i32)>, id: i32) -> (r: bool)
    ensures
        r == exists|a: int| 0 <= a < entries@.len() && entries@[a].1 == id,
{
    let mut i: usize = 0;
    while i < entries.len()
        invariant
            i <= entries@.len(),
            forall|j: int| 0 <= j < i ==> entries@[j].1 != id,
        decreases entries@.len() - i,
    {
        if entries[i].1 == id {
            return true;
        }
        i = i + 1;
    }
    false
}

proof fn lemma_ids_push(s: Seq<(String, i32)>, e: (String, i32))
    requires
        ids_unique(s),
        !ids_of(s).contains_key(e.0@),
    ensures
        ids_unique(s.push(e)),
        ids_of(s.push(e)) == ids_of(s).insert(e.0@, e.1),
{
    let t = s.push(e);
    assert forall|i: int, j: int| 0 <= i < j < t.len() implies #[trigger] t[i].0@
        != #[trigger] t[j].0@ by {
        if j == s.len() {
            assert(t[i] == s[i]);
            lemma_ids_at(s, i);
        } else {
            assert(t[i] == s[i] && t[j] == s[j]);
        }
    }
    let now = ids_of(t);
    let target = ids_of(s).insert(e.0@, e.1);
    assert forall|n: Seq<char>|
        #![trigger now.dom().contains(n)]
        #![trigger target.dom().contains(n)]
        now.dom().contains(n) == target.dom().contains(n) && (now.dom().contains(n) ==> now[n]
            == target[n]) by {
        if now.dom().contains(n) {
            let i = choose|i: int| 0 <= i < t.len() && t[i].0@ == n;
            lemma_ids_at(t, i);
            if i < s.len() {
                assert(t[i] == s[i]);
                lemma_ids_at(s, i);
            }
        }
        if ids_of(s).contains_key(n) {
            let i = choose|i: int| 0 <= i < s.len() && s[i].0@ == n;
            assert(t[i] == s[i]);
        }
        if n == e.0@ {
            lemma_ids_at(t, s.len() as int);
        }
    }
    assert(now =~= target);
}

proof fn lemma_names_push(s: Seq<(i32, String)>, e: (i32, String))
    requires
        names_unique(s),
        !names_of(s).contains_key(e.0),
    ensures
        names_unique(s.push(e)),
        names_of(s.push(e)) == names_of(s).insert(e.0, e.1@),
{
    let t = s.push(e);
    assert forall|i: int, j: int| 0 <= i < j < t.len() implies #[trigger] t[i].0
        != #[trigger] t[j].0 by {
        if j == s.len() {
            assert(t[i] == s[i]);
            lemma_names_at(s, i);
        } else {
            assert(t[i] == s[i] && t[j] == s[j]);
        }
    }
    let now = names_of(t);
    let target = names_of(s).insert(e.0, e.1@);
    assert forall|k: i32|
        #![trigger now.dom().contains(k)]
        #![trigger target.dom().contains(k)]
        now.dom().contains(k) == target.dom().contains(k) && (now.dom().contains(k) ==> now[k]
            == target[k]) by {
        if now.dom().contains(k) {
            let i = choose|i: int| 0 <= i < t.len() && t[i].0 == k;
            lemma_names_at(t, i);
            if i < s.len() {
                assert(t[i] == s[i]);
                lemma_names_at(s, i);
            }
        }
        if names_of(s).contains_key(k) {
            let i = choose|i: int| 0 <= i < s.len() && s[i].0 == k;
            assert(t[i] == s[i]);
        }
        if k == e.0 {
            lemma_names_at(t, s.len() as int);
        }
    }
    assert(now =~= target);
}

proof fn lemma_ids_take(s: Seq<(String, i32)>, i: int)
    requires
        ids_unique(s),
        0 <= i < s.len(),
    ensures
        ids_unique(s.take(i)),
        !ids_of(s.take(i)).contains_key(s[i].0@),
        s.take(i + 1) == s.take(i).push(s[i]),
{
    assert(s.take(i + 1) =~= s.take(i).push(s[i]));
    if ids_of(s.take(i)).contains_key(s[i].0@) {
        let j = choose|j: int| 0 <= j < s.take(i).len() && s.take(i)[j].0@ == s[i].0@;
        assert(s[j].0@ != s[i].0@);
    }
}

proof fn lemma_names_take(s: Seq<(i32, String)>, i: int)
    requires
        names_unique(s),
        0 <= i < s.len(),
    ensures
        names_unique(s.take(i)),
        !names_of(s.take(i)).contains_key(s[i].0),
        s.take(i + 1) == s.take(i).push(s[i]),
{
    assert(s.take(i + 1) =~= s.take(i).push(s[i]));
    if names_of(s.take(i)).contains_key(s[i].0) {
        let j = choose|j: int| 0 <= j < s.take(i).len() && s.take(i)[j].0 == s[i].0;
        assert(s[j].0 != s[i].0);
    }
}

/// The entries whose workspace is still alive.
fn live_entries(entries: &Vec<(String, i32)>, live: &[String]) -> (kept: Vec<(String, i32)>)
    requires
        ids_unique(entries@),
    ensures
        ids_unique(kept@),
        ids_of(kept@) == ids_of(entries@).restrict(name_set(live@)),
{
    let mut kept: Vec<(String, i32)> = Vec::new();
    let mut i: usize = 0;
    assert(ids_of(kept@) =~= ids_of(entries@.take(0)).restrict(name_set(live@)));
    while i < entries.len()
        invariant
            ids_unique(entries@),
            i <= entries@.len(),
            ids_unique(kept@),
            ids_of(kept@) == ids_of(entries@.take(i as int)).restrict(name_set(live@)),
        decreases entries@.len() - i,
    {
        proof {
            lemma_ids_take(entries@, i as int);
        }
        let ghost e = entries@[i as int];
        if contains_name(live, entries[i].0.as_str()) {
            let entry = (entries[i].0.clone(), entries[i].1);
            proof {
                lemma_ids_push(kept@, entry);
                lemma_ids_push(entries@.take(i as int), e);
                assert(ids_of(kept@.push(entry)) =~= ids_of(entries@.take(i + 1)).restrict(
                    name_set(live@),
                ));
            }
            kept.push(entry);
        } else {
            proof {
                lemma_ids_push(entries@.take(i as int), e);
                assert(ids_of(kept@) =~= ids_of(entries@.take(i + 1)).restrict(name_set(live@)));
            }
        }
        i = i + 1;
    }
    assert(entries@.take(entries@.len() as int) =~= entries@);
    kept
}

/// The entries whose id some workspace still holds.
fn held_entries(entries: &Vec<(i32, String)>, holders: &Vec<(String, i32)>) -> (kept: Vec<
    (i32, String),
>)
    requires
        names_unique(entries@),
        ids_unique(holders@),
    ensures
        names_unique(kept@),
        names_of(kept@) == names_of(entries@).restrict(ids_of(holders@).values()),
{
    let ghost held = ids_of(holders@).values();
    let mut kept: Vec<(i32, String)> = Vec::new();
    let mut i: usize = 0;
    assert(names_of(kept@) =~= names_of(entries@.take(0)).restrict(held));
    while i < entries.len()
        invariant
            names_unique(entries@),
            ids_unique(holders@),
            held == ids_of(holders@).values(),
            i <= entries@.len(),
            names_unique(kept@),
            names_of(kept@) == names_of(entries@.take(i as int)).restrict(held),
        decreases entries@.len() - i,
    {
        proof {
            lemma_names_take(entries@, i as int);
        }
        let ghost e = entries@[i as int];
        let h = holds_id(holders, entries[i].0);
        proof {
            if h {
                let a = choose|a: int| 0 <= a < holders@.len() && holders@[a].1 == e.0;
                lemma_ids_at(holders@, a);
                assert(ids_of(holders@).contains_key(holders@[a].0@));
            }
            if held.contains(e.0) {
                let n = choose|n: Seq<char>|
                    ids_of(holders@).contains_key(n) && ids_of(holders@)[n] == e.0;
                let a = choose|a: int| 0 <= a < holders@.len() && holders@[a].0@ == n;
                lemma_ids_at(holders@, a);
            }
        }
        if h {
            let entry = (entries[i].0, entries[i].1.clone());
            proof {
                lemma_names_push(kept@, entry);
                lemma_names_push(entries@.take(i as int), e);
                assert(names_of(kept@.push(entry)) =~= names_of(entries@.take(i + 1)).restrict(
                    held,
                ));
            }
            kept.push(entry);
        } else {
            proof {
                lemma_names_push(entries@.take(i as int), e);
                assert(names_of(kept@) =~= names_of(entries@.take(i + 1)).restrict(held));
            }
        }
        i = i + 1;
    }
    assert(entries@.take(entries@.len() as int) =~= entries@);
    kept
}

/// Maps sway workspaces onto the positive, stable ids the workspaces module
/// expects: a numbered workspace keeps its sway number, the others get the
/// first free id from `NAMED_ID_BASE` on.
pub struct WorkspaceRegistry {
    ids: Vec<(String, i32)>,
    names: Vec<(i32, String)>,
}

impl WorkspaceRegistry {
    /// Each name and each id occurs once among the entries.
    pub closed spec fn entries_unique(&self) -> bool {
        ids_unique(self.ids@) && names_unique(self.names@)
    }

    /// The registry's invariant: its entries are unique, finitely many
    /// names are recorded, and the two maps are inverse: every recorded
    /// name's id leads back to that name, and every recorded id belongs to
    /// a recorded name.
    pub open spec fn wf(&self) -> bool {
        &&& self.entries_unique()
        &&& inverse(self.ids_map(), self.names_map())
    }

    /// Workspace name to id.
    pub closed spec fn ids_map(&self) -> Map<Seq<char>, i32> {
        ids_of(self.ids@)
    }

    /// Id to workspace name.
    pub closed spec fn names_map(&self) -> Map<i32, Seq<char>> {
        names_of(self.names@)
    }

    /// An empty registry.
    pub fn new() -> (r: Self)
        ensures
            r.wf(),
            r.ids_map() == Map::<Seq<char>, i32>::empty(),
            r.names_map() == Map::<i32, Seq<char>>::empty(),
    {
        let r = WorkspaceRegistry { ids: Vec::new(), names: Vec::new() };
        assert(r.ids_map() =~= Map::<Seq<char>, i32>::empty());
        assert(r.names_map() =~= Map::<i32, Seq<char>>::empty());
        r
    }

    fn index_of_name(&self, name: &str) -> (r: Option<usize>)
        requires
            self.entries_unique(),
        ensures
            match r {
                Some(i) => i < self.ids@.len() && self.ids@[i as int].0@ == name@,
                None => !self.ids_map().contains_key(name@),
            },
    {
        let mut i: usize = 0;
        while i < self.ids.len()
            invariant
                i <= self.ids@.len(),
                forall|j: int| 0 <= j < i ==> self.ids@[j].0@ != name@,
            decreases self.ids@.len() - i,
        {
            if str_eq(self.ids[i].0.as_str(), name) {
                return Some(i);
            }
            i = i + 1;
        }
        None
    }

    fn index_of_id(&self, id: i32) -> (r: Option<usize>)
        requires
            self.entries_unique(),
        ensures
            match r {
                Some(i) => i < self.names@.len() && self.names@[i as int].0 == id,
                None => !self.names_map().contains_key(id),
            },
    {
        let mut i: usize = 0;
        while i < self.names.len()
            invariant
                i <= self.names@.len(),
                forall|j: int| 0 <= j < i ==> self.names@[j].0 != id,
            decreases self.names@.len() - i,
        {
            if self.names[i].0 == id {
                return Some(i);
            }
            i = i + 1;
        }
        None
    }

    /// The id of a workspace: the one it already has, else a fresh one,
    /// which is recorded both ways. The maps stay inverse, and the id leads
    /// back to the name, unless every id from `NAMED_ID_BASE` on is taken:
    /// then the new name shares `NAMED_ID_BASE`.
    pub fn id_for(&mut self, name: &str, num: i32) -> (id: i32)
        requires
            old(self).entries_unique(),
        ensures
            final(self).entries_unique(),
            (final(self).ids_map(), final(self).names_map(), id) == registry_step(
                old(self).ids_map(),
                old(self).names_map(),
                name@,
                num,
            ),
            old(self).wf() && (old(self).ids_map().contains_key(name@) || old(self).ids_map().dom().len()
                < i32::MAX - NAMED_ID_BASE) ==> final(self).wf() && final(self).names_map().contains_key(id)
                && final(self).names_map()[id] == name@,
    {
        proof {
            lemma_step_inverse(self.ids_map(), self.names_map(), name@, num);
        }
        if let Some(i) = self.index_of_name(name) {
            proof {
                lemma_ids_at(self.ids@, i as int);
            }
            return self.ids[i].1;
        }
        let ghost names = self.names_map();
        let id = if num >= 0 && self.index_of_id(num).is_none() {
            num
        } else {
            let mut k: i32 = NAMED_ID_BASE;
            while k < i32::MAX && self.index_of_id(k).is_some()
                invariant
                    self.entries_unique(),
                    names == self.names_map(),
                    NAMED_ID_BASE <= k <= i32::MAX,
                    forall|j: i32| NAMED_ID_BASE <= j < k ==> names.contains_key(j),
                decreases i32::MAX - k,
            {
                proof {
                    let i = choose|i: int| 0 <= i < self.names@.len() && self.names@[i].0 == k;
                    lemma_names_at(self.names@, i);
                }
                k = k + 1;
            }
            if k < i32::MAX {
                assert(least_free(names, k));
                assert forall|k2: i32| least_free(names, k2) implies k2 == k by {
                    if k2 < k {
                        assert(names.contains_key(k2));
                    } else if k < k2 {
                        assert(names.contains_key(k));
                    }
                }
                k
            } else {
                assert(!exists|k2: i32| least_free(names, k2));
                NAMED_ID_BASE
            }
        };
        proof {
            if num >= 0 && !names.contains_key(num) {
            } else if num >= 0 {
                let i = choose|i: int| 0 <= i < self.names@.len() && self.names@[i].0 == num;
                lemma_names_at(self.names@, i);
            }
        }
        assert(id == fresh_id(names, num));
        let ghost old_ids = self.ids@;
        let ghost old_names = self.names@;
        self.ids.push((name.to_owned(), id));
        proof {
            assert forall|i: int, j: int|
                0 <= i < j < self.ids@.len() implies #[trigger] self.ids@[i].0@
                != #[trigger] self.ids@[j].0@ by {
                if j == self.ids@.len() - 1 {
                    assert(old_ids[i] == self.ids@[i]);
                    lemma_ids_at(old_ids, i);
                } else {
                    assert(old_ids[i] == self.ids@[i] && old_ids[j] == self.ids@[j]);
                }
            }
            let ghost now = ids_of(self.ids@);
            let ghost target = ids_of(old_ids).insert(name@, id);
            assert forall|n: Seq<char>|
                #![trigger now.dom().contains(n)]
                #![trigger target.dom().contains(n)]
                now.dom().contains(n) == target.dom().contains(n) && (now.dom().contains(n)
                    ==> now[n] == target[n]) by {
                if ids_of(self.ids@).contains_key(n) {
                    let i = choose|i: int| 0 <= i < self.ids@.len() && self.ids@[i].0@ == n;
                    lemma_ids_at(self.ids@, i);
                    if i < old_ids.len() {
                        assert(old_ids[i] == self.ids@[i]);
                        lemma_ids_at(old_ids, i);
                    }
                }
                if ids_of(old_ids).contains_key(n) {
                    let i = choose|i: int| 0 <= i < old_ids.len() && old_ids[i].0@ == n;
                    assert(old_ids[i] == self.ids@[i]);
                }
                if n == name@ {
                    lemma_ids_at(self.ids@, old_ids.len() as int);
                }
            }
            assert(now =~= target);
        }
        match self.index_of_id(id) {
            Some(i) => {
                let ghost before = self.names@;
                self.names.set(i, (id, name.to_owned()));
                proof {
                    assert forall|a: int, b: int|
                        0 <= a < b < self.names@.len() implies #[trigger] self.names@[a].0
                        != #[trigger] self.names@[b].0 by {
                        assert(before[a].0 == self.names@[a].0 && before[b].0 == self.names@[b].0);
                    }
                    let ghost now = names_of(self.names@);
                    let ghost target = names.insert(id, name@);
                    assert forall|k: i32|
                        #![trigger now.dom().contains(k)]
                        #![trigger target.dom().contains(k)]
                        now.dom().contains(k) == target.dom().contains(k) && (now.dom().contains(k)
                            ==> now[k] == target[k]) by {
                        if names_of(self.names@).contains_key(k) {
                            let j = choose|j: int| 0 <= j < self.names@.len() && self.names@[j].0 == k;
                            lemma_names_at(self.names@, j);
                            if j != i {
                                assert(before[j] == self.names@[j]);
                                lemma_names_at(before, j);
                            }
                        }
                        if names.contains_key(k) {
                            let j = choose|j: int| 0 <= j < before.len() && before[j].0 == k;
                            assert(before[j].0 == self.names@[j].0);
                        }
                        if k == id {
                            lemma_names_at(self.names@, i as int);
                        }
                    }
                    assert(now =~= target);
                }
            },
            None => {
                self.names.push((id, name.to_owned()));
                proof {
                    assert forall|a: int, b: int|
                        0 <= a < b < self.names@.len() implies #[trigger] self.names@[a].0
                        != #[trigger] self.names@[b].0 by {
                        if b == self.names@.len() - 1 {
                            assert(old_names[a] == self.names@[a]);
                            lemma_names_at(old_names, a);
                        } else {
                            assert(old_names[a] == self.names@[a] && old_names[b] == self.names@[b]);
                        }
                    }
                    let ghost now = names_of(self.names@);
                    let ghost target = names.insert(id, name@);
                    assert forall|k: i32|
                        #![trigger now.dom().contains(k)]
                        #![trigger target.dom().contains(k)]
                        now.dom().contains(k) == target.dom().contains(k) && (now.dom().contains(k)
                            ==> now[k] == target[k]) by {
                        if names_of(self.names@).contains_key(k) {
                            let j = choose|j: int| 0 <= j < self.names@.len() && self.names@[j].0 == k;
                            lemma_names_at(self.names@, j);
                            if j < old_names.len() {
                                assert(old_names[j] == self.names@[j]);
                                lemma_names_at(old_names, j);
                            }
                        }
                        if names.contains_key(k) {
                            let j = choose|j: int| 0 <= j < old_names.len() && old_names[j].0 == k;
                            assert(old_names[j] == self.names@[j]);
                        }
                        if k == id {
                            lemma_names_at(self.names@, old_names.len() as int);
                        }
                    }
                    assert(now =~= target);
                }
            },
        }
        id
    }

    /// Forgets the workspaces that no longer exist, and the ids that only
    /// they held.
    pub fn retain(&mut self, live: &[String])
        requires
            old(self).entries_unique(),
        ensures
            final(self).entries_unique(),
            final(self).ids_map() == old(self).ids_map().restrict(name_set(live@)),
            final(self).names_map() == old(self).names_map().restrict(
                final(self).ids_map().values(),
            ),
            old(self).wf() ==> final(self).wf(),
    {
        proof {
            if self.wf() {
                law_retain_keeps_live_ids(self.ids_map(), self.names_map(), name_set(live@));
            }
        }
        let kept = live_entries(&self.ids, live);
        let kept_names = held_entries(&self.names, &kept);
        self.ids = kept;
        self.names = kept_names;
    }

    /// The name of the workspace with the given id.
    pub fn name_for(&self, id: i32) -> (r: Option<&str>)
        requires
            self.entries_unique(),
        ensures
            r is Some <==> self.names_map().contains_key(id),
            r matches Some(n) ==> n@ == self.names_map()[id],
    {
        match self.index_of_id(id) {
            Some(i) => {
                proof {
                    lemma_names_at(self.names@, i as int);
                }
                Some(self.names[i].1.as_str())
            },
            None => None,
        }
    }
}

// ---------------------------------------------------------------------------
// Commands
// ---------------------------------------------------------------------------

/// A character as it stands inside a quoted sway argument.
pub open spec fn escaped_char(c: char) -> Seq<char> {
    if c == '\\' {
        seq!['\\', '\\']
    } else if c == '"' {
        seq!['\\', '"']
    } else {
        seq![c]
    }
}

/// A string with every backslash and double quote escaped.
pub open spec fn escaped(s: Seq<char>) -> Seq<char>
    decreases s.len(),
{
    if s.len() == 0 {
        Seq::empty()
    } else {
        escaped(s.drop_last()) + escaped_char(s.last())
    }
}

/// Quotes a sway command argument: workspace and output names can contain
/// spaces and, in principle, quotes.
pub fn quote(value: &str) -> (r: String)
    ensures
        r@ == seq!['"'] + escaped(value@) + seq!['"'],
{
    let mut out = String::new();
    push_char(&mut out, '"');
    let n = value.unicode_len();
    let mut i: usize = 0;
    while i < n
        invariant
            n == value@.len(),
            i <= n,
            out@ == seq!['"'] + escaped(value@.take(i as int)),
        decreases n - i,
    {
        let c = value.get_char(i);
        if c == '\\' {
            push_char(&mut out, '\\');
            push_char(&mut out, '\\');
        } else if c == '"' {
            push_char(&mut out, '\\');
            push_char(&mut out, '"');
        } else {
            push_char(&mut out, c);
        }
        assert(value@.take(i + 1).drop_last() =~= value@.take(i as int));
        i = i + 1;
        assert(out@ =~= seq!['"'] + escaped(value@.take(i as int)));
    }
    assert(value@.take(n as int) =~= value@);
    push_char(&mut out, '"');
    out
}

// ---------------------------------------------------------------------------
// Views
// ---------------------------------------------------------------------------

/// Only views are windows: a split container is a `con` as well, `app_id`
/// is absent for XWayland views and `window_properties` for xdg-shell ones;
/// `shell` and `pid` are set for every view.
pub open spec fn is_view_spec(n: SwayNode) -> bool {
    (n.node_type == NodeType::Con || n.node_type == NodeType::FloatingCon) && (n.shell is Some
        || n.pid is Some || n.app_id is Some || n.window_properties is Some)
}

pub fn is_view(node: &SwayNode) -> (r: bool)
    ensures
        r == is_view_spec(*node),
{
    (node.node_type == NodeType::Con || node.node_type == NodeType::FloatingCon) && (
    node.shell.is_some() || node.pid.is_some() || node.app_id.is_some()
        || node.window_properties.is_some())
}

/// The class of a view: its `app_id`, else the X11 class; an empty class is
/// no class.
pub open spec fn window_class_spec(n: SwayNode) -> Option<Seq<char>> {
    let c: Option<Seq<char>> = match n.app_id {
        Some(a) => Some(a@),
        None => match n.window_properties {
            Some(p) => match p.class {
                Some(c) => Some(c@),
                None => None,
            },
            None => None,
        },
    };
    match c {
        Some(s) => if s.len() > 0 {
            Some(s)
        } else {
            None
        },
        None => None,
    }
}

pub fn window_class(node: &SwayNode) -> (r: Option<String>)
    ensures
        match r {
            Some(s) => window_class_spec(*node) == Some(s@),
            None => window_class_spec(*node) is None,
        },
{
    let c: Option<String> = match &node.app_id {
        Some(a) => Some(a.clone()),
        None => match &node.window_properties {
            Some(p) => match &p.class {
                Some(c) => Some(c.clone()),
                None => None,
            },
            None => None,
        },
    };
    match c {
        Some(s) => if s.as_str().unicode_len() > 0 {
            Some(s)
        } else {
            None
        },
        None => None,
    }
}

// ---------------------------------------------------------------------------
// Tree walk
// ---------------------------------------------------------------------------

/// The nodes of a tree in the order sway's `Node::iter` yields them: a node,
/// then its floating children and then its tiled children, each list from
/// its last element back, every child followed by its own subtree.
pub open spec fn walk(n: SwayNode) -> Seq<SwayNode>
    decreases n, 1int,
{
    seq![n] + walk_rev(n.floating_nodes@) + walk_rev(n.nodes@)
}

/// The walks of a list of siblings, from the last one back.
pub open spec fn walk_rev(s: Seq<SwayNode>) -> Seq<SwayNode>
    decreases s, 0int,
{
    if s.len() == 0 {
        Seq::empty()
    } else {
        walk(s[s.len() - 1]) + walk_rev(s.subrange(0, s.len() - 1))
    }
}

/// How many views a sequence of nodes holds.
pub open spec fn view_count(s: Seq<SwayNode>) -> nat
    decreases s.len(),
{
    if s.len() == 0 {
        0
    } else {
        view_count(s.drop_last()) + if is_view_spec(s.last()) {
            1nat
        } else {
            0nat
        }
    }
}

/// The classes of the views of a sequence of nodes, views without a class
/// left out.
pub open spec fn view_classes(s: Seq<SwayNode>) -> Seq<Seq<char>>
    decreases s.len(),
{
    if s.len() == 0 {
        Seq::empty()
    } else {
        view_classes(s.drop_last()) + if is_view_spec(s.last()) && window_class_spec(s.last()) is Some {
            seq![window_class_spec(s.last())->0]
        } else {
            Seq::empty()
        }
    }
}

proof fn lemma_tally_add(a: Seq<SwayNode>, b: Seq<SwayNode>)
    ensures
        view_count(a + b) == view_count(a) + view_count(b),
        view_classes(a + b) == view_classes(a) + view_classes(b),
    decreases b.len(),
{
    if b.len() == 0 {
        assert(a + b =~= a);
        assert(view_classes(a) + view_classes(b) =~= view_classes(a));
    } else {
        lemma_tally_add(a, b.drop_last());
        assert((a + b).drop_last() =~= a + b.drop_last());
        assert((a + b).last() == b.last());
        assert(view_classes(a + b) =~= view_classes(a) + view_classes(b));
    }
}

/// The views of a sequence of strings.
pub open spec fn strs(v: Seq<String>) -> Seq<Seq<char>> {
    v.map_values(|c: String| c@)
}

/// A count that stops at `u16::MAX`.
pub open spec fn sat_u16(n: int) -> u16 {
    if n < u16::MAX {
        n as u16
    } else {
        u16::MAX
    }
}

/// Counts the views of the subtree of `n` into `windows`, and collects
/// their classes into `classes` when asked to.
fn tally(n: &SwayNode, collect: bool, windows: &mut u16, classes: &mut Vec<String>)
    ensures
        *final(windows) == sat_u16(*old(windows) + view_count(walk(*n))),
        strs(final(classes)@) == strs(old(classes)@) + if collect {
            view_classes(walk(*n))
        } else {
            Seq::empty()
        },
    decreases *n,
{
    proof {
        reveal_with_fuel(view_count, 2);
        reveal_with_fuel(view_classes, 2);
        assert(seq![*n].drop_last() =~= Seq::<SwayNode>::empty());
    }
    let ghost w0 = *windows;
    let ghost c0 = strs(classes@);
    if is_view(n) {
        *windows = windows.saturating_add(1);
        if collect {
            if let Some(class) = window_class(n) {
                let ghost before = classes@;
                classes.push(class);
                assert(strs(classes@) =~= strs(before).push(class@));
            }
        }
    }
    let ghost mut done: Seq<SwayNode> = seq![*n];
    assert(*windows == sat_u16(w0 + view_count(done)));
    assert(strs(classes@) =~= c0 + if collect { view_classes(done) } else { Seq::empty() });
    let mut k: usize = n.floating_nodes.len();
    assert(n.floating_nodes@.subrange(0, k as int) =~= n.floating_nodes@);
    while k > 0
        invariant
            k <= n.floating_nodes@.len(),
            walk(*n) == done + walk_rev(n.floating_nodes@.subrange(0, k as int)) + walk_rev(
                n.nodes@,
            ),
            *windows == sat_u16(w0 + view_count(done)),
            strs(classes@) == c0 + if collect {
                view_classes(done)
            } else {
                Seq::empty()
            },
        decreases k,
    {
        let ghost sub = n.floating_nodes@.subrange(0, k as int);
        assert(sub.subrange(0, sub.len() - 1) =~= n.floating_nodes@.subrange(0, k - 1));
        assert(sub[sub.len() - 1] == n.floating_nodes@[k - 1]);
        let ghost w = walk(n.floating_nodes@[k - 1]);
        tally(&n.floating_nodes[k - 1], collect, windows, classes);
        proof {
            lemma_tally_add(done, w);
            assert(done + w + walk_rev(n.floating_nodes@.subrange(0, k - 1)) + walk_rev(n.nodes@)
                =~= done + walk_rev(sub) + walk_rev(n.nodes@));
            done = done + w;
        }
        k = k - 1;
    }
    let mut k: usize = n.nodes.len();
    assert(n.nodes@.subrange(0, k as int) =~= n.nodes@);
    assert(n.floating_nodes@.subrange(0, 0) =~= Seq::<SwayNode>::empty());
    assert(walk(*n) =~= done + walk_rev(n.nodes@.subrange(0, k as int)));
    while k > 0
        invariant
            k <= n.nodes@.len(),
            walk(*n) == done + walk_rev(n.nodes@.subrange(0, k as int)),
            *windows == sat_u16(w0 + view_count(done)),
            strs(classes@) == c0 + if collect {
                view_classes(done)
            } else {
                Seq::empty()
            },
        decreases k,
    {
        let ghost sub = n.nodes@.subrange(0, k as int);
        assert(sub.subrange(0, sub.len() - 1) =~= n.nodes@.subrange(0, k - 1));
        assert(sub[sub.len() - 1] == n.nodes@[k - 1]);
        let ghost w = walk(n.nodes@[k - 1]);
        tally(&n.nodes[k - 1], collect, windows, classes);
        proof {
            lemma_tally_add(done, w);
            assert(done + w + walk_rev(n.nodes@.subrange(0, k - 1)) =~= done + walk_rev(sub));
            done = done + w;
        }
        k = k - 1;
    }
    assert(n.nodes@.subrange(0, 0) =~= Seq::<SwayNode>::empty());
    assert(walk(*n) =~= done);
}

/// What the tree says of one workspace: its name, how many windows it
/// holds (stopping at `u16::MAX`) and, when asked for, their classes.
pub struct WorkspaceContents {
    pub name: String,
    pub windows: u16,
    pub classes: Vec<String>,
}

/// The contents of a workspace as plain values.
pub open spec fn entry_view(c: WorkspaceContents) -> (Seq<char>, u16, Seq<Seq<char>>) {
    (c.name@, c.windows, strs(c.classes@))
}

pub open spec fn entries_view(v: Seq<WorkspaceContents>) -> Seq<(Seq<char>, u16, Seq<Seq<char>>)> {
    v.map_values(|c: WorkspaceContents| entry_view(c))
}

/// A workspace node that carries a name.
pub open spec fn is_named_workspace(n: SwayNode) -> bool {
    n.node_type == NodeType::Workspace && n.name is Some
}

/// The contents of the workspace node `n`: the views in its own walk.
pub open spec fn contents_of(n: SwayNode, collect: bool) -> (Seq<char>, u16, Seq<Seq<char>>) {
    (
        n.name->0@,
        sat_u16(view_count(walk(n)) as int),
        if collect {
            view_classes(walk(n))
        } else {
            Seq::empty()
        },
    )
}

/// The contents of the named workspaces of a sequence of nodes, in order.
pub open spec fn workspace_entries(s: Seq<SwayNode>, collect: bool) -> Seq<
    (Seq<char>, u16, Seq<Seq<char>>),
>
    decreases s.len(),
{
    if s.len() == 0 {
        Seq::empty()
    } else {
        workspace_entries(s.drop_last(), collect) + if is_named_workspace(s.last()) {
            seq![contents_of(s.last(), collect)]
        } else {
            Seq::empty()
        }
    }
}

proof fn lemma_entries_add(a: Seq<SwayNode>, b: Seq<SwayNode>, collect: bool)
    ensures
        workspace_entries(a + b, collect) == workspace_entries(a, collect) + workspace_entries(
            b,
            collect,
        ),
    decreases b.len(),
{
    if b.len() == 0 {
        assert(a + b =~= a);
        assert(workspace_entries(a, collect) + workspace_entries(b, collect) =~= workspace_entries(
            a,
            collect,
        ));
    } else {
        lemma_entries_add(a, b.drop_last(), collect);
        assert((a + b).drop_last() =~= a + b.drop_last());
        assert((a + b).last() == b.last());
        assert(workspace_entries(a + b, collect) =~= workspace_entries(a, collect)
            + workspace_entries(b, collect));
    }
}

fn collect_workspaces(n: &SwayNode, collect: bool, out: &mut Vec<WorkspaceContents>)
    ensures
        entries_view(final(out)@) == entries_view(old(out)@) + workspace_entries(walk(*n), collect),
    decreases *n,
{
    proof {
        reveal_with_fuel(workspace_entries, 2);
        assert(seq![*n].drop_last() =~= Seq::<SwayNode>::empty());
    }
    let ghost e0 = entries_view(out@);
    if n.node_type == NodeType::Workspace {
        if let Some(name) = &n.name {
            let mut windows: u16 = 0;
            let mut classes: Vec<String> = Vec::new();
            tally(n, collect, &mut windows, &mut classes);
            assert(strs(classes@) =~= if collect {
                view_classes(walk(*n))
            } else {
                Seq::<Seq<char>>::empty()
            });
            let ghost before = out@;
            out.push(WorkspaceContents { name: name.clone(), windows, classes });
            assert(entries_view(out@) =~= entries_view(before).push(contents_of(*n, collect)));
        }
    }
    let ghost mut done: Seq<SwayNode> = seq![*n];
    assert(entries_view(out@) =~= e0 + workspace_entries(done, collect));
    let mut k: usize = n.floating_nodes.len();
    assert(n.floating_nodes@.subrange(0, k as int) =~= n.floating_nodes@);
    while k > 0
        invariant
            k <= n.floating_nodes@.len(),
            walk(*n) == done + walk_rev(n.floating_nodes@.subrange(0, k as int)) + walk_rev(
                n.nodes@,
            ),
            entries_view(out@) == e0 + workspace_entries(done, collect),
        decreases k,
    {
        let ghost sub = n.floating_nodes@.subrange(0, k as int);
        assert(sub.subrange(0, sub.len() - 1) =~= n.floating_nodes@.subrange(0, k - 1));
        assert(sub[sub.len() - 1] == n.floating_nodes@[k - 1]);
        let ghost w = walk(n.floating_nodes@[k - 1]);
        collect_workspaces(&n.floating_nodes[k - 1], collect, out);
        proof {
            lemma_entries_add(done, w, collect);
            assert(done + w + walk_rev(n.floating_nodes@.subrange(0, k - 1)) + walk_rev(n.nodes@)
                =~= done + walk_rev(sub) + walk_rev(n.nodes@));
            assert(entries_view(out@) =~= e0 + workspace_entries(done + w, collect));
            done = done + w;
        }
        k = k - 1;
    }
    let mut k: usize = n.nodes.len();
    assert(n.nodes@.subrange(0, k as int) =~= n.nodes@);
    assert(n.floating_nodes@.subrange(0, 0) =~= Seq::<SwayNode>::empty());
    assert(walk(*n) =~= done + walk_rev(n.nodes@.subrange(0, k as int)));
    while k > 0
        invariant
            k <= n.nodes@.len(),
            walk(*n) == done + walk_rev(n.nodes@.subrange(0, k as int)),
            entries_view(out@) == e0 + workspace_entries(done, collect),
        decreases k,
    {
        let ghost sub = n.nodes@.subrange(0, k as int);
        assert(sub.subrange(0, sub.len() - 1) =~= n.nodes@.subrange(0, k - 1));
        assert(sub[sub.len() - 1] == n.nodes@[k - 1]);
        let ghost w = walk(n.nodes@[k - 1]);
        collect_workspaces(&n.nodes[k - 1], collect, out);
        proof {
            lemma_entries_add(done, w, collect);
            assert(done + w + walk_rev(n.nodes@.subrange(0, k - 1)) =~= done + walk_rev(sub));
            assert(entries_view(out@) =~= e0 + workspace_entries(done + w, collect));
            done = done + w;
        }
        k = k - 1;
    }
    assert(n.nodes@.subrange(0, 0) =~= Seq::<SwayNode>::empty());
    assert(walk(*n) =~= done);
}

/// Window count and, when icons are enabled, the window classes of every
/// named workspace in the tree, in the order the tree is walked.
pub fn workspace_contents(tree: Option<&SwayNode>, collect_classes: bool) -> (r: Vec<
    WorkspaceContents,
>)
    ensures
        entries_view(r@) == match tree {
            Some(t) => workspace_entries(walk(*t), collect_classes),
            None => Seq::empty(),
        },
{
    let mut out: Vec<WorkspaceContents> = Vec::new();
    assert(entries_view(out@) =~= Seq::<(Seq<char>, u16, Seq<Seq<char>>)>::empty());
    if let Some(t) = tree {
        collect_workspaces(t, collect_classes, &mut out);
        assert(entries_view(out@) =~= workspace_entries(walk(*t), collect_classes));
    }
    out
}

// ---------------------------------------------------------------------------
// Focus
// ---------------------------------------------------------------------------

/// The view that `find_focused_as_ref(is_view)` finds: the node itself
/// when it is a view, else the search continues in the child that comes
/// first in its focus list (tiled children searched before floating ones).
pub open spec fn focused_view(n: SwayNode) -> Option<SwayNode>
    decreases n, 1int,
{
    if is_view_spec(n) {
        Some(n)
    } else if n.focus@.len() == 0 {
        None
    } else {
        match focused_child(n.nodes@, n.focus@[0], 0) {
            Some(r) => r,
            None => match focused_child(n.floating_nodes@, n.focus@[0], 0) {
                Some(r) => r,
                None => None,
            },
        }
    }
}

/// The search in the first sibling from index `i` on whose id is `id`:
/// `None` when there is no such sibling.
pub open spec fn focused_child(s: Seq<SwayNode>, id: i64, i: nat) -> Option<Option<SwayNode>>
    decreases s, s.len() - i,
{
    if i >= s.len() {
        None
    } else if s[i as int].id == id {
        Some(focused_view(s[i as int]))
    } else {
        focused_child(s, id, i + 1)
    }
}

fn find_child(s: &Vec<SwayNode>, id: i64) -> (r: Option<usize>)
    ensures
        match r {
            Some(i) => i < s@.len() && focused_child(s@, id, 0) == Some(focused_view(s@[i as int])),
            None => focused_child(s@, id, 0) is None,
        },
{
    let mut i: usize = 0;
    while i < s.len()
        invariant
            i <= s@.len(),
            focused_child(s@, id, 0) == focused_child(s@, id, i as nat),
        decreases s@.len() - i,
    {
        if s[i].id == id {
            return Some(i);
        }
        i = i + 1;
    }
    None
}

/// Follows the focus chain down to the first view.
pub fn find_focused_view(n: &SwayNode) -> (r: Option<&SwayNode>)
    ensures
        match r {
            Some(v) => focused_view(*n) == Some(*v),
            None => focused_view(*n) is None,
        },
    decreases *n,
{
    if is_view(n) {
        return Some(n);
    }
    if n.focus.len() == 0 {
        return None;
    }
    let first = n.focus[0];
    match find_child(&n.nodes, first) {
        Some(i) => find_focused_view(&n.nodes[i]),
        None => match find_child(&n.floating_nodes, first) {
            Some(i) => find_focused_view(&n.floating_nodes[i]),
            None => None,
        },
    }
}

// ---------------------------------------------------------------------------
// Outputs
// ---------------------------------------------------------------------------

pub open spec fn lex_sorted(s: Seq<Seq<char>>) -> bool {
    forall|i: int, j: int| 0 <= i < j < s.len() ==> !lex_lt(#[trigger] s[j], #[trigger] s[i])
}

/// The names of the active outputs, in reply order.
pub open spec fn active_outputs(outs: Seq<SwayOutput>) -> Seq<Seq<char>>
    decreases outs.len(),
{
    if outs.len() == 0 {
        Seq::empty()
    } else {
        active_outputs(outs.drop_last()) + if outs.last().active {
            seq![outs.last().name@]
        } else {
            Seq::empty()
        }
    }
}

/// The names of the active outputs, sorted.
pub fn sorted_active_outputs(outputs: &Vec<SwayOutput>) -> (r: Vec<String>)
    ensures
        lex_sorted(strs(r@)),
        strs(r@).to_multiset() == active_outputs(outputs@).to_multiset(),
{
    let mut r: Vec<String> = Vec::new();
    let mut i: usize = 0;
    assert(strs(r@) =~= active_outputs(outputs@.take(0)));
    while i < outputs.len()
        invariant
            i <= outputs@.len(),
            lex_sorted(strs(r@)),
            strs(r@).to_multiset() == active_outputs(outputs@.take(i as int)).to_multiset(),
        decreases outputs@.len() - i,
    {
        assert(outputs@.take(i + 1).drop_last() =~= outputs@.take(i as int));
        if outputs[i].active {
            let name = outputs[i].name.clone();
            let mut p: usize = 0;
            while p < r.len() && !str_lt(name.as_str(), r[p].as_str())
                invariant
                    p <= r@.len(),
                    forall|q: int| 0 <= q < p ==> !lex_lt(name@, #[trigger] strs(r@)[q]),
                decreases r@.len() - p,
            {
                p = p + 1;
            }
            let ghost old_r = strs(r@);
            proof {
                assert forall|q: int| p <= q < old_r.len() implies lex_lt(name@, #[trigger] old_r[q]) by {
                    if q > p {
                        assert(!lex_lt(old_r[q], old_r[p as int]));
                        lemma_lex_total(old_r[q], old_r[p as int]);
                        if old_r[q] != old_r[p as int] {
                            lemma_lex_trans(name@, old_r[p as int], old_r[q]);
                        }
                    }
                }
            }
            let ghost name_view = name@;
            r.insert(p, name);
            proof {
                let now = strs(r@);
                assert(now =~= old_r.insert(p as int, name_view));
                assert(active_outputs(outputs@.take(i + 1)) =~= active_outputs(
                    outputs@.take(i as int),
                ).push(name_view));
                assert forall|x: int, y: int| 0 <= x < y < now.len() implies !lex_lt(
                    #[trigger] now[y],
                    #[trigger] now[x],
                ) by {
                    if x < p && y < p {
                        assert(now[x] == old_r[x] && now[y] == old_r[y]);
                    } else if x < p && y == p {
                        assert(now[x] == old_r[x]);
                    } else if x < p {
                        assert(now[x] == old_r[x] && now[y] == old_r[y - 1]);
                    } else if x == p {
                        assert(now[y] == old_r[y - 1]);
                        lemma_lex_asym(name@, old_r[y - 1]);
                    } else {
                        assert(now[x] == old_r[x - 1] && now[y] == old_r[y - 1]);
                    }
                }
                vstd::seq_lib::to_multiset_insert(old_r, p as int, name_view);
                vstd::seq_lib::to_multiset_build(active_outputs(outputs@.take(i as int)), name_view);
                assert(old_r.insert(p as int, name_view).to_multiset() == old_r.to_multiset().insert(
                    name_view,
                ));
                assert(active_outputs(outputs@.take(i as int)).push(name_view).to_multiset()
                    == active_outputs(outputs@.take(i as int)).to_multiset().insert(name_view));
            }
        } else {
            assert(active_outputs(outputs@.take(i + 1)) =~= active_outputs(
                outputs@.take(i as int),
            ));
        }
        i = i + 1;
    }
    assert(outputs@.take(outputs@.len() as int) =~= outputs@);
    r
}

// ---------------------------------------------------------------------------
// Lookups
// ---------------------------------------------------------------------------

/// The last index at which `x` stands in `s`.
pub open spec fn last_index_of(s: Seq<Seq<char>>, x: Seq<char>) -> Option<int>
    decreases s.len(),
{
    if s.len() == 0 {
        None
    } else if s.last() == x {
        Some(s.len() - 1)
    } else {
        last_index_of(s.drop_last(), x)
    }
}

/// The monitor id of an output: its position among the sorted active
/// outputs (the last one, should a name occur twice).
pub open spec fn monitor_id_of(sorted: Seq<Seq<char>>, output: Seq<char>) -> Option<i128> {
    match last_index_of(sorted, output) {
        Some(j) => Some(j as i128),
        None => None,
    }
}

fn monitor_index(names: &Vec<String>, output: &str) -> (r: Option<i128>)
    ensures
        r == monitor_id_of(strs(names@), output@),
{
    let mut k: usize = names.len();
    assert(strs(names@).take(k as int) =~= strs(names@));
    while k > 0
        invariant
            k <= names@.len(),
            last_index_of(strs(names@), output@) == last_index_of(strs(names@).take(k as int), output@),
        decreases k,
    {
        assert(strs(names@).take(k as int).drop_last() =~= strs(names@).take(k - 1));
        assert(strs(names@).take(k as int).last() == names@[k - 1]@);
        if str_eq(names[k - 1].as_str(), output) {
            return Some((k - 1) as i128);
        }
        k = k - 1;
    }
    None
}

/// The contents recorded last under a name.
pub open spec fn last_entry(es: Seq<(Seq<char>, u16, Seq<Seq<char>>)>, name: Seq<char>) -> Option<
    (u16, Seq<Seq<char>>),
>
    decreases es.len(),
{
    if es.len() == 0 {
        None
    } else if es.last().0 == name {
        Some((es.last().1, es.last().2))
    } else {
        last_entry(es.drop_last(), name)
    }
}

fn clone_strings(v: &Vec<String>) -> (r: Vec<String>)
    ensures
        strs(r@) == strs(v@),
{
    let mut r: Vec<String> = Vec::new();
    let mut i: usize = 0;
    while i < v.len()
        invariant
            i <= v@.len(),
            strs(r@) == strs(v@).take(i as int),
        decreases v@.len() - i,
    {
        let c = v[i].clone();
        assert(c@ == v@[i as int]@);
        let ghost before = r@;
        r.push(c);
        assert(strs(r@) =~= strs(before).push(c@));
        assert(strs(v@).take(i + 1) =~= strs(v@).take(i as int).push(v@[i as int]@));
        i = i + 1;
    }
    assert(strs(v@).take(v@.len() as int) =~= strs(v@));
    r
}

fn lookup_contents(entries: &Vec<WorkspaceContents>, name: &str) -> (r: (u16, Vec<String>))
    ensures
        (r.0, strs(r.1@)) == match last_entry(entries_view(entries@), name@) {
            Some(e) => e,
            None => (0u16, Seq::empty()),
        },
{
    let mut k: usize = entries.len();
    assert(entries_view(entries@).take(k as int) =~= entries_view(entries@));
    while k > 0
        invariant
            k <= entries@.len(),
            last_entry(entries_view(entries@), name@) == last_entry(
                entries_view(entries@).take(k as int),
                name@,
            ),
        decreases k,
    {
        assert(entries_view(entries@).take(k as int).drop_last() =~= entries_view(entries@).take(
            k - 1,
        ));
        assert(entries_view(entries@).take(k as int).last() == entry_view(entries@[k - 1]));
        if str_eq(entries[k - 1].name.as_str(), name) {
            return (entries[k - 1].windows, clone_strings(&entries[k - 1].classes));
        }
        k = k - 1;
    }
    let empty: Vec<String> = Vec::new();
    assert(strs(empty@) =~= Seq::<Seq<char>>::empty());
    (0, empty)
}

/// The first output of the given name.
pub open spec fn first_output(outs: Seq<SwayOutput>, name: Seq<char>) -> Option<SwayOutput>
    decreases outs.len(),
{
    if outs.len() == 0 {
        None
    } else if outs[0].name@ == name {
        Some(outs[0])
    } else {
        first_output(outs.drop_first(), name)
    }
}

/// The name of the first workspace shown on the given output.
pub open spec fn first_visible(ws: Seq<SwayWorkspace>, output: Seq<char>) -> Option<Seq<char>>
    decreases ws.len(),
{
    if ws.len() == 0 {
        None
    } else if ws[0].visible && ws[0].output@ == output {
        Some(ws[0].name@)
    } else {
        first_visible(ws.drop_first(), output)
    }
}

/// The workspace shown on an output: the output's `current_workspace`,
/// else the first visible workspace placed on it. `focused` is global, so
/// it would leave every unfocused output without a workspace.
pub open spec fn shown_on(outs: Seq<SwayOutput>, ws: Seq<SwayWorkspace>, output: Seq<char>) -> Option<
    Seq<char>,
> {
    match first_output(outs, output) {
        Some(o) => match o.current_workspace {
            Some(c) => Some(c@),
            None => first_visible(ws, output),
        },
        None => first_visible(ws, output),
    }
}

fn find_shown<'a>(outputs: &'a Vec<SwayOutput>, workspaces: &'a Vec<SwayWorkspace>, output: &str) -> (r:
    Option<&'a str>)
    ensures
        match r {
            Some(n) => shown_on(outputs@, workspaces@, output@) == Some(n@),
            None => shown_on(outputs@, workspaces@, output@) is None,
        },
{
    let mut i: usize = 0;
    let mut searching = true;
    assert(outputs@.skip(0) =~= outputs@);
    while searching && i < outputs.len()
        invariant
            i <= outputs@.len(),
            searching ==> first_output(outputs@, output@) == first_output(
                outputs@.skip(i as int),
                output@,
            ),
            !searching ==> shown_on(outputs@, workspaces@, output@) == first_visible(
                workspaces@,
                output@,
            ),
        decreases outputs@.len() - i + if searching {
            1int
        } else {
            0int
        },
    {
        assert(outputs@.skip(i as int).drop_first() =~= outputs@.skip(i + 1));
        assert(outputs@.skip(i as int)[0] == outputs@[i as int]);
        if str_eq(outputs[i].name.as_str(), output) {
            if let Some(c) = &outputs[i].current_workspace {
                return Some(c.as_str());
            }
            searching = false;
        } else {
            i = i + 1;
        }
    }
    if searching {
        assert(outputs@.skip(i as int).len() == 0);
    }
    let mut j: usize = 0;
    assert(workspaces@.skip(0) =~= workspaces@);
    while j < workspaces.len()
        invariant
            j <= workspaces@.len(),
            shown_on(outputs@, workspaces@, output@) == first_visible(workspaces@, output@),
            first_visible(workspaces@, output@) == first_visible(workspaces@.skip(j as int), output@),
        decreases workspaces@.len() - j,
    {
        assert(workspaces@.skip(j as int).drop_first() =~= workspaces@.skip(j + 1));
        assert(workspaces@.skip(j as int)[0] == workspaces@[j as int]);
        if workspaces[j].visible && str_eq(workspaces[j].output.as_str(), output) {
            return Some(workspaces[j].name.as_str());
        }
        j = j + 1;
    }
    None
}

/// The id of the first workspace of the given name.
pub open spec fn first_id_named(ws: Seq<CompositorWorkspace>, name: Seq<char>) -> Option<i32>
    decreases ws.len(),
{
    if ws.len() == 0 {
        None
    } else if ws[0].name@ == name {
        Some(ws[0].id)
    } else {
        first_id_named(ws.drop_first(), name)
    }
}

fn find_id_named(ws: &Vec<CompositorWorkspace>, name: &str) -> (r: Option<i32>)
    ensures
        r == first_id_named(ws@, name@),
{
    let mut i: usize = 0;
    assert(ws@.skip(0) =~= ws@);
    while i < ws.len()
        invariant
            i <= ws@.len(),
            first_id_named(ws@, name@) == first_id_named(ws@.skip(i as int), name@),
        decreases ws@.len() - i,
    {
        assert(ws@.skip(i as int).drop_first() =~= ws@.skip(i + 1));
        assert(ws@.skip(i as int)[0] == ws@[i as int]);
        if str_eq(ws[i].name.as_str(), name) {
            return Some(ws[i].id);
        }
        i = i + 1;
    }
    None
}

// ---------------------------------------------------------------------------
// Keyboard layout and submap
// ---------------------------------------------------------------------------

/// A keyboard whose active layout is known and not empty.
pub open spec fn layout_candidate(input: SwayInput) -> bool {
    input.input_type@ == "keyboard"@ && input.xkb_active_layout_name is Some
        && input.xkb_active_layout_name->0@.len() > 0
}

/// Input `i` is the keyboard whose layout is shown: among the candidates,
/// the first of those with the most configured layouts. Power buttons and
/// lid switches report a single default layout.
pub open spec fn shown_keyboard(inputs: Seq<SwayInput>, i: int) -> bool {
    &&& 0 <= i < inputs.len()
    &&& layout_candidate(inputs[i])
    &&& forall|j: int|
        0 <= j < inputs.len() && layout_candidate(#[trigger] inputs[j])
            ==> inputs[j].xkb_layout_names@.len() <= inputs[i].xkb_layout_names@.len()
    &&& forall|j: int|
        0 <= j < i && layout_candidate(#[trigger] inputs[j])
            ==> inputs[j].xkb_layout_names@.len() < inputs[i].xkb_layout_names@.len()
}

/// The layout the bar shows, "Unknown" without a candidate.
pub open spec fn keyboard_layout_of(inputs: Seq<SwayInput>) -> Seq<char> {
    if exists|i: int| shown_keyboard(inputs, i) {
        inputs[choose|i: int| shown_keyboard(inputs, i)].xkb_active_layout_name->0@
    } else {
        "Unknown"@
    }
}

fn keyboard_layout(inputs: &Vec<SwayInput>) -> (r: String)
    ensures
        r@ == keyboard_layout_of(inputs@),
{
    let mut best: Option<usize> = None;
    let mut i: usize = 0;
    while i < inputs.len()
        invariant
            i <= inputs@.len(),
            match best {
                Some(b) => shown_keyboard(inputs@.take(i as int), b as int),
                None => forall|j: int| 0 <= j < i ==> !layout_candidate(#[trigger] inputs@[j]),
            },
        decreases inputs@.len() - i,
    {
        let candidate = str_eq(inputs[i].input_type.as_str(), "keyboard") && match &inputs[i].xkb_active_layout_name {
            Some(l) => l.as_str().unicode_len() > 0,
            None => false,
        };
        let ghost prev = best;
        if candidate {
            match best {
                Some(b) => {
                    if inputs[i].xkb_layout_names.len() > inputs[b].xkb_layout_names.len() {
                        best = Some(i);
                    }
                },
                None => {
                    best = Some(i);
                },
            }
        }
        proof {
            let t = inputs@.take(i + 1);
            assert forall|j: int| 0 <= j <= i implies #[trigger] t[j] == inputs@[j] by {}
            if let Some(b) = best {
                assert(t[b as int] == inputs@[b as int]);
                if let Some(pb) = prev {
                    assert(inputs@.take(i as int)[pb as int] == inputs@[pb as int]);
                    assert forall|j: int|
                        0 <= j < t.len() && layout_candidate(#[trigger] t[j]) implies t[j].xkb_layout_names@.len()
                        <= t[b as int].xkb_layout_names@.len() by {
                        if j < i {
                            assert(inputs@.take(i as int)[j] == t[j]);
                        }
                    }
                    assert forall|j: int|
                        0 <= j < b && layout_candidate(#[trigger] t[j]) implies t[j].xkb_layout_names@.len()
                        < t[b as int].xkb_layout_names@.len() by {
                        if j < i {
                            assert(inputs@.take(i as int)[j] == t[j]);
                        }
                    }
                }
            }
        }
        i = i + 1;
    }
    assert(inputs@.take(inputs@.len() as int) =~= inputs@);
    match best {
        Some(b) => {
            proof {
                assert forall|k: int| shown_keyboard(inputs@, k) implies k == b by {
                    if k < b {
                        assert(inputs@[k].xkb_layout_names@.len() <= inputs@[b as int].xkb_layout_names@.len());
                    } else if k > b {
                        assert(inputs@[b as int].xkb_layout_names@.len() <= inputs@[k].xkb_layout_names@.len());
                    }
                }
            }
            match &inputs[b].xkb_active_layout_name {
                Some(l) => l.clone(),
                None => "Unknown".to_owned(),
            }
        },
        None => {
            assert(!exists|k: int| shown_keyboard(inputs@, k));
            "Unknown".to_owned()
        },
    }
}

/// The binding mode sway is in, unless it is the default one.
pub open spec fn submap_of(binding_state: Option<String>) -> Option<Seq<char>> {
    match binding_state {
        Some(n) => if n@ != "default"@ {
            Some(n@)
        } else {
            None
        },
        None => None,
    }
}

fn submap(binding_state: &Option<String>) -> (r: Option<String>)
    ensures
        match r {
            Some(n) => submap_of(*binding_state) == Some(n@),
            None => submap_of(*binding_state) is None,
        },
{
    match binding_state {
        Some(n) => if str_eq(n.as_str(), "default") {
            None
        } else {
            Some(n.clone())
        },
        None => None,
    }
}

// ---------------------------------------------------------------------------
// Workspaces
// ---------------------------------------------------------------------------

/// The highest workspace number, and 0 when there is none above it.
pub open spec fn highest_num(ws: Seq<SwayWorkspace>) -> i32
    decreases ws.len(),
{
    if ws.len() == 0 {
        0
    } else {
        let h = highest_num(ws.drop_last());
        if ws.last().num > h {
            ws.last().num
        } else {
            h
        }
    }
}

/// How many workspaces carry no number (sway reports -1 for them).
pub open spec fn named_count(ws: Seq<SwayWorkspace>) -> nat
    decreases ws.len(),
{
    if ws.len() == 0 {
        0
    } else {
        named_count(ws.drop_last()) + if ws.last().num < 0 {
            1nat
        } else {
            0nat
        }
    }
}

proof fn lemma_named_count_le(ws: Seq<SwayWorkspace>)
    ensures
        named_count(ws) <= ws.len(),
    decreases ws.len(),
{
    if ws.len() > 0 {
        lemma_named_count_le(ws.drop_last());
    }
}

/// A sum that stops at `i32::MAX`.
pub open spec fn sat_i32(n: int) -> i32 {
    if n <= i32::MAX {
        n as i32
    } else {
        i32::MAX
    }
}

/// The bar position of workspace `i`: its number, else a dense index after
/// the highest number, counting the unnumbered workspaces in reply order.
pub open spec fn ws_index(ws: Seq<SwayWorkspace>, i: int) -> i32 {
    if ws[i].num >= 0 {
        ws[i].num
    } else {
        sat_i32(highest_num(ws) + named_count(ws.take(i + 1)))
    }
}

/// The registry after `id_for` was asked, in order, for every workspace,
/// and the ids it answered.
pub open spec fn registry_fold(
    ids: Map<Seq<char>, i32>,
    names: Map<i32, Seq<char>>,
    ws: Seq<SwayWorkspace>,
) -> (Map<Seq<char>, i32>, Map<i32, Seq<char>>, Seq<i32>)
    decreases ws.len(),
{
    if ws.len() == 0 {
        (ids, names, Seq::empty())
    } else {
        let prev = registry_fold(ids, names, ws.drop_last());
        let step = registry_step(prev.0, prev.1, ws.last().name@, ws.last().num);
        (step.0, step.1, prev.2.push(step.2))
    }
}

/// The tree contents that workspace `i` takes: those recorded last under
/// its name, unless an earlier workspace of the same name took them.
pub open spec fn contents_for(
    ws: Seq<SwayWorkspace>,
    entries: Seq<(Seq<char>, u16, Seq<Seq<char>>)>,
    i: int,
) -> (u16, Seq<Seq<char>>) {
    if exists|j: int| 0 <= j < i && ws[j].name@ == ws[i].name@ {
        (0u16, Seq::empty())
    } else {
        match last_entry(entries, ws[i].name@) {
            Some(e) => e,
            None => (0u16, Seq::empty()),
        }
    }
}

/// `w` is what the bar shows of sway workspace `i`.
pub open spec fn built_workspace(
    w: CompositorWorkspace,
    ws: Seq<SwayWorkspace>,
    i: int,
    id: i32,
    sorted: Seq<Seq<char>>,
    entries: Seq<(Seq<char>, u16, Seq<Seq<char>>)>,
) -> bool {
    &&& w.id == id
    &&& w.index == ws_index(ws, i)
    &&& w.name@ == ws[i].name@
    &&& w.monitor@ == ws[i].output@
    &&& w.monitor_id == monitor_id_of(sorted, ws[i].output@)
    &&& w.windows == contents_for(ws, entries, i).0
    &&& !w.is_special
    &&& w.has_urgent == ws[i].urgent
    &&& strs(w.window_classes@) == contents_for(ws, entries, i).1
}

/// The bar orders workspaces by monitor (unplaced ones last), then index.
pub open spec fn ws_key(w: CompositorWorkspace) -> (i128, i32) {
    (
        match w.monitor_id {
            Some(m) => m,
            None => i128::MAX,
        },
        w.index,
    )
}

pub open spec fn key_lt(a: (i128, i32), b: (i128, i32)) -> bool {
    a.0 < b.0 || (a.0 == b.0 && a.1 < b.1)
}

/// `out` holds the workspaces built from `ws`, sorted stably by key: `p[i]`
/// is the position in `ws` of `out[i]`.
pub open spec fn stable_build(
    out: Seq<CompositorWorkspace>,
    ws: Seq<SwayWorkspace>,
    ids: Seq<i32>,
    sorted: Seq<Seq<char>>,
    entries: Seq<(Seq<char>, u16, Seq<Seq<char>>)>,
    p: Seq<int>,
) -> bool {
    &&& p.len() == out.len()
    &&& forall|i: int|
        0 <= i < out.len() ==> 0 <= #[trigger] p[i] < out.len() && p[i] < ids.len()
            && built_workspace(out[i], ws, p[i], ids[p[i]], sorted, entries)
    &&& forall|i: int, j: int| 0 <= i < j < out.len() ==> #[trigger] p[i] != #[trigger] p[j]
    &&& forall|i: int, j: int|
        0 <= i < j < out.len() ==> !key_lt(ws_key(#[trigger] out[j]), ws_key(#[trigger] out[i]))
    &&& forall|i: int, j: int|
        0 <= i < j < out.len() && ws_key(#[trigger] out[i]) == ws_key(#[trigger] out[j]) ==> p[i]
            < p[j]
}

fn highest_of(ws: &Vec<SwayWorkspace>) -> (r: i32)
    ensures
        r == highest_num(ws@),
        r >= 0,
{
    let mut h: i32 = 0;
    let mut i: usize = 0;
    while i < ws.len()
        invariant
            i <= ws@.len(),
            h == highest_num(ws@.take(i as int)),
            h >= 0,
        decreases ws@.len() - i,
    {
        assert(ws@.take(i + 1).drop_last() =~= ws@.take(i as int));
        if ws[i].num > h {
            h = ws[i].num;
        }
        i = i + 1;
    }
    assert(ws@.take(ws@.len() as int) =~= ws@);
    h
}

fn taken_before(ws: &Vec<SwayWorkspace>, i: usize) -> (r: bool)
    requires
        i < ws@.len(),
    ensures
        r == exists|j: int| 0 <= j < i && ws@[j].name@ == ws@[i as int].name@,
{
    let mut j: usize = 0;
    while j < i
        invariant
            i < ws@.len(),
            j <= i,
            forall|q: int| 0 <= q < j ==> ws@[q].name@ != ws@[i as int].name@,
        decreases i - j,
    {
        if str_eq(ws[j].name.as_str(), ws[i].name.as_str()) {
            return true;
        }
        j = j + 1;
    }
    false
}

fn key_of(w: &CompositorWorkspace) -> (r: (i128, i32))
    ensures
        r == ws_key(*w),
{
    (
        match w.monitor_id {
            Some(m) => m,
            None => i128::MAX,
        },
        w.index,
    )
}

fn key_less(a: (i128, i32), b: (i128, i32)) -> (r: bool)
    ensures
        r == key_lt(a, b),
{
    a.0 < b.0 || (a.0 == b.0 && a.1 < b.1)
}

proof fn lemma_insert_stable(
    before: Seq<CompositorWorkspace>,
    pbefore: Seq<int>,
    w: CompositorWorkspace,
    p: int,
    ws: Seq<SwayWorkspace>,
    ids: Seq<i32>,
    mnames: Seq<Seq<char>>,
    es: Seq<(Seq<char>, u16, Seq<Seq<char>>)>,
)
    requires
        ids.len() == before.len() + 1,
        stable_build(before, ws, ids.drop_last(), mnames, es, pbefore),
        built_workspace(w, ws, before.len() as int, ids[before.len() as int], mnames, es),
        0 <= p <= before.len(),
        forall|q: int| 0 <= q < p ==> !key_lt(ws_key(w), ws_key(#[trigger] before[q])),
        forall|q: int| p <= q < before.len() ==> key_lt(ws_key(w), ws_key(#[trigger] before[q])),
    ensures
        stable_build(before.insert(p, w), ws, ids, mnames, es, pbefore.insert(p, before.len() as int)),
{
    let k = before.len() as int;
    let now = before.insert(p, w);
    let perm = pbefore.insert(p, k);
    let old_ids = ids.drop_last();
    assert forall|i: int| 0 <= i < now.len() implies 0 <= #[trigger] perm[i] < now.len() && perm[i]
        < ids.len() && built_workspace(now[i], ws, perm[i], ids[perm[i]], mnames, es) by {
        if i < p {
            assert(now[i] == before[i] && perm[i] == pbefore[i]);
            assert(0 <= pbefore[i] < k);
            assert(ids[pbefore[i]] == old_ids[pbefore[i]]);
        } else if i > p {
            assert(now[i] == before[i - 1] && perm[i] == pbefore[i - 1]);
            assert(0 <= pbefore[i - 1] < k);
            assert(ids[pbefore[i - 1]] == old_ids[pbefore[i - 1]]);
        }
    }
    assert forall|i: int, j: int| 0 <= i < j < now.len() implies #[trigger] perm[i]
        != #[trigger] perm[j] by {
        if i < p && j < p {
            assert(perm[i] == pbefore[i] && perm[j] == pbefore[j]);
        } else if i < p && j > p {
            assert(perm[i] == pbefore[i] && perm[j] == pbefore[j - 1]);
            if i != j - 1 {
            }
        } else if i > p && j > p {
            assert(perm[i] == pbefore[i - 1] && perm[j] == pbefore[j - 1]);
        } else if i < p {
            assert(perm[i] == pbefore[i] && 0 <= pbefore[i] < k);
        } else {
            assert(perm[j] == pbefore[j - 1] && 0 <= pbefore[j - 1] < k);
        }
    }
    assert forall|i: int, j: int| 0 <= i < j < now.len() implies !key_lt(
        ws_key(#[trigger] now[j]),
        ws_key(#[trigger] now[i]),
    ) by {
        if i < p && j < p {
            assert(now[i] == before[i] && now[j] == before[j]);
        } else if i < p && j > p {
            assert(now[i] == before[i] && now[j] == before[j - 1]);
        } else if i > p && j > p {
            assert(now[i] == before[i - 1] && now[j] == before[j - 1]);
        } else if i < p {
            assert(now[i] == before[i]);
        } else {
            assert(now[j] == before[j - 1]);
        }
    }
    assert forall|i: int, j: int|
        0 <= i < j < now.len() && ws_key(#[trigger] now[i]) == ws_key(
            #[trigger] now[j],
        ) implies perm[i] < perm[j] by {
        if i < p && j < p {
            assert(now[i] == before[i] && now[j] == before[j]);
            assert(perm[i] == pbefore[i] && perm[j] == pbefore[j]);
        } else if i < p && j > p {
            assert(now[i] == before[i] && now[j] == before[j - 1]);
            assert(perm[i] == pbefore[i] && perm[j] == pbefore[j - 1]);
        } else if i > p && j > p {
            assert(now[i] == before[i - 1] && now[j] == before[j - 1]);
            assert(perm[i] == pbefore[i - 1] && perm[j] == pbefore[j - 1]);
        } else if i < p {
            assert(now[i] == before[i] && perm[i] == pbefore[i] && 0 <= pbefore[i] < k);
        } else {
            assert(now[j] == before[j - 1]);
        }
    }
}

/// Asks the registry for the id of every workspace, in reply order, builds
/// the bar's workspaces and sorts them stably by monitor and index.
fn build_workspaces(
    workspaces: &Vec<SwayWorkspace>,
    registry: &mut WorkspaceRegistry,
    sorted: &Vec<String>,
    entries: &Vec<WorkspaceContents>,
) -> (out: Vec<CompositorWorkspace>)
    requires
        old(registry).entries_unique(),
        workspaces@.len() <= i32::MAX,
    ensures
        final(registry).entries_unique(),
        out@.len() == workspaces@.len(),
        ({
            let fold = registry_fold(old(registry).ids_map(), old(registry).names_map(), workspaces@);
            &&& final(registry).ids_map() == fold.0
            &&& final(registry).names_map() == fold.1
            &&& exists|p: Seq<int>|
                #[trigger] stable_build(out@, workspaces@, fold.2, strs(sorted@), entries_view(entries@), p)
        }),
{
    let ghost ws = workspaces@;
    let ghost ids0 = registry.ids_map();
    let ghost names0 = registry.names_map();
    let ghost mnames = strs(sorted@);
    let ghost es = entries_view(entries@);
    let highest = highest_of(workspaces);
    let mut named: i32 = 0;
    let mut out: Vec<CompositorWorkspace> = Vec::new();
    let ghost mut perm: Seq<int> = Seq::empty();
    let ghost mut ids: Seq<i32> = Seq::empty();
    let mut k: usize = 0;
    assert(ws.take(0) =~= Seq::<SwayWorkspace>::empty());
    while k < workspaces.len()
        invariant
            ws == workspaces@,
            ws.len() <= i32::MAX,
            mnames == strs(sorted@),
            es == entries_view(entries@),
            highest == highest_num(ws),
            highest >= 0,
            k <= ws.len(),
            registry.entries_unique(),
            registry_fold(ids0, names0, ws.take(k as int)) == (
                registry.ids_map(),
                registry.names_map(),
                ids,
            ),
            ids.len() == k,
            named == named_count(ws.take(k as int)),
            out@.len() == k,
            stable_build(out@, ws, ids, mnames, es, perm),
        decreases ws.len() - k,
    {
        let ghost t = ws.take(k + 1);
        assert(t.drop_last() =~= ws.take(k as int));
        assert(t.last() == ws[k as int]);
        proof {
            lemma_named_count_le(t);
        }
        let wsk = &workspaces[k];
        let index = if wsk.num >= 0 {
            wsk.num
        } else {
            named = named + 1;
            if highest > i32::MAX - named {
                i32::MAX
            } else {
                highest + named
            }
        };
        assert(index == ws_index(ws, k as int));
        let id = registry.id_for(wsk.name.as_str(), wsk.num);
        let taken = taken_before(workspaces, k);
        let (windows, window_classes) = if taken {
            let empty: Vec<String> = Vec::new();
            assert(strs(empty@) =~= Seq::<Seq<char>>::empty());
            (0u16, empty)
        } else {
            lookup_contents(entries, wsk.name.as_str())
        };
        let w = CompositorWorkspace {
            id,
            index,
            name: wsk.name.clone(),
            monitor: wsk.output.clone(),
            monitor_id: monitor_index(sorted, wsk.output.as_str()),
            windows,
            is_special: false,
            has_urgent: wsk.urgent,
            window_classes,
        };
        let ghost ids_before = ids;
        proof {
            ids = ids.push(id);
        }
        assert(built_workspace(w, ws, k as int, ids[k as int], mnames, es));
        let key = key_of(&w);
        let mut p: usize = 0;
        while p < out.len() && !key_less(key, key_of(&out[p]))
            invariant
                p <= out@.len(),
                forall|q: int| 0 <= q < p ==> !key_lt(key, ws_key(#[trigger] out@[q])),
            decreases out@.len() - p,
        {
            p = p + 1;
        }
        let ghost before = out@;
        let ghost pbefore = perm;
        proof {
            assert forall|q: int| p <= q < before.len() implies key_lt(key, ws_key(#[trigger] before[q])) by {
                if q > p {
                    assert(!key_lt(ws_key(before[q]), ws_key(before[p as int])));
                }
            }
            assert(ids.drop_last() =~= ids_before);
        }
        out.insert(p, w);
        proof {
            lemma_insert_stable(before, pbefore, w, p as int, ws, ids, mnames, es);
            perm = pbefore.insert(p as int, k as int);
        }
        k = k + 1;
    }
    assert(ws.take(ws.len() as int) =~= ws);
    assert(registry_fold(ids0, names0, ws) == (registry.ids_map(), registry.names_map(), ids));
    assert(stable_build(out@, ws, ids, mnames, es, perm));
    assert(registry_fold(ids0, names0, workspaces@).2 == ids);
    assert(stable_build(
        out@,
        workspaces@,
        registry_fold(ids0, names0, workspaces@).2,
        strs(sorted@),
        entries_view(entries@),
        perm,
    ));
    assert(exists|q: Seq<int>|
        #[trigger] stable_build(
            out@,
            workspaces@,
            registry_fold(ids0, names0, workspaces@).2,
            strs(sorted@),
            entries_view(entries@),
            q,
        ));
    out
}

// ---------------------------------------------------------------------------
// State
// ---------------------------------------------------------------------------

/// The names of a list of workspaces.
pub open spec fn ws_names(ws: Seq<SwayWorkspace>) -> Seq<String> {
    ws.map_values(|w: SwayWorkspace| w.name)
}

/// The id of the workspace shown on an output, -1 for none.
pub open spec fn monitor_workspace(
    outs: Seq<SwayOutput>,
    ws: Seq<SwayWorkspace>,
    built: Seq<CompositorWorkspace>,
    output: Seq<char>,
) -> i32 {
    match shown_on(outs, ws, output) {
        Some(v) => match first_id_named(built, v) {
            Some(id) => id,
            None => -1i32,
        },
        None => -1i32,
    }
}

/// The ids of the focused workspaces, in reply order (sway focuses one).
pub open spec fn focused_ids(ws: Seq<SwayWorkspace>, built: Seq<CompositorWorkspace>) -> Seq<i32>
    decreases ws.len(),
{
    if ws.len() == 0 {
        Seq::empty()
    } else {
        focused_ids(ws.drop_last(), built) + if ws.last().focused {
            match first_id_named(built, ws.last().name@) {
                Some(id) => seq![id],
                None => Seq::empty(),
            }
        } else {
            Seq::empty()
        }
    }
}

/// The monitor names of a state.
pub open spec fn monitor_names(ms: Seq<CompositorMonitor>) -> Seq<Seq<char>> {
    ms.map_values(|m: CompositorMonitor| m.name@)
}

/// The active window a tree reports: the view the focus chain leads to,
/// with its title, class and id; missing strings become empty ones.
pub open spec fn active_window_of(w: Option<ActiveWindow>, tree: Option<SwayNode>) -> bool {
    match (match tree {
        Some(t) => focused_view(t),
        None => None,
    }) {
        None => w is None,
        Some(v) => w matches Some(ActiveWindow::Sway(a)) && a.title@ == (match v.name {
            Some(n) => n@,
            None => Seq::<char>::empty(),
        }) && a.class@ == (match window_class_spec(v) {
            Some(c) => c,
            None => Seq::<char>::empty(),
        }) && a.address@ == decimal(v.id as int),
    }
}

/// The tree contents a snapshot carries.
pub open spec fn snapshot_entries(tree: Option<SwayNode>, collect: bool) -> Seq<
    (Seq<char>, u16, Seq<Seq<char>>),
> {
    match tree {
        Some(t) => workspace_entries(walk(t), collect),
        None => Seq::empty(),
    }
}

fn workspace_names(ws: &Vec<SwayWorkspace>) -> (r: Vec<String>)
    ensures
        strs(r@) == strs(ws_names(ws@)),
        name_set(r@) == name_set(ws_names(ws@)),
{
    let mut r: Vec<String> = Vec::new();
    let mut i: usize = 0;
    while i < ws.len()
        invariant
            i <= ws@.len(),
            strs(r@) == strs(ws_names(ws@)).take(i as int),
        decreases ws@.len() - i,
    {
        let c = ws[i].name.clone();
        let ghost before = r@;
        r.push(c);
        assert(strs(r@) =~= strs(before).push(ws@[i as int].name@));
        assert(strs(ws_names(ws@)).take(i + 1) =~= strs(ws_names(ws@)).take(i as int).push(
            ws@[i as int].name@,
        ));
        i = i + 1;
    }
    assert(strs(ws_names(ws@)).take(ws@.len() as int) =~= strs(ws_names(ws@)));
    assert forall|n: Seq<char>| name_set(r@).contains(n) == name_set(ws_names(ws@)).contains(n) by {
        if name_set(r@).contains(n) {
            let i = choose|i: int| 0 <= i < r@.len() && r@[i]@ == n;
            assert(strs(r@)[i] == strs(ws_names(ws@))[i]);
        }
        if name_set(ws_names(ws@)).contains(n) {
            let i = choose|i: int| 0 <= i < ws_names(ws@).len() && ws_names(ws@)[i]@ == n;
            assert(strs(r@)[i] == strs(ws_names(ws@))[i]);
        }
    }
    assert(name_set(r@) =~= name_set(ws_names(ws@)));
    r
}

/// Some built workspace has this name and id.
pub open spec fn built_somewhere(out: Seq<CompositorWorkspace>, name: Seq<char>, id: i32) -> bool {
    exists|j: int| 0 <= j < out.len() && (#[trigger] out[j]).name@ == name && out[j].id == id
}

/// The registry after a resync on `ws`: the names that are gone and the ids
/// only they held are forgotten, then every workspace asks for its id.
pub open spec fn resynced(ids: Map<Seq<char>, i32>, names: Map<i32, Seq<char>>, ws: Seq<SwayWorkspace>) -> (
    Map<Seq<char>, i32>,
    Map<i32, Seq<char>>,
    Seq<i32>,
) {
    let ids0 = ids.restrict(name_set(ws_names(ws)));
    registry_fold(ids0, names.restrict(ids0.values()), ws)
}

/// Builds the bar's state from a snapshot of sway's replies. The registry
/// forgets the workspaces that are gone, then hands out the ids.
pub fn build_state(
    snapshot: &SwaySnapshot,
    registry: &mut WorkspaceRegistry,
    collect_classes: bool,
) -> (state: CompositorState)
    requires
        old(registry).entries_unique(),
        snapshot.workspaces@.len() <= i32::MAX,
    ensures
        final(registry).entries_unique(),
        state.workspaces@.len() == snapshot.workspaces@.len(),
        ({
            let ws = snapshot.workspaces@;
            let fold = resynced(old(registry).ids_map(), old(registry).names_map(), ws);
            let mnames = monitor_names(state.monitors@);
            &&& final(registry).ids_map() == fold.0
            &&& final(registry).names_map() == fold.1
            &&& old(registry).wf() && ws.len() < i32::MAX - NAMED_ID_BASE ==> final(registry).wf()
            &&& old(registry).wf() && ws.len() < i32::MAX - NAMED_ID_BASE && (forall|a: int, b: int|
                0 <= a < b < ws.len() ==> (#[trigger] ws[a]).name@ != (#[trigger] ws[b]).name@) ==> forall|a: int, b: int|
                0 <= a < b < state.workspaces@.len() ==> (#[trigger] state.workspaces@[a]).id
                    != (#[trigger] state.workspaces@[b]).id
            &&& lex_sorted(mnames)
            &&& mnames.to_multiset() == active_outputs(snapshot.outputs@).to_multiset()
            &&& exists|p: Seq<int>|
                #[trigger] stable_build(
                    state.workspaces@,
                    ws,
                    fold.2,
                    mnames,
                    snapshot_entries(snapshot.tree, collect_classes),
                    p,
                )
            &&& forall|i: int| 0 <= i < ws.len() ==> built_somewhere(state.workspaces@, #[trigger] ws[i].name@, fold.2[i])
            &&& forall|k: int|
                0 <= k < state.monitors@.len() ==> {
                    let m = #[trigger] state.monitors@[k];
                    &&& m.id == k
                    &&& m.special_workspace_id == -1
                    &&& m.active_workspace_id == monitor_workspace(
                        snapshot.outputs@,
                        ws,
                        state.workspaces@,
                        m.name@,
                    )
                }
            &&& state.active_workspace_ids@ == focused_ids(ws, state.workspaces@)
            &&& active_window_of(state.active_window, snapshot.tree)
            &&& state.keyboard_layout@ == keyboard_layout_of(snapshot.inputs@)
            &&& match state.submap {
                Some(n) => submap_of(snapshot.binding_state) == Some(n@),
                None => submap_of(snapshot.binding_state) is None,
            }
        }),
{
    let sorted = sorted_active_outputs(&snapshot.outputs);
    let entries = workspace_contents(snapshot.tree.as_ref(), collect_classes);
    let live = workspace_names(&snapshot.workspaces);
    registry.retain(live.as_slice());
    let ghost retained_ids = registry.ids_map();
    let ghost retained_names = registry.names_map();
    let ghost retained_inverse = registry.wf();
    let workspaces = build_workspaces(&snapshot.workspaces, registry, &sorted, &entries);
    let ghost fold = registry_fold(retained_ids, retained_names, snapshot.workspaces@);
    let ghost perm = choose|p: Seq<int>|
        #[trigger] stable_build(
            workspaces@,
            snapshot.workspaces@,
            fold.2,
            strs(sorted@),
            entries_view(entries@),
            p,
        );
    proof {
        let ws = snapshot.workspaces@;
        let ids0 = old(registry).ids_map().restrict(name_set(ws_names(ws)));
        assert(retained_ids == ids0);
        assert(retained_names == old(registry).names_map().restrict(ids0.values()));
        assert(fold == resynced(old(registry).ids_map(), old(registry).names_map(), ws));
        assert forall|i: int| 0 <= i < ws.len() implies built_somewhere(workspaces@, #[trigger] ws[i].name@, fold.2[i]) by {
            lemma_distinct_covers(perm, ws.len() as int, i);
            let j = choose|j: int| 0 <= j < ws.len() && perm[j] == i;
            assert(built_workspace(workspaces@[j], ws, perm[j], fold.2[perm[j]], strs(sorted@), entries_view(entries@)));
        }
        if old(registry).wf() && ws.len() < i32::MAX - NAMED_ID_BASE {
            let names = name_set(ws_names(ws));
            lemma_name_set_len(ws);
            assert(retained_inverse);
            assert forall|i: int| 0 <= i < ws.len() implies names.contains(#[trigger] ws[i].name@) by {
                assert(ws_names(ws)[i]@ == ws[i].name@);
            }
            law_fold_inverse(retained_ids, retained_names, ws, names);
            if forall|a: int, b: int| 0 <= a < b < ws.len() ==> (#[trigger] ws[a]).name@ != (#[trigger] ws[b]).name@ {
                law_fold_ids_distinct(retained_ids, retained_names, ws, names);
                assert forall|a: int, b: int| 0 <= a < b < workspaces@.len() implies (#[trigger] workspaces@[a]).id
                    != (#[trigger] workspaces@[b]).id by {
                    assert(perm[a] != perm[b]);
                    if perm[a] < perm[b] {
                        assert(fold.2[perm[a]] != fold.2[perm[b]]);
                    } else {
                        assert(fold.2[perm[b]] != fold.2[perm[a]]);
                    }
                }
            }
        }
    }

    let mut monitors: Vec<CompositorMonitor> = Vec::new();
    let mut k: usize = 0;
    while k < sorted.len()
        invariant
            k <= sorted@.len(),
            monitors@.len() == k,
            forall|j: int|
                0 <= j < k ==> {
                    let m = #[trigger] monitors@[j];
                    &&& m.id == j
                    &&& m.name@ == sorted@[j]@
                    &&& m.special_workspace_id == -1
                    &&& m.active_workspace_id == monitor_workspace(
                        snapshot.outputs@,
                        snapshot.workspaces@,
                        workspaces@,
                        m.name@,
                    )
                },
        decreases sorted@.len() - k,
    {
        let name = sorted[k].as_str();
        let active = match find_shown(&snapshot.outputs, &snapshot.workspaces, name) {
            Some(v) => match find_id_named(&workspaces, v) {
                Some(id) => id,
                None => -1,
            },
            None => -1,
        };
        monitors.push(
            CompositorMonitor {
                id: k as i128,
                name: sorted[k].clone(),
                active_workspace_id: active,
                special_workspace_id: -1,
            },
        );
        k = k + 1;
    }
    assert(monitor_names(monitors@) =~= strs(sorted@));

    let mut active_workspace_ids: Vec<i32> = Vec::new();
    let mut i: usize = 0;
    while i < snapshot.workspaces.len()
        invariant
            i <= snapshot.workspaces@.len(),
            active_workspace_ids@ == focused_ids(snapshot.workspaces@.take(i as int), workspaces@),
        decreases snapshot.workspaces@.len() - i,
    {
        assert(snapshot.workspaces@.take(i + 1).drop_last() =~= snapshot.workspaces@.take(i as int));
        let ws = &snapshot.workspaces[i];
        if ws.focused {
            if let Some(id) = find_id_named(&workspaces, ws.name.as_str()) {
                active_workspace_ids.push(id);
            }
        }
        i = i + 1;
    }
    assert(snapshot.workspaces@.take(snapshot.workspaces@.len() as int) =~= snapshot.workspaces@);

    let active_window = match &snapshot.tree {
        Some(tree) => match find_focused_view(tree) {
            Some(node) => Some(
                ActiveWindow::Sway(
                    ActiveWindowNiri {
                        title: match &node.name {
                            Some(n) => n.clone(),
                            None => String::new(),
                        },
                        class: match window_class(node) {
                            Some(c) => c,
                            None => String::new(),
                        },
                        address: i64_to_string(node.id),
                    },
                ),
            ),
            None => None,
        },
        None => None,
    };

    let state = CompositorState {
        workspaces,
        monitors,
        active_workspace_ids,
        active_window,
        keyboard_layout: keyboard_layout(&snapshot.inputs),
        submap: submap(&snapshot.binding_state),
    };
    assert(stable_build(
        state.workspaces@,
        snapshot.workspaces@,
        fold.2,
        monitor_names(state.monitors@),
        snapshot_entries(snapshot.tree, collect_classes),
        perm,
    ));
    assert(lex_sorted(monitor_names(state.monitors@)));
    assert(monitor_names(state.monitors@).to_multiset() == active_outputs(snapshot.outputs@).to_multiset());
    assert(active_window_of(state.active_window, snapshot.tree));
    assert(state.active_workspace_ids@ == focused_ids(snapshot.workspaces@, state.workspaces@));
    state
}

// ---------------------------------------------------------------------------
// Commands
// ---------------------------------------------------------------------------

/// The sway command that carries out a request of the bar, or the error
/// the bar reports. Workspaces are switched by name: `workspace number N`
/// would pick whichever workspace shares the number, and
/// `--no-auto-back-and-forth` keeps a click on the current one a no-op.
/// `outputs` are the active outputs, indexed by monitor id.
pub open spec fn sway_command(
    cmd: CompositorCommand,
    names: Map<i32, Seq<char>>,
    outputs: Seq<Seq<char>>,
) -> Result<Seq<char>, Seq<char>> {
    match cmd {
        CompositorCommand::FocusWorkspace(id) => if names.contains_key(id) {
            Ok("workspace --no-auto-back-and-forth "@ + seq!['"'] + escaped(names[id]) + seq!['"'])
        } else {
            Err("unknown Sway workspace id "@ + decimal(id as int))
        },
        CompositorCommand::ScrollWorkspace(dir) => if dir > 0 {
            Ok("workspace next_on_output"@)
        } else {
            Ok("workspace prev_on_output"@)
        },
        CompositorCommand::FocusMonitor(id) => if 0 <= id < outputs.len() {
            Ok("focus output "@ + seq!['"'] + escaped(outputs[id as int]) + seq!['"'])
        } else {
            Err("unknown Sway output id "@ + decimal(id as int))
        },
        CompositorCommand::FocusSpecialWorkspace(_) => Err(
            "special workspaces are not supported on Sway"@,
        ),
        CompositorCommand::ToggleSpecialWorkspace(_) => Err(
            "special workspaces are not supported on Sway"@,
        ),
        CompositorCommand::NextLayout => Ok("input type:keyboard xkb_switch_layout next"@),
        CompositorCommand::CustomDispatch(action, args) => if args@.len() == 0 {
            Ok(action@)
        } else {
            Ok(action@ + " "@ + args@)
        },
    }
}

/// Resolves a request of the bar to the sway command to run.
pub fn command_for(cmd: &CompositorCommand, registry: &WorkspaceRegistry, outputs: &[String]) -> (r:
    Result<String, String>)
    requires
        registry.entries_unique(),
    ensures
        match r {
            Ok(c) => sway_command(*cmd, registry.names_map(), strs(outputs@)) == Ok::<
                Seq<char>,
                Seq<char>,
            >(c@),
            Err(e) => sway_command(*cmd, registry.names_map(), strs(outputs@)) == Err::<
                Seq<char>,
                Seq<char>,
            >(e@),
        },
{
    match cmd {
        CompositorCommand::FocusWorkspace(id) => match registry.name_for(*id) {
            Some(name) => {
                let mut c = "workspace --no-auto-back-and-forth ".to_owned();
                let q = quote(name);
                push_str(&mut c, q.as_str());
                assert(c@ =~= "workspace --no-auto-back-and-forth "@ + seq!['"'] + escaped(
                    registry.names_map()[*id],
                ) + seq!['"']);
                assert(registry.names_map().contains_key(*id));
                assert(sway_command(*cmd, registry.names_map(), strs(outputs@)) == Ok::<
                    Seq<char>,
                    Seq<char>,
                >(c@));
                Ok(c)
            },
            None => {
                let mut e = "unknown Sway workspace id ".to_owned();
                let d = i64_to_string(*id as i64);
                push_str(&mut e, d.as_str());
                assert(sway_command(*cmd, registry.names_map(), strs(outputs@)) == Err::<
                    Seq<char>,
                    Seq<char>,
                >(e@));
                Err(e)
            },
        },
        CompositorCommand::ScrollWorkspace(dir) => if *dir > 0 {
            Ok("workspace next_on_output".to_owned())
        } else {
            Ok("workspace prev_on_output".to_owned())
        },
        CompositorCommand::FocusMonitor(id) => if 0 <= *id && *id < outputs.len() as i128 {
            let mut c = "focus output ".to_owned();
            let q = quote(outputs[*id as usize].as_str());
            push_str(&mut c, q.as_str());
            assert(strs(outputs@)[*id as int] == outputs@[*id as int]@);
            assert(c@ =~= "focus output "@ + seq!['"'] + escaped(strs(outputs@)[*id as int]) + seq![
                '"',
            ]);
            Ok(c)
        } else {
            let mut e = "unknown Sway output id ".to_owned();
            let d = i128_to_string(*id);
            push_str(&mut e, d.as_str());
            Err(e)
        },
        CompositorCommand::FocusSpecialWorkspace(_) => Err(
            "special workspaces are not supported on Sway".to_owned(),
        ),
        CompositorCommand::ToggleSpecialWorkspace(_) => Err(
            "special workspaces are not supported on Sway".to_owned(),
        ),
        CompositorCommand::NextLayout => Ok("input type:keyboard xkb_switch_layout next".to_owned()),
        CompositorCommand::CustomDispatch(action, args) => if args.as_str().unicode_len() == 0 {
            Ok(action.clone())
        } else {
            let mut c = action.clone();
            push_str(&mut c, " ");
            push_str(&mut c, args.as_str());
            assert(c@ =~= action@ + " "@ + args@);
            Ok(c)
        },
    }
}

// ---------------------------------------------------------------------------
// Laws
// ---------------------------------------------------------------------------

/// Every recorded name maps to an id that maps back to it.
pub open spec fn consistent(ids: Map<Seq<char>, i32>, names: Map<i32, Seq<char>>) -> bool {
    forall|n: Seq<char>|
        #[trigger] ids.contains_key(n) ==> names.contains_key(ids[n]) && names[ids[n]] == n
}

/// Two maps that undo each other: finitely many names, each leading to an
/// id that leads back to it, and no id on record without a name.
pub open spec fn inverse(ids: Map<Seq<char>, i32>, names: Map<i32, Seq<char>>) -> bool {
    &&& ids.dom().finite()
    &&& consistent(ids, names)
    &&& names.dom().subset_of(ids.values())
}

/// Fewer names than ids from `NAMED_ID_BASE` on leave one of those ids free.
proof fn lemma_free_id_left(ids: Map<Seq<char>, i32>, names: Map<i32, Seq<char>>)
    requires
        inverse(ids, names),
        ids.dom().len() < i32::MAX - NAMED_ID_BASE,
    ensures
        exists|k: i32| NAMED_ID_BASE <= k < i32::MAX && !names.contains_key(k),
{
    let f = |n: Seq<char>| ids[n] as int;
    let vals = ids.dom().map(f);
    vstd::set_lib::lemma_map_size_bound(ids.dom(), vals, f);
    let r = vstd::set_lib::set_int_range(NAMED_ID_BASE as int, i32::MAX as int);
    vstd::set_lib::lemma_int_range(NAMED_ID_BASE as int, i32::MAX as int);
    if !exists|k: i32| NAMED_ID_BASE <= k < i32::MAX && !names.contains_key(k) {
        assert forall|x: int| r.contains(x) implies vals.contains(x) by {
            let k = x as i32;
            assert(names.contains_key(k));
            assert(ids.values().contains(k));
            let n = choose|n: Seq<char>| ids.dom().contains(n) && ids[n] == k;
            assert(f(n) == x);
        }
        vstd::set_lib::lemma_len_subset(r, vals);
    }
}

proof fn lemma_least_free_exists(names: Map<i32, Seq<char>>, k: i32)
    requires
        NAMED_ID_BASE <= k < i32::MAX,
        !names.contains_key(k),
    ensures
        exists|m: i32| least_free(names, m),
    decreases k - NAMED_ID_BASE,
{
    if exists|j: i32| NAMED_ID_BASE <= j < k && !names.contains_key(j) {
        let j = choose|j: i32| NAMED_ID_BASE <= j < k && !names.contains_key(j);
        lemma_least_free_exists(names, j);
    } else {
        assert(least_free(names, k));
    }
}

/// Asking twice for the id of a workspace gives the same id and changes
/// nothing the second time, whatever number it reports then.
pub proof fn law_id_for_is_stable(
    ids: Map<Seq<char>, i32>,
    names: Map<i32, Seq<char>>,
    name: Seq<char>,
    num: i32,
    later_num: i32,
)
    ensures
        ({
            let first = registry_step(ids, names, name, num);
            registry_step(first.0, first.1, name, later_num) == first
        }),
{
}

/// While a free id is left, the id handed out for a workspace resolves
/// back to its name, and every recorded name still resolves to itself.
pub proof fn law_id_for_resolves(
    ids: Map<Seq<char>, i32>,
    names: Map<i32, Seq<char>>,
    name: Seq<char>,
    num: i32,
)
    requires
        consistent(ids, names),
        exists|k: i32| NAMED_ID_BASE <= k < i32::MAX && !names.contains_key(k),
    ensures
        ({
            let step = registry_step(ids, names, name, num);
            &&& consistent(step.0, step.1)
            &&& step.1.contains_key(step.2)
            &&& step.1[step.2] == name
        }),
{
    let k = choose|k: i32| NAMED_ID_BASE <= k < i32::MAX && !names.contains_key(k);
    lemma_least_free_exists(names, k);
    if !ids.contains_key(name) {
        let id = fresh_id(names, num);
        assert(!names.contains_key(id));
        let step = registry_step(ids, names, name, num);
        assert forall|n: Seq<char>| #[trigger] step.0.contains_key(n) implies step.1.contains_key(
            step.0[n],
        ) && step.1[step.0[n]] == n by {
            if n != name {
                assert(ids.contains_key(n));
                assert(names.contains_key(ids[n]));
            }
        }
    }
}

/// Two workspaces of a consistent registry never share an id.
pub proof fn law_ids_are_distinct(
    ids: Map<Seq<char>, i32>,
    names: Map<i32, Seq<char>>,
    a: Seq<char>,
    b: Seq<char>,
)
    requires
        consistent(ids, names),
        ids.contains_key(a),
        ids.contains_key(b),
        a != b,
    ensures
        ids[a] != ids[b],
{
}

/// Forgetting the workspaces that are gone keeps a registry consistent,
/// keeps the ids of those that remain, and frees the ids of the others.
pub proof fn law_retain_keeps_live_ids(
    ids: Map<Seq<char>, i32>,
    names: Map<i32, Seq<char>>,
    live: Set<Seq<char>>,
)
    requires
        inverse(ids, names),
    ensures
        ({
            let kept = ids.restrict(live);
            let kept_names = names.restrict(kept.values());
            &&& inverse(kept, kept_names)
            &&& forall|n: Seq<char>|
                #[trigger] live.contains(n) && ids.contains_key(n) ==> kept.contains_key(n)
                    && kept[n] == ids[n]
            &&& forall|n: Seq<char>| #[trigger] kept.contains_key(n) ==> live.contains(n)
        }),
{
    let kept = ids.restrict(live);
    let kept_names = names.restrict(kept.values());
    vstd::set_lib::lemma_len_subset(kept.dom(), ids.dom());
    assert forall|n: Seq<char>| #[trigger] kept.contains_key(n) implies kept_names.contains_key(
        kept[n],
    ) && kept_names[kept[n]] == n by {
        assert(kept.contains_value(kept[n]));
    }
}

/// A step of the registry keeps its maps inverse where the name is known
/// or fewer names are recorded than ids from `NAMED_ID_BASE` on.
proof fn lemma_step_inverse(ids: Map<Seq<char>, i32>, names: Map<i32, Seq<char>>, name: Seq<char>, num: i32)
    ensures
        inverse(ids, names) && (ids.contains_key(name) || ids.dom().len() < i32::MAX - NAMED_ID_BASE) ==> ({
            let step = registry_step(ids, names, name, num);
            &&& inverse(step.0, step.1)
            &&& step.1.contains_key(step.2)
            &&& step.1[step.2] == name
        }),
{
    if inverse(ids, names) && !ids.contains_key(name) && ids.dom().len() < i32::MAX - NAMED_ID_BASE {
        lemma_free_id_left(ids, names);
        law_id_for_resolves(ids, names, name, num);
        let step = registry_step(ids, names, name, num);
        assert forall|k: i32| step.1.dom().contains(k) implies step.0.values().contains(k) by {
            if k == step.2 {
                assert(step.0.contains_key(name) && step.0[name] == k);
            } else {
                assert(names.contains_key(k));
                assert(ids.values().contains(k));
                let n = choose|n: Seq<char>| ids.dom().contains(n) && ids[n] == k;
                assert(step.0.contains_key(n) && step.0[n] == k);
            }
        }
    }
}

/// After asking for the ids of `ws`, every workspace's name is recorded
/// with the id it got, and what was recorded before stays.
pub proof fn law_fold_records(ids: Map<Seq<char>, i32>, names: Map<i32, Seq<char>>, ws: Seq<SwayWorkspace>)
    ensures
        ({
            let f = registry_fold(ids, names, ws);
            &&& f.2.len() == ws.len()
            &&& forall|i: int|
                0 <= i < ws.len() ==> f.0.contains_key(#[trigger] ws[i].name@) && f.0[ws[i].name@] == f.2[i]
            &&& forall|n: Seq<char>| #[trigger] ids.contains_key(n) ==> f.0.contains_key(n) && f.0[n] == ids[n]
        }),
    decreases ws.len(),
{
    if ws.len() > 0 {
        let w = ws.drop_last();
        law_fold_records(ids, names, w);
        let f = registry_fold(ids, names, ws);
        assert forall|i: int| 0 <= i < ws.len() implies f.0.contains_key(#[trigger] ws[i].name@) && f.0[ws[i].name@]
            == f.2[i] by {
            if i < w.len() {
                assert(ws[i] == w[i]);
            }
        }
    }
}

/// Asking for the ids of workspaces that are all recorded changes nothing
/// and answers the recorded ids.
proof fn lemma_fold_known(ids: Map<Seq<char>, i32>, names: Map<i32, Seq<char>>, ws: Seq<SwayWorkspace>)
    requires
        forall|i: int| 0 <= i < ws.len() ==> ids.contains_key(#[trigger] ws[i].name@),
    ensures
        ({
            let f = registry_fold(ids, names, ws);
            &&& f.0 == ids
            &&& f.1 == names
            &&& f.2.len() == ws.len()
            &&& forall|i: int| 0 <= i < ws.len() ==> f.2[i] == ids[#[trigger] ws[i].name@]
        }),
    decreases ws.len(),
{
    if ws.len() > 0 {
        let w = ws.drop_last();
        assert forall|i: int| 0 <= i < w.len() implies ids.contains_key(#[trigger] w[i].name@) by {
            assert(w[i] == ws[i]);
        }
        lemma_fold_known(ids, names, w);
        let f = registry_fold(ids, names, ws);
        assert forall|i: int| 0 <= i < ws.len() implies f.2[i] == ids[#[trigger] ws[i].name@] by {
            if i < w.len() {
                assert(w[i] == ws[i]);
            }
        }
    }
}

/// Workspace ids stay stable across resyncs: building the same workspaces
/// again, after the registry forgot the names that are gone, hands out the
/// same ids.
pub proof fn law_ids_stable(ids: Map<Seq<char>, i32>, names: Map<i32, Seq<char>>, ws: Seq<SwayWorkspace>)
    ensures
        ({
            let f = registry_fold(ids, names, ws);
            let ids1 = f.0.restrict(name_set(ws_names(ws)));
            let names1 = f.1.restrict(ids1.values());
            registry_fold(ids1, names1, ws).2 == f.2
        }),
{
    let f = registry_fold(ids, names, ws);
    law_fold_records(ids, names, ws);
    let ids1 = f.0.restrict(name_set(ws_names(ws)));
    let names1 = f.1.restrict(ids1.values());
    assert forall|i: int| 0 <= i < ws.len() implies ids1.contains_key(#[trigger] ws[i].name@) by {
        assert(ws_names(ws)[i]@ == ws[i].name@);
        assert(name_set(ws_names(ws)).contains(ws[i].name@));
    }
    lemma_fold_known(ids1, names1, ws);
    let g = registry_fold(ids1, names1, ws);
    assert forall|i: int| 0 <= i < ws.len() implies g.2[i] == f.2[i] by {
        assert(ids1.contains_key(ws[i].name@));
        assert(g.2[i] == ids1[ws[i].name@]);
        assert(ids1[ws[i].name@] == f.0[ws[i].name@]);
    }
    assert(g.2 =~= f.2);
}

/// While the names asked for, all drawn from `live`, are fewer than the ids
/// from `NAMED_ID_BASE` on, asking for the ids of `ws` keeps the registry's
/// maps inverse.
pub proof fn law_fold_inverse(
    ids: Map<Seq<char>, i32>,
    names: Map<i32, Seq<char>>,
    ws: Seq<SwayWorkspace>,
    live: Set<Seq<char>>,
)
    requires
        inverse(ids, names),
        ids.dom().subset_of(live),
        live.finite(),
        live.len() < i32::MAX - NAMED_ID_BASE,
        forall|i: int| 0 <= i < ws.len() ==> live.contains(#[trigger] ws[i].name@),
    ensures
        inverse(registry_fold(ids, names, ws).0, registry_fold(ids, names, ws).1),
        registry_fold(ids, names, ws).0.dom().subset_of(live),
    decreases ws.len(),
{
    if ws.len() > 0 {
        let w = ws.drop_last();
        assert forall|i: int| 0 <= i < w.len() implies live.contains(#[trigger] w[i].name@) by {
            assert(w[i] == ws[i]);
        }
        law_fold_inverse(ids, names, w, live);
        let prev = registry_fold(ids, names, w);
        vstd::set_lib::lemma_len_subset(prev.0.dom(), live);
        lemma_step_inverse(prev.0, prev.1, ws.last().name@, ws.last().num);
        assert(live.contains(ws[ws.len() - 1].name@));
    }
}

/// Workspaces of distinct names get distinct ids, from a registry whose
/// maps are inverse, while the names asked for, all drawn from `live`, are
/// fewer than the ids from `NAMED_ID_BASE` on.
pub proof fn law_fold_ids_distinct(
    ids: Map<Seq<char>, i32>,
    names: Map<i32, Seq<char>>,
    ws: Seq<SwayWorkspace>,
    live: Set<Seq<char>>,
)
    requires
        inverse(ids, names),
        ids.dom().subset_of(live),
        live.finite(),
        live.len() < i32::MAX - NAMED_ID_BASE,
        forall|i: int| 0 <= i < ws.len() ==> live.contains(#[trigger] ws[i].name@),
        forall|i: int, j: int| 0 <= i < j < ws.len() ==> (#[trigger] ws[i]).name@ != (#[trigger] ws[j]).name@,
    ensures
        forall|i: int, j: int|
            0 <= i < j < ws.len() ==> #[trigger] registry_fold(ids, names, ws).2[i] != #[trigger] registry_fold(
                ids,
                names,
                ws,
            ).2[j],
{
    let f = registry_fold(ids, names, ws);
    law_fold_records(ids, names, ws);
    law_fold_inverse(ids, names, ws, live);
    assert forall|i: int, j: int| 0 <= i < j < ws.len() implies #[trigger] f.2[i] != #[trigger] f.2[j] by {
        assert(f.0.contains_key(ws[i].name@) && f.0.contains_key(ws[j].name@));
        law_ids_are_distinct(f.0, f.1, ws[i].name@, ws[j].name@);
    }
}

/// The names of the workspaces: finitely many, and no more than there are
/// workspaces.
proof fn lemma_name_set_len(ws: Seq<SwayWorkspace>)
    ensures
        name_set(ws_names(ws)).finite(),
        name_set(ws_names(ws)).len() <= ws.len(),
    decreases ws.len(),
{
    if ws.len() == 0 {
        assert(name_set(ws_names(ws)) =~= Set::empty());
    } else {
        let w = ws.drop_last();
        lemma_name_set_len(w);
        let a = name_set(ws_names(w));
        let b = name_set(ws_names(ws));
        let last = ws.last().name@;
        assert forall|n: Seq<char>| b.contains(n) <==> #[trigger] a.insert(last).contains(n) by {
            if b.contains(n) {
                let i = choose|i: int| 0 <= i < ws_names(ws).len() && ws_names(ws)[i]@ == n;
                if i < w.len() {
                    assert(ws_names(w)[i] == ws_names(ws)[i]);
                }
            }
            if a.contains(n) {
                let i = choose|i: int| 0 <= i < ws_names(w).len() && ws_names(w)[i]@ == n;
                assert(ws_names(w)[i] == ws_names(ws)[i]);
            }
            if n == last {
                assert(ws_names(ws)[ws.len() - 1]@ == last);
            }
        }
        assert(b =~= a.insert(last));
    }
}

/// Two lexicographically sorted sequences of the same names are equal.
pub proof fn law_lex_sorted_unique(x: Seq<Seq<char>>, y: Seq<Seq<char>>)
    requires
        lex_sorted(x),
        lex_sorted(y),
        x.to_multiset() == y.to_multiset(),
    ensures
        x == y,
{
    let leq = |a: Seq<char>, b: Seq<char>| !lex_lt(b, a);
    assert forall|a: Seq<char>| #[trigger] leq(a, a) by {
        lemma_lex_asym(a, a);
    }
    assert forall|a: Seq<char>, b: Seq<char>| #[trigger] leq(a, b) && #[trigger] leq(b, a) implies a == b by {
        lemma_lex_total(a, b);
    }
    assert forall|a: Seq<char>, b: Seq<char>, c: Seq<char>| #[trigger] leq(a, b) && #[trigger] leq(b, c) implies leq(
        a,
        c,
    ) by {
        lemma_lex_total(a, b);
        if lex_lt(c, a) && a != b {
            lemma_lex_trans(c, a, b);
        }
    }
    assert forall|a: Seq<char>, b: Seq<char>| #[trigger] leq(a, b) || #[trigger] leq(b, a) by {
        lemma_lex_asym(a, b);
    }
    assert(vstd::relations::sorted_by(x, leq));
    assert(vstd::relations::sorted_by(y, leq));
    vstd::seq_lib::lemma_sorted_unique(x, y, leq);
}

/// `n` distinct positions below `n` take every position below `n`.
proof fn lemma_distinct_covers(p: Seq<int>, n: int, x: int)
    requires
        p.len() == n,
        forall|i: int| 0 <= i < n ==> 0 <= #[trigger] p[i] < n,
        forall|i: int, j: int| 0 <= i < j < n ==> #[trigger] p[i] != #[trigger] p[j],
        0 <= x < n,
    ensures
        exists|i: int| 0 <= i < n && p[i] == x,
{
    assert forall|i: int, j: int| 0 <= i < p.len() && 0 <= j < p.len() && i != j implies p[i] != p[j] by {
        if i < j {
            assert(p[i] != p[j]);
        } else {
            assert(p[j] != p[i]);
        }
    }
    assert(p.no_duplicates());
    p.unique_seq_to_set();
    let r = vstd::set_lib::set_int_range(0, n);
    vstd::set_lib::lemma_int_range(0, n);
    assert(p.to_set().subset_of(r));
    vstd::set_lib::lemma_len_subset(p.to_set(), r);
    vstd::set_lib::lemma_subset_equality(p.to_set(), r);
    assert(r.contains(x));
    assert(p.to_set().contains(x));
}

/// The key by which the workspace at position `x` of `ws` is placed.
pub open spec fn placement_key(ws: Seq<SwayWorkspace>, sorted: Seq<Seq<char>>, x: int) -> (i128, i32) {
    (
        match monitor_id_of(sorted, ws[x].output@) {
            Some(m) => m,
            None => i128::MAX,
        },
        ws_index(ws, x),
    )
}

/// The workspace at position `x` goes before the one at `y`: a smaller
/// key, or the same key and an earlier reply.
pub open spec fn placed_before(ws: Seq<SwayWorkspace>, sorted: Seq<Seq<char>>, x: int, y: int) -> bool {
    ||| key_lt(placement_key(ws, sorted, x), placement_key(ws, sorted, y))
    ||| placement_key(ws, sorted, x) == placement_key(ws, sorted, y) && x < y
}

proof fn lemma_build_order(
    out: Seq<CompositorWorkspace>,
    ws: Seq<SwayWorkspace>,
    ids: Seq<i32>,
    sorted: Seq<Seq<char>>,
    entries: Seq<(Seq<char>, u16, Seq<Seq<char>>)>,
    p: Seq<int>,
    i: int,
    j: int,
)
    requires
        stable_build(out, ws, ids, sorted, entries, p),
        0 <= i < j < out.len(),
    ensures
        placed_before(ws, sorted, p[i], p[j]),
{
    assert(built_workspace(out[i], ws, p[i], ids[p[i]], sorted, entries));
    assert(built_workspace(out[j], ws, p[j], ids[p[j]], sorted, entries));
    assert(ws_key(out[i]) == placement_key(ws, sorted, p[i]));
    assert(ws_key(out[j]) == placement_key(ws, sorted, p[j]));
    assert(!key_lt(ws_key(out[j]), ws_key(out[i])));
    assert(p[i] != p[j]);
}

proof fn lemma_build_prefix(
    o1: Seq<CompositorWorkspace>,
    o2: Seq<CompositorWorkspace>,
    ws: Seq<SwayWorkspace>,
    ids: Seq<i32>,
    sorted: Seq<Seq<char>>,
    entries: Seq<(Seq<char>, u16, Seq<Seq<char>>)>,
    p1: Seq<int>,
    p2: Seq<int>,
    m: int,
)
    requires
        stable_build(o1, ws, ids, sorted, entries, p1),
        stable_build(o2, ws, ids, sorted, entries, p2),
        o1.len() == ws.len(),
        o2.len() == ws.len(),
        0 <= m <= ws.len(),
    ensures
        forall|k: int| 0 <= k < m ==> p1[k] == p2[k],
    decreases m,
{
    if m > 0 {
        lemma_build_prefix(o1, o2, ws, ids, sorted, entries, p1, p2, m - 1);
        let i = m - 1;
        let n = ws.len() as int;
        let a = p1[i];
        let b = p2[i];
        if a != b {
            if placed_before(ws, sorted, a, b) {
                lemma_distinct_covers(p2, n, a);
                let j = choose|j: int| 0 <= j < n && p2[j] == a;
                if j < i {
                    assert(p1[j] == p2[j]);
                    assert(p1[j] != p1[i]);
                } else {
                    lemma_build_order(o2, ws, ids, sorted, entries, p2, i, j);
                }
            } else {
                lemma_distinct_covers(p1, n, b);
                let j = choose|j: int| 0 <= j < n && p1[j] == b;
                if j < i {
                    assert(p1[j] == p2[j]);
                    assert(p2[j] != p2[i]);
                } else {
                    lemma_build_order(o1, ws, ids, sorted, entries, p1, i, j);
                }
            }
        }
    }
}

/// The stable sort leaves no choice: two builds of the same workspaces,
/// with the same ids, outputs and tree contents, place every workspace at
/// the same position.
pub proof fn law_stable_build_unique(
    o1: Seq<CompositorWorkspace>,
    o2: Seq<CompositorWorkspace>,
    ws: Seq<SwayWorkspace>,
    ids: Seq<i32>,
    sorted: Seq<Seq<char>>,
    entries: Seq<(Seq<char>, u16, Seq<Seq<char>>)>,
    p1: Seq<int>,
    p2: Seq<int>,
)
    requires
        stable_build(o1, ws, ids, sorted, entries, p1),
        stable_build(o2, ws, ids, sorted, entries, p2),
        o1.len() == ws.len(),
        o2.len() == ws.len(),
    ensures
        p1 == p2,
        forall|i: int|
            0 <= i < o1.len() ==> (#[trigger] o1[i]).id == o2[i].id && o1[i].name@ == o2[i].name@
                && o1[i].index == o2[i].index && o1[i].monitor_id == o2[i].monitor_id,
{
    lemma_build_prefix(o1, o2, ws, ids, sorted, entries, p1, p2, ws.len() as int);
    assert(p1 =~= p2);
    assert forall|i: int| 0 <= i < o1.len() implies (#[trigger] o1[i]).id == o2[i].id && o1[i].name@ == o2[i].name@
        && o1[i].index == o2[i].index && o1[i].monitor_id == o2[i].monitor_id by {
        assert(built_workspace(o1[i], ws, p1[i], ids[p1[i]], sorted, entries));
        assert(built_workspace(o2[i], ws, p2[i], ids[p2[i]], sorted, entries));
    }
}

/// Workspace ids stay stable across resyncs: building the same snapshot
/// again, from the registry the first build left, gives the same monitors
/// and the same workspaces in the same order, with the same ids, names,
/// indices and monitors.
pub proof fn law_rebuild_is_stable(
    ids: Map<Seq<char>, i32>,
    names: Map<i32, Seq<char>>,
    ws: Seq<SwayWorkspace>,
    outs: Seq<SwayOutput>,
    entries: Seq<(Seq<char>, u16, Seq<Seq<char>>)>,
    m1: Seq<Seq<char>>,
    o1: Seq<CompositorWorkspace>,
    p1: Seq<int>,
    m2: Seq<Seq<char>>,
    o2: Seq<CompositorWorkspace>,
    p2: Seq<int>,
)
    requires
        lex_sorted(m1),
        m1.to_multiset() == active_outputs(outs).to_multiset(),
        o1.len() == ws.len(),
        stable_build(o1, ws, resynced(ids, names, ws).2, m1, entries, p1),
        lex_sorted(m2),
        m2.to_multiset() == active_outputs(outs).to_multiset(),
        o2.len() == ws.len(),
        stable_build(
            o2,
            ws,
            resynced(resynced(ids, names, ws).0, resynced(ids, names, ws).1, ws).2,
            m2,
            entries,
            p2,
        ),
    ensures
        m1 == m2,
        forall|i: int|
            0 <= i < o1.len() ==> (#[trigger] o1[i]).id == o2[i].id && o1[i].name@ == o2[i].name@
                && o1[i].index == o2[i].index && o1[i].monitor_id == o2[i].monitor_id,
{
    law_lex_sorted_unique(m1, m2);
    let ids0 = ids.restrict(name_set(ws_names(ws)));
    law_ids_stable(ids0, names.restrict(ids0.values()), ws);
    law_stable_build_unique(o1, o2, ws, resynced(ids, names, ws).2, m1, entries, p1, p2);
}

/// The bytes that open every sway IPC message: `i3-ipc`.
pub open spec fn ipc_magic() -> Seq<u8> {
    seq![105u8, 51u8, 45u8, 105u8, 112u8, 99u8]
}

/// The message magic of the sway IPC (`swayipc_types::MAGIC`), which its
/// source defines as the bytes of `i3-ipc`.
#[verifier::external_body]
fn sway_magic() -> (r: Vec<u8>)
    ensures
        r@ == ipc_magic(),
{
    swayipc_types::MAGIC.to_vec()
}

/// The largest payload a frame may announce: 32 MiB.
pub const MAX_PAYLOAD_LEN: u32 = 33554432;

/// Why a frame header is refused.
#[derive(Clone, Copy, PartialEq, Eq, Structural, Debug)]
pub enum FrameError {
    BadMagic,
    TooLarge(u32),
}

/// The checks on a header whose length and type fields were read: the
/// magic must match and the payload stay within 32 MiB.
pub fn check_frame(magic_ok: bool, payload_len: u32, frame_type: u32) -> (r: Result<(u32, u32), FrameError>)
    ensures
        r == if !magic_ok {
            Err(FrameError::BadMagic)
        } else if payload_len > MAX_PAYLOAD_LEN {
            Err(FrameError::TooLarge(payload_len))
        } else {
            Ok((payload_len, frame_type))
        },
{
    if !magic_ok {
        Err(FrameError::BadMagic)
    } else if payload_len > MAX_PAYLOAD_LEN {
        Err(FrameError::TooLarge(payload_len))
    } else {
        Ok((payload_len, frame_type))
    }
}

/// Reads a 14-byte message header: the magic, then the payload length and
/// the message type in the machine's byte order. Refuses a wrong magic and
/// a payload over 32 MiB.
pub fn parse_frame_header(header: &[u8]) -> (r: Result<(u32, u32), FrameError>)
    requires
        header@.len() == 14,
    ensures
        (header@.subrange(0, 6) != ipc_magic()) <==> r == Err::<(u32, u32), FrameError>(FrameError::BadMagic),
        r matches Ok((len, ty)) ==> {
            &&& len <= MAX_PAYLOAD_LEN
            &&& (len == le_u32(header@.subrange(6, 10)) || len == be_u32(header@.subrange(6, 10)))
            &&& (ty == le_u32(header@.subrange(10, 14)) || ty == be_u32(header@.subrange(10, 14)))
        },
        r matches Err(FrameError::TooLarge(len)) ==> len > MAX_PAYLOAD_LEN && (len == le_u32(
            header@.subrange(6, 10),
        ) || len == be_u32(header@.subrange(6, 10))),
{
    let magic = sway_magic();
    let mut ok = true;
    let mut i: usize = 0;
    while i < 6
        invariant
            header@.len() == 14,
            magic@ == ipc_magic(),
            i <= 6,
            ok == forall|j: int| 0 <= j < i ==> header@[j] == magic@[j],
        decreases 6 - i,
    {
        if header[i] != magic[i] {
            ok = false;
        }
        i = i + 1;
    }
    proof {
        if ok {
            assert(header@.subrange(0, 6) =~= ipc_magic());
        } else {
            let j = choose|j: int| 0 <= j < 6 && header@[j] != magic@[j];
            assert(header@.subrange(0, 6)[j] != ipc_magic()[j]);
        }
    }
    let len = u32_native([header[6], header[7], header[8], header[9]]);
    let ty = u32_native([header[10], header[11], header[12], header[13]]);
    proof {
        assert([header@[6], header@[7], header@[8], header@[9]]@ =~= header@.subrange(6, 10));
        assert([header@[10], header@[11], header@[12], header@[13]]@ =~= header@.subrange(10, 14));
    }
    check_frame(ok, len, ty)
}

/// A frame whose type has the high bit set is an event, not a reply.
pub fn is_event_frame(frame_type: u32) -> (r: bool)
    ensures
        r == (frame_type >= 0x8000_0000),
{
    let r = frame_type & 0x8000_0000u32 != 0;
    assert(r == (frame_type >= 0x8000_0000)) by (bit_vector)
        requires
            r == (frame_type & 0x8000_0000u32 != 0),
    ;
    r
}

} // verus!
