//! Niri backend: maps the state niri's event stream builds up onto the
//! compositor state, and resolves the bar's commands to niri actions.

use super::types::{
    ActiveWindow, ActiveWindowNiri, CompositorCommand, CompositorMonitor, CompositorState,
    CompositorWorkspace,
};
use crate::text::{decimal, i128_to_string, i64_to_string, insert_sorted_unique, str_eq, strictly_sorted, views};
use vstd::prelude::*;

verus! {

/// A workspace as niri reports it.
pub struct NiriWorkspace {
    pub id: u64,
    pub idx: u8,
    pub name: Option<String>,
    pub output: Option<String>,
    pub is_active: bool,
    pub is_focused: bool,
}

/// A window as niri reports it.
pub struct NiriWindow {
    pub id: u64,
    pub title: Option<String>,
    pub app_id: Option<String>,
    pub workspace_id: Option<u64>,
    pub is_focused: bool,
}

/// The configured keyboard layouts and the current one.
pub struct NiriKeyboardLayouts {
    pub names: Vec<String>,
    pub current_idx: u8,
}

/// The state niri's event stream has built up; workspaces and windows in
/// the order niri's maps are walked.
pub struct NiriState {
    pub workspaces: Vec<NiriWorkspace>,
    pub windows: Vec<NiriWindow>,
    pub keyboard_layouts: Option<NiriKeyboardLayouts>,
}

/// The workspace is active on output `o`.
pub open spec fn active_on(w: NiriWorkspace, o: Seq<char>) -> bool {
    w.is_active && match w.output {
        Some(x) => x@ == o,
        None => false,
    }
}

/// The outputs that show an active workspace.
pub open spec fn outputs_of(ws: Seq<NiriWorkspace>) -> Set<Seq<char>> {
    Set::new(
        |o: Seq<char>|
            exists|i: int| 0 <= i < ws.len() && active_on(ws[i], o),
    )
}

/// The workspace active on an output: the last one in walk order.
pub open spec fn last_active_on(ws: Seq<NiriWorkspace>, o: Seq<char>) -> Option<i32>
    decreases ws.len(),
{
    if ws.len() == 0 {
        None
    } else if active_on(ws.last(), o) {
        Some(ws.last().id as i32)
    } else {
        last_active_on(ws.drop_last(), o)
    }
}

/// `perm` lists the workspaces sorted by `idx`, ties in walk order.
pub open spec fn sorted_by_idx(ws: Seq<NiriWorkspace>, perm: Seq<usize>) -> bool {
    &&& perm.len() == ws.len()
    &&& forall|i: int| 0 <= i < perm.len() ==> (#[trigger] perm[i]) < ws.len()
    &&& forall|i: int, j: int| 0 <= i < j < perm.len() ==> #[trigger] perm[i] != #[trigger] perm[j]
    &&& forall|i: int, j: int|
        0 <= i < j < perm.len() ==> ws[#[trigger] perm[i] as int].idx <= ws[#[trigger] perm[j] as int].idx
    &&& forall|i: int, j: int|
        0 <= i < j < perm.len() && ws[#[trigger] perm[i] as int].idx == ws[#[trigger] perm[j] as int].idx
            ==> perm[i] < perm[j]
}

/// The bar ids of the sorted workspaces: niri's ids cast to `i32`.
pub open spec fn sorted_ids(ws: Seq<NiriWorkspace>, perm: Seq<usize>) -> Seq<i32> {
    perm.map_values(|p: usize| ws[p as int].id as i32)
}

/// `j` is the first position whose id is `x`.
pub open spec fn is_first_id(ids: Seq<i32>, x: i32, j: int) -> bool {
    0 <= j < ids.len() && ids[j] == x && forall|k: int| 0 <= k < j ==> #[trigger] ids[k] != x
}

/// Some workspace has the niri id.
pub open spec fn has_workspace(ws: Seq<NiriWorkspace>, id: u64) -> bool {
    exists|i: int| 0 <= i < ws.len() && (#[trigger] ws[i]).id == id
}

/// The windows counted for sorted position `j`: those on a known workspace
/// whose id first resolves to position `j`.
pub open spec fn window_count(wins: Seq<NiriWindow>, ws: Seq<NiriWorkspace>, ids: Seq<i32>, j: int) -> nat
    decreases wins.len(),
{
    if wins.len() == 0 {
        0
    } else {
        window_count(wins.drop_last(), ws, ids, j) + match wins.last().workspace_id {
            Some(wid) => if has_workspace(ws, wid) && is_first_id(ids, wid as i32, j) {
                1nat
            } else {
                0nat
            },
            None => 0nat,
        }
    }
}

/// The position of an output among the sorted outputs, -1 for none.
pub open spec fn output_position(outputs: Seq<Seq<char>>, o: Seq<char>) -> i128 {
    if exists|k: int| 0 <= k < outputs.len() && outputs[k] == o {
        (choose|k: int| 0 <= k < outputs.len() && outputs[k] == o) as i128
    } else {
        -1i128
    }
}

/// `w` is what the bar shows of niri workspace `src`.
pub open spec fn niri_workspace(w: CompositorWorkspace, src: NiriWorkspace, outputs: Seq<Seq<char>>, windows: nat) -> bool {
    &&& w.id == src.id as i32
    &&& w.index == src.idx as i32
    &&& w.name@ == (match src.name {
        Some(n) => n@,
        None => decimal(src.idx as int),
    })
    &&& w.monitor@ == (match src.output {
        Some(o) => o@,
        None => Seq::<char>::empty(),
    })
    &&& w.monitor_id == (match src.output {
        Some(o) => Some(output_position(outputs, o@)),
        None => None::<i128>,
    })
    &&& w.windows == windows
    &&& !w.is_special
    &&& !w.has_urgent
    &&& w.window_classes@.len() == 0
}

/// The first focused workspace, by bar id.
pub open spec fn focused_workspace(ws: Seq<NiriWorkspace>) -> Option<i32> {
    if exists|i: int| 0 <= i < ws.len() && ws[i].is_focused {
        let i = choose|i: int|
            0 <= i < ws.len() && ws[i].is_focused && forall|j: int| 0 <= j < i ==> !(#[trigger] ws[j]).is_focused;
        Some(ws[i].id as i32)
    } else {
        None
    }
}

/// The layout shown: the current one, "Unknown" when it is missing.
pub open spec fn niri_layout(k: Option<NiriKeyboardLayouts>) -> Seq<char> {
    match k {
        Some(l) => if (l.current_idx as int) < l.names@.len() {
            l.names@[l.current_idx as int]@
        } else {
            "Unknown"@
        },
        None => "Unknown"@,
    }
}

/// The layout shown is the name at the current index of the layouts, and
/// "Unknown" when that index lies past the names or no layouts were read.
pub proof fn law_layout_is_current_name(k: Option<NiriKeyboardLayouts>)
    ensures
        match k {
            None => niri_layout(k) == "Unknown"@,
            Some(l) => {
                &&& forall|i: int| i == l.current_idx && 0 <= i < l.names@.len() ==> niri_layout(k) == (
                #[trigger] l.names@[i])@
                &&& l.names@.len() <= l.current_idx ==> niri_layout(k) == "Unknown"@
            },
        },
{
}

fn sort_by_idx(ws: &Vec<NiriWorkspace>) -> (perm: Vec<usize>)
    ensures
        sorted_by_idx(ws@, perm@),
{
    let mut perm: Vec<usize> = Vec::new();
    let mut k: usize = 0;
    while k < ws.len()
        invariant
            k <= ws@.len(),
            perm@.len() == k,
            forall|i: int| 0 <= i < perm@.len() ==> (#[trigger] perm@[i]) < k,
            forall|i: int, j: int| 0 <= i < j < perm@.len() ==> #[trigger] perm@[i] != #[trigger] perm@[j],
            forall|i: int, j: int|
                0 <= i < j < perm@.len() ==> ws@[#[trigger] perm@[i] as int].idx <= ws@[#[trigger] perm@[j] as int].idx,
            forall|i: int, j: int|
                0 <= i < j < perm@.len() && ws@[#[trigger] perm@[i] as int].idx == ws@[#[trigger] perm@[j] as int].idx
                    ==> perm@[i] < perm@[j],
        decreases ws@.len() - k,
    {
        let key = ws[k].idx;
        let mut p: usize = 0;
        while p < perm.len() && ws[perm[p]].idx <= key
            invariant
                p <= perm@.len(),
                forall|i: int| 0 <= i < perm@.len() ==> (#[trigger] perm@[i]) < ws@.len(),
                forall|q: int| 0 <= q < p ==> ws@[#[trigger] perm@[q] as int].idx <= key,
            decreases perm@.len() - p,
        {
            p = p + 1;
        }
        let ghost before = perm@;
        proof {
            assert forall|q: int| p <= q < before.len() implies key < ws@[#[trigger] before[q] as int].idx by {
                if q > p {
                    assert(ws@[before[p as int] as int].idx <= ws@[before[q] as int].idx);
                }
            }
        }
        perm.insert(p, k);
        proof {
            let now = perm@;
            assert(now =~= before.insert(p as int, k));
            assert forall|i: int, j: int| 0 <= i < j < now.len() implies #[trigger] now[i] != #[trigger] now[j] by {
                if i < p && j < p {
                    assert(now[i] == before[i] && now[j] == before[j]);
                } else if i < p && j > p {
                    assert(now[i] == before[i] && now[j] == before[j - 1]);
                } else if i > p && j > p {
                    assert(now[i] == before[i - 1] && now[j] == before[j - 1]);
                } else if i < p {
                    assert(now[i] == before[i]);
                } else {
                    assert(now[j] == before[j - 1]);
                }
            }
            assert forall|i: int, j: int|
                0 <= i < j < now.len() implies ws@[#[trigger] now[i] as int].idx <= ws@[#[trigger] now[j] as int].idx by {
                if i < p && j < p {
                    assert(now[i] == before[i] && now[j] == before[j]);
                } else if i < p && j > p {
                    assert(now[i] == before[i] && now[j] == before[j - 1]);
                } else if i > p && j > p {
                    assert(now[i] == before[i - 1] && now[j] == before[j - 1]);
                } else if i < p {
                    assert(now[i] == before[i]);
                } else {
                    assert(now[j] == before[j - 1]);
                }
            }
            assert forall|i: int, j: int|
                0 <= i < j < now.len() && ws@[#[trigger] now[i] as int].idx == ws@[#[trigger] now[j] as int].idx
                    implies now[i] < now[j] by {
                if i < p && j < p {
                    assert(now[i] == before[i] && now[j] == before[j]);
                } else if i < p && j > p {
                    assert(now[i] == before[i] && now[j] == before[j - 1]);
                } else if i > p && j > p {
                    assert(now[i] == before[i - 1] && now[j] == before[j - 1]);
                } else if i < p {
                    assert(now[i] == before[i]);
                } else {
                    assert(now[j] == before[j - 1]);
                }
            }
        }
        k = k + 1;
    }
    perm
}

fn active_outputs(ws: &Vec<NiriWorkspace>) -> (r: Vec<String>)
    ensures
        strictly_sorted(views(r@)),
        views(r@).to_set() == outputs_of(ws@),
{
    let mut r: Vec<String> = Vec::new();
    let mut i: usize = 0;
    assert(views(r@).to_set() =~= Set::<Seq<char>>::empty());
    while i < ws.len()
        invariant
            i <= ws@.len(),
            strictly_sorted(views(r@)),
            views(r@).to_set() == Set::new(
                |o: Seq<char>|
                    exists|j: int| 0 <= j < i && active_on(ws@[j], o),
            ),
        decreases ws@.len() - i,
    {
        let ghost before = views(r@).to_set();
        if ws[i].is_active {
            if let Some(o) = &ws[i].output {
                insert_sorted_unique(&mut r, o.clone());
            }
        }
        proof {
            let target = Set::new(
                |o: Seq<char>|
                    exists|j: int| 0 <= j < i + 1 && active_on(ws@[j], o),
            );
            assert forall|o: Seq<char>| views(r@).to_set().contains(o) == target.contains(o) by {
                if target.contains(o) {
                    let j = choose|j: int| 0 <= j < i + 1 && active_on(ws@[j], o);
                    if j < i {
                        assert(before.contains(o));
                    }
                }
            }
            assert(views(r@).to_set() =~= target);
        }
        i = i + 1;
    }
    assert(outputs_of(ws@) =~= Set::new(
        |o: Seq<char>|
            exists|j: int| 0 <= j < ws@.len() && active_on(ws@[j], o),
    ));
    r
}

/// The first focused window.
pub open spec fn focused_window(wins: Seq<NiriWindow>) -> Option<NiriWindow> {
    if exists|i: int| 0 <= i < wins.len() && wins[i].is_focused {
        let i = choose|i: int|
            0 <= i < wins.len() && wins[i].is_focused && forall|j: int| 0 <= j < i ==> !(#[trigger] wins[j]).is_focused;
        Some(wins[i])
    } else {
        None
    }
}

/// The focused window as the bar shows it: title and app id, empty when
/// missing, and niri's window id.
pub open spec fn niri_active_window(w: Option<ActiveWindow>, wins: Seq<NiriWindow>) -> bool {
    match focused_window(wins) {
        None => w is None,
        Some(v) => w matches Some(ActiveWindow::Niri(a)) && a.title@ == (match v.title {
            Some(t) => t@,
            None => Seq::<char>::empty(),
        }) && a.class@ == (match v.app_id {
            Some(c) => c@,
            None => Seq::<char>::empty(),
        }) && a.address@ == decimal(v.id as int),
    }
}

fn has_id(ws: &Vec<NiriWorkspace>, id: u64) -> (r: bool)
    ensures
        r == has_workspace(ws@, id),
{
    let mut q: usize = 0;
    while q < ws.len()
        invariant
            q <= ws@.len(),
            forall|r: int| 0 <= r < q ==> (#[trigger] ws@[r]).id != id,
        decreases ws@.len() - q,
    {
        if ws[q].id == id {
            return true;
        }
        q = q + 1;
    }
    false
}

fn focused_ids(ws: &Vec<NiriWorkspace>) -> (r: Vec<i32>)
    ensures
        r@ == match focused_workspace(ws@) {
            Some(id) => seq![id],
            None => Seq::<i32>::empty(),
        },
{
    let mut r: Vec<i32> = Vec::new();
    let mut i: usize = 0;
    while i < ws.len()
        invariant
            i <= ws@.len(),
            r@.len() == 0,
            forall|j: int| 0 <= j < i ==> !(#[trigger] ws@[j]).is_focused,
        decreases ws@.len() - i,
    {
        if ws[i].is_focused {
            r.push(ws[i].id as i32);
            proof {
                assert(exists|c: int| 0 <= c < ws@.len() && ws@[c].is_focused);
                let c = choose|c: int|
                    0 <= c < ws@.len() && ws@[c].is_focused && forall|j: int| 0 <= j < c ==> !(#[trigger] ws@[j]).is_focused;
                if c > i {
                    assert(!ws@[i as int].is_focused);
                }
                assert(c == i);
                assert(r@ =~= seq![ws@[i as int].id as i32]);
            }
            return r;
        }
        i = i + 1;
    }
    assert(r@ =~= Seq::<i32>::empty());
    r
}

fn find_focused_window(wins: &Vec<NiriWindow>) -> (r: Option<usize>)
    ensures
        match r {
            Some(i) => i < wins@.len() && focused_window(wins@) == Some(wins@[i as int]),
            None => focused_window(wins@) is None,
        },
{
    let mut i: usize = 0;
    while i < wins.len()
        invariant
            i <= wins@.len(),
            forall|j: int| 0 <= j < i ==> !(#[trigger] wins@[j]).is_focused,
        decreases wins@.len() - i,
    {
        if wins[i].is_focused {
            proof {
                assert(exists|c: int| 0 <= c < wins@.len() && wins@[c].is_focused);
                let c = choose|c: int|
                    0 <= c < wins@.len() && wins@[c].is_focused && forall|j: int| 0 <= j < c ==> !(#[trigger] wins@[j]).is_focused;
                if c > i {
                    assert(!wins@[i as int].is_focused);
                }
                assert(c == i);
            }
            return Some(i);
        }
        i = i + 1;
    }
    None
}

fn last_active(ws: &Vec<NiriWorkspace>, o: &str) -> (r: i32)
    ensures
        r == match last_active_on(ws@, o@) {
            Some(id) => id,
            None => -1i32,
        },
{
    let mut k: usize = ws.len();
    assert(ws@.take(k as int) =~= ws@);
    while k > 0
        invariant
            k <= ws@.len(),
            last_active_on(ws@, o@) == last_active_on(ws@.take(k as int), o@),
        decreases k,
    {
        assert(ws@.take(k as int).drop_last() =~= ws@.take(k - 1));
        let w = &ws[k - 1];
        if w.is_active {
            if let Some(x) = &w.output {
                if str_eq(x.as_str(), o) {
                    return w.id as i32;
                }
            }
        }
        k = k - 1;
    }
    -1
}

fn position_of(outputs: &Vec<String>, o: &str) -> (r: i128)
    requires
        strictly_sorted(views(outputs@)),
    ensures
        r == output_position(views(outputs@), o@),
{
    let ghost vs = views(outputs@);
    let mut k: usize = 0;
    while k < outputs.len()
        invariant
            k <= outputs@.len(),
            vs == views(outputs@),
            strictly_sorted(vs),
            forall|j: int| 0 <= j < k ==> vs[j] != o@,
        decreases outputs@.len() - k,
    {
        if str_eq(outputs[k].as_str(), o) {
            proof {
                assert(vs[k as int] == o@);
                assert(exists|c: int| 0 <= c < vs.len() && vs[c] == o@);
                let c = choose|c: int| 0 <= c < vs.len() && vs[c] == o@;
                if c > k {
                    assert(crate::text::lex_lt(vs[k as int], vs[c]));
                    crate::text::lemma_lex_asym(vs[k as int], vs[c]);
                }
                assert(c == k);
            }
            return k as i128;
        }
        k = k + 1;
    }
    -1
}

fn build_monitors(ws: &Vec<NiriWorkspace>, outputs: &Vec<String>) -> (monitors: Vec<CompositorMonitor>)
    ensures
        monitors@.map_values(|m: CompositorMonitor| m.name@) == views(outputs@),
        forall|k: int|
            0 <= k < monitors@.len() ==> {
                let m = #[trigger] monitors@[k];
                &&& m.id == k
                &&& m.special_workspace_id == -1
                &&& m.active_workspace_id == match last_active_on(ws@, m.name@) {
                    Some(id) => id,
                    None => -1i32,
                }
            },
{
    let mut monitors: Vec<CompositorMonitor> = Vec::new();
    let mut k: usize = 0;
    while k < outputs.len()
        invariant
            k <= outputs@.len(),
            monitors@.len() == k,
            forall|j: int|
                0 <= j < k ==> {
                    let m = #[trigger] monitors@[j];
                    &&& m.id == j
                    &&& m.name@ == outputs@[j]@
                    &&& m.special_workspace_id == -1
                    &&& m.active_workspace_id == match last_active_on(ws@, m.name@) {
                        Some(id) => id,
                        None => -1i32,
                    }
                },
        decreases outputs@.len() - k,
    {
        let active = last_active(ws, outputs[k].as_str());
        monitors.push(
            CompositorMonitor {
                id: k as i128,
                name: outputs[k].clone(),
                active_workspace_id: active,
                special_workspace_id: -1,
            },
        );
        k = k + 1;
    }
    assert(monitors@.map_values(|m: CompositorMonitor| m.name@) =~= views(outputs@));
    monitors
}

fn ids_of(ws: &Vec<NiriWorkspace>, perm: &Vec<usize>) -> (ids: Vec<i32>)
    requires
        sorted_by_idx(ws@, perm@),
    ensures
        ids@ == sorted_ids(ws@, perm@),
{
    let n = perm.len();
    let mut ids: Vec<i32> = Vec::new();
    let mut i: usize = 0;
    while i < n
        invariant
            n == perm@.len(),
            sorted_by_idx(ws@, perm@),
            i <= n,
            ids@ == sorted_ids(ws@, perm@).take(i as int),
        decreases n - i,
    {
        ids.push(ws[perm[i]].id as i32);
        assert(ids@ =~= sorted_ids(ws@, perm@).take(i + 1));
        i = i + 1;
    }
    assert(ids@ =~= sorted_ids(ws@, perm@));
    ids
}

fn count_windows(wins: &Vec<NiriWindow>, ws: &Vec<NiriWorkspace>, ids: &Vec<i32>) -> (counts: Vec<u16>)
    requires
        wins@.len() <= u16::MAX,
    ensures
        counts@.len() == ids@.len(),
        forall|j: int| 0 <= j < ids@.len() ==> #[trigger] counts@[j] == window_count(wins@, ws@, ids@, j),
{
    let n = ids.len();
    let mut counts: Vec<u16> = Vec::new();
    let mut i: usize = 0;
    while i < n
        invariant
            n == ids@.len(),
            i <= n,
            counts@.len() == i,
            forall|j: int| 0 <= j < i ==> counts@[j] == 0,
        decreases n - i,
    {
        counts.push(0);
        i = i + 1;
    }
    let mut w: usize = 0;
    while w < wins.len()
        invariant
            wins@.len() <= u16::MAX,
            n == ids@.len(),
            w <= wins@.len(),
            counts@.len() == n,
            forall|j: int| 0 <= j < n ==> #[trigger] counts@[j] == window_count(wins@.take(w as int), ws@, ids@, j),
            forall|j: int| 0 <= j < n ==> #[trigger] counts@[j] <= w,
        decreases wins@.len() - w,
    {
        assert(wins@.take(w + 1).drop_last() =~= wins@.take(w as int));
        if let Some(wid) = wins[w].workspace_id {
            let known = has_id(ws, wid);
            if known {
                let target = wid as i32;
                let mut j: usize = 0;
                while j < n && ids[j] != target
                    invariant
                        j <= n,
                        n == ids@.len(),
                        forall|r: int| 0 <= r < j ==> #[trigger] ids@[r] != target,
                    decreases n - j,
                {
                    j = j + 1;
                }
                if j < n {
                    let c = counts[j];
                    counts.set(j, c + 1);
                    proof {
                        assert forall|r: int| 0 <= r < n implies #[trigger] counts@[r]
                            == window_count(wins@.take(w + 1), ws@, ids@, r) by {
                            if r != j {
                                assert(!is_first_id(ids@, target, r));
                            } else {
                                assert(is_first_id(ids@, target, r));
                            }
                        }
                    }
                } else {
                    proof {
                        assert forall|r: int| 0 <= r < n implies #[trigger] counts@[r]
                            == window_count(wins@.take(w + 1), ws@, ids@, r) by {
                            assert(!is_first_id(ids@, target, r));
                        }
                    }
                }
            }
        }
        w = w + 1;
    }
    assert(wins@.take(wins@.len() as int) =~= wins@);
    counts
}

fn build_niri_workspaces(
    ws: &Vec<NiriWorkspace>,
    perm: &Vec<usize>,
    counts: &Vec<u16>,
    outputs: &Vec<String>,
    wins: &Vec<NiriWindow>,
) -> (workspaces: Vec<CompositorWorkspace>)
    requires
        sorted_by_idx(ws@, perm@),
        counts@.len() == perm@.len(),
        forall|j: int|
            0 <= j < perm@.len() ==> #[trigger] counts@[j] == window_count(wins@, ws@, sorted_ids(ws@, perm@), j),
        strictly_sorted(views(outputs@)),
    ensures
        workspaces@.len() == ws@.len(),
        forall|j: int|
            0 <= j < ws@.len() ==> niri_workspace(
                #[trigger] workspaces@[j],
                ws@[perm@[j] as int],
                views(outputs@),
                window_count(wins@, ws@, sorted_ids(ws@, perm@), j),
            ),
{
    let n = perm.len();
    let mut workspaces: Vec<CompositorWorkspace> = Vec::new();
    let mut i: usize = 0;
    while i < n
        invariant
            n == perm@.len(),
            n == ws@.len(),
            sorted_by_idx(ws@, perm@),
            counts@.len() == n,
            forall|j: int|
                0 <= j < n ==> #[trigger] counts@[j] == window_count(wins@, ws@, sorted_ids(ws@, perm@), j),
            strictly_sorted(views(outputs@)),
            i <= n,
            workspaces@.len() == i,
            forall|j: int|
                0 <= j < i ==> niri_workspace(
                    #[trigger] workspaces@[j],
                    ws@[perm@[j] as int],
                    views(outputs@),
                    window_count(wins@, ws@, sorted_ids(ws@, perm@), j),
                ),
        decreases n - i,
    {
        let src = &ws[perm[i]];
        let name = match &src.name {
            Some(nm) => nm.clone(),
            None => i64_to_string(src.idx as i64),
        };
        let (monitor, monitor_id) = match &src.output {
            Some(o) => (o.clone(), Some(position_of(outputs, o.as_str()))),
            None => (String::new(), None),
        };
        workspaces.push(
            CompositorWorkspace {
                id: src.id as i32,
                index: src.idx as i32,
                name,
                monitor,
                monitor_id,
                windows: counts[i],
                is_special: false,
                has_urgent: false,
                window_classes: Vec::new(),
            },
        );
        i = i + 1;
    }
    workspaces
}

/// Maps niri's state onto the bar's: outputs sorted by name, workspaces
/// sorted by index, each workspace counting the windows niri places on
/// it.
pub fn map_state(niri: &NiriState) -> (state: CompositorState)
    requires
        niri.windows@.len() <= u16::MAX,
    ensures
        ({
            let ws = niri.workspaces@;
            let mnames = state.monitors@.map_values(|m: CompositorMonitor| m.name@);
            &&& strictly_sorted(mnames)
            &&& mnames.to_set() == outputs_of(ws)
            &&& forall|k: int|
                0 <= k < state.monitors@.len() ==> {
                    let m = #[trigger] state.monitors@[k];
                    &&& m.id == k
                    &&& m.special_workspace_id == -1
                    &&& m.active_workspace_id == match last_active_on(ws, m.name@) {
                        Some(id) => id,
                        None => -1i32,
                    }
                }
            &&& exists|perm: Seq<usize>|
                #[trigger] sorted_by_idx(ws, perm) && state.workspaces@.len() == ws.len() && forall|i: int|
                    0 <= i < ws.len() ==> niri_workspace(
                        #[trigger] state.workspaces@[i],
                        ws[perm[i] as int],
                        mnames,
                        window_count(niri.windows@, ws, sorted_ids(ws, perm), i),
                    )
            &&& state.active_workspace_ids@ == match focused_workspace(ws) {
                Some(id) => seq![id],
                None => Seq::<i32>::empty(),
            }
            &&& niri_active_window(state.active_window, niri.windows@)
            &&& state.keyboard_layout@ == niri_layout(niri.keyboard_layouts)
            &&& state.submap is None
        }),
{
    let ws = &niri.workspaces;
    let wins = &niri.windows;
    let outputs = active_outputs(ws);
    let monitors = build_monitors(ws, &outputs);
    let perm = sort_by_idx(ws);
    let ids = ids_of(ws, &perm);
    let counts = count_windows(wins, ws, &ids);
    let workspaces = build_niri_workspaces(ws, &perm, &counts, &outputs, wins);
    let active_workspace_ids = focused_ids(ws);
    let active_window = match find_focused_window(wins) {
        Some(i) => {
            let v = &wins[i];
            Some(
                ActiveWindow::Niri(
                    ActiveWindowNiri {
                        title: match &v.title {
                            Some(t) => t.clone(),
                            None => String::new(),
                        },
                        class: match &v.app_id {
                            Some(c) => c.clone(),
                            None => String::new(),
                        },
                        address: i128_to_string(v.id as i128),
                    },
                ),
            )
        },
        None => None,
    };
    let ghost perm_view = perm@;
    let state = CompositorState {
        workspaces,
        monitors,
        active_workspace_ids,
        active_window,
        keyboard_layout: layout_name(&niri.keyboard_layouts),
        submap: None,
    };
    assert(sorted_by_idx(ws@, perm_view));
    state
}

fn layout_name(k: &Option<NiriKeyboardLayouts>) -> (r: String)
    ensures
        r@ == niri_layout(*k),
{
    match k {
        Some(l) => if (l.current_idx as usize) < l.names.len() {
            l.names[l.current_idx as usize].clone()
        } else {
            "Unknown".to_owned()
        },
        None => "Unknown".to_owned(),
    }
}

/// A niri action the bar sends.
pub enum NiriAction {
    FocusWorkspace(u64),
    FocusWorkspaceUp,
    FocusWorkspaceDown,
    SwitchLayoutNext,
    Spawn(Vec<String>),
}

/// The niri action of a request of the bar, or why there is none: ids must
/// not be negative, special workspaces and monitors by id are unsupported,
/// and `spawn` is the one custom dispatch.
pub fn niri_action(cmd: CompositorCommand) -> (r: Result<NiriAction, String>)
    ensures
        match cmd {
            CompositorCommand::FocusWorkspace(id) => if id >= 0 {
                r matches Ok(NiriAction::FocusWorkspace(x)) && x == id
            } else {
                r matches Err(e) && e@ == "Workspace ID "@ + decimal(id as int)
                    + " is out of range for Niri backend"@
            },
            CompositorCommand::FocusSpecialWorkspace(_) => r matches Err(e) && e@
                == "Special workspaces not supported in Niri backend"@,
            CompositorCommand::ToggleSpecialWorkspace(_) => r matches Err(e) && e@
                == "Special workspaces not supported in Niri backend"@,
            CompositorCommand::FocusMonitor(_) => r matches Err(e) && e@
                == "FocusMonitor by ID not supported in Niri backend"@,
            CompositorCommand::ScrollWorkspace(dir) => if dir > 0 {
                r matches Ok(NiriAction::FocusWorkspaceUp)
            } else {
                r matches Ok(NiriAction::FocusWorkspaceDown)
            },
            CompositorCommand::NextLayout => r matches Ok(NiriAction::SwitchLayoutNext),
            CompositorCommand::CustomDispatch(action, args) => if action@ == "spawn"@ {
                r matches Ok(NiriAction::Spawn(v)) && v@.len() == 1 && v@[0]@ == args@
            } else {
                r matches Err(e) && e@ == "Unknown custom dispatch: "@ + action@
            },
        },
{
    match cmd {
        CompositorCommand::FocusWorkspace(id) => if id >= 0 {
            Ok(NiriAction::FocusWorkspace(id as u64))
        } else {
            let mut e = "Workspace ID ".to_owned();
            let d = i64_to_string(id as i64);
            crate::text::push_str(&mut e, d.as_str());
            crate::text::push_str(&mut e, " is out of range for Niri backend");
            assert(e@ =~= "Workspace ID "@ + decimal(id as int) + " is out of range for Niri backend"@);
            Err(e)
        },
        CompositorCommand::FocusSpecialWorkspace(_) => Err(
            "Special workspaces not supported in Niri backend".to_owned(),
        ),
        CompositorCommand::ToggleSpecialWorkspace(_) => Err(
            "Special workspaces not supported in Niri backend".to_owned(),
        ),
        CompositorCommand::FocusMonitor(_) => Err(
            "FocusMonitor by ID not supported in Niri backend".to_owned(),
        ),
        CompositorCommand::ScrollWorkspace(dir) => if dir > 0 {
            Ok(NiriAction::FocusWorkspaceUp)
        } else {
            Ok(NiriAction::FocusWorkspaceDown)
        },
        CompositorCommand::NextLayout => Ok(NiriAction::SwitchLayoutNext),
        CompositorCommand::CustomDispatch(action, args) => if str_eq(action.as_str(), "spawn") {
            let mut v: Vec<String> = Vec::new();
            v.push(args);
            Ok(NiriAction::Spawn(v))
        } else {
            let mut e = "Unknown custom dispatch: ".to_owned();
            crate::text::push_str(&mut e, action.as_str());
            Err(e)
        },
    }
}

} // verus!
