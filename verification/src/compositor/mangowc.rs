//! MangoWC backend. Mango is a tag-based compositor: each (monitor, tag)
//! pair becomes a workspace of the bar, and several tags can be active at
//! once. The monitors its `mmsg` CLI reports are mapped here onto the
//! compositor state, and the bar's requests onto `mmsg` dispatches.

use super::types::{
    command_text, unsupported, ActiveWindow, ActiveWindowGeneric, CompositorCommand, CompositorMonitor, CompositorState,
    CompositorWorkspace,
};
use crate::order::{insert_unique, stable_order, stably_sorted, strictly_increasing};
use super::wayfire::or_empty;
use crate::text::{decimal, i64_to_string, push_str, str_eq};
use vstd::prelude::*;

verus! {

/// A tag of a monitor.
#[derive(Clone, Copy)]
pub struct MangoTag {
    pub index: i32,
    pub is_urgent: bool,
    pub client_count: u16,
}

/// The focused client of a monitor.
pub struct MangoClient {
    pub title: Option<String>,
    pub appid: Option<String>,
}

/// A monitor as `mmsg get all-monitors` reports it.
pub struct MangoMonitor {
    pub name: String,
    pub active: bool,
    pub tags: Vec<MangoTag>,
    pub active_tags: Vec<i32>,
    pub active_client: MangoClient,
    pub keymode: String,
    pub keyboardlayout: String,
}

/// Per-monitor id offset: monitor 0's ids are its tag indexes.
pub const TAG_STRIDE: i32 = 100;

/// The workspace id of a tag of a monitor.
pub open spec fn tag_id(monitor: int, tag: int) -> int {
    monitor * TAG_STRIDE + tag
}

/// Every workspace id the monitors need fits an `i32`.
pub open spec fn ids_fit(ms: Seq<MangoMonitor>) -> bool {
    &&& forall|k: int, j: int|
        0 <= k < ms.len() && 0 <= j < ms[k].tags@.len() ==> i32::MIN <= tag_id(k, (#[trigger] ms[k].tags@[j]).index as int)
            <= i32::MAX
    &&& forall|k: int, j: int|
        0 <= k < ms.len() && 0 <= j < ms[k].active_tags@.len() ==> i32::MIN <= tag_id(
            k,
            #[trigger] ms[k].active_tags@[j] as int,
        ) <= i32::MAX
}

/// Whether every workspace id the monitors need fits an `i32`, which
/// `build_state` asks of its input.
pub fn monitors_fit(ms: &Vec<MangoMonitor>) -> (r: bool)
    ensures
        r == ids_fit(ms@),
{
    let mut k: usize = 0;
    while k < ms.len()
        invariant
            0 <= k <= ms@.len(),
            forall|a: int, j: int|
                0 <= a < k && 0 <= j < ms@[a].tags@.len() ==> i32::MIN <= tag_id(
                    a,
                    (#[trigger] ms@[a].tags@[j]).index as int,
                ) <= i32::MAX,
            forall|a: int, j: int|
                0 <= a < k && 0 <= j < ms@[a].active_tags@.len() ==> i32::MIN <= tag_id(
                    a,
                    #[trigger] ms@[a].active_tags@[j] as int,
                ) <= i32::MAX,
        decreases ms@.len() - k,
    {
        let m = &ms[k];
        let base: i128 = k as i128 * 100;
        let mut j: usize = 0;
        while j < m.tags.len()
            invariant
                0 <= k < ms@.len(),
                *m == ms@[k as int],
                base == k * 100,
                0 <= j <= m.tags@.len(),
                forall|jj: int|
                    0 <= jj < j ==> i32::MIN <= tag_id(k as int, (#[trigger] m.tags@[jj]).index as int)
                        <= i32::MAX,
            decreases m.tags@.len() - j,
        {
            let v: i128 = base + m.tags[j].index as i128;
            if v < i32::MIN as i128 || v > i32::MAX as i128 {
                assert(ms@[k as int].tags@[j as int] == m.tags@[j as int]);
                return false;
            }
            j += 1;
        }
        let mut j: usize = 0;
        while j < m.active_tags.len()
            invariant
                0 <= k < ms@.len(),
                *m == ms@[k as int],
                base == k * 100,
                0 <= j <= m.active_tags@.len(),
                forall|jj: int|
                    0 <= jj < j ==> i32::MIN <= tag_id(k as int, #[trigger] m.active_tags@[jj] as int)
                        <= i32::MAX,
            decreases m.active_tags@.len() - j,
        {
            let v: i128 = base + m.active_tags[j] as i128;
            if v < i32::MIN as i128 || v > i32::MAX as i128 {
                assert(ms@[k as int].active_tags@[j as int] == m.active_tags@[j as int]);
                return false;
            }
            j += 1;
        }
        k += 1;
    }
    true
}

/// The workspace id of a tag of monitor `monitor_idx`: `monitor_idx * 100 + tag`.
pub fn encode_workspace_id(monitor_idx: usize, tag: i32) -> (r: i32)
    requires
        i32::MIN <= tag_id(monitor_idx as int, tag as int) <= i32::MAX,
    ensures
        r == tag_id(monitor_idx as int, tag as int),
{
    assert(monitor_idx * 100 <= i32::MAX as int * 2 + 1) by (nonlinear_arith)
        requires
            i32::MIN <= monitor_idx * 100 + tag <= i32::MAX,
            i32::MIN <= tag <= i32::MAX,
    ;
    let m = monitor_idx as i64;
    (m * 100 + tag as i64) as i32
}

/// On the first monitor a tag's workspace id is the tag itself, so a single
/// monitor keeps Mango's tag numbers.
pub proof fn law_first_monitor_ids_are_tags(tag: int)
    ensures
        tag_id(0, tag) == tag,
{
}

/// Rust's `/`, which rounds toward zero.
pub open spec fn trunc_div(a: int, d: int) -> int {
    if a >= 0 {
        a / d
    } else {
        -((-a) / d)
    }
}

/// Rust's `%`, whose result takes the sign of `a`.
pub open spec fn trunc_rem(a: int, d: int) -> int {
    a - trunc_div(a, d) * d
}

/// The monitor index and tag of a workspace id.
pub fn decode_workspace_id(id: i32) -> (r: (usize, i32))
    ensures
        r.0 == trunc_div(id as int, TAG_STRIDE as int) as usize,
        r.1 == trunc_rem(id as int, TAG_STRIDE as int),
{
    let q = id.checked_div(TAG_STRIDE).unwrap();
    let m = id.checked_rem(TAG_STRIDE).unwrap();
    (#[verifier::truncate] (q as usize), m)
}

/// A workspace id of a tag below the stride on a monitor decodes back to
/// that monitor and tag.
pub proof fn law_decode_encode(monitor: int, tag: int)
    requires
        0 <= monitor,
        0 <= tag < TAG_STRIDE,
        tag_id(monitor, tag) <= i32::MAX,
    ensures
        trunc_div(tag_id(monitor, tag), TAG_STRIDE as int) == monitor,
        trunc_rem(tag_id(monitor, tag), TAG_STRIDE as int) == tag,
{
    assert((monitor * 100 + tag) / 100 == monitor) by (nonlinear_arith)
        requires
            0 <= monitor,
            0 <= tag < 100,
    ;
}

/// (monitor index, tag position) of every tag of the first `k` monitors,
/// monitor by monitor.
pub open spec fn tag_slots(ms: Seq<MangoMonitor>, k: int) -> Seq<(int, int)>
    decreases k,
{
    if k <= 0 {
        Seq::empty()
    } else {
        tag_slots(ms, k - 1) + Seq::new(ms[k - 1].tags@.len(), |j: int| (k - 1, j))
    }
}

/// The workspace id of a tag slot.
pub open spec fn slot_id(ms: Seq<MangoMonitor>, e: (int, int)) -> int {
    tag_id(e.0, ms[e.0].tags@[e.1].index as int)
}

/// The workspace ids of all tag slots, in slot order.
pub open spec fn slot_keys(ms: Seq<MangoMonitor>) -> Seq<i64> {
    tag_slots(ms, ms.len() as int).map_values(|e: (int, int)| slot_id(ms, e) as i64)
}

/// `w` is what the bar shows of the tag in slot `e`.
pub open spec fn mango_workspace(w: CompositorWorkspace, ms: Seq<MangoMonitor>, e: (int, int)) -> bool {
    let t = ms[e.0].tags@[e.1];
    &&& w.id == slot_id(ms, e)
    &&& w.index == t.index
    &&& w.name@ == decimal(t.index as int)
    &&& w.monitor@ == ms[e.0].name@
    &&& w.monitor_id == Some(e.0 as i128)
    &&& w.windows == t.client_count
    &&& !w.is_special
    &&& w.has_urgent == t.is_urgent
    &&& w.window_classes@.len() == 0
}

/// `x` is the id of an active tag of monitor `k`.
pub open spec fn active_on(ms: Seq<MangoMonitor>, k: int, x: int) -> bool {
    exists|j: int| 0 <= j < ms[k].active_tags@.len() && x == tag_id(k, #[trigger] ms[k].active_tags@[j] as int)
}

/// The ids of the first `q` active tags of monitor `k`.
pub open spec fn active_prefix(ms: Seq<MangoMonitor>, k: int, q: int) -> Set<i32> {
    Set::new(|x: i32| exists|i: int| 0 <= i < q && x == tag_id(k, #[trigger] ms[k].active_tags@[i] as int))
}

/// The ids of the active tags of the monitors before `k`.
pub open spec fn active_upto(ms: Seq<MangoMonitor>, k: int) -> Set<i32> {
    Set::new(|x: i32| exists|m: int| 0 <= m < k && #[trigger] active_on(ms, m, x as int))
}

/// The window a client shows: none when it has neither title nor class.
pub open spec fn client_window(c: MangoClient) -> Option<(Seq<char>, Seq<char>)> {
    if or_empty(c.title).len() == 0 && or_empty(c.appid).len() == 0 {
        None
    } else {
        Some((or_empty(c.title), or_empty(c.appid)))
    }
}

/// The active monitor's window, else the first monitor's that has one: a
/// monitor's value replaces the one so far when none was found yet or the
/// monitor is the active one.
pub open spec fn picked_window(ms: Seq<MangoMonitor>) -> Option<(Seq<char>, Seq<char>)>
    decreases ms.len(),
{
    if ms.len() == 0 {
        None
    } else {
        let prev = picked_window(ms.drop_last());
        let m = ms.last();
        if (prev is None || m.active) && client_window(m.active_client) is Some {
            client_window(m.active_client)
        } else {
            prev
        }
    }
}

/// The keyboard layout, chosen the same way among the non-empty ones.
pub open spec fn picked_layout(ms: Seq<MangoMonitor>) -> Option<Seq<char>>
    decreases ms.len(),
{
    if ms.len() == 0 {
        None
    } else {
        let prev = picked_layout(ms.drop_last());
        let m = ms.last();
        if (prev is None || m.active) && m.keyboardlayout@.len() > 0 {
            Some(m.keyboardlayout@)
        } else {
            prev
        }
    }
}

/// The key mode, chosen the same way among the non-empty ones; the mode
/// `default` clears it.
pub open spec fn picked_submap(ms: Seq<MangoMonitor>) -> Option<Seq<char>>
    decreases ms.len(),
{
    if ms.len() == 0 {
        None
    } else {
        let prev = picked_submap(ms.drop_last());
        let m = ms.last();
        if (prev is None || m.active) && m.keymode@.len() > 0 {
            if m.keymode@ == "default"@ {
                None
            } else {
                Some(m.keymode@)
            }
        } else {
            prev
        }
    }
}

proof fn lemma_tag_slots_bounds(ms: Seq<MangoMonitor>, n: int)
    requires
        0 <= n <= ms.len(),
    ensures
        forall|p: int|
            0 <= p < tag_slots(ms, n).len() ==> {
                let e = #[trigger] tag_slots(ms, n)[p];
                0 <= e.0 < n && 0 <= e.1 < ms[e.0].tags@.len()
            },
    decreases n,
{
    if n > 0 {
        lemma_tag_slots_bounds(ms, n - 1);
        let prev = tag_slots(ms, n - 1);
        let all = tag_slots(ms, n);
        assert forall|p: int| 0 <= p < all.len() implies {
            let e = #[trigger] all[p];
            0 <= e.0 < n && 0 <= e.1 < ms[e.0].tags@.len()
        } by {
            if p < prev.len() {
                assert(all[p] == prev[p]);
            }
        }
    }
}

proof fn lemma_tag_slots(ms: Seq<MangoMonitor>, k: int, n: int)
    requires
        0 <= k <= n <= ms.len(),
    ensures
        tag_slots(ms, k).len() <= tag_slots(ms, n).len(),
        forall|p: int| 0 <= p < tag_slots(ms, k).len() ==> #[trigger] tag_slots(ms, n)[p] == tag_slots(ms, k)[p],
    decreases n - k,
{
    if k < n {
        lemma_tag_slots(ms, k, n - 1);
    }
}

fn to_window(c: &MangoClient) -> (r: Option<ActiveWindow>)
    ensures
        match client_window(*c) {
            Some(w) => r matches Some(ActiveWindow::Mango(a)) && a.title@ == w.0 && a.class@ == w.1,
            None => r is None,
        },
{
    let title = match &c.title {
        Some(t) => t.clone(),
        None => String::new(),
    };
    let class = match &c.appid {
        Some(a) => a.clone(),
        None => String::new(),
    };
    if title.unicode_len() == 0 && class.unicode_len() == 0 {
        None
    } else {
        Some(ActiveWindow::Mango(ActiveWindowGeneric { title, class }))
    }
}

/// The bar's state from Mango's monitors: every (monitor, tag) pair is a
/// workspace, sorted by id (ties keep their order); the active tags of all
/// monitors are the active workspaces, sorted and each once; a monitor
/// shows its smallest active tag. The window, layout and key mode come
/// from the active monitor, else from the first that reports one.
pub fn build_state(ms: &Vec<MangoMonitor>) -> (state: CompositorState)
    requires
        ids_fit(ms@),
    ensures
        ({
            let slots = tag_slots(ms@, ms@.len() as int);
            exists|perm: Seq<usize>|
                #![trigger stably_sorted(slot_keys(ms@), perm)]
                stably_sorted(slot_keys(ms@), perm) && state.workspaces@.len() == slots.len() && forall|i: int|
                    0 <= i < slots.len() ==> mango_workspace(#[trigger] state.workspaces@[i], ms@, slots[perm[i] as int])
        }),
        strictly_increasing(state.active_workspace_ids@),
        forall|x: i32|
            state.active_workspace_ids@.contains(x) <==> exists|k: int| 0 <= k < ms@.len() && #[trigger] active_on(ms@, k, x as int),
        state.monitors@.len() == ms@.len(),
        forall|k: int|
            0 <= k < ms@.len() ==> {
                let m = #[trigger] state.monitors@[k];
                &&& m.id == k
                &&& m.name@ == ms@[k].name@
                &&& m.special_workspace_id == -1
                &&& if ms@[k].active_tags@.len() == 0 {
                    m.active_workspace_id == -1
                } else {
                    active_on(ms@, k, m.active_workspace_id as int) && forall|j: int|
                        0 <= j < ms@[k].active_tags@.len() ==> m.active_workspace_id <= tag_id(
                            k,
                            #[trigger] ms@[k].active_tags@[j] as int,
                        )
                }
            },
        match picked_window(ms@) {
            Some(w) => state.active_window matches Some(ActiveWindow::Mango(a)) && a.title@ == w.0 && a.class@ == w.1,
            None => state.active_window is None,
        },
        state.keyboard_layout@ == match picked_layout(ms@) {
            Some(l) => l,
            None => "Unknown"@,
        },
        match picked_submap(ms@) {
            Some(s) => state.submap matches Some(t) && t@ == s,
            None => state.submap is None,
        },
{
    let ghost n = ms@.len() as int;
    let ghost slots = tag_slots(ms@, n);
    let mut flat: Vec<(usize, usize)> = Vec::new();
    let mut keys: Vec<i64> = Vec::new();
    let mut active: Vec<i32> = Vec::new();
    let mut monitors: Vec<CompositorMonitor> = Vec::new();
    let mut active_window: Option<ActiveWindow> = None;
    let mut layout: Option<String> = None;
    let mut submap: Option<String> = None;
    proof {
        reveal_strlit("default");
        lemma_tag_slots_bounds(ms@, n);
    }
    let mut k: usize = 0;
    while k < ms.len()
        invariant
            ids_fit(ms@),
            n == ms@.len(),
            slots == tag_slots(ms@, n),
            k <= n,
            forall|p: int|
                0 <= p < slots.len() ==> {
                    let e = #[trigger] slots[p];
                    0 <= e.0 < n && 0 <= e.1 < ms@[e.0].tags@.len()
                },
            flat@.len() == tag_slots(ms@, k as int).len(),
            keys@.len() == flat@.len(),
            forall|p: int| 0 <= p < flat@.len() ==> (#[trigger] flat@[p]).0 == slots[p].0 && flat@[p].1 == slots[p].1,
            forall|p: int| 0 <= p < keys@.len() ==> #[trigger] keys@[p] == slot_id(ms@, slots[p]) as i64,
            strictly_increasing(active@),
            active@.to_set() == active_upto(ms@, k as int),
            monitors@.len() == k,
            forall|j: int|
                0 <= j < k ==> {
                    let m = #[trigger] monitors@[j];
                    &&& m.id == j
                    &&& m.name@ == ms@[j].name@
                    &&& m.special_workspace_id == -1
                    &&& if ms@[j].active_tags@.len() == 0 {
                        m.active_workspace_id == -1
                    } else {
                        active_on(ms@, j, m.active_workspace_id as int) && forall|q: int|
                            0 <= q < ms@[j].active_tags@.len() ==> m.active_workspace_id <= tag_id(
                                j,
                                #[trigger] ms@[j].active_tags@[q] as int,
                            )
                    }
                },
            match picked_window(ms@.take(k as int)) {
                Some(w) => active_window matches Some(ActiveWindow::Mango(a)) && a.title@ == w.0 && a.class@ == w.1,
                None => active_window is None,
            },
            match picked_layout(ms@.take(k as int)) {
                Some(l) => layout matches Some(t) && t@ == l,
                None => layout is None,
            },
            match picked_submap(ms@.take(k as int)) {
                Some(l) => submap matches Some(t) && t@ == l,
                None => submap is None,
            },
        decreases n - k,
    {
        let m = &ms[k];
        let ghost ko = k as int;
        proof {
            lemma_tag_slots(ms@, ko + 1, n);
            assert(tag_slots(ms@, ko + 1) == tag_slots(ms@, ko) + Seq::new(
                ms@[ko].tags@.len(),
                |j: int| (ko, j),
            ));
        }
        let ghost base = tag_slots(ms@, ko).len() as int;
        let mut j: usize = 0;
        while j < m.tags.len()
            invariant
                ids_fit(ms@),
                n == ms@.len(),
                slots == tag_slots(ms@, n),
                k < n,
                ko == k,
                m == ms@[ko],
                base == tag_slots(ms@, ko).len(),
                base + m.tags@.len() <= slots.len(),
                forall|q: int| 0 <= q < m.tags@.len() ==> #[trigger] slots[base + q] == (ko, q),
                j <= m.tags@.len(),
                flat@.len() == base + j,
                keys@.len() == flat@.len(),
                forall|p: int| 0 <= p < flat@.len() ==> (#[trigger] flat@[p]).0 == slots[p].0 && flat@[p].1 == slots[p].1,
                forall|p: int| 0 <= p < keys@.len() ==> #[trigger] keys@[p] == slot_id(ms@, slots[p]) as i64,
            decreases m.tags@.len() - j,
        {
            assert(slots[base + j] == (ko, j as int));
            let id = encode_workspace_id(k, m.tags[j].index);
            flat.push((k, j));
            keys.push(id as i64);
            j = j + 1;
        }
        let ghost before_set = active@.to_set();
        let mut least: i32 = -1;
        let mut q: usize = 0;
        while q < m.active_tags.len()
            invariant
                ids_fit(ms@),
                n == ms@.len(),
                k < n,
                ko == k,
                m == ms@[ko],
                q <= m.active_tags@.len(),
                strictly_increasing(active@),
                active@.to_set() == before_set + active_prefix(ms@, ko, q as int),
                q == 0 ==> least == -1,
                q > 0 ==> (exists|i: int| 0 <= i < q && least == tag_id(ko, #[trigger] m.active_tags@[i] as int)),
                q > 0 ==> forall|i: int| 0 <= i < q ==> least <= tag_id(ko, #[trigger] m.active_tags@[i] as int),
            decreases m.active_tags@.len() - q,
        {
            let id = encode_workspace_id(k, m.active_tags[q]);
            let ghost old_set = active@.to_set();
            insert_unique(&mut active, id);
            proof {
                assert forall|x: i32| #[trigger] active_prefix(ms@, ko, q + 1).contains(x) == active_prefix(ms@, ko, q as int).insert(id).contains(x) by {
                    if active_prefix(ms@, ko, q + 1).contains(x) {
                        let i = choose|i: int| 0 <= i < q + 1 && x == tag_id(ko, #[trigger] ms@[ko].active_tags@[i] as int);
                        if i < q {
                            assert(active_prefix(ms@, ko, q as int).contains(x));
                        }
                    }
                    if active_prefix(ms@, ko, q as int).contains(x) {
                        let i = choose|i: int| 0 <= i < q && x == tag_id(ko, #[trigger] ms@[ko].active_tags@[i] as int);
                        assert(active_prefix(ms@, ko, q + 1).contains(x));
                    }
                    if x == id {
                        assert(x == tag_id(ko, ms@[ko].active_tags@[q as int] as int));
                    }
                }
                assert(active_prefix(ms@, ko, q + 1) =~= active_prefix(ms@, ko, q as int).insert(id));
                assert(active@.to_set() =~= before_set + active_prefix(ms@, ko, q + 1));
            }
            if q == 0 || id < least {
                least = id;
            }
            q = q + 1;
        }
        proof {
            assert(active@.to_set() =~= active_upto(ms@, ko + 1)) by {
                assert forall|x: i32| active@.to_set().contains(x) <==> active_upto(ms@, ko + 1).contains(x) by {
                    if active_upto(ms@, ko + 1).contains(x) {
                        let mm = choose|mm: int| 0 <= mm < ko + 1 && #[trigger] active_on(ms@, mm, x as int);
                        if mm < ko {
                            assert(active_upto(ms@, ko).contains(x));
                        } else {
                            let i = choose|i: int|
                                0 <= i < ms@[ko].active_tags@.len() && x == tag_id(ko, #[trigger] ms@[ko].active_tags@[i] as int);
                            assert(x == tag_id(ko, m.active_tags@[i] as int));
                        }
                    }
                    if before_set.contains(x) {
                        assert(active_upto(ms@, ko).contains(x));
                        let mm = choose|mm: int| 0 <= mm < ko && #[trigger] active_on(ms@, mm, x as int);
                        assert(active_on(ms@, mm, x as int));
                    } else if active@.to_set().contains(x) {
                        let i = choose|i: int| 0 <= i < m.active_tags@.len() && x == tag_id(ko, #[trigger] m.active_tags@[i] as int);
                        assert(active_on(ms@, ko, x as int));
                    }
                }
            }
        }
        monitors.push(CompositorMonitor {
            id: k as i128,
            name: m.name.clone(),
            active_workspace_id: least,
            special_workspace_id: -1,
        });
        proof {
            let t = ms@.take(ko + 1);
            assert(t.drop_last() =~= ms@.take(ko));
            assert(t.last() == ms@[ko]);
        }
        let win = to_window(&m.active_client);
        if (active_window.is_none() || m.active) && win.is_some() {
            active_window = win;
        }
        if (layout.is_none() || m.active) && m.keyboardlayout.unicode_len() > 0 {
            layout = Some(m.keyboardlayout.clone());
        }
        if (submap.is_none() || m.active) && m.keymode.unicode_len() > 0 {
            submap = if str_eq(m.keymode.as_str(), "default") {
                None
            } else {
                Some(m.keymode.clone())
            };
        }
        k = k + 1;
    }
    assert(ms@.take(n) =~= ms@);
    assert(keys@ =~= slot_keys(ms@));
    assert forall|x: i32|
        active@.contains(x) <==> exists|k: int| 0 <= k < ms@.len() && #[trigger] active_on(ms@, k, x as int) by {
        assert(active@.to_set().contains(x) == active@.contains(x));
        assert(active_upto(ms@, n).contains(x) == exists|k: int| 0 <= k < n && #[trigger] active_on(ms@, k, x as int));
    }
    let perm = stable_order(&keys);
    let mut workspaces: Vec<CompositorWorkspace> = Vec::new();
    let mut i: usize = 0;
    while i < perm.len()
        invariant
            ids_fit(ms@),
            n == ms@.len(),
            slots == tag_slots(ms@, n),
            forall|p: int|
                0 <= p < slots.len() ==> {
                    let e = #[trigger] slots[p];
                    0 <= e.0 < n && 0 <= e.1 < ms@[e.0].tags@.len()
                },
            flat@.len() == slots.len(),
            keys@.len() == flat@.len(),
            forall|p: int| 0 <= p < flat@.len() ==> (#[trigger] flat@[p]).0 == slots[p].0 && flat@[p].1 == slots[p].1,
            forall|p: int| 0 <= p < keys@.len() ==> #[trigger] keys@[p] == slot_id(ms@, slots[p]) as i64,
            stably_sorted(keys@, perm@),
            i <= perm@.len(),
            workspaces@.len() == i,
            forall|p: int| 0 <= p < i ==> mango_workspace(#[trigger] workspaces@[p], ms@, slots[perm@[p] as int]),
        decreases perm@.len() - i,
    {
        let (mk, tj) = flat[perm[i]];
        let ghost e = slots[perm@[i as int] as int];
        assert(mk == e.0 && tj == e.1);
        let mon = &ms[mk];
        let t = mon.tags[tj];
        let id = encode_workspace_id(mk, t.index);
        workspaces.push(CompositorWorkspace {
            id,
            index: t.index,
            name: i64_to_string(t.index as i64),
            monitor: mon.name.clone(),
            monitor_id: Some(mk as i128),
            windows: t.client_count,
            is_special: false,
            has_urgent: t.is_urgent,
            window_classes: Vec::new(),
        });
        i = i + 1;
    }
    proof {
        assert(stably_sorted(slot_keys(ms@), perm@));
    }
    let keyboard_layout = match layout {
        Some(l) => l,
        None => {
            proof {
                reveal_strlit("Unknown");
            }
            String::from_str("Unknown")
        },
    };
    CompositorState {
        workspaces,
        monitors,
        active_workspace_ids: active,
        active_window,
        keyboard_layout,
        submap,
    }
}

/// What a request of the bar becomes on Mango: focusing a tag (which needs
/// the monitor list first), or one `mmsg dispatch`.
pub enum MangoAction {
    FocusTag { monitor: usize, tag: i32 },
    Dispatch(String),
}

/// The Mango action of a request of the bar, or why there is none:
/// special workspaces and monitors by id are unsupported.
pub fn mango_action(cmd: CompositorCommand) -> (r: Result<MangoAction, String>)
    ensures
        match cmd {
            CompositorCommand::FocusWorkspace(id) => r matches Ok(MangoAction::FocusTag { monitor, tag })
                && monitor == trunc_div(id as int, TAG_STRIDE as int) as usize && tag == trunc_rem(
                id as int,
                TAG_STRIDE as int,
            ),
            CompositorCommand::ScrollWorkspace(dir) => r matches Ok(MangoAction::Dispatch(f)) && f@ == if dir > 0 {
                "viewtoleft_have_client"@
            } else {
                "viewtoright_have_client"@
            },
            CompositorCommand::NextLayout => r matches Ok(MangoAction::Dispatch(f)) && f@ == "switch_keyboard_layout"@,
            CompositorCommand::CustomDispatch(d, a) => r matches Ok(MangoAction::Dispatch(f)) && f@ == if a@.len()
                == 0 {
                d@
            } else {
                d@ + ","@ + a@
            },
            CompositorCommand::FocusSpecialWorkspace(_) | CompositorCommand::ToggleSpecialWorkspace(_)
            | CompositorCommand::FocusMonitor(_) => r matches Err(e) && e@ == command_text(cmd)
                + " is not supported on the MangoWC backend"@,
        },
{
    match cmd {
        CompositorCommand::FocusWorkspace(id) => {
            let (monitor, tag) = decode_workspace_id(id);
            Ok(MangoAction::FocusTag { monitor, tag })
        },
        CompositorCommand::ScrollWorkspace(dir) => Ok(
            MangoAction::Dispatch(
                if dir > 0 {
                    "viewtoleft_have_client".to_owned()
                } else {
                    "viewtoright_have_client".to_owned()
                },
            ),
        ),
        CompositorCommand::NextLayout => Ok(MangoAction::Dispatch("switch_keyboard_layout".to_owned())),
        CompositorCommand::CustomDispatch(d, a) => {
            if a.unicode_len() == 0 {
                Ok(MangoAction::Dispatch(d))
            } else {
                let mut f = d;
                push_str(&mut f, ",");
                push_str(&mut f, a.as_str());
                Ok(MangoAction::Dispatch(f))
            }
        },
        other => Err(unsupported(&other, " is not supported on the MangoWC backend")),
    }
}

/// The dispatches that focus a tag: `view` acts on the selected monitor,
/// so with several monitors the target one is selected first, when it
/// exists.
pub fn focus_dispatches(names: &Vec<String>, monitor: usize, tag: i32) -> (r: Vec<String>)
    ensures
        ({
            let view = "view,"@ + decimal(tag as int);
            if names@.len() > 1 && monitor < names@.len() {
                r@.len() == 2 && r@[0]@ == "focusmon,"@ + names@[monitor as int]@ && r@[1]@ == view
            } else {
                r@.len() == 1 && r@[0]@ == view
            }
        }),
{
    let mut r: Vec<String> = Vec::new();
    if names.len() > 1 && monitor < names.len() {
        let mut f = "focusmon,".to_owned();
        push_str(&mut f, names[monitor].as_str());
        r.push(f);
    }
    let mut v = "view,".to_owned();
    let d = i64_to_string(tag as i64);
    push_str(&mut v, d.as_str());
    r.push(v);
    r
}

} // verus!
