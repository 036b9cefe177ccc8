//! Wayfire backend. Wayfire models workspaces as a per-output grid, so every
//! (output, grid cell) pair becomes one workspace of the bar. The replies of
//! its IPC socket, once parsed, are mapped here onto the compositor state.

use super::types::{
    command_text, unsupported, ActiveWindow, ActiveWindowNiri, CompositorCommand, CompositorMonitor, CompositorState, CompositorWorkspace,
};
use crate::text::{decimal, i64_to_string, str_eq, views};
use vstd::prelude::*;

verus! {

/// The position and size of an output or a view.
#[derive(Clone, Copy)]
pub struct WfGeometry {
    pub x: i64,
    pub y: i64,
    pub width: i64,
    pub height: i64,
}

/// The current cell of an output and the size of its workspace grid.
#[derive(Clone, Copy)]
pub struct WfWorkspaceInfo {
    pub x: i64,
    pub y: i64,
    pub grid_width: Option<i64>,
    pub grid_height: Option<i64>,
}

/// An output as `list-outputs` reports it.
pub struct WfOutput {
    pub id: i64,
    pub name: String,
    pub geometry: WfGeometry,
    pub workspace: WfWorkspaceInfo,
}

/// A view as `list-views` reports it.
pub struct WfView {
    pub id: i64,
    pub title: Option<String>,
    pub app_id: Option<String>,
    pub output_id: Option<i64>,
    pub geometry: WfGeometry,
    pub role: String,
    pub mapped: bool,
}

/// The keyboard state as `get-keyboard-state` reports it.
pub struct WfKeyboardState {
    pub layout: Option<String>,
    pub layout_index: Option<i64>,
    pub possible_layouts: Vec<String>,
}

/// The grid cell a workspace id of the bar stands for.
#[derive(Clone, Copy, PartialEq, Eq, Structural, Debug)]
pub struct WfCell {
    pub id: i32,
    pub output_id: i64,
    pub x: i64,
    pub y: i64,
}

/// Per-output id offset: cell `n` of output `i` gets id `i * 100 + n + 1`.
pub const OUTPUT_STRIDE: i64 = 100;

/// A size side of the grid: the reported one when at least 1, else 1.
pub open spec fn grid_side(v: Option<i64>) -> int {
    match v {
        Some(w) => if w >= 1 {
            w as int
        } else {
            1
        },
        None => 1,
    }
}

/// The grid of an output, at least 1x1.
pub open spec fn grid_of(o: WfOutput) -> (int, int) {
    (grid_side(o.workspace.grid_width), grid_side(o.workspace.grid_height))
}

/// `v` limited to `0..=hi`.
pub open spec fn clamp_to(v: int, hi: int) -> int {
    if v < 0 {
        0
    } else if v > hi {
        hi
    } else {
        v
    }
}

/// Rust's `/ 2`, which rounds toward zero.
pub open spec fn half(w: int) -> int {
    if w >= 0 {
        w / 2
    } else {
        -((-w) / 2)
    }
}

/// At least 1.
pub open spec fn at_least_one(v: int) -> int {
    if v >= 1 {
        v
    } else {
        1
    }
}

/// The unclamped column of the cell holding the view's centre: view
/// geometry is relative to the output's current cell.
pub open spec fn raw_col(v: WfView, o: WfOutput) -> int {
    o.workspace.x + (v.geometry.x + half(v.geometry.width as int)) / at_least_one(o.geometry.width as int)
}

/// The unclamped row of the cell holding the view's centre.
pub open spec fn raw_row(v: WfView, o: WfOutput) -> int {
    o.workspace.y + (v.geometry.y + half(v.geometry.height as int)) / at_least_one(o.geometry.height as int)
}

/// The grid cell holding the view: its centre, kept inside the grid.
pub open spec fn view_cell(v: WfView, o: WfOutput) -> (int, int) {
    (clamp_to(raw_col(v, o), grid_of(o).0 - 1), clamp_to(raw_row(v, o), grid_of(o).1 - 1))
}

/// Nothing in locating the view overflows an `i64`.
pub open spec fn view_fits(v: WfView, o: WfOutput) -> bool {
    let cx = v.geometry.x + half(v.geometry.width as int);
    let cy = v.geometry.y + half(v.geometry.height as int);
    &&& i64::MIN <= cx <= i64::MAX
    &&& i64::MIN <= cy <= i64::MAX
    &&& i64::MIN <= raw_col(v, o) <= i64::MAX
    &&& i64::MIN <= raw_row(v, o) <= i64::MAX
}

/// The id of cell `slot` of output `output_index`, while the slot is below
/// the stride.
pub open spec fn encoded_id(output_index: int, slot: int) -> Option<i32> {
    if 0 <= slot < OUTPUT_STRIDE {
        Some((output_index * OUTPUT_STRIDE + slot + 1) as i32)
    } else {
        None
    }
}

impl WfOutput {
    /// Grid size, at least 1x1.
    pub fn grid(&self) -> (r: (i64, i64))
        ensures
            r.0 == grid_of(*self).0,
            r.1 == grid_of(*self).1,
    {
        let w = match self.workspace.grid_width {
            Some(w) => if w >= 1 {
                w
            } else {
                1
            },
            None => 1,
        };
        let h = match self.workspace.grid_height {
            Some(h) => if h >= 1 {
                h
            } else {
                1
            },
            None => 1,
        };
        (w, h)
    }
}

fn clamp_i64(v: i64, hi: i64) -> (r: i64)
    requires
        hi >= 0,
    ensures
        r == clamp_to(v as int, hi as int),
{
    if v < 0 {
        0
    } else if v > hi {
        hi
    } else {
        v
    }
}

fn half_i64(w: i64) -> (r: i64)
    ensures
        r == half(w as int),
{
    let r = w.checked_div(2).unwrap();
    r
}

proof fn lemma_div_bounded(a: int, d: int)
    requires
        d >= 1,
    ensures
        a >= 0 ==> 0 <= a / d <= a,
        a < 0 ==> a <= a / d < 0,
{
    assert(a >= 0 ==> 0 <= a / d <= a) by (nonlinear_arith)
        requires
            d >= 1,
    ;
    assert(a < 0 ==> a <= a / d < 0) by (nonlinear_arith)
        requires
            d >= 1,
    ;
}

/// The id of a grid cell: `output_index * 100 + slot + 1` for a slot
/// below 100, none past it.
pub fn encode_workspace_id(output_index: usize, slot: i64) -> (r: Option<i32>)
    requires
        output_index * OUTPUT_STRIDE + OUTPUT_STRIDE <= i64::MAX,
    ensures
        r == encoded_id(output_index as int, slot as int),
{
    if 0 <= slot && slot < OUTPUT_STRIDE {
        let v: i64 = output_index as i64 * OUTPUT_STRIDE + slot + 1;
        Some(#[verifier::truncate] (v as i32))
    } else {
        None
    }
}

/// The grid cell holding a view: the cell under its centre, counted from
/// the output's current cell and kept inside the grid.
pub fn view_workspace(view: &WfView, output: &WfOutput) -> (r: (i64, i64))
    requires
        view_fits(*view, *output),
    ensures
        r.0 == view_cell(*view, *output).0,
        r.1 == view_cell(*view, *output).1,
{
    let (grid_w, grid_h) = output.grid();
    let width = if output.geometry.width >= 1 {
        output.geometry.width
    } else {
        1
    };
    let height = if output.geometry.height >= 1 {
        output.geometry.height
    } else {
        1
    };
    let cx = view.geometry.x + half_i64(view.geometry.width);
    let cy = view.geometry.y + half_i64(view.geometry.height);
    proof {
        lemma_div_bounded(cx as int, width as int);
        lemma_div_bounded(cy as int, height as int);
    }
    let x = output.workspace.x + cx.checked_div_euclid(width).unwrap();
    let y = output.workspace.y + cy.checked_div_euclid(height).unwrap();
    (clamp_i64(x, grid_w - 1), clamp_i64(y, grid_h - 1))
}

/// The cell a scroll leads to: `dir > 0` goes to the previous cell, any
/// other value to the next, wrapping around the grid in row-major order.
pub fn scroll_target(output: &WfOutput, dir: i32) -> (r: (i64, i64))
    requires
        grid_of(*output).0 * grid_of(*output).1 <= i64::MAX,
    ensures
        ({
            let (gw, gh) = grid_of(*output);
            let current = clamp_to(output.workspace.y as int, gh - 1) * gw + clamp_to(output.workspace.x as int, gw - 1);
            let target = (current + if dir > 0 { -1int } else { 1int }) % (gw * gh);
            r.0 == target % gw && r.1 == target / gw
        }),
{
    let (grid_w, grid_h) = output.grid();
    let cells = grid_w * grid_h;
    let cy = clamp_i64(output.workspace.y, grid_h - 1);
    let cx = clamp_i64(output.workspace.x, grid_w - 1);
    assert(cy * grid_w + cx < cells) by (nonlinear_arith)
        requires
            0 <= cy <= grid_h - 1,
            0 <= cx <= grid_w - 1,
            cells == grid_w * grid_h,
    ;
    assert(0 <= cy * grid_w) by (nonlinear_arith)
        requires
            0 <= cy,
            0 <= grid_w,
    ;
    let current = cy * grid_w + cx;
    let step: i64 = if dir > 0 {
        -1
    } else {
        1
    };
    let target = (current + step).checked_rem_euclid(cells).unwrap();
    (target.checked_rem_euclid(grid_w).unwrap(), target.checked_div_euclid(grid_w).unwrap())
}

/// The layout index that follows the current one, wrapping; none with
/// fewer than two layouts to switch between.
pub fn next_layout_index(kb: &WfKeyboardState) -> (r: Option<i64>)
    requires
        kb.layout_index != Some(i64::MAX),
        kb.possible_layouts@.len() <= i64::MAX,
    ensures
        kb.possible_layouts@.len() < 2 <==> r is None,
        r matches Some(i) ==> i == (match kb.layout_index {
            Some(c) => c as int,
            None => 0,
        } + 1) % (kb.possible_layouts@.len() as int),
{
    let n = kb.possible_layouts.len();
    if n < 2 {
        return None;
    }
    let current: i64 = match kb.layout_index {
        Some(c) => c,
        None => 0,
    };
    let next = (current + 1).checked_rem_euclid(n as i64).unwrap();
    Some(next)
}

/// The cell a workspace id stands for: the first with that id.
pub fn find_cell(cells: &Vec<WfCell>, id: i32) -> (r: Option<WfCell>)
    ensures
        match r {
            Some(c) => exists|i: int|
                0 <= i < cells@.len() && cells@[i] == c && c.id == id && forall|j: int| 0 <= j < i ==> cells@[j].id != id,
            None => forall|i: int| 0 <= i < cells@.len() ==> cells@[i].id != id,
        },
{
    let mut i: usize = 0;
    while i < cells.len()
        invariant
            i <= cells@.len(),
            forall|j: int| 0 <= j < i ==> cells@[j].id != id,
        decreases cells@.len() - i,
    {
        if cells[i].id == id {
            return Some(cells[i]);
        }
        i = i + 1;
    }
    None
}

/// The last output with the id: a later entry replaces an earlier one, as
/// in a map built from the list.
pub open spec fn output_by_id(outputs: Seq<WfOutput>, id: i64) -> Option<WfOutput>
    decreases outputs.len(),
{
    if outputs.len() == 0 {
        None
    } else if outputs.last().id == id {
        Some(outputs.last())
    } else {
        output_by_id(outputs.drop_last(), id)
    }
}

/// The output a view counts on: only mapped toplevel views on a known
/// output count.
pub open spec fn counted_on(v: WfView, outputs: Seq<WfOutput>) -> Option<WfOutput> {
    if v.mapped && v.role@ == "toplevel"@ {
        match v.output_id {
            Some(id) => output_by_id(outputs, id),
            None => None,
        }
    } else {
        None
    }
}

/// The (output id, column, row) a view counts in.
pub open spec fn view_key(v: WfView, outputs: Seq<WfOutput>) -> Option<(i64, i64, i64)> {
    match counted_on(v, outputs) {
        Some(o) => Some((o.id, view_cell(v, o).0 as i64, view_cell(v, o).1 as i64)),
        None => None,
    }
}

/// The application id of a view, when it has a non-empty one.
pub open spec fn shown_class(v: WfView) -> Option<Seq<char>> {
    match v.app_id {
        Some(c) => if c@.len() > 0 {
            Some(c@)
        } else {
            None
        },
        None => None,
    }
}

/// How many views count in the cell.
pub open spec fn cell_count(vs: Seq<WfView>, outputs: Seq<WfOutput>, key: (i64, i64, i64)) -> nat
    decreases vs.len(),
{
    if vs.len() == 0 {
        0
    } else {
        cell_count(vs.drop_last(), outputs, key) + if view_key(vs.last(), outputs) == Some(key) {
            1nat
        } else {
            0nat
        }
    }
}

/// The non-empty application ids of the views in the cell, in view order.
pub open spec fn cell_classes(vs: Seq<WfView>, outputs: Seq<WfOutput>, key: (i64, i64, i64)) -> Seq<Seq<char>>
    decreases vs.len(),
{
    if vs.len() == 0 {
        Seq::empty()
    } else {
        cell_classes(vs.drop_last(), outputs, key) + if view_key(vs.last(), outputs) == Some(key)
            && shown_class(vs.last()) is Some {
            seq![shown_class(vs.last())->0]
        } else {
            Seq::empty()
        }
    }
}

/// How many cells of an output become workspaces: the whole grid, at most
/// the stride.
pub open spec fn emit_count(o: WfOutput) -> int {
    let n = grid_of(o).0 * grid_of(o).1;
    if n < OUTPUT_STRIDE {
        n
    } else {
        OUTPUT_STRIDE as int
    }
}

/// The (output index, slot) of each workspace of the first `k` outputs, in
/// order.
pub open spec fn slots_upto(outputs: Seq<WfOutput>, k: int) -> Seq<(int, int)>
    decreases k,
{
    if k <= 0 {
        Seq::empty()
    } else {
        slots_upto(outputs, k - 1) + Seq::new(emit_count(outputs[k - 1]) as nat, |s: int| (k - 1, s))
    }
}

/// The grid cell of a slot of an output.
pub open spec fn cell_at(outputs: Seq<WfOutput>, p: (int, int)) -> WfCell {
    let o = outputs[p.0];
    let gw = grid_of(o).0;
    WfCell { id: (p.0 * OUTPUT_STRIDE + p.1 + 1) as i32, output_id: o.id, x: (p.1 % gw) as i64, y: (p.1 / gw) as i64 }
}

/// Two cells stand for the same output id and grid cell.
pub open spec fn same_place(a: WfCell, b: WfCell) -> bool {
    a.output_id == b.output_id && a.x == b.x && a.y == b.y
}

/// An earlier workspace stands for the same output id and cell, and took
/// its windows.
pub open spec fn taken_before(outputs: Seq<WfOutput>, all: Seq<(int, int)>, p: int) -> bool {
    exists|q: int| 0 <= q < p && same_place(#[trigger] cell_at(outputs, all[q]), cell_at(outputs, all[p]))
}

/// The current cell of an output, kept inside its grid.
pub open spec fn current_cell(o: WfOutput) -> (int, int) {
    (clamp_to(o.workspace.x as int, grid_of(o).0 - 1), clamp_to(o.workspace.y as int, grid_of(o).1 - 1))
}

/// `w` is what the bar shows of the workspace at position `p`.
pub open spec fn wf_workspace(
    w: CompositorWorkspace,
    outputs: Seq<WfOutput>,
    vs: Seq<WfView>,
    all: Seq<(int, int)>,
    p: int,
    collect: bool,
) -> bool {
    let slot = all[p];
    let o = outputs[slot.0];
    let c = cell_at(outputs, slot);
    let key = (c.output_id, c.x, c.y);
    let taken = taken_before(outputs, all, p);
    &&& w.id == c.id
    &&& w.index == slot.1 + 1
    &&& w.name@ == decimal(slot.1 + 1)
    &&& w.monitor@ == o.name@
    &&& w.monitor_id == Some(slot.0 as i128)
    &&& w.windows == (if taken {
        0
    } else if cell_count(vs, outputs, key) < 65535 {
        cell_count(vs, outputs, key) as int
    } else {
        65535
    })
    &&& views(w.window_classes@) == (if taken || !collect {
        Seq::empty()
    } else {
        cell_classes(vs, outputs, key)
    })
    &&& !w.is_special
    &&& !w.has_urgent
}

/// The ids of the workspaces that are the current cell of the focused
/// output, in order.
pub open spec fn active_ids(outputs: Seq<WfOutput>, focused: Option<i64>, ps: Seq<(int, int)>) -> Seq<i32>
    decreases ps.len(),
{
    if ps.len() == 0 {
        Seq::empty()
    } else {
        let c = cell_at(outputs, ps.last());
        let o = outputs[ps.last().0];
        active_ids(outputs, focused, ps.drop_last()) + if c.x == current_cell(o).0 && c.y == current_cell(o).1
            && focused == Some(o.id) {
            seq![c.id]
        } else {
            Seq::empty()
        }
    }
}

/// The workspace id an output shows: its current cell, -1 past the stride.
pub open spec fn monitor_workspace(outputs: Seq<WfOutput>, k: int) -> i32 {
    let o = outputs[k];
    match encoded_id(k, current_cell(o).1 * grid_of(o).0 + current_cell(o).0) {
        Some(id) => id,
        None => -1i32,
    }
}

/// The title or class when present, else empty.
pub open spec fn or_empty(s: Option<String>) -> Seq<char> {
    match s {
        Some(t) => t@,
        None => Seq::empty(),
    }
}

/// The keyboard layout shown: the reported one when non-empty, else
/// "Unknown".
pub open spec fn shown_layout(kb: Option<&WfKeyboardState>) -> Seq<char> {
    match kb {
        Some(k) => match k.layout {
            Some(l) => if l@.len() > 0 {
                l@
            } else {
                "Unknown"@
            },
            None => "Unknown"@,
        },
        None => "Unknown"@,
    }
}

/// What the grid and view arithmetic needs to stay inside an `i64`.
pub open spec fn state_fits(outputs: Seq<WfOutput>, vs: Seq<WfView>) -> bool {
    &&& outputs.len() * OUTPUT_STRIDE + OUTPUT_STRIDE <= i64::MAX
    &&& forall|k: int| 0 <= k < outputs.len() ==> grid_of(#[trigger] outputs[k]).0 * grid_of(outputs[k]).1 <= i64::MAX
    &&& forall|i: int|
        0 <= i < vs.len() ==> (counted_on(#[trigger] vs[i], outputs) matches Some(o) ==> view_fits(vs[i], o))
}

fn output_index_by_id(outputs: &Vec<WfOutput>, id: i64) -> (r: Option<usize>)
    ensures
        match r {
            Some(k) => k < outputs@.len() && output_by_id(outputs@, id) == Some(outputs@[k as int]),
            None => output_by_id(outputs@, id) is None,
        },
{
    let mut k: usize = outputs.len();
    assert(outputs@.take(k as int) =~= outputs@);
    while k > 0
        invariant
            k <= outputs@.len(),
            output_by_id(outputs@, id) == output_by_id(outputs@.take(k as int), id),
        decreases k,
    {
        let ghost t = outputs@.take(k as int);
        assert(t.drop_last() =~= outputs@.take(k - 1));
        if outputs[k - 1].id == id {
            return Some(k - 1);
        }
        k = k - 1;
    }
    None
}

/// Whether locating the view on the output stays within `i64`.
fn view_fits_check(v: &WfView, o: &WfOutput) -> (r: bool)
    ensures
        r == view_fits(*v, *o),
{
    let width = if o.geometry.width >= 1 {
        o.geometry.width
    } else {
        1
    };
    let height = if o.geometry.height >= 1 {
        o.geometry.height
    } else {
        1
    };
    let cx = match v.geometry.x.checked_add(half_i64(v.geometry.width)) {
        Some(c) => c,
        None => return false,
    };
    let cy = match v.geometry.y.checked_add(half_i64(v.geometry.height)) {
        Some(c) => c,
        None => return false,
    };
    proof {
        lemma_div_bounded(cx as int, width as int);
        lemma_div_bounded(cy as int, height as int);
    }
    let qx = cx.checked_div_euclid(width).unwrap();
    let qy = cy.checked_div_euclid(height).unwrap();
    o.workspace.x.checked_add(qx).is_some() && o.workspace.y.checked_add(qy).is_some()
}

/// Whether the outputs and views stay within the bounds that `build_state`
/// asks of them.
pub fn outputs_fit(outputs: &Vec<WfOutput>, vs: &Vec<WfView>) -> (r: bool)
    ensures
        r == state_fits(outputs@, vs@),
{
    let n: u128 = outputs.len() as u128;
    if n * 100 + 100 > i64::MAX as u128 {
        return false;
    }
    let mut k: usize = 0;
    while k < outputs.len()
        invariant
            k <= outputs@.len(),
            forall|a: int| 0 <= a < k ==> grid_of(#[trigger] outputs@[a]).0 * grid_of(outputs@[a]).1 <= i64::MAX,
        decreases outputs@.len() - k,
    {
        let (w, h) = outputs[k].grid();
        if w.checked_mul(h).is_none() {
            return false;
        }
        k = k + 1;
    }
    let mut i: usize = 0;
    while i < vs.len()
        invariant
            i <= vs@.len(),
            forall|j: int|
                0 <= j < i ==> (counted_on(#[trigger] vs@[j], outputs@) matches Some(o) ==> view_fits(vs@[j], o)),
        decreases vs@.len() - i,
    {
        let v = &vs[i];
        proof {
            reveal_strlit("toplevel");
        }
        if v.mapped && str_eq(v.role.as_str(), "toplevel") {
            if let Some(id) = v.output_id {
                if let Some(k) = output_index_by_id(outputs, id) {
                    assert(counted_on(vs@[i as int], outputs@) == Some(outputs@[k as int]));
                    if !view_fits_check(v, &outputs[k]) {
                        return false;
                    }
                }
            }
        }
        i = i + 1;
    }
    true
}

fn view_keys(outputs: &Vec<WfOutput>, vs: &Vec<WfView>) -> (r: Vec<Option<(i64, i64, i64)>>)
    requires
        state_fits(outputs@, vs@),
    ensures
        r@.len() == vs@.len(),
        forall|i: int| 0 <= i < vs@.len() ==> #[trigger] r@[i] == view_key(vs@[i], outputs@),
{
    let mut r: Vec<Option<(i64, i64, i64)>> = Vec::new();
    let mut i: usize = 0;
    while i < vs.len()
        invariant
            state_fits(outputs@, vs@),
            i <= vs@.len(),
            r@.len() == i,
            forall|j: int| 0 <= j < i ==> #[trigger] r@[j] == view_key(vs@[j], outputs@),
        decreases vs@.len() - i,
    {
        let v = &vs[i];
        let mut key: Option<(i64, i64, i64)> = None;
        proof {
            reveal_strlit("toplevel");
        }
        if v.mapped && str_eq(v.role.as_str(), "toplevel") {
            if let Some(id) = v.output_id {
                if let Some(k) = output_index_by_id(outputs, id) {
                    let o = &outputs[k];
                    assert(counted_on(vs@[i as int], outputs@) == Some(*o));
                    let (x, y) = view_workspace(v, o);
                    key = Some((o.id, x, y));
                }
            }
        }
        r.push(key);
        i = i + 1;
    }
    r
}

fn count_in_cell(
    vs: &Vec<WfView>,
    keys: &Vec<Option<(i64, i64, i64)>>,
    key: (i64, i64, i64),
    collect: bool,
    Ghost(outputs): Ghost<Seq<WfOutput>>,
) -> (r: (u16, Vec<String>))
    requires
        keys@.len() == vs@.len(),
        forall|i: int| 0 <= i < vs@.len() ==> #[trigger] keys@[i] == view_key(vs@[i], outputs),
    ensures
        r.0 == (if cell_count(vs@, outputs, key) < 65535 {
            cell_count(vs@, outputs, key) as int
        } else {
            65535
        }),
        views(r.1@) == (if collect {
            cell_classes(vs@, outputs, key)
        } else {
            Seq::empty()
        }),
{
    let mut n: u16 = 0;
    let mut classes: Vec<String> = Vec::new();
    let mut i: usize = 0;
    while i < vs.len()
        invariant
            keys@.len() == vs@.len(),
            forall|j: int| 0 <= j < vs@.len() ==> #[trigger] keys@[j] == view_key(vs@[j], outputs),
            i <= vs@.len(),
            n == (if cell_count(vs@.take(i as int), outputs, key) < 65535 {
                cell_count(vs@.take(i as int), outputs, key) as int
            } else {
                65535
            }),
            views(classes@) == (if collect {
                cell_classes(vs@.take(i as int), outputs, key)
            } else {
                Seq::empty()
            }),
        decreases vs@.len() - i,
    {
        let ghost t = vs@.take(i + 1);
        assert(t.drop_last() =~= vs@.take(i as int));
        assert(t.last() == vs@[i as int]);
        if keys[i] == Some(key) {
            n = n.saturating_add(1);
            if collect {
                if let Some(c) = &vs[i].app_id {
                    if c.unicode_len() > 0 {
                        let ghost before = classes@;
                        classes.push(c.clone());
                        assert(views(classes@) =~= views(before).push(c@));
                    }
                }
            }
        }
        i = i + 1;
    }
    assert(vs@.take(vs@.len() as int) =~= vs@);
    (n, classes)
}

proof fn lemma_slots_prefix(outputs: Seq<WfOutput>, k: int, n: int)
    requires
        0 <= k <= n,
    ensures
        slots_upto(outputs, k).len() <= slots_upto(outputs, n).len(),
        forall|p: int| 0 <= p < slots_upto(outputs, k).len() ==> #[trigger] slots_upto(outputs, n)[p] == slots_upto(outputs, k)[p],
    decreases n - k,
{
    if k < n {
        lemma_slots_prefix(outputs, k, n - 1);
        assert(emit_count(outputs[n - 1]) >= 0) by (nonlinear_arith)
            requires
                grid_of(outputs[n - 1]).0 >= 1,
                grid_of(outputs[n - 1]).1 >= 1,
        ;
    }
}

fn taken_in(
    cells: &Vec<WfCell>,
    c: WfCell,
    Ghost(outputs): Ghost<Seq<WfOutput>>,
    Ghost(all): Ghost<Seq<(int, int)>>,
) -> (r: bool)
    requires
        cells@.len() < all.len(),
        forall|q: int| 0 <= q < cells@.len() ==> #[trigger] cells@[q] == cell_at(outputs, all[q]),
        c == cell_at(outputs, all[cells@.len() as int]),
    ensures
        r == taken_before(outputs, all, cells@.len() as int),
{
    let mut j: usize = 0;
    while j < cells.len()
        invariant
            j <= cells@.len(),
            cells@.len() < all.len(),
            forall|q: int| 0 <= q < cells@.len() ==> #[trigger] cells@[q] == cell_at(outputs, all[q]),
            forall|q: int| 0 <= q < j ==> !same_place(#[trigger] cell_at(outputs, all[q]), c),
            c == cell_at(outputs, all[cells@.len() as int]),
        decreases cells@.len() - j,
    {
        let d = cells[j];
        if d.output_id == c.output_id && d.x == c.x && d.y == c.y {
            assert(same_place(cell_at(outputs, all[j as int]), cell_at(outputs, all[cells@.len() as int])));
            assert(taken_before(outputs, all, cells@.len() as int));
            return true;
        }
        assert(cells@[j as int] == cell_at(outputs, all[j as int]));
        j = j + 1;
    }
    false
}

/// The bar's state from Wayfire's replies: each output's grid cells in
/// row-major order become workspaces (at most 100 per output), holding the
/// mapped toplevel views whose centre lies on them; the current cell of the
/// focused output is the active workspace. Also the cell of each workspace
/// id, for focusing it later.
pub fn build_state(
    outputs: &Vec<WfOutput>,
    vs: &Vec<WfView>,
    focused_output_id: Option<i64>,
    focused_view: Option<&WfView>,
    kb_state: Option<&WfKeyboardState>,
    collect_classes: bool,
) -> (r: (CompositorState, Vec<WfCell>))
    requires
        state_fits(outputs@, vs@),
    ensures
        ({
            let all = slots_upto(outputs@, outputs@.len() as int);
            let (state, cells) = r;
            &&& cells@ == all.map_values(|p: (int, int)| cell_at(outputs@, p))
            &&& state.workspaces@.len() == all.len()
            &&& forall|p: int|
                0 <= p < all.len() ==> wf_workspace(#[trigger] state.workspaces@[p], outputs@, vs@, all, p, collect_classes)
            &&& state.monitors@.len() == outputs@.len()
            &&& forall|k: int|
                0 <= k < outputs@.len() ==> {
                    let m = #[trigger] state.monitors@[k];
                    &&& m.id == k
                    &&& m.name@ == outputs@[k].name@
                    &&& m.active_workspace_id == monitor_workspace(outputs@, k)
                    &&& m.special_workspace_id == -1
                }
            &&& state.active_workspace_ids@ == active_ids(outputs@, focused_output_id, all)
            &&& match focused_view {
                Some(v) => if or_empty(v.title).len() == 0 && or_empty(v.app_id).len() == 0 {
                    state.active_window is None
                } else {
                    state.active_window matches Some(ActiveWindow::Wayfire(a)) && a.title@ == or_empty(v.title)
                        && a.class@ == or_empty(v.app_id) && a.address@ == decimal(v.id as int)
                },
                None => state.active_window is None,
            }
            &&& state.keyboard_layout@ == shown_layout(kb_state)
            &&& state.submap is None
        }),
{
    let ghost n = outputs@.len() as int;
    let ghost all = slots_upto(outputs@, n);
    let keys = view_keys(outputs, vs);
    let mut workspaces: Vec<CompositorWorkspace> = Vec::new();
    let mut monitors: Vec<CompositorMonitor> = Vec::new();
    let mut active: Vec<i32> = Vec::new();
    let mut cells: Vec<WfCell> = Vec::new();
    let mut k: usize = 0;
    while k < outputs.len()
        invariant
            state_fits(outputs@, vs@),
            n == outputs@.len(),
            all == slots_upto(outputs@, n),
            keys@.len() == vs@.len(),
            forall|i: int| 0 <= i < vs@.len() ==> #[trigger] keys@[i] == view_key(vs@[i], outputs@),
            k <= n,
            workspaces@.len() == slots_upto(outputs@, k as int).len(),
            cells@.len() == workspaces@.len(),
            forall|p: int| 0 <= p < cells@.len() ==> #[trigger] cells@[p] == cell_at(outputs@, all[p]),
            forall|p: int|
                0 <= p < workspaces@.len() ==> wf_workspace(#[trigger] workspaces@[p], outputs@, vs@, all, p, collect_classes),
            active@ == active_ids(outputs@, focused_output_id, slots_upto(outputs@, k as int)),
            monitors@.len() == k,
            forall|j: int|
                0 <= j < k ==> {
                    let m = #[trigger] monitors@[j];
                    &&& m.id == j
                    &&& m.name@ == outputs@[j].name@
                    &&& m.active_workspace_id == monitor_workspace(outputs@, j)
                    &&& m.special_workspace_id == -1
                },
        decreases n - k,
    {
        let o = &outputs[k];
        let ghost ko = k as int;
        let (grid_w, grid_h) = o.grid();
        assert(grid_of(outputs@[ko]).0 * grid_of(outputs@[ko]).1 <= i64::MAX);
        let total = grid_w * grid_h;
        let emit: i64 = if total < OUTPUT_STRIDE {
            total
        } else {
            OUTPUT_STRIDE
        };
        let cx = clamp_i64(o.workspace.x, grid_w - 1);
        let cy = clamp_i64(o.workspace.y, grid_h - 1);
        let ghost base = slots_upto(outputs@, ko).len() as int;
        proof {
            lemma_slots_prefix(outputs@, ko + 1, n);
            assert(slots_upto(outputs@, ko + 1) == slots_upto(outputs@, ko) + Seq::new(
                emit_count(outputs@[ko]) as nat,
                |s: int| (ko, s),
            ));
            assert(emit as int == emit_count(outputs@[ko]));
            assert(k * OUTPUT_STRIDE + OUTPUT_STRIDE <= i64::MAX) by (nonlinear_arith)
                requires
                    k < n,
                    n * OUTPUT_STRIDE + OUTPUT_STRIDE <= i64::MAX,
            ;
        }
        let mut slot: i64 = 0;
        while slot < emit
            invariant
                state_fits(outputs@, vs@),
                n == outputs@.len(),
                all == slots_upto(outputs@, n),
                keys@.len() == vs@.len(),
                forall|i: int| 0 <= i < vs@.len() ==> #[trigger] keys@[i] == view_key(vs@[i], outputs@),
                k < n,
                ko == k,
                o == outputs@[ko],
                grid_w == grid_of(*o).0,
                grid_h == grid_of(*o).1,
                cx == current_cell(*o).0,
                cy == current_cell(*o).1,
                emit == emit_count(*o),
                0 <= emit <= OUTPUT_STRIDE,
                k * OUTPUT_STRIDE + OUTPUT_STRIDE <= i64::MAX,
                base == slots_upto(outputs@, ko).len(),
                base + emit <= all.len(),
                forall|s: int| 0 <= s < emit ==> #[trigger] all[base + s] == (ko, s),
                0 <= slot <= emit,
                workspaces@.len() == base + slot,
                cells@.len() == workspaces@.len(),
                forall|p: int| 0 <= p < cells@.len() ==> #[trigger] cells@[p] == cell_at(outputs@, all[p]),
                forall|p: int|
                    0 <= p < workspaces@.len() ==> wf_workspace(#[trigger] workspaces@[p], outputs@, vs@, all, p, collect_classes),
                active@ == active_ids(
                    outputs@,
                    focused_output_id,
                    slots_upto(outputs@, ko) + Seq::new(slot as nat, |s: int| (ko, s)),
                ),
            decreases emit - slot,
        {
            let ghost p = base + slot;
            assert(all[p] == (ko, slot as int));
            let x = slot.checked_rem_euclid(grid_w).unwrap();
            let y = slot.checked_div_euclid(grid_w).unwrap();
            let id = encode_workspace_id(k, slot).unwrap();
            let c = WfCell { id, output_id: o.id, x, y };
            assert(c == cell_at(outputs@, all[p]));
            let taken = taken_in(&cells, c, Ghost(outputs@), Ghost(all));
            let (windows, window_classes) = if taken {
                (0u16, Vec::new())
            } else {
                count_in_cell(vs, &keys, (o.id, x, y), collect_classes, Ghost(outputs@))
            };
            proof {
                if taken {
                    assert(views(window_classes@) =~= Seq::<Seq<char>>::empty());
                }
            }
            let w = CompositorWorkspace {
                id,
                index: (slot + 1) as i32,
                name: i64_to_string(slot + 1),
                monitor: o.name.clone(),
                monitor_id: Some(k as i128),
                windows,
                is_special: false,
                has_urgent: false,
                window_classes,
            };
            assert(wf_workspace(w, outputs@, vs@, all, p, collect_classes));
            workspaces.push(w);
            cells.push(c);
            let is_focused = match focused_output_id {
                Some(f) => f == o.id,
                None => false,
            };
            let ghost before = slots_upto(outputs@, ko) + Seq::new(slot as nat, |s: int| (ko, s));
            let ghost after = slots_upto(outputs@, ko) + Seq::new((slot + 1) as nat, |s: int| (ko, s));
            assert(after.drop_last() =~= before);
            assert(after.last() == (ko, slot as int));
            if x == cx && y == cy && is_focused {
                active.push(id);
            }
            slot = slot + 1;
        }
        assert(slots_upto(outputs@, ko) + Seq::new(emit as nat, |s: int| (ko, s)) =~= slots_upto(outputs@, ko + 1));
        assert(cy * grid_w + cx < total) by (nonlinear_arith)
            requires
                0 <= cy <= grid_h - 1,
                0 <= cx <= grid_w - 1,
                total == grid_w * grid_h,
        ;
        assert(0 <= cy * grid_w) by (nonlinear_arith)
            requires
                0 <= cy,
                0 <= grid_w,
        ;
        let shown = match encode_workspace_id(k, cy * grid_w + cx) {
            Some(id) => id,
            None => -1,
        };
        monitors.push(CompositorMonitor {
            id: k as i128,
            name: o.name.clone(),
            active_workspace_id: shown,
            special_workspace_id: -1,
        });
        k = k + 1;
    }
    assert(cells@ =~= all.map_values(|p: (int, int)| cell_at(outputs@, p)));
    let active_window = match focused_view {
        Some(v) => {
            let title = match &v.title {
                Some(t) => t.clone(),
                None => String::new(),
            };
            let class = match &v.app_id {
                Some(c) => c.clone(),
                None => String::new(),
            };
            if title.unicode_len() == 0 && class.unicode_len() == 0 {
                None
            } else {
                Some(ActiveWindow::Wayfire(ActiveWindowNiri { title, class, address: i64_to_string(v.id) }))
            }
        },
        None => None,
    };
    let keyboard_layout = keyboard_layout_of(kb_state);
    (
        CompositorState {
            workspaces,
            monitors,
            active_workspace_ids: active,
            active_window,
            keyboard_layout,
            submap: None,
        },
        cells,
    )
}

/// The keyboard layout to show: the reported one when non-empty, else
/// "Unknown".
pub fn keyboard_layout_of(kb_state: Option<&WfKeyboardState>) -> (r: String)
    ensures
        r@ == shown_layout(kb_state),
{
    proof {
        reveal_strlit("Unknown");
    }
    match kb_state {
        Some(kb) => match &kb.layout {
            Some(l) => if l.unicode_len() > 0 {
                l.clone()
            } else {
                String::from_str("Unknown")
            },
            None => String::from_str("Unknown"),
        },
        None => String::from_str("Unknown"),
    }
}

/// The workspaces of the first output line up with the bar's workspace
/// names: its cell `n` (a slot below the stride) gets id `n + 1`.
pub proof fn law_first_output_ids(outputs: Seq<WfOutput>, n: int)
    requires
        0 <= n < OUTPUT_STRIDE,
    ensures
        cell_at(outputs, (0, n)).id == n + 1,
{
}

proof fn lemma_slots_ordered(outputs: Seq<WfOutput>, n: int)
    requires
        0 <= n <= outputs.len(),
    ensures
        forall|p: int|
            0 <= p < slots_upto(outputs, n).len() ==> {
                let e = #[trigger] slots_upto(outputs, n)[p];
                &&& 0 <= e.0 < n
                &&& 0 <= e.1 < emit_count(outputs[e.0])
            },
        forall|p: int, q: int|
            0 <= p < q < slots_upto(outputs, n).len() ==> {
                let a = #[trigger] slots_upto(outputs, n)[p];
                let b = #[trigger] slots_upto(outputs, n)[q];
                a.0 < b.0 || (a.0 == b.0 && a.1 < b.1)
            },
    decreases n,
{
    if n > 0 {
        lemma_slots_ordered(outputs, n - 1);
        let prev = slots_upto(outputs, n - 1);
        let all = slots_upto(outputs, n);
        assert(emit_count(outputs[n - 1]) >= 0) by (nonlinear_arith)
            requires
                grid_of(outputs[n - 1]).0 >= 1,
                grid_of(outputs[n - 1]).1 >= 1,
        ;
        assert forall|p: int| 0 <= p < all.len() implies {
            let e = #[trigger] all[p];
            &&& 0 <= e.0 < n
            &&& 0 <= e.1 < emit_count(outputs[e.0])
        } by {
            if p < prev.len() {
                assert(all[p] == prev[p]);
            }
        }
        assert forall|p: int, q: int| 0 <= p < q < all.len() implies {
            let a = #[trigger] all[p];
            let b = #[trigger] all[q];
            a.0 < b.0 || (a.0 == b.0 && a.1 < b.1)
        } by {
            if q < prev.len() {
                assert(all[p] == prev[p] && all[q] == prev[q]);
            } else if p < prev.len() {
                assert(all[p] == prev[p]);
            }
        }
    }
}

/// Workspace ids are positive and strictly increase along the state's
/// workspaces, so each id names one grid cell: the id of output `k`'s slot
/// `s` is `k * 100 + s + 1`, which stays an `i32` while there are fewer
/// than 21474836 outputs.
pub proof fn law_ids_increase(outputs: Seq<WfOutput>)
    requires
        outputs.len() * OUTPUT_STRIDE <= i32::MAX,
    ensures
        ({
            let all = slots_upto(outputs, outputs.len() as int);
            &&& forall|p: int| 0 <= p < all.len() ==> #[trigger] cell_at(outputs, all[p]).id > 0
            &&& forall|p: int, q: int|
                0 <= p < q < all.len() ==> #[trigger] cell_at(outputs, all[p]).id < #[trigger] cell_at(outputs, all[q]).id
        }),
{
    let n = outputs.len() as int;
    let all = slots_upto(outputs, n);
    lemma_slots_ordered(outputs, n);
    assert forall|p: int| 0 <= p < all.len() implies #[trigger] cell_at(outputs, all[p]).id > 0 by {
        let e = all[p];
        assert(0 <= e.0 < n && 0 <= e.1 < OUTPUT_STRIDE);
        assert(0 <= e.0 * OUTPUT_STRIDE + e.1 + 1 <= n * OUTPUT_STRIDE) by (nonlinear_arith)
            requires
                0 <= e.0 < n,
                0 <= e.1 < OUTPUT_STRIDE,
        ;
    }
    assert forall|p: int, q: int| 0 <= p < q < all.len() implies #[trigger] cell_at(outputs, all[p]).id
        < #[trigger] cell_at(outputs, all[q]).id by {
        let a = all[p];
        let b = all[q];
        assert(a.0 < b.0 || (a.0 == b.0 && a.1 < b.1));
        assert(0 <= a.0 * OUTPUT_STRIDE + a.1 + 1 < b.0 * OUTPUT_STRIDE + b.1 + 1 <= n * OUTPUT_STRIDE) by (nonlinear_arith)
            requires
                0 <= a.0 < n,
                0 <= b.0 < n,
                0 <= a.1 < OUTPUT_STRIDE,
                0 <= b.1 < OUTPUT_STRIDE,
                a.0 < b.0 || (a.0 == b.0 && a.1 < b.1),
        ;
    }
}

/// What a request of the bar becomes on Wayfire.
#[derive(Clone, Copy, PartialEq, Eq, Structural, Debug)]
pub enum WayfireAction {
    FocusWorkspace(i32),
    ScrollWorkspace(i32),
    NextLayout,
}

/// The Wayfire action of a request, or why there is none: focusing,
/// scrolling and the next layout are supported.
pub fn wayfire_action(cmd: &CompositorCommand) -> (r: Result<WayfireAction, String>)
    ensures
        match *cmd {
            CompositorCommand::FocusWorkspace(id) => r == Ok::<WayfireAction, String>(WayfireAction::FocusWorkspace(id)),
            CompositorCommand::ScrollWorkspace(d) => r == Ok::<WayfireAction, String>(WayfireAction::ScrollWorkspace(d)),
            CompositorCommand::NextLayout => r == Ok::<WayfireAction, String>(WayfireAction::NextLayout),
            _ => r matches Err(e) && e@ == command_text(*cmd) + " is not supported on the Wayfire backend"@,
        },
{
    match cmd {
        CompositorCommand::FocusWorkspace(id) => Ok(WayfireAction::FocusWorkspace(*id)),
        CompositorCommand::ScrollWorkspace(d) => Ok(WayfireAction::ScrollWorkspace(*d)),
        CompositorCommand::NextLayout => Ok(WayfireAction::NextLayout),
        _ => Err(unsupported(cmd, " is not supported on the Wayfire backend")),
    }
}

} // verus!
