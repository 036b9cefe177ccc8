//! systemd user services: what the bar shows of each unit, and the order
//! it lists them in.

use crate::tempo_calendar::{has_prefix, split_char, split_on, starts_with};
use crate::text::{lex_lt, prefix, push_str, str_eq, str_lt, views};
use crate::xdg_icons::{join_path, joined_path};
use vstd::prelude::*;

verus! {

/// A snapshot of a systemd user service unit.
pub struct UnitInfo {
    pub name: String,
    pub description: String,
    pub load_state: String,
    pub active_state: String,
    pub sub_state: String,
    pub unit_file_state: String,
    pub object_path: String,
}

/// The colour class of a unit's status dot.
#[derive(Clone, Copy, PartialEq, Eq, Structural, Debug)]
pub enum UnitStatus {
    Active,
    Activating,
    Deactivating,
    Failed,
    Inactive,
}

/// `name` ends in `.service`.
pub open spec fn ends_service(name: Seq<char>) -> bool {
    name.len() >= 8 && name.skip(name.len() - 8) == ".service"@
}

/// The unit name without its `.service` suffix.
pub open spec fn display_name_of(name: Seq<char>) -> Seq<char> {
    if ends_service(name) {
        name.take(name.len() - 8)
    } else {
        name
    }
}

pub open spec fn is_active_state(s: Seq<char>) -> bool {
    s == "active"@ || s == "activating"@ || s == "reloading"@
}

/// A unit can be started or stopped unless its file is an alias or masked,
/// or it is between states.
pub open spec fn can_toggle_unit(unit_file_state: Seq<char>, active_state: Seq<char>) -> bool {
    !(unit_file_state == "alias"@ || unit_file_state == "masked"@) && !(active_state
        == "activating"@ || active_state == "deactivating"@ || active_state == "reloading"@)
}

/// The listing order of a unit file state: enabled, static, disabled,
/// generated, then the rest.
pub open spec fn state_order_of(s: Seq<char>) -> u8 {
    if s == "enabled"@ {
        0
    } else if s == "static"@ {
        1
    } else if s == "disabled"@ {
        2
    } else if s == "generated"@ {
        3
    } else {
        99
    }
}

pub open spec fn status_of(active_state: Seq<char>) -> UnitStatus {
    if active_state == "active"@ {
        UnitStatus::Active
    } else if active_state == "activating"@ {
        UnitStatus::Activating
    } else if active_state == "deactivating"@ {
        UnitStatus::Deactivating
    } else if active_state == "failed"@ {
        UnitStatus::Failed
    } else {
        UnitStatus::Inactive
    }
}

/// Each of `active`, `activating`, `deactivating` and `failed` gives its
/// own status, and every other state is inactive.
pub proof fn law_unit_status(active_state: Seq<char>)
    ensures
        status_of(active_state) == UnitStatus::Active <==> active_state == "active"@,
        status_of(active_state) == UnitStatus::Activating <==> active_state == "activating"@,
        status_of(active_state) == UnitStatus::Deactivating <==> active_state == "deactivating"@,
        status_of(active_state) == UnitStatus::Failed <==> active_state == "failed"@,
        status_of(active_state) == UnitStatus::Inactive <==> (active_state != "active"@ && active_state != "activating"@
            && active_state != "deactivating"@ && active_state != "failed"@),
{
    reveal_strlit("active");
    reveal_strlit("activating");
    reveal_strlit("deactivating");
    reveal_strlit("failed");
    assert("active"@ != "activating"@ && "active"@ != "deactivating"@ && "active"@ != "failed"@) by {
        assert("active"@.len() != "activating"@.len() && "active"@.len() != "deactivating"@.len());
        assert("active"@[0] != "failed"@[0]);
    }
    assert("activating"@ != "deactivating"@ && "activating"@ != "failed"@) by {
        assert("activating"@.len() != "deactivating"@.len() && "activating"@.len() != "failed"@.len());
    }
    assert("deactivating"@ != "failed"@) by {
        assert("deactivating"@.len() != "failed"@.len());
    }
}

pub fn ends_with_service(name: &str) -> (r: bool)
    ensures
        r == ends_service(name@),
{
    let n = name.unicode_len();
    if n < 8 {
        return false;
    }
    let tail = crate::text::substring(name, n - 8, n);
    assert(name@.subrange(n - 8, n as int) =~= name@.skip(n - 8));
    str_eq(tail.as_str(), ".service")
}

impl UnitInfo {
    /// The unit name with `.service` stripped.
    pub fn display_name(&self) -> (r: String)
        ensures
            r@ == display_name_of(self.name@),
    {
        if ends_with_service(self.name.as_str()) {
            prefix(self.name.as_str(), self.name.as_str().unicode_len() - 8)
        } else {
            self.name.clone()
        }
    }

    /// Running, starting or reloading.
    pub fn is_active(&self) -> (r: bool)
        ensures
            r == is_active_state(self.active_state@),
    {
        let s = self.active_state.as_str();
        str_eq(s, "active") || str_eq(s, "activating") || str_eq(s, "reloading")
    }

    /// Whether the unit can be started or stopped right now.
    pub fn can_toggle(&self) -> (r: bool)
        ensures
            r == can_toggle_unit(self.unit_file_state@, self.active_state@),
    {
        let f = self.unit_file_state.as_str();
        if str_eq(f, "alias") || str_eq(f, "masked") {
            return false;
        }
        let s = self.active_state.as_str();
        !(str_eq(s, "activating") || str_eq(s, "deactivating") || str_eq(s, "reloading"))
    }

    /// The colour class of the status dot.
    pub fn status(&self) -> (r: UnitStatus)
        ensures
            r == status_of(self.active_state@),
    {
        let s = self.active_state.as_str();
        if str_eq(s, "active") {
            UnitStatus::Active
        } else if str_eq(s, "activating") {
            UnitStatus::Activating
        } else if str_eq(s, "deactivating") {
            UnitStatus::Deactivating
        } else if str_eq(s, "failed") {
            UnitStatus::Failed
        } else {
            UnitStatus::Inactive
        }
    }

    /// The listing order of the unit's file state.
    pub fn state_order(&self) -> (r: u8)
        ensures
            r == state_order_of(self.unit_file_state@),
    {
        let s = self.unit_file_state.as_str();
        if str_eq(s, "enabled") {
            0
        } else if str_eq(s, "static") {
            1
        } else if str_eq(s, "disabled") {
            2
        } else if str_eq(s, "generated") {
            3
        } else {
            99
        }
    }
}

/// `a` lists before `b`: by file state, then by name.
pub open spec fn unit_before(a: UnitInfo, b: UnitInfo) -> bool {
    state_order_of(a.unit_file_state@) < state_order_of(b.unit_file_state@) || (state_order_of(
        a.unit_file_state@,
    ) == state_order_of(b.unit_file_state@) && lex_lt(a.name@, b.name@))
}

/// Sorted by file state, then by name.
pub open spec fn units_sorted(s: Seq<UnitInfo>) -> bool {
    forall|i: int, j: int| 0 <= i < j < s.len() ==> !unit_before(#[trigger] s[j], #[trigger] s[i])
}

fn unit_less(a: &UnitInfo, b: &UnitInfo) -> (r: bool)
    ensures
        r == unit_before(*a, *b),
{
    let oa = a.state_order();
    let ob = b.state_order();
    oa < ob || (oa == ob && str_lt(a.name.as_str(), b.name.as_str()))
}

proof fn lemma_unit_order(a: UnitInfo, b: UnitInfo, c: UnitInfo)
    ensures
        !(unit_before(a, b) && unit_before(b, a)),
        unit_before(a, b) && unit_before(b, c) ==> unit_before(a, c),
        !unit_before(a, b) && !unit_before(b, a) ==> state_order_of(a.unit_file_state@)
            == state_order_of(b.unit_file_state@) && a.name@ == b.name@,
{
    crate::text::lemma_lex_asym(a.name@, b.name@);
    crate::text::lemma_lex_total(a.name@, b.name@);
    if lex_lt(a.name@, b.name@) && lex_lt(b.name@, c.name@) {
        crate::text::lemma_lex_trans(a.name@, b.name@, c.name@);
    }
}

/// The units in listing order: by file state, then by name.
pub fn sort_units(units: Vec<UnitInfo>) -> (r: Vec<UnitInfo>)
    ensures
        units_sorted(r@),
        r@.to_multiset() == units@.to_multiset(),
{
    broadcast use {vstd::seq_lib::group_to_multiset_ensures, vstd::multiset::group_multiset_axioms};

    let ghost all = units@;
    let mut rest = units;
    let mut r: Vec<UnitInfo> = Vec::new();
    assert(r@.to_multiset() =~= vstd::multiset::Multiset::<UnitInfo>::empty());
    assert(all.to_multiset() =~= r@.to_multiset().add(rest@.to_multiset()));
    while rest.len() > 0
        invariant
            units_sorted(r@),
            all.to_multiset() == r@.to_multiset().add(rest@.to_multiset()),
        decreases rest@.len(),
    {
        let ghost rest_before = rest@;
        let u = rest.pop().unwrap();
        proof {
            assert(rest_before =~= rest@.push(u));
            vstd::seq_lib::to_multiset_build(rest@, u);
        }
        let mut p: usize = 0;
        while p < r.len() && !unit_less(&u, &r[p])
            invariant
                p <= r@.len(),
                forall|q: int| 0 <= q < p ==> !unit_before(u, #[trigger] r@[q]),
            decreases r@.len() - p,
        {
            p = p + 1;
        }
        let ghost before = r@;
        proof {
            assert forall|q: int| p <= q < before.len() implies unit_before(u, #[trigger] before[q]) by {
                if q > p {
                    lemma_unit_order(before[q], before[p as int], u);
                    lemma_unit_order(u, before[p as int], before[q]);
                    if !unit_before(before[p as int], before[q]) {
                        lemma_unit_order(before[p as int], before[q], u);
                    }
                }
            }
        }
        r.insert(p, u);
        proof {
            vstd::seq_lib::to_multiset_insert(before, p as int, u);
            let now = r@;
            assert(now =~= before.insert(p as int, u));
            assert forall|x: int, y: int| 0 <= x < y < now.len() implies !unit_before(
                #[trigger] now[y],
                #[trigger] now[x],
            ) by {
                if x < p && y < p {
                    assert(now[x] == before[x] && now[y] == before[y]);
                } else if x < p && y == p {
                    assert(now[x] == before[x]);
                } else if x < p {
                    assert(now[x] == before[x] && now[y] == before[y - 1]);
                } else if x == p {
                    assert(now[y] == before[y - 1]);
                    lemma_unit_order(u, before[y - 1], u);
                } else {
                    assert(now[x] == before[x - 1] && now[y] == before[y - 1]);
                }
            }
            assert(all.to_multiset() =~= r@.to_multiset().add(rest@.to_multiset()));
        }
    }
    assert(rest@.to_multiset() =~= vstd::multiset::Multiset::<UnitInfo>::empty());
    assert(all.to_multiset() =~= r@.to_multiset());
    r
}

/// A request of the bar: start or stop a unit, or list them again.
pub enum UserServicesCommand {
    ToggleUnit(String),
    Refresh,
}

/// A new listing, or a unit that changed.
pub enum UserServicesEvent {
    UnitsLoaded(Vec<UnitInfo>),
    UnitChanged(UnitInfo),
}

/// The units the bar lists.
pub struct UserServicesService {
    pub units: Vec<UnitInfo>,
}

/// How many units of a list are active.
pub open spec fn active_count_of(s: Seq<UnitInfo>) -> nat
    decreases s.len(),
{
    if s.len() == 0 {
        0
    } else {
        active_count_of(s.drop_last()) + if is_active_state(s.last().active_state@) {
            1nat
        } else {
            0nat
        }
    }
}

fn find_named(units: &Vec<UnitInfo>, name: &str) -> (r: Option<usize>)
    ensures
        match r {
            Some(i) => i < units@.len() && units@[i as int].name@ == name@ && forall|j: int|
                0 <= j < i ==> (#[trigger] units@[j]).name@ != name@,
            None => forall|j: int| 0 <= j < units@.len() ==> (#[trigger] units@[j]).name@ != name@,
        },
{
    let mut i: usize = 0;
    while i < units.len()
        invariant
            i <= units@.len(),
            forall|j: int| 0 <= j < i ==> (#[trigger] units@[j]).name@ != name@,
        decreases units@.len() - i,
    {
        if str_eq(units[i].name.as_str(), name) {
            return Some(i);
        }
        i = i + 1;
    }
    None
}

impl UserServicesService {
    /// How many units are active.
    pub fn active_count(&self) -> (r: usize)
        ensures
            r == active_count_of(self.units@),
    {
        let mut count: usize = 0;
        let mut i: usize = 0;
        while i < self.units.len()
            invariant
                i <= self.units@.len(),
                count == active_count_of(self.units@.take(i as int)),
                count <= i,
            decreases self.units@.len() - i,
        {
            assert(self.units@.take(i + 1).drop_last() =~= self.units@.take(i as int));
            if self.units[i].is_active() {
                count = count + 1;
            }
            i = i + 1;
        }
        assert(self.units@.take(self.units@.len() as int) =~= self.units@);
        count
    }

    /// Whether toggling the named unit stops it: it is listed and active.
    pub fn is_unit_active(&self, name: &str) -> (r: bool)
        ensures
            r == (exists|i: int|
                0 <= i < self.units@.len() && self.units@[i].name@ == name@ && is_active_state(
                    self.units@[i].active_state@,
                ) && forall|j: int| 0 <= j < i ==> (#[trigger] self.units@[j]).name@ != name@),
    {
        match find_named(&self.units, name) {
            Some(i) => self.units[i].is_active(),
            None => false,
        }
    }

    /// A listing replaces the units; a changed unit replaces the first
    /// unit of its name, and is dropped when none is listed.
    pub fn update(&mut self, event: UserServicesEvent)
        ensures
            match event {
                UserServicesEvent::UnitsLoaded(units) => final(self).units@ == units@,
                UserServicesEvent::UnitChanged(changed) => {
                    &&& (forall|j: int|
                        0 <= j < old(self).units@.len() ==> (#[trigger] old(self).units@[j]).name@
                            != changed.name@) ==> final(self).units@ == old(self).units@
                    &&& forall|i: int|
                        0 <= i < old(self).units@.len() && old(self).units@[i].name@
                            == changed.name@ && (forall|j: int|
                            0 <= j < i ==> (#[trigger] old(self).units@[j]).name@ != changed.name@)
                            ==> final(self).units@ == old(self).units@.update(i, changed)
                },
            },
    {
        match event {
            UserServicesEvent::UnitsLoaded(units) => {
                self.units = units;
            },
            UserServicesEvent::UnitChanged(changed) => {
                match find_named(&self.units, changed.name.as_str()) {
                    Some(i) => {
                        self.units.set(i, changed);
                    },
                    None => {},
                }
            },
        }
    }
}

/// The directories of a user's own unit files, under `HOME`.
pub fn user_unit_dirs(home: &Option<String>) -> (r: Vec<String>)
    ensures
        views(r@) == match *home {
            Some(h) => seq![joined_path(h@, ".config/systemd/user"@), joined_path(h@, ".local/share/systemd/user"@)],
            None => Seq::empty(),
        },
{
    let mut r: Vec<String> = Vec::new();
    if let Some(h) = home {
        r.push(join_path(h.as_str(), ".config/systemd/user"));
        r.push(join_path(h.as_str(), ".local/share/systemd/user"));
    }
    assert(views(r@) =~= match *home {
        Some(h) => seq![joined_path(h@, ".config/systemd/user"@), joined_path(h@, ".local/share/systemd/user"@)],
        None => Seq::empty(),
    });
    r
}

/// The file name of a path: what follows its last `/`.
pub open spec fn basename_of(p: Seq<char>) -> Seq<char> {
    split_char(p, '/').last()
}

proof fn lemma_split_char_nonempty(s: Seq<char>, c: char)
    ensures
        split_char(s, c).len() >= 1,
    decreases s.len(),
{
    crate::tempo_calendar::lemma_first_index_bounds(s, c);
    let i = crate::tempo_calendar::first_index(s, c);
    if 0 <= i < s.len() {
        lemma_split_char_nonempty(s.skip(i + 1), c);
    }
}

fn basename(p: &str) -> (r: String)
    ensures
        r@ == basename_of(p@),
{
    let parts = split_on(p, '/');
    proof {
        lemma_split_char_nonempty(p@, '/');
    }
    let last = parts.len() - 1;
    assert(views(parts@)[last as int] == parts@[last as int]@);
    parts[last].clone()
}

/// A unit file lies under one of the user's directories, as text.
pub open spec fn in_user_dir(path: Seq<char>, dirs: Seq<Seq<char>>) -> bool {
    exists|i: int| 0 <= i < dirs.len() && has_prefix(path, #[trigger] dirs[i])
}

/// The user's service files among the unit files systemd lists, as their
/// file names and states, in order.
pub open spec fn user_files(files: Seq<(Seq<char>, Seq<char>)>, dirs: Seq<Seq<char>>) -> Seq<(Seq<char>, Seq<char>)>
    decreases files.len(),
{
    if files.len() == 0 {
        Seq::empty()
    } else {
        let (p, st) = files.last();
        let before = user_files(files.drop_last(), dirs);
        if ends_service(basename_of(p)) && in_user_dir(p, dirs) {
            before.push((basename_of(p), st))
        } else {
            before
        }
    }
}

/// Each name once, in the order it first comes.
pub open spec fn first_names(pairs: Seq<(Seq<char>, Seq<char>)>) -> Seq<Seq<char>>
    decreases pairs.len(),
{
    if pairs.len() == 0 {
        Seq::empty()
    } else {
        let before = first_names(pairs.drop_last());
        if before.contains(pairs.last().0) {
            before
        } else {
            before.push(pairs.last().0)
        }
    }
}

/// The state the last pair of a name gives.
pub open spec fn last_state(pairs: Seq<(Seq<char>, Seq<char>)>, name: Seq<char>) -> Option<Seq<char>>
    decreases pairs.len(),
{
    if pairs.len() == 0 {
        None
    } else if pairs.last().0 == name {
        Some(pairs.last().1)
    } else {
        last_state(pairs.drop_last(), name)
    }
}

/// A unit systemd has loaded, as it lists it.
pub struct LoadedUnit {
    pub name: String,
    pub description: String,
    pub load_state: String,
    pub active_state: String,
    pub sub_state: String,
    pub object_path: String,
}

/// The last loaded service unit of a name.
pub open spec fn last_loaded(units: Seq<LoadedUnit>, name: Seq<char>) -> Option<LoadedUnit>
    decreases units.len(),
{
    if units.len() == 0 {
        None
    } else if units.last().name@ == name && ends_service(name) {
        Some(units.last())
    } else {
        last_loaded(units.drop_last(), name)
    }
}

/// What the listing of a user unit needs: ready, from its loaded unit, or
/// to be loaded first, for its object path.
pub enum UnitPlan {
    Ready(UnitInfo),
    Load { name: String, unit_file_state: String },
}

/// The listing of a loaded unit: its runtime state, and the state of its
/// file.
pub open spec fn ready_from(u: LoadedUnit, file_state: Seq<char>, info: UnitInfo) -> bool {
    &&& info.name@ == u.name@
    &&& info.description@ == u.description@
    &&& info.load_state@ == u.load_state@
    &&& info.active_state@ == u.active_state@
    &&& info.sub_state@ == u.sub_state@
    &&& info.unit_file_state@ == file_state
    &&& info.object_path@ == u.object_path@
}

fn in_dirs(path: &str, dirs: &Vec<String>) -> (r: bool)
    ensures
        r == in_user_dir(path@, views(dirs@)),
{
    let mut i: usize = 0;
    while i < dirs.len()
        invariant
            i <= dirs@.len(),
            forall|j: int| 0 <= j < i ==> !has_prefix(path@, #[trigger] views(dirs@)[j]),
        decreases dirs@.len() - i,
    {
        if starts_with(path, dirs[i].as_str()) {
            assert(has_prefix(path@, views(dirs@)[i as int]));
            return true;
        }
        i = i + 1;
    }
    false
}

fn copy_text(s: &String) -> (r: String)
    ensures
        r@ == s@,
{
    s.clone()
}

fn find_loaded(units: &Vec<LoadedUnit>, name: &str) -> (r: Option<usize>)
    ensures
        match last_loaded(units@, name@) {
            Some(u) => r matches Some(i) && i < units@.len() && units@[i as int] == u,
            None => r is None,
        },
{
    if !ends_with_service(name) {
        assert(last_loaded(units@, name@) is None) by {
            lemma_last_loaded_needs_service(units@, name@);
        }
        return None;
    }
    let mut k: usize = units.len();
    assert(units@.take(k as int) =~= units@);
    while k > 0
        invariant
            k <= units@.len(),
            ends_service(name@),
            last_loaded(units@, name@) == last_loaded(units@.take(k as int), name@),
        decreases k,
    {
        let ghost t = units@.take(k as int);
        assert(t.drop_last() =~= units@.take(k - 1));
        if str_eq(units[k - 1].name.as_str(), name) {
            return Some(k - 1);
        }
        k = k - 1;
    }
    None
}

proof fn lemma_last_loaded_needs_service(units: Seq<LoadedUnit>, name: Seq<char>)
    requires
        !ends_service(name),
    ensures
        last_loaded(units, name) is None,
    decreases units.len(),
{
    if units.len() > 0 {
        lemma_last_loaded_needs_service(units.drop_last(), name);
    }
}

/// The listing of the user's services: each service file under a user
/// directory once, by file name, with the state of the last file of that
/// name; a loaded unit of the name gives its runtime state (the last such
/// unit), and one that is not loaded is to be loaded. The bar then sorts
/// them with `sort_units`.
pub fn plan_user_units(dirs: &Vec<String>, files: &Vec<(String, String)>, loaded: &Vec<LoadedUnit>) -> (r: Vec<UnitPlan>)
    ensures
        ({
            let pairs = user_files(files@.map_values(|f: (String, String)| (f.0@, f.1@)), views(dirs@));
            let names = first_names(pairs);
            &&& r@.len() == names.len()
            &&& forall|i: int|
                0 <= i < names.len() ==> {
                    let st = last_state(pairs, names[i])->0;
                    match last_loaded(loaded@, names[i]) {
                        Some(u) => #[trigger] r@[i] matches UnitPlan::Ready(info) && ready_from(u, st, info),
                        None => r@[i] matches UnitPlan::Load { name, unit_file_state } && name@ == names[i]
                            && unit_file_state@ == st,
                    }
                }
        }),
{
    let ghost fv = files@.map_values(|f: (String, String)| (f.0@, f.1@));
    let mut names: Vec<String> = Vec::new();
    let mut states: Vec<String> = Vec::new();
    let mut i: usize = 0;
    while i < files.len()
        invariant
            fv == files@.map_values(|f: (String, String)| (f.0@, f.1@)),
            i <= files@.len(),
            names@.len() == states@.len(),
            forall|a: int, b: int| 0 <= a < b < names@.len() ==> (#[trigger] names@[a])@ != (#[trigger] names@[b])@,
            views(names@) == first_names(user_files(fv.take(i as int), views(dirs@))),
            forall|j: int|
                0 <= j < names@.len() ==> last_state(user_files(fv.take(i as int), views(dirs@)), #[trigger] names@[j]@)
                    == Some(states@[j]@),
        decreases files@.len() - i,
    {
        let ghost before = user_files(fv.take(i as int), views(dirs@));
        assert(fv.take(i + 1).drop_last() =~= fv.take(i as int));
        assert(fv.take(i + 1).last() == (files@[i as int].0@, files@[i as int].1@));
        let path = files[i].0.as_str();
        let base = basename(path);
        if ends_with_service(base.as_str()) && in_dirs(path, dirs) {
            let ghost after = before.push((base@, files@[i as int].1@));
            assert(user_files(fv.take(i + 1), views(dirs@)) == after);
            assert(after.drop_last() =~= before);
            assert(after.last().0 == base@);
            let mut j: usize = 0;
            let mut found: Option<usize> = None;
            while j < names.len()
                invariant
                    j <= names@.len(),
                    found is None ==> forall|k: int| 0 <= k < j ==> (#[trigger] names@[k])@ != base@,
                    found matches Some(x) ==> x < names@.len() && names@[x as int]@ == base@,
                decreases names@.len() - j,
            {
                if found.is_none() && str_eq(names[j].as_str(), base.as_str()) {
                    found = Some(j);
                }
                j = j + 1;
            }
            let ghost old_names = names@;
            let ghost old_states = states@;
            match found {
                Some(x) => {
                    states.set(x, copy_text(&files[i].1));
                    assert(views(names@) == first_names(after)) by {
                        assert(views(old_names).contains(base@)) by {
                            assert(views(old_names)[x as int] == base@);
                        }
                    }
                    assert forall|k: int| 0 <= k < names@.len() implies last_state(after, #[trigger] names@[k]@)
                        == Some(states@[k]@) by {
                        if k != x {
                            assert(names@[k]@ != base@) by {
                                if k < x {
                                    assert(names@[k]@ != names@[x as int]@);
                                } else {
                                    assert(names@[x as int]@ != names@[k]@);
                                }
                            }
                            assert(states@[k] == old_states[k]);
                        }
                    }
                },
                None => {
                    assert(!views(old_names).contains(base@)) by {
                        if views(old_names).contains(base@) {
                            let k = choose|k: int| 0 <= k < views(old_names).len() && views(old_names)[k] == base@;
                            assert(old_names[k]@ == base@);
                        }
                    }
                    names.push(base);
                    states.push(copy_text(&files[i].1));
                    assert(views(names@) =~= views(old_names).push(base@));
                    assert forall|k: int| 0 <= k < names@.len() implies last_state(after, #[trigger] names@[k]@)
                        == Some(states@[k]@) by {
                        if k < old_names.len() {
                            assert(names@[k] == old_names[k]);
                            assert(old_names[k]@ != base@) by {
                                assert(views(old_names)[k] == old_names[k]@);
                            }
                        }
                    }
                },
            }
        } else {
            assert(user_files(fv.take(i + 1), views(dirs@)) == before);
        }
        i = i + 1;
    }
    assert(fv.take(files@.len() as int) =~= fv);
    let ghost pairs = user_files(fv, views(dirs@));
    let mut r: Vec<UnitPlan> = Vec::new();
    let mut k: usize = 0;
    while k < names.len()
        invariant
            pairs == user_files(fv, views(dirs@)),
            fv == files@.map_values(|f: (String, String)| (f.0@, f.1@)),
            names@.len() == states@.len(),
            views(names@) == first_names(pairs),
            forall|j: int| 0 <= j < names@.len() ==> last_state(pairs, #[trigger] names@[j]@) == Some(states@[j]@),
            k <= names@.len(),
            r@.len() == k,
            forall|i: int|
                0 <= i < k ==> {
                    let st = last_state(pairs, first_names(pairs)[i])->0;
                    match last_loaded(loaded@, first_names(pairs)[i]) {
                        Some(u) => #[trigger] r@[i] matches UnitPlan::Ready(info) && ready_from(u, st, info),
                        None => r@[i] matches UnitPlan::Load { name, unit_file_state } && name@ == first_names(
                            pairs,
                        )[i] && unit_file_state@ == st,
                    }
                },
        decreases names@.len() - k,
    {
        assert(first_names(pairs)[k as int] == names@[k as int]@);
        assert(last_state(pairs, names@[k as int]@) == Some(states@[k as int]@));
        match find_loaded(loaded, names[k].as_str()) {
            Some(x) => {
                let u = &loaded[x];
                let info = UnitInfo {
                    name: copy_text(&u.name),
                    description: copy_text(&u.description),
                    load_state: copy_text(&u.load_state),
                    active_state: copy_text(&u.active_state),
                    sub_state: copy_text(&u.sub_state),
                    unit_file_state: copy_text(&states[k]),
                    object_path: copy_text(&u.object_path),
                };
                r.push(UnitPlan::Ready(info));
            },
            None => {
                r.push(UnitPlan::Load { name: copy_text(&names[k]), unit_file_state: copy_text(&states[k]) });
            },
        }
        k = k + 1;
    }
    r
}

/// The listing of a user service systemd has not loaded: its name for a
/// description, not found, inactive and dead.
pub fn unloaded_unit(name: String, unit_file_state: String, object_path: String) -> (r: UnitInfo)
    ensures
        r.name@ == name@,
        r.description@ == name@,
        r.load_state@ == "not-found"@,
        r.active_state@ == "inactive"@,
        r.sub_state@ == "dead"@,
        r.unit_file_state@ == unit_file_state@,
        r.object_path@ == object_path@,
{
    let description = copy_text(&name);
    let mut load_state = String::new();
    push_str(&mut load_state, "not-found");
    let mut active_state = String::new();
    push_str(&mut active_state, "inactive");
    let mut sub_state = String::new();
    push_str(&mut sub_state, "dead");
    UnitInfo { name, description, load_state, active_state, sub_state, unit_file_state, object_path }
}

} // verus!
