//! Tray (StatusNotifierItem) model: item status, pixmap decoding and the
//! item list the bar renders.

pub mod dbus;

use crate::text::str_eq;
use crate::xdg_icons::{ImageSource, XdgIcon};
use dbus::Icon;
use vstd::prelude::*;

verus! {

/// Tray icons are resolved like any other icon.
pub type TrayIcon = XdgIcon;

/// SNI status (subset of the spec values).
#[derive(Debug, Clone, Copy, PartialEq, Eq, Structural)]
pub enum ItemStatus {
    /// `Passive`: not active.
    Passive,
    /// `Active`: active.
    Active,
    /// `NeedsAttention`: needs attention (use attention/overlay icons).
    NeedsAttention,
}

/// The status a `Status` property value stands for; anything unknown is
/// `Passive`.
pub open spec fn item_status_of(s: Seq<char>) -> ItemStatus {
    if s == "Active"@ {
        ItemStatus::Active
    } else if s == "NeedsAttention"@ {
        ItemStatus::NeedsAttention
    } else {
        ItemStatus::Passive
    }
}

impl ItemStatus {
    /// Parses a `Status` property value.
    pub fn parse(s: &str) -> (r: ItemStatus)
        ensures
            r == item_status_of(s@),
    {
        if str_eq(s, "Active") {
            ItemStatus::Active
        } else if str_eq(s, "NeedsAttention") {
            ItemStatus::NeedsAttention
        } else {
            ItemStatus::Passive
        }
    }
}

impl<'a> From<&'a str> for ItemStatus {
    fn from(s: &'a str) -> (r: ItemStatus) {
        ItemStatus::parse(s)
    }
}

impl<'a> vstd::std_specs::convert::FromSpecImpl<&'a str> for ItemStatus {
    open spec fn obeys_from_spec() -> bool {
        true
    }

    open spec fn from_spec(v: &'a str) -> ItemStatus {
        item_status_of(v@)
    }
}

impl Default for ItemStatus {
    fn default() -> (r: ItemStatus)
        ensures
            r == ItemStatus::Passive,
    {
        ItemStatus::Passive
    }
}

/// A pixmap that can be uploaded: positive sides and exactly
/// `width * height * 4` bytes.
pub open spec fn pixmap_valid(i: Icon) -> bool {
    i.width > 0 && i.height > 0 && i.bytes@.len() == i.width * i.height * 4
}

/// `(w, h)` is at least `(w2, h2)` in lexicographic order.
pub open spec fn size_at_least(a: Icon, b: Icon) -> bool {
    a.width > b.width || (a.width == b.width && a.height >= b.height)
}

/// The pixmap `pixmap_to_icon` picks: among the valid ones, the last of the
/// largest `(width, height)`.
pub open spec fn chosen_pixmap(icons: Seq<Icon>) -> Option<int>
    decreases icons.len(),
{
    if icons.len() == 0 {
        None
    } else {
        let prev = chosen_pixmap(icons.drop_last());
        let last = icons.len() - 1;
        if !pixmap_valid(icons[last]) {
            prev
        } else {
            match prev {
                None => Some(last),
                Some(k) => if size_at_least(icons[last], icons[k]) {
                    Some(last)
                } else {
                    Some(k)
                },
            }
        }
    }
}

/// ARGB32 pixels rewritten as RGBA: every 4-byte pixel rotated left by one.
pub open spec fn argb_to_rgba(bytes: Seq<u8>) -> Seq<u8> {
    Seq::new(bytes.len(), |k: int| bytes[4 * (k / 4) + (k % 4 + 1) % 4])
}

proof fn lemma_chosen_pixmap(icons: Seq<Icon>)
    ensures
        chosen_pixmap(icons) matches Some(k) ==> 0 <= k < icons.len() && pixmap_valid(icons[k]),
    decreases icons.len(),
{
    if icons.len() > 0 {
        lemma_chosen_pixmap(icons.drop_last());
    }
}

/// Converts the best usable pixmap of an item to an RGBA image: entries with
/// zero sides or a byte count other than `width * height * 4` are dropped,
/// the largest remaining `(width, height)` wins.
pub fn pixmap_to_icon(icons: Vec<Icon>) -> (r: Option<TrayIcon>)
    ensures
        chosen_pixmap(icons@) is None <==> r is None,
        chosen_pixmap(icons@) matches Some(k) ==> r matches Some(
            XdgIcon::Image(ImageSource::Rgba { width, height, pixels }),
        ) && width == icons@[k].width && height == icons@[k].height && pixels@ == argb_to_rgba(
            icons@[k].bytes@,
        ),
{
    let mut best: Option<usize> = None;
    let mut i: usize = 0;
    while i < icons.len()
        invariant
            i <= icons@.len(),
            best == (match chosen_pixmap(icons@.take(i as int)) {
                Some(k) => Some(k as usize),
                None => None::<usize>,
            }),
            chosen_pixmap(icons@.take(i as int)) matches Some(k) ==> 0 <= k < i,
        decreases icons@.len() - i,
    {
        proof {
            lemma_chosen_pixmap(icons@.take(i as int));
        }
        let it = &icons[i];
        let w = it.width;
        let h = it.height;
        let valid = if w <= 0 || h <= 0 {
            false
        } else {
            let wu = w as u128;
            let hu = h as u128;
            assert(wu * hu <= 0x7fff_ffff * 0x7fff_ffff) by (nonlinear_arith)
                requires
                    wu <= 0x7fff_ffff,
                    hu <= 0x7fff_ffff,
            ;
            let expected: u128 = wu * hu * 4;
            (it.bytes.len() as u128) == expected
        };
        assert(icons@.take(i + 1).drop_last() =~= icons@.take(i as int));
        if valid {
            match best {
                None => {
                    best = Some(i);
                },
                Some(k) => {
                    let bk = &icons[k];
                    if w > bk.width || (w == bk.width && h >= bk.height) {
                        best = Some(i);
                    }
                },
            }
        }
        i = i + 1;
    }
    assert(icons@.take(i as int) =~= icons@);
    proof {
        lemma_chosen_pixmap(icons@);
    }
    match best {
        None => None,
        Some(k) => {
            let it = &icons[k];
            let n = it.bytes.len();
            let mut out: Vec<u8> = Vec::new();
            let mut p: usize = 0;
            while p < n / 4
                invariant
                    n == it.bytes@.len(),
                    n % 4 == 0,
                    p <= n / 4,
                    out@.len() == 4 * p,
                    forall|q: int| 0 <= q < 4 * p ==> out@[q] == argb_to_rgba(it.bytes@)[q],
                decreases n / 4 - p,
            {
                let base = 4 * p;
                out.push(it.bytes[base + 1]);
                out.push(it.bytes[base + 2]);
                out.push(it.bytes[base + 3]);
                out.push(it.bytes[base]);
                p = p + 1;
            }
            assert(out@ =~= argb_to_rgba(it.bytes@));
            Some(
                XdgIcon::Image(
                    ImageSource::Rgba {
                        width: it.width as u32,
                        height: it.height as u32,
                        pixels: out,
                    },
                ),
            )
        },
    }
}

/// Splits a registered service name into its unique sender and object path.
pub fn split_service_name(name: &str) -> (r: (&str, &str))
    ensures
        (r.0@, r.1@) == dbus::service_name_split(name@),
{
    dbus::split_service_name(name)
}


/// A tray item as the bar renders it.
/// An item's tooltip (`org.kde.StatusNotifierItem` `ToolTip`).
pub struct ToolTip {
    pub icon_name: Option<String>,
    pub icon_pixmap: Option<Icon>,
    pub title: String,
    pub description: String,
}

/// A request of the bar to a tray item, by the item's service name.
pub enum TrayCommand {
    MenuSelected(String, i32),
    Activate(String),
    /// Show the item's own menu at (x, y).
    ContextMenu(String, i32, i32),
    /// A secondary click at (x, y).
    SecondaryActivate(String, i32, i32),
    /// A scroll delta and its orientation (`Horizontal` or `Vertical`).
    Scroll(String, i32, &'static str),
}

pub struct StatusNotifierItem {
    pub name: String,
    pub icon: Option<TrayIcon>,
    pub menu: dbus::Layout,
    pub category: String,
    pub status: ItemStatus,
    pub item_id: String,
    pub title: String,
    pub attention_icon: Option<TrayIcon>,
    pub overlay_icon: Option<TrayIcon>,
}

/// A change reported for the tray.
pub enum TrayEvent {
    Registered(Box<StatusNotifierItem>),
    IconChanged(String, TrayIcon),
    MenuLayoutChanged(String, dbus::Layout),
    /// `NewStatus`: the item's new `Status` value.
    StatusChanged(String, String),
    Unregistered(String),
    NoChange,
}

/// The items of the tray, in registration order.
pub struct TrayData(pub Vec<StatusNotifierItem>);

/// `k` is the first item named `name`.
pub open spec fn is_first_named(items: Seq<StatusNotifierItem>, name: Seq<char>, k: int) -> bool {
    0 <= k < items.len() && items[k].name@ == name && forall|j: int|
        0 <= j < k ==> items[j].name@ != name
}

/// Some item is named `name`.
pub open spec fn has_named(items: Seq<StatusNotifierItem>, name: Seq<char>) -> bool {
    exists|k: int| 0 <= k < items.len() && items[k].name@ == name
}

/// The items whose name is not `name`, in order.
pub open spec fn without_named(items: Seq<StatusNotifierItem>, name: Seq<char>) -> Seq<
    StatusNotifierItem,
> {
    items.filter(|it: StatusNotifierItem| it.name@ != name)
}

/// The first item of the given name, if any.
pub fn find_item(items: &Vec<StatusNotifierItem>, name: &str) -> (r: Option<usize>)
    ensures
        match r {
            Some(k) => is_first_named(items@, name@, k as int),
            None => !has_named(items@, name@),
        },
{
    let mut k: usize = 0;
    while k < items.len()
        invariant
            k <= items@.len(),
            forall|j: int| 0 <= j < k ==> items@[j].name@ != name@,
        decreases items@.len() - k,
    {
        if str_eq(items[k].name.as_str(), name) {
            return Some(k);
        }
        k = k + 1;
    }
    None
}

impl TrayData {
    /// Folds one tray event into the item list: a registration replaces the
    /// item of the same name or appends it, a change touches the first item
    /// of that name, an unregistration drops every item of that name.
    pub fn update(&mut self, event: TrayEvent)
        ensures
            match event {
                TrayEvent::Registered(item) => {
                    if has_named(old(self).0@, item.name@) {
                        exists|k: int|
                            is_first_named(old(self).0@, item.name@, k) && final(self).0@
                                == old(self).0@.update(k, *item)
                    } else {
                        final(self).0@ == old(self).0@.push(*item)
                    }
                },
                TrayEvent::IconChanged(name, icon) => {
                    if has_named(old(self).0@, name@) {
                        exists|k: int|
                            is_first_named(old(self).0@, name@, k) && final(self).0@ == old(
                                self,
                            ).0@.update(
                                k,
                                StatusNotifierItem { icon: Some(icon), ..old(self).0@[k] },
                            )
                    } else {
                        final(self).0@ == old(self).0@
                    }
                },
                TrayEvent::MenuLayoutChanged(name, layout) => {
                    if has_named(old(self).0@, name@) {
                        exists|k: int|
                            is_first_named(old(self).0@, name@, k) && final(self).0@ == old(
                                self,
                            ).0@.update(
                                k,
                                StatusNotifierItem { menu: layout, ..old(self).0@[k] },
                            )
                    } else {
                        final(self).0@ == old(self).0@
                    }
                },
                TrayEvent::StatusChanged(name, status) => {
                    if has_named(old(self).0@, name@) {
                        exists|k: int|
                            is_first_named(old(self).0@, name@, k) && final(self).0@ == old(
                                self,
                            ).0@.update(
                                k,
                                StatusNotifierItem {
                                    status: item_status_of(status@),
                                    ..old(self).0@[k]
                                },
                            )
                    } else {
                        final(self).0@ == old(self).0@
                    }
                },
                TrayEvent::Unregistered(name) => final(self).0@ == without_named(
                    old(self).0@,
                    name@,
                ),
                TrayEvent::NoChange => final(self).0@ == old(self).0@,
            },
    {
        match event {
            TrayEvent::Registered(new_item) => {
                let new_item = *new_item;
                match find_item(&self.0, new_item.name.as_str()) {
                    Some(k) => {
                        self.0.set(k, new_item);
                    },
                    None => {
                        self.0.push(new_item);
                    },
                }
            },
            TrayEvent::IconChanged(name, handle) => {
                if let Some(k) = find_item(&self.0, name.as_str()) {
                    let mut item = self.0.remove(k);
                    item.icon = Some(handle);
                    self.0.insert(k, item);
                    proof {
                        assert(self.0@ =~= old(self).0@.update(
                            k as int,
                            StatusNotifierItem { icon: self.0@[k as int].icon, ..old(self).0@[k as int] },
                        ));
                    }
                }
            },
            TrayEvent::MenuLayoutChanged(name, layout) => {
                if let Some(k) = find_item(&self.0, name.as_str()) {
                    let mut item = self.0.remove(k);
                    item.menu = layout;
                    self.0.insert(k, item);
                    proof {
                        assert(self.0@ =~= old(self).0@.update(
                            k as int,
                            StatusNotifierItem { menu: self.0@[k as int].menu, ..old(self).0@[k as int] },
                        ));
                    }
                }
            },
            TrayEvent::StatusChanged(name, status) => {
                if let Some(k) = find_item(&self.0, name.as_str()) {
                    let st = ItemStatus::parse(status.as_str());
                    let mut item = self.0.remove(k);
                    item.status = st;
                    self.0.insert(k, item);
                    proof {
                        assert(self.0@ =~= old(self).0@.update(
                            k as int,
                            StatusNotifierItem { status: st, ..old(self).0@[k as int] },
                        ));
                    }
                }
            },
            TrayEvent::Unregistered(name) => {
                let mut items: Vec<StatusNotifierItem> = Vec::new();
                std::mem::swap(&mut items, &mut self.0);
                let ghost all = items@;
                let total = items.len();
                assert(all.len() == total);
                let mut kept: Vec<StatusNotifierItem> = Vec::new();
                let mut consumed: usize = 0;
                while items.len() > 0
                    invariant
                        consumed <= all.len(),
                        all.len() <= usize::MAX,
                        items@ == all.skip(consumed as int),
                        kept@ == without_named(all.take(consumed as int), name@),
                    decreases items@.len(),
                {
                    let it = items.remove(0);
                    proof {
                        assert(all.take(consumed + 1).drop_last() =~= all.take(consumed as int));
                        assert(all[consumed as int] == it);
                        reveal(Seq::filter);
                    }
                    let keep = !str_eq(it.name.as_str(), name.as_str());
                    if keep {
                        kept.push(it);
                    }
                    consumed = consumed + 1;
                    proof {
                        assert(items@ =~= all.skip(consumed as int));
                    }
                }
                assert(all.take(consumed as int) =~= all);
                self.0 = kept;
            },
            TrayEvent::NoChange => {},
        }
    }
}

} // verus!
