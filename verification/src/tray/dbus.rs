//! StatusNotifierWatcher model: the registered items, the pixmaps they
//! expose, and how a registered service name splits into sender and path.

use crate::text::{find_char, str_eq};
use vstd::prelude::*;

verus! {

/// One `IconPixmap` entry: ARGB32 pixels, `width * height * 4` bytes.
pub struct Icon {
    pub width: i32,
    pub height: i32,
    pub bytes: Vec<u8>,
}

/// `width * height` with negative sides read as 0; 0 when the product does
/// not fit in a `u32`.
pub open spec fn pixel_count_of(width: i32, height: i32) -> nat {
    let w: nat = if width < 0 { 0 } else { width as nat };
    let h: nat = if height < 0 { 0 } else { height as nat };
    if w * h <= u32::MAX {
        w * h
    } else {
        0
    }
}

/// The index `max_by_key(pixel_count)` picks: the last pixmap of the largest
/// pixel count.
pub open spec fn best_pixmap_index(icons: Seq<Icon>) -> int
    decreases icons.len(),
{
    if icons.len() <= 1 {
        0
    } else {
        let k = best_pixmap_index(icons.drop_last());
        let last = icons.last();
        if pixel_count_of(last.width, last.height) >= pixel_count_of(
            icons[k].width,
            icons[k].height,
        ) {
            icons.len() - 1
        } else {
            k
        }
    }
}

pub proof fn lemma_best_pixmap_index(icons: Seq<Icon>)
    requires
        icons.len() > 0,
    ensures
        0 <= best_pixmap_index(icons) < icons.len(),
        forall|j: int|
            0 <= j < icons.len() ==> pixel_count_of(#[trigger] icons[j].width, icons[j].height)
                <= pixel_count_of(
                icons[best_pixmap_index(icons)].width,
                icons[best_pixmap_index(icons)].height,
            ),
    decreases icons.len(),
{
    if icons.len() > 1 {
        let d = icons.drop_last();
        lemma_best_pixmap_index(d);
        assert forall|j: int| 0 <= j < icons.len() implies pixel_count_of(
            #[trigger] icons[j].width,
            icons[j].height,
        ) <= pixel_count_of(
            icons[best_pixmap_index(icons)].width,
            icons[best_pixmap_index(icons)].height,
        ) by {
            if j < icons.len() - 1 {
                assert(icons[j] == d[j]);
                assert(d[best_pixmap_index(d)] == icons[best_pixmap_index(d)]);
            }
        }
    }
}

impl Icon {
    /// Pixel count (width * height), used to pick the largest pixmap.
    pub fn pixel_count(&self) -> (r: u32)
        ensures
            r == pixel_count_of(self.width, self.height),
    {
        let w: u64 = if self.width < 0 { 0 } else { self.width as u64 };
        let h: u64 = if self.height < 0 { 0 } else { self.height as u64 };
        assert(w * h <= 0x7fff_ffff * 0x7fff_ffff) by (nonlinear_arith)
            requires
                w <= 0x7fff_ffff,
                h <= 0x7fff_ffff,
        ;
        let p = w * h;
        if p <= u32::MAX as u64 {
            p as u32
        } else {
            0
        }
    }
}

/// Picks the largest icon (by pixel count) from a set of pixmaps; among
/// icons of equal size the last one wins.
pub fn best_icon_pixmap(icons: &[Icon]) -> (r: Option<&Icon>)
    ensures
        icons@.len() == 0 <==> r is None,
        r matches Some(i) ==> *i == icons@[best_pixmap_index(icons@)],
{
    if icons.len() == 0 {
        return None;
    }
    let mut best: usize = 0;
    let mut best_count = icons[0].pixel_count();
    let mut i: usize = 1;
    while i < icons.len()
        invariant
            1 <= i <= icons@.len(),
            best == best_pixmap_index(icons@.take(i as int)),
            best < i,
            best_count == pixel_count_of(icons@[best as int].width, icons@[best as int].height),
        decreases icons@.len() - i,
    {
        let c = icons[i].pixel_count();
        assert(icons@.take(i + 1).drop_last() =~= icons@.take(i as int));
        if c >= best_count {
            best = i;
            best_count = c;
        }
        i = i + 1;
    }
    assert(icons@.take(i as int) =~= icons@);
    Some(&icons[best])
}

/// The object path an item registered under a bare well-known name lives at.
pub open spec fn default_item_path() -> Seq<char> {
    seq!['/', 'S', 't', 'a', 't', 'u', 's', 'N', 'o', 't', 'i', 'f', 'i', 'e', 'r', 'I', 't', 'e', 'm']
}

/// The split of a registered service name at its first `/`: the unique
/// sender before it and the object path from it on; a name without `/` is a
/// bare bus name at the default path.
pub open spec fn service_name_split(name: Seq<char>) -> (Seq<char>, Seq<char>) {
    if exists|i: int| 0 <= i < name.len() && name[i] == '/' {
        let i = choose|i: int|
            0 <= i < name.len() && name[i] == '/' && forall|j: int| 0 <= j < i ==> name[j] != '/';
        (name.take(i), name.skip(i))
    } else {
        (name, default_item_path())
    }
}

/// Splits a registered service name into its unique sender and object path.
/// A method-registered item is `<unique-sender>/<object-path>`; a
/// well-known-name registration is a bare name, found at `/StatusNotifierItem`.
pub fn split_service_name(name: &str) -> (r: (&str, &str))
    ensures
        (r.0@, r.1@) == service_name_split(name@),
{
    match find_char(name, '/') {
        Some(idx) => {
            let n = name.unicode_len();
            let sender = name.substring_char(0, idx);
            let path = name.substring_char(idx, n);
            proof {
                let i = choose|i: int|
                    0 <= i < name@.len() && name@[i] == '/' && forall|j: int|
                        0 <= j < i ==> name@[j] != '/';
                assert(i == idx as int) by {
                    if i < idx {
                        assert(name@[i] != '/');
                    }
                    if idx < i {
                        assert(name@[idx as int] != '/');
                    }
                }
                assert(sender@ =~= name@.take(idx as int));
                assert(path@ =~= name@.skip(idx as int));
            }
            (sender, path)
        },
        None => {
            let path = "/StatusNotifierItem";
            proof {
                reveal_strlit("/StatusNotifierItem");
                assert(path@ =~= default_item_path());
            }
            (name, path)
        },
    }
}

/// The items a watcher tracks: each registered item's unique sender and the
/// service string it was announced under.
pub struct StatusNotifierWatcher {
    pub items: Vec<(String, String)>,
    pub host_name: Option<String>,
}

/// Whether some tracked item has the given sender.
pub open spec fn tracks_sender(items: Seq<(String, String)>, sender: Seq<char>) -> bool {
    exists|k: int| 0 <= k < items.len() && items[k].0@ == sender
}

/// The service string under which an item is announced: a path is prefixed
/// with the registering sender, anything else is kept as given.
pub open spec fn announced_service(service: Seq<char>, sender: Seq<char>) -> Seq<char> {
    if service.len() > 0 && service[0] == '/' {
        sender + service
    } else {
        service
    }
}

impl StatusNotifierWatcher {
    /// A watcher with no items and no host.
    pub fn new() -> (w: Self)
        ensures
            w.items@.len() == 0,
            w.host_name is None,
    {
        StatusNotifierWatcher { items: Vec::new(), host_name: None }
    }

    fn sender_index(&self, sender: &str) -> (r: Option<usize>)
        ensures
            match r {
                Some(k) => k < self.items@.len() && self.items@[k as int].0@ == sender@,
                None => !tracks_sender(self.items@, sender@),
            },
    {
        let mut k: usize = 0;
        while k < self.items.len()
            invariant
                k <= self.items@.len(),
                forall|j: int| 0 <= j < k ==> self.items@[j].0@ != sender@,
            decreases self.items@.len() - k,
        {
            if str_eq(self.items[k].0.as_str(), sender) {
                return Some(k);
            }
            k = k + 1;
        }
        None
    }

    /// Registers an item for `sender` unless that sender is already tracked.
    /// Returns the service string to announce, `None` when nothing changed.
    pub fn register_status_notifier_item(&mut self, service: &str, sender: &str) -> (r: Option<
        String,
    >)
        ensures
            tracks_sender(old(self).items@, sender@) ==> r is None && final(self).items@
                == old(self).items@,
            !tracks_sender(old(self).items@, sender@) ==> {
                &&& r matches Some(s) && s@ == announced_service(service@, sender@)
                &&& final(self).items@.len() == old(self).items@.len() + 1
                &&& final(self).items@.drop_last() == old(self).items@
                &&& final(self).items@.last().0@ == sender@
                &&& final(self).items@.last().1@ == announced_service(service@, sender@)
            },
            final(self).host_name == old(self).host_name,
    {
        if self.sender_index(sender).is_some() {
            return None;
        }
        let mut full = String::from_str(sender);
        let svc = String::from_str(service);
        let starts_with_slash = service.unicode_len() > 0 && service.get_char(0) == '/';
        let announced = if starts_with_slash {
            full.append(service);
            full
        } else {
            svc
        };
        let pair = (String::from_str(sender), announced.clone());
        self.items.push(pair);
        proof {
            assert(self.items@.drop_last() =~= old(self).items@);
        }
        Some(announced)
    }

    /// `RegisteredStatusNotifierItems`: the announced services.
    pub fn registered_status_notifier_items(&self) -> (r: Vec<String>)
        ensures
            r@.len() == self.items@.len(),
            forall|j: int| 0 <= j < r@.len() ==> #[trigger] r@[j]@ == self.items@[j].1@,
    {
        let mut r: Vec<String> = Vec::new();
        let mut k: usize = 0;
        while k < self.items.len()
            invariant
                k <= self.items@.len(),
                r@.len() == k,
                forall|j: int| 0 <= j < k ==> #[trigger] r@[j]@ == self.items@[j].1@,
            decreases self.items@.len() - k,
        {
            r.push(self.items[k].1.clone());
            k = k + 1;
        }
        r
    }

    /// Forgets the item of a sender that left the bus; returns the service
    /// to announce as unregistered.
    pub fn remove_sender(&mut self, sender: &str) -> (r: Option<String>)
        ensures
            !tracks_sender(old(self).items@, sender@) ==> r is None && final(self).items@
                == old(self).items@,
            tracks_sender(old(self).items@, sender@) ==> exists|k: int|
                0 <= k < old(self).items@.len() && old(self).items@[k].0@ == sender@ && (forall|
                    j: int,
                | 0 <= j < k ==> old(self).items@[j].0@ != sender@) && r == Some(
                    old(self).items@[k].1,
                ) && final(self).items@ == old(self).items@.remove(k),
            final(self).host_name == old(self).host_name,
    {
        let mut k: usize = 0;
        while k < self.items.len()
            invariant
                k <= self.items@.len(),
                self.items@ == old(self).items@,
                self.host_name == old(self).host_name,
                forall|j: int| 0 <= j < k ==> self.items@[j].0@ != sender@,
            decreases self.items@.len() - k,
        {
            if str_eq(self.items[k].0.as_str(), sender) {
                let (_, service) = self.items.remove(k);
                return Some(service);
            }
            k = k + 1;
        }
        None
    }

    /// `RegisterStatusNotifierHost`: records the host, the latest one to
    /// register. Returns whether `StatusNotifierHostRegistered` is to be
    /// emitted, which is only for the first host, since clients register
    /// again on that signal.
    pub fn register_status_notifier_host(&mut self, sender: String) -> (emit: bool)
        ensures
            emit == (old(self).host_name is None),
            final(self).host_name == Some(sender),
            final(self).items == old(self).items,
    {
        let first = self.host_name.is_none();
        self.host_name = Some(sender);
        first
    }

    /// `IsStatusNotifierHostRegistered` is always reported true.
    pub fn is_status_notifier_host_registered(&self) -> (r: bool)
        ensures
            r,
    {
        true
    }

    /// `ProtocolVersion`: the version clients check for (`> 0`).
    pub fn protocol_version(&self) -> (r: i32)
        ensures
            r == 1,
    {
        1
    }
}


/// The properties of one dbusmenu entry.
pub struct LayoutProps {
    pub children_display: Option<String>,
    pub label: Option<String>,
    pub type_: Option<String>,
    pub toggle_type: Option<String>,
    pub toggle_state: Option<i32>,
    pub visible: Option<bool>,
}

/// A dbusmenu layout node: id, properties and children.
pub struct Layout(pub i32, pub LayoutProps, pub Vec<Layout>);

} // verus!
