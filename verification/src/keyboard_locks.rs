//! Caps, Num and Scroll Lock: the state of every keyboard's LEDs and the
//! aggregate the bar shows.

use crate::keyed::{drop_key, keyed_map, keys_unique, put};
use crate::text::str_eq;
use vstd::prelude::*;

verus! {

/// The three locks; a lock is on when any keyboard reports it on.
#[derive(Clone, Copy, PartialEq, Eq, Structural, Debug)]
pub struct KeyboardLocksData {
    pub caps_lock: bool,
    pub num_lock: bool,
    pub scroll_lock: bool,
}

impl Default for KeyboardLocksData {
    fn default() -> (r: KeyboardLocksData)
        ensures
            !r.caps_lock && !r.num_lock && !r.scroll_lock,
    {
        KeyboardLocksData { caps_lock: false, num_lock: false, scroll_lock: false }
    }
}

/// One of the three keyboard locks.
#[derive(Clone, Copy, PartialEq, Eq, Structural, Debug)]
pub enum LockKind {
    Caps,
    Num,
    Scroll,
}

/// A new aggregate state.
#[derive(Clone, Copy, PartialEq, Eq, Structural, Debug)]
pub struct KeyboardLocksEvent(pub KeyboardLocksData);

/// A request of the bar: press a lock key.
#[derive(Clone, Copy, PartialEq, Eq, Structural, Debug)]
pub enum KeyboardLocksCommand {
    Toggle(LockKind),
}

pub open spec fn lock_of(d: KeyboardLocksData, k: LockKind) -> bool {
    match k {
        LockKind::Caps => d.caps_lock,
        LockKind::Num => d.num_lock,
        LockKind::Scroll => d.scroll_lock,
    }
}

pub open spec fn with_lock(d: KeyboardLocksData, k: LockKind, on: bool) -> KeyboardLocksData {
    match k {
        LockKind::Caps => KeyboardLocksData { caps_lock: on, ..d },
        LockKind::Num => KeyboardLocksData { num_lock: on, ..d },
        LockKind::Scroll => KeyboardLocksData { scroll_lock: on, ..d },
    }
}

/// A LED report of a keyboard: the new state of the keyboard when the
/// report changes one of the three locks, none otherwise (another LED, or
/// the lock already in that state).
pub fn apply_led(current: KeyboardLocksData, led: Option<LockKind>, value: i32) -> (r: Option<
    KeyboardLocksData,
>)
    ensures
        match led {
            None => r is None,
            Some(k) => if lock_of(current, k) == (value != 0) {
                r is None
            } else {
                r == Some(with_lock(current, k, value != 0))
            },
        },
{
    let on = value != 0;
    match led {
        Some(LockKind::Caps) => if current.caps_lock != on {
            Some(KeyboardLocksData { caps_lock: on, ..current })
        } else {
            None
        },
        Some(LockKind::Num) => if current.num_lock != on {
            Some(KeyboardLocksData { num_lock: on, ..current })
        } else {
            None
        },
        Some(LockKind::Scroll) => if current.scroll_lock != on {
            Some(KeyboardLocksData { scroll_lock: on, ..current })
        } else {
            None
        },
        None => None,
    }
}

/// The aggregate of the keyboards: each lock on when one keyboard has it on.
pub open spec fn aggregate_of(m: Map<Seq<char>, KeyboardLocksData>) -> KeyboardLocksData {
    KeyboardLocksData {
        caps_lock: exists|k: Seq<char>| m.contains_key(k) && #[trigger] m[k].caps_lock,
        num_lock: exists|k: Seq<char>| m.contains_key(k) && #[trigger] m[k].num_lock,
        scroll_lock: exists|k: Seq<char>| m.contains_key(k) && #[trigger] m[k].scroll_lock,
    }
}

/// The aggregate of keyboards held as entries with distinct paths.
pub fn aggregate(per_device: &Vec<(String, KeyboardLocksData)>) -> (r: KeyboardLocksData)
    requires
        keys_unique(per_device@),
    ensures
        r == aggregate_of(keyed_map(per_device@)),
{
    let mut acc = KeyboardLocksData { caps_lock: false, num_lock: false, scroll_lock: false };
    let mut i: usize = 0;
    while i < per_device.len()
        invariant
            i <= per_device@.len(),
            acc.caps_lock == exists|j: int| 0 <= j < i && (#[trigger] per_device@[j]).1.caps_lock,
            acc.num_lock == exists|j: int| 0 <= j < i && (#[trigger] per_device@[j]).1.num_lock,
            acc.scroll_lock == exists|j: int| 0 <= j < i && (#[trigger] per_device@[j]).1.scroll_lock,
        decreases per_device@.len() - i,
    {
        let s = per_device[i].1;
        acc = KeyboardLocksData {
            caps_lock: acc.caps_lock || s.caps_lock,
            num_lock: acc.num_lock || s.num_lock,
            scroll_lock: acc.scroll_lock || s.scroll_lock,
        };
        i = i + 1;
    }
    proof {
        let m = keyed_map(per_device@);
        let n = per_device@.len();
        assert forall|j: int| 0 <= j < n implies m.contains_key(#[trigger] per_device@[j].0@)
            && m[per_device@[j].0@] == per_device@[j].1 by {
            crate::keyed::lemma_keyed_at(per_device@, j);
        }
        if acc.caps_lock {
            let j = choose|j: int| 0 <= j < n && (#[trigger] per_device@[j]).1.caps_lock;
            assert(m.contains_key(per_device@[j].0@));
        }
        if aggregate_of(m).caps_lock {
            let k = choose|k: Seq<char>| m.contains_key(k) && #[trigger] m[k].caps_lock;
            let j = choose|j: int| 0 <= j < n && per_device@[j].0@ == k;
            assert(m.contains_key(per_device@[j].0@));
        }
        if acc.num_lock {
            let j = choose|j: int| 0 <= j < n && (#[trigger] per_device@[j]).1.num_lock;
            assert(m.contains_key(per_device@[j].0@));
        }
        if aggregate_of(m).num_lock {
            let k = choose|k: Seq<char>| m.contains_key(k) && #[trigger] m[k].num_lock;
            let j = choose|j: int| 0 <= j < n && per_device@[j].0@ == k;
            assert(m.contains_key(per_device@[j].0@));
        }
        if acc.scroll_lock {
            let j = choose|j: int| 0 <= j < n && (#[trigger] per_device@[j]).1.scroll_lock;
            assert(m.contains_key(per_device@[j].0@));
        }
        if aggregate_of(m).scroll_lock {
            let k = choose|k: Seq<char>| m.contains_key(k) && #[trigger] m[k].scroll_lock;
            let j = choose|j: int| 0 <= j < n && per_device@[j].0@ == k;
            assert(m.contains_key(per_device@[j].0@));
        }
    }
    acc
}

/// The keyboards being tracked, by device path, and the aggregate last
/// reported.
pub struct LockTracker {
    per_device: Vec<(String, KeyboardLocksData)>,
    current: KeyboardLocksData,
}

impl LockTracker {
    pub closed spec fn wf(&self) -> bool {
        keys_unique(self.per_device@)
    }

    pub closed spec fn devices(&self) -> Map<Seq<char>, KeyboardLocksData> {
        keyed_map(self.per_device@)
    }

    pub closed spec fn reported(&self) -> KeyboardLocksData {
        self.current
    }

    /// No keyboard yet, every lock reported off.
    pub fn new() -> (r: LockTracker)
        ensures
            r.wf(),
            r.devices() == Map::<Seq<char>, KeyboardLocksData>::empty(),
            r.reported() == (KeyboardLocksData { caps_lock: false, num_lock: false, scroll_lock: false }),
    {
        let r = LockTracker {
            per_device: Vec::new(),
            current: KeyboardLocksData { caps_lock: false, num_lock: false, scroll_lock: false },
        };
        assert(r.devices() =~= Map::<Seq<char>, KeyboardLocksData>::empty());
        r
    }

    /// Whether a device is tracked.
    pub fn is_tracked(&self, path: &str) -> (r: bool)
        requires
            self.wf(),
        ensures
            r == self.devices().contains_key(path@),
    {
        crate::keyed::index_of_key(&self.per_device, path).is_some()
    }

    /// Starts tracking a device with its first reading (a device already
    /// tracked keeps its entry).
    pub fn add_device(&mut self, path: &str, initial: KeyboardLocksData)
        requires
            old(self).wf(),
        ensures
            final(self).wf(),
            final(self).reported() == old(self).reported(),
            final(self).devices() == if old(self).devices().contains_key(path@) {
                old(self).devices()
            } else {
                old(self).devices().insert(path@, initial)
            },
    {
        if !self.is_tracked(path) {
            put(&mut self.per_device, path, initial);
        }
    }

    /// A device reported a new state, or its stream ended (`None`): records
    /// it, and answers the new aggregate when it differs from the one last
    /// reported.
    pub fn handle(&mut self, path: &str, update: Option<KeyboardLocksData>) -> (r: Option<
        KeyboardLocksEvent,
    >)
        requires
            old(self).wf(),
        ensures
            final(self).wf(),
            final(self).devices() == match update {
                Some(s) => old(self).devices().insert(path@, s),
                None => old(self).devices().remove(path@),
            },
            final(self).reported() == aggregate_of(final(self).devices()),
            r == if aggregate_of(final(self).devices()) != old(self).reported() {
                Some(KeyboardLocksEvent(aggregate_of(final(self).devices())))
            } else {
                None
            },
    {
        match update {
            Some(state) => put(&mut self.per_device, path, state),
            None => drop_key(&mut self.per_device, path),
        }
        let new_aggregate = aggregate(&self.per_device);
        if new_aggregate != self.current {
            self.current = new_aggregate;
            Some(KeyboardLocksEvent(new_aggregate))
        } else {
            None
        }
    }
}

/// Device nodes of keyboards are named `event<N>`.
pub open spec fn is_event_node_name(name: Seq<char>) -> bool {
    name.len() >= 5 && name.take(5) == "event"@
}

pub fn is_event_node(name: &str) -> (r: bool)
    ensures
        r == is_event_node_name(name@),
{
    if name.unicode_len() < 5 {
        return false;
    }
    let head = crate::text::prefix(name, 5);
    str_eq(head.as_str(), "event")
}

/// The service state the bar holds.
pub struct KeyboardLocksService {
    pub data: KeyboardLocksData,
}

impl KeyboardLocksService {
    /// A new aggregate replaces the state.
    pub fn update(&mut self, event: KeyboardLocksEvent)
        ensures
            final(self).data == event.0,
    {
        self.data = event.0;
    }
}

} // verus!
