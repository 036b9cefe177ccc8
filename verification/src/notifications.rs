//! The notification daemon's store: notifications by id, the ids it hands
//! out, and what it reports when one arrives or closes; and the icon
//! candidates of a notification.

use crate::tempo_calendar::has_prefix;
use crate::text::{find_char, str_eq, trim, trimmed, views};
use vstd::prelude::*;

verus! {

/// A notification as an application sent it; its hints are the ones with a
/// text value.
pub struct Notification {
    pub id: u32,
    pub app_name: String,
    pub app_icon: String,
    pub summary: String,
    pub body: String,
    pub actions: Vec<String>,
    pub hints: Vec<(String, String)>,
    pub expire_timeout: i32,
}

/// The text pairs of hints.
pub open spec fn hint_views(h: Seq<(String, String)>) -> Seq<(Seq<char>, Seq<char>)> {
    h.map_values(|p: (String, String)| (p.0@, p.1@))
}

/// Two notifications hold the same values.
pub open spec fn same_note(a: Notification, b: Notification) -> bool {
    &&& a.id == b.id
    &&& a.app_name@ == b.app_name@
    &&& a.app_icon@ == b.app_icon@
    &&& a.summary@ == b.summary@
    &&& a.body@ == b.body@
    &&& views(a.actions@) == views(b.actions@)
    &&& hint_views(a.hints@) == hint_views(b.hints@)
    &&& a.expire_timeout == b.expire_timeout
}

fn copy_strings(v: &Vec<String>) -> (r: Vec<String>)
    ensures
        views(r@) == views(v@),
{
    let mut r: Vec<String> = Vec::new();
    let mut i: usize = 0;
    while i < v.len()
        invariant
            i <= v@.len(),
            views(r@) == views(v@.take(i as int)),
        decreases v@.len() - i,
    {
        let x = v[i].clone();
        let ghost before = r@;
        r.push(x);
        assert(views(r@) =~= views(before).push(x@));
        assert(v@.take(i + 1) =~= v@.take(i as int).push(v@[i as int]));
        assert(views(v@.take(i + 1)) =~= views(v@.take(i as int)).push(v@[i as int]@));
        i = i + 1;
    }
    assert(v@.take(v@.len() as int) =~= v@);
    r
}

fn copy_pairs(v: &Vec<(String, String)>) -> (r: Vec<(String, String)>)
    ensures
        hint_views(r@) == hint_views(v@),
{
    let mut r: Vec<(String, String)> = Vec::new();
    let mut i: usize = 0;
    while i < v.len()
        invariant
            i <= v@.len(),
            hint_views(r@) == hint_views(v@.take(i as int)),
        decreases v@.len() - i,
    {
        let a = v[i].0.clone();
        let b = v[i].1.clone();
        let ghost before = r@;
        r.push((a, b));
        assert(hint_views(r@) =~= hint_views(before).push((a@, b@)));
        assert(v@.take(i + 1) =~= v@.take(i as int).push(v@[i as int]));
        assert(hint_views(v@.take(i + 1)) =~= hint_views(v@.take(i as int)).push((v@[i as int].0@, v@[i as int].1@)));
        i = i + 1;
    }
    assert(v@.take(v@.len() as int) =~= v@);
    r
}

impl Notification {
    /// A copy holding the same values.
    pub fn duplicate(&self) -> (r: Notification)
        ensures
            same_note(r, *self),
    {
        Notification {
            id: self.id,
            app_name: self.app_name.clone(),
            app_icon: self.app_icon.clone(),
            summary: self.summary.clone(),
            body: self.body.clone(),
            actions: copy_strings(&self.actions),
            hints: copy_pairs(&self.hints),
            expire_timeout: self.expire_timeout,
        }
    }
}

/// What the daemon reports.
pub enum NotificationEvent {
    Received(Notification),
    Closed(u32),
}

/// The notification with the id, if any.
pub open spec fn find_note(ns: Seq<Notification>, id: u32) -> Option<Notification>
    decreases ns.len(),
{
    if ns.len() == 0 {
        None
    } else if ns[0].id == id {
        Some(ns[0])
    } else {
        find_note(ns.drop_first(), id)
    }
}

/// No id occurs twice.
pub open spec fn ids_unique(ns: Seq<Notification>) -> bool {
    forall|i: int, j: int| 0 <= i < j < ns.len() ==> #[trigger] ns[i].id != #[trigger] ns[j].id
}

proof fn lemma_find_note(ns: Seq<Notification>, id: u32)
    requires
        ids_unique(ns),
    ensures
        match find_note(ns, id) {
            Some(n) => exists|i: int| 0 <= i < ns.len() && ns[i] == n && n.id == id,
            None => forall|i: int| 0 <= i < ns.len() ==> ns[i].id != id,
        },
        forall|i: int| 0 <= i < ns.len() && ns[i].id == id ==> find_note(ns, id) == Some(ns[i]),
    decreases ns.len(),
{
    if ns.len() > 0 {
        let t = ns.drop_first();
        assert(ids_unique(t)) by {
            assert forall|i: int, j: int| 0 <= i < j < t.len() implies #[trigger] t[i].id != #[trigger] t[j].id by {
                assert(ns[i + 1].id != ns[j + 1].id);
            }
        }
        lemma_find_note(t, id);
        if ns[0].id != id {
            assert forall|i: int| 0 <= i < ns.len() && ns[i].id == id implies find_note(ns, id) == Some(ns[i]) by {
                assert(i > 0);
                assert(t[i - 1] == ns[i]);
            }
            if find_note(ns, id) is Some {
                let i = choose|i: int| 0 <= i < t.len() && t[i] == find_note(t, id)->0 && find_note(t, id)->0.id == id;
                assert(ns[i + 1] == t[i]);
            } else {
                assert forall|i: int| 0 <= i < ns.len() implies ns[i].id != id by {
                    if i > 0 {
                        assert(t[i - 1] == ns[i]);
                    }
                }
            }
        } else {
            assert forall|i: int| 0 <= i < ns.len() && ns[i].id == id implies find_note(ns, id) == Some(ns[i]) by {
                if i > 0 {
                    assert(ns[0].id != ns[i].id);
                }
            }
        }
    }
}

/// The daemon's notifications and the last id it handed out.
pub struct NotificationStore {
    pub notifications: Vec<Notification>,
    pub next_id: u32,
}

impl NotificationStore {
    /// Each notification is held once per id.
    pub open spec fn wf(&self) -> bool {
        ids_unique(self.notifications@)
    }

    /// No notification yet; the first new one gets id 1.
    pub fn new() -> (r: Self)
        ensures
            r.wf(),
            r.next_id == 0,
            forall|id: u32| find_note(r.notifications@, id) is None,
    {
        NotificationStore { notifications: Vec::new(), next_id: 0 }
    }

    fn position(&self, id: u32) -> (r: Option<usize>)
        requires
            self.wf(),
        ensures
            match r {
                Some(i) => i < self.notifications@.len() && self.notifications@[i as int].id == id,
                None => forall|i: int| 0 <= i < self.notifications@.len() ==> self.notifications@[i].id != id,
            },
    {
        let mut i: usize = 0;
        while i < self.notifications.len()
            invariant
                i <= self.notifications@.len(),
                forall|j: int| 0 <= j < i ==> self.notifications@[j].id != id,
            decreases self.notifications@.len() - i,
        {
            if self.notifications[i].id == id {
                return Some(i);
            }
            i = i + 1;
        }
        None
    }

    /// The notification with the id.
    pub fn get(&self, id: u32) -> (r: Option<&Notification>)
        requires
            self.wf(),
        ensures
            match r {
                Some(n) => find_note(self.notifications@, id) == Some(*n),
                None => find_note(self.notifications@, id) is None,
            },
    {
        proof {
            lemma_find_note(self.notifications@, id);
        }
        match self.position(id) {
            Some(i) => Some(&self.notifications[i]),
            None => None,
        }
    }

    /// Takes a notification: a zero `replaces_id` gets the next id, any
    /// other replaces the notification with that id (or adds it). The stored
    /// notification, with its id, is reported as received; the id is
    /// returned.
    pub fn notify(&mut self, note: Notification, replaces_id: u32) -> (r: (u32, NotificationEvent))
        requires
            old(self).wf(),
            replaces_id == 0 ==> old(self).next_id < u32::MAX,
        ensures
            final(self).wf(),
            r.0 == if replaces_id == 0 {
                (old(self).next_id + 1) as u32
            } else {
                replaces_id
            },
            final(self).next_id == if replaces_id == 0 {
                (old(self).next_id + 1) as u32
            } else {
                old(self).next_id
            },
            find_note(final(self).notifications@, r.0) matches Some(n) && same_note(
                n,
                Notification { id: r.0, ..note },
            ),
            forall|k: u32| k != r.0 ==> #[trigger] find_note(final(self).notifications@, k) == find_note(
                old(self).notifications@,
                k,
            ),
            r.1 matches NotificationEvent::Received(n) && same_note(n, Notification { id: r.0, ..note }),
    {
        let id = if replaces_id == 0 {
            self.next_id = self.next_id + 1;
            self.next_id
        } else {
            replaces_id
        };
        let stored = Notification { id, ..note };
        let event = NotificationEvent::Received(stored.duplicate());
        let ghost before = self.notifications@;
        let ghost expected = stored;
        proof {
            lemma_find_note(before, id);
        }
        let ghost mut at: int = 0;
        match self.position(id) {
            Some(i) => {
                self.notifications.set(i, stored);
                proof {
                    at = i as int;
                }
            },
            None => {
                self.notifications.push(stored);
                proof {
                    at = before.len() as int;
                }
            },
        }
        proof {
            let now = self.notifications@;
            assert(now[at] == expected);
            assert(forall|q: int| 0 <= q < now.len() && q != at ==> now[q] == before[q]);
            assert(ids_unique(now)) by {
                assert forall|a: int, b: int| 0 <= a < b < now.len() implies #[trigger] now[a].id != #[trigger] now[b].id by {
                    if a != at && b != at {
                        assert(now[a] == before[a] && now[b] == before[b]);
                    } else if a == at {
                        assert(now[b] == before[b]);
                    } else {
                        assert(now[a] == before[a]);
                    }
                }
            }
            lemma_find_note(now, id);
            assert(find_note(now, id) == Some(expected));
            assert forall|k: u32| k != id implies #[trigger] find_note(now, k) == find_note(before, k) by {
                lemma_find_note(now, k);
                lemma_find_note(before, k);
                if find_note(before, k) is Some {
                    let j = choose|j: int| 0 <= j < before.len() && before[j] == find_note(before, k)->0 && find_note(before, k)->0.id == k;
                    assert(j != at);
                    assert(now[j] == before[j]);
                }
                if find_note(now, k) is Some {
                    let j = choose|j: int| 0 <= j < now.len() && now[j] == find_note(now, k)->0 && find_note(now, k)->0.id == k;
                    assert(j != at);
                    assert(now[j] == before[j]);
                }
            }
        }
        (id, event)
    }

    /// Closes a notification: when there was one with the id, it is
    /// removed and reported closed; otherwise nothing changes and nothing
    /// is reported.
    pub fn close(&mut self, id: u32) -> (r: Option<NotificationEvent>)
        requires
            old(self).wf(),
        ensures
            final(self).wf(),
            final(self).next_id == old(self).next_id,
            match find_note(old(self).notifications@, id) {
                Some(_) => r matches Some(NotificationEvent::Closed(x)) && x == id,
                None => r is None,
            },
            find_note(final(self).notifications@, id) is None,
            forall|k: u32| k != id ==> #[trigger] find_note(final(self).notifications@, k) == find_note(
                old(self).notifications@,
                k,
            ),
    {
        let ghost before = self.notifications@;
        proof {
            lemma_find_note(before, id);
        }
        match self.position(id) {
            Some(i) => {
                self.notifications.remove(i);
                proof {
                    let now = self.notifications@;
                    assert(now =~= before.remove(i as int));
                    assert(ids_unique(now)) by {
                        assert forall|a: int, b: int| 0 <= a < b < now.len() implies #[trigger] now[a].id != #[trigger] now[b].id by {
                            let a2 = if a < i { a } else { a + 1 };
                            let b2 = if b < i { b } else { b + 1 };
                            assert(now[a] == before[a2] && now[b] == before[b2]);
                        }
                    }
                    lemma_find_note(now, id);
                    assert forall|q: int| 0 <= q < now.len() implies now[q].id != id by {
                        let q2 = if q < i { q } else { q + 1 };
                        assert(now[q] == before[q2]);
                    }
                    assert forall|k: u32| k != id implies #[trigger] find_note(now, k) == find_note(before, k) by {
                        lemma_find_note(now, k);
                        lemma_find_note(before, k);
                        if find_note(before, k) is Some {
                            let j = choose|j: int| 0 <= j < before.len() && before[j] == find_note(before, k)->0 && find_note(before, k)->0.id == k;
                            assert(j != i);
                            let j2 = if j < i { j } else { j - 1 };
                            assert(now[j2] == before[j]);
                        }
                        if find_note(now, k) is Some {
                            let j = choose|j: int| 0 <= j < now.len() && now[j] == find_note(now, k)->0 && find_note(now, k)->0.id == k;
                            let j2 = if j < i { j } else { j + 1 };
                            assert(now[j] == before[j2]);
                        }
                    }
                }
                Some(NotificationEvent::Closed(id))
            },
            None => None,
        }
    }
}

/// Closing a notification that was just added under a new id leaves every
/// lookup as it was before: a `notify` that takes `old` to `mid` with an id
/// `old` did not have, then a `close` of that id taking `mid` to `new`.
pub proof fn law_close_undoes_new_notify(old: Seq<Notification>, mid: Seq<Notification>, new: Seq<Notification>, id: u32)
    requires
        find_note(old, id) is None,
        find_note(mid, id) is Some,
        forall|k: u32| k != id ==> #[trigger] find_note(mid, k) == find_note(old, k),
        find_note(new, id) is None,
        forall|k: u32| k != id ==> #[trigger] find_note(new, k) == find_note(mid, k),
    ensures
        forall|k: u32| #[trigger] find_note(new, k) == find_note(old, k),
{
    assert forall|k: u32| #[trigger] find_note(new, k) == find_note(old, k) by {
        if k != id {
            assert(find_note(new, k) == find_note(mid, k));
        }
    }
}

/// The hints that may name an icon, in the order they are tried.
pub open spec fn icon_hint_keys() -> Seq<Seq<char>> {
    seq!["image-path"@, "image_path"@, "icon-name"@, "icon_name"@, "desktop-entry"@]
}

/// The value of the first hint with the key.
pub open spec fn hint_of(h: Seq<(Seq<char>, Seq<char>)>, key: Seq<char>) -> Option<Seq<char>>
    decreases h.len(),
{
    if h.len() == 0 {
        None
    } else if h[0].0 == key {
        Some(h[0].1)
    } else {
        hint_of(h.drop_first(), key)
    }
}

/// The values of the hints present among the keys, in key order.
pub open spec fn present_hints(h: Seq<(Seq<char>, Seq<char>)>, keys: Seq<Seq<char>>) -> Seq<Seq<char>>
    decreases keys.len(),
{
    if keys.len() == 0 {
        Seq::empty()
    } else {
        present_hints(h, keys.drop_last()) + match hint_of(h, keys.last()) {
            Some(v) => seq![v],
            None => Seq::empty(),
        }
    }
}

/// The candidates trimmed, the empty ones left out.
pub open spec fn kept(s: Seq<Seq<char>>) -> Seq<Seq<char>>
    decreases s.len(),
{
    if s.len() == 0 {
        Seq::empty()
    } else {
        kept(s.drop_last()) + if trimmed(s.last()).len() > 0 {
            seq![trimmed(s.last())]
        } else {
            Seq::empty()
        }
    }
}

/// The names to try for a notification's icon: its icon, the icon hints,
/// its application's name, each trimmed, the empty ones left out.
pub open spec fn icon_candidates_of(app_name: Seq<char>, app_icon: Seq<char>, h: Seq<(Seq<char>, Seq<char>)>) -> Seq<Seq<char>> {
    kept(seq![app_icon] + present_hints(h, icon_hint_keys()) + seq![app_name])
}

proof fn lemma_kept_concat(a: Seq<Seq<char>>, b: Seq<Seq<char>>)
    ensures
        kept(a + b) == kept(a) + kept(b),
    decreases b.len(),
{
    if b.len() == 0 {
        assert(a + b =~= a);
        assert(kept(a) + kept(b) =~= kept(a));
    } else {
        lemma_kept_concat(a, b.drop_last());
        assert((a + b).drop_last() =~= a + b.drop_last());
        assert((a + b).last() == b.last());
        assert(kept(a + b) =~= kept(a) + kept(b));
    }
}

fn find_hint(h: &Vec<(String, String)>, key: &str) -> (r: Option<String>)
    ensures
        match hint_of(hint_views(h@), key@) {
            Some(v) => r matches Some(x) && x@ == v,
            None => r is None,
        },
{
    let ghost hv = hint_views(h@);
    let mut i: usize = 0;
    assert(hv.skip(0) =~= hv);
    while i < h.len()
        invariant
            hv == hint_views(h@),
            i <= h@.len(),
            hint_of(hv, key@) == hint_of(hv.skip(i as int), key@),
        decreases h@.len() - i,
    {
        assert(hv.skip(i as int).drop_first() =~= hv.skip(i + 1));
        assert(hv.skip(i as int)[0] == (h@[i as int].0@, h@[i as int].1@));
        if str_eq(h[i].0.as_str(), key) {
            return Some(h[i].1.clone());
        }
        i = i + 1;
    }
    None
}

fn push_candidate(out: &mut Vec<String>, c: &str)
    ensures
        views(final(out)@) == views(old(out)@) + kept(seq![c@]),
{
    let t = trim(c);
    let ghost before = out@;
    assert(seq![c@].drop_last() =~= Seq::<Seq<char>>::empty());
    assert(seq![c@].last() == c@);
    assert(kept(Seq::<Seq<char>>::empty()) =~= Seq::<Seq<char>>::empty());
    assert(kept(seq![c@]) == kept(seq![c@].drop_last()) + if trimmed(c@).len() > 0 {
        seq![trimmed(c@)]
    } else {
        Seq::<Seq<char>>::empty()
    });
    if t.unicode_len() > 0 {
        out.push(t);
        assert(kept(seq![c@]) =~= seq![trimmed(c@)]);
        assert(views(out@) =~= views(before).push(trimmed(c@)));
    } else {
        assert(kept(seq![c@]) =~= Seq::<Seq<char>>::empty());
        assert(views(out@) =~= views(before) + Seq::<Seq<char>>::empty());
    }
}

fn hint_key(i: usize) -> (r: &'static str)
    requires
        i < 5,
    ensures
        r@ == icon_hint_keys()[i as int],
{
    if i == 0 {
        "image-path"
    } else if i == 1 {
        "image_path"
    } else if i == 2 {
        "icon-name"
    } else if i == 3 {
        "icon_name"
    } else {
        "desktop-entry"
    }
}

/// The names to try for a notification's icon.
pub fn icon_candidates(app_name: &str, app_icon: &str, hints: &Vec<(String, String)>) -> (r: Vec<String>)
    ensures
        views(r@) == icon_candidates_of(app_name@, app_icon@, hint_views(hints@)),
{
    let ghost h = hint_views(hints@);
    let mut out: Vec<String> = Vec::new();
    push_candidate(&mut out, app_icon);
    proof {
        assert(icon_hint_keys().take(0) =~= Seq::<Seq<char>>::empty());
        assert(seq![app_icon@] + present_hints(h, icon_hint_keys().take(0)) =~= seq![app_icon@]);
        assert(views(out@) =~= kept(seq![app_icon@]));
    }
    let mut i: usize = 0;
    while i < 5
        invariant
            h == hint_views(hints@),
            i <= 5,
            views(out@) == kept(seq![app_icon@] + present_hints(h, icon_hint_keys().take(i as int))),
        decreases 5 - i,
    {
        let ghost ks = icon_hint_keys().take(i + 1);
        let key = hint_key(i);
        proof {
            assert(ks.drop_last() =~= icon_hint_keys().take(i as int));
            assert(ks.last() == key@);
        }
        let ghost base = seq![app_icon@] + present_hints(h, icon_hint_keys().take(i as int));
        let ghost added = match hint_of(h, key@) {
            Some(v) => seq![v],
            None => Seq::<Seq<char>>::empty(),
        };
        match find_hint(hints, key) {
            Some(v) => {
                push_candidate(&mut out, v.as_str());
                proof {
                    assert(added == seq![v@]);
                }
            },
            None => {
                proof {
                    assert(added =~= Seq::<Seq<char>>::empty());
                    assert(kept(added) =~= Seq::<Seq<char>>::empty());
                    assert(views(out@) =~= views(out@) + kept(added));
                }
            },
        }
        proof {
            assert(seq![app_icon@] + present_hints(h, ks) =~= base + added);
            lemma_kept_concat(base, added);
        }
        i = i + 1;
    }
    proof {
        assert(icon_hint_keys().take(5) =~= icon_hint_keys());
    }
    let ghost base = seq![app_icon@] + present_hints(h, icon_hint_keys());
    push_candidate(&mut out, app_name);
    proof {
        lemma_kept_concat(base, seq![app_name@]);
    }
    out
}

/// A candidate names a file when it holds a `/` or begins with `.`.
pub fn is_path_like(candidate: &str) -> (r: bool)
    ensures
        r == ((exists|i: int| 0 <= i < candidate@.len() && candidate@[i] == '/') || has_prefix(candidate@, "."@)),
{
    let found = find_char(candidate, '/');
    proof {
        reveal_strlit(".");
        assert("."@ =~= seq!['.']);
    }
    let n = candidate.unicode_len();
    let dot = n > 0 && candidate.get_char(0) == '.';
    proof {
        if n > 0 {
            if candidate@[0] == '.' {
                assert(candidate@.take(1) =~= "."@);
            } else {
                assert(candidate@.take(1)[0] != "."@[0]);
            }
        } else {
            assert(!has_prefix(candidate@, "."@));
        }
    }
    match found {
        Some(i) => {
            assert(candidate@[i as int] == '/');
            true
        },
        None => dot,
    }
}

/// The icon name a candidate looks up: without a `.desktop` ending.
pub fn lookup_name(candidate: &str) -> (r: String)
    ensures
        r@ == if candidate@.len() >= 8 && candidate@.skip(candidate@.len() - 8) == ".desktop"@ {
            candidate@.take(candidate@.len() - 8)
        } else {
            candidate@
        },
{
    proof {
        reveal_strlit(".desktop");
    }
    let n = candidate.unicode_len();
    if n >= 8 {
        let tail = crate::text::substring(candidate, n - 8, n);
        assert(candidate@.skip(n - 8) =~= candidate@.subrange(n - 8, n as int));
        if str_eq(tail.as_str(), ".desktop") {
            assert(candidate@.take(n - 8) =~= candidate@.subrange(0, n - 8));
            return crate::text::substring(candidate, 0, n - 8);
        }
    }
    assert(candidate@.subrange(0, n as int) =~= candidate@);
    crate::text::substring(candidate, 0, n)
}

} // verus!
