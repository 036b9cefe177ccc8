//! Media players (MPRIS): playback state, the line the bar shows of a
//! track, and which cover images to fetch.

use crate::text::{push_str, str_eq};
use vstd::prelude::*;

verus! {

/// The playback state of a player.
#[derive(Clone, Copy, PartialEq, Eq, Structural, Debug)]
pub enum PlaybackStatus {
    Playing,
    Paused,
    Stopped,
}

/// The state a player reports; anything else counts as playing.
pub open spec fn playback_of(s: Seq<char>) -> PlaybackStatus {
    if s == "Paused"@ {
        PlaybackStatus::Paused
    } else if s == "Stopped"@ {
        PlaybackStatus::Stopped
    } else {
        PlaybackStatus::Playing
    }
}

impl PlaybackStatus {
    pub fn from_name(s: &str) -> (r: PlaybackStatus)
        ensures
            r == playback_of(s@),
    {
        if str_eq(s, "Paused") {
            PlaybackStatus::Paused
        } else if str_eq(s, "Stopped") {
            PlaybackStatus::Stopped
        } else {
            PlaybackStatus::Playing
        }
    }
}

impl From<String> for PlaybackStatus {
    fn from(s: String) -> (r: PlaybackStatus) {
        PlaybackStatus::from_name(s.as_str())
    }
}

impl vstd::std_specs::convert::FromSpecImpl<String> for PlaybackStatus {
    open spec fn obeys_from_spec() -> bool {
        true
    }

    open spec fn from_spec(s: String) -> PlaybackStatus {
        playback_of(s@)
    }
}

impl Default for PlaybackStatus {
    fn default() -> (r: PlaybackStatus)
        ensures
            r == PlaybackStatus::Playing,
    {
        PlaybackStatus::Playing
    }
}

/// What a player says of the current track.
pub struct MprisPlayerMetadata {
    pub artists: Option<Vec<String>>,
    pub title: Option<String>,
    pub album: Option<String>,
    pub art_url: Option<String>,
}

/// The strings joined with `sep` between them.
pub open spec fn joined(v: Seq<String>, sep: Seq<char>) -> Seq<char>
    decreases v.len(),
{
    if v.len() == 0 {
        Seq::empty()
    } else if v.len() == 1 {
        v[0]@
    } else {
        joined(v.drop_last(), sep) + sep + v.last()@
    }
}

/// The line the bar shows: "artists - title", either part alone when the
/// other is missing, the artists separated by ", ".
pub open spec fn track_line(m: MprisPlayerMetadata) -> Seq<char> {
    match (m.artists, m.title) {
        (None, None) => Seq::empty(),
        (None, Some(t)) => t@,
        (Some(a), None) => joined(a@, ", "@),
        (Some(a), Some(t)) => joined(a@, ", "@) + " - "@ + t@,
    }
}

fn join(v: &Vec<String>, sep: &str) -> (r: String)
    ensures
        r@ == joined(v@, sep@),
{
    let mut out = String::new();
    let mut i: usize = 0;
    while i < v.len()
        invariant
            i <= v@.len(),
            out@ == joined(v@.take(i as int), sep@),
        decreases v@.len() - i,
    {
        let ghost t = v@.take(i + 1);
        assert(t.drop_last() =~= v@.take(i as int));
        if i > 0 {
            push_str(&mut out, sep);
        }
        push_str(&mut out, v[i].as_str());
        i = i + 1;
        proof {
            if i == 1 {
                assert(out@ =~= t[0]@);
            } else {
                assert(out@ =~= joined(t.drop_last(), sep@) + sep@ + t.last()@);
            }
        }
    }
    assert(v@.take(v@.len() as int) =~= v@);
    out
}

impl MprisPlayerMetadata {
    /// The line the bar shows of the track.
    pub fn to_line(&self) -> (r: String)
        ensures
            r@ == track_line(*self),
    {
        match (&self.artists, &self.title) {
            (None, None) => String::new(),
            (None, Some(t)) => t.clone(),
            (Some(a), None) => join(a, ", "),
            (Some(a), Some(t)) => {
                let mut s = join(a, ", ");
                push_str(&mut s, " - ");
                push_str(&mut s, t.as_str());
                s
            },
        }
    }
}

/// `s` starts with `p`.
pub open spec fn starts_with(s: Seq<char>, p: Seq<char>) -> bool {
    p.len() <= s.len() && s.take(p.len() as int) == p
}

/// Bus names of media players start with this prefix.
pub open spec fn is_player_name(name: Seq<char>) -> bool {
    starts_with(name, "org.mpris.MediaPlayer2."@)
}

fn has_prefix(s: &str, p: &str) -> (r: bool)
    ensures
        r == starts_with(s@, p@),
{
    let m = p.unicode_len();
    if m > s.unicode_len() {
        return false;
    }
    let head = crate::text::prefix(s, m);
    str_eq(head.as_str(), p)
}

/// The players among the bus names, in order.
pub fn player_names(names: &Vec<String>) -> (r: Vec<String>)
    ensures
        r@.len() == names@.filter(|n: String| is_player_name(n@)).len(),
        forall|i: int|
            0 <= i < r@.len() ==> (#[trigger] r@[i])@ == names@.filter(
                |n: String| is_player_name(n@),
            )[i]@,
{
    let ghost pred = |n: String| is_player_name(n@);
    let mut r: Vec<String> = Vec::new();
    let mut i: usize = 0;
    while i < names.len()
        invariant
            i <= names@.len(),
            pred == (|n: String| is_player_name(n@)),
            r@.len() == names@.take(i as int).filter(pred).len(),
            forall|k: int|
                0 <= k < r@.len() ==> (#[trigger] r@[k])@ == names@.take(i as int).filter(pred)[k]@,
        decreases names@.len() - i,
    {
        proof {
            names@.take(i as int).lemma_filter_push(names@[i as int], pred);
            assert(names@.take(i + 1) =~= names@.take(i as int).push(names@[i as int]));
        }
        if has_prefix(names[i].as_str(), "org.mpris.MediaPlayer2.") {
            let c = names[i].clone();
            r.push(c);
        }
        i = i + 1;
    }
    assert(names@.take(names@.len() as int) =~= names@);
    r
}

/// The strings of a list, as a set of character sequences.
pub open spec fn str_set(v: Seq<String>) -> Set<Seq<char>> {
    Set::new(|u: Seq<char>| exists|i: int| 0 <= i < v.len() && v[i]@ == u)
}

/// The player shows the cover at `u`.
pub open spec fn shows_url(o: Option<String>, u: Seq<char>) -> bool {
    match o {
        Some(a) => a@ == u,
        None => false,
    }
}

/// The covers the players show that were not fetched yet.
pub open spec fn wanted_covers(art_urls: Seq<Option<String>>, fetched: Seq<String>) -> Set<Seq<char>> {
    Set::new(
        |u: Seq<char>|
            (exists|i: int| 0 <= i < art_urls.len() && shows_url(art_urls[i], u))
                && !str_set(fetched).contains(u),
    )
}

/// The downloads to abort and the ones to start.
pub struct CoverPlan {
    pub abort: Vec<String>,
    pub start: Vec<String>,
}

fn contains_str(v: &Vec<String>, u: &str) -> (r: bool)
    ensures
        r == str_set(v@).contains(u@),
{
    let mut i: usize = 0;
    while i < v.len()
        invariant
            i <= v@.len(),
            forall|j: int| 0 <= j < i ==> v@[j]@ != u@,
        decreases v@.len() - i,
    {
        if str_eq(v[i].as_str(), u) {
            return true;
        }
        i = i + 1;
    }
    false
}

/// Which cover downloads to abort (in flight, no longer wanted) and which
/// to start (wanted, not in flight), each URL once.
pub fn plan_covers(art_urls: &Vec<Option<String>>, fetched: &Vec<String>, in_flight: &Vec<String>) -> (r: CoverPlan)
    ensures
        str_set(r.abort@) == str_set(in_flight@).difference(wanted_covers(art_urls@, fetched@)),
        str_set(r.start@) == wanted_covers(art_urls@, fetched@).difference(str_set(in_flight@)),
        forall|i: int, j: int| 0 <= i < j < r.start@.len() ==> (#[trigger] r.start@[i])@ != (#[trigger] r.start@[j])@,
{
    let ghost wanted = wanted_covers(art_urls@, fetched@);
    let mut desired: Vec<String> = Vec::new();
    let mut i: usize = 0;
    while i < art_urls.len()
        invariant
            i <= art_urls@.len(),
            wanted == wanted_covers(art_urls@, fetched@),
            forall|u: Seq<char>| #[trigger] str_set(desired@).contains(u) <==> (
                (exists|k: int| 0 <= k < i && shows_url(art_urls@[k], u))
                    && !str_set(fetched@).contains(u)),
        decreases art_urls@.len() - i,
    {
        let ghost before = desired@;
        if let Some(u) = &art_urls[i] {
            if !contains_str(fetched, u.as_str()) && !contains_str(&desired, u.as_str()) {
                desired.push(u.clone());
            }
        }
        proof {
            assert forall|u: Seq<char>| #[trigger] str_set(desired@).contains(u) <==> (
                (exists|k: int| 0 <= k < i + 1 && shows_url(art_urls@[k], u))
                    && !str_set(fetched@).contains(u)) by {
                if str_set(desired@).contains(u) {
                    let j = choose|j: int| 0 <= j < desired@.len() && desired@[j]@ == u;
                    if j < before.len() {
                        assert(before[j] == desired@[j]);
                        assert(str_set(before).contains(u));
                    }
                }
                if str_set(before).contains(u) {
                    let j = choose|j: int| 0 <= j < before.len() && before[j]@ == u;
                    assert(desired@[j] == before[j]);
                }
                if (exists|k: int| 0 <= k < i + 1 && shows_url(art_urls@[k], u))
                    && !str_set(fetched@).contains(u) {
                    let k = choose|k: int| 0 <= k < i + 1 && shows_url(art_urls@[k], u);
                    if k == i && !str_set(before).contains(u) {
                        assert(desired@[desired@.len() - 1]@ == u);
                    }
                }
            }
        }
        i = i + 1;
    }
    assert(str_set(desired@) =~= wanted);
    let mut abort: Vec<String> = Vec::new();
    let mut j: usize = 0;
    while j < in_flight.len()
        invariant
            j <= in_flight@.len(),
            str_set(desired@) == wanted,
            forall|u: Seq<char>| #[trigger] str_set(abort@).contains(u) <==> (
                (exists|k: int| 0 <= k < j && in_flight@[k]@ == u) && !wanted.contains(u)),
        decreases in_flight@.len() - j,
    {
        let ghost before = abort@;
        if !contains_str(&desired, in_flight[j].as_str()) {
            abort.push(in_flight[j].clone());
        }
        proof {
            assert forall|u: Seq<char>| #[trigger] str_set(abort@).contains(u) <==> (
                (exists|k: int| 0 <= k < j + 1 && in_flight@[k]@ == u) && !wanted.contains(u)) by {
                if str_set(abort@).contains(u) {
                    let a = choose|a: int| 0 <= a < abort@.len() && abort@[a]@ == u;
                    if a < before.len() {
                        assert(before[a] == abort@[a]);
                        assert(str_set(before).contains(u));
                    }
                }
                if str_set(before).contains(u) {
                    let a = choose|a: int| 0 <= a < before.len() && before[a]@ == u;
                    assert(abort@[a] == before[a]);
                }
                if (exists|k: int| 0 <= k < j + 1 && in_flight@[k]@ == u) && !wanted.contains(u) {
                    let k = choose|k: int| 0 <= k < j + 1 && in_flight@[k]@ == u;
                    if k == j {
                        assert(abort@[abort@.len() - 1]@ == u);
                    }
                }
            }
        }
        j = j + 1;
    }
    assert(str_set(abort@) =~= str_set(in_flight@).difference(wanted));
    let mut start: Vec<String> = Vec::new();
    let mut k: usize = 0;
    while k < desired.len()
        invariant
            k <= desired@.len(),
            str_set(desired@) == wanted,
            forall|u: Seq<char>| #[trigger] str_set(start@).contains(u) <==> (
                (exists|q: int| 0 <= q < k && desired@[q]@ == u) && !str_set(in_flight@).contains(u)),
            forall|a: int, b: int| 0 <= a < b < start@.len() ==> (#[trigger] start@[a])@ != (#[trigger] start@[b])@,
        decreases desired@.len() - k,
    {
        let ghost before = start@;
        if !contains_str(in_flight, desired[k].as_str()) && !contains_str(&start, desired[k].as_str()) {
            start.push(desired[k].clone());
        }
        proof {
            assert forall|u: Seq<char>| #[trigger] str_set(start@).contains(u) <==> (
                (exists|q: int| 0 <= q < k + 1 && desired@[q]@ == u) && !str_set(in_flight@).contains(u)) by {
                if str_set(start@).contains(u) {
                    let a = choose|a: int| 0 <= a < start@.len() && start@[a]@ == u;
                    if a < before.len() {
                        assert(before[a] == start@[a]);
                        assert(str_set(before).contains(u));
                    }
                }
                if str_set(before).contains(u) {
                    let a = choose|a: int| 0 <= a < before.len() && before[a]@ == u;
                    assert(start@[a] == before[a]);
                }
                if (exists|q: int| 0 <= q < k + 1 && desired@[q]@ == u) && !str_set(in_flight@).contains(u) {
                    let q = choose|q: int| 0 <= q < k + 1 && desired@[q]@ == u;
                    if q == k && !str_set(before).contains(u) {
                        assert(start@[start@.len() - 1]@ == u);
                    }
                }
            }
            assert forall|a: int, b: int| 0 <= a < b < start@.len() implies (#[trigger] start@[a])@ != (#[trigger] start@[b])@ by {
                if b == before.len() {
                    assert(start@[a] == before[a]);
                    assert(str_set(before).contains(before[a]@));
                } else {
                    assert(start@[a] == before[a] && start@[b] == before[b]);
                }
            }
        }
        k = k + 1;
    }
    assert(str_set(start@) =~= wanted.difference(str_set(in_flight@)));
    CoverPlan { abort, start }
}

} // verus!
