//! Small maps keyed by strings, held as vectors of entries with distinct
//! keys, and what they stand for as maps.

use crate::text::str_eq;
use vstd::prelude::*;

verus! {

/// No key occurs twice.
pub open spec fn keys_unique<V>(s: Seq<(String, V)>) -> bool {
    forall|i: int, j: int| 0 <= i < j < s.len() ==> #[trigger] s[i].0@ != #[trigger] s[j].0@
}

/// The map the entries stand for.
pub open spec fn keyed_map<V>(s: Seq<(String, V)>) -> Map<Seq<char>, V> {
    Map::new(
        |k: Seq<char>| exists|i: int| 0 <= i < s.len() && s[i].0@ == k,
        |k: Seq<char>| s[choose|i: int| 0 <= i < s.len() && s[i].0@ == k].1,
    )
}

pub proof fn lemma_keyed_at<V>(s: Seq<(String, V)>, i: int)
    requires
        keys_unique(s),
        0 <= i < s.len(),
    ensures
        keyed_map(s).contains_key(s[i].0@),
        keyed_map(s)[s[i].0@] == s[i].1,
{
    let k = choose|k: int| 0 <= k < s.len() && s[k].0@ == s[i].0@;
    if k < i {
        assert(s[k].0@ != s[i].0@);
    } else if k > i {
        assert(s[i].0@ != s[k].0@);
    }
}

pub proof fn lemma_keyed_push<V>(s: Seq<(String, V)>, e: (String, V))
    requires
        keys_unique(s),
        !keyed_map(s).contains_key(e.0@),
    ensures
        keys_unique(s.push(e)),
        keyed_map(s.push(e)) == keyed_map(s).insert(e.0@, e.1),
{
    let t = s.push(e);
    assert forall|i: int, j: int| 0 <= i < j < t.len() implies #[trigger] t[i].0@
        != #[trigger] t[j].0@ by {
        if j == s.len() {
            assert(t[i] == s[i]);
            lemma_keyed_at(s, i);
        } else {
            assert(t[i] == s[i] && t[j] == s[j]);
        }
    }
    let now = keyed_map(t);
    let target = keyed_map(s).insert(e.0@, e.1);
    assert forall|k: Seq<char>|
        #![trigger now.dom().contains(k)]
        #![trigger target.dom().contains(k)]
        now.dom().contains(k) == target.dom().contains(k) && (now.dom().contains(k) ==> now[k]
            == target[k]) by {
        if now.dom().contains(k) {
            let i = choose|i: int| 0 <= i < t.len() && t[i].0@ == k;
            lemma_keyed_at(t, i);
            if i < s.len() {
                assert(t[i] == s[i]);
                lemma_keyed_at(s, i);
            }
        }
        if keyed_map(s).contains_key(k) {
            let i = choose|i: int| 0 <= i < s.len() && s[i].0@ == k;
            assert(t[i] == s[i]);
        }
        if k == e.0@ {
            lemma_keyed_at(t, s.len() as int);
        }
    }
    assert(now =~= target);
}

pub proof fn lemma_keyed_update<V>(s: Seq<(String, V)>, i: int, e: (String, V))
    requires
        keys_unique(s),
        0 <= i < s.len(),
        e.0@ == s[i].0@,
    ensures
        keys_unique(s.update(i, e)),
        keyed_map(s.update(i, e)) == keyed_map(s).insert(e.0@, e.1),
{
    let t = s.update(i, e);
    assert forall|a: int, b: int| 0 <= a < b < t.len() implies #[trigger] t[a].0@
        != #[trigger] t[b].0@ by {
        assert(t[a].0@ == s[a].0@ && t[b].0@ == s[b].0@);
    }
    let now = keyed_map(t);
    let target = keyed_map(s).insert(e.0@, e.1);
    assert forall|k: Seq<char>|
        #![trigger now.dom().contains(k)]
        #![trigger target.dom().contains(k)]
        now.dom().contains(k) == target.dom().contains(k) && (now.dom().contains(k) ==> now[k]
            == target[k]) by {
        if now.dom().contains(k) {
            let j = choose|j: int| 0 <= j < t.len() && t[j].0@ == k;
            lemma_keyed_at(t, j);
            if j != i {
                assert(t[j] == s[j]);
                lemma_keyed_at(s, j);
            }
        }
        if keyed_map(s).contains_key(k) {
            let j = choose|j: int| 0 <= j < s.len() && s[j].0@ == k;
            assert(t[j].0@ == s[j].0@);
        }
        if k == e.0@ {
            lemma_keyed_at(t, i);
        }
    }
    assert(now =~= target);
}

pub proof fn lemma_keyed_remove<V>(s: Seq<(String, V)>, i: int)
    requires
        keys_unique(s),
        0 <= i < s.len(),
    ensures
        keys_unique(s.remove(i)),
        keyed_map(s.remove(i)) == keyed_map(s).remove(s[i].0@),
{
    let t = s.remove(i);
    assert forall|a: int, b: int| 0 <= a < b < t.len() implies #[trigger] t[a].0@
        != #[trigger] t[b].0@ by {
        let a2 = if a < i { a } else { a + 1 };
        let b2 = if b < i { b } else { b + 1 };
        assert(t[a] == s[a2] && t[b] == s[b2]);
    }
    let now = keyed_map(t);
    let target = keyed_map(s).remove(s[i].0@);
    assert forall|k: Seq<char>|
        #![trigger now.dom().contains(k)]
        #![trigger target.dom().contains(k)]
        now.dom().contains(k) == target.dom().contains(k) && (now.dom().contains(k) ==> now[k]
            == target[k]) by {
        if now.dom().contains(k) {
            let j = choose|j: int| 0 <= j < t.len() && t[j].0@ == k;
            lemma_keyed_at(t, j);
            let j2 = if j < i { j } else { j + 1 };
            assert(t[j] == s[j2]);
            lemma_keyed_at(s, j2);
            assert(s[j2].0@ != s[i].0@);
        }
        if target.dom().contains(k) {
            let j = choose|j: int| 0 <= j < s.len() && s[j].0@ == k;
            assert(j != i);
            let j2 = if j < i { j } else { j - 1 };
            assert(t[j2] == s[j]);
        }
    }
    assert(now =~= target);
}

/// The index of the entry with the given key.
pub fn index_of_key<V>(entries: &Vec<(String, V)>, key: &str) -> (r: Option<usize>)
    requires
        keys_unique(entries@),
    ensures
        match r {
            Some(i) => i < entries@.len() && entries@[i as int].0@ == key@,
            None => !keyed_map(entries@).contains_key(key@),
        },
{
    let mut i: usize = 0;
    while i < entries.len()
        invariant
            i <= entries@.len(),
            forall|j: int| 0 <= j < i ==> entries@[j].0@ != key@,
        decreases entries@.len() - i,
    {
        if str_eq(entries[i].0.as_str(), key) {
            return Some(i);
        }
        i = i + 1;
    }
    None
}

/// Sets the value of a key, adding the entry when the key is new.
pub fn put<V>(entries: &mut Vec<(String, V)>, key: &str, value: V)
    requires
        keys_unique(old(entries)@),
    ensures
        keys_unique(final(entries)@),
        keyed_map(final(entries)@) == keyed_map(old(entries)@).insert(key@, value),
{
    match index_of_key(entries, key) {
        Some(i) => {
            let ghost before = entries@;
            let e = (key.to_owned(), value);
            proof {
                lemma_keyed_update(before, i as int, e);
            }
            entries.set(i, e);
        },
        None => {
            let e = (key.to_owned(), value);
            proof {
                lemma_keyed_push(entries@, e);
            }
            entries.push(e);
        },
    }
}

/// Drops the entry of a key, if there is one.
pub fn drop_key<V>(entries: &mut Vec<(String, V)>, key: &str)
    requires
        keys_unique(old(entries)@),
    ensures
        keys_unique(final(entries)@),
        keyed_map(final(entries)@) == keyed_map(old(entries)@).remove(key@),
{
    match index_of_key(entries, key) {
        Some(i) => {
            proof {
                lemma_keyed_remove(entries@, i as int);
            }
            entries.remove(i);
        },
        None => {
            assert(keyed_map(entries@).remove(key@) =~= keyed_map(entries@));
        },
    }
}

} // verus!
