//! Stable ordering of items by an integer key.

use vstd::prelude::*;

verus! {

/// `perm` lists every position of `keys` once, by increasing key, equal
/// keys in their original order.
pub open spec fn stably_sorted(keys: Seq<i64>, perm: Seq<usize>) -> bool {
    &&& perm.len() == keys.len()
    &&& forall|i: int| 0 <= i < perm.len() ==> (#[trigger] perm[i]) < keys.len()
    &&& forall|i: int, j: int| 0 <= i < j < perm.len() ==> #[trigger] perm[i] != #[trigger] perm[j]
    &&& forall|i: int, j: int|
        0 <= i < j < perm.len() ==> keys[#[trigger] perm[i] as int] <= keys[#[trigger] perm[j] as int]
    &&& forall|i: int, j: int|
        0 <= i < j < perm.len() && keys[#[trigger] perm[i] as int] == keys[#[trigger] perm[j] as int] ==> perm[i]
            < perm[j]
}

/// The positions of `keys` in stable ascending order of key, as a stable
/// sort by key would leave the items.
pub fn stable_order(keys: &Vec<i64>) -> (perm: Vec<usize>)
    ensures
        stably_sorted(keys@, perm@),
{
    let mut perm: Vec<usize> = Vec::new();
    let mut k: usize = 0;
    while k < keys.len()
        invariant
            k <= keys@.len(),
            perm@.len() == k,
            forall|i: int| 0 <= i < perm@.len() ==> (#[trigger] perm@[i]) < k,
            forall|i: int, j: int| 0 <= i < j < perm@.len() ==> #[trigger] perm@[i] != #[trigger] perm@[j],
            forall|i: int, j: int|
                0 <= i < j < perm@.len() ==> keys@[#[trigger] perm@[i] as int] <= keys@[#[trigger] perm@[j] as int],
            forall|i: int, j: int|
                0 <= i < j < perm@.len() && keys@[#[trigger] perm@[i] as int] == keys@[#[trigger] perm@[j] as int]
                    ==> perm@[i] < perm@[j],
        decreases keys@.len() - k,
    {
        let key = keys[k];
        let mut p: usize = 0;
        while p < perm.len() && keys[perm[p]] <= key
            invariant
                p <= perm@.len(),
                forall|i: int| 0 <= i < perm@.len() ==> (#[trigger] perm@[i]) < keys@.len(),
                forall|q: int| 0 <= q < p ==> keys@[#[trigger] perm@[q] as int] <= key,
            decreases perm@.len() - p,
        {
            p = p + 1;
        }
        let ghost before = perm@;
        proof {
            assert forall|q: int| p <= q < before.len() implies key < keys@[#[trigger] before[q] as int] by {
                if q > p {
                    assert(keys@[before[p as int] as int] <= keys@[before[q] as int]);
                }
            }
        }
        perm.insert(p, k);
        proof {
            let now = perm@;
            assert(now =~= before.insert(p as int, k));
            assert forall|i: int, j: int| 0 <= i < j < now.len() implies #[trigger] now[i] != #[trigger] now[j] by {
                if i < p && j < p {
                    assert(now[i] == before[i] && now[j] == before[j]);
                } else if i < p && j > p {
                    assert(now[i] == before[i] && now[j] == before[j - 1]);
                } else if i > p && j > p {
                    assert(now[i] == before[i - 1] && now[j] == before[j - 1]);
                } else if i < p {
                    assert(now[i] == before[i]);
                } else {
                    assert(now[j] == before[j - 1]);
                }
            }
            assert forall|i: int, j: int|
                0 <= i < j < now.len() implies keys@[#[trigger] now[i] as int] <= keys@[#[trigger] now[j] as int] by {
                if i < p && j < p {
                    assert(now[i] == before[i] && now[j] == before[j]);
                } else if i < p && j > p {
                    assert(now[i] == before[i] && now[j] == before[j - 1]);
                } else if i > p && j > p {
                    assert(now[i] == before[i - 1] && now[j] == before[j - 1]);
                } else if i < p {
                    assert(now[i] == before[i]);
                } else {
                    assert(now[j] == before[j - 1]);
                }
            }
            assert forall|i: int, j: int|
                0 <= i < j < now.len() && keys@[#[trigger] now[i] as int] == keys@[#[trigger] now[j] as int]
                    implies now[i] < now[j] by {
                if i < p && j < p {
                    assert(now[i] == before[i] && now[j] == before[j]);
                } else if i < p && j > p {
                    assert(now[i] == before[i] && now[j] == before[j - 1]);
                } else if i > p && j > p {
                    assert(now[i] == before[i - 1] && now[j] == before[j - 1]);
                } else if i < p {
                    assert(now[i] == before[i]);
                } else {
                    assert(now[j] == before[j - 1]);
                }
            }
        }
        k = k + 1;
    }
    perm
}

/// Strictly increasing: sorted, each value once.
pub open spec fn strictly_increasing(s: Seq<i32>) -> bool {
    forall|i: int, j: int| 0 <= i < j < s.len() ==> #[trigger] s[i] < #[trigger] s[j]
}

/// Adds a value to a strictly increasing list, unless it is there already.
pub fn insert_unique(v: &mut Vec<i32>, x: i32)
    requires
        strictly_increasing(old(v)@),
    ensures
        strictly_increasing(final(v)@),
        final(v)@.to_set() == old(v)@.to_set().insert(x),
{
    let mut p: usize = 0;
    while p < v.len() && v[p] < x
        invariant
            p <= v@.len(),
            forall|q: int| 0 <= q < p ==> #[trigger] v@[q] < x,
        decreases v@.len() - p,
    {
        p = p + 1;
    }
    let ghost before = v@;
    if p < v.len() && v[p] == x {
        assert(before.to_set().insert(x) =~= before.to_set()) by {
            assert(before.to_set().contains(before[p as int]));
        }
        return;
    }
    proof {
        assert forall|q: int| p <= q < before.len() implies x < #[trigger] before[q] by {
            if q > p {
                assert(before[p as int] < before[q]);
            }
        }
    }
    v.insert(p, x);
    proof {
        let now = v@;
        assert(now =~= before.insert(p as int, x));
        assert forall|i: int, j: int| 0 <= i < j < now.len() implies #[trigger] now[i] < #[trigger] now[j] by {
            if i < p && j < p {
                assert(now[i] == before[i] && now[j] == before[j]);
            } else if i < p && j > p {
                assert(now[i] == before[i] && now[j] == before[j - 1]);
            } else if i > p && j > p {
                assert(now[i] == before[i - 1] && now[j] == before[j - 1]);
            } else if i < p {
                assert(now[i] == before[i]);
            } else {
                assert(now[j] == before[j - 1]);
            }
        }
        assert forall|y: i32| now.to_set().contains(y) <==> before.to_set().insert(x).contains(y) by {
            if now.to_set().contains(y) {
                let i = choose|i: int| 0 <= i < now.len() && now[i] == y;
                if i < p {
                    assert(now[i] == before[i]);
                } else if i > p {
                    assert(now[i] == before[i - 1]);
                }
            }
            if before.to_set().contains(y) {
                let i = choose|i: int| 0 <= i < before.len() && before[i] == y;
                if i < p {
                    assert(now[i] == before[i]);
                } else {
                    assert(now[i + 1] == before[i]);
                }
            }
            if y == x {
                assert(now[p as int] == x);
            }
        }
        assert(now.to_set() =~= before.to_set().insert(x));
    }
}

} // verus!
