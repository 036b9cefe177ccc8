//! The network model: NetworkManager's states, the access points around,
//! the active and known connections, and Tailscale.

pub mod dbus;
pub mod iwd;
pub mod service;
pub mod tailscale;

use self::dbus::{ConnectivityState, DeviceState};
use crate::text::{lemma_lex_asym, lemma_lex_total, lemma_lex_trans, lex_lt, str_eq, str_lt};
use vstd::prelude::*;

verus! {

/// A Wi-Fi access point, seen through one wireless device.
pub struct AccessPoint {
    pub ssid: String,
    pub strength: u8,
    pub state: DeviceState,
    pub public: bool,
    pub working: bool,
    pub path: String,
    pub device_path: String,
}

/// Two access point values agree field by field.
pub open spec fn same_ap(a: AccessPoint, b: AccessPoint) -> bool {
    &&& a.ssid@ == b.ssid@
    &&& a.strength == b.strength
    &&& a.state == b.state
    &&& a.public == b.public
    &&& a.working == b.working
    &&& a.path@ == b.path@
    &&& a.device_path@ == b.device_path@
}

impl AccessPoint {
    pub fn duplicate(&self) -> (r: AccessPoint)
        ensures
            same_ap(r, *self),
    {
        AccessPoint {
            ssid: self.ssid.clone(),
            strength: self.strength,
            state: self.state,
            public: self.public,
            working: self.working,
            path: self.path.clone(),
            device_path: self.device_path.clone(),
        }
    }
}

/// An access point is public when it advertises no privacy flags.
pub fn is_public(flags: u32) -> (r: bool)
    ensures
        r == (flags == 0),
{
    flags == 0
}

/// A configured VPN connection.
pub struct Vpn {
    pub name: String,
    pub path: String,
}

/// A connection NetworkManager knows: an access point in range with a
/// saved profile, or a VPN.
pub enum KnownConnection {
    AccessPoint(AccessPoint),
    Vpn(Vpn),
}

/// An active connection.
pub enum ActiveConnectionInfo {
    Wired { name: String },
    WiFi { name: String, strength: u8 },
    Vpn { name: String, object_path: String },
}

pub open spec fn connection_name(c: ActiveConnectionInfo) -> Seq<char> {
    match c {
        ActiveConnectionInfo::Wired { name } => name@,
        ActiveConnectionInfo::WiFi { name, .. } => name@,
        ActiveConnectionInfo::Vpn { name, .. } => name@,
    }
}

/// The listing rank of a connection: VPNs, then wired, then Wi-Fi.
pub open spec fn connection_rank(c: ActiveConnectionInfo) -> int {
    match c {
        ActiveConnectionInfo::Vpn { .. } => 0,
        ActiveConnectionInfo::Wired { .. } => 1,
        ActiveConnectionInfo::WiFi { .. } => 2,
    }
}

impl ActiveConnectionInfo {
    pub fn name(&self) -> (r: &str)
        ensures
            r@ == connection_name(*self),
    {
        match self {
            ActiveConnectionInfo::Wired { name } => name.as_str(),
            ActiveConnectionInfo::WiFi { name, .. } => name.as_str(),
            ActiveConnectionInfo::Vpn { name, .. } => name.as_str(),
        }
    }

    fn rank(&self) -> (r: u8)
        ensures
            r == connection_rank(*self),
    {
        match self {
            ActiveConnectionInfo::Vpn { .. } => 0,
            ActiveConnectionInfo::Wired { .. } => 1,
            ActiveConnectionInfo::WiFi { .. } => 2,
        }
    }
}

/// `a` lists before `b`: by rank, then by name.
pub open spec fn conn_before(a: ActiveConnectionInfo, b: ActiveConnectionInfo) -> bool {
    connection_rank(a) < connection_rank(b) || (connection_rank(a) == connection_rank(b) && lex_lt(
        connection_name(a),
        connection_name(b),
    ))
}

proof fn lemma_conn_order(a: ActiveConnectionInfo, b: ActiveConnectionInfo, c: ActiveConnectionInfo)
    ensures
        !(conn_before(a, b) && conn_before(b, a)),
        conn_before(a, b) && conn_before(b, c) ==> conn_before(a, c),
        !conn_before(a, b) && !conn_before(b, a) ==> connection_rank(a) == connection_rank(b)
            && connection_name(a) == connection_name(b),
{
    lemma_lex_asym(connection_name(a), connection_name(b));
    lemma_lex_total(connection_name(a), connection_name(b));
    if lex_lt(connection_name(a), connection_name(b)) && lex_lt(connection_name(b), connection_name(c)) {
        lemma_lex_trans(connection_name(a), connection_name(b), connection_name(c));
    }
}

/// `out` is `input` sorted stably: VPNs, then wired, then Wi-Fi, each by
/// name; `p[i]` is the input position of `out[i]`.
pub open spec fn stable_conn_sort(out: Seq<ActiveConnectionInfo>, input: Seq<ActiveConnectionInfo>, p: Seq<int>) -> bool {
    &&& p.len() == out.len() == input.len()
    &&& forall|i: int| 0 <= i < out.len() ==> 0 <= #[trigger] p[i] < input.len() && out[i] == input[p[i]]
    &&& forall|i: int, j: int| 0 <= i < j < out.len() ==> #[trigger] p[i] != #[trigger] p[j]
    &&& forall|i: int, j: int| 0 <= i < j < out.len() ==> !conn_before(#[trigger] out[j], #[trigger] out[i])
    &&& forall|i: int, j: int|
        0 <= i < j < out.len() && !conn_before(#[trigger] out[i], #[trigger] out[j]) ==> p[i] < p[j]
}

/// The active connections in listing order.
pub fn sort_active_connections(info: Vec<ActiveConnectionInfo>) -> (r: Vec<ActiveConnectionInfo>)
    ensures
        exists|p: Seq<int>| #[trigger] stable_conn_sort(r@, info@, p),
{
    let ghost input = info@;
    let n = info.len();
    let mut rest = info;
    let mut reversed: Vec<ActiveConnectionInfo> = Vec::new();
    while rest.len() > 0
        invariant
            input == rest@ + reversed@.reverse(),
        decreases rest@.len(),
    {
        let x = rest.pop().unwrap();
        let ghost before = reversed@;
        reversed.push(x);
        assert(reversed@.reverse() =~= seq![x] + before.reverse());
        assert(input =~= rest@ + reversed@.reverse());
    }
    assert(input =~= reversed@.reverse());
    let mut out: Vec<ActiveConnectionInfo> = Vec::new();
    let ghost mut perm: Seq<int> = Seq::empty();
    let ghost mut k: int = 0;
    while reversed.len() > 0
        invariant
            input == input.take(k) + reversed@.reverse(),
            0 <= k <= input.len(),
            out@.len() == k,
            perm.len() == k,
            forall|i: int| 0 <= i < k ==> 0 <= #[trigger] perm[i] < k && out@[i] == input[perm[i]],
            forall|i: int, j: int| 0 <= i < j < k ==> #[trigger] perm[i] != #[trigger] perm[j],
            forall|i: int, j: int| 0 <= i < j < k ==> !conn_before(#[trigger] out@[j], #[trigger] out@[i]),
            forall|i: int, j: int|
                0 <= i < j < k && !conn_before(#[trigger] out@[i], #[trigger] out@[j]) ==> perm[i] < perm[j],
        decreases reversed@.len(),
    {
        let ghost rb = reversed@;
        let x = reversed.pop().unwrap();
        proof {
            assert(rb.reverse() =~= seq![x] + reversed@.reverse());
            assert(input[k] == x);
            assert(input =~= input.take(k + 1) + reversed@.reverse());
        }
        let xr = x.rank();
        let mut q: usize = 0;
        while q < out.len() && !(xr < out[q].rank() || (xr == out[q].rank() && str_lt(x.name(), out[q].name())))
            invariant
                xr == connection_rank(x),
                q <= out@.len(),
                forall|t: int| 0 <= t < q ==> !conn_before(x, #[trigger] out@[t]),
            decreases out@.len() - q,
        {
            q = q + 1;
        }
        let ghost before = out@;
        let ghost pbefore = perm;
        proof {
            assert forall|t: int| q <= t < before.len() implies conn_before(x, #[trigger] before[t]) by {
                if t > q {
                    lemma_conn_order(before[t], before[q as int], x);
                    lemma_conn_order(x, before[q as int], before[t]);
                    if !conn_before(before[q as int], before[t]) {
                        lemma_conn_order(before[q as int], before[t], x);
                    }
                }
            }
        }
        out.insert(q, x);
        proof {
            perm = pbefore.insert(q as int, k);
            let now = out@;
            assert(now =~= before.insert(q as int, x));
            assert forall|i: int| 0 <= i < k + 1 implies 0 <= #[trigger] perm[i] < k + 1 && now[i] == input[perm[i]] by {
                if i < q {
                    assert(now[i] == before[i] && perm[i] == pbefore[i]);
                } else if i > q {
                    assert(now[i] == before[i - 1] && perm[i] == pbefore[i - 1]);
                }
            }
            assert forall|i: int, j: int| 0 <= i < j < k + 1 implies #[trigger] perm[i] != #[trigger] perm[j] by {
                if i < q && j < q {
                    assert(perm[i] == pbefore[i] && perm[j] == pbefore[j]);
                } else if i < q && j > q {
                    assert(perm[i] == pbefore[i] && perm[j] == pbefore[j - 1]);
                } else if i > q && j > q {
                    assert(perm[i] == pbefore[i - 1] && perm[j] == pbefore[j - 1]);
                } else if i < q {
                    assert(perm[i] == pbefore[i] && 0 <= pbefore[i] < k);
                } else {
                    assert(perm[j] == pbefore[j - 1] && 0 <= pbefore[j - 1] < k);
                }
            }
            assert forall|i: int, j: int| 0 <= i < j < k + 1 implies !conn_before(#[trigger] now[j], #[trigger] now[i]) by {
                if i < q && j < q {
                    assert(now[i] == before[i] && now[j] == before[j]);
                } else if i < q && j > q {
                    assert(now[i] == before[i] && now[j] == before[j - 1]);
                } else if i > q && j > q {
                    assert(now[i] == before[i - 1] && now[j] == before[j - 1]);
                } else if i < q {
                    assert(now[i] == before[i]);
                } else {
                    assert(now[j] == before[j - 1]);
                    lemma_conn_order(x, before[j - 1], x);
                }
            }
            assert forall|i: int, j: int|
                0 <= i < j < k + 1 && !conn_before(#[trigger] now[i], #[trigger] now[j]) implies perm[i] < perm[j] by {
                if i < q && j < q {
                    assert(now[i] == before[i] && now[j] == before[j]);
                    assert(perm[i] == pbefore[i] && perm[j] == pbefore[j]);
                } else if i < q && j > q {
                    assert(now[i] == before[i] && now[j] == before[j - 1]);
                    assert(perm[i] == pbefore[i] && perm[j] == pbefore[j - 1]);
                } else if i > q && j > q {
                    assert(now[i] == before[i - 1] && now[j] == before[j - 1]);
                    assert(perm[i] == pbefore[i - 1] && perm[j] == pbefore[j - 1]);
                } else if i < q {
                    assert(now[i] == before[i] && perm[i] == pbefore[i] && 0 <= pbefore[i] < k);
                } else {
                    assert(now[j] == before[j - 1]);
                }
            }
            k = k + 1;
        }
    }
    assert(input.take(k) =~= input);
    assert(stable_conn_sort(out@, input, perm));
    out
}

/// `k` is the access point kept for its SSID: the strongest, and among
/// equally strong ones the last seen.
pub open spec fn kept_ap(aps: Seq<AccessPoint>, k: int) -> bool {
    &&& 0 <= k < aps.len()
    &&& forall|j: int|
        0 <= j < aps.len() && (#[trigger] aps[j]).ssid@ == aps[k].ssid@ ==> aps[j].strength <= aps[k].strength
            && (j > k ==> aps[j].strength < aps[k].strength)
}

/// `x` is an access point `kept_ap` picks.
pub open spec fn from_kept(aps: Seq<AccessPoint>, x: AccessPoint) -> bool {
    exists|k: int| #[trigger] kept_ap(aps, k) && same_ap(x, aps[k])
}

/// Some access point of `r` has the SSID.
pub open spec fn has_ssid(r: Seq<AccessPoint>, ssid: Seq<char>) -> bool {
    exists|i: int| 0 <= i < r.len() && (#[trigger] r[i]).ssid@ == ssid
}

/// One access point per SSID, as seen by one device: the one `kept_ap`
/// picks, each SSID once.
pub open spec fn deduplicated(r: Seq<AccessPoint>, aps: Seq<AccessPoint>) -> bool {
    &&& forall|i: int, j: int| 0 <= i < j < r.len() ==> (#[trigger] r[i]).ssid@ != (#[trigger] r[j]).ssid@
    &&& forall|i: int| 0 <= i < r.len() ==> from_kept(aps, #[trigger] r[i])
    &&& forall|k: int| 0 <= k < aps.len() ==> has_ssid(r, (#[trigger] aps[k]).ssid@)
}

/// Keeps one access point per SSID: the strongest, the last of equally
/// strong ones.
pub fn dedup_access_points(aps: &Vec<AccessPoint>) -> (r: Vec<AccessPoint>)
    ensures
        deduplicated(r@, aps@),
{
    let mut r: Vec<AccessPoint> = Vec::new();
    let mut i: usize = 0;
    while i < aps.len()
        invariant
            i <= aps@.len(),
            forall|a: int, b: int| 0 <= a < b < r@.len() ==> (#[trigger] r@[a]).ssid@ != (#[trigger] r@[b]).ssid@,
            forall|a: int| 0 <= a < r@.len() ==> from_kept(aps@.take(i as int), #[trigger] r@[a]),
            forall|k: int| 0 <= k < i ==> has_ssid(r@, (#[trigger] aps@[k]).ssid@),
        decreases aps@.len() - i,
    {
        let ghost t = aps@.take(i as int);
        let ghost t2 = aps@.take(i + 1);
        let ghost before = r@;
        let mut e: usize = 0;
        while e < r.len() && !str_eq(r[e].ssid.as_str(), aps[i].ssid.as_str())
            invariant
                i < aps@.len(),
                e <= r@.len(),
                forall|a: int| 0 <= a < e ==> (#[trigger] r@[a]).ssid@ != aps@[i as int].ssid@,
            decreases r@.len() - e,
        {
            e = e + 1;
        }
        if e < r.len() {
            if r[e].strength > aps[i].strength {
                proof {
                    assert forall|a: int| 0 <= a < r@.len() implies from_kept(t2, #[trigger] r@[a]) by {
                        let k = choose|k: int| #[trigger] kept_ap(t, k) && same_ap(r@[a], aps@[k]);
                        assert(kept_ap(t2, k)) by {
                            assert forall|j: int|
                                0 <= j < t2.len() && (#[trigger] t2[j]).ssid@ == t2[k].ssid@ implies t2[j].strength <= t2[k].strength
                                    && (j > k ==> t2[j].strength < t2[k].strength) by {
                                if j == i {
                                    if a != e {
                                        assert(r@[a].ssid@ != r@[e as int].ssid@ || a == e);
                                    }
                                    let ke = choose|ke: int| #[trigger] kept_ap(t, ke) && same_ap(r@[e as int], aps@[ke]);
                                    if a != e {
                                        assert(t[ke].ssid@ == t[k].ssid@);
                                        assert(t[ke].strength <= t[k].strength);
                                        assert(t[k].strength <= t[ke].strength);
                                    }
                                } else {
                                    assert(t2[j] == t[j]);
                                }
                            }
                        }
                    }
                    assert forall|k: int| 0 <= k < i + 1 implies has_ssid(r@, (#[trigger] aps@[k]).ssid@) by {
                        if k == i {
                            assert(r@[e as int].ssid@ == aps@[k].ssid@);
                        }
                    }
                }
            } else {
                let d = aps[i].duplicate();
                r.set(e, d);
                proof {
                    assert(kept_ap(t2, i as int)) by {
                        assert forall|j: int|
                            0 <= j < t2.len() && (#[trigger] t2[j]).ssid@ == t2[i as int].ssid@ implies t2[j].strength <= t2[i as int].strength
                                && (j > i ==> t2[j].strength < t2[i as int].strength) by {
                            if j < i {
                                assert(t2[j] == t[j]);
                                let ke = choose|ke: int| #[trigger] kept_ap(t, ke) && same_ap(before[e as int], aps@[ke]);
                                assert(t[ke].ssid@ == t[j].ssid@);
                                assert(t[j].strength <= t[ke].strength);
                            }
                        }
                    }
                    assert forall|a: int, b: int| 0 <= a < b < r@.len() implies (#[trigger] r@[a]).ssid@ != (#[trigger] r@[b]).ssid@ by {
                        assert(r@[a].ssid@ == before[a].ssid@ && r@[b].ssid@ == before[b].ssid@);
                    }
                    assert forall|a: int| 0 <= a < r@.len() implies from_kept(t2, #[trigger] r@[a]) by {
                        if a == e {
                            assert(kept_ap(t2, i as int));
                        } else {
                            assert(r@[a] == before[a]);
                            let k = choose|k: int| #[trigger] kept_ap(t, k) && same_ap(before[a], aps@[k]);
                            assert(kept_ap(t2, k)) by {
                                assert forall|j: int|
                                    0 <= j < t2.len() && (#[trigger] t2[j]).ssid@ == t2[k].ssid@ implies t2[j].strength <= t2[k].strength
                                        && (j > k ==> t2[j].strength < t2[k].strength) by {
                                    if j == i {
                                        assert(before[a].ssid@ != before[e as int].ssid@);
                                    } else {
                                        assert(t2[j] == t[j]);
                                    }
                                }
                            }
                        }
                    }
                    assert forall|k: int| 0 <= k < i + 1 implies has_ssid(r@, (#[trigger] aps@[k]).ssid@) by {
                        let a = choose|a: int| 0 <= a < before.len() && (#[trigger] before[a]).ssid@ == aps@[k].ssid@;
                        if k == i {
                            assert(r@[e as int].ssid@ == aps@[k].ssid@);
                        } else {
                            assert(r@[a].ssid@ == before[a].ssid@);
                        }
                    }
                }
            }
        } else {
            let d = aps[i].duplicate();
            r.push(d);
            proof {
                assert(kept_ap(t2, i as int)) by {
                    assert forall|j: int|
                        0 <= j < t2.len() && (#[trigger] t2[j]).ssid@ == t2[i as int].ssid@ implies t2[j].strength <= t2[i as int].strength
                            && (j > i ==> t2[j].strength < t2[i as int].strength) by {
                        if j < i {
                            let a = choose|a: int| 0 <= a < before.len() && (#[trigger] before[a]).ssid@ == aps@[j].ssid@;
                            assert(before[a].ssid@ != aps@[i as int].ssid@);
                        }
                    }
                }
                assert forall|a: int, b: int| 0 <= a < b < r@.len() implies (#[trigger] r@[a]).ssid@ != (#[trigger] r@[b]).ssid@ by {
                    if b == before.len() {
                        assert(r@[a] == before[a]);
                    } else {
                        assert(r@[a] == before[a] && r@[b] == before[b]);
                    }
                }
                assert forall|a: int| 0 <= a < r@.len() implies from_kept(t2, #[trigger] r@[a]) by {
                    if a == before.len() {
                        assert(kept_ap(t2, i as int));
                    } else {
                        assert(r@[a] == before[a]);
                        let k = choose|k: int| #[trigger] kept_ap(t, k) && same_ap(before[a], aps@[k]);
                        assert(kept_ap(t2, k)) by {
                            assert forall|j: int|
                                0 <= j < t2.len() && (#[trigger] t2[j]).ssid@ == t2[k].ssid@ implies t2[j].strength <= t2[k].strength
                                    && (j > k ==> t2[j].strength < t2[k].strength) by {
                                if j == i {
                                    assert(before[a].ssid@ != aps@[i as int].ssid@);
                                } else {
                                    assert(t2[j] == t[j]);
                                }
                            }
                        }
                    }
                }
                assert forall|k: int| 0 <= k < i + 1 implies has_ssid(r@, (#[trigger] aps@[k]).ssid@) by {
                    if k == i {
                        assert(r@[before.len() as int].ssid@ == aps@[k].ssid@);
                    } else {
                        let a = choose|a: int| 0 <= a < before.len() && (#[trigger] before[a]).ssid@ == aps@[k].ssid@;
                        assert(r@[a] == before[a]);
                    }
                }
            }
        }
        i = i + 1;
    }
    assert(aps@.take(aps@.len() as int) =~= aps@);
    r
}

/// `out` is `input` sorted by strength, strongest first, equally strong
/// ones in input order; `p[i]` is the input position of `out[i]`.
pub open spec fn by_strength(out: Seq<AccessPoint>, input: Seq<AccessPoint>, p: Seq<int>) -> bool {
    &&& p.len() == out.len() == input.len()
    &&& forall|i: int| 0 <= i < out.len() ==> 0 <= #[trigger] p[i] < input.len() && out[i] == input[p[i]]
    &&& forall|i: int, j: int| 0 <= i < j < out.len() ==> #[trigger] p[i] != #[trigger] p[j]
    &&& forall|i: int, j: int| 0 <= i < j < out.len() ==> (#[trigger] out[j]).strength <= (#[trigger] out[i]).strength
    &&& forall|i: int, j: int|
        0 <= i < j < out.len() && (#[trigger] out[i]).strength == (#[trigger] out[j]).strength ==> p[i] < p[j]
}

/// The access points, strongest first (a stable sort).
pub fn sort_by_strength(aps: Vec<AccessPoint>) -> (r: Vec<AccessPoint>)
    ensures
        exists|p: Seq<int>| #[trigger] by_strength(r@, aps@, p),
{
    let ghost input = aps@;
    let mut rest = aps;
    let mut reversed: Vec<AccessPoint> = Vec::new();
    while rest.len() > 0
        invariant
            input == rest@ + reversed@.reverse(),
        decreases rest@.len(),
    {
        let x = rest.pop().unwrap();
        let ghost before = reversed@;
        reversed.push(x);
        assert(reversed@.reverse() =~= seq![x] + before.reverse());
        assert(input =~= rest@ + reversed@.reverse());
    }
    assert(input =~= reversed@.reverse());
    let mut out: Vec<AccessPoint> = Vec::new();
    let ghost mut perm: Seq<int> = Seq::empty();
    let ghost mut k: int = 0;
    while reversed.len() > 0
        invariant
            input == input.take(k) + reversed@.reverse(),
            0 <= k <= input.len(),
            out@.len() == k,
            perm.len() == k,
            forall|i: int| 0 <= i < k ==> 0 <= #[trigger] perm[i] < k && out@[i] == input[perm[i]],
            forall|i: int, j: int| 0 <= i < j < k ==> #[trigger] perm[i] != #[trigger] perm[j],
            forall|i: int, j: int| 0 <= i < j < k ==> (#[trigger] out@[j]).strength <= (#[trigger] out@[i]).strength,
            forall|i: int, j: int|
                0 <= i < j < k && (#[trigger] out@[i]).strength == (#[trigger] out@[j]).strength ==> perm[i] < perm[j],
        decreases reversed@.len(),
    {
        let ghost rb = reversed@;
        let x = reversed.pop().unwrap();
        proof {
            assert(rb.reverse() =~= seq![x] + reversed@.reverse());
            assert(input[k] == x);
            assert(input =~= input.take(k + 1) + reversed@.reverse());
        }
        let mut q: usize = 0;
        while q < out.len() && out[q].strength >= x.strength
            invariant
                q <= out@.len(),
                forall|t: int| 0 <= t < q ==> (#[trigger] out@[t]).strength >= x.strength,
            decreases out@.len() - q,
        {
            q = q + 1;
        }
        let ghost before = out@;
        let ghost pbefore = perm;
        proof {
            assert forall|t: int| q <= t < before.len() implies (#[trigger] before[t]).strength < x.strength by {
                if t > q {
                    assert(before[t].strength <= before[q as int].strength);
                }
            }
        }
        out.insert(q, x);
        proof {
            perm = pbefore.insert(q as int, k);
            let now = out@;
            assert(now =~= before.insert(q as int, x));
            assert forall|i: int| 0 <= i < k + 1 implies 0 <= #[trigger] perm[i] < k + 1 && now[i] == input[perm[i]] by {
                if i < q {
                    assert(now[i] == before[i] && perm[i] == pbefore[i]);
                } else if i > q {
                    assert(now[i] == before[i - 1] && perm[i] == pbefore[i - 1]);
                }
            }
            assert forall|i: int, j: int| 0 <= i < j < k + 1 implies #[trigger] perm[i] != #[trigger] perm[j] by {
                if i < q && j < q {
                    assert(perm[i] == pbefore[i] && perm[j] == pbefore[j]);
                } else if i < q && j > q {
                    assert(perm[i] == pbefore[i] && perm[j] == pbefore[j - 1]);
                } else if i > q && j > q {
                    assert(perm[i] == pbefore[i - 1] && perm[j] == pbefore[j - 1]);
                } else if i < q {
                    assert(perm[i] == pbefore[i] && 0 <= pbefore[i] < k);
                } else {
                    assert(perm[j] == pbefore[j - 1] && 0 <= pbefore[j - 1] < k);
                }
            }
            assert forall|i: int, j: int| 0 <= i < j < k + 1 implies (#[trigger] now[j]).strength <= (#[trigger] now[i]).strength by {
                if i < q && j < q {
                    assert(now[i] == before[i] && now[j] == before[j]);
                } else if i < q && j > q {
                    assert(now[i] == before[i] && now[j] == before[j - 1]);
                } else if i > q && j > q {
                    assert(now[i] == before[i - 1] && now[j] == before[j - 1]);
                } else if i < q {
                    assert(now[i] == before[i]);
                } else {
                    assert(now[j] == before[j - 1]);
                }
            }
            assert forall|i: int, j: int|
                0 <= i < j < k + 1 && (#[trigger] now[i]).strength == (#[trigger] now[j]).strength implies perm[i] < perm[j] by {
                if i < q && j < q {
                    assert(now[i] == before[i] && now[j] == before[j]);
                    assert(perm[i] == pbefore[i] && perm[j] == pbefore[j]);
                } else if i < q && j > q {
                    assert(now[i] == before[i] && now[j] == before[j - 1]);
                    assert(perm[i] == pbefore[i] && perm[j] == pbefore[j - 1]);
                } else if i > q && j > q {
                    assert(now[i] == before[i - 1] && now[j] == before[j - 1]);
                    assert(perm[i] == pbefore[i - 1] && perm[j] == pbefore[j - 1]);
                } else if i < q {
                    assert(now[i] == before[i] && perm[i] == pbefore[i] && 0 <= pbefore[i] < k);
                } else {
                    assert(now[j] == before[j - 1]);
                }
            }
            k = k + 1;
        }
    }
    assert(input.take(k) =~= input);
    assert(by_strength(out@, input, perm));
    out
}

/// Some saved profile has the SSID.
pub open spec fn is_known(known_ssids: Seq<String>, ssid: Seq<char>) -> bool {
    exists|i: int| 0 <= i < known_ssids.len() && known_ssids[i]@ == ssid
}

/// The entry is the access point `ap`, taken whole.
pub open spec fn is_ap_entry(c: KnownConnection, ap: AccessPoint) -> bool {
    match c {
        KnownConnection::AccessPoint(a) => same_ap(a, ap),
        KnownConnection::Vpn(_) => false,
    }
}

/// The entry is the VPN `vpn`.
pub open spec fn is_vpn_entry(c: KnownConnection, vpn: Vpn) -> bool {
    match c {
        KnownConnection::AccessPoint(_) => false,
        KnownConnection::Vpn(v) => v == vpn,
    }
}

/// The access points in range with a saved profile, in order, then the
/// VPNs.
pub open spec fn known_list(r: Seq<KnownConnection>, aps: Seq<AccessPoint>, known_ssids: Seq<String>, vpns: Seq<Vpn>) -> bool {
    let saved = aps.filter(|a: AccessPoint| is_known(known_ssids, a.ssid@));
    &&& r.len() == saved.len() + vpns.len()
    &&& forall|i: int| 0 <= i < saved.len() ==> is_ap_entry(#[trigger] r[i], saved[i])
    &&& forall|i: int| 0 <= i < vpns.len() ==> is_vpn_entry(#[trigger] r[saved.len() + i], vpns[i])
}

fn ssid_known(known_ssids: &Vec<String>, ssid: &str) -> (r: bool)
    ensures
        r == is_known(known_ssids@, ssid@),
{
    let mut i: usize = 0;
    while i < known_ssids.len()
        invariant
            i <= known_ssids@.len(),
            forall|j: int| 0 <= j < i ==> known_ssids@[j]@ != ssid@,
        decreases known_ssids@.len() - i,
    {
        if str_eq(known_ssids[i].as_str(), ssid) {
            return true;
        }
        i = i + 1;
    }
    false
}

/// The known connections: access points in range whose SSID has a saved
/// profile, then the saved VPNs.
pub fn known_connections(aps: &Vec<AccessPoint>, known_ssids: &Vec<String>, vpns: Vec<Vpn>) -> (r: Vec<KnownConnection>)
    ensures
        known_list(r@, aps@, known_ssids@, vpns@),
{
    let ghost pred = |a: AccessPoint| is_known(known_ssids@, a.ssid@);
    let mut r: Vec<KnownConnection> = Vec::new();
    let mut i: usize = 0;
    while i < aps.len()
        invariant
            pred == (|a: AccessPoint| is_known(known_ssids@, a.ssid@)),
            i <= aps@.len(),
            r@.len() == aps@.take(i as int).filter(pred).len(),
            forall|j: int| 0 <= j < r@.len() ==> is_ap_entry(#[trigger] r@[j], aps@.take(i as int).filter(pred)[j]),
        decreases aps@.len() - i,
    {
        proof {
            aps@.take(i as int).lemma_filter_push(aps@[i as int], pred);
            assert(aps@.take(i + 1) =~= aps@.take(i as int).push(aps@[i as int]));
        }
        if ssid_known(known_ssids, aps[i].ssid.as_str()) {
            r.push(KnownConnection::AccessPoint(aps[i].duplicate()));
        }
        i = i + 1;
    }
    assert(aps@.take(aps@.len() as int) =~= aps@);
    let ghost saved_len = r@.len();
    let ghost first = r@;
    let mut rest = vpns;
    let mut reversed: Vec<Vpn> = Vec::new();
    let ghost all_vpns = rest@;
    while rest.len() > 0
        invariant
            all_vpns == rest@ + reversed@.reverse(),
        decreases rest@.len(),
    {
        let x = rest.pop().unwrap();
        let ghost before = reversed@;
        reversed.push(x);
        assert(reversed@.reverse() =~= seq![x] + before.reverse());
        assert(all_vpns =~= rest@ + reversed@.reverse());
    }
    assert(all_vpns =~= reversed@.reverse());
    let ghost mut k: int = 0;
    while reversed.len() > 0
        invariant
            all_vpns == all_vpns.take(k) + reversed@.reverse(),
            0 <= k <= all_vpns.len(),
            r@.len() == saved_len + k,
            forall|j: int| 0 <= j < saved_len ==> #[trigger] r@[j] == first[j],
            forall|j: int| 0 <= j < k ==> is_vpn_entry(#[trigger] r@[saved_len + j], all_vpns[j]),
        decreases reversed@.len(),
    {
        let ghost rb = reversed@;
        let x = reversed.pop().unwrap();
        proof {
            assert(rb.reverse() =~= seq![x] + reversed@.reverse());
            assert(all_vpns[k] == x);
            assert(all_vpns =~= all_vpns.take(k + 1) + reversed@.reverse());
        }
        r.push(KnownConnection::Vpn(x));
        proof {
            k = k + 1;
        }
    }
    assert(all_vpns.take(k) =~= all_vpns);
    r
}

/// What a saved connection profile is, by the setting groups it holds.
#[derive(Clone, Copy, PartialEq, Eq, Structural, Debug)]
pub enum ProfileKind {
    Wireless,
    Vpn,
    Other,
}

/// A profile with `802-11-wireless` settings is a Wi-Fi profile; one with
/// `vpn` or `wireguard` settings is a VPN.
pub fn profile_kind(has_wireless: bool, has_vpn: bool, has_wireguard: bool) -> (r: ProfileKind)
    ensures
        r == if has_wireless {
            ProfileKind::Wireless
        } else if has_vpn || has_wireguard {
            ProfileKind::Vpn
        } else {
            ProfileKind::Other
        },
{
    if has_wireless {
        ProfileKind::Wireless
    } else if has_vpn || has_wireguard {
        ProfileKind::Vpn
    } else {
        ProfileKind::Other
    }
}

/// Airplane mode blocks Bluetooth through rfkill and turns Wi-Fi off;
/// leaving it unblocks and turns Wi-Fi on: the rfkill verb and the new
/// Wi-Fi state.
pub fn airplane_mode(enable: bool) -> (r: (&'static str, bool))
    ensures
        r.0@ == (if enable {
            "block"@
        } else {
            "unblock"@
        }),
        r.1 == !enable,
{
    (if enable {
        "block"
    } else {
        "unblock"
    }, !enable)
}

/// What the bar shows of the network.
pub struct NetworkData {
    pub wifi_present: bool,
    pub wireless_access_points: Vec<AccessPoint>,
    pub active_connections: Vec<ActiveConnectionInfo>,
    pub known_connections: Vec<KnownConnection>,
    pub wifi_enabled: bool,
    pub airplane_mode: bool,
    pub connectivity: ConnectivityState,
    pub scanning_nearby_wifi: bool,
}

impl Default for NetworkData {
    fn default() -> (r: NetworkData)
        ensures
            !r.wifi_present && !r.wifi_enabled && !r.airplane_mode && !r.scanning_nearby_wifi,
            r.wireless_access_points@.len() == 0,
            r.active_connections@.len() == 0,
            r.known_connections@.len() == 0,
            r.connectivity == ConnectivityState::Unknown,
    {
        NetworkData {
            wifi_present: false,
            wireless_access_points: Vec::new(),
            active_connections: Vec::new(),
            known_connections: Vec::new(),
            wifi_enabled: false,
            airplane_mode: false,
            connectivity: ConnectivityState::Unknown,
            scanning_nearby_wifi: false,
        }
    }
}

/// A request of the bar to the network service.
pub enum NetworkCmd {
    ScanNearByWiFi,
    /// The current Wi-Fi state.
    ToggleWiFi(bool),
    /// The current airplane mode.
    ToggleAirplaneMode(bool),
    SelectAccessPoint((AccessPoint, Option<String>)),
    /// The VPN, and the path of its active connection when it is up.
    ToggleVpn(Vpn, Option<String>),
}

/// The network as the bar shows it after a refresh: airplane mode is on
/// when Bluetooth is soft-blocked and Wi-Fi is off; no scan is running.
pub fn network_snapshot(
    wifi_present: bool,
    wifi_enabled: bool,
    wireless_access_points: Vec<AccessPoint>,
    active_connections: Vec<ActiveConnectionInfo>,
    known_connections: Vec<KnownConnection>,
    connectivity: ConnectivityState,
    bluetooth_blocked: bool,
) -> (r: NetworkData)
    ensures
        r.wifi_present == wifi_present,
        r.wifi_enabled == wifi_enabled,
        r.wireless_access_points == wireless_access_points,
        r.active_connections == active_connections,
        r.known_connections == known_connections,
        r.connectivity == connectivity,
        r.airplane_mode == (bluetooth_blocked && !wifi_enabled),
        !r.scanning_nearby_wifi,
{
    NetworkData {
        wifi_present,
        wireless_access_points,
        active_connections,
        known_connections,
        wifi_enabled,
        airplane_mode: bluetooth_blocked && !wifi_enabled,
        connectivity,
        scanning_nearby_wifi: false,
    }
}

/// What a request asks of NetworkManager.
pub enum NetworkAction {
    /// Turn Wi-Fi on or off.
    SetWifi(bool),
    /// Turn airplane mode on or off.
    SetAirplane(bool),
    /// Scan for access points; the bar shows a scan running.
    Scan,
    /// Connect to an access point, with a password if one was given.
    Select(AccessPoint, Option<String>),
    /// Bring the connection at a path up or down.
    SetVpn(String, bool),
}

/// The action of a request: a toggle flips the current state; a VPN with
/// an active connection is brought down there, else its profile is
/// brought up.
pub fn network_action(cmd: NetworkCmd) -> (r: NetworkAction)
    ensures
        match cmd {
            NetworkCmd::ToggleWiFi(current) => r == NetworkAction::SetWifi(!current),
            NetworkCmd::ToggleAirplaneMode(current) => r == NetworkAction::SetAirplane(!current),
            NetworkCmd::ScanNearByWiFi => r == NetworkAction::Scan,
            NetworkCmd::SelectAccessPoint((ap, pw)) => r == NetworkAction::Select(ap, pw),
            NetworkCmd::ToggleVpn(vpn, active) => match active {
                Some(p) => r == NetworkAction::SetVpn(p, false),
                None => r == NetworkAction::SetVpn(vpn.path, true),
            },
        },
{
    match cmd {
        NetworkCmd::ToggleWiFi(current) => NetworkAction::SetWifi(!current),
        NetworkCmd::ToggleAirplaneMode(current) => NetworkAction::SetAirplane(!current),
        NetworkCmd::ScanNearByWiFi => NetworkAction::Scan,
        NetworkCmd::SelectAccessPoint((ap, pw)) => NetworkAction::Select(ap, pw),
        NetworkCmd::ToggleVpn(vpn, active) => match active {
            Some(p) => NetworkAction::SetVpn(p, false),
            None => NetworkAction::SetVpn(vpn.path, true),
        },
    }
}

/// What the bar shows once an action was carried out (`ok` when
/// NetworkManager accepted it): a Wi-Fi or airplane toggle that took
/// effect shows its new state, and a scan shows as running whatever came
/// of it.
pub fn after_action(data: &mut NetworkData, action: &NetworkAction, ok: bool)
    ensures
        match *action {
            NetworkAction::SetWifi(on) => final(data).wifi_enabled == (if ok { on } else { old(data).wifi_enabled })
                && final(data).airplane_mode == old(data).airplane_mode
                && final(data).scanning_nearby_wifi == old(data).scanning_nearby_wifi,
            NetworkAction::SetAirplane(on) => final(data).airplane_mode == (if ok { on } else { old(data).airplane_mode })
                && final(data).wifi_enabled == old(data).wifi_enabled
                && final(data).scanning_nearby_wifi == old(data).scanning_nearby_wifi,
            NetworkAction::Scan => final(data).scanning_nearby_wifi && final(data).wifi_enabled == old(data).wifi_enabled
                && final(data).airplane_mode == old(data).airplane_mode,
            _ => final(data).wifi_enabled == old(data).wifi_enabled && final(data).airplane_mode
                == old(data).airplane_mode && final(data).scanning_nearby_wifi == old(data).scanning_nearby_wifi,
        },
        final(data).wifi_present == old(data).wifi_present,
        final(data).wireless_access_points == old(data).wireless_access_points,
        final(data).active_connections == old(data).active_connections,
        final(data).known_connections == old(data).known_connections,
        final(data).connectivity == old(data).connectivity,
{
    match action {
        NetworkAction::SetWifi(on) => {
            if ok {
                data.wifi_enabled = *on;
            }
        },
        NetworkAction::SetAirplane(on) => {
            if ok {
                data.airplane_mode = *on;
            }
        },
        NetworkAction::Scan => {
            data.scanning_nearby_wifi = true;
        },
        _ => {},
    }
}

} // verus!
