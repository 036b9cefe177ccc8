//! The system information model's decisions: which domains a refresh
//! touches, which network interfaces count and which address the bar
//! shows, and transfer speeds.

use crate::tempo_calendar::{has_prefix, starts_with};
use vstd::prelude::*;

verus! {

/// What the bar can show of the system.
pub enum SystemInfoIndicator {
    Cpu,
    Memory,
    MemorySwap,
    Temperature,
    IpAddress,
    DownloadSpeed,
    UploadSpeed,
    Disk(String),
}

/// Which domains a refresh touches.
#[derive(Clone, Copy, PartialEq, Eq, Structural, Debug)]
pub struct RefreshScope {
    pub cpu: bool,
    pub memory: bool,
    pub temperature: bool,
    pub disks: bool,
    pub network: bool,
}

/// Some indicator of the list is one of the kind.
pub open spec fn shows(inds: Seq<SystemInfoIndicator>, kind: spec_fn(SystemInfoIndicator) -> bool) -> bool {
    exists|i: int| 0 <= i < inds.len() && kind(#[trigger] inds[i])
}

pub open spec fn is_cpu(i: SystemInfoIndicator) -> bool {
    i is Cpu
}

pub open spec fn is_memory(i: SystemInfoIndicator) -> bool {
    i is Memory || i is MemorySwap
}

pub open spec fn is_temperature(i: SystemInfoIndicator) -> bool {
    i is Temperature
}

pub open spec fn is_network(i: SystemInfoIndicator) -> bool {
    i is IpAddress || i is DownloadSpeed || i is UploadSpeed
}

pub open spec fn is_disk(i: SystemInfoIndicator) -> bool {
    i is Disk
}

impl RefreshScope {
    /// Every domain: the open menu shows them all.
    pub fn all() -> (r: Self)
        ensures
            r.cpu && r.memory && r.temperature && r.disks && r.network,
    {
        RefreshScope { cpu: true, memory: true, temperature: true, disks: true, network: true }
    }

    /// The domains the bar's indicators need.
    pub fn from_indicators(indicators: &Vec<SystemInfoIndicator>) -> (r: Self)
        ensures
            r.cpu == shows(indicators@, |i: SystemInfoIndicator| is_cpu(i)),
            r.memory == shows(indicators@, |i: SystemInfoIndicator| is_memory(i)),
            r.temperature == shows(indicators@, |i: SystemInfoIndicator| is_temperature(i)),
            r.disks == shows(indicators@, |i: SystemInfoIndicator| is_disk(i)),
            r.network == shows(indicators@, |i: SystemInfoIndicator| is_network(i)),
    {
        let mut scope = RefreshScope { cpu: false, memory: false, temperature: false, disks: false, network: false };
        let mut k: usize = 0;
        while k < indicators.len()
            invariant
                k <= indicators@.len(),
                scope.cpu == exists|i: int| 0 <= i < k && is_cpu(#[trigger] indicators@[i]),
                scope.memory == exists|i: int| 0 <= i < k && is_memory(#[trigger] indicators@[i]),
                scope.temperature == exists|i: int| 0 <= i < k && is_temperature(#[trigger] indicators@[i]),
                scope.disks == exists|i: int| 0 <= i < k && is_disk(#[trigger] indicators@[i]),
                scope.network == exists|i: int| 0 <= i < k && is_network(#[trigger] indicators@[i]),
            decreases indicators@.len() - k,
        {
            let ghost ind = indicators@[k as int];
            match &indicators[k] {
                SystemInfoIndicator::Cpu => scope.cpu = true,
                SystemInfoIndicator::Memory | SystemInfoIndicator::MemorySwap => scope.memory = true,
                SystemInfoIndicator::Temperature => scope.temperature = true,
                SystemInfoIndicator::IpAddress | SystemInfoIndicator::DownloadSpeed
                | SystemInfoIndicator::UploadSpeed => scope.network = true,
                SystemInfoIndicator::Disk(_) => scope.disks = true,
            }
            proof {
                assert forall|f: spec_fn(SystemInfoIndicator) -> bool|
                    #![trigger f(ind)]
                    (exists|i: int| 0 <= i < k + 1 && f(#[trigger] indicators@[i])) == ((exists|i: int|
                        0 <= i < k && f(#[trigger] indicators@[i])) || f(ind)) by {
                    if exists|i: int| 0 <= i < k + 1 && f(#[trigger] indicators@[i]) {
                        let i = choose|i: int| 0 <= i < k + 1 && f(#[trigger] indicators@[i]);
                        if i < k {
                        }
                    }
                }
                assert(is_cpu(ind) ==> is_cpu(indicators@[k as int]));
            }
            k = k + 1;
        }
        scope
    }
}

/// The priority of an interface: the position of the first of `en`,
/// `eth`, `wl`, `br`, `bond` its name begins with; others do not count.
pub open spec fn priority_of(name: Seq<char>) -> Option<usize> {
    if has_prefix(name, "en"@) {
        Some(0)
    } else if has_prefix(name, "eth"@) {
        Some(1)
    } else if has_prefix(name, "wl"@) {
        Some(2)
    } else if has_prefix(name, "br"@) {
        Some(3)
    } else if has_prefix(name, "bond"@) {
        Some(4)
    } else {
        None
    }
}

/// The priority of an interface by its name.
pub fn interface_priority(name: &str) -> (r: Option<usize>)
    ensures
        r == priority_of(name@),
{
    if starts_with(name, "en") {
        Some(0)
    } else if starts_with(name, "eth") {
        Some(1)
    } else if starts_with(name, "wl") {
        Some(2)
    } else if starts_with(name, "br") {
        Some(3)
    } else if starts_with(name, "bond") {
        Some(4)
    } else {
        None
    }
}

/// A transfer speed in kB/s: what moved since the last check, over the
/// seconds since (none or zero seconds is no speed), both cut to `u32`.
pub open spec fn speed_of(bytes: u64, elapsed_secs: Option<u64>) -> u32 {
    match elapsed_secs {
        Some(s) => if s == 0 {
            0
        } else {
            ((bytes / 1000) as u32 / s as u32) as u32
        },
        None => 0,
    }
}

/// The transfer speed of the bytes moved since the last check.
pub fn speed_kbps(bytes: u64, elapsed_secs: Option<u64>) -> (r: u32)
    requires
        elapsed_secs matches Some(s) ==> (s == 0 || s as u32 != 0),
    ensures
        r == speed_of(bytes, elapsed_secs),
{
    match elapsed_secs {
        Some(s) => if s == 0 {
            0
        } else {
            let kb = #[verifier::truncate] ((bytes / 1000) as u32);
            let secs = #[verifier::truncate] (s as u32);
            kb / secs
        },
        None => 0,
    }
}

/// A network interface: its name, the bytes it moved since the last
/// refresh, and its addresses as ordered keys (IPv4 before IPv6, then by
/// value).
pub struct InterfaceStats {
    pub name: String,
    pub received: u64,
    pub transmitted: u64,
    pub addrs: Vec<(bool, u128)>,
}

/// Address `a` orders before address `b`.
pub open spec fn addr_lt(a: (bool, u128), b: (bool, u128)) -> bool {
    (!a.0 && b.0) || (a.0 == b.0 && a.1 < b.1)
}

/// `i` is the interface whose address the bar shows: an interface that
/// counts and has an address, with the best priority, the first of those.
pub open spec fn is_shown_interface(ifs: Seq<InterfaceStats>, i: int) -> bool {
    &&& 0 <= i < ifs.len()
    &&& priority_of(ifs[i].name@) is Some
    &&& ifs[i].addrs@.len() > 0
    &&& forall|j: int|
        0 <= j < ifs.len() && priority_of((#[trigger] ifs[j]).name@) is Some && ifs[j].addrs@.len() > 0 ==> {
            let p = priority_of(ifs[i].name@)->0;
            let q = priority_of(ifs[j].name@)->0;
            p < q || (p == q && i <= j)
        }
}

/// `k` is the position of the first smallest address.
pub open spec fn is_first_least(addrs: Seq<(bool, u128)>, k: int) -> bool {
    &&& 0 <= k < addrs.len()
    &&& forall|j: int| 0 <= j < addrs.len() ==> !addr_lt(#[trigger] addrs[j], addrs[k])
    &&& forall|j: int| 0 <= j < k ==> addr_lt(addrs[k], #[trigger] addrs[j])
}

/// The bytes the counting interfaces moved, in and out.
pub open spec fn totals(ifs: Seq<InterfaceStats>) -> (int, int)
    decreases ifs.len(),
{
    if ifs.len() == 0 {
        (0, 0)
    } else {
        let t = totals(ifs.drop_last());
        if priority_of(ifs.last().name@) is Some {
            (t.0 + ifs.last().received, t.1 + ifs.last().transmitted)
        } else {
            t
        }
    }
}

proof fn lemma_totals_nonneg(ifs: Seq<InterfaceStats>)
    ensures
        totals(ifs).0 >= 0,
        totals(ifs).1 >= 0,
    decreases ifs.len(),
{
    if ifs.len() > 0 {
        lemma_totals_nonneg(ifs.drop_last());
    }
}

proof fn lemma_totals_mono(ifs: Seq<InterfaceStats>, k: int)
    requires
        0 <= k <= ifs.len(),
    ensures
        totals(ifs.take(k)).0 <= totals(ifs).0,
        totals(ifs.take(k)).1 <= totals(ifs).1,
    decreases ifs.len() - k,
{
    if k < ifs.len() {
        lemma_totals_mono(ifs, k + 1);
        assert(ifs.take(k + 1).drop_last() =~= ifs.take(k));
    } else {
        assert(ifs.take(k) =~= ifs);
    }
}

/// The network summary: which interface and address the bar shows (none
/// when no counting interface has one), and the bytes the counting
/// interfaces moved in and out.
pub fn network_summary(ifs: &Vec<InterfaceStats>) -> (r: (Option<(usize, usize)>, u64, u64))
    requires
        totals(ifs@).0 <= u64::MAX,
        totals(ifs@).1 <= u64::MAX,
    ensures
        match r.0 {
            Some((i, k)) => is_shown_interface(ifs@, i as int) && is_first_least(ifs@[i as int].addrs@, k as int),
            None => forall|j: int|
                0 <= j < ifs@.len() ==> !(priority_of((#[trigger] ifs@[j]).name@) is Some && ifs@[j].addrs@.len() > 0),
        },
        r.1 == totals(ifs@).0,
        r.2 == totals(ifs@).1,
{
    let mut best: Option<(usize, usize)> = None;
    let mut rx: u64 = 0;
    let mut tx: u64 = 0;
    let mut i: usize = 0;
    while i < ifs.len()
        invariant
            i <= ifs@.len(),
            totals(ifs@).0 <= u64::MAX,
            totals(ifs@).1 <= u64::MAX,
            rx == totals(ifs@.take(i as int)).0,
            tx == totals(ifs@.take(i as int)).1,
            match best {
                Some((b, p)) => b < i && priority_of(ifs@[b as int].name@) == Some(p) && ifs@[b as int].addrs@.len() > 0
                    && forall|j: int|
                    0 <= j < i && priority_of((#[trigger] ifs@[j]).name@) is Some && ifs@[j].addrs@.len() > 0 ==> {
                        let q = priority_of(ifs@[j].name@)->0;
                        p < q || (p == q && b <= j)
                    },
                None => forall|j: int|
                    0 <= j < i ==> !(priority_of((#[trigger] ifs@[j]).name@) is Some && ifs@[j].addrs@.len() > 0),
            },
        decreases ifs@.len() - i,
    {
        proof {
            assert(ifs@.take(i + 1).drop_last() =~= ifs@.take(i as int));
            assert(ifs@.take(i + 1).last() == ifs@[i as int]);
            lemma_totals_mono(ifs@, i + 1);
            lemma_totals_nonneg(ifs@.take(i as int));
        }
        let f = &ifs[i];
        if let Some(p) = interface_priority(f.name.as_str()) {
            rx = rx + f.received;
            tx = tx + f.transmitted;
            if f.addrs.len() > 0 {
                match best {
                    Some((_, bp)) => if p < bp {
                        best = Some((i, p));
                    },
                    None => {
                        best = Some((i, p));
                    },
                }
            }
        }
        i = i + 1;
    }
    assert(ifs@.take(ifs@.len() as int) =~= ifs@);
    match best {
        Some((b, _)) => {
            let addrs = &ifs[b].addrs;
            let mut k: usize = 0;
            let mut j: usize = 1;
            while j < addrs.len()
                invariant
                    addrs@.len() > 0,
                    1 <= j <= addrs@.len(),
                    k < j,
                    forall|q: int| 0 <= q < j ==> !addr_lt(#[trigger] addrs@[q], addrs@[k as int]),
                    forall|q: int| 0 <= q < k ==> addr_lt(addrs@[k as int], #[trigger] addrs@[q]),
                decreases addrs@.len() - j,
            {
                let a = addrs[j];
                let m = addrs[k];
                if (!a.0 && m.0) || (a.0 == m.0 && a.1 < m.1) {
                    proof {
                        assert forall|q: int| 0 <= q < j implies addr_lt(a, #[trigger] addrs@[q]) by {
                            assert(!addr_lt(addrs@[q], m));
                        }
                    }
                    k = j;
                }
                j = j + 1;
            }
            (Some((b, k)), rx, tx)
        },
        None => (None, rx, tx),
    }
}

/// With the temperature shown and its sensor missing, the sensor list is
/// scanned again every twelfth tick after the first.
pub fn should_rescan_sensors(temperature: bool, tick: u32, sensor_found: bool) -> (r: bool)
    ensures
        r == (temperature && tick % 12 == 0 && tick > 0 && !sensor_found),
{
    temperature && tick % 12 == 0 && tick > 0 && !sensor_found
}

/// The half-second slices a refresh interval sleeps in: twice the
/// interval, at least one second.
pub fn sleep_slices(interval: u64) -> (r: u64)
    requires
        interval <= u64::MAX / 2,
    ensures
        r == (if interval < 1 {
            1
        } else {
            interval
        }) * 2,
{
    let i = if interval < 1 {
        1
    } else {
        interval
    };
    i * 2
}

} // verus!
