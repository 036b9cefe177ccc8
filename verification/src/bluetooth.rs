//! The Bluetooth model: the adapter's state, the connected devices, and
//! what a request of the bar asks of BlueZ.

use crate::text::{occurs_in, str_contains};
use vstd::prelude::*;

verus! {

/// Whether there is an adapter and whether it is powered.
#[derive(Clone, Copy, PartialEq, Eq, Structural, Debug)]
pub enum BluetoothState {
    Unavailable,
    Active,
    Inactive,
}

/// A device known to BlueZ.
pub struct BluetoothDevice {
    pub name: String,
    pub battery: Option<u8>,
    pub path: String,
    pub connected: bool,
    pub paired: bool,
}

/// Everything the bar shows of Bluetooth.
pub struct BluetoothData {
    pub state: BluetoothState,
    pub devices: Vec<BluetoothDevice>,
    pub discovering: bool,
}

impl Default for BluetoothData {
    fn default() -> (r: Self)
        ensures
            r.state == BluetoothState::Unavailable,
            r.devices@.len() == 0,
            !r.discovering,
    {
        BluetoothData { state: BluetoothState::Unavailable, devices: Vec::new(), discovering: false }
    }
}

/// A request of the bar; a toggle carries the state the bar showed.
pub enum BluetoothCmd {
    Toggle(BluetoothState),
    StartDiscovery,
    StopDiscovery,
    PairDevice(String),
    ConnectDevice(String),
    DisconnectDevice(String),
    RemoveDevice(String),
}

/// The adapter's state: none is unavailable, else powered or not.
pub fn adapter_state(has_adapter: bool, powered: bool) -> (r: BluetoothState)
    ensures
        r == if !has_adapter {
            BluetoothState::Unavailable
        } else if powered {
            BluetoothState::Active
        } else {
            BluetoothState::Inactive
        },
{
    if !has_adapter {
        BluetoothState::Unavailable
    } else if powered {
        BluetoothState::Active
    } else {
        BluetoothState::Inactive
    }
}

/// rfkill's listing says the Bluetooth radio is soft-blocked.
pub fn rfkill_soft_blocked(listing: &str) -> (r: bool)
    ensures
        r == occurs_in("Soft blocked: yes"@, listing@),
{
    proof {
        reveal_strlit("Soft blocked: yes");
    }
    str_contains(listing, "Soft blocked: yes")
}

/// The state shown: a powered adapter whose radio rfkill soft-blocks is
/// inactive.
pub fn effective_state(state: BluetoothState, soft_blocked: bool) -> (r: BluetoothState)
    ensures
        r == if state == BluetoothState::Active && soft_blocked {
            BluetoothState::Inactive
        } else {
            state
        },
{
    match state {
        BluetoothState::Active => if soft_blocked {
            BluetoothState::Inactive
        } else {
            BluetoothState::Active
        },
        other => other,
    }
}

/// What BlueZ reports of a device.
pub struct DeviceProbe {
    pub name: String,
    pub path: String,
    pub connected: bool,
    pub paired: bool,
    pub battery: Option<u8>,
}

/// The devices the bar lists: the connected ones, in order.
pub fn connected_devices(probes: Vec<DeviceProbe>) -> (r: Vec<BluetoothDevice>)
    ensures
        r@.len() == probes@.filter(|p: DeviceProbe| p.connected).len(),
        forall|i: int|
            0 <= i < r@.len() ==> {
                let d = #[trigger] r@[i];
                let p = probes@.filter(|p: DeviceProbe| p.connected)[i];
                &&& d.name@ == p.name@
                &&& d.path@ == p.path@
                &&& d.connected
                &&& d.paired == p.paired
                &&& d.battery == p.battery
            },
{
    let ghost pred = |p: DeviceProbe| p.connected;
    let ghost all = probes@;
    let mut r: Vec<BluetoothDevice> = Vec::new();
    let mut rest = probes;
    let mut rev: Vec<DeviceProbe> = Vec::new();
    while rest.len() > 0
        invariant
            all == rest@ + rev@.reverse(),
        decreases rest@.len(),
    {
        let x = rest.pop().unwrap();
        let ghost before = rev@;
        rev.push(x);
        assert(rev@.reverse() =~= seq![x] + before.reverse());
        assert(all =~= rest@ + rev@.reverse());
    }
    assert(all =~= rev@.reverse());
    let ghost mut k: int = 0;
    while rev.len() > 0
        invariant
            pred == (|p: DeviceProbe| p.connected),
            all == all.take(k) + rev@.reverse(),
            0 <= k <= all.len(),
            r@.len() == all.take(k).filter(pred).len(),
            forall|i: int|
                0 <= i < r@.len() ==> {
                    let d = #[trigger] r@[i];
                    let p = all.take(k).filter(pred)[i];
                    &&& d.name@ == p.name@
                    &&& d.path@ == p.path@
                    &&& d.connected
                    &&& d.paired == p.paired
                    &&& d.battery == p.battery
                },
        decreases rev@.len(),
    {
        let ghost rb = rev@;
        let x = rev.pop().unwrap();
        proof {
            assert(rb.reverse() =~= seq![x] + rev@.reverse());
            assert(all[k] == x);
            assert(all =~= all.take(k + 1) + rev@.reverse());
            all.take(k).lemma_filter_push(x, pred);
            assert(all.take(k + 1) =~= all.take(k).push(x));
        }
        if x.connected {
            r.push(BluetoothDevice {
                name: x.name,
                battery: x.battery,
                path: x.path,
                connected: true,
                paired: x.paired,
            });
        }
        proof {
            k = k + 1;
        }
    }
    assert(all.take(k) =~= all);
    r
}

/// What a request asks of BlueZ. Discovery runs for a fixed time and then
/// stops.
pub enum BluetoothAction {
    SetPowered(bool),
    DiscoverForAWhile,
    StopDiscovery,
    Pair(String),
    Connect(String),
    Disconnect(String),
    Remove(String),
}

/// The action of a request: a toggle of an unavailable adapter does
/// nothing; otherwise it powers the adapter off when it was active, on
/// when it was not.
pub fn bluetooth_action(cmd: BluetoothCmd) -> (r: Option<BluetoothAction>)
    ensures
        match cmd {
            BluetoothCmd::Toggle(s) => if s == BluetoothState::Unavailable {
                r is None
            } else {
                r matches Some(BluetoothAction::SetPowered(p)) && p == (s != BluetoothState::Active)
            },
            BluetoothCmd::StartDiscovery => r matches Some(BluetoothAction::DiscoverForAWhile),
            BluetoothCmd::StopDiscovery => r matches Some(BluetoothAction::StopDiscovery),
            BluetoothCmd::PairDevice(p) => r matches Some(BluetoothAction::Pair(q)) && q@ == p@,
            BluetoothCmd::ConnectDevice(p) => r matches Some(BluetoothAction::Connect(q)) && q@ == p@,
            BluetoothCmd::DisconnectDevice(p) => r matches Some(BluetoothAction::Disconnect(q)) && q@ == p@,
            BluetoothCmd::RemoveDevice(p) => r matches Some(BluetoothAction::Remove(q)) && q@ == p@,
        },
{
    match cmd {
        BluetoothCmd::Toggle(s) => match s {
            BluetoothState::Unavailable => None,
            BluetoothState::Active => Some(BluetoothAction::SetPowered(false)),
            BluetoothState::Inactive => Some(BluetoothAction::SetPowered(true)),
        },
        BluetoothCmd::StartDiscovery => Some(BluetoothAction::DiscoverForAWhile),
        BluetoothCmd::StopDiscovery => Some(BluetoothAction::StopDiscovery),
        BluetoothCmd::PairDevice(p) => Some(BluetoothAction::Pair(p)),
        BluetoothCmd::ConnectDevice(p) => Some(BluetoothAction::Connect(p)),
        BluetoothCmd::DisconnectDevice(p) => Some(BluetoothAction::Disconnect(p)),
        BluetoothCmd::RemoveDevice(p) => Some(BluetoothAction::Remove(p)),
    }
}

} // verus!
