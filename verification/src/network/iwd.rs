//! The iwd backend's reading of its D-Bus values: station states, signal
//! strengths and network types, and the events the bar is sent when iwd
//! reports a change.

use super::dbus::DeviceState;
use super::{AccessPoint, ActiveConnectionInfo, KnownConnection};
use crate::text::str_eq;
use vstd::prelude::*;

verus! {

/// The state of an iwd station.
#[derive(Clone, Copy, PartialEq, Eq, Structural, Debug)]
pub enum IwdStationState {
    Connected,
    Disconnected,
    Connecting,
    Disconnecting,
    Roaming,
}

/// The station state of iwd's name for it; unknown names are
/// disconnected.
pub open spec fn station_state_of(s: Seq<char>) -> IwdStationState {
    if s == "connected"@ {
        IwdStationState::Connected
    } else if s == "connecting"@ {
        IwdStationState::Connecting
    } else if s == "disconnecting"@ {
        IwdStationState::Disconnecting
    } else if s == "roaming"@ {
        IwdStationState::Roaming
    } else {
        IwdStationState::Disconnected
    }
}

impl From<String> for IwdStationState {
    fn from(state: String) -> (r: Self) {
        proof {
            reveal_strlit("connected");
            reveal_strlit("connecting");
            reveal_strlit("disconnecting");
            reveal_strlit("roaming");
        }
        if str_eq(state.as_str(), "connected") {
            IwdStationState::Connected
        } else if str_eq(state.as_str(), "connecting") {
            IwdStationState::Connecting
        } else if str_eq(state.as_str(), "disconnecting") {
            IwdStationState::Disconnecting
        } else if str_eq(state.as_str(), "roaming") {
            IwdStationState::Roaming
        } else {
            IwdStationState::Disconnected
        }
    }
}

impl vstd::std_specs::convert::FromSpecImpl<String> for IwdStationState {
    open spec fn obeys_from_spec() -> bool {
        true
    }

    open spec fn from_spec(v: String) -> Self {
        station_state_of(v@)
    }
}

/// iwd's signal strength, in hundredths of a dBm, as a bar strength:
/// `s / 100 + 100` (division rounding toward zero), cut to a byte.
pub open spec fn strength_of(s: i16) -> u8 {
    let dbm = if s >= 0 {
        s / 100
    } else {
        -((-s) / 100)
    };
    (dbm + 100) as u8
}

/// The bar strength of an iwd signal level.
pub fn iwd_strength(s: i16) -> (r: u8)
    ensures
        r == strength_of(s),
{
    let dbm = s.checked_div(100).unwrap();
    let v: i16 = dbm + 100;
    #[verifier::truncate] (v as u8)
}

/// An iwd network is public when its type is `open`.
pub fn is_open(network_type: &str) -> (r: bool)
    ensures
        r == (network_type@ == "open"@),
{
    str_eq(network_type, "open")
}

/// An access point of a reachable iwd network: iwd reports no device state
/// and no connectivity check for it.
pub fn access_point_of(ssid: String, network_type: &str, strength: i16, path: String, device_path: String) -> (r: AccessPoint)
    ensures
        r.ssid@ == ssid@,
        r.strength == strength_of(strength),
        r.state == DeviceState::Unknown,
        r.public == (network_type@ == "open"@),
        !r.working,
        r.path@ == path@,
        r.device_path@ == device_path@,
{
    AccessPoint {
        ssid,
        strength: iwd_strength(strength),
        state: DeviceState::Unknown,
        public: is_open(network_type),
        working: false,
        path,
        device_path,
    }
}

/// WiFi is enabled when some wireless device is powered.
pub fn wireless_enabled(powered: &Vec<bool>) -> (r: bool)
    ensures
        r == exists|i: int| 0 <= i < powered@.len() && #[trigger] powered@[i],
{
    let mut i: usize = 0;
    while i < powered.len()
        invariant
            i <= powered@.len(),
            forall|j: int| 0 <= j < i ==> !#[trigger] powered@[j],
        decreases powered@.len() - i,
    {
        if powered[i] {
            return true;
        }
        i = i + 1;
    }
    false
}

/// A change iwd reported, with the values read once it did.
pub enum IwdChange {
    /// An adapter was powered on or off; whether any wireless device is
    /// powered now.
    Powered { wifi_enabled: bool },
    /// A station changed state; the states of all stations and the active
    /// connections read after it.
    StationState { states: Vec<IwdStationState>, active: Vec<ActiveConnectionInfo> },
    /// A station started or stopped scanning; the access points, the known
    /// connections and whether a wireless device is powered, read after it.
    Scanning { scanning: bool, access_points: Vec<AccessPoint>, known: Vec<KnownConnection>, wifi_enabled: bool },
    /// The signal level agent reported the level of the current network.
    SignalLevel(i16),
}

/// What the bar is told of the network.
pub enum IwdEvent {
    WiFiEnabled(bool),
    Connectivity(Vec<IwdStationState>),
    ActiveConnections(Vec<ActiveConnectionInfo>),
    KnownConnections(Vec<KnownConnection>),
    ScanningNearbyWifi,
    WirelessAccessPoint(Vec<AccessPoint>),
    WirelessDevice { wifi_present: bool, wireless_access_points: Vec<AccessPoint> },
    Strength(String, u8),
}

/// The events a change of iwd's state is answered with: the power state;
/// the stations' states and the active connections; the known connections,
/// then while scanning a scan notice and the access points, else the
/// device with its access points; a signal level as a strength, with no
/// network name, its value cut to a byte.
pub fn iwd_events(change: IwdChange) -> (r: Vec<IwdEvent>)
    ensures
        match change {
            IwdChange::Powered { wifi_enabled } => r@ == seq![IwdEvent::WiFiEnabled(wifi_enabled)],
            IwdChange::StationState { states, active } => r@ == seq![
                IwdEvent::Connectivity(states),
                IwdEvent::ActiveConnections(active),
            ],
            IwdChange::Scanning { scanning, access_points, known, wifi_enabled } => if scanning {
                r@ == seq![
                    IwdEvent::KnownConnections(known),
                    IwdEvent::ScanningNearbyWifi,
                    IwdEvent::WirelessAccessPoint(access_points),
                ]
            } else {
                r@ == seq![
                    IwdEvent::KnownConnections(known),
                    IwdEvent::WirelessDevice { wifi_present: wifi_enabled, wireless_access_points: access_points },
                ]
            },
            IwdChange::SignalLevel(level) => r@.len() == 1 && (r@[0] matches IwdEvent::Strength(name, l) && name@
                == Seq::<char>::empty() && l == level as u8),
        },
{
    match change {
        IwdChange::Powered { wifi_enabled } => vec![IwdEvent::WiFiEnabled(wifi_enabled)],
        IwdChange::StationState { states, active } => vec![
            IwdEvent::Connectivity(states),
            IwdEvent::ActiveConnections(active),
        ],
        IwdChange::Scanning { scanning, access_points, known, wifi_enabled } => {
            let mut events = vec![IwdEvent::KnownConnections(known)];
            if scanning {
                events.push(IwdEvent::ScanningNearbyWifi);
                events.push(IwdEvent::WirelessAccessPoint(access_points));
            } else {
                events.push(
                    IwdEvent::WirelessDevice { wifi_present: wifi_enabled, wireless_access_points: access_points },
                );
            }
            events
        },
        IwdChange::SignalLevel(level) => {
            let strength: u8 = #[verifier::truncate] (level as u8);
            vec![IwdEvent::Strength(String::new(), strength)]
        },
    }
}

} // verus!
