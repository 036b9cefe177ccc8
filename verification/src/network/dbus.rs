//! NetworkManager's numbering of device types, connectivity and device
//! states.

use vstd::prelude::*;

verus! {

/// The kind of a NetworkManager device.
#[derive(Clone, Copy, PartialEq, Eq, Structural, Debug)]
pub enum NmDeviceType {
    Ethernet,
    Wifi,
    Bluetooth,
    TunTap,
    WireGuard,
    Generic,
    Other,
    Unknown,
}

/// The device type NetworkManager reports as `dt`.
pub open spec fn device_type_of(dt: u32) -> NmDeviceType {
    if dt == 1 {
        NmDeviceType::Ethernet
    } else if dt == 2 {
        NmDeviceType::Wifi
    } else if dt == 5 {
        NmDeviceType::Bluetooth
    } else if dt == 14 {
        NmDeviceType::Generic
    } else if dt == 16 {
        NmDeviceType::TunTap
    } else if dt == 29 {
        NmDeviceType::WireGuard
    } else if 3 <= dt <= 32 {
        NmDeviceType::Other
    } else {
        NmDeviceType::Unknown
    }
}

impl From<u32> for NmDeviceType {
    fn from(dt: u32) -> (r: NmDeviceType) {
        if dt == 1 {
            NmDeviceType::Ethernet
        } else if dt == 2 {
            NmDeviceType::Wifi
        } else if dt == 5 {
            NmDeviceType::Bluetooth
        } else if dt == 14 {
            NmDeviceType::Generic
        } else if dt == 16 {
            NmDeviceType::TunTap
        } else if dt == 29 {
            NmDeviceType::WireGuard
        } else if 3 <= dt && dt <= 32 {
            NmDeviceType::Other
        } else {
            NmDeviceType::Unknown
        }
    }
}

impl vstd::std_specs::convert::FromSpecImpl<u32> for NmDeviceType {
    open spec fn obeys_from_spec() -> bool {
        true
    }

    open spec fn from_spec(dt: u32) -> NmDeviceType {
        device_type_of(dt)
    }
}

impl Default for NmDeviceType {
    fn default() -> (r: NmDeviceType)
        ensures
            r == NmDeviceType::Unknown,
    {
        NmDeviceType::Unknown
    }
}

/// How far the network reaches.
#[derive(Clone, Copy, PartialEq, Eq, Structural, Debug)]
pub enum ConnectivityState {
    NoConnectivity,
    Portal,
    Loss,
    Full,
    Unknown,
}

pub open spec fn connectivity_of(state: u32) -> ConnectivityState {
    if state == 1 {
        ConnectivityState::NoConnectivity
    } else if state == 2 {
        ConnectivityState::Portal
    } else if state == 3 {
        ConnectivityState::Loss
    } else if state == 4 {
        ConnectivityState::Full
    } else {
        ConnectivityState::Unknown
    }
}

impl From<u32> for ConnectivityState {
    fn from(state: u32) -> (r: ConnectivityState) {
        if state == 1 {
            ConnectivityState::NoConnectivity
        } else if state == 2 {
            ConnectivityState::Portal
        } else if state == 3 {
            ConnectivityState::Loss
        } else if state == 4 {
            ConnectivityState::Full
        } else {
            ConnectivityState::Unknown
        }
    }
}

impl vstd::std_specs::convert::FromSpecImpl<u32> for ConnectivityState {
    open spec fn obeys_from_spec() -> bool {
        true
    }

    open spec fn from_spec(state: u32) -> ConnectivityState {
        connectivity_of(state)
    }
}

impl Default for ConnectivityState {
    fn default() -> (r: ConnectivityState)
        ensures
            r == ConnectivityState::Unknown,
    {
        ConnectivityState::Unknown
    }
}

/// The state of a NetworkManager device.
#[derive(Clone, Copy, PartialEq, Eq, Structural, Debug)]
pub enum DeviceState {
    Unmanaged,
    Unavailable,
    Disconnected,
    Prepare,
    Config,
    NeedAuth,
    IpConfig,
    IpCheck,
    Secondaries,
    Activated,
    Deactivating,
    Failed,
    Unknown,
}

pub open spec fn device_state_of(ds: u32) -> DeviceState {
    if ds == 10 {
        DeviceState::Unmanaged
    } else if ds == 20 {
        DeviceState::Unavailable
    } else if ds == 30 {
        DeviceState::Disconnected
    } else if ds == 40 {
        DeviceState::Prepare
    } else if ds == 50 {
        DeviceState::Config
    } else if ds == 60 {
        DeviceState::NeedAuth
    } else if ds == 70 {
        DeviceState::IpConfig
    } else if ds == 80 {
        DeviceState::IpCheck
    } else if ds == 90 {
        DeviceState::Secondaries
    } else if ds == 100 {
        DeviceState::Activated
    } else if ds == 110 {
        DeviceState::Deactivating
    } else if ds == 120 {
        DeviceState::Failed
    } else {
        DeviceState::Unknown
    }
}

impl From<u32> for DeviceState {
    fn from(ds: u32) -> (r: DeviceState) {
        if ds == 10 {
            DeviceState::Unmanaged
        } else if ds == 20 {
            DeviceState::Unavailable
        } else if ds == 30 {
            DeviceState::Disconnected
        } else if ds == 40 {
            DeviceState::Prepare
        } else if ds == 50 {
            DeviceState::Config
        } else if ds == 60 {
            DeviceState::NeedAuth
        } else if ds == 70 {
            DeviceState::IpConfig
        } else if ds == 80 {
            DeviceState::IpCheck
        } else if ds == 90 {
            DeviceState::Secondaries
        } else if ds == 100 {
            DeviceState::Activated
        } else if ds == 110 {
            DeviceState::Deactivating
        } else if ds == 120 {
            DeviceState::Failed
        } else {
            DeviceState::Unknown
        }
    }
}

impl vstd::std_specs::convert::FromSpecImpl<u32> for DeviceState {
    open spec fn obeys_from_spec() -> bool {
        true
    }

    open spec fn from_spec(ds: u32) -> DeviceState {
        device_state_of(ds)
    }
}

impl Default for DeviceState {
    fn default() -> (r: DeviceState)
        ensures
            r == DeviceState::Unknown,
    {
        DeviceState::Unknown
    }
}

} // verus!
