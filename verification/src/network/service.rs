//! The state of the Wi-Fi device and the networks around it.

use crate::text::str_eq;
use vstd::prelude::*;

verus! {

/// Whether the Wi-Fi device can be used.
#[derive(Clone, Copy, PartialEq, Eq, Structural, Debug)]
pub enum WifiDeviceState {
    Unavailable,
    Active,
    Inactive,
}

/// The kind of a connection.
#[derive(Clone, Copy, PartialEq, Eq, Structural, Debug)]
pub enum ConnectionType {
    Wired,
    Wifi,
}

/// A Wi-Fi network in range.
pub struct WifiConnection {
    pub ssid: String,
    pub strength: u8,
    pub public: bool,
    pub known: bool,
}

impl WifiConnection {
    /// Two entries are the same network when their SSIDs match.
    pub fn same_network(&self, other: &WifiConnection) -> (r: bool)
        ensures
            r == (self.ssid@ == other.ssid@),
    {
        str_eq(self.ssid.as_str(), other.ssid.as_str())
    }
}

} // verus!
