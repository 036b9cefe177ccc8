//! The battery and power-profile model of the bar.

pub mod dbus;

use self::dbus::{DeviceState, UpDeviceKind};
use crate::icons::{IndicatorState, StaticIcon};
use crate::text::str_eq;
use vstd::prelude::*;

verus! {

/// Whether a battery charges, and how long until it is full or empty.
#[derive(Clone, Copy, PartialEq, Eq, Structural, Debug)]
pub enum BatteryStatus {
    /// Seconds until full.
    Charging(u64),
    /// Seconds until empty.
    Discharging(u64),
    Full,
}

impl Default for BatteryStatus {
    fn default() -> (r: BatteryStatus)
        ensures
            r == BatteryStatus::Full,
    {
        BatteryStatus::Full
    }
}

/// A battery's charge in percent, and its status.
#[derive(Clone, Copy, PartialEq, Eq, Structural, Debug)]
pub struct BatteryData {
    pub capacity: i64,
    pub status: BatteryStatus,
}

/// The indicator a battery calls for: success while charging, danger when
/// discharging below 20%.
pub open spec fn indicator_of(b: BatteryData) -> IndicatorState {
    match b.status {
        BatteryStatus::Charging(_) => IndicatorState::Success,
        BatteryStatus::Discharging(_) => if b.capacity < 20 {
            IndicatorState::Danger
        } else {
            IndicatorState::Normal
        },
        BatteryStatus::Full => IndicatorState::Normal,
    }
}

/// A discharging battery below 20% is in danger; a charging one shows
/// success; every other battery is normal.
pub proof fn law_battery_indicator(b: BatteryData)
    ensures
        (b.status is Discharging && b.capacity < 20) <==> indicator_of(b) == IndicatorState::Danger,
        b.status is Charging <==> indicator_of(b) == IndicatorState::Success,
        !(b.status is Charging) && !(b.status is Discharging && b.capacity < 20) <==> indicator_of(b)
            == IndicatorState::Normal,
        indicator_of(b) != IndicatorState::Warning,
{
}

/// The icon of a battery: charging, or a level by steps of 20%.
pub open spec fn icon_of(b: BatteryData) -> StaticIcon {
    match b.status {
        BatteryStatus::Charging(_) => StaticIcon::BatteryCharging,
        BatteryStatus::Discharging(_) => if b.capacity < 20 {
            StaticIcon::Battery0
        } else if b.capacity < 40 {
            StaticIcon::Battery1
        } else if b.capacity < 60 {
            StaticIcon::Battery2
        } else if b.capacity < 80 {
            StaticIcon::Battery3
        } else {
            StaticIcon::Battery4
        },
        BatteryStatus::Full => StaticIcon::Battery4,
    }
}

impl BatteryData {
    pub fn get_indicator_state(&self) -> (r: IndicatorState)
        ensures
            r == indicator_of(*self),
    {
        match self.status {
            BatteryStatus::Charging(_) => IndicatorState::Success,
            BatteryStatus::Discharging(_) => if self.capacity < 20 {
                IndicatorState::Danger
            } else {
                IndicatorState::Normal
            },
            BatteryStatus::Full => IndicatorState::Normal,
        }
    }

    pub fn get_icon(&self) -> (r: StaticIcon)
        ensures
            r == icon_of(*self),
    {
        match self.status {
            BatteryStatus::Charging(_) => StaticIcon::BatteryCharging,
            BatteryStatus::Discharging(_) => if self.capacity < 20 {
                StaticIcon::Battery0
            } else if self.capacity < 40 {
                StaticIcon::Battery1
            } else if self.capacity < 60 {
                StaticIcon::Battery2
            } else if self.capacity < 80 {
                StaticIcon::Battery3
            } else {
                StaticIcon::Battery4
            },
            BatteryStatus::Full => StaticIcon::Battery4,
        }
    }
}

impl Default for BatteryData {
    fn default() -> (r: BatteryData)
        ensures
            r.capacity == 0,
            r.status == BatteryStatus::Full,
    {
        BatteryData { capacity: 0, status: BatteryStatus::Full }
    }
}

/// The status of the system battery from its aggregate state and the
/// summed times (a negative time wraps, as the cast does).
pub open spec fn system_status_of(state: DeviceState, time_to_full: i64, time_to_empty: i64) -> BatteryStatus {
    match state {
        DeviceState::Charging => BatteryStatus::Charging(time_to_full as u64),
        DeviceState::Discharging => BatteryStatus::Discharging(time_to_empty as u64),
        DeviceState::FullyCharged => BatteryStatus::Full,
        _ => BatteryStatus::Discharging(0),
    }
}

pub fn system_status(state: DeviceState, time_to_full: i64, time_to_empty: i64) -> (r: BatteryStatus)
    ensures
        r == system_status_of(state, time_to_full, time_to_empty),
{
    match state {
        DeviceState::Charging => BatteryStatus::Charging(time_to_full as u64),
        DeviceState::Discharging => BatteryStatus::Discharging(time_to_empty as u64),
        DeviceState::FullyCharged => BatteryStatus::Full,
        _ => BatteryStatus::Discharging(0),
    }
}

/// The status of a peripheral from its raw state number; a time that could
/// not be read counts as zero.
pub open spec fn peripheral_status_of(state: u32, time_to_full: Option<i64>, time_to_empty: Option<i64>) -> BatteryStatus {
    if state == 1 {
        BatteryStatus::Charging(
            match time_to_full {
                Some(t) => t as u64,
                None => 0,
            },
        )
    } else if state == 2 {
        BatteryStatus::Discharging(
            match time_to_empty {
                Some(t) => t as u64,
                None => 0,
            },
        )
    } else if state == 4 {
        BatteryStatus::Full
    } else {
        BatteryStatus::Discharging(0)
    }
}

pub fn peripheral_status(state: u32, time_to_full: Option<i64>, time_to_empty: Option<i64>) -> (r: BatteryStatus)
    ensures
        r == peripheral_status_of(state, time_to_full, time_to_empty),
{
    if state == 1 {
        BatteryStatus::Charging(
            match time_to_full {
                Some(t) => t as u64,
                None => 0,
            },
        )
    } else if state == 2 {
        BatteryStatus::Discharging(
            match time_to_empty {
                Some(t) => t as u64,
                None => 0,
            },
        )
    } else if state == 4 {
        BatteryStatus::Full
    } else {
        BatteryStatus::Discharging(0)
    }
}

/// The kinds of peripheral the bar shows a battery for.
#[derive(Clone, Copy, PartialEq, Eq, Structural, Debug)]
pub enum PeripheralDeviceKind {
    Keyboard,
    Mouse,
    Headphones,
    Gamepad,
}

impl PeripheralDeviceKind {
    /// The kind of peripheral of a UPower device kind, if it is one.
    pub fn from_device_kind(kind: UpDeviceKind) -> (r: Option<PeripheralDeviceKind>)
        ensures
            r == match kind {
                UpDeviceKind::Mouse => Some(PeripheralDeviceKind::Mouse),
                UpDeviceKind::Keyboard => Some(PeripheralDeviceKind::Keyboard),
                UpDeviceKind::Headphones => Some(PeripheralDeviceKind::Headphones),
                UpDeviceKind::Headset => Some(PeripheralDeviceKind::Headphones),
                UpDeviceKind::GamingInput => Some(PeripheralDeviceKind::Gamepad),
                _ => None::<PeripheralDeviceKind>,
            },
    {
        match kind {
            UpDeviceKind::Mouse => Some(PeripheralDeviceKind::Mouse),
            UpDeviceKind::Keyboard => Some(PeripheralDeviceKind::Keyboard),
            UpDeviceKind::Headphones | UpDeviceKind::Headset => Some(
                PeripheralDeviceKind::Headphones,
            ),
            UpDeviceKind::GamingInput => Some(PeripheralDeviceKind::Gamepad),
            _ => None,
        }
    }

    pub fn get_icon(&self) -> (r: StaticIcon)
        ensures
            r == match *self {
                PeripheralDeviceKind::Keyboard => StaticIcon::Keyboard,
                PeripheralDeviceKind::Mouse => StaticIcon::Mouse,
                PeripheralDeviceKind::Headphones => StaticIcon::Headphones1,
                PeripheralDeviceKind::Gamepad => StaticIcon::Gamepad,
            },
    {
        match self {
            PeripheralDeviceKind::Keyboard => StaticIcon::Keyboard,
            PeripheralDeviceKind::Mouse => StaticIcon::Mouse,
            PeripheralDeviceKind::Headphones => StaticIcon::Headphones1,
            PeripheralDeviceKind::Gamepad => StaticIcon::Gamepad,
        }
    }
}

/// A peripheral with a battery.
pub struct Peripheral {
    pub name: String,
    pub kind: PeripheralDeviceKind,
    pub data: BatteryData,
    pub device_path: String,
}

/// A power profile of power-profiles-daemon.
#[derive(Clone, Copy, PartialEq, Eq, Structural, Debug)]
pub enum PowerProfile {
    Balanced,
    Performance,
    PowerSaver,
    Unknown,
}

/// The profile a daemon name stands for.
pub open spec fn profile_of(name: Seq<char>) -> PowerProfile {
    if name == "balanced"@ {
        PowerProfile::Balanced
    } else if name == "performance"@ {
        PowerProfile::Performance
    } else if name == "power-saver"@ {
        PowerProfile::PowerSaver
    } else {
        PowerProfile::Unknown
    }
}

/// The profile a toggle switches to, by the daemon's name; none from an
/// unknown profile.
pub open spec fn next_profile_of(p: PowerProfile) -> Option<Seq<char>> {
    match p {
        PowerProfile::Balanced => Some("performance"@),
        PowerProfile::Performance => Some("power-saver"@),
        PowerProfile::PowerSaver => Some("balanced"@),
        PowerProfile::Unknown => None,
    }
}

impl PowerProfile {
    /// The profile of a daemon name.
    pub fn from_name(name: &str) -> (r: PowerProfile)
        ensures
            r == profile_of(name@),
    {
        if str_eq(name, "balanced") {
            PowerProfile::Balanced
        } else if str_eq(name, "performance") {
            PowerProfile::Performance
        } else if str_eq(name, "power-saver") {
            PowerProfile::PowerSaver
        } else {
            PowerProfile::Unknown
        }
    }

    /// The daemon name of the profile a toggle switches to.
    pub fn next_name(&self) -> (r: Option<&'static str>)
        ensures
            match r {
                Some(n) => next_profile_of(*self) == Some(n@),
                None => next_profile_of(*self) is None,
            },
    {
        match self {
            PowerProfile::Balanced => Some("performance"),
            PowerProfile::Performance => Some("power-saver"),
            PowerProfile::PowerSaver => Some("balanced"),
            PowerProfile::Unknown => None,
        }
    }

    pub fn icon(&self) -> (r: StaticIcon)
        ensures
            r == match *self {
                PowerProfile::Balanced => StaticIcon::Balanced,
                PowerProfile::Performance => StaticIcon::Performance,
                PowerProfile::PowerSaver => StaticIcon::PowerSaver,
                PowerProfile::Unknown => StaticIcon::NoIcon,
            },
    {
        match self {
            PowerProfile::Balanced => StaticIcon::Balanced,
            PowerProfile::Performance => StaticIcon::Performance,
            PowerProfile::PowerSaver => StaticIcon::PowerSaver,
            PowerProfile::Unknown => StaticIcon::NoIcon,
        }
    }
}

impl From<String> for PowerProfile {
    fn from(s: String) -> (r: PowerProfile) {
        PowerProfile::from_name(s.as_str())
    }
}

impl vstd::std_specs::convert::FromSpecImpl<String> for PowerProfile {
    open spec fn obeys_from_spec() -> bool {
        true
    }

    open spec fn from_spec(s: String) -> PowerProfile {
        profile_of(s@)
    }
}

impl Default for PowerProfile {
    fn default() -> (r: PowerProfile)
        ensures
            r == PowerProfile::Unknown,
    {
        PowerProfile::Unknown
    }
}

/// Toggling walks balanced, performance, power-saver and back: three
/// toggles from a known profile return to it.
pub proof fn law_toggle_cycles(p: PowerProfile)
    requires
        p != PowerProfile::Unknown,
    ensures
        ({
            let a = profile_of(next_profile_of(p)->0);
            let b = profile_of(next_profile_of(a)->0);
            let c = profile_of(next_profile_of(b)->0);
            &&& a != p
            &&& c == p
        }),
{
    reveal_strlit("balanced");
    reveal_strlit("performance");
    reveal_strlit("power-saver");
    assert("performance"@ != "balanced"@ && "power-saver"@ != "balanced"@ && "power-saver"@
        != "performance"@) by {
        assert("performance"@[0] != "balanced"@[0]);
        assert("power-saver"@[0] != "balanced"@[0]);
        assert("power-saver"@[1] != "performance"@[1]);
    }
    assert(profile_of("balanced"@) == PowerProfile::Balanced);
    assert(profile_of("performance"@) == PowerProfile::Performance);
    assert(profile_of("power-saver"@) == PowerProfile::PowerSaver);
}

/// What the bar shows of power.
pub struct UPowerData {
    pub system_battery: Option<BatteryData>,
    pub peripherals: Vec<Peripheral>,
    pub power_profile: PowerProfile,
}

impl Default for UPowerData {
    fn default() -> (r: UPowerData)
        ensures
            r.system_battery is None,
            r.peripherals@.len() == 0,
            r.power_profile == PowerProfile::Unknown,
    {
        UPowerData { system_battery: None, peripherals: Vec::new(), power_profile: PowerProfile::Unknown }
    }
}

/// A request of the bar to the power service.
pub enum UPowerCmd {
    TogglePowerProfile,
}

} // verus!
