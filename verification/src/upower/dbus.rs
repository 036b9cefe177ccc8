//! UPower's device model: device states and kinds as the D-Bus API numbers
//! them, and the aggregate of the system batteries.

use vstd::prelude::*;

verus! {

/// The charge state of a UPower device.
#[derive(Clone, Copy, PartialEq, Eq, Structural, Debug)]
pub enum DeviceState {
    Unknown,
    Charging,
    Discharging,
    Empty,
    FullyCharged,
    PendingCharge,
    PendingDischarge,
}

/// The number UPower uses for a device state.
pub open spec fn state_code(s: DeviceState) -> u32 {
    match s {
        DeviceState::Unknown => 0,
        DeviceState::Charging => 1,
        DeviceState::Discharging => 2,
        DeviceState::Empty => 3,
        DeviceState::FullyCharged => 4,
        DeviceState::PendingCharge => 5,
        DeviceState::PendingDischarge => 6,
    }
}

/// The state UPower reports as `v`; numbers beyond 6 name none.
pub open spec fn state_from_code(v: u32) -> Option<DeviceState> {
    if v == 0 {
        Some(DeviceState::Unknown)
    } else if v == 1 {
        Some(DeviceState::Charging)
    } else if v == 2 {
        Some(DeviceState::Discharging)
    } else if v == 3 {
        Some(DeviceState::Empty)
    } else if v == 4 {
        Some(DeviceState::FullyCharged)
    } else if v == 5 {
        Some(DeviceState::PendingCharge)
    } else if v == 6 {
        Some(DeviceState::PendingDischarge)
    } else {
        None
    }
}

impl DeviceState {
    /// The state UPower reports as `value`; numbers beyond 6 name none.
    pub fn from_u32(value: u32) -> (r: Option<DeviceState>)
        ensures
            r == state_from_code(value),
            r is Some <==> value <= 6,
            r matches Some(s) ==> state_code(s) == value,
    {
        if value == 0 {
            Some(DeviceState::Unknown)
        } else if value == 1 {
            Some(DeviceState::Charging)
        } else if value == 2 {
            Some(DeviceState::Discharging)
        } else if value == 3 {
            Some(DeviceState::Empty)
        } else if value == 4 {
            Some(DeviceState::FullyCharged)
        } else if value == 5 {
            Some(DeviceState::PendingCharge)
        } else if value == 6 {
            Some(DeviceState::PendingDischarge)
        } else {
            None
        }
    }

    /// The number of the state.
    pub fn to_u32(self) -> (r: u32)
        ensures
            r == state_code(self),
    {
        match self {
            DeviceState::Unknown => 0,
            DeviceState::Charging => 1,
            DeviceState::Discharging => 2,
            DeviceState::Empty => 3,
            DeviceState::FullyCharged => 4,
            DeviceState::PendingCharge => 5,
            DeviceState::PendingDischarge => 6,
        }
    }
}

impl Default for DeviceState {
    fn default() -> (r: DeviceState)
        ensures
            r == DeviceState::Unknown,
    {
        DeviceState::Unknown
    }
}

/// The kind of a UPower device.
#[derive(Clone, Copy, PartialEq, Eq, Structural, Debug)]
pub enum UpDeviceKind {
    Unknown,
    LinePower,
    Battery,
    Ups,
    Monitor,
    Mouse,
    Keyboard,
    Pda,
    Phone,
    MediaPlayer,
    Tablet,
    Computer,
    GamingInput,
    Pen,
    Touchpad,
    Headset,
    Speakers,
    Headphones,
}

/// The number UPower uses for a device kind (15 and 16 name none here).
pub open spec fn kind_code(k: UpDeviceKind) -> u32 {
    match k {
        UpDeviceKind::Unknown => 0,
        UpDeviceKind::LinePower => 1,
        UpDeviceKind::Battery => 2,
        UpDeviceKind::Ups => 3,
        UpDeviceKind::Monitor => 4,
        UpDeviceKind::Mouse => 5,
        UpDeviceKind::Keyboard => 6,
        UpDeviceKind::Pda => 7,
        UpDeviceKind::Phone => 8,
        UpDeviceKind::MediaPlayer => 9,
        UpDeviceKind::Tablet => 10,
        UpDeviceKind::Computer => 11,
        UpDeviceKind::GamingInput => 12,
        UpDeviceKind::Pen => 13,
        UpDeviceKind::Touchpad => 14,
        UpDeviceKind::Headset => 17,
        UpDeviceKind::Speakers => 18,
        UpDeviceKind::Headphones => 19,
    }
}

/// The description of a device kind.
pub open spec fn kind_description(k: UpDeviceKind) -> Seq<char> {
    match k {
        UpDeviceKind::Unknown => "Unknown"@,
        UpDeviceKind::LinePower => "Line Power"@,
        UpDeviceKind::Battery => "Battery"@,
        UpDeviceKind::Ups => "UPS"@,
        UpDeviceKind::Monitor => "Monitor"@,
        UpDeviceKind::Mouse => "Mouse"@,
        UpDeviceKind::Keyboard => "Keyboard"@,
        UpDeviceKind::Pda => "PDA"@,
        UpDeviceKind::Phone => "Phone"@,
        UpDeviceKind::MediaPlayer => "Media Player"@,
        UpDeviceKind::Tablet => "Tablet"@,
        UpDeviceKind::Computer => "Computer"@,
        UpDeviceKind::GamingInput => "Gaming Input"@,
        UpDeviceKind::Pen => "Pen"@,
        UpDeviceKind::Touchpad => "Touchpad"@,
        UpDeviceKind::Headset => "Headset"@,
        UpDeviceKind::Speakers => "Speakers"@,
        UpDeviceKind::Headphones => "Headphones"@,
    }
}

/// The kind UPower reports as `v`.
pub open spec fn kind_from_code(v: u32) -> Option<UpDeviceKind> {
    if v == 0 {
        Some(UpDeviceKind::Unknown)
    } else if v == 1 {
        Some(UpDeviceKind::LinePower)
    } else if v == 2 {
        Some(UpDeviceKind::Battery)
    } else if v == 3 {
        Some(UpDeviceKind::Ups)
    } else if v == 4 {
        Some(UpDeviceKind::Monitor)
    } else if v == 5 {
        Some(UpDeviceKind::Mouse)
    } else if v == 6 {
        Some(UpDeviceKind::Keyboard)
    } else if v == 7 {
        Some(UpDeviceKind::Pda)
    } else if v == 8 {
        Some(UpDeviceKind::Phone)
    } else if v == 9 {
        Some(UpDeviceKind::MediaPlayer)
    } else if v == 10 {
        Some(UpDeviceKind::Tablet)
    } else if v == 11 {
        Some(UpDeviceKind::Computer)
    } else if v == 12 {
        Some(UpDeviceKind::GamingInput)
    } else if v == 13 {
        Some(UpDeviceKind::Pen)
    } else if v == 14 {
        Some(UpDeviceKind::Touchpad)
    } else if v == 17 {
        Some(UpDeviceKind::Headset)
    } else if v == 18 {
        Some(UpDeviceKind::Speakers)
    } else if v == 19 {
        Some(UpDeviceKind::Headphones)
    } else {
        None
    }
}

impl UpDeviceKind {
    /// The kind UPower reports as `value`.
    pub fn from_u32(value: u32) -> (r: Option<UpDeviceKind>)
        ensures
            r == kind_from_code(value),
            r is Some <==> (value <= 14 || (17 <= value <= 19)),
            r matches Some(k) ==> kind_code(k) == value,
    {
        if value == 0 {
            Some(UpDeviceKind::Unknown)
        } else if value == 1 {
            Some(UpDeviceKind::LinePower)
        } else if value == 2 {
            Some(UpDeviceKind::Battery)
        } else if value == 3 {
            Some(UpDeviceKind::Ups)
        } else if value == 4 {
            Some(UpDeviceKind::Monitor)
        } else if value == 5 {
            Some(UpDeviceKind::Mouse)
        } else if value == 6 {
            Some(UpDeviceKind::Keyboard)
        } else if value == 7 {
            Some(UpDeviceKind::Pda)
        } else if value == 8 {
            Some(UpDeviceKind::Phone)
        } else if value == 9 {
            Some(UpDeviceKind::MediaPlayer)
        } else if value == 10 {
            Some(UpDeviceKind::Tablet)
        } else if value == 11 {
            Some(UpDeviceKind::Computer)
        } else if value == 12 {
            Some(UpDeviceKind::GamingInput)
        } else if value == 13 {
            Some(UpDeviceKind::Pen)
        } else if value == 14 {
            Some(UpDeviceKind::Touchpad)
        } else if value == 17 {
            Some(UpDeviceKind::Headset)
        } else if value == 18 {
            Some(UpDeviceKind::Speakers)
        } else if value == 19 {
            Some(UpDeviceKind::Headphones)
        } else {
            None
        }
    }

    /// The number of the kind.
    pub fn to_u32(self) -> (r: u32)
        ensures
            r == kind_code(self),
    {
        match self {
            UpDeviceKind::Unknown => 0,
            UpDeviceKind::LinePower => 1,
            UpDeviceKind::Battery => 2,
            UpDeviceKind::Ups => 3,
            UpDeviceKind::Monitor => 4,
            UpDeviceKind::Mouse => 5,
            UpDeviceKind::Keyboard => 6,
            UpDeviceKind::Pda => 7,
            UpDeviceKind::Phone => 8,
            UpDeviceKind::MediaPlayer => 9,
            UpDeviceKind::Tablet => 10,
            UpDeviceKind::Computer => 11,
            UpDeviceKind::GamingInput => 12,
            UpDeviceKind::Pen => 13,
            UpDeviceKind::Touchpad => 14,
            UpDeviceKind::Headset => 17,
            UpDeviceKind::Speakers => 18,
            UpDeviceKind::Headphones => 19,
        }
    }

    /// A peripheral input device: mice, keyboards, gamepads and headsets.
    pub fn is_peripheral(&self) -> (r: bool)
        ensures
            r <==> (*self == UpDeviceKind::Mouse || *self == UpDeviceKind::Keyboard || *self
                == UpDeviceKind::GamingInput || *self == UpDeviceKind::Headset || *self
                == UpDeviceKind::Headphones),
    {
        match self {
            UpDeviceKind::Mouse | UpDeviceKind::Keyboard | UpDeviceKind::GamingInput
            | UpDeviceKind::Headset | UpDeviceKind::Headphones => true,
            _ => false,
        }
    }

    /// A source of system power: a battery.
    pub fn is_power_source(&self) -> (r: bool)
        ensures
            r <==> *self == UpDeviceKind::Battery,
    {
        match self {
            UpDeviceKind::Battery => true,
            _ => false,
        }
    }

    /// A human-readable description.
    pub fn description(&self) -> (r: &'static str)
        ensures
            r@ == kind_description(*self),
    {
        match self {
            UpDeviceKind::Unknown => "Unknown",
            UpDeviceKind::LinePower => "Line Power",
            UpDeviceKind::Battery => "Battery",
            UpDeviceKind::Ups => "UPS",
            UpDeviceKind::Monitor => "Monitor",
            UpDeviceKind::Mouse => "Mouse",
            UpDeviceKind::Keyboard => "Keyboard",
            UpDeviceKind::Pda => "PDA",
            UpDeviceKind::Phone => "Phone",
            UpDeviceKind::MediaPlayer => "Media Player",
            UpDeviceKind::Tablet => "Tablet",
            UpDeviceKind::Computer => "Computer",
            UpDeviceKind::GamingInput => "Gaming Input",
            UpDeviceKind::Pen => "Pen",
            UpDeviceKind::Touchpad => "Touchpad",
            UpDeviceKind::Headset => "Headset",
            UpDeviceKind::Speakers => "Speakers",
            UpDeviceKind::Headphones => "Headphones",
        }
    }

    /// The kind of a device type number; unknown numbers are `Unknown`.
    pub fn from_u32_or_unknown(value: u32) -> (r: UpDeviceKind)
        ensures
            (value <= 14 || (17 <= value <= 19)) ==> kind_code(r) == value,
            !(value <= 14 || (17 <= value <= 19)) ==> r == UpDeviceKind::Unknown,
    {
        match UpDeviceKind::from_u32(value) {
            Some(k) => k,
            None => UpDeviceKind::Unknown,
        }
    }
}

impl Default for UpDeviceKind {
    fn default() -> (r: UpDeviceKind)
        ensures
            r == UpDeviceKind::Unknown,
    {
        UpDeviceKind::Unknown
    }
}

impl From<UpDeviceKind> for u32 {
    /// The number UPower uses for the kind.
    fn from(kind: UpDeviceKind) -> (r: u32) {
        kind.to_u32()
    }
}

impl vstd::std_specs::convert::FromSpecImpl<UpDeviceKind> for u32 {
    open spec fn obeys_from_spec() -> bool {
        true
    }

    open spec fn from_spec(kind: UpDeviceKind) -> u32 {
        kind_code(kind)
    }
}

/// Converting a kind to its number and back gives the kind again, and a
/// number that names a kind is that kind's number.
pub proof fn law_kind_code_round_trip(k: UpDeviceKind, v: u32)
    ensures
        kind_from_code(kind_code(k)) == Some(k),
        kind_from_code(v) matches Some(j) ==> kind_code(j) == v,
{
}

/// Converting a state to its number and back gives the state again, and
/// a number that names a state is that state's number.
pub proof fn law_state_code_round_trip(s: DeviceState, v: u32)
    ensures
        state_from_code(state_code(s)) == Some(s),
        state_from_code(v) matches Some(t) ==> state_code(t) == v,
{
}

/// The batteries UPower counts as the system battery.
pub fn is_system_battery(kind: UpDeviceKind, power_supply: bool) -> (r: bool)
    ensures
        r == (kind == UpDeviceKind::Battery && power_supply),
{
    kind.is_power_source() && power_supply
}

/// The batteries of peripherals: peripheral kinds that do not power the
/// system.
pub fn is_peripheral_battery(kind: UpDeviceKind, power_supply: bool) -> (r: bool)
    ensures
        r == ((kind == UpDeviceKind::Mouse || kind == UpDeviceKind::Keyboard || kind
            == UpDeviceKind::GamingInput || kind == UpDeviceKind::Headset || kind
            == UpDeviceKind::Headphones) && !power_supply),
{
    kind.is_peripheral() && !power_supply
}

/// What the system battery aggregate reads of one device.
pub struct BatteryDevice {
    pub path: String,
    /// `EnergyFull` was read and is zero: a placeholder battery.
    pub zero_capacity: bool,
    /// `State`, when it could be read.
    pub state: Option<u32>,
    pub time_to_empty: Option<i64>,
    pub time_to_full: Option<i64>,
}

/// The batteries that together power the system.
pub struct SystemBattery(pub Vec<BatteryDevice>);

/// The state a device counts with: none for a placeholder battery or one
/// whose state could not be read or is not a state UPower names.
pub open spec fn counted_state(d: BatteryDevice) -> Option<DeviceState> {
    if d.zero_capacity {
        None
    } else {
        match d.state {
            Some(v) => state_from_code(v),
            None => None,
        }
    }
}

/// How many devices count, and how many of those are in state `s`.
pub open spec fn count_counted(ds: Seq<BatteryDevice>) -> nat
    decreases ds.len(),
{
    if ds.len() == 0 {
        0
    } else {
        count_counted(ds.drop_last()) + if counted_state(ds.last()) is Some {
            1nat
        } else {
            0nat
        }
    }
}

pub open spec fn count_in_state(ds: Seq<BatteryDevice>, s: DeviceState) -> nat
    decreases ds.len(),
{
    if ds.len() == 0 {
        0
    } else {
        count_in_state(ds.drop_last(), s) + if counted_state(ds.last()) == Some(s) {
            1nat
        } else {
            0nat
        }
    }
}

/// The state of the system battery: unknown without a counted device, full
/// only when every counted device is, else charging when one charges,
/// discharging when one discharges, and unknown otherwise.
pub open spec fn aggregate_state(ds: Seq<BatteryDevice>) -> DeviceState {
    if count_counted(ds) == 0 {
        DeviceState::Unknown
    } else if count_in_state(ds, DeviceState::FullyCharged) == count_counted(ds) {
        DeviceState::FullyCharged
    } else if count_in_state(ds, DeviceState::Charging) > 0 {
        DeviceState::Charging
    } else if count_in_state(ds, DeviceState::Discharging) > 0 {
        DeviceState::Discharging
    } else {
        DeviceState::Unknown
    }
}

/// The sum of the readings that were read.
pub open spec fn time_sum(ts: Seq<Option<i64>>) -> int
    decreases ts.len(),
{
    if ts.len() == 0 {
        0
    } else {
        time_sum(ts.drop_last()) + match ts.last() {
            Some(t) => t as int,
            None => 0,
        }
    }
}

/// Every partial sum fits an `i64`.
pub open spec fn sums_fit(ts: Seq<Option<i64>>) -> bool {
    forall|k: int| 0 <= k <= ts.len() ==> i64::MIN <= #[trigger] time_sum(ts.take(k)) <= i64::MAX
}

pub open spec fn empty_times(ds: Seq<BatteryDevice>) -> Seq<Option<i64>> {
    ds.map_values(|d: BatteryDevice| d.time_to_empty)
}

pub open spec fn full_times(ds: Seq<BatteryDevice>) -> Seq<Option<i64>> {
    ds.map_values(|d: BatteryDevice| d.time_to_full)
}

fn sum_times(ts: &Vec<Option<i64>>) -> (r: i64)
    requires
        sums_fit(ts@),
    ensures
        r == time_sum(ts@),
{
    let mut total: i64 = 0;
    let mut i: usize = 0;
    assert(ts@.take(0) =~= Seq::<Option<i64>>::empty());
    while i < ts.len()
        invariant
            i <= ts@.len(),
            sums_fit(ts@),
            total == time_sum(ts@.take(i as int)),
        decreases ts@.len() - i,
    {
        assert(ts@.take(i + 1).drop_last() =~= ts@.take(i as int));
        assert(i64::MIN <= time_sum(ts@.take(i + 1)) <= i64::MAX);
        if let Some(t) = ts[i] {
            total = total + t;
        }
        i = i + 1;
    }
    assert(ts@.take(ts@.len() as int) =~= ts@);
    total
}

impl SystemBattery {
    /// The charge state of the system battery as a whole.
    pub fn state(&self) -> (r: DeviceState)
        ensures
            r == aggregate_state(self.0@),
    {
        let mut counted: u64 = 0;
        let mut full: u64 = 0;
        let mut charging: u64 = 0;
        let mut discharging: u64 = 0;
        let mut i: usize = 0;
        while i < self.0.len()
            invariant
                i <= self.0@.len(),
                counted == count_counted(self.0@.take(i as int)),
                full == count_in_state(self.0@.take(i as int), DeviceState::FullyCharged),
                charging == count_in_state(self.0@.take(i as int), DeviceState::Charging),
                discharging == count_in_state(self.0@.take(i as int), DeviceState::Discharging),
                counted <= i,
                full <= i,
                charging <= i,
                discharging <= i,
            decreases self.0@.len() - i,
        {
            let ghost t = self.0@.take(i + 1);
            assert(t.drop_last() =~= self.0@.take(i as int));
            assert(t.last() == self.0@[i as int]);
            let device = &self.0[i];
            if !device.zero_capacity {
                if let Some(raw) = device.state {
                    if let Some(state) = DeviceState::from_u32(raw) {
                        assert(counted_state(*device) == Some(state));
                        counted = counted + 1;
                        match state {
                            DeviceState::Charging => charging = charging + 1,
                            DeviceState::Discharging => discharging = discharging + 1,
                            DeviceState::FullyCharged => full = full + 1,
                            _ => {},
                        }
                    }
                }
            }
            i = i + 1;
        }
        assert(self.0@.take(self.0@.len() as int) =~= self.0@);
        if counted == 0 {
            DeviceState::Unknown
        } else if full == counted {
            DeviceState::FullyCharged
        } else if charging > 0 {
            DeviceState::Charging
        } else if discharging > 0 {
            DeviceState::Discharging
        } else {
            DeviceState::Unknown
        }
    }

    /// Seconds until every battery is empty: the sum of the readings.
    pub fn time_to_empty(&self) -> (r: i64)
        requires
            sums_fit(empty_times(self.0@)),
        ensures
            r == time_sum(empty_times(self.0@)),
    {
        let mut ts: Vec<Option<i64>> = Vec::new();
        let mut i: usize = 0;
        while i < self.0.len()
            invariant
                i <= self.0@.len(),
                ts@ == empty_times(self.0@).take(i as int),
            decreases self.0@.len() - i,
        {
            ts.push(self.0[i].time_to_empty);
            assert(ts@ =~= empty_times(self.0@).take(i + 1));
            i = i + 1;
        }
        assert(ts@ =~= empty_times(self.0@));
        sum_times(&ts)
    }

    /// Seconds until every battery is full: the sum of the readings.
    pub fn time_to_full(&self) -> (r: i64)
        requires
            sums_fit(full_times(self.0@)),
        ensures
            r == time_sum(full_times(self.0@)),
    {
        let mut ts: Vec<Option<i64>> = Vec::new();
        let mut i: usize = 0;
        while i < self.0.len()
            invariant
                i <= self.0@.len(),
                ts@ == full_times(self.0@).take(i as int),
            decreases self.0@.len() - i,
        {
            ts.push(self.0[i].time_to_full);
            assert(ts@ =~= full_times(self.0@).take(i + 1));
            i = i + 1;
        }
        assert(ts@ =~= full_times(self.0@));
        sum_times(&ts)
    }

    /// The object paths of the batteries.
    pub fn get_devices_path(self) -> (r: Vec<String>)
        ensures
            r@.len() == self.0@.len(),
            forall|i: int| 0 <= i < r@.len() ==> #[trigger] r@[i]@ == self.0@[i].path@,
    {
        let mut r: Vec<String> = Vec::new();
        let mut i: usize = 0;
        while i < self.0.len()
            invariant
                i <= self.0@.len(),
                r@.len() == i,
                forall|j: int| 0 <= j < i ==> #[trigger] r@[j]@ == self.0@[j].path@,
            decreases self.0@.len() - i,
        {
            r.push(self.0[i].path.clone());
            i = i + 1;
        }
        r
    }
}

impl Default for SystemBattery {
    fn default() -> (r: SystemBattery)
        ensures
            r.0@.len() == 0,
    {
        SystemBattery(Vec::new())
    }
}

} // verus!
