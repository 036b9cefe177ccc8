//! The system battery as UPower's device list gives it: which device it
//! is, and its status from the device's state code.

use crate::upower::{BatteryData, BatteryStatus};
use vstd::prelude::*;

verus! {

/// The status a device's state code stands for: 1 charging, 2 discharging,
/// 4 full; any other code counts as discharging with no time left. Times
/// are seconds (a negative one wraps, as the cast does).
pub open spec fn status_of(state: u32, time_to_full: i64, time_to_empty: i64) -> BatteryStatus {
    if state == 1 {
        BatteryStatus::Charging(time_to_full as u64)
    } else if state == 2 {
        BatteryStatus::Discharging(time_to_empty as u64)
    } else if state == 4 {
        BatteryStatus::Full
    } else {
        BatteryStatus::Discharging(0)
    }
}

/// The status of a battery device from its state code and times.
pub fn battery_status(state: u32, time_to_full: i64, time_to_empty: i64) -> (r: BatteryStatus)
    ensures
        r == status_of(state, time_to_full, time_to_empty),
{
    if state == 1 {
        BatteryStatus::Charging(time_to_full as u64)
    } else if state == 2 {
        BatteryStatus::Discharging(time_to_empty as u64)
    } else if state == 4 {
        BatteryStatus::Full
    } else {
        BatteryStatus::Discharging(0)
    }
}

/// The system battery is the first device of type 2 (a battery) that
/// supplies the system.
pub fn battery_device(devices: &Vec<(u32, bool)>) -> (r: Option<usize>)
    ensures
        match r {
            Some(i) => i < devices@.len() && devices@[i as int].0 == 2 && devices@[i as int].1 && forall|j: int|
                0 <= j < i ==> !(devices@[j].0 == 2 && devices@[j].1),
            None => forall|j: int| 0 <= j < devices@.len() ==> !(devices@[j].0 == 2 && devices@[j].1),
        },
{
    let mut i: usize = 0;
    while i < devices.len()
        invariant
            i <= devices@.len(),
            forall|j: int| 0 <= j < i ==> !(devices@[j].0 == 2 && devices@[j].1),
        decreases devices@.len() - i,
    {
        if devices[i].0 == 2 && devices[i].1 {
            return Some(i);
        }
        i = i + 1;
    }
    None
}

/// What the battery service reports.
pub enum BatteryEvent {
    Update(BatteryData),
}

/// The battery service's value.
pub struct BatteryService {
    pub data: BatteryData,
}

impl BatteryService {
    /// An update replaces the battery data.
    pub fn update(&mut self, event: BatteryEvent)
        ensures
            match event {
                BatteryEvent::Update(d) => final(self).data == d,
            },
    {
        match event {
            BatteryEvent::Update(d) => {
                self.data = d;
            },
        }
    }
}

} // verus!
