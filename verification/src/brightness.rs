//! Backlight brightness: the values read from sysfs and the updates the
//! bar shows.

use crate::text::{parse_u32, trim, trimmed, u32_of};
use vstd::prelude::*;

verus! {

/// The backlight's current and maximal brightness.
#[derive(Clone, Copy, PartialEq, Eq, Structural, Debug)]
pub struct BrightnessData {
    pub current: u32,
    pub max: u32,
}

impl Default for BrightnessData {
    fn default() -> (r: BrightnessData)
        ensures
            r.current == 0 && r.max == 0,
    {
        BrightnessData { current: 0, max: 0 }
    }
}

/// A new brightness reported by the backlight.
#[derive(Clone, Copy, PartialEq, Eq, Structural, Debug)]
pub struct BrightnessEvent(pub u32);

/// A brightness the bar asks for.
#[derive(Clone, Copy, PartialEq, Eq, Structural, Debug)]
pub struct BrightnessCommand(pub u32);

/// A value of a sysfs brightness file: a decimal number between white
/// space.
pub fn parse_brightness(contents: &str) -> (r: Option<u32>)
    ensures
        r == u32_of(trimmed(contents@)),
{
    let t = trim(contents);
    parse_u32(t.as_str())
}

/// A change of the backlight is reported when the value read differs from
/// the one read when listening started.
pub fn brightness_change(start_value: u32, new_value: u32) -> (r: Option<BrightnessEvent>)
    ensures
        r == if new_value != start_value {
            Some(BrightnessEvent(new_value))
        } else {
            None
        },
{
    if new_value != start_value {
        Some(BrightnessEvent(new_value))
    } else {
        None
    }
}

/// The service state the bar holds.
pub struct BrightnessService {
    pub data: BrightnessData,
}

impl BrightnessService {
    /// A reported value becomes the current brightness.
    pub fn update(&mut self, event: BrightnessEvent)
        ensures
            final(self).data.current == event.0,
            final(self).data.max == old(self).data.max,
    {
        self.data.current = event.0;
    }
}

} // verus!
