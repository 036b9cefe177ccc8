//! The indicator states and icons the models pick for the bar.

use vstd::prelude::*;

verus! {

/// How an indicator is colored.
#[derive(Clone, Copy, PartialEq, Eq, Structural, Debug)]
pub enum IndicatorState {
    Normal,
    Success,
    Warning,
    Danger,
}

/// The icons the models choose from.
#[derive(Clone, Copy, PartialEq, Eq, Structural, Debug)]
pub enum StaticIcon {
    NoIcon,
    BatteryCharging,
    Battery0,
    Battery1,
    Battery2,
    Battery3,
    Battery4,
    Keyboard,
    Mouse,
    Headphones1,
    Gamepad,
    Balanced,
    Performance,
    PowerSaver,
    Speaker0,
    Speaker1,
    Speaker2,
    Speaker3,
    Headset,
    MonitorSpeaker,
    Mic0,
    Mic1,
}

} // verus!
