//! Verified core of a desktop status bar: the state mapping of the compositor
//! backends, the tray, power, network and the other service models, each with
//! the contracts that pin down what it computes.

pub mod audio;
pub mod battery;
pub mod bluetooth;
pub mod brightness;
pub mod compat;
pub mod compositor;
pub mod icons;
pub mod ics_time;
pub mod idle_inhibitor;
pub mod keyboard_locks;
pub mod keyed;
pub mod logind;
pub mod mpris;
pub mod network;
pub mod notifications;
pub mod order;
pub mod privacy;
pub mod reactive_gtk;
pub mod settings;
pub mod system_info;
pub mod tempo_calendar;
pub mod text;
pub mod throttle;
pub mod tray;
pub mod updates;
pub mod upower;
pub mod user_services;
pub mod xdg_icons;
