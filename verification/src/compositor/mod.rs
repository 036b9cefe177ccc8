//! Compositor backends and the state they all map into.

pub mod backend;
pub mod generic;
pub mod generic_events;
pub mod hyprland;
pub mod mangowc;
pub mod niri;
pub mod sway;
pub mod types;
pub mod wayfire;
