//! The declarative widget layer: surfaces and the enums the widgets take.

pub mod app;
pub mod container;
pub mod flex_box;
pub mod label;
pub mod node;
pub mod scrolled_window;
