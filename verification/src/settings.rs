//! The settings menu's decisions: which sub-menu is open, the classes of
//! the settings button, and the battery label.

use crate::text::{i64_to_string, push_str, decimal};
use vstd::prelude::*;

verus! {

/// A sub-menu of the settings menu.
#[derive(Clone, Copy, PartialEq, Eq, Structural, Debug)]
pub enum SubMenu {
    Power,
    Audio,
    Microphone,
}

/// The sub-menu open after its button is pressed: pressing the open one
/// closes it, any other opens.
pub fn toggle_sub_menu(current: Option<SubMenu>, pressed: SubMenu) -> (r: Option<SubMenu>)
    ensures
        r == if current == Some(pressed) {
            None
        } else {
            Some(pressed)
        },
{
    match current {
        Some(m) => if m == pressed {
            None
        } else {
            Some(pressed)
        },
        None => Some(pressed),
    }
}

/// The classes of the settings button: highlighted while its menu is open.
pub fn settings_button_classes(menu_open: bool) -> (r: Vec<&'static str>)
    ensures
        menu_open ==> r@.len() == 6 && r@[5]@ == "active"@,
        !menu_open ==> r@.len() == 5,
        forall|i: int| 0 <= i < 5 ==> #[trigger] r@[i]@ == seq!["bg"@, "pl-2"@, "pr-4"@, "rounded-r-m"@, "interactive"@][i],
{
    let mut v: Vec<&'static str> = Vec::new();
    v.push("bg");
    v.push("pl-2");
    v.push("pr-4");
    v.push("rounded-r-m");
    v.push("interactive");
    if menu_open {
        v.push("active");
    }
    v
}

/// The battery label: the capacity and a percent sign.
pub fn battery_label(capacity: i64) -> (r: String)
    ensures
        r@ == decimal(capacity as int) + "%"@,
{
    let mut s = i64_to_string(capacity);
    push_str(&mut s, "%");
    s
}

} // verus!
