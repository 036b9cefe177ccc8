//! Scrolled windows.

use vstd::prelude::*;

verus! {

/// When a scrolled window shows its scrollbar.
#[derive(Clone, Copy, PartialEq, Eq, Structural, Debug)]
pub enum PolicyType {
    Always,
    Automatic,
    Never,
}

} // verus!
