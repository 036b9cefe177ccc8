//! The box container.

use vstd::prelude::*;

verus! {

/// The direction a box lays out its children.
#[derive(Clone, Copy, PartialEq, Eq, Structural, Debug)]
pub enum Orientation {
    Horizontal,
    Vertical,
}

} // verus!
