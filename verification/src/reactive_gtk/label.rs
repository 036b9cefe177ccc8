//! Labels.

use vstd::prelude::*;

verus! {

/// Where a label that does not fit is cut.
#[derive(Clone, Copy, PartialEq, Eq, Structural, Debug)]
pub enum EllipsizeMode {
    Unclipped,
    Start,
    Middle,
    End,
}

} // verus!
