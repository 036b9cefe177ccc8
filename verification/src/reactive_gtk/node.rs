//! Properties every widget has.

use vstd::prelude::*;

verus! {

/// How a widget is aligned in the space it gets.
#[derive(Clone, Copy, PartialEq, Eq, Structural, Debug)]
pub enum Align {
    Fill,
    Baseline,
    Start,
    Center,
    End,
}

} // verus!
