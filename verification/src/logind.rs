//! Resume from sleep, as logind announces it.

use vstd::prelude::*;

verus! {

/// The machine woke up.
#[derive(Clone, Copy, PartialEq, Eq, Structural, Debug)]
pub struct ResumeEvent;

/// The logind listener.
#[derive(Clone, Copy, PartialEq, Eq, Structural, Debug)]
pub struct LogindService;

/// `PrepareForSleep(starting)`: the end of a sleep (`starting` false) is a
/// resume.
pub fn resume_of(starting: bool) -> (r: Option<ResumeEvent>)
    ensures
        r is Some <==> !starting,
{
    if starting {
        None
    } else {
        Some(ResumeEvent)
    }
}

} // verus!
