//! The service runner's decisions: how a service's events change the value
//! the bar shows, and which services a benchmark run starts.

use crate::tempo_calendar::{split_char, split_on};
use crate::text::{occurs_in, str_contains, views};
use vstd::prelude::*;

verus! {

/// A service the bar reads: it is updated by its events.
pub trait ReadOnlyService: Sized {
    type UpdateEvent;
    type Error;

    /// The value after an update.
    spec fn updated(&self, event: Self::UpdateEvent) -> Self;

    fn update(&mut self, event: Self::UpdateEvent)
        ensures
            *final(self) == old(self).updated(event),
    ;
}

/// What a service reports: its first value, an update, or an error.
pub enum ServiceEvent<S: ReadOnlyService> {
    Init(S),
    Update(S::UpdateEvent),
    Error(S::Error),
}

/// Applies an event to the service value the runner keeps, and says whether
/// the value is to be published: a first value replaces it and is
/// published; an update applies to a value there is and publishes it, and
/// is dropped before the first value; an error changes nothing.
pub fn apply_event<S: ReadOnlyService>(service: &mut Option<S>, event: ServiceEvent<S>) -> (publish: bool)
    ensures
        match event {
            ServiceEvent::Init(s) => *final(service) == Some(s) && publish,
            ServiceEvent::Update(u) => match *old(service) {
                Some(v) => publish && *final(service) == Some(v.updated(u)),
                None => !publish && *final(service) is None,
            },
            ServiceEvent::Error(_) => !publish && *final(service) == *old(service),
        },
{
    match event {
        ServiceEvent::Init(s) => {
            *service = Some(s);
            true
        },
        ServiceEvent::Update(u) => match service {
            Some(s) => {
                s.update(u);
                true
            },
            None => false,
        },
        ServiceEvent::Error(_) => false,
    }
}

/// A benchmark run limited to some services starts the ones whose type
/// name holds one of the comma-separated fragments.
pub fn bench_selected(only: &str, name: &str) -> (r: bool)
    ensures
        r == exists|i: int|
            0 <= i < split_char(only@, ',').len() && occurs_in(#[trigger] split_char(only@, ',')[i], name@),
{
    let frags = split_on(only, ',');
    let ghost fs = views(frags@);
    let mut i: usize = 0;
    while i < frags.len()
        invariant
            fs == views(frags@),
            fs == split_char(only@, ','),
            i <= frags@.len(),
            forall|j: int| 0 <= j < i ==> !occurs_in(#[trigger] fs[j], name@),
        decreases frags@.len() - i,
    {
        assert(fs[i as int] == frags@[i as int]@);
        if str_contains(name, frags[i].as_str()) {
            return true;
        }
        i = i + 1;
    }
    false
}

} // verus!
