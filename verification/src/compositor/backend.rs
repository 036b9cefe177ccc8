//! What every compositor backend shares: which backend a session gets, the
//! refusal of a request a backend does not carry out, the patches its state
//! sources send, and how the service keeps the latest state.

use super::types::{CompositorChoice, CompositorCommand, CompositorState};
use crate::compat::ReadOnlyService;
use crate::text::push_str;
use vstd::prelude::*;

verus! {

/// The backend of a session: Hyprland first, then niri, then the generic
/// Wayland protocols, as far as each is available.
pub fn detect(hyprland: bool, niri: bool, generic: bool) -> (r: Option<CompositorChoice>)
    ensures
        r == if hyprland {
            Some(CompositorChoice::Hyprland)
        } else if niri {
            Some(CompositorChoice::Niri)
        } else if generic {
            Some(CompositorChoice::Generic)
        } else {
            None
        },
{
    if hyprland {
        Some(CompositorChoice::Hyprland)
    } else if niri {
        Some(CompositorChoice::Niri)
    } else if generic {
        Some(CompositorChoice::Generic)
    } else {
        None
    }
}

/// What a request asks, in words.
pub open spec fn request_words(cmd: CompositorCommand) -> Seq<char> {
    match cmd {
        CompositorCommand::FocusWorkspace(_) => "focus workspace"@,
        CompositorCommand::FocusSpecialWorkspace(_) => "focus special workspace"@,
        CompositorCommand::ToggleSpecialWorkspace(_) => "toggle special workspace"@,
        CompositorCommand::FocusMonitor(_) => "focus monitor"@,
        CompositorCommand::ScrollWorkspace(_) => "scroll workspace"@,
        CompositorCommand::CustomDispatch(_, _) => "custom dispatch"@,
        CompositorCommand::NextLayout => "switch keyboard layout"@,
    }
}

/// The error of a backend that does not carry out a request.
pub fn default_refusal(cmd: &CompositorCommand) -> (r: String)
    ensures
        r@ == request_words(*cmd) + " is not supported on this compositor"@,
{
    let words: &str = match cmd {
        CompositorCommand::FocusWorkspace(_) => "focus workspace",
        CompositorCommand::FocusSpecialWorkspace(_) => "focus special workspace",
        CompositorCommand::ToggleSpecialWorkspace(_) => "toggle special workspace",
        CompositorCommand::FocusMonitor(_) => "focus monitor",
        CompositorCommand::ScrollWorkspace(_) => "scroll workspace",
        CompositorCommand::CustomDispatch(_, _) => "custom dispatch",
        CompositorCommand::NextLayout => "switch keyboard layout",
    };
    let mut r = String::new();
    push_str(&mut r, words);
    push_str(&mut r, " is not supported on this compositor");
    r
}

/// A change a state source sends: a whole new state.
pub enum StatePatch {
    Full(Box<CompositorState>),
}

impl StatePatch {
    /// The state after the patch.
    pub fn apply_to(self, state: &mut CompositorState)
        ensures
            match self {
                StatePatch::Full(s) => *final(state) == *s,
            },
    {
        match self {
            StatePatch::Full(s) => {
                *state = *s;
            },
        }
    }
}

/// What the compositor service reports: a request carried out, or a new
/// state.
pub enum CompositorEvent {
    ActionPerformed,
    StateChanged(Box<CompositorState>),
}

/// The compositor state the bar keeps, and its backend.
pub struct CompositorService {
    pub state: CompositorState,
    pub backend: CompositorChoice,
}

impl ReadOnlyService for CompositorService {
    type UpdateEvent = CompositorEvent;
    type Error = String;

    /// A new state replaces the kept one; a carried-out request changes
    /// nothing.
    open spec fn updated(&self, event: CompositorEvent) -> CompositorService {
        match event {
            CompositorEvent::StateChanged(s) => CompositorService { state: *s, backend: self.backend },
            CompositorEvent::ActionPerformed => *self,
        }
    }

    fn update(&mut self, event: CompositorEvent)
        ensures
            match event {
                CompositorEvent::StateChanged(s) => final(self).state == *s && final(self).backend == old(self).backend,
                CompositorEvent::ActionPerformed => *final(self) == *old(self),
            },
    {
        match event {
            CompositorEvent::StateChanged(s) => {
                self.state = *s;
            },
            CompositorEvent::ActionPerformed => {},
        }
    }
}

} // verus!
