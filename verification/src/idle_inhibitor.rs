//! The idle inhibitor's bookkeeping of Wayland globals and its decisions:
//! which global to bind, what a removal clears, and when an inhibitor is
//! created or destroyed.

use crate::text::str_eq;
use vstd::prelude::*;

verus! {

/// A Wayland global the inhibitor uses.
#[derive(Clone, Copy, PartialEq, Eq, Structural, Debug)]
pub enum GlobalKind {
    Compositor,
    IdleManager,
    LayerShell,
    Shm,
}

/// What the registry announces.
pub enum RegistryEvent {
    Global { name: u32, interface: String },
    GlobalRemove { name: u32 },
}

/// What the inhibitor's surface reports.
#[derive(Clone, Copy, PartialEq, Eq, Structural, Debug)]
pub enum LayerSurfaceEvent {
    Configure,
    Closed,
}

/// The globals bound (by their registry names) and the state of the
/// inhibitor's surface and inhibitor.
#[derive(Clone, Copy, PartialEq, Eq, Structural, Debug)]
pub struct IdleState {
    pub compositor: Option<u32>,
    pub has_surface: bool,
    pub shm: Option<u32>,
    pub idle_manager: Option<u32>,
    pub layer_shell: Option<u32>,
    pub has_layer_surface: bool,
    pub surface_ready: bool,
    pub inhibited: bool,
}

/// The global kind of an interface name, if the inhibitor uses it.
pub open spec fn kind_of(interface: Seq<char>) -> Option<GlobalKind> {
    if interface == "wl_compositor"@ {
        Some(GlobalKind::Compositor)
    } else if interface == "zwp_idle_inhibit_manager_v1"@ {
        Some(GlobalKind::IdleManager)
    } else if interface == "zwlr_layer_shell_v1"@ {
        Some(GlobalKind::LayerShell)
    } else if interface == "wl_shm"@ {
        Some(GlobalKind::Shm)
    } else {
        None
    }
}

/// The global kind of an interface name.
pub fn global_kind(interface: &str) -> (r: Option<GlobalKind>)
    ensures
        r == kind_of(interface@),
{
    if str_eq(interface, "wl_compositor") {
        Some(GlobalKind::Compositor)
    } else if str_eq(interface, "zwp_idle_inhibit_manager_v1") {
        Some(GlobalKind::IdleManager)
    } else if str_eq(interface, "zwlr_layer_shell_v1") {
        Some(GlobalKind::LayerShell)
    } else if str_eq(interface, "wl_shm") {
        Some(GlobalKind::Shm)
    } else {
        None
    }
}

/// What to do about an inhibitor.
#[derive(Clone, Copy, PartialEq, Eq, Structural, Debug)]
pub enum InhibitAction {
    Nothing,
    Create,
    Destroy,
}

impl IdleState {
    /// Nothing bound yet.
    pub fn new() -> (r: Self)
        ensures
            r.compositor is None && !r.has_surface && r.shm is None && r.idle_manager is None && r.layer_shell is None
                && !r.has_layer_surface && !r.surface_ready && !r.inhibited,
    {
        IdleState {
            compositor: None,
            has_surface: false,
            shm: None,
            idle_manager: None,
            layer_shell: None,
            has_layer_surface: false,
            surface_ready: false,
            inhibited: false,
        }
    }

    /// A registry event: a global of a kind not bound yet is bound (the
    /// compositor also gives the surface) and returned; a removal clears the
    /// first of compositor, idle manager and layer shell with that name,
    /// with what depends on it.
    pub fn on_registry(&mut self, event: &RegistryEvent) -> (r: Option<GlobalKind>)
        ensures
            match *event {
                RegistryEvent::Global { name, interface } => match kind_of(interface@) {
                    Some(GlobalKind::Compositor) => if old(self).compositor is None {
                        r == Some(GlobalKind::Compositor) && *final(self) == IdleState {
                            compositor: Some(name),
                            has_surface: true,
                            ..*old(self)
                        }
                    } else {
                        r is None && *final(self) == *old(self)
                    },
                    Some(GlobalKind::IdleManager) => if old(self).idle_manager is None {
                        r == Some(GlobalKind::IdleManager) && *final(self) == IdleState {
                            idle_manager: Some(name),
                            ..*old(self)
                        }
                    } else {
                        r is None && *final(self) == *old(self)
                    },
                    Some(GlobalKind::LayerShell) => if old(self).layer_shell is None {
                        r == Some(GlobalKind::LayerShell) && *final(self) == IdleState {
                            layer_shell: Some(name),
                            ..*old(self)
                        }
                    } else {
                        r is None && *final(self) == *old(self)
                    },
                    Some(GlobalKind::Shm) => if old(self).shm is None {
                        r == Some(GlobalKind::Shm) && *final(self) == IdleState { shm: Some(name), ..*old(self) }
                    } else {
                        r is None && *final(self) == *old(self)
                    },
                    None => r is None && *final(self) == *old(self),
                },
                RegistryEvent::GlobalRemove { name } => r is None && if old(self).compositor == Some(name) {
                    *final(self) == IdleState {
                        compositor: None,
                        has_surface: false,
                        surface_ready: false,
                        ..*old(self)
                    }
                } else if old(self).idle_manager == Some(name) {
                    *final(self) == IdleState { idle_manager: None, ..*old(self) }
                } else if old(self).layer_shell == Some(name) {
                    *final(self) == IdleState {
                        layer_shell: None,
                        has_layer_surface: false,
                        surface_ready: false,
                        ..*old(self)
                    }
                } else {
                    *final(self) == *old(self)
                },
            },
    {
        match event {
            RegistryEvent::Global { name, interface } => match global_kind(interface.as_str()) {
                Some(GlobalKind::Compositor) => if self.compositor.is_none() {
                    self.compositor = Some(*name);
                    self.has_surface = true;
                    Some(GlobalKind::Compositor)
                } else {
                    None
                },
                Some(GlobalKind::IdleManager) => if self.idle_manager.is_none() {
                    self.idle_manager = Some(*name);
                    Some(GlobalKind::IdleManager)
                } else {
                    None
                },
                Some(GlobalKind::LayerShell) => if self.layer_shell.is_none() {
                    self.layer_shell = Some(*name);
                    Some(GlobalKind::LayerShell)
                } else {
                    None
                },
                Some(GlobalKind::Shm) => if self.shm.is_none() {
                    self.shm = Some(*name);
                    Some(GlobalKind::Shm)
                } else {
                    None
                },
                None => None,
            },
            RegistryEvent::GlobalRemove { name } => {
                if self.compositor == Some(*name) {
                    self.compositor = None;
                    self.has_surface = false;
                    self.surface_ready = false;
                } else if self.idle_manager == Some(*name) {
                    self.idle_manager = None;
                } else if self.layer_shell == Some(*name) {
                    self.layer_shell = None;
                    self.has_layer_surface = false;
                    self.surface_ready = false;
                }
                None
            },
        }
    }

    /// The surface gets its layer role when there is a surface and a layer
    /// shell.
    pub fn attach_layer_surface(&mut self) -> (r: bool)
        ensures
            r == (old(self).has_surface && old(self).layer_shell is Some),
            *final(self) == if r {
                IdleState { has_layer_surface: true, ..*old(self) }
            } else {
                *old(self)
            },
    {
        if self.has_surface && self.layer_shell.is_some() {
            self.has_layer_surface = true;
            true
        } else {
            false
        }
    }

    /// The layer surface's events: a configure maps it, a close unmaps it.
    pub fn on_layer_surface(&mut self, event: LayerSurfaceEvent)
        ensures
            *final(self) == match event {
                LayerSurfaceEvent::Configure => IdleState { surface_ready: true, ..*old(self) },
                LayerSurfaceEvent::Closed => IdleState {
                    has_layer_surface: false,
                    surface_ready: false,
                    ..*old(self)
                },
            },
    {
        match event {
            LayerSurfaceEvent::Configure => {
                self.surface_ready = true;
            },
            LayerSurfaceEvent::Closed => {
                self.has_layer_surface = false;
                self.surface_ready = false;
            },
        }
    }

    /// Sets whether idling is inhibited: without an idle manager nothing
    /// happens; an inhibitor is created on the surface when asked for and
    /// there is none (and a surface to put it on), and destroyed when not
    /// asked for and there is one.
    pub fn set_inhibit_idle(&mut self, inhibit: bool) -> (r: InhibitAction)
        ensures
            r == if old(self).idle_manager is None {
                InhibitAction::Nothing
            } else if inhibit {
                if !old(self).inhibited && old(self).has_surface {
                    InhibitAction::Create
                } else {
                    InhibitAction::Nothing
                }
            } else if old(self).inhibited {
                InhibitAction::Destroy
            } else {
                InhibitAction::Nothing
            },
            *final(self) == match r {
                InhibitAction::Create => IdleState { inhibited: true, ..*old(self) },
                InhibitAction::Destroy => IdleState { inhibited: false, ..*old(self) },
                InhibitAction::Nothing => *old(self),
            },
    {
        if self.idle_manager.is_none() {
            return InhibitAction::Nothing;
        }
        if inhibit {
            if !self.inhibited && self.has_surface {
                self.inhibited = true;
                InhibitAction::Create
            } else {
                InhibitAction::Nothing
            }
        } else if self.inhibited {
            self.inhibited = false;
            InhibitAction::Destroy
        } else {
            InhibitAction::Nothing
        }
    }

    /// Switches inhibition to the other state.
    pub fn toggle(&mut self) -> (r: InhibitAction)
        ensures
            r == if old(self).idle_manager is None {
                InhibitAction::Nothing
            } else if !old(self).inhibited {
                if old(self).has_surface {
                    InhibitAction::Create
                } else {
                    InhibitAction::Nothing
                }
            } else {
                InhibitAction::Destroy
            },
            *final(self) == toggled(*old(self)),
    {
        let want = !self.inhibited;
        self.set_inhibit_idle(want)
    }
}

/// The state a toggle leaves.
pub open spec fn toggled(s: IdleState) -> IdleState {
    if s.idle_manager is None {
        s
    } else if !s.inhibited {
        if s.has_surface {
            IdleState { inhibited: true, ..s }
        } else {
            s
        }
    } else {
        IdleState { inhibited: false, ..s }
    }
}

/// Toggling twice leaves the state as it was, unless an inhibitor is held
/// while the surface it was made on is gone (then the second toggle cannot
/// make a new one).
pub proof fn law_toggle_twice(s: IdleState)
    requires
        s.inhibited ==> s.has_surface,
    ensures
        toggled(toggled(s)) == s,
{
}

/// A toggle with an idle manager and a surface flips inhibition.
pub proof fn law_toggle_flips(s: IdleState)
    requires
        s.idle_manager is Some,
        s.has_surface,
    ensures
        toggled(s).inhibited == !s.inhibited,
{
}

} // verus!
