//! The compositor-independent state every backend maps into.

use crate::text::{debug_quoted, debug_str, decimal, i128_to_string, i64_to_string, push_str, views};
use vstd::prelude::*;

verus! {

/// A workspace as the bar shows it.
pub struct CompositorWorkspace {
    pub id: i32,
    pub index: i32,
    pub name: String,
    pub monitor: String,
    pub monitor_id: Option<i128>,
    pub windows: u16,
    pub is_special: bool,
    pub has_urgent: bool,
    pub window_classes: Vec<String>,
}

/// An output and the workspace it shows.
pub struct CompositorMonitor {
    pub id: i128,
    pub name: String,
    pub active_workspace_id: i32,
    pub special_workspace_id: i32,
}

/// The focused window as Hyprland reports it.
pub struct ActiveWindowHyprland {
    pub title: String,
    pub class: String,
    pub address: String,
    pub initial_title: String,
    pub initial_class: String,
}

/// The focused window of the backends that report a title, a class and an
/// address.
pub struct ActiveWindowNiri {
    pub title: String,
    pub class: String,
    pub address: String,
}

/// The focused window of the backends that report only a title and a class.
pub struct ActiveWindowGeneric {
    pub title: String,
    pub class: String,
}

/// The focused window, tagged by the backend that reported it.
pub enum ActiveWindow {
    Hyprland(ActiveWindowHyprland),
    Niri(ActiveWindowNiri),
    Sway(ActiveWindowNiri),
    Wayfire(ActiveWindowNiri),
    Mango(ActiveWindowGeneric),
    Generic(ActiveWindowGeneric),
}

impl ActiveWindow {
    /// The title of the window, whatever backend reported it.
    pub open spec fn title_of(&self) -> Seq<char> {
        match self {
            ActiveWindow::Hyprland(w) => w.title@,
            ActiveWindow::Niri(w) => w.title@,
            ActiveWindow::Sway(w) => w.title@,
            ActiveWindow::Wayfire(w) => w.title@,
            ActiveWindow::Mango(w) => w.title@,
            ActiveWindow::Generic(w) => w.title@,
        }
    }

    /// The class (application id) of the window.
    pub open spec fn class_of(&self) -> Seq<char> {
        match self {
            ActiveWindow::Hyprland(w) => w.class@,
            ActiveWindow::Niri(w) => w.class@,
            ActiveWindow::Sway(w) => w.class@,
            ActiveWindow::Wayfire(w) => w.class@,
            ActiveWindow::Mango(w) => w.class@,
            ActiveWindow::Generic(w) => w.class@,
        }
    }

    pub fn title(&self) -> (r: &str)
        ensures
            r@ == self.title_of(),
    {
        match self {
            ActiveWindow::Hyprland(w) => w.title.as_str(),
            ActiveWindow::Niri(w) => w.title.as_str(),
            ActiveWindow::Sway(w) => w.title.as_str(),
            ActiveWindow::Wayfire(w) => w.title.as_str(),
            ActiveWindow::Mango(w) => w.title.as_str(),
            ActiveWindow::Generic(w) => w.title.as_str(),
        }
    }

    pub fn class(&self) -> (r: &str)
        ensures
            r@ == self.class_of(),
    {
        match self {
            ActiveWindow::Hyprland(w) => w.class.as_str(),
            ActiveWindow::Niri(w) => w.class.as_str(),
            ActiveWindow::Sway(w) => w.class.as_str(),
            ActiveWindow::Wayfire(w) => w.class.as_str(),
            ActiveWindow::Mango(w) => w.class.as_str(),
            ActiveWindow::Generic(w) => w.class.as_str(),
        }
    }

    /// The initial title, which only Hyprland reports; the other backends
    /// answer with an error message.
    pub fn initial_title(&self) -> (r: Result<&str, &str>)
        ensures
            match *self {
                ActiveWindow::Hyprland(w) => r matches Ok(t) && t@ == w.initial_title@,
                ActiveWindow::Niri(_) => r matches Err(e) && e@ == "InitialTitle isn't supported on Niri"@,
                _ => r matches Err(e) && e@ == "InitialTitle isn't supported on this compositor"@,
            },
    {
        match self {
            ActiveWindow::Hyprland(w) => Ok(w.initial_title.as_str()),
            ActiveWindow::Niri(_) => Err("InitialTitle isn't supported on Niri"),
            _ => Err("InitialTitle isn't supported on this compositor"),
        }
    }

    /// The initial class, which only Hyprland reports.
    pub fn initial_class(&self) -> (r: Result<&str, &str>)
        ensures
            match *self {
                ActiveWindow::Hyprland(w) => r matches Ok(t) && t@ == w.initial_class@,
                ActiveWindow::Niri(_) => r matches Err(e) && e@ == "InitialClass isn't supported on Niri"@,
                _ => r matches Err(e) && e@ == "InitialClass isn't supported on this compositor"@,
            },
    {
        match self {
            ActiveWindow::Hyprland(w) => Ok(w.initial_class.as_str()),
            ActiveWindow::Niri(_) => Err("InitialClass isn't supported on Niri"),
            _ => Err("InitialClass isn't supported on this compositor"),
        }
    }
}

/// Everything the bar shows of the compositor.
pub struct CompositorState {
    pub workspaces: Vec<CompositorWorkspace>,
    pub monitors: Vec<CompositorMonitor>,
    pub active_workspace_ids: Vec<i32>,
    pub active_window: Option<ActiveWindow>,
    pub keyboard_layout: String,
    pub submap: Option<String>,
}

/// The compositor backend in use.
#[derive(Clone, Copy, PartialEq, Eq, Structural)]
pub enum CompositorChoice {
    Hyprland,
    Niri,
    Sway,
    Wayfire,
    Mango,
    Generic,
}

/// A request of the bar to the compositor.
#[derive(Debug)]
pub enum CompositorCommand {
    FocusWorkspace(i32),
    FocusSpecialWorkspace(String),
    FocusMonitor(i128),
    ToggleSpecialWorkspace(String),
    /// +1 or -1
    ScrollWorkspace(i32),
    /// A raw dispatcher and its arguments.
    CustomDispatch(String, String),
    NextLayout,
}

/// The fields of a tuple, separated by ", ".
pub open spec fn joined(fields: Seq<Seq<char>>) -> Seq<char>
    decreases fields.len(),
{
    if fields.len() == 0 {
        Seq::empty()
    } else if fields.len() == 1 {
        fields[0]
    } else {
        joined(fields.drop_last()) + seq![',', ' '] + fields.last()
    }
}

/// How a derived `Debug` writes a tuple variant: its name, then its fields
/// in brackets; a variant without fields is its name alone.
pub open spec fn tuple_text(name: Seq<char>, fields: Seq<Seq<char>>) -> Seq<char> {
    if fields.len() == 0 {
        name
    } else {
        name + seq!['('] + joined(fields) + seq![')']
    }
}

/// The `Debug` text of a request.
pub open spec fn command_text(c: CompositorCommand) -> Seq<char> {
    match c {
        CompositorCommand::FocusWorkspace(id) => tuple_text("FocusWorkspace"@, seq![decimal(id as int)]),
        CompositorCommand::FocusSpecialWorkspace(n) => tuple_text(
            "FocusSpecialWorkspace"@,
            seq![debug_quoted(n@)],
        ),
        CompositorCommand::FocusMonitor(id) => tuple_text("FocusMonitor"@, seq![decimal(id as int)]),
        CompositorCommand::ToggleSpecialWorkspace(n) => tuple_text(
            "ToggleSpecialWorkspace"@,
            seq![debug_quoted(n@)],
        ),
        CompositorCommand::ScrollWorkspace(d) => tuple_text("ScrollWorkspace"@, seq![decimal(d as int)]),
        CompositorCommand::CustomDispatch(a, b) => tuple_text(
            "CustomDispatch"@,
            seq![debug_quoted(a@), debug_quoted(b@)],
        ),
        CompositorCommand::NextLayout => "NextLayout"@,
    }
}

/// Writes a tuple variant as a derived `Debug` does, from its name and the
/// texts of its fields.
pub fn tuple_debug(name: &str, fields: &Vec<String>) -> (r: String)
    ensures
        r@ == tuple_text(name@, views(fields@)),
{
    let mut r = String::new();
    push_str(&mut r, name);
    if fields.len() == 0 {
        return r;
    }
    proof {
        reveal_strlit("(");
    }
    push_str(&mut r, "(");
    assert(views(fields@).take(0) =~= Seq::<Seq<char>>::empty());
    let mut i: usize = 0;
    while i < fields.len()
        invariant
            0 < fields@.len(),
            i <= fields@.len(),
            r@ == name@ + seq!['('] + joined(views(fields@).take(i as int)),
        decreases fields@.len() - i,
    {
        proof {
            reveal_strlit(", ");
            let t = views(fields@).take(i + 1);
            assert(t.drop_last() =~= views(fields@).take(i as int));
        }
        if i > 0 {
            push_str(&mut r, ", ");
        }
        push_str(&mut r, fields[i].as_str());
        i = i + 1;
    }
    assert(views(fields@).take(fields@.len() as int) =~= views(fields@));
    proof {
        reveal_strlit(")");
    }
    push_str(&mut r, ")");
    r
}

/// The error for a request a backend does not carry out: the request as
/// `{:?}` writes it, then `suffix`.
pub fn unsupported(cmd: &CompositorCommand, suffix: &str) -> (r: String)
    ensures
        r@ == command_text(*cmd) + suffix@,
{
    let mut t = cmd.debug_text();
    push_str(&mut t, suffix);
    t
}

impl CompositorCommand {
    /// The request as `{:?}` writes it, such as `FocusMonitor(2)`.
    pub fn debug_text(&self) -> (r: String)
        ensures
            r@ == command_text(*self),
    {
        let mut fields: Vec<String> = Vec::new();
        let name: &str = match self {
            CompositorCommand::FocusWorkspace(id) => {
                fields.push(i64_to_string(*id as i64));
                "FocusWorkspace"
            },
            CompositorCommand::FocusSpecialWorkspace(n) => {
                fields.push(debug_str(n.as_str()));
                "FocusSpecialWorkspace"
            },
            CompositorCommand::FocusMonitor(id) => {
                fields.push(i128_to_string(*id));
                "FocusMonitor"
            },
            CompositorCommand::ToggleSpecialWorkspace(n) => {
                fields.push(debug_str(n.as_str()));
                "ToggleSpecialWorkspace"
            },
            CompositorCommand::ScrollWorkspace(d) => {
                fields.push(i64_to_string(*d as i64));
                "ScrollWorkspace"
            },
            CompositorCommand::CustomDispatch(a, b) => {
                fields.push(debug_str(a.as_str()));
                fields.push(debug_str(b.as_str()));
                "CustomDispatch"
            },
            CompositorCommand::NextLayout => "NextLayout",
        };
        proof {
            assert(views(fields@) =~= match *self {
                CompositorCommand::FocusWorkspace(id) => seq![decimal(id as int)],
                CompositorCommand::FocusSpecialWorkspace(n) => seq![debug_quoted(n@)],
                CompositorCommand::FocusMonitor(id) => seq![decimal(id as int)],
                CompositorCommand::ToggleSpecialWorkspace(n) => seq![debug_quoted(n@)],
                CompositorCommand::ScrollWorkspace(d) => seq![decimal(d as int)],
                CompositorCommand::CustomDispatch(a, b) => seq![debug_quoted(a@), debug_quoted(b@)],
                CompositorCommand::NextLayout => Seq::<Seq<char>>::empty(),
            });
        }
        tuple_debug(name, &fields)
    }
}

} // verus!
