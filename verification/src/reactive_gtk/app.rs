//! The application and the surfaces (plain windows or layer-shell
//! surfaces) it opens.

use crate::text::str_eq;
use vstd::prelude::*;

verus! {

/// The application: its id and its style sheet.
pub struct App {
    name: Option<&'static str>,
    css_path: String,
}

impl App {
    pub closed spec fn name_view(&self) -> Option<Seq<char>> {
        match self.name {
            Some(n) => Some(n@),
            None => None,
        }
    }

    pub closed spec fn css_path_view(&self) -> Seq<char> {
        self.css_path@
    }

    /// An application with the given id and no style sheet path.
    pub fn new(name: Option<&'static str>) -> (r: App)
        ensures
            r.name_view() == match name {
                Some(n) => Some(n@),
                None => None::<Seq<char>>,
            },
            r.css_path_view() == Seq::<char>::empty(),
    {
        App { name, css_path: String::new() }
    }

    /// The application id.
    pub fn name(&self) -> (r: Option<&'static str>)
        ensures
            match r {
                Some(n) => self.name_view() == Some(n@),
                None => self.name_view() is None,
            },
    {
        self.name
    }
}

/// The kind of a surface: a plain window, or a layer-shell surface
/// anchored to edges (left, top, right, bottom) of a monitor.
#[derive(Clone, Copy)]
pub enum SurfaceType {
    Window,
    Layer { anchors: (bool, bool, bool, bool), monitor: Option<&'static str>, exclusive: bool },
}

/// A surface to open: its size, when fixed, and its kind.
#[derive(Clone, Copy)]
pub struct Surface {
    width: Option<u32>,
    height: Option<u32>,
    surface_type: SurfaceType,
}

/// A requested size as GTK takes it: -1 for none, and the number cast to
/// `i32` (so sizes beyond `i32::MAX` wrap).
pub open spec fn gtk_size(v: Option<u32>) -> i32 {
    match v {
        Some(x) => x as i32,
        None => -1i32,
    }
}

impl Surface {
    pub closed spec fn width_view(&self) -> Option<u32> {
        self.width
    }

    pub closed spec fn height_view(&self) -> Option<u32> {
        self.height
    }

    pub closed spec fn type_view(&self) -> SurfaceType {
        self.surface_type
    }

    /// A plain window of no fixed size.
    pub fn window() -> (r: Surface)
        ensures
            r.width_view() is None,
            r.height_view() is None,
            r.type_view() is Window,
    {
        Surface { width: None, height: None, surface_type: SurfaceType::Window }
    }

    /// A layer-shell surface of no fixed size.
    pub fn layer(
        exclusive: bool,
        anchors: (bool, bool, bool, bool),
        monitor: Option<&'static str>,
    ) -> (r: Surface)
        ensures
            r.width_view() is None,
            r.height_view() is None,
            r.type_view() == (SurfaceType::Layer { anchors, monitor, exclusive }),
    {
        Surface {
            width: None,
            height: None,
            surface_type: SurfaceType::Layer { anchors, monitor, exclusive },
        }
    }

    /// The same surface with a fixed width.
    pub fn width(self, width: u32) -> (r: Surface)
        ensures
            r.width_view() == Some(width),
            r.height_view() == self.height_view(),
            r.type_view() == self.type_view(),
    {
        Surface { width: Some(width), height: self.height, surface_type: self.surface_type }
    }

    /// The same surface with a fixed height.
    pub fn height(self, height: u32) -> (r: Surface)
        ensures
            r.height_view() == Some(height),
            r.width_view() == self.width_view(),
            r.type_view() == self.type_view(),
    {
        Surface { width: self.width, height: Some(height), surface_type: self.surface_type }
    }

    /// The kind of the surface.
    pub fn surface_type(&self) -> (r: SurfaceType)
        ensures
            r == self.type_view(),
    {
        self.surface_type
    }

    /// The default size handed to GTK.
    pub fn default_size(&self) -> (r: (i32, i32))
        ensures
            r == (gtk_size(self.width_view()), gtk_size(self.height_view())),
    {
        (
            match self.width {
                Some(w) => w as i32,
                None => -1,
            },
            match self.height {
                Some(h) => h as i32,
                None => -1,
            },
        )
    }
}

/// The monitor a layer surface goes to: the last one whose connector is
/// the requested name.
pub open spec fn chosen_monitor(connectors: Seq<String>, requested: Seq<char>) -> Option<int>
    decreases connectors.len(),
{
    if connectors.len() == 0 {
        None
    } else if connectors.last()@ == requested {
        Some(connectors.len() - 1)
    } else {
        chosen_monitor(connectors.drop_last(), requested)
    }
}

pub fn pick_monitor(connectors: &[String], requested: &str) -> (r: Option<usize>)
    ensures
        match r {
            Some(i) => chosen_monitor(connectors@, requested@) == Some(i as int),
            None => chosen_monitor(connectors@, requested@) is None,
        },
{
    let mut k: usize = connectors.len();
    assert(connectors@.take(k as int) =~= connectors@);
    while k > 0
        invariant
            k <= connectors@.len(),
            chosen_monitor(connectors@, requested@) == chosen_monitor(
                connectors@.take(k as int),
                requested@,
            ),
        decreases k,
    {
        assert(connectors@.take(k as int).drop_last() =~= connectors@.take(k - 1));
        if str_eq(connectors[k - 1].as_str(), requested) {
            return Some(k - 1);
        }
        k = k - 1;
    }
    None
}

} // verus!
