//! Manager-private state of one client window.
//!
//! A [`Window`] pairs an opaque client-surface handle with the flags the
//! manager keeps for it (floating/maximized/minimized/fullscreen, focus) and
//! the remembered floating rectangle. The compositor owns the real surface;
//! the handle is only compared for identity.

use crate::edge::Edge;
use crate::geometry::{Point, Rect, Size};
use vstd::prelude::*;

verus! {

/// Height in pixels of the server-side decoration bar drawn above a window.
pub const DECORATIONS_HEIGHT: u32 = 24;

/// Placement flags of a window. A window with no flag set is tiled: its
/// rectangle comes from its position in the layout tree.
#[derive(Clone, Copy, Debug, PartialEq, Eq, Structural)]
pub struct WindowState {
    pub floating: bool,
    pub maximized: bool,
    pub minimized: bool,
    pub fullscreen: bool,
}

impl WindowState {
    /// The state with no flag set: a tiled window.
    pub fn empty() -> (r: WindowState)
        ensures
            r == WindowState::spec_empty(),
    {
        WindowState { floating: false, maximized: false, minimized: false, fullscreen: false }
    }

    pub open spec fn spec_empty() -> WindowState {
        WindowState { floating: false, maximized: false, minimized: false, fullscreen: false }
    }

    /// The state of a window that floats and has no other flag.
    pub fn floating_only() -> (r: WindowState)
        ensures
            r == WindowState::spec_floating_only(),
    {
        WindowState { floating: true, maximized: false, minimized: false, fullscreen: false }
    }

    pub open spec fn spec_floating_only() -> WindowState {
        WindowState { floating: true, maximized: false, minimized: false, fullscreen: false }
    }

    /// Whether the geometry solver may tile this window. Floating, maximized
    /// and minimized windows are positioned independently of the tree.
    pub open spec fn spec_tileable(self) -> bool {
        !self.floating && !self.maximized && !self.minimized
    }

    pub fn tileable(self) -> (r: bool)
        ensures
            r == self.spec_tileable(),
    {
        !self.floating && !self.maximized && !self.minimized
    }

    /// Flips the floating flag, leaving the others as they are.
    pub fn toggle_floating(&mut self)
        ensures
            *final(self) == (WindowState { floating: !old(self).floating, ..*old(self) }),
    {
        self.floating = !self.floating;
    }
}

impl Default for WindowState {
    /// A fresh window starts tiled, with no flag set.
    fn default() -> (r: WindowState)
        ensures
            r == WindowState::spec_empty(),
    {
        WindowState { floating: false, maximized: false, minimized: false, fullscreen: false }
    }
}

/// One client window as the manager sees it.
#[derive(Clone, Copy, Debug, PartialEq, Eq, Structural)]
pub struct Window {
    /// Opaque handle of the client surface; compared only for identity.
    pub surface: u64,
    pub state: WindowState,
    /// Remembered rectangle used while the window floats; set lazily.
    pub floating_rect: Option<Rect>,
    pub is_focused: bool,
}

impl Window {
    /// A fresh tiled window for the given client surface.
    pub fn new(surface: u64) -> (r: Window)
        ensures
            r == (Window {
                surface,
                state: WindowState::spec_empty(),
                floating_rect: None,
                is_focused: false,
            }),
    {
        Window {
            surface,
            state: WindowState::empty(),
            floating_rect: None,
            is_focused: false,
        }
    }

    /// The remembered floating rectangle; on first use it is set to the
    /// centered quarter of the output.
    pub fn floating_rect_or_default(&mut self, output: Rect) -> (r: Rect)
        requires
            old(self).floating_rect is None ==> spec_output_sane(output),
        ensures
            *final(self) == (Window {
                floating_rect: Some(r),
                ..*old(self)
            }),
            r == match old(self).floating_rect {
                Some(rect) => rect,
                None => spec_default_floating_rect(output),
            },
    {
        match self.floating_rect {
            Some(rect) => rect,
            None => {
                let rect = default_floating_rect(output);
                self.floating_rect = Some(rect);
                rect
            },
        }
    }
}

/// Whether an output rectangle is within the coordinate range the default
/// floating rectangle is computed over.
pub open spec fn spec_output_sane(output: Rect) -> bool {
    &&& -0x1000_0000 <= output.loc.x <= 0x1000_0000
    &&& -0x1000_0000 <= output.loc.y <= 0x1000_0000
    &&& 0 <= output.size.w <= 0x1000_0000
    &&& 0 <= output.size.h <= 0x1000_0000
}

pub open spec fn spec_default_floating_rect(output: Rect) -> Rect {
    Rect {
        loc: Point {
            x: (output.loc.x + output.size.w / 4) as i32,
            y: (output.loc.y + output.size.h / 4) as i32,
        },
        size: Size { w: (output.size.w / 2) as i32, h: (output.size.h / 2) as i32 },
    }
}

/// The rectangle a window floats in before it has been moved or resized: the
/// centered quarter of the output.
pub fn default_floating_rect(output: Rect) -> (r: Rect)
    requires
        spec_output_sane(output),
    ensures
        r == spec_default_floating_rect(output),
{
    Rect {
        loc: Point { x: output.loc.x + output.size.w / 4, y: output.loc.y + output.size.h / 4 },
        size: Size { w: output.size.w / 2, h: output.size.h / 2 },
    }
}

/// The size a client is asked to configure to when its window is given
/// `size` on screen: a decorated window loses the decoration bar's height.
pub fn configure_size(size: Size, has_decorations: bool) -> (r: Size)
    requires
        has_decorations ==> size.h - DECORATIONS_HEIGHT >= i32::MIN,
    ensures
        r.w == size.w,
        r.h == if has_decorations {
            size.h - DECORATIONS_HEIGHT as int
        } else {
            size.h as int
        },
{
    if has_decorations {
        Size { w: size.w, h: size.h - DECORATIONS_HEIGHT as i32 }
    } else {
        size
    }
}

pub open spec fn spec_get_edge_under(size: Size, location: Point) -> Edge {
    Edge {
        top: 2 * location.y < size.h,
        bottom: 2 * location.y > size.h,
        left: 2 * location.x < size.w,
        right: 2 * location.x > size.w,
    }
}

/// The half of a window's rectangle a point falls in, as an edge set: left
/// or right of the vertical midline, above or below the horizontal one. A
/// point exactly on a midline activates neither of that axis's edges.
pub fn get_edge_under(size: Size, location: Point) -> (r: Edge)
    ensures
        r == spec_get_edge_under(size, location),
{
    Edge {
        left: (location.x as i64) * 2 < size.w as i64,
        right: (location.x as i64) * 2 > size.w as i64,
        top: (location.y as i64) * 2 < size.h as i64,
        bottom: (location.y as i64) * 2 > size.h as i64,
    }
}

} // verus!
