//! Server-side decoration geometry: the title bar and its buttons.
//!
//! The bar sits above the window and holds three square buttons (close,
//! maximize, minimize) laid out left to right with a fixed gap.

use crate::geometry::{Point, Rect, Size};
use vstd::prelude::*;

verus! {

/// Side length of one title-bar button, in pixels.
pub const BUTTON_SIZE: u32 = 16;

/// Gap before and between the buttons, in pixels.
pub const BUTTON_GAP: u32 = 4;

/// Height of the whole decoration bar.
pub const DECORATIONS_HEIGHT: u32 = BUTTON_SIZE + 2 * BUTTON_GAP;

/// One of the title-bar buttons.
#[derive(Clone, Copy, Debug, PartialEq, Eq, Structural)]
pub enum Button {
    Close,
    Maximize,
    Minimize,
}

pub open spec fn spec_get_button(loc: Point) -> Option<Button> {
    if loc.x < BUTTON_GAP || loc.y < BUTTON_GAP {
        None
    } else if loc.x < BUTTON_SIZE + BUTTON_GAP && loc.y < BUTTON_SIZE + BUTTON_GAP {
        Some(Button::Close)
    } else if loc.x < 2 * BUTTON_SIZE + 2 * BUTTON_GAP && loc.y < BUTTON_SIZE + BUTTON_GAP {
        Some(Button::Maximize)
    } else if loc.x < 3 * BUTTON_SIZE + 3 * BUTTON_GAP && loc.y < BUTTON_SIZE + BUTTON_GAP {
        Some(Button::Minimize)
    } else {
        None
    }
}

/// The button under a point given relative to the decoration bar's origin,
/// if any: close, then maximize, then minimize, left to right.
pub fn get_button(loc: Point) -> (r: Option<Button>)
    ensures
        r == spec_get_button(loc),
{
    if loc.x < BUTTON_GAP as i32 || loc.y < BUTTON_GAP as i32 {
        None
    } else if loc.x < (BUTTON_SIZE + BUTTON_GAP) as i32 && loc.y < (BUTTON_SIZE
        + BUTTON_GAP) as i32 {
        Some(Button::Close)
    } else if loc.x < (2 * BUTTON_SIZE + 2 * BUTTON_GAP) as i32 && loc.y < (BUTTON_SIZE
        + BUTTON_GAP) as i32 {
        Some(Button::Maximize)
    } else if loc.x < (3 * BUTTON_SIZE + 3 * BUTTON_GAP) as i32 && loc.y < (BUTTON_SIZE
        + BUTTON_GAP) as i32 {
        Some(Button::Minimize)
    } else {
        None
    }
}

/// Where the decoration bar's parts sit, relative to the bar's origin: the
/// background strip across the window's width, then the three buttons.
pub fn decoration_rects(window_width: i32) -> (r: (Rect, Rect, Rect, Rect))
    ensures
        r.0 == (Rect {
            loc: Point { x: 0, y: 0 },
            size: Size { w: window_width, h: DECORATIONS_HEIGHT as i32 },
        }),
        r.1 == (Rect {
            loc: Point { x: BUTTON_GAP as i32, y: BUTTON_GAP as i32 },
            size: Size { w: BUTTON_SIZE as i32, h: BUTTON_SIZE as i32 },
        }),
        r.2 == (Rect {
            loc: Point { x: (BUTTON_SIZE + 2 * BUTTON_GAP) as i32, y: BUTTON_GAP as i32 },
            size: Size { w: BUTTON_SIZE as i32, h: BUTTON_SIZE as i32 },
        }),
        r.3 == (Rect {
            loc: Point { x: (2 * BUTTON_SIZE + 3 * BUTTON_GAP) as i32, y: BUTTON_GAP as i32 },
            size: Size { w: BUTTON_SIZE as i32, h: BUTTON_SIZE as i32 },
        }),
{
    let button = Size { w: BUTTON_SIZE as i32, h: BUTTON_SIZE as i32 };
    (
        Rect {
            loc: Point { x: 0, y: 0 },
            size: Size { w: window_width, h: DECORATIONS_HEIGHT as i32 },
        },
        Rect { loc: Point { x: BUTTON_GAP as i32, y: BUTTON_GAP as i32 }, size: button },
        Rect {
            loc: Point { x: (BUTTON_SIZE + 2 * BUTTON_GAP) as i32, y: BUTTON_GAP as i32 },
            size: button,
        },
        Rect {
            loc: Point { x: (2 * BUTTON_SIZE + 3 * BUTTON_GAP) as i32, y: BUTTON_GAP as i32 },
            size: button,
        },
    )
}

} // verus!
