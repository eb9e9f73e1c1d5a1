//! Focus-border geometry: four strips drawn around a window.

use crate::edge::Edge;
use crate::geometry::{Point, Rect, Size};
use vstd::prelude::*;

verus! {

/// Thickness of the focus border, in pixels.
pub const BORDER_SIZE: u32 = 10;

pub open spec fn spec_border_edge(size: Size, loc: Point) -> Edge {
    Edge {
        top: loc.y < 0,
        bottom: loc.y > size.h,
        left: loc.x < 0,
        right: loc.x > size.w,
    }
}

/// Which window edges a point just outside the window's geometry touches:
/// the sides of the border it falls on.
pub fn get_edge(size: Size, loc: Point) -> (r: Edge)
    ensures
        r == spec_border_edge(size, loc),
{
    Edge { top: loc.y < 0, bottom: loc.y > size.h, left: loc.x < 0, right: loc.x > size.w }
}

/// The four border strips around a window of size `size`, relative to the
/// window's origin: top and bottom run the full width plus both corners,
/// left and right the full height plus both corners.
pub fn border_rects(size: Size) -> (r: (Rect, Rect, Rect, Rect))
    requires
        0 <= size.w <= 0x2000_0000,
        0 <= size.h <= 0x2000_0000,
    ensures
        r.0.loc.x == -(BORDER_SIZE as int) && r.0.loc.y == -(BORDER_SIZE as int),
        r.0.size.w == size.w + 2 * BORDER_SIZE && r.0.size.h == BORDER_SIZE,
        r.1.loc.x == -(BORDER_SIZE as int) && r.1.loc.y == size.h,
        r.1.size.w == size.w + 2 * BORDER_SIZE && r.1.size.h == BORDER_SIZE,
        r.2.loc.x == -(BORDER_SIZE as int) && r.2.loc.y == -(BORDER_SIZE as int),
        r.2.size.w == BORDER_SIZE && r.2.size.h == size.h + 2 * BORDER_SIZE,
        r.3.loc.x == size.w && r.3.loc.y == -(BORDER_SIZE as int),
        r.3.size.w == BORDER_SIZE && r.3.size.h == size.h + 2 * BORDER_SIZE,
{
    let b = BORDER_SIZE as i32;
    (
        Rect { loc: Point { x: -b, y: -b }, size: Size { w: size.w + 2 * b, h: b } },
        Rect { loc: Point { x: -b, y: size.h }, size: Size { w: size.w + 2 * b, h: b } },
        Rect { loc: Point { x: -b, y: -b }, size: Size { w: b, h: size.h + 2 * b } },
        Rect { loc: Point { x: size.w, y: -b }, size: Size { w: b, h: size.h + 2 * b } },
    )
}

} // verus!
