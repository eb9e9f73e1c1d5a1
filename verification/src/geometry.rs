//! Plain integer geometry: points, sizes and rectangles in logical pixels.
//!
//! Coordinates are `i32` values as negotiated with clients; the compositor
//! converts its own coordinate types to and from these at the boundary.

use vstd::prelude::*;

verus! {

/// A position in logical pixel coordinates.
#[derive(Clone, Copy, Debug, PartialEq, Eq, Structural)]
pub struct Point {
    pub x: i32,
    pub y: i32,
}

/// A width and height in logical pixels.
#[derive(Clone, Copy, Debug, PartialEq, Eq, Structural)]
pub struct Size {
    pub w: i32,
    pub h: i32,
}

/// A rectangle: a location and a size.
#[derive(Clone, Copy, Debug, PartialEq, Eq, Structural)]
pub struct Rect {
    pub loc: Point,
    pub size: Size,
}

impl Point {
    pub fn new(x: i32, y: i32) -> (r: Point)
        ensures
            r == (Point { x, y }),
    {
        Point { x, y }
    }
}

impl Size {
    pub fn new(w: i32, h: i32) -> (r: Size)
        ensures
            r == (Size { w, h }),
    {
        Size { w, h }
    }
}

impl Rect {
    pub fn new(x: i32, y: i32, w: i32, h: i32) -> (r: Rect)
        ensures
            r == (Rect { loc: Point { x, y }, size: Size { w, h } }),
    {
        Rect { loc: Point { x, y }, size: Size { w, h } }
    }

    /// Whether `p` lies inside the rectangle; the left and top edges are
    /// inside, the right and bottom edges are not.
    pub open spec fn spec_contains(self, p: Point) -> bool {
        &&& self.loc.x <= p.x < self.loc.x + self.size.w
        &&& self.loc.y <= p.y < self.loc.y + self.size.h
    }

    pub fn contains(&self, p: Point) -> (r: bool)
        ensures
            r == self.spec_contains(p),
    {
        self.loc.x <= p.x && (p.x as i64) < self.loc.x as i64 + self.size.w as i64
            && self.loc.y <= p.y && (p.y as i64) < self.loc.y as i64 + self.size.h as i64
    }
}

} // verus!
