//! Sets of rectangle edges.
//!
//! An [`Edge`] value is a set drawn from {top, bottom, left, right}. It names
//! the active edges of an interactive resize (a corner drag activates two)
//! and the side on which a dragged window is dropped next to another.

use vstd::prelude::*;

verus! {

/// A set of rectangle edges, one flag per side.
#[derive(Clone, Copy, Debug, PartialEq, Eq, Structural)]
pub struct Edge {
    pub top: bool,
    pub bottom: bool,
    pub left: bool,
    pub right: bool,
}

impl Edge {
    pub open spec fn spec_empty() -> Edge {
        Edge { top: false, bottom: false, left: false, right: false }
    }

    /// The empty edge set.
    pub fn empty() -> (r: Edge)
        ensures
            r == Edge::spec_empty(),
    {
        Edge { top: false, bottom: false, left: false, right: false }
    }

    pub open spec fn spec_top() -> Edge {
        Edge { top: true, bottom: false, left: false, right: false }
    }

    /// The set holding only the top edge.
    pub fn top() -> (r: Edge)
        ensures
            r == Edge::spec_top(),
            r == (Edge { top: true, bottom: false, left: false, right: false }),
    {
        Edge { top: true, bottom: false, left: false, right: false }
    }

    pub open spec fn spec_bottom() -> Edge {
        Edge { top: false, bottom: true, left: false, right: false }
    }

    /// The set holding only the bottom edge.
    pub fn bottom() -> (r: Edge)
        ensures
            r == Edge::spec_bottom(),
            r == (Edge { top: false, bottom: true, left: false, right: false }),
    {
        Edge { top: false, bottom: true, left: false, right: false }
    }

    pub open spec fn spec_left() -> Edge {
        Edge { top: false, bottom: false, left: true, right: false }
    }

    /// The set holding only the left edge.
    pub fn left() -> (r: Edge)
        ensures
            r == Edge::spec_left(),
            r == (Edge { top: false, bottom: false, left: true, right: false }),
    {
        Edge { top: false, bottom: false, left: true, right: false }
    }

    pub open spec fn spec_right() -> Edge {
        Edge { top: false, bottom: false, left: false, right: true }
    }

    /// The set holding only the right edge.
    pub fn right() -> (r: Edge)
        ensures
            r == Edge::spec_right(),
            r == (Edge { top: false, bottom: false, left: false, right: true }),
    {
        Edge { top: false, bottom: false, left: false, right: true }
    }

    pub open spec fn spec_union(self, other: Edge) -> Edge {
        Edge {
            top: self.top || other.top,
            bottom: self.bottom || other.bottom,
            left: self.left || other.left,
            right: self.right || other.right,
        }
    }

    /// The union of two edge sets.
    pub fn union(self, other: Edge) -> (r: Edge)
        ensures
            r == self.spec_union(other),
    {
        Edge {
            top: self.top || other.top,
            bottom: self.bottom || other.bottom,
            left: self.left || other.left,
            right: self.right || other.right,
        }
    }

    pub open spec fn spec_intersection(self, other: Edge) -> Edge {
        Edge {
            top: self.top && other.top,
            bottom: self.bottom && other.bottom,
            left: self.left && other.left,
            right: self.right && other.right,
        }
    }

    /// The intersection of two edge sets.
    pub fn intersection(self, other: Edge) -> (r: Edge)
        ensures
            r == self.spec_intersection(other),
    {
        Edge {
            top: self.top && other.top,
            bottom: self.bottom && other.bottom,
            left: self.left && other.left,
            right: self.right && other.right,
        }
    }

    pub open spec fn spec_intersects(self, other: Edge) -> bool {
        ||| (self.top && other.top)
        ||| (self.bottom && other.bottom)
        ||| (self.left && other.left)
        ||| (self.right && other.right)
    }

    /// Whether the two sets share an edge.
    pub fn intersects(self, other: Edge) -> (r: bool)
        ensures
            r == self.spec_intersects(other),
    {
        (self.top && other.top) || (self.bottom && other.bottom) || (self.left && other.left)
            || (self.right && other.right)
    }

    pub open spec fn spec_is_empty(self) -> bool {
        !self.top && !self.bottom && !self.left && !self.right
    }

    /// Whether no edge is set.
    pub fn is_empty(self) -> (r: bool)
        ensures
            r == self.spec_is_empty(),
    {
        !self.top && !self.bottom && !self.left && !self.right
    }

    pub open spec fn spec_get_vertical(self) -> Edge {
        Edge { top: self.top, bottom: self.bottom, left: false, right: false }
    }

    /// The vertical members of the set: its top and bottom edges.
    pub fn get_vertical(&self) -> (r: Edge)
        ensures
            r == self.spec_get_vertical(),
    {
        Edge { top: self.top, bottom: self.bottom, left: false, right: false }
    }

    pub open spec fn spec_get_horizontal(self) -> Edge {
        Edge { top: false, bottom: false, left: self.left, right: self.right }
    }

    /// The horizontal members of the set: its left and right edges.
    pub fn get_horizontal(&self) -> (r: Edge)
        ensures
            r == self.spec_get_horizontal(),
    {
        Edge { top: false, bottom: false, left: self.left, right: self.right }
    }

    pub open spec fn spec_is_horizontal(self) -> bool {
        self.left || self.right
    }

    /// Whether the set holds a horizontal edge (left or right).
    pub fn is_horizontal(&self) -> (r: bool)
        ensures
            r == self.spec_is_horizontal(),
    {
        self.left || self.right
    }

    pub open spec fn spec_is_vertical(self) -> bool {
        self.top || self.bottom
    }

    /// Whether the set holds a vertical edge (top or bottom).
    pub fn is_vertical(&self) -> (r: bool)
        ensures
            r == self.spec_is_vertical(),
    {
        self.top || self.bottom
    }
}

} // verus!
