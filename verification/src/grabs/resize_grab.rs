//! The resize gesture: one pointer drag that changes a floating window's
//! size, and the per-surface state machine that finishes it.
//!
//! During the drag the manager only asks the client for new sizes, clamped
//! to the client's limits. On release the machine waits for the client's
//! final commit; when the active edges include top or left, that commit
//! shifts the window's origin so the opposite edge stays where it was, even
//! when the client committed a size other than the one requested.

use crate::edge::Edge;
use crate::geometry::{Point, Rect, Size};
use crate::layout::{Layout, LayoutElement};
use vstd::prelude::*;

verus! {

/// Per-surface progress of a resize: idle, mid-drag, or waiting for the
/// client's last commit after the button went up.
#[derive(Clone, Copy, Debug, PartialEq, Eq, Structural)]
pub enum ResizeState {
    Idle,
    Resizing { edges: Edge, initial_rect: Rect },
    WaitingForLastCommit { edges: Edge, initial_rect: Rect },
}

impl Default for ResizeState {
    fn default() -> (r: ResizeState)
        ensures
            r == ResizeState::Idle,
    {
        ResizeState::Idle
    }
}

impl ResizeState {
    /// A surface commit arrived: a machine mid-resize reports its edges and
    /// starting rectangle; one waiting for the last commit does too and
    /// falls back to idle; an idle machine reports nothing.
    pub fn commit(&mut self) -> (r: Option<(Edge, Rect)>)
        ensures
            match *old(self) {
                ResizeState::Idle => r is None && *final(self) == ResizeState::Idle,
                ResizeState::Resizing { edges, initial_rect } => r == Some((edges, initial_rect))
                    && *final(self) == *old(self),
                ResizeState::WaitingForLastCommit { edges, initial_rect } => r == Some(
                    (edges, initial_rect),
                ) && *final(self) == ResizeState::Idle,
            },
    {
        match *self {
            ResizeState::Idle => None,
            ResizeState::Resizing { edges, initial_rect } => Some((edges, initial_rect)),
            ResizeState::WaitingForLastCommit { edges, initial_rect } => {
                *self = ResizeState::Idle;
                Some((edges, initial_rect))
            },
        }
    }
}

/// The coordinate range resize gestures work in.
pub open spec fn spec_resize_coord_ok(p: Point) -> bool {
    &&& -0x2000_0000 <= p.x <= 0x2000_0000
    &&& -0x2000_0000 <= p.y <= 0x2000_0000
}

pub open spec fn spec_resize_rect_ok(rect: Rect) -> bool {
    &&& spec_resize_coord_ok(rect.loc)
    &&& 0 <= rect.size.w <= 0x2000_0000
    &&& 0 <= rect.size.h <= 0x2000_0000
}

/// The size a drag position asks the client for: the starting size grown by
/// the pointer's travel along each active axis (travel towards a left or
/// top edge grows the window), clamped into the client's limits. A minimum
/// below one pixel counts as one; a maximum of zero or less is unbounded.
pub open spec fn spec_resize_size(
    edges: Edge,
    start: Point,
    initial_rect: Rect,
    pointer: Point,
    min_size: Size,
    max_size: Size,
) -> Size {
    let dx: int = if edges.left {
        start.x - pointer.x
    } else {
        pointer.x - start.x
    };
    let dy: int = if edges.top {
        start.y - pointer.y
    } else {
        pointer.y - start.y
    };
    let w0: int = if edges.left || edges.right {
        initial_rect.size.w + dx
    } else {
        initial_rect.size.w as int
    };
    let h0: int = if edges.top || edges.bottom {
        initial_rect.size.h + dy
    } else {
        initial_rect.size.h as int
    };
    let min_w: int = if min_size.w > 1 {
        min_size.w as int
    } else {
        1
    };
    let min_h: int = if min_size.h > 1 {
        min_size.h as int
    } else {
        1
    };
    let max_w: int = if max_size.w > 0 {
        max_size.w as int
    } else {
        i32::MAX as int
    };
    let max_h: int = if max_size.h > 0 {
        max_size.h as int
    } else {
        i32::MAX as int
    };
    Size { w: spec_clamp(w0, min_w, max_w) as i32, h: spec_clamp(h0, min_h, max_h) as i32 }
}

/// `v` forced into `[lo, hi]`, the lower bound winning when they cross.
pub open spec fn spec_clamp(v: int, lo: int, hi: int) -> int {
    if v > hi {
        if lo > hi {
            lo
        } else {
            hi
        }
    } else if v < lo {
        lo
    } else {
        v
    }
}

/// State of one resize gesture.
pub struct ResizeGrab {
    /// Client-surface handle of the grabbed window.
    pub surface: u64,
    /// The edges being dragged: one, or two for a corner.
    pub edges: Edge,
    /// Where the pointer was when the grab started.
    pub start_location: Point,
    /// The window's rectangle when the grab started.
    pub initial_rect: Rect,
    /// The size most recently asked of the client.
    pub last_window_size: Size,
}

impl ResizeGrab {
    /// Starts a resize on the window of `surface`, which must float (with no
    /// other placement flag); the per-surface machine enters `Resizing`.
    /// Anything else refuses the gesture and changes nothing.
    pub fn begin(
        layout: &Layout,
        surface: u64,
        pointer: Point,
        edges: Edge,
        initial_rect: Rect,
        state: &mut ResizeState,
    ) -> (r: Option<ResizeGrab>)
        requires
            layout.wf(),
        ensures
            ({
                let found = layout.find_surface_spec(surface, 0);
                match found {
                    Some(id) => {
                        if layout.win_at(id.idx()).inner.state
                            == crate::window::WindowState::spec_floating_only() {
                            &&& r == Some(
                                ResizeGrab {
                                    surface,
                                    edges,
                                    start_location: pointer,
                                    initial_rect,
                                    last_window_size: initial_rect.size,
                                },
                            )
                            &&& *final(state) == (ResizeState::Resizing { edges, initial_rect })
                        } else {
                            r is None && *final(state) == *old(state)
                        }
                    },
                    None => r is None && *final(state) == *old(state),
                }
            }),
    {
        let id = match layout.find_surface(surface) {
            None => {
                return None;
            },
            Some(id) => id,
        };
        let st = match layout.get_window(id) {
            None => {
                return None;
            },
            Some(w) => w.state,
        };
        if !(st.floating && !st.maximized && !st.minimized && !st.fullscreen) {
            return None;
        }
        *state = ResizeState::Resizing { edges, initial_rect };
        Some(
            ResizeGrab {
                surface,
                edges,
                start_location: pointer,
                initial_rect,
                last_window_size: initial_rect.size,
            },
        )
    }

    /// Pointer motion during the drag: the implied size, clamped to the
    /// client's limits, is remembered and returned for the caller to pass to
    /// the client. Only the size is requested; the window is not moved yet.
    pub fn motion(&mut self, pointer: Point, min_size: Size, max_size: Size) -> (r: Size)
        requires
            spec_resize_coord_ok(pointer),
            spec_resize_coord_ok(old(self).start_location),
            spec_resize_rect_ok(old(self).initial_rect),
        ensures
            r == spec_resize_size(
                old(self).edges,
                old(self).start_location,
                old(self).initial_rect,
                pointer,
                min_size,
                max_size,
            ),
            *final(self) == (ResizeGrab { last_window_size: r, ..*old(self) }),
    {
        let dx: i64 = if self.edges.left {
            self.start_location.x as i64 - pointer.x as i64
        } else {
            pointer.x as i64 - self.start_location.x as i64
        };
        let dy: i64 = if self.edges.top {
            self.start_location.y as i64 - pointer.y as i64
        } else {
            pointer.y as i64 - self.start_location.y as i64
        };
        let w0: i64 = if self.edges.left || self.edges.right {
            self.initial_rect.size.w as i64 + dx
        } else {
            self.initial_rect.size.w as i64
        };
        let h0: i64 = if self.edges.top || self.edges.bottom {
            self.initial_rect.size.h as i64 + dy
        } else {
            self.initial_rect.size.h as i64
        };
        let min_w: i64 = if min_size.w > 1 {
            min_size.w as i64
        } else {
            1
        };
        let min_h: i64 = if min_size.h > 1 {
            min_size.h as i64
        } else {
            1
        };
        let max_w: i64 = if max_size.w > 0 {
            max_size.w as i64
        } else {
            i32::MAX as i64
        };
        let max_h: i64 = if max_size.h > 0 {
            max_size.h as i64
        } else {
            i32::MAX as i64
        };
        let w: i64 = clamp_i64(w0, min_w, max_w);
        let h: i64 = clamp_i64(h0, min_h, max_h);
        let size = Size { w: w as i32, h: h as i32 };
        self.last_window_size = size;
        size
    }

    /// Button released: the machine waits for the client's final commit, and
    /// a floating window's remembered rectangle takes the last requested
    /// size. The caller still asks the client to drop its resizing state.
    pub fn unset(&self, layout: &mut Layout, state: &mut ResizeState)
        requires
            old(layout).wf(),
        ensures
            final(layout).wf(),
            *final(state) == (ResizeState::WaitingForLastCommit {
                edges: self.edges,
                initial_rect: self.initial_rect,
            }),
            ({
                let found = old(layout).find_surface_spec(self.surface, 0);
                match found {
                    Some(id) => {
                        if old(layout).win_at(id.idx()).inner.state.floating {
                            let loc = match old(layout).win_at(id.idx()).inner.floating_rect {
                                Some(rect) => rect.loc,
                                None => Point { x: 0, y: 0 },
                            };
                            final(layout).elements@ == old(layout).elements@.update(
                                id.idx(),
                                Some(
                                    LayoutElement::Window(
                                        crate::layout::Window {
                                            inner: crate::window::Window {
                                                floating_rect: Some(
                                                    Rect { loc, size: self.last_window_size },
                                                ),
                                                ..old(layout).win_at(id.idx()).inner
                                            },
                                            ..old(layout).win_at(id.idx())
                                        },
                                    ),
                                ),
                            )
                        } else {
                            *final(layout) == *old(layout)
                        }
                    },
                    None => *final(layout) == *old(layout),
                }
            }),
    {
        match layout.find_surface(self.surface) {
            Some(id) => {
                let floating = match layout.get_window(id) {
                    Some(w) => w.state.floating,
                    None => false,
                };
                if floating {
                    layout.set_floating_size(id, self.last_window_size);
                }
            },
            None => {},
        }
        *state = ResizeState::WaitingForLastCommit {
            edges: self.edges,
            initial_rect: self.initial_rect,
        };
    }
}

fn clamp_i64(v: i64, lo: i64, hi: i64) -> (r: i64)
    ensures
        r == spec_clamp(v as int, lo as int, hi as int),
{
    if v > hi {
        if lo > hi {
            lo
        } else {
            hi
        }
    } else if v < lo {
        lo
    } else {
        v
    }
}

/// The new origin a commit implies: for a left-anchored resize the x origin
/// moves so the right edge stays at `initial.x + initial.w`; for a
/// top-anchored one the y origin keeps the bottom edge fixed. Axes without
/// an active top/left edge keep the current location.
pub open spec fn spec_commit_loc(
    edges: Edge,
    initial_rect: Rect,
    committed_size: Size,
    window_loc: Point,
) -> Point {
    Point {
        x: if edges.left {
            (initial_rect.loc.x + initial_rect.size.w - committed_size.w) as i32
        } else {
            window_loc.x
        },
        y: if edges.top {
            (initial_rect.loc.y + initial_rect.size.h - committed_size.h) as i32
        } else {
            window_loc.y
        },
    }
}

/// Handles a surface commit during or after a resize. Only a floating
/// window's commit is examined; the machine then takes its commit step, and
/// when the active edges include top or left the window's remembered
/// rectangle moves to keep the opposite edge fixed. Returns the location the
/// caller should re-map the window at, if it changed.
pub fn handle_commit(
    layout: &mut Layout,
    state: &mut ResizeState,
    surface: u64,
    window_loc: Point,
    committed_size: Size,
) -> (r: Option<Point>)
    requires
        old(layout).wf(),
        spec_resize_coord_ok(window_loc),
        0 <= committed_size.w <= 0x2000_0000,
        0 <= committed_size.h <= 0x2000_0000,
        match *old(state) {
            ResizeState::Idle => true,
            ResizeState::Resizing { initial_rect, .. } => spec_resize_rect_ok(initial_rect),
            ResizeState::WaitingForLastCommit { initial_rect, .. } => spec_resize_rect_ok(
                initial_rect,
            ),
        },
    ensures
        final(layout).wf(),
        ({
            let found = old(layout).find_surface_spec(surface, 0);
            let skip = match found {
                Some(id) => !old(layout).win_at(id.idx()).inner.state.floating,
                None => true,
            };
            if skip {
                &&& r is None
                &&& *final(layout) == *old(layout)
                &&& *final(state) == *old(state)
            } else {
                let id = found->Some_0;
                &&& (*final(state) == match *old(state) {
                    ResizeState::WaitingForLastCommit { .. } => ResizeState::Idle,
                    other => other,
                })
                &&& (match *old(state) {
                    ResizeState::Idle => r is None && *final(layout) == *old(layout),
                    ResizeState::Resizing { edges, initial_rect } => spec_commit_outcome(
                        *old(layout),
                        *final(layout),
                        id.idx(),
                        r,
                        edges,
                        initial_rect,
                        committed_size,
                        window_loc,
                    ),
                    ResizeState::WaitingForLastCommit { edges, initial_rect } => spec_commit_outcome(
                        *old(layout),
                        *final(layout),
                        id.idx(),
                        r,
                        edges,
                        initial_rect,
                        committed_size,
                        window_loc,
                    ),
                })
            }
        }),
{
    let id = match layout.find_surface(surface) {
        None => {
            return None;
        },
        Some(id) => id,
    };
    let floating = match layout.get_window(id) {
        Some(w) => w.state.floating,
        None => false,
    };
    if !floating {
        return None;
    }
    let (edges, initial_rect) = match state.commit() {
        None => {
            return None;
        },
        Some(p) => p,
    };
    if !(edges.top || edges.left) {
        return None;
    }
    let new_loc = Point {
        x: if edges.left {
            (initial_rect.loc.x as i64 + initial_rect.size.w as i64
                - committed_size.w as i64) as i32
        } else {
            window_loc.x
        },
        y: if edges.top {
            (initial_rect.loc.y as i64 + initial_rect.size.h as i64
                - committed_size.h as i64) as i32
        } else {
            window_loc.y
        },
    };
    layout.set_floating_loc(id, new_loc);
    Some(new_loc)
}

/// What one commit step does to the tree: with an active top or left edge
/// the floating rectangle's origin moves to `spec_commit_loc` and that
/// location is returned; otherwise nothing changes.
pub open spec fn spec_commit_outcome(
    o: Layout,
    n: Layout,
    id: int,
    r: Option<Point>,
    edges: Edge,
    initial_rect: Rect,
    committed_size: Size,
    window_loc: Point,
) -> bool {
    if edges.top || edges.left {
        let loc = spec_commit_loc(edges, initial_rect, committed_size, window_loc);
        let size = match o.win_at(id).inner.floating_rect {
            Some(rect) => rect.size,
            None => Size { w: 0, h: 0 },
        };
        &&& r == Some(loc)
        &&& n.elements@ == o.elements@.update(
            id,
            Some(
                LayoutElement::Window(
                    crate::layout::Window {
                        inner: crate::window::Window {
                            floating_rect: Some(Rect { loc, size }),
                            ..o.win_at(id).inner
                        },
                        ..o.win_at(id)
                    },
                ),
            ),
        )
    } else {
        r is None && n == o
    }
}

} // verus!
