//! The move gesture: one pointer drag that relocates a window.
//!
//! While the drag runs, the window's target location follows the pointer by
//! the delta from the grab start; a floating window's remembered rectangle
//! moves with it. When the button is released over another window, a tiled
//! window is re-inserted as that window's sibling, split on the half of it
//! the pointer ended in; a floating window simply keeps its translated
//! rectangle.

use crate::geometry::{Point, Rect};
use crate::layout::{Id, Layout, LayoutElement};
use crate::solver::Placement;
use crate::window::{get_edge_under, spec_get_edge_under};
use vstd::prelude::*;

verus! {

/// The coordinate range move gestures work in.
pub open spec fn spec_coord_ok(p: Point) -> bool {
    &&& -0x2000_0000 <= p.x <= 0x2000_0000
    &&& -0x2000_0000 <= p.y <= 0x2000_0000
}

/// What a tiled drop leaves behind. With a grabbed window `gid` and a drop
/// target under the pointer, the grabbed leaf is removed (with container
/// garbage collection) and re-created as the target's sibling on the half of
/// the target the pointer ended in; otherwise the tree is untouched.
pub open spec fn spec_drop_result(
    o: Layout,
    n: Layout,
    surface: u64,
    placements: Seq<Placement>,
    pointer: Point,
) -> bool {
    let g = o.find_surface_spec(surface, 0);
    let t = spec_drop_target(o, g, placements, pointer, 0);
    match (g, t) {
        (Some(gid), Some(target)) => {
            let edge = spec_get_edge_under(
                target.rect.size,
                Point {
                    x: (pointer.x - target.rect.loc.x) as i32,
                    y: (pointer.y - target.rect.loc.y) as i32,
                },
            );
            exists|mid: Layout|
                {
                    &&& #[trigger] Layout::spec_remove_result(o, mid, gid.idx())
                    &&& mid.occupied(target.id.idx())
                    &&& n.slot_count() == o.slot_count() + 1
                    &&& n.occupied(o.slot_count())
                    &&& n.node_at(o.slot_count()) == o.node_at(gid.idx()).with_links(
                        Id(o.slot_count() as usize),
                        Id(mid.spec_insert_target(target.id.idx()) as usize),
                    )
                    &&& n.children_of(mid.spec_insert_target(target.id.idx()))
                        == mid.children_of(mid.spec_insert_target(target.id.idx())).insert(
                        mid.spec_insert_pos(target.id.idx(), edge),
                        Id(o.slot_count() as usize),
                    )
                    &&& (forall|j: int|
                        0 <= j < o.slot_count() && j != mid.spec_insert_target(target.id.idx())
                            ==> n.elements@[j] == mid.elements@[j])
                }
        },
        _ => n == o,
    }
}

/// The bounds a drop release needs of its inputs: a pointer and placements
/// within the coordinate range.
pub open spec fn spec_drop_inputs_ok(l: Layout, placements: Seq<Placement>, pointer: Point) -> bool {
    &&& spec_coord_ok(pointer)
    &&& (forall|k: int|
        0 <= k < placements.len() ==> {
            &&& l.is_win((#[trigger] placements[k]).id.idx())
            &&& spec_coord_ok(placements[k].rect.loc)
            &&& 0 <= placements[k].rect.size.w <= 0x2000_0000
            &&& 0 <= placements[k].rect.size.h <= 0x2000_0000
        })
}

/// State of one move gesture.
pub struct MoveGrab {
    /// Client-surface handle of the grabbed window.
    pub surface: u64,
    /// Where the pointer was when the grab started.
    pub start_location: Point,
    /// Where the window was when the grab started.
    pub initial_window_location: Point,
    /// Where the window goes now: start location plus the pointer delta.
    pub new_location: Point,
    /// Where the pointer is now.
    pub pointer_location: Point,
}

impl MoveGrab {
    /// A fresh grab for the window under the pointer.
    pub fn begin(surface: u64, initial_window_location: Point, pointer_location: Point) -> (r:
        MoveGrab)
        ensures
            r == (MoveGrab {
                surface,
                start_location: pointer_location,
                initial_window_location,
                new_location: initial_window_location,
                pointer_location,
            }),
    {
        MoveGrab {
            surface,
            start_location: pointer_location,
            initial_window_location,
            new_location: initial_window_location,
            pointer_location,
        }
    }

    /// The window location a pointer position implies: the initial location
    /// translated by the pointer's travel since the grab started.
    pub open spec fn spec_target(self, pointer: Point) -> Point {
        Point {
            x: (self.initial_window_location.x + pointer.x - self.start_location.x) as i32,
            y: (self.initial_window_location.y + pointer.y - self.start_location.y) as i32,
        }
    }

    /// Pointer motion during the drag: computes the translated window
    /// location, remembers it, and moves a floating window's remembered
    /// rectangle along. The caller maps the returned location as the live
    /// preview.
    pub fn motion(&mut self, layout: &mut Layout, pointer: Point) -> (r: Point)
        requires
            old(layout).wf(),
            spec_coord_ok(pointer),
            spec_coord_ok(old(self).start_location),
            spec_coord_ok(old(self).initial_window_location),
        ensures
            final(layout).wf(),
            r == old(self).spec_target(pointer),
            *final(self) == (MoveGrab {
                new_location: r,
                pointer_location: pointer,
                ..*old(self)
            }),
            ({
                let found = old(layout).find_surface_spec(old(self).surface, 0);
                match found {
                    Some(id) => {
                        if old(layout).win_at(id.idx()).inner.state.floating {
                            let size = match old(layout).win_at(id.idx()).inner.floating_rect {
                                Some(rect) => rect.size,
                                None => crate::geometry::Size { w: 0, h: 0 },
                            };
                            final(layout).elements@ == old(layout).elements@.update(
                                id.idx(),
                                Some(
                                    LayoutElement::Window(
                                        crate::layout::Window {
                                            inner: crate::window::Window {
                                                floating_rect: Some(Rect { loc: r, size }),
                                                ..old(layout).win_at(id.idx()).inner
                                            },
                                            ..old(layout).win_at(id.idx())
                                        },
                                    ),
                                ),
                            )
                        } else {
                            *final(layout) == *old(layout)
                        }
                    },
                    None => *final(layout) == *old(layout),
                }
            }),
    {
        let x = (self.initial_window_location.x as i64 + pointer.x as i64
            - self.start_location.x as i64) as i32;
        let y = (self.initial_window_location.y as i64 + pointer.y as i64
            - self.start_location.y as i64) as i32;
        let new_location = Point { x, y };
        match layout.find_surface(self.surface) {
            Some(id) => {
                let floating = match layout.get_window(id) {
                    Some(w) => w.state.floating,
                    None => false,
                };
                if floating {
                    layout.set_floating_loc(id, new_location);
                }
            },
            None => {},
        }
        self.new_location = new_location;
        self.pointer_location = pointer;
        new_location
    }

    /// Release over the tree: finds the first placed window other than the
    /// grabbed one whose rectangle holds the pointer, and re-inserts the
    /// grabbed window as its sibling on the half of it the pointer is in.
    /// With no such window (or with the grabbed window already gone) the
    /// tree is left alone.
    pub fn unset_tiled(&self, layout: &mut Layout, placements: &Vec<Placement>) -> (r: Option<()>)
        requires
            old(layout).wf(),
            old(layout).slot_count() < usize::MAX,
            spec_drop_inputs_ok(*old(layout), placements@, self.pointer_location),
        ensures
            final(layout).wf(),
            old(layout).no_empty_subs() ==> final(layout).no_empty_subs(),
            spec_drop_result(
                *old(layout),
                *final(layout),
                self.surface,
                placements@,
                self.pointer_location,
            ),
            r is Some <==> {
                &&& old(layout).find_surface_spec(self.surface, 0) is Some
                &&& spec_drop_target(
                    *old(layout),
                    old(layout).find_surface_spec(self.surface, 0),
                    placements@,
                    self.pointer_location,
                    0,
                ) is Some
            },
    {
        let ghost o = *layout;
        let gid = match layout.find_surface(self.surface) {
            None => {
                return None;
            },
            Some(gid) => gid,
        };
        let target = match find_drop_target(layout, Some(gid), placements, self.pointer_location) {
            None => {
                return None;
            },
            Some(t) => t,
        };
        proof {
            let kk = choose|kk: int| 0 <= kk < placements@.len() && placements@[kk] == target;
            assert(o.is_win(placements@[kk].id.idx()));
            assert(o.is_win(target.id.idx()));
            assert(spec_coord_ok(target.rect.loc));
            assert(0 <= target.rect.size.w <= 0x2000_0000 && 0 <= target.rect.size.h
                <= 0x2000_0000);
        }
        let rel = Point {
            x: self.pointer_location.x - target.rect.loc.x,
            y: self.pointer_location.y - target.rect.loc.y,
        };
        let edge = get_edge_under(target.rect.size, rel);
        proof {
            assert(o.wf_node(0));
            assert(o.is_win(gid.idx()));
            assert(gid.idx() != 0);
        }
        let el = match layout.remove_element(gid) {
            None => {
                return None;
            },
            Some(el) => el,
        };
        let ghost mid = *layout;
        proof {
            assert(mid.occupied(target.id.idx()));
        }
        let r = layout.insert_element_at(target.id, edge, el);
        proof {
            assert(r is Some);
        }
        Some(())
    }

    /// Release of the gesture: a floating window keeps its translated
    /// rectangle and the tree is untouched; a tiled window is dropped next
    /// to the window under the pointer.
    pub fn unset(&self, layout: &mut Layout, placements: &Vec<Placement>)
        requires
            old(layout).wf(),
            old(layout).slot_count() < usize::MAX,
            spec_drop_inputs_ok(*old(layout), placements@, self.pointer_location),
        ensures
            final(layout).wf(),
            old(layout).no_empty_subs() ==> final(layout).no_empty_subs(),
            ({
                let g = old(layout).find_surface_spec(self.surface, 0);
                match g {
                    Some(gid) => {
                        if old(layout).win_at(gid.idx()).inner.state.floating {
                            *final(layout) == *old(layout)
                        } else {
                            spec_drop_result(
                                *old(layout),
                                *final(layout),
                                self.surface,
                                placements@,
                                self.pointer_location,
                            )
                        }
                    },
                    None => *final(layout) == *old(layout),
                }
            }),
    {
        let is_floating = match layout.find_surface(self.surface) {
            None => {
                return ;
            },
            Some(gid) => match layout.get_window(gid) {
                Some(w) => w.state.floating,
                None => false,
            },
        };
        if !is_floating {
            let _ = self.unset_tiled(layout, placements);
        }
    }
}

/// The first placement other than the grabbed window whose rectangle holds
/// the pointer, scanning from index `j`.
pub open spec fn spec_drop_target(
    l: Layout,
    grabbed: Option<Id>,
    placements: Seq<Placement>,
    pointer: Point,
    j: int,
) -> Option<Placement>
    decreases placements.len() - j,
{
    if j < 0 || j >= placements.len() {
        None
    } else if Some(placements[j].id) != grabbed && placements[j].rect.spec_contains(pointer) {
        Some(placements[j])
    } else {
        spec_drop_target(l, grabbed, placements, pointer, j + 1)
    }
}

fn find_drop_target(
    layout: &Layout,
    grabbed: Option<Id>,
    placements: &Vec<Placement>,
    pointer: Point,
) -> (r: Option<Placement>)
    ensures
        r == spec_drop_target(*layout, grabbed, placements@, pointer, 0),
        r matches Some(p) ==> exists|k: int|
            0 <= k < placements@.len() && placements@[k] == p,
        r matches Some(p) ==> Some(p.id) != grabbed && p.rect.spec_contains(pointer),
{
    let mut j: usize = 0;
    while j < placements.len()
        invariant
            j <= placements@.len(),
            spec_drop_target(*layout, grabbed, placements@, pointer, 0) == spec_drop_target(
                *layout,
                grabbed,
                placements@,
                pointer,
                j as int,
            ),
        decreases placements@.len() - j,
    {
        let p = placements[j];
        let differs = match grabbed {
            Some(g) => p.id != g,
            None => true,
        };
        if differs && p.rect.contains(pointer) {
            return Some(p);
        }
        j += 1;
    }
    None
}

} // verus!
