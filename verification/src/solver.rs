//! The geometry solver: from a layout tree and a target rectangle to one
//! rectangle per window.
//!
//! A container's rectangle is split evenly among its tileable children along
//! its axis, with a fixed pixel gap between slices (tabbed containers give
//! every child the full rectangle). Floating, maximized and minimized
//! windows are excluded from tiling and placed in a post-pass: maximized
//! windows get the whole output, floating ones their remembered rectangle,
//! minimized ones are unmapped. The solver is a pure function of the tree
//! and the rectangle, so resolving twice yields identical placements.

use crate::geometry::{Point, Rect, Size};
use crate::layout::{Id, Layout, LayoutElement, LayoutType};
use crate::window::{spec_default_floating_rect, spec_output_sane, default_floating_rect};
use vstd::arithmetic::div_mod::lemma_fundamental_div_mod;
use vstd::prelude::*;

verus! {

/// Fixed pixel gap between tiled slices and around the tiled area.
pub const GAP: i32 = 20;

/// One solved placement: where window `id` goes.
#[derive(Clone, Copy, Debug, PartialEq, Eq, Structural)]
pub struct Placement {
    pub id: Id,
    pub rect: Rect,
}

/// Whether the solver may tile node `c`: containers always, windows only
/// when no placement flag is set.
pub open spec fn spec_tileable(l: Layout, c: Id) -> bool {
    l.occupied(c.idx()) && match l.node_at(c.idx()) {
        LayoutElement::SubLayout(_) => true,
        LayoutElement::Window(w) => w.inner.state.spec_tileable(),
    }
}

fn tileable(l: &Layout, c: Id) -> (r: bool)
    ensures
        r == spec_tileable(*l, c),
{
    match l.get_element(c) {
        None => false,
        Some(el) => match el {
            LayoutElement::SubLayout(_) => true,
            LayoutElement::Window(w) => w.inner.state.tileable(),
        },
    }
}

/// Number of tileable nodes among the first `j` children.
pub open spec fn tileable_prefix(l: Layout, cs: Seq<Id>, j: int) -> int
    decreases j,
{
    if j <= 0 {
        0
    } else {
        tileable_prefix(l, cs, j - 1) + if spec_tileable(l, cs[j - 1]) {
            1int
        } else {
            0int
        }
    }
}

proof fn lemma_tileable_prefix_mono(l: Layout, cs: Seq<Id>, j1: int, j2: int)
    requires
        0 <= j1 <= j2,
    ensures
        tileable_prefix(l, cs, j1) <= tileable_prefix(l, cs, j2),
        0 <= tileable_prefix(l, cs, j1) <= j1,
    decreases j2,
{
    if j2 > 0 {
        if j1 == j2 {
            lemma_tileable_prefix_mono(l, cs, j1 - 1 as int, j2 - 1);
        } else {
            lemma_tileable_prefix_mono(l, cs, j1, j2 - 1);
        }
    }
}

/// Length of one of `n` equal slices of `total` after the `n - 1` gaps are
/// taken out; a span too small for its gaps yields zero-length slices.
pub open spec fn spec_slice_len(total: int, n: int) -> int {
    let avail = total - GAP * (n - 1);
    if n > 0 && avail >= 0 {
        avail / n
    } else {
        0
    }
}

/// Offset of the `k`-th slice along its axis; in a span too small for its
/// gaps all (zero-length) slices sit at the start.
pub open spec fn spec_slice_off(total: int, n: int, k: int) -> int {
    let avail = total - GAP * (n - 1);
    if n > 0 && avail >= 0 {
        (spec_slice_len(total, n) + GAP) * k
    } else {
        0
    }
}

/// The rectangle the `k`-th of `n` tiled slices receives: slices of equal
/// length along the container's axis, one gap apart; tabbed containers give
/// each child the full rectangle.
pub open spec fn spec_slice(rect: Rect, lt: LayoutType, n: int, k: int) -> Rect {
    match lt {
        LayoutType::Horizontal => {
            let w = spec_slice_len(rect.size.w as int, n);
            Rect {
                loc: Point {
                    x: (rect.loc.x + spec_slice_off(rect.size.w as int, n, k)) as i32,
                    y: rect.loc.y,
                },
                size: Size { w: w as i32, h: rect.size.h },
            }
        },
        LayoutType::Vertical => {
            let h = spec_slice_len(rect.size.h as int, n);
            Rect {
                loc: Point {
                    x: rect.loc.x,
                    y: (rect.loc.y + spec_slice_off(rect.size.h as int, n, k)) as i32,
                },
                size: Size { w: rect.size.w, h: h as i32 },
            }
        },
        LayoutType::Tabbed => rect,
    }
}

/// The coordinate range the solver works in: every rectangle it meets keeps
/// `slack` more pixels of room on each axis before the bound.
pub open spec fn spec_rect_ok(rect: Rect, slack: int) -> bool {
    &&& -0x1000_0000 <= rect.loc.x
    &&& -0x1000_0000 <= rect.loc.y
    &&& 0 <= rect.size.w
    &&& 0 <= rect.size.h
    &&& rect.loc.x + rect.size.w + slack <= 0x3000_0000
    &&& rect.loc.y + rect.size.h + slack <= 0x3000_0000
}

/// The `k`-th of `n` slices stays inside its parent's span, one gap wider.
proof fn lemma_slice_ok(rect: Rect, lt: LayoutType, n: int, k: int, slack: int)
    requires
        spec_rect_ok(rect, slack),
        1 <= n <= 0x10_0000,
        0 <= k < n,
        slack >= GAP,
    ensures
        spec_rect_ok(spec_slice(rect, lt, n, k), slack - GAP),
        spec_slice(rect, lt, n, k).loc.x >= rect.loc.x,
        spec_slice(rect, lt, n, k).loc.y >= rect.loc.y,
{
    lemma_slice_span(rect.size.w as int, n, k);
    lemma_slice_span(rect.size.h as int, n, k);
}

/// Slice `k` of a span of `total`: its offset and length stay within
/// `total + GAP`.
proof fn lemma_slice_span(total: int, n: int, k: int)
    requires
        0 <= total,
        1 <= n <= 0x10_0000,
        0 <= k < n,
    ensures
        ({
            let s = spec_slice_len(total, n);
            let off = spec_slice_off(total, n, k);
            &&& 0 <= s <= total
            &&& 0 <= off
            &&& off + s <= total + GAP
        }),
{
    let avail = total - GAP * (n - 1);
    let s = spec_slice_len(total, n);
    if avail >= 0 {
        lemma_fundamental_div_mod(avail, n);
        assert(n * (avail / n) + avail % n == avail);
        assert(0 <= avail % n < n);
        assert(s == avail / n);
        assert(n * s <= avail);
        assert(0 <= s) by (nonlinear_arith)
            requires
                n * s + avail % n == avail,
                0 <= avail % n < n,
                avail >= 0,
                n >= 1,
        ;
        assert((s + GAP) * k + s <= total + GAP) by (nonlinear_arith)
            requires
                n * s <= avail,
                avail == total - GAP * (n - 1),
                0 <= k < n,
                0 <= s,
                GAP == 20,
        ;
        assert(0 <= (s + GAP) * k) by (nonlinear_arith)
            requires
                0 <= s,
                0 <= k,
                GAP == 20,
        ;
        assert(s <= total) by (nonlinear_arith)
            requires
                n * s <= avail,
                avail <= total,
                0 <= s,
                n >= 1,
        ;
    } else {
        assert(s == 0);
    }
}

fn slice_rect(rect: Rect, lt: LayoutType, n: usize, k: usize, Ghost(slack): Ghost<int>) -> (r:
    Rect)
    requires
        spec_rect_ok(rect, slack),
        1 <= n <= 0x10_0000,
        k < n,
        slack >= GAP,
    ensures
        r == spec_slice(rect, lt, n as int, k as int),
        spec_rect_ok(r, slack - GAP),
        r.loc.x >= rect.loc.x,
        r.loc.y >= rect.loc.y,
{
    proof {
        lemma_slice_ok(rect, lt, n as int, k as int, slack);
        lemma_slice_span(rect.size.w as int, n as int, k as int);
        lemma_slice_span(rect.size.h as int, n as int, k as int);
    }
    match lt {
        LayoutType::Horizontal => {
            let (w, off) = slice_span(rect.size.w, n, k);
            let x: i64 = rect.loc.x as i64 + off;
            Rect {
                loc: Point { x: x as i32, y: rect.loc.y },
                size: Size { w, h: rect.size.h },
            }
        },
        LayoutType::Vertical => {
            let (h, off) = slice_span(rect.size.h, n, k);
            let y: i64 = rect.loc.y as i64 + off;
            Rect {
                loc: Point { x: rect.loc.x, y: y as i32 },
                size: Size { w: rect.size.w, h },
            }
        },
        LayoutType::Tabbed => rect,
    }
}

/// Length and offset of the `k`-th of `n` slices of a span of `total`.
fn slice_span(total: i32, n: usize, k: usize) -> (r: (i32, i64))
    requires
        0 <= total,
        1 <= n <= 0x10_0000,
        k < n,
    ensures
        r.0 == spec_slice_len(total as int, n as int),
        r.1 == spec_slice_off(total as int, n as int, k as int),
{
    proof {
        lemma_slice_span(total as int, n as int, k as int);
    }
    let avail: i64 = total as i64 - (GAP as i64) * (n as i64 - 1);
    if avail >= 0 {
        let s: i64 = avail / (n as i64);
        proof {
            lemma_fundamental_div_mod(avail as int, n as int);
        }
        (s as i32, (s + GAP as i64) * (k as i64))
    } else {
        (0, 0)
    }
}

/// The placements of the first `j` children of container `i`: each tileable
/// child takes the next slice; container children contribute their whole
/// solved subtree.
pub open spec fn solve_children_spec(l: Layout, i: int, rect: Rect, j: int) -> Seq<Placement>
    decreases l.slot_count() - i, j,
{
    if !l.is_sub(i) || j <= 0 || j > l.children_of(i).len() {
        Seq::empty()
    } else {
        let cs = l.children_of(i);
        let prev = solve_children_spec(l, i, rect, j - 1);
        let c = cs[j - 1];
        if spec_tileable(l, c) {
            let n = tileable_prefix(l, cs, cs.len() as int);
            let k = tileable_prefix(l, cs, j - 1);
            let crect = spec_slice(rect, l.sub_at(i).layout_type, n, k);
            if l.node_at(c.idx()) is Window {
                prev.push(Placement { id: c, rect: crect })
            } else if i < c.idx() < l.slot_count() {
                prev + solve_node_spec(l, c.idx(), crect)
            } else {
                prev
            }
        } else {
            prev
        }
    }
}

/// The placements of every tiled window below container `i`, given `rect`.
pub open spec fn solve_node_spec(l: Layout, i: int, rect: Rect) -> Seq<Placement>
    decreases l.slot_count() - i, l.children_of(i).len() + 1,
{
    if l.is_sub(i) {
        solve_children_spec(l, i, rect, l.children_of(i).len() as int)
    } else {
        Seq::empty()
    }
}

fn solve_node(l: &Layout, i: Id, rect: Rect, out: &mut Vec<Placement>)
    requires
        l.wf(),
        l.is_sub(i.idx()),
        l.slot_count() <= 0x10_0000,
        spec_rect_ok(rect, GAP * (l.slot_count() - i.idx())),
    ensures
        final(out)@ == old(out)@ + solve_node_spec(*l, i.idx(), rect),
    decreases l.slot_count() - i.idx(),
{
    proof {
        assert(l.wf_node(i.idx()));
    }
    let sl = l.get_sublayout(i).unwrap();
    let cs = &sl.children;
    let clen = cs.len();
    // first pass: how many children are tiled
    let mut n: usize = 0;
    let mut j: usize = 0;
    while j < clen
        invariant
            j <= clen,
            clen == cs@.len(),
            n == tileable_prefix(*l, cs@, j as int),
            n <= j,
        decreases clen - j,
    {
        if tileable(l, cs[j]) {
            n = n + 1;
        }
        j = j + 1;
    }
    // second pass: hand each tiled child its slice
    let ghost base = out@;
    proof {
        assert(out@ =~= base + solve_children_spec(*l, i.idx(), rect, 0));
    }
    let mut k: usize = 0;
    j = 0;
    while j < clen
        invariant
            l.wf(),
            l.is_sub(i.idx()),
            l.slot_count() <= 0x10_0000,
            spec_rect_ok(rect, GAP * (l.slot_count() - i.idx())),
            j <= clen,
            clen == cs@.len(),
            *sl == l.sub_at(i.idx()),
            cs@ == l.children_of(i.idx()),
            n == tileable_prefix(*l, cs@, clen as int),
            k == tileable_prefix(*l, cs@, j as int),
            out@ == base + solve_children_spec(*l, i.idx(), rect, j as int),
        decreases clen - j,
    {
        let c = cs[j];
        proof {
            assert(l.wf_node(i.idx()));
            lemma_tileable_prefix_mono(*l, cs@, j as int, clen as int);
            lemma_tileable_prefix_mono(*l, cs@, j + 1 as int, clen as int);
            lemma_tileable_prefix_mono(*l, cs@, clen as int, clen as int);
            assert(tileable_prefix(*l, cs@, j + 1 as int) == k + if spec_tileable(*l, cs@[j as int]) {
                1int
            } else {
                0int
            });
        }
        if tileable(l, c) {
            proof {
                assert(l.occupied(c.idx()));
                assert(c.idx() > i.idx() && c.idx() < l.slot_count());
                assert(k + 1 <= n);
                assert(n <= clen < l.slot_count() <= 0x10_0000);
            }
            let crect = slice_rect(rect, sl.layout_type, n, k, Ghost(GAP * (l.slot_count() - i.idx())));
            match l.get_element(c).unwrap() {
                LayoutElement::Window(_) => {
                    out.push(Placement { id: c, rect: crect });
                    proof {
                        assert(out@ =~= base + solve_children_spec(*l, i.idx(), rect, j + 1 as int));
                    }
                },
                LayoutElement::SubLayout(_) => {
                    proof {
                        assert(GAP * (l.slot_count() - i.idx()) - GAP >= GAP * (l.slot_count()
                            - c.idx())) by (nonlinear_arith)
                            requires
                                c.idx() >= i.idx() + 1,
                                c.idx() < l.slot_count(),
                                GAP == 20,
                        ;
                        assert(spec_rect_ok(crect, GAP * (l.slot_count() - c.idx())));
                    }
                    solve_node(l, c, crect, out);
                    proof {
                        assert(out@ =~= base + solve_children_spec(*l, i.idx(), rect, j + 1 as int));
                    }
                },
            }
            k = k + 1;
        } else {
            proof {
                assert(solve_children_spec(*l, i.idx(), rect, j + 1 as int)
                    == solve_children_spec(*l, i.idx(), rect, j as int));
            }
        }
        j = j + 1;
    }
    proof {
        assert(out@ == base + solve_node_spec(*l, i.idx(), rect));
    }
}

/// Geometry partition: splitting a span of `total` into `n` slices covers
/// it exactly up to integer rounding: the slice lengths (all equal to
/// `spec_slice_len`) plus the `n - 1` gaps sum to `total`, short by less
/// than one pixel per slice.
pub proof fn lemma_geometry_partition(total: int, n: int)
    requires
        1 <= n <= 0x10_0000,
        GAP * (n - 1) <= total,
    ensures
        ({
            let s = spec_slice_len(total, n);
            total - n < n * s + GAP * (n - 1) <= total
        }),
{
    let avail = total - GAP * (n - 1);
    let s = spec_slice_len(total, n);
    lemma_fundamental_div_mod(avail, n);
    assert(n * s + avail % n == avail);
    assert(0 <= avail % n < n);
}

/// Solver idempotence: resolving an unchanged tree against an unchanged
/// rectangle yields identical placements, because each run equals the same
/// function of the tree and the rectangle.
pub proof fn lemma_solve_idempotent(
    l: Layout,
    rect: Rect,
    first: Seq<Placement>,
    second: Seq<Placement>,
)
    requires
        first == solve_node_spec(l, 0, rect),
        second == solve_node_spec(l, 0, rect),
    ensures
        first == second,
{
}

/// Every placement the solver emits names a live window leaf.
pub proof fn lemma_solve_places_windows(l: Layout, i: int, rect: Rect)
    requires
        l.wf(),
    ensures
        forall|k: int|
            0 <= k < solve_node_spec(l, i, rect).len() ==> l.is_win(
                (#[trigger] solve_node_spec(l, i, rect)[k]).id.idx(),
            ),
    decreases l.slot_count() - i, l.children_of(i).len() + 1,
{
    let s = solve_node_spec(l, i, rect);
    if l.is_sub(i) {
        lemma_solve_children_windows(l, i, rect, l.children_of(i).len() as int);
        let cso = solve_children_spec(l, i, rect, l.children_of(i).len() as int);
        assert(s == cso);
        assert forall|k: int| 0 <= k < s.len() implies l.is_win((#[trigger] s[k]).id.idx()) by {
            assert(s[k] == cso[k]);
        }
    } else {
        assert(s == Seq::<Placement>::empty());
    }
}

proof fn lemma_solve_children_windows(l: Layout, i: int, rect: Rect, j: int)
    requires
        l.wf(),
    ensures
        forall|k: int|
            0 <= k < solve_children_spec(l, i, rect, j).len() ==> l.is_win(
                (#[trigger] solve_children_spec(l, i, rect, j)[k]).id.idx(),
            ),
    decreases l.slot_count() - i, j,
{
    let s = solve_children_spec(l, i, rect, j);
    if l.is_sub(i) && 0 < j <= l.children_of(i).len() {
        lemma_solve_children_windows(l, i, rect, j - 1);
        let prev = solve_children_spec(l, i, rect, j - 1);
        let cs = l.children_of(i);
        let c = cs[j - 1];
        let n = tileable_prefix(l, cs, cs.len() as int);
        let k0 = tileable_prefix(l, cs, j - 1);
        let crect = spec_slice(rect, l.sub_at(i).layout_type, n, k0);
        if spec_tileable(l, c) && !(l.node_at(c.idx()) is Window) && i < c.idx() < l.slot_count() {
            lemma_solve_places_windows(l, c.idx(), crect);
        }
        assert forall|k: int| 0 <= k < s.len() implies l.is_win((#[trigger] s[k]).id.idx()) by {
            if k < prev.len() {
                assert(s[k] == prev[k]);
            } else if spec_tileable(l, c) {
                if l.node_at(c.idx()) is Window {
                    assert(s[k] == Placement { id: c, rect: crect });
                    assert(l.occupied(c.idx()));
                } else if i < c.idx() < l.slot_count() {
                    let sub = solve_node_spec(l, c.idx(), crect);
                    assert(s[k] == sub[k - prev.len()]);
                }
            }
        }
    }
}

/// The placements of every tiled window in the tree, partitioning `rect`.
pub fn solve(l: &Layout, rect: Rect) -> (r: Vec<Placement>)
    requires
        l.wf(),
        l.slot_count() <= 0x10_0000,
        spec_rect_ok(rect, GAP * l.slot_count()),
    ensures
        r@ == solve_node_spec(*l, 0, rect),
{
    let mut out: Vec<Placement> = Vec::new();
    proof {
        assert(l.wf_node(0));
    }
    solve_node(l, Id(0), rect, &mut out);
    out
}


/// Everything one frame needs: a rectangle for each visible window, and the
/// minimized windows to unmap.
pub struct RenderPlan {
    pub placements: Vec<Placement>,
    pub unmapped: Vec<Id>,
}

/// The tiled working area: the output rectangle with one gap taken off each
/// side (an output smaller than two gaps collapses to zero size).
pub open spec fn spec_inset(output: Rect) -> Rect {
    Rect {
        loc: Point { x: (output.loc.x + GAP) as i32, y: (output.loc.y + GAP) as i32 },
        size: Size {
            w: (if output.size.w >= 2 * GAP {
                output.size.w - 2 * GAP
            } else {
                0
            }) as i32,
            h: (if output.size.h >= 2 * GAP {
                output.size.h - 2 * GAP
            } else {
                0
            }) as i32,
        },
    }
}

/// Placements added after tiling for the windows in the first `j` slots, in
/// ascending slot order: a maximized window covers the whole output, a
/// floating one its remembered rectangle (or the quarter-screen default);
/// minimized windows get nothing.
pub open spec fn post_pass_spec(l: Layout, output: Rect, j: int) -> Seq<Placement>
    decreases j,
{
    if j <= 0 {
        Seq::empty()
    } else {
        let prev = post_pass_spec(l, output, j - 1);
        if l.is_win(j - 1) {
            let w = l.win_at(j - 1).inner;
            if w.state.minimized {
                prev
            } else if w.state.maximized {
                prev.push(Placement { id: Id((j - 1) as usize), rect: output })
            } else if w.state.floating {
                prev.push(
                    Placement {
                        id: Id((j - 1) as usize),
                        rect: match w.floating_rect {
                            Some(r) => r,
                            None => spec_default_floating_rect(output),
                        },
                    },
                )
            } else {
                prev
            }
        } else {
            prev
        }
    }
}

/// The minimized windows among the first `j` slots, in ascending slot order.
pub open spec fn unmapped_spec(l: Layout, j: int) -> Seq<Id>
    decreases j,
{
    if j <= 0 {
        Seq::empty()
    } else if l.is_win(j - 1) && l.win_at(j - 1).inner.state.minimized {
        unmapped_spec(l, j - 1).push(Id((j - 1) as usize))
    } else {
        unmapped_spec(l, j - 1)
    }
}

/// One frame: tiles the tree into the gap-inset working area, then places
/// maximized and floating windows over it and lists the minimized ones to
/// unmap.
pub fn render(l: &Layout, output: Rect) -> (r: RenderPlan)
    requires
        l.wf(),
        l.slot_count() <= 0x10_0000,
        spec_output_sane(output),
    ensures
        r.placements@ == solve_node_spec(*l, 0, spec_inset(output)) + post_pass_spec(
            *l,
            output,
            l.slot_count(),
        ),
        r.unmapped@ == unmapped_spec(*l, l.slot_count()),
{
    let inset = Rect {
        loc: Point { x: output.loc.x + GAP, y: output.loc.y + GAP },
        size: Size {
            w: if output.size.w >= 2 * GAP {
                output.size.w - 2 * GAP
            } else {
                0
            },
            h: if output.size.h >= 2 * GAP {
                output.size.h - 2 * GAP
            } else {
                0
            },
        },
    };
    let mut placements = solve(l, inset);
    let ghost tiled = placements@;
    let mut unmapped: Vec<Id> = Vec::new();
    proof {
        assert(placements@ =~= tiled + post_pass_spec(*l, output, 0));
        assert(unmapped@ =~= unmapped_spec(*l, 0));
    }
    let mut j: usize = 0;
    let slots = l.elements.len();
    while j < slots
        invariant
            l.wf(),
            spec_output_sane(output),
            j <= slots,
            slots == l.slot_count(),
            placements@ == tiled + post_pass_spec(*l, output, j as int),
            unmapped@ == unmapped_spec(*l, j as int),
        decreases slots - j,
    {
        match &l.elements[j] {
            Some(LayoutElement::Window(w)) => {
                if w.inner.state.minimized {
                    unmapped.push(Id(j));
                } else if w.inner.state.maximized {
                    placements.push(Placement { id: Id(j), rect: output });
                } else if w.inner.state.floating {
                    let rect = match w.inner.floating_rect {
                        Some(r) => r,
                        None => default_floating_rect(output),
                    };
                    placements.push(Placement { id: Id(j), rect });
                }
            },
            _ => {},
        }
        j += 1;
    }
    RenderPlan { placements, unmapped }
}

} // verus!
