//! Focus tracking over the layout tree.
//!
//! Every container remembers its most recently focused child, which defines
//! one focus path from the root to a leaf. Removing the focused leaf falls
//! back to the sibling before it on that path, or the nearest ancestor's
//! alternate child.

use crate::layout::{Id, Layout, LayoutElement};
use vstd::prelude::*;

verus! {

/// Where focus goes from node `i`. With `before` set the walk looks for a
/// sibling on the focus path just before `i` (used ahead of removing `i`),
/// climbing as long as no container offers one; without it, `i` itself (a
/// leaf) is the answer.
pub open spec fn next_focus_spec(l: Layout, i: int, before: bool) -> Option<Id>
    decreases i,
{
    if !l.occupied(i) {
        None
    } else if l.node_at(i) is Window {
        if !before {
            Some(Id(i as usize))
        } else if l.parent_of(i) is Some && 0 <= l.parent_idx(i) < i {
            next_focus_spec(l, l.parent_idx(i), true)
        } else {
            None
        }
    } else {
        let sl = l.sub_at(i);
        let index: int = if sl.last_focused == 0 {
            1
        } else if before {
            sl.last_focused - 1
        } else {
            sl.last_focused as int
        };
        if 0 <= index < sl.children@.len() {
            l.descend_spec(sl.children@[index].idx())
        } else if l.parent_of(i) is Some && 0 <= l.parent_idx(i) < i {
            next_focus_spec(l, l.parent_idx(i), true)
        } else {
            None
        }
    }
}

/// The focus target to fall back to when node `id` goes away (called with
/// `before` set), or the leaf representing `id` itself. At each container
/// the child before the focused one is preferred; a container with no such
/// child hands the question to its parent; the chosen subtree is entered
/// through each container's `last_focused` child.
pub fn get_next_focus_id(layout: &Layout, id: Id, before: bool) -> (r: Option<Id>)
    requires
        layout.wf(),
    ensures
        r == next_focus_spec(*layout, id.idx(), before),
        r matches Some(w) ==> layout.is_win(w.idx()),
    decreases id.0,
{
    proof {
        if layout.occupied(id.idx()) {
            assert(layout.wf_node(id.idx()));
        }
    }
    let element = match layout.get_element(id) {
        None => {
            return None;
        },
        Some(el) => el,
    };
    match element {
        LayoutElement::Window(w) => {
            if !before {
                Some(id)
            } else {
                get_next_focus_id(layout, w.parent, true)
            }
        },
        LayoutElement::SubLayout(sl) => {
            let index: usize = if sl.last_focused == 0 {
                1
            } else if before {
                sl.last_focused - 1
            } else {
                sl.last_focused
            };
            if index < sl.children.len() {
                layout.descend_last_focused(sl.children[index])
            } else {
                match sl.parent {
                    Some(p) => get_next_focus_id(layout, p, true),
                    None => None,
                }
            }
        },
    }
}

/// The leaf currently holding focus: the one reached from the root through
/// each container's `last_focused` child; `None` for an empty tree.
pub fn current_focus_leaf(layout: &Layout) -> (r: Option<Id>)
    requires
        layout.wf(),
    ensures
        r == layout.descend_spec(0),
        r matches Some(w) ==> layout.is_win(w.idx()),
{
    layout.descend_last_focused(Id(0))
}

/// Focus restoration: when the focused leaf (the one its parent's
/// `last_focused` points at) is about to be removed, the fallback target is
/// the subtree of the sibling immediately before it; for a first child, the
/// sibling after it; and when the leaf is an only child, whatever its
/// parent's own fallback is. A window sibling is the target itself.
pub proof fn lemma_focus_restoration(l: Layout, leaf: Id)
    requires
        l.wf(),
        l.is_win(leaf.idx()),
        leaf.idx() != 0,
        l.sub_at(l.parent_idx(leaf.idx())).last_focused < l.children_of(
            l.parent_idx(leaf.idx()),
        ).len(),
        l.children_of(l.parent_idx(leaf.idx()))[l.sub_at(
            l.parent_idx(leaf.idx()),
        ).last_focused as int] == leaf,
    ensures
        ({
            let p = l.parent_idx(leaf.idx());
            let cs = l.children_of(p);
            let lf = l.sub_at(p).last_focused as int;
            &&& (lf > 0 ==> next_focus_spec(l, leaf.idx(), true) == l.descend_spec(
                cs[lf - 1].idx(),
            ))
            &&& (lf > 0 && l.is_win(cs[lf - 1].idx()) ==> next_focus_spec(l, leaf.idx(), true)
                == Some(cs[lf - 1]))
            &&& (lf == 0 && cs.len() > 1 ==> next_focus_spec(l, leaf.idx(), true) == l.descend_spec(
                cs[1].idx(),
            ))
            &&& (lf == 0 && cs.len() == 1 ==> next_focus_spec(l, leaf.idx(), true)
                == next_focus_spec(l, p, true))
        }),
{
    let p = l.parent_idx(leaf.idx());
    let cs = l.children_of(p);
    let lf = l.sub_at(p).last_focused as int;
    assert(l.occupied(leaf.idx()));
    assert(l.wf_node(leaf.idx()));
    assert(l.is_sub(p));
    assert(next_focus_spec(l, leaf.idx(), true) == next_focus_spec(l, p, true));
    if lf > 0 {
        assert(next_focus_spec(l, p, true) == l.descend_spec(cs[lf - 1].idx()));
        if l.is_win(cs[lf - 1].idx()) {
            assert(l.descend_spec(cs[lf - 1].idx()) == Some(Id(cs[lf - 1].idx() as usize)));
            assert(Id(cs[lf - 1].idx() as usize) == cs[lf - 1]);
        }
    } else {
        if cs.len() > 1 {
            assert(next_focus_spec(l, p, true) == l.descend_spec(cs[1].idx()));
        } else {
            assert(!(0 <= 1 < cs.len()));
            assert(l.wf_node(p));
        }
    }
}

} // verus!
