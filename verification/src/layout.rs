//! The layout tree: an arena of split containers and window leaves.
//!
//! Every node lives in one table slot, addressed by a stable [`Id`] assigned
//! at insertion and never reused while the node lives. Nesting is expressed
//! through parent/child id links rather than owned recursion, so removal is a
//! slot clear plus one list edit. Because a fresh id is always larger than
//! every id already in the table, children have strictly larger ids than
//! their parents, which also bounds every walk of the tree.

use crate::edge::Edge;
use crate::geometry::{Point, Rect, Size};
use crate::window::Window as InnerWindow;
use vstd::prelude::*;

verus! {

/// Stable identifier of one tree node: an index into the arena.
#[derive(Clone, Copy, Debug, PartialEq, Eq, Hash, Structural)]
pub struct Id(pub usize);

impl Id {
    /// The slot index this id names.
    pub open spec fn idx(self) -> int {
        self.0 as int
    }

    /// The id one past this one.
    pub fn next(self) -> (r: Id)
        requires
            self.idx() < usize::MAX,
        ensures
            r.idx() == self.idx() + 1,
    {
        Id(self.0 + 1)
    }

    /// The id one before this one.
    pub fn prev(self) -> (r: Id)
        requires
            self.idx() > 0,
        ensures
            r.idx() == self.idx() - 1,
    {
        Id(self.0 - 1)
    }
}

impl Default for Id {
    /// The root's id.
    fn default() -> (r: Id)
        ensures
            r.idx() == 0,
    {
        Id(0)
    }
}

/// How a container arranges its children: along an axis, or as tabs that all
/// occupy the full rectangle.
#[derive(Clone, Copy, Debug, PartialEq, Eq, Structural)]
pub enum LayoutType {
    Horizontal,
    Vertical,
    Tabbed,
}

impl Default for LayoutType {
    fn default() -> (r: LayoutType)
        ensures
            r == LayoutType::Horizontal,
    {
        LayoutType::Horizontal
    }
}

/// An internal node: an ordered list of children arranged along one axis.
#[derive(Clone, Debug)]
pub struct SubLayout {
    pub id: Id,
    /// `None` exactly for the root.
    pub parent: Option<Id>,
    pub children: Vec<Id>,
    /// Index into `children` of the child that was focused most recently;
    /// kept valid whenever `children` is non-empty.
    pub last_focused: usize,
    pub layout_type: LayoutType,
}

/// A leaf node: one client window and its place in the tree.
#[derive(Clone, Debug)]
pub struct Window {
    pub id: Id,
    pub parent: Id,
    pub inner: InnerWindow,
}

/// One arena slot: a container or a leaf.
#[derive(Clone, Debug)]
pub enum LayoutElement {
    SubLayout(SubLayout),
    Window(Window),
}

impl LayoutElement {
    pub open spec fn spec_id(self) -> Id {
        match self {
            LayoutElement::SubLayout(sl) => sl.id,
            LayoutElement::Window(w) => w.id,
        }
    }

    pub open spec fn spec_parent(self) -> Option<Id> {
        match self {
            LayoutElement::SubLayout(sl) => sl.parent,
            LayoutElement::Window(w) => Some(w.parent),
        }
    }

    pub open spec fn spec_children(self) -> Seq<Id> {
        match self {
            LayoutElement::SubLayout(sl) => sl.children@,
            LayoutElement::Window(_) => Seq::empty(),
        }
    }

    /// The element as it stands after insertion gives it its id and parent.
    pub open spec fn with_links(self, id: Id, parent: Id) -> LayoutElement {
        match self {
            LayoutElement::SubLayout(sl) => LayoutElement::SubLayout(
                SubLayout { id, parent: Some(parent), ..sl },
            ),
            LayoutElement::Window(w) => LayoutElement::Window(Window { id, parent, ..w }),
        }
    }

    /// Whether the element may be inserted: a leaf, or a container that has
    /// no children yet (and therefore no focused child).
    pub open spec fn spec_fresh(self) -> bool {
        &&& self.spec_children().len() == 0
        &&& (self matches LayoutElement::SubLayout(sl) ==> sl.last_focused == 0)
    }

    pub fn get_sublayout(&self) -> (r: Option<&SubLayout>)
        ensures
            match r {
                Some(sl) => *self is SubLayout && *sl == self->SubLayout_0,
                None => !(*self is SubLayout),
            },
    {
        match self {
            LayoutElement::SubLayout(sl) => Some(sl),
            _ => None,
        }
    }

    pub fn get_window(&self) -> (r: Option<&Window>)
        ensures
            match r {
                Some(w) => *self is Window && *w == self->Window_0,
                None => !(*self is Window),
            },
    {
        match self {
            LayoutElement::Window(w) => Some(w),
            _ => None,
        }
    }

    fn set_links(self, id: Id, parent: Id) -> (r: LayoutElement)
        ensures
            r == self.with_links(id, parent),
    {
        match self {
            LayoutElement::SubLayout(sl) => LayoutElement::SubLayout(
                SubLayout { id, parent: Some(parent), ..sl },
            ),
            LayoutElement::Window(w) => LayoutElement::Window(Window { id, parent, ..w }),
        }
    }

    fn parent(&self) -> (r: Option<Id>)
        ensures
            r == self.spec_parent(),
    {
        match self {
            LayoutElement::SubLayout(sl) => sl.parent,
            LayoutElement::Window(w) => Some(w.parent),
        }
    }
}

/// The arena of all tree nodes. Slot `i` holds the node with id `i`, or
/// nothing once that node has been removed; slot 0 always holds the root
/// container.
#[derive(Clone, Debug)]
pub struct Layout {
    pub next_id: Id,
    pub elements: Vec<Option<LayoutElement>>,
}

impl Layout {
    /// Number of arena slots, filled or vacated; equals the next fresh id.
    pub open spec fn slot_count(self) -> int {
        self.elements@.len() as int
    }

    /// Whether slot `i` holds a live node.
    pub open spec fn occupied(self, i: int) -> bool {
        0 <= i < self.slot_count() && self.elements@[i] is Some
    }

    pub open spec fn node_at(self, i: int) -> LayoutElement {
        self.elements@[i]->Some_0
    }

    pub open spec fn is_sub(self, i: int) -> bool {
        self.occupied(i) && self.node_at(i) is SubLayout
    }

    pub open spec fn is_win(self, i: int) -> bool {
        self.occupied(i) && self.node_at(i) is Window
    }

    pub open spec fn sub_at(self, i: int) -> SubLayout {
        self.node_at(i)->SubLayout_0
    }

    pub open spec fn win_at(self, i: int) -> Window {
        self.node_at(i)->Window_0
    }

    /// Parent link of the node in slot `i`; `None` exactly for the root.
    pub open spec fn parent_of(self, i: int) -> Option<Id> {
        self.node_at(i).spec_parent()
    }

    /// Slot index of the parent of node `i`.
    pub open spec fn parent_idx(self, i: int) -> int {
        self.parent_of(i)->Some_0.idx()
    }

    /// Children ids of the node in slot `i`; empty for leaves.
    pub open spec fn children_of(self, i: int) -> Seq<Id> {
        self.node_at(i).spec_children()
    }

    /// The structural invariant of one node: it knows its own id; every
    /// non-root node has a smaller-id container parent whose child list
    /// names it; every child link points down to a larger-id live node that
    /// points back; children are pairwise distinct; and `last_focused` is a
    /// valid index whenever there are children.
    pub open spec fn wf_node(self, i: int) -> bool {
        &&& self.node_at(i).spec_id() == Id(i as usize)
        &&& if i == 0 {
            self.node_at(0) is SubLayout && self.parent_of(0) is None
        } else {
            &&& self.parent_of(i) is Some
            &&& 0 <= self.parent_idx(i) < i
            &&& self.is_sub(self.parent_idx(i))
            &&& self.children_of(self.parent_idx(i)).contains(Id(i as usize))
        }
        &&& (self.node_at(i) is SubLayout ==> {
            let cs = self.children_of(i);
            &&& (forall|k: int|
                #![trigger cs[k]]
                0 <= k < cs.len() ==> {
                    &&& i < cs[k].idx() < self.slot_count()
                    &&& self.occupied(cs[k].idx())
                    &&& self.parent_of(cs[k].idx()) == Some(Id(i as usize))
                })
            &&& (forall|k1: int, k2: int| 0 <= k1 < k2 < cs.len() ==> cs[k1] != cs[k2])
            &&& cs.len() < self.slot_count()
            &&& (if cs.len() == 0 {
                self.sub_at(i).last_focused == 0
            } else {
                self.sub_at(i).last_focused < cs.len()
            })
        })
    }

    /// The tree invariant: a root container in slot 0, a fresh id one past
    /// the last slot, and every live node well formed.
    pub open spec fn wf(self) -> bool {
        &&& self.slot_count() >= 1
        &&& self.next_id.idx() == self.slot_count()
        &&& self.occupied(0)
        &&& forall|i: int| #[trigger] self.occupied(i) ==> self.wf_node(i)
    }

    /// No live container except the root and (possibly) slot `e` is empty.
    pub open spec fn no_empty_subs_except(self, e: int) -> bool {
        forall|i: int|
            (#[trigger] self.occupied(i)) && i != 0 && i != e && self.node_at(i) is SubLayout
                ==> self.children_of(i).len() > 0
    }

    /// No live container except the root is empty: containers whose last
    /// child goes away are themselves removed.
    pub open spec fn no_empty_subs(self) -> bool {
        self.no_empty_subs_except(-1)
    }

    /// A tree holding only an empty horizontal root.
    pub fn new() -> (r: Layout)
        ensures
            r.wf(),
            r.no_empty_subs(),
            r.slot_count() == 1,
            r.is_sub(0),
            r.sub_at(0).id == Id(0usize),
            r.sub_at(0).parent is None,
            r.sub_at(0).children@ == Seq::<Id>::empty(),
            r.sub_at(0).last_focused == 0,
            r.sub_at(0).layout_type == LayoutType::Horizontal,
    {
        let root = SubLayout {
            id: Id(0),
            parent: None,
            children: Vec::new(),
            last_focused: 0,
            layout_type: LayoutType::Horizontal,
        };
        let mut elements: Vec<Option<LayoutElement>> = Vec::new();
        elements.push(Some(LayoutElement::SubLayout(root)));
        Layout { next_id: Id(1), elements }
    }

    /// The root container.
    pub fn root(&self) -> (r: &SubLayout)
        requires
            self.wf(),
        ensures
            *r == self.sub_at(0),
    {
        match self.elements[0].as_ref().unwrap() {
            LayoutElement::SubLayout(sl) => sl,
            LayoutElement::Window(_) => unreached(),
        }
    }

    pub fn get_element(&self, id: Id) -> (r: Option<&LayoutElement>)
        ensures
            match r {
                Some(el) => self.occupied(id.idx()) && *el == self.node_at(id.idx()),
                None => !self.occupied(id.idx()),
            },
    {
        if id.0 < self.elements.len() {
            self.elements[id.0].as_ref()
        } else {
            None
        }
    }

    pub fn get_sublayout(&self, id: Id) -> (r: Option<&SubLayout>)
        ensures
            match r {
                Some(sl) => self.is_sub(id.idx()) && *sl == self.sub_at(id.idx()),
                None => !self.is_sub(id.idx()),
            },
    {
        match self.get_element(id) {
            Some(el) => el.get_sublayout(),
            None => None,
        }
    }

    pub fn get_window(&self, id: Id) -> (r: Option<&InnerWindow>)
        ensures
            match r {
                Some(w) => self.is_win(id.idx()) && *w == self.win_at(id.idx()).inner,
                None => !self.is_win(id.idx()),
            },
    {
        match self.get_element(id) {
            Some(el) => match el.get_window() {
                Some(w) => Some(&w.inner),
                None => None,
            },
            None => None,
        }
    }

    /// Whether an insertion aimed at a leaf with this edge lands before the
    /// leaf: only an edge aligned with the receiving container's orientation
    /// and pointing at its start does.
    pub open spec fn spec_insert_before(layout_type: LayoutType, edge: Edge) -> bool {
        match layout_type {
            LayoutType::Horizontal => edge.left,
            LayoutType::Vertical => edge.top,
            LayoutType::Tabbed => false,
        }
    }

    /// The container a new element inserted at `parent` really lands in:
    /// `parent` itself if it is a container, else the leaf's own parent.
    pub open spec fn spec_insert_target(self, parent: int) -> int {
        if self.node_at(parent) is SubLayout {
            parent
        } else {
            self.parent_idx(parent)
        }
    }

    /// The child-list position a new element inserted at `parent` with
    /// `edge` takes inside the target container.
    pub open spec fn spec_insert_pos(self, parent: int, edge: Edge) -> int {
        if self.node_at(parent) is SubLayout {
            self.children_of(parent).len() as int
        } else {
            let tgt = self.parent_idx(parent);
            let index = self.children_of(tgt).index_of(Id(parent as usize));
            if Layout::spec_insert_before(self.sub_at(tgt).layout_type, edge) {
                index
            } else {
                index + 1
            }
        }
    }

    /// Whether removing node `i` empties a non-root parent, so that the
    /// parent is garbage-collected in turn.
    pub open spec fn gc_step(self, i: int) -> bool {
        &&& i != 0
        &&& self.occupied(i)
        &&& self.parent_of(i) is Some
        &&& 0 <= self.parent_idx(i) < i
        &&& self.parent_idx(i) != 0
        &&& self.children_of(self.parent_idx(i)).len() == 1
    }

    /// The highest ancestor that removing node `i` removes along with it:
    /// each link of the chain is a non-root container holding nothing but
    /// the previous link.
    pub open spec fn gc_top(self, i: int) -> int
        decreases i,
    {
        if self.gc_step(i) {
            self.gc_top(self.parent_idx(i))
        } else {
            i
        }
    }

    /// Whether slot `j` is vacated when node `i` is removed: `j` is `i`
    /// itself or an ancestor on the garbage-collection chain.
    pub open spec fn on_gc_chain(self, i: int, j: int) -> bool
        decreases i,
    {
        j == i || (self.gc_step(i) && self.on_gc_chain(self.parent_idx(i), j))
    }

    /// What removing node `id` leaves behind: every slot on the chain is
    /// vacated, the chain top's parent loses exactly that child (with its
    /// focus index clamped back into range), and every other slot is
    /// untouched.
    pub open spec fn spec_remove_result(o: Layout, n: Layout, id: int) -> bool {
        let t = o.gc_top(id);
        let tp = o.parent_idx(t);
        let ti = o.children_of(tp).index_of(Id(t as usize));
        let newcs = o.children_of(tp).remove(ti);
        &&& n.slot_count() == o.slot_count()
        &&& n.next_id == o.next_id
        &&& (forall|j: int|
            0 <= j < o.slot_count() ==> (n.occupied(j) <==> o.occupied(j) && !o.on_gc_chain(
                id,
                j,
            )))
        &&& (forall|j: int| n.occupied(j) && j != tp ==> n.elements@[j] == o.elements@[j])
        &&& n.is_sub(tp)
        &&& n.sub_at(tp) == (SubLayout {
            children: n.sub_at(tp).children,
            last_focused: n.sub_at(tp).last_focused,
            ..o.sub_at(tp)
        })
        &&& n.children_of(tp) == newcs
        &&& n.sub_at(tp).last_focused == spec_clamped_lf(
            o.sub_at(tp).last_focused as int,
            newcs.len() as int,
        )
    }

    /// Removes the node `id` from the tree and returns it. The node is
    /// detached from its parent's children; a non-root parent left with no
    /// children is removed in turn. The root and missing ids are left
    /// untouched. Containers may only be removed once they are empty.
    pub fn remove_element(&mut self, id: Id) -> (r: Option<LayoutElement>)
        requires
            old(self).wf(),
            old(self).occupied(id.idx()) ==> old(self).children_of(id.idx()).len() == 0,
        ensures
            final(self).wf(),
            !(old(self).occupied(id.idx()) && id.idx() != 0) ==> r is None && *final(self) == *old(
                self,
            ),
            old(self).occupied(id.idx()) && id.idx() != 0 ==> {
                &&& r == Some(old(self).node_at(id.idx()))
                &&& Layout::spec_remove_result(*old(self), *final(self), id.idx())
            },
            old(self).occupied(id.idx()) && id.idx() != 0 ==> forall|j: int|
                (#[trigger] old(self).is_win(j)) && j != id.idx() ==> final(self).occupied(j)
                    && final(self).elements@[j] == old(self).elements@[j],
            old(self).no_empty_subs_except(id.idx()) ==> final(self).no_empty_subs(),
        decreases id.0,
    {
        let ghost o = *self;
        let p = match self.get_parent(id) {
            None => {
                return None;
            },
            Some(p) => p,
        };
        proof {
            assert(o.occupied(id.idx()) && id.idx() != 0);
            assert(o.wf_node(id.idx()));
            assert(o.children_of(p.idx()).contains(Id(id.0)));
        }
        let k = {
            let sl = self.get_sublayout(p).unwrap();
            position_of(&sl.children, id).unwrap()
        };
        proof {
            lemma_index_of_unique(o.children_of(p.idx()), Id(id.0), k as int);
        }
        let is_empty = match &mut self.elements[p.0] {
            Some(LayoutElement::SubLayout(sl)) => {
                sl.children.remove(k);
                let len = sl.children.len();
                if len == 0 {
                    sl.last_focused = 0;
                } else if sl.last_focused >= len {
                    sl.last_focused = len - 1;
                }
                len == 0
            },
            _ => {
                proof {
                    assert(false);
                }
                false
            },
        };
        let removed = self.elements[id.0].take();
        proof {
            lemma_detach_wf(o, *self, id.idx(), p.idx(), k as int);
        }
        let ghost m = *self;
        if is_empty {
            let _ = self.remove_element(p);
        }
        proof {
            lemma_chain_nodes(o, id.idx());
            if is_empty && p.0 != 0 {
                assert(o.gc_step(id.idx()));
                lemma_gc_agree(o, m, p.idx());
                lemma_remove_compose(o, m, *self, id.idx(), p.idx());
            } else {
                assert(!o.gc_step(id.idx()));
                assert(o.gc_top(id.idx()) == id.idx());
                assert(forall|j: int| o.on_gc_chain(id.idx(), j) <==> j == id.idx());
                if is_empty {
                    // the emptied parent is the root: it stays, now empty
                    assert(*self == m);
                }
                assert(Layout::spec_remove_result(o, *self, id.idx()));
            }
            assert forall|j: int| (#[trigger] o.is_win(j)) && j != id.idx() implies self.occupied(
                j,
            ) && self.elements@[j] == o.elements@[j] by {
                assert(!o.on_gc_chain(id.idx(), j));
                assert(j != o.parent_idx(o.gc_top(id.idx())));
            }
            if o.no_empty_subs_except(id.idx()) {
                lemma_remove_no_empty(o, *self, id.idx());
            }
        }
        removed
    }

    /// Inserts `element` into the tree and returns its fresh id. If `parent`
    /// is a container the element is appended to its children; if `parent`
    /// is a leaf the element becomes the leaf's sibling, placed before or
    /// after it according to `edge` and the container's orientation. A
    /// missing `parent` leaves the tree untouched.
    pub fn insert_element_at(&mut self, parent: Id, edge: Edge, element: LayoutElement) -> (r:
        Option<Id>)
        requires
            old(self).wf(),
            element.spec_fresh(),
            old(self).slot_count() < usize::MAX,
        ensures
            final(self).wf(),
            !old(self).occupied(parent.idx()) ==> r is None && *final(self) == *old(self),
            old(self).occupied(parent.idx()) ==> {
                let new = old(self).slot_count();
                let tgt = old(self).spec_insert_target(parent.idx());
                let pos = old(self).spec_insert_pos(parent.idx(), edge);
                &&& r == Some(Id(new as usize))
                &&& final(self).slot_count() == new + 1
                &&& final(self).occupied(new)
                &&& final(self).node_at(new) == element.with_links(
                    Id(new as usize),
                    Id(tgt as usize),
                )
                &&& (forall|j: int|
                    0 <= j < new && j != tgt ==> final(self).elements@[j] == old(self).elements@[j])
                &&& final(self).is_sub(tgt)
                &&& final(self).sub_at(tgt) == (SubLayout {
                    children: final(self).sub_at(tgt).children,
                    ..old(self).sub_at(tgt)
                })
                &&& final(self).children_of(tgt) == old(self).children_of(tgt).insert(
                    pos,
                    Id(new as usize),
                )
            },
            old(self).occupied(parent.idx()) && old(self).no_empty_subs() && element is Window
                ==> final(self).no_empty_subs(),
            old(self).occupied(parent.idx()) && old(self).no_empty_subs() && element is SubLayout
                ==> final(self).no_empty_subs_except(old(self).slot_count()),
    {
        let id = self.next_id;
        let ghost old_self = *self;
        let (tgt, pos): (Id, usize) = match self.get_element(parent) {
            None => {
                return None;
            },
            Some(el) => match el {
                LayoutElement::SubLayout(sl) => (parent, sl.children.len()),
                LayoutElement::Window(w) => {
                    let tgt = w.parent;
                    let sl = self.get_sublayout(tgt).unwrap();
                    let index = position_of(&sl.children, parent).unwrap();
                    // `index` is below the child count, so stepping past it stays in range
                    let _bound = sl.children.len();
                    proof {
                        lemma_index_of_unique(sl.children@, parent, index as int);
                    }
                    let before = match sl.layout_type {
                        LayoutType::Horizontal => edge.left,
                        LayoutType::Vertical => edge.top,
                        LayoutType::Tabbed => false,
                    };
                    (tgt, if before {
                        index
                    } else {
                        index + 1
                    })
                },
            },
        };
        let element = element.set_links(id, tgt);
        match &mut self.elements[tgt.0] {
            Some(LayoutElement::SubLayout(sl)) => {
                if pos < sl.children.len() {
                    sl.children.insert(pos, id);
                } else {
                    sl.children.push(id);
                }
            },
            _ => {
                proof {
                    assert(false);
                }
            },
        }
        self.elements.push(Some(element));
        self.next_id = id.next();
        proof {
            let new = old_self.slot_count();
            let tgt_i = tgt.idx();
            assert(self.children_of(tgt_i) =~= old_self.children_of(tgt_i).insert(
                pos as int,
                Id(new as usize),
            ));
            lemma_insert_wf(old_self, *self, parent.idx(), tgt_i, pos as int);
        }
        Some(id)
    }

    /// Inserts `element` as the last child of `parent` (or, if `parent` is a
    /// leaf, as the sibling after it).
    pub fn insert_element(&mut self, parent: Id, element: LayoutElement) -> (r: Option<Id>)
        requires
            old(self).wf(),
            element.spec_fresh(),
            old(self).slot_count() < usize::MAX,
        ensures
            final(self).wf(),
            !old(self).occupied(parent.idx()) ==> r is None && *final(self) == *old(self),
            old(self).occupied(parent.idx()) ==> {
                let new = old(self).slot_count();
                let tgt = old(self).spec_insert_target(parent.idx());
                let pos = old(self).spec_insert_pos(parent.idx(), Edge::spec_empty());
                &&& r == Some(Id(new as usize))
                &&& final(self).slot_count() == new + 1
                &&& final(self).occupied(new)
                &&& final(self).node_at(new) == element.with_links(
                    Id(new as usize),
                    Id(tgt as usize),
                )
                &&& (forall|j: int|
                    0 <= j < new && j != tgt ==> final(self).elements@[j] == old(self).elements@[j])
                &&& final(self).is_sub(tgt)
                &&& final(self).sub_at(tgt) == (SubLayout {
                    children: final(self).sub_at(tgt).children,
                    ..old(self).sub_at(tgt)
                })
                &&& final(self).children_of(tgt) == old(self).children_of(tgt).insert(
                    pos,
                    Id(new as usize),
                )
            },
            old(self).occupied(parent.idx()) && old(self).no_empty_subs() && element is Window
                ==> final(self).no_empty_subs(),
            old(self).occupied(parent.idx()) && old(self).no_empty_subs() && element is SubLayout
                ==> final(self).no_empty_subs_except(old(self).slot_count()),
    {
        self.insert_element_at(parent, Edge::empty(), element)
    }

    /// Inserts a fresh, empty container of the given orientation.
    pub fn insert_sublayout(&mut self, parent: Id, layout_type: LayoutType) -> (r: Option<Id>)
        requires
            old(self).wf(),
            old(self).slot_count() < usize::MAX,
        ensures
            final(self).wf(),
            !old(self).occupied(parent.idx()) ==> r is None && *final(self) == *old(self),
            old(self).occupied(parent.idx()) ==> {
                let new = old(self).slot_count();
                let tgt = old(self).spec_insert_target(parent.idx());
                &&& r == Some(Id(new as usize))
                &&& final(self).slot_count() == new + 1
                &&& final(self).is_sub(new)
                &&& final(self).sub_at(new) == (SubLayout {
                    id: Id(new as usize),
                    parent: Some(Id(tgt as usize)),
                    children: final(self).sub_at(new).children,
                    last_focused: 0,
                    layout_type,
                })
                &&& final(self).children_of(new).len() == 0
                &&& (forall|j: int|
                    0 <= j < new && j != tgt ==> final(self).elements@[j] == old(self).elements@[j])
                &&& final(self).is_sub(tgt)
                &&& final(self).sub_at(tgt) == (SubLayout {
                    children: final(self).sub_at(tgt).children,
                    ..old(self).sub_at(tgt)
                })
                &&& final(self).children_of(tgt) == old(self).children_of(tgt).insert(
                    old(self).spec_insert_pos(parent.idx(), Edge::spec_empty()),
                    Id(new as usize),
                )
            },
            old(self).occupied(parent.idx()) && old(self).no_empty_subs() ==> final(self).no_empty_subs_except(old(self).slot_count()),
    {
        self.insert_element(
            parent,
            LayoutElement::SubLayout(
                SubLayout {
                    layout_type,
                    id: self.next_id,
                    parent: None,
                    children: Vec::new(),
                    last_focused: 0,
                },
            ),
        )
    }

    /// Inserts a fresh leaf holding `window`.
    pub fn insert_window(&mut self, parent: Id, window: InnerWindow) -> (r: Option<Id>)
        requires
            old(self).wf(),
            old(self).slot_count() < usize::MAX,
        ensures
            final(self).wf(),
            !old(self).occupied(parent.idx()) ==> r is None && *final(self) == *old(self),
            old(self).occupied(parent.idx()) ==> {
                let new = old(self).slot_count();
                let tgt = old(self).spec_insert_target(parent.idx());
                &&& r == Some(Id(new as usize))
                &&& final(self).slot_count() == new + 1
                &&& final(self).is_win(new)
                &&& final(self).win_at(new) == (Window {
                    id: Id(new as usize),
                    parent: Id(tgt as usize),
                    inner: window,
                })
                &&& (forall|j: int|
                    0 <= j < new && j != tgt ==> final(self).elements@[j] == old(self).elements@[j])
                &&& final(self).is_sub(tgt)
                &&& final(self).sub_at(tgt) == (SubLayout {
                    children: final(self).sub_at(tgt).children,
                    ..old(self).sub_at(tgt)
                })
                &&& final(self).children_of(tgt) == old(self).children_of(tgt).insert(
                    old(self).spec_insert_pos(parent.idx(), Edge::spec_empty()),
                    Id(new as usize),
                )
            },
            old(self).occupied(parent.idx()) && old(self).no_empty_subs() ==> final(self).no_empty_subs(),
    {
        self.insert_element(
            parent,
            LayoutElement::Window(Window { id: self.next_id, parent: Id(0), inner: window }),
        )
    }

    /// Whether the focus indices along the ancestor path of node `i` all
    /// point at the path, so that descending from the root by `last_focused`
    /// reaches `i`.
    pub open spec fn focus_path_ok(self, i: int) -> bool
        decreases i,
    {
        i == 0 || {
            &&& self.occupied(i)
            &&& self.parent_of(i) is Some
            &&& 0 <= self.parent_idx(i) < i
            &&& self.is_sub(self.parent_idx(i))
            &&& self.sub_at(self.parent_idx(i)).last_focused < self.children_of(
                self.parent_idx(i),
            ).len()
            &&& self.children_of(self.parent_idx(i))[self.sub_at(
                self.parent_idx(i),
            ).last_focused as int] == Id(i as usize)
            &&& self.focus_path_ok(self.parent_idx(i))
        }
    }

    /// Records that node `id` was focused: every ancestor's `last_focused`
    /// is turned towards it. Slots at or above `id`'s index (in particular
    /// all windows) are untouched.
    pub fn on_focus(&mut self, id: Id)
        requires
            old(self).wf(),
        ensures
            final(self).wf(),
            final(self).slot_count() == old(self).slot_count(),
            final(self).next_id == old(self).next_id,
            forall|j: int| final(self).occupied(j) == old(self).occupied(j),
            forall|j: int|
                #[trigger] old(self).occupied(j) ==> same_but_lf(
                    old(self).node_at(j),
                    final(self).node_at(j),
                ),
            forall|j: int|
                id.idx() <= j < old(self).slot_count() ==> final(self).elements@[j] == old(
                    self,
                ).elements@[j],
            old(self).occupied(id.idx()) ==> final(self).focus_path_ok(id.idx()),
        decreases id.0,
    {
        let ghost o = *self;
        let p = match self.get_parent(id) {
            None => {
                return ;
            },
            Some(p) => p,
        };
        proof {
            assert(o.occupied(id.idx()) && id.idx() != 0);
            assert(o.wf_node(0));
            assert(o.wf_node(id.idx()));
            assert(o.children_of(p.idx()).contains(Id(id.0)));
        }
        let k = {
            let sl = self.get_sublayout(p).unwrap();
            position_of(&sl.children, id).unwrap()
        };
        match &mut self.elements[p.0] {
            Some(LayoutElement::SubLayout(sl)) => {
                sl.last_focused = k;
            },
            _ => {
                proof {
                    assert(false);
                }
            },
        }
        proof {
            assert(forall|j: int| self.occupied(j) == #[trigger] o.occupied(j));
            assert forall|j: int| #[trigger] o.occupied(j) implies {
                &&& self.parent_of(j) == o.parent_of(j)
                &&& self.children_of(j) == o.children_of(j)
                &&& self.node_at(j).spec_id() == o.node_at(j).spec_id()
                &&& ((self.node_at(j) is SubLayout) == (o.node_at(j) is SubLayout))
            } by {
                if j != p.idx() {
                    assert(self.elements@[j] == o.elements@[j]);
                }
            }
            assert forall|i: int| self.occupied(i) implies self.wf_node(i) by {
                assert(o.occupied(i));
                assert(o.wf_node(i));
                if self.node_at(i) is SubLayout {
                    if i == p.idx() {
                        assert(self.sub_at(i).last_focused < self.children_of(i).len());
                    } else {
                        assert(self.elements@[i] == o.elements@[i]);
                    }
                }
            }
        }
        let ghost m = *self;
        self.on_focus(p);
        proof {
            assert(self.elements@[p.idx()] == m.elements@[p.idx()]);
            assert(self.children_of(p.idx())[k as int] == Id(id.0));
            assert(self.focus_path_ok(p.idx()));
            assert(self.focus_path_ok(id.idx()));
            assert forall|j: int| #[trigger] o.occupied(j) implies same_but_lf(
                o.node_at(j),
                self.node_at(j),
            ) by {
                assert(same_but_lf(o.node_at(j), m.node_at(j)));
                assert(same_but_lf(m.node_at(j), self.node_at(j)));
            }
        }
    }

    /// The leaf reached from node `i` by following each container's
    /// `last_focused` child.
    pub open spec fn descend_spec(self, i: int) -> Option<Id>
        decreases self.slot_count() - i,
    {
        if !self.occupied(i) {
            None
        } else if self.node_at(i) is Window {
            Some(Id(i as usize))
        } else {
            let sl = self.node_at(i)->SubLayout_0;
            if sl.last_focused < sl.children@.len() && i < sl.children@[sl.last_focused as int].idx()
                < self.slot_count() {
                self.descend_spec(sl.children@[sl.last_focused as int].idx())
            } else {
                None
            }
        }
    }

    /// Descends from node `id` through each container's `last_focused`
    /// child until a leaf is reached.
    pub fn descend_last_focused(&self, id: Id) -> (r: Option<Id>)
        requires
            self.wf(),
        ensures
            r == self.descend_spec(id.idx()),
            r matches Some(w) ==> self.is_win(w.idx()),
        decreases self.slot_count() - id.idx(),
    {
        proof {
            if self.occupied(id.idx()) {
                assert(self.wf_node(id.idx()));
            }
        }
        match self.get_element(id) {
            None => None,
            Some(el) => match el {
                LayoutElement::Window(_) => Some(id),
                LayoutElement::SubLayout(sl) => {
                    if sl.last_focused < sl.children.len() {
                        let c = sl.children[sl.last_focused];
                        self.descend_last_focused(c)
                    } else {
                        None
                    }
                },
            },
        }
    }

    /// Whether a container of this orientation can answer a step along
    /// `edge`: horizontal containers resolve left/right, vertical ones
    /// top/bottom.
    pub open spec fn spec_correct_layout(layout_type: LayoutType, edge: Edge) -> bool {
        (layout_type == LayoutType::Horizontal && edge.spec_is_horizontal()) || (layout_type
            == LayoutType::Vertical && edge.spec_is_vertical())
    }

    fn is_correct_layout_type(&self, layout_type: LayoutType, edge: Edge) -> (r: bool)
        ensures
            r == Layout::spec_correct_layout(layout_type, edge),
    {
        return (layout_type == LayoutType::Horizontal && edge.is_horizontal()) || (layout_type
            == LayoutType::Vertical && edge.is_vertical());
    }

    /// The nearest ancestor container whose orientation matches `edge`,
    /// together with the node on the path just below it.
    pub open spec fn matching_ancestor(self, i: int, edge: Edge) -> Option<(int, int)>
        decreases i,
    {
        if !self.occupied(i) || i == 0 || !(self.parent_of(i) is Some) || !(0 <= self.parent_idx(i)
            < i) || !self.is_sub(self.parent_idx(i)) {
            None
        } else {
            let p = self.parent_idx(i);
            if Layout::spec_correct_layout(self.sub_at(p).layout_type, edge) {
                Some((p, i))
            } else {
                self.matching_ancestor(p, edge)
            }
        }
    }

    fn matching_ancestor_exec(&self, i: Id, edge: Edge) -> (r: Option<(Id, Id)>)
        requires
            self.wf(),
        ensures
            match r {
                Some((p, c)) => self.matching_ancestor(i.idx(), edge) == Some(
                    (p.idx(), c.idx()),
                ),
                None => self.matching_ancestor(i.idx(), edge) is None,
            },
        decreases i.0,
    {
        proof {
            if self.occupied(i.idx()) {
                assert(self.wf_node(i.idx()));
            }
        }
        let p = match self.get_parent(i) {
            None => {
                return None;
            },
            Some(p) => p,
        };
        let sl = self.get_sublayout(p).unwrap();
        if self.is_correct_layout_type(sl.layout_type, edge) {
            Some((p, i))
        } else {
            self.matching_ancestor_exec(p, edge)
        }
    }

    /// Where `neighbor` lands: find the nearest ancestor matching the
    /// edge's axis, step one child towards the edge, then descend through
    /// `last_focused` to a leaf. The step falls off at index 0 for top/left
    /// and past the end for bottom/right; only a single-edge query resolves.
    pub open spec fn neighbor_spec(self, i: int, edge: Edge) -> Option<Id> {
        match self.matching_ancestor(i, edge) {
            None => None,
            Some((p, c)) => {
                let cs = self.children_of(p);
                let k = cs.index_of(Id(c as usize));
                if edge == Edge::spec_top() || edge == Edge::spec_left() {
                    if k == 0 {
                        None
                    } else {
                        self.step_to(p, k - 1)
                    }
                } else if edge == Edge::spec_bottom() || edge == Edge::spec_right() {
                    if k + 1 >= cs.len() {
                        None
                    } else {
                        self.step_to(p, k + 1)
                    }
                } else {
                    None
                }
            },
        }
    }

    pub open spec fn step_to(self, p: int, k: int) -> Option<Id> {
        self.descend_spec(self.children_of(p)[k].idx())
    }

    /// The window that lies one step from window `id` in the direction of
    /// `edge`, if any.
    pub fn get_window_neighbor(&self, id: Id, edge: Edge) -> (r: Option<Id>)
        requires
            self.wf(),
        ensures
            r == self.neighbor_spec(id.idx(), edge),
            r matches Some(w) ==> self.is_win(w.idx()),
    {
        let (p, c) = match self.matching_ancestor_exec(id, edge) {
            None => {
                return None;
            },
            Some(pc) => pc,
        };
        proof {
            lemma_matching_ancestor_occupied(*self, id.idx(), edge);
            assert(self.wf_node(p.idx()));
            assert(self.wf_node(c.idx()));
            assert(self.children_of(p.idx()).contains(Id(c.0)));
        }
        let sl = self.get_sublayout(p).unwrap();
        let k = position_of(&sl.children, c).unwrap();
        proof {
            lemma_index_of_unique(self.children_of(p.idx()), Id(c.0), k as int);
        }
        let n = sl.children.len();
        let is_before = edge == Edge::top() || edge == Edge::left();
        let is_after = edge == Edge::bottom() || edge == Edge::right();
        if is_before {
            if k == 0 {
                None
            } else {
                self.descend_last_focused(sl.children[k - 1])
            }
        } else if is_after {
            if k + 1 >= n {
                None
            } else {
                self.descend_last_focused(sl.children[k + 1])
            }
        } else {
            None
        }
    }

    /// The ids of all window leaves, in ascending slot order, up to slot `j`.
    pub open spec fn win_ids_upto(self, j: int) -> Seq<Id>
        decreases j,
    {
        if j <= 0 {
            Seq::empty()
        } else if self.is_win(j - 1) {
            self.win_ids_upto(j - 1).push(Id((j - 1) as usize))
        } else {
            self.win_ids_upto(j - 1)
        }
    }

    /// The ids of all window leaves, in ascending slot order.
    pub fn window_ids(&self) -> (r: Vec<Id>)
        ensures
            r@ == self.win_ids_upto(self.slot_count()),
    {
        let mut out: Vec<Id> = Vec::new();
        let mut j: usize = 0;
        while j < self.elements.len()
            invariant
                j <= self.slot_count(),
                out@ == self.win_ids_upto(j as int),
            decreases self.slot_count() - j,
        {
            match &self.elements[j] {
                Some(LayoutElement::Window(_)) => {
                    out.push(Id(j));
                },
                _ => {},
            }
            j += 1;
        }
        out
    }

    /// The id of the first window leaf whose window equals `window`.
    pub fn get_window_id(&self, window: &InnerWindow) -> (r: Option<Id>)
        ensures
            match r {
                Some(id) => {
                    &&& self.is_win(id.idx())
                    &&& self.win_at(id.idx()).inner == *window
                    &&& forall|j: int|
                        0 <= j < id.idx() && #[trigger] self.is_win(j) ==> self.win_at(j).inner
                            != *window
                },
                None => forall|j: int|
                    #[trigger] self.is_win(j) ==> self.win_at(j).inner != *window,
            },
    {
        let mut j: usize = 0;
        while j < self.elements.len()
            invariant
                j <= self.slot_count(),
                forall|jj: int|
                    0 <= jj < j && #[trigger] self.is_win(jj) ==> self.win_at(jj).inner != *window,
            decreases self.slot_count() - j,
        {
            match &self.elements[j] {
                Some(LayoutElement::Window(w)) => {
                    if w.inner == *window {
                        return Some(Id(j));
                    }
                },
                _ => {},
            }
            j += 1;
        }
        None
    }

    /// The id of the first window leaf with this client-surface handle,
    /// scanning from slot `j`.
    pub open spec fn find_surface_spec(self, surface: u64, j: int) -> Option<Id>
        decreases self.slot_count() - j,
    {
        if j < 0 || j >= self.slot_count() {
            None
        } else if self.is_win(j) && self.win_at(j).inner.surface == surface {
            Some(Id(j as usize))
        } else {
            self.find_surface_spec(surface, j + 1)
        }
    }

    /// The id of the first window leaf with this client-surface handle.
    pub fn find_surface(&self, surface: u64) -> (r: Option<Id>)
        ensures
            r == self.find_surface_spec(surface, 0),
            match r {
                Some(id) => {
                    &&& self.is_win(id.idx())
                    &&& self.win_at(id.idx()).inner.surface == surface
                    &&& forall|j: int|
                        0 <= j < id.idx() && #[trigger] self.is_win(j) ==> self.win_at(
                            j,
                        ).inner.surface != surface
                },
                None => forall|j: int|
                    #[trigger] self.is_win(j) ==> self.win_at(j).inner.surface != surface,
            },
    {
        let mut j: usize = 0;
        while j < self.elements.len()
            invariant
                j <= self.slot_count(),
                self.find_surface_spec(surface, 0) == self.find_surface_spec(surface, j as int),
                forall|jj: int|
                    0 <= jj < j && #[trigger] self.is_win(jj) ==> self.win_at(jj).inner.surface
                        != surface,
            decreases self.slot_count() - j,
        {
            match &self.elements[j] {
                Some(LayoutElement::Window(w)) => {
                    if w.inner.surface == surface {
                        return Some(Id(j));
                    }
                },
                _ => {},
            }
            j += 1;
        }
        None
    }

    /// The first window with this client-surface handle.
    pub fn get_window_from_surface(&self, surface: u64) -> (r: Option<&InnerWindow>)
        ensures
            match r {
                Some(w) => exists|j: int|
                    #[trigger] self.is_win(j) && self.win_at(j).inner == *w && w.surface
                        == surface,
                None => forall|j: int|
                    #[trigger] self.is_win(j) ==> self.win_at(j).inner.surface != surface,
            },
    {
        match self.find_surface(surface) {
            None => None,
            Some(id) => self.get_window(id),
        }
    }

    /// Replaces the window stored in leaf `id`; everything else, the tree
    /// structure included, stays as it is. A missing or non-leaf id is a
    /// no-op.
    pub fn set_window_inner(&mut self, id: Id, inner: InnerWindow)
        requires
            old(self).wf(),
        ensures
            final(self).wf(),
            !old(self).is_win(id.idx()) ==> *final(self) == *old(self),
            old(self).is_win(id.idx()) ==> final(self).elements@ == old(self).elements@.update(
                id.idx(),
                Some(
                    LayoutElement::Window(
                        Window { inner, ..old(self).win_at(id.idx()) },
                    ),
                ),
            ),
    {
        let ghost o = *self;
        if self.get_window(id).is_none() {
            return ;
        }
        match &mut self.elements[id.0] {
            Some(LayoutElement::Window(w)) => {
                w.inner = inner;
            },
            _ => {
                proof {
                    assert(false);
                }
            },
        }
        proof {
            assert(o.is_win(id.idx()));
            assert(self.elements@ =~= o.elements@.update(
                id.idx(),
                Some(LayoutElement::Window(Window { inner, ..o.win_at(id.idx()) })),
            ));
            lemma_same_structure_wf(o, *self);
        }
    }

    /// The window stored in leaf `id` with its state flags replaced.
    pub fn set_window_state(&mut self, id: Id, state: crate::window::WindowState)
        requires
            old(self).wf(),
        ensures
            final(self).wf(),
            !old(self).is_win(id.idx()) ==> *final(self) == *old(self),
            old(self).is_win(id.idx()) ==> final(self).elements@ == old(self).elements@.update(
                id.idx(),
                Some(
                    LayoutElement::Window(
                        Window {
                            inner: InnerWindow { state, ..old(self).win_at(id.idx()).inner },
                            ..old(self).win_at(id.idx())
                        },
                    ),
                ),
            ),
    {
        let inner = match self.get_window(id) {
            None => {
                return ;
            },
            Some(w) => InnerWindow { state, ..*w },
        };
        self.set_window_inner(id, inner);
    }

    /// The window stored in leaf `id` with its floating rectangle replaced.
    pub fn set_floating_rect(&mut self, id: Id, rect: Rect)
        requires
            old(self).wf(),
        ensures
            final(self).wf(),
            !old(self).is_win(id.idx()) ==> *final(self) == *old(self),
            old(self).is_win(id.idx()) ==> final(self).elements@ == old(self).elements@.update(
                id.idx(),
                Some(
                    LayoutElement::Window(
                        Window {
                            inner: InnerWindow {
                                floating_rect: Some(rect),
                                ..old(self).win_at(id.idx()).inner
                            },
                            ..old(self).win_at(id.idx())
                        },
                    ),
                ),
            ),
    {
        let inner = match self.get_window(id) {
            None => {
                return ;
            },
            Some(w) => InnerWindow { floating_rect: Some(rect), ..*w },
        };
        self.set_window_inner(id, inner);
    }

    /// Moves the window's remembered floating rectangle to `loc`, keeping
    /// its size (zero until a size was ever stored).
    pub fn set_floating_loc(&mut self, id: Id, loc: Point)
        requires
            old(self).wf(),
        ensures
            final(self).wf(),
            !old(self).is_win(id.idx()) ==> *final(self) == *old(self),
            old(self).is_win(id.idx()) ==> {
                let size = match old(self).win_at(id.idx()).inner.floating_rect {
                    Some(rect) => rect.size,
                    None => Size { w: 0, h: 0 },
                };
                final(self).elements@ == old(self).elements@.update(
                    id.idx(),
                    Some(
                        LayoutElement::Window(
                            Window {
                                inner: InnerWindow {
                                    floating_rect: Some(Rect { loc, size }),
                                    ..old(self).win_at(id.idx()).inner
                                },
                                ..old(self).win_at(id.idx())
                            },
                        ),
                    ),
                )
            },
    {
        let size = match self.get_window(id) {
            None => {
                return ;
            },
            Some(w) => match w.floating_rect {
                Some(rect) => rect.size,
                None => Size { w: 0, h: 0 },
            },
        };
        self.set_floating_rect(id, Rect { loc, size });
    }

    /// Resizes the window's remembered floating rectangle to `size`, keeping
    /// its location (zero until a location was ever stored).
    pub fn set_floating_size(&mut self, id: Id, size: Size)
        requires
            old(self).wf(),
        ensures
            final(self).wf(),
            !old(self).is_win(id.idx()) ==> *final(self) == *old(self),
            old(self).is_win(id.idx()) ==> {
                let loc = match old(self).win_at(id.idx()).inner.floating_rect {
                    Some(rect) => rect.loc,
                    None => Point { x: 0, y: 0 },
                };
                final(self).elements@ == old(self).elements@.update(
                    id.idx(),
                    Some(
                        LayoutElement::Window(
                            Window {
                                inner: InnerWindow {
                                    floating_rect: Some(Rect { loc, size }),
                                    ..old(self).win_at(id.idx()).inner
                                },
                                ..old(self).win_at(id.idx())
                            },
                        ),
                    ),
                )
            },
    {
        let loc = match self.get_window(id) {
            None => {
                return ;
            },
            Some(w) => match w.floating_rect {
                Some(rect) => rect.loc,
                None => Point { x: 0, y: 0 },
            },
        };
        self.set_floating_rect(id, Rect { loc, size });
    }

    /// Reorients the container `id`; a missing or non-container id changes
    /// nothing.
    pub fn set_layout_type(&mut self, id: Id, layout_type: LayoutType)
        requires
            old(self).wf(),
        ensures
            final(self).wf(),
            !old(self).is_sub(id.idx()) ==> *final(self) == *old(self),
            old(self).is_sub(id.idx()) ==> final(self).elements@ == old(self).elements@.update(
                id.idx(),
                Some(
                    LayoutElement::SubLayout(
                        SubLayout { layout_type, ..old(self).sub_at(id.idx()) },
                    ),
                ),
            ),
            old(self).no_empty_subs() ==> final(self).no_empty_subs(),
    {
        let ghost o = *self;
        if self.get_sublayout(id).is_none() {
            return ;
        }
        match &mut self.elements[id.0] {
            Some(LayoutElement::SubLayout(sl)) => {
                sl.layout_type = layout_type;
            },
            _ => {
                proof {
                    assert(false);
                }
            },
        }
        proof {
            assert(self.elements@ =~= o.elements@.update(
                id.idx(),
                Some(LayoutElement::SubLayout(SubLayout { layout_type, ..o.sub_at(id.idx()) })),
            ));
            lemma_same_structure_wf(o, *self);
            if o.no_empty_subs() {
                assert forall|i: int|
                    (#[trigger] self.occupied(i)) && i != 0 && i != -1 && self.node_at(i)
                        is SubLayout implies self.children_of(i).len() > 0 by {
                    if i != id.idx() {
                        assert(self.elements@[i] == o.elements@[i]);
                    }
                    assert(o.occupied(i));
                    assert(o.children_of(i) == self.children_of(i));
                }
            }
        }
    }

    /// Reorients the root container.
    pub fn set_root_layout_type(&mut self, layout_type: LayoutType)
        requires
            old(self).wf(),
        ensures
            final(self).wf(),
            final(self).elements@ == old(self).elements@.update(
                0,
                Some(
                    LayoutElement::SubLayout(SubLayout { layout_type, ..old(self).sub_at(0) }),
                ),
            ),
            old(self).no_empty_subs() ==> final(self).no_empty_subs(),
    {
        proof {
            assert(self.wf_node(0));
        }
        self.set_layout_type(Id(0), layout_type);
    }

    /// Gives keyboard focus to the window in leaf `id`: it alone carries the
    /// focus flag afterwards, and every ancestor's `last_focused` turns
    /// towards it. `None` (or a missing leaf) changes nothing: the caller
    /// merely clears its own focus target.
    #[verifier::rlimit(40)]
    pub fn set_focus(&mut self, focused: Option<Id>)
        requires
            old(self).wf(),
        ensures
            final(self).wf(),
            match focused {
                None => *final(self) == *old(self),
                Some(id) => {
                    if !old(self).is_win(id.idx()) {
                        *final(self) == *old(self)
                    } else {
                        &&& final(self).slot_count() == old(self).slot_count()
                        &&& final(self).next_id == old(self).next_id
                        &&& (forall|j: int| final(self).occupied(j) == old(self).occupied(j))
                        &&& (forall|j: int|
                            #[trigger] old(self).is_win(j) ==> final(self).is_win(j) && final(self).win_at(j) == (Window {
                                inner: InnerWindow {
                                    is_focused: j == id.idx(),
                                    ..old(self).win_at(j).inner
                                },
                                ..old(self).win_at(j)
                            }))
                        &&& (forall|j: int|
                            #[trigger] old(self).is_sub(j) ==> final(self).is_sub(j)
                                && same_but_lf(old(self).node_at(j), final(self).node_at(j)))
                        &&& final(self).focus_path_ok(id.idx())
                        &&& (old(self).no_empty_subs() ==> final(self).no_empty_subs())
                    }
                },
            },
    {
        let ghost o = *self;
        let id = match focused {
            None => {
                return ;
            },
            Some(id) => id,
        };
        if self.get_window(id).is_none() {
            return ;
        }
        let mut j: usize = 0;
        while j < self.elements.len()
            invariant
                o.wf(),
                self.wf(),
                o.is_win(id.idx()),
                j <= o.slot_count(),
                self.slot_count() == o.slot_count(),
                self.next_id == o.next_id,
                forall|jj: int| j <= jj < o.slot_count() ==> self.elements@[jj] == o.elements@[jj],
                forall|jj: int|
                    0 <= jj < j && !o.is_win(jj) ==> self.elements@[jj] == o.elements@[jj],
                forall|jj: int|
                    0 <= jj < j && #[trigger] o.is_win(jj) ==> self.is_win(jj) && self.win_at(jj)
                        == (Window {
                        inner: InnerWindow { is_focused: jj == id.idx(), ..o.win_at(jj).inner },
                        ..o.win_at(jj)
                    }),
            decreases self.slot_count() - j,
        {
            let upd = match &self.elements[j] {
                Some(LayoutElement::Window(w)) => Some(
                    InnerWindow { is_focused: j == id.0, ..w.inner },
                ),
                _ => None,
            };
            match upd {
                Some(inner) => {
                    proof {
                        assert(o.is_win(j as int));
                    }
                    self.set_window_inner(Id(j), inner);
                },
                None => {
                    proof {
                        assert(!o.is_win(j as int));
                    }
                },
            }
            j += 1;
        }
        let ghost m = *self;
        self.on_focus(id);
        proof {
            assert(m.occupied(id.idx()));
            assert(self.focus_path_ok(id.idx()));
            assert forall|jj: int| self.occupied(jj) == o.occupied(jj) by {
                assert(self.occupied(jj) == m.occupied(jj));
                if 0 <= jj < o.slot_count() {
                    if o.is_win(jj) {
                        assert(m.is_win(jj));
                    } else {
                        assert(m.elements@[jj] == o.elements@[jj]);
                    }
                }
            }
            assert forall|jj: int| #[trigger] o.is_sub(jj) implies self.is_sub(jj) && same_but_lf(
                o.node_at(jj),
                self.node_at(jj),
            ) by {
                assert(o.occupied(jj) && !o.is_win(jj));
                assert(m.elements@[jj] == o.elements@[jj]);
                assert(m.occupied(jj));
                assert(same_but_lf(m.node_at(jj), self.node_at(jj)));
            }
            assert forall|jj: int| #[trigger] o.is_win(jj) implies self.is_win(jj) && self.win_at(
                jj,
            ) == (Window {
                inner: InnerWindow { is_focused: jj == id.idx(), ..o.win_at(jj).inner },
                ..o.win_at(jj)
            }) by {
                assert(o.occupied(jj));
                assert(m.occupied(jj));
                assert(same_but_lf(m.node_at(jj), self.node_at(jj)));
            }
            if o.no_empty_subs() {
                assert forall|jj: int|
                    (#[trigger] self.occupied(jj)) && jj != 0 && jj != -1 && self.node_at(jj)
                        is SubLayout implies self.children_of(jj).len() > 0 by {
                    assert(m.occupied(jj));
                    if o.is_win(jj) {
                        assert(self.is_win(jj));
                    } else {
                        assert(m.elements@[jj] == o.elements@[jj]);
                        assert(o.occupied(jj));
                        assert(o.is_sub(jj));
                        assert(same_but_lf(o.node_at(jj), self.node_at(jj)));
                    }
                }
            }
        }
    }

    /// Wraps the focused leaf in a fresh container of the requested
    /// orientation, so that the next sibling inserted lands in a split of
    /// that orientation. With no focused leaf the root itself is reoriented.
    /// A floating or missing window is refused.
    #[verifier::rlimit(60)]
    pub fn switch_to_layout(&mut self, focused: Option<Id>, layout_type: LayoutType) -> (r: Option<
        (),
    >)
        requires
            old(self).wf(),
            old(self).no_empty_subs(),
            old(self).slot_count() + 2 <= usize::MAX,
        ensures
            final(self).wf(),
            final(self).no_empty_subs(),
            match focused {
                None => r is Some && final(self).elements@ == old(self).elements@.update(
                    0,
                    Some(
                        LayoutElement::SubLayout(
                            SubLayout { layout_type, ..old(self).sub_at(0) },
                        ),
                    ),
                ),
                Some(id) => {
                    if !old(self).is_win(id.idx()) || old(self).win_at(id.idx()).inner.state.floating {
                        r is None && *final(self) == *old(self)
                    } else {
                        let n0 = old(self).slot_count();
                        let n1 = n0 + 1;
                        let p = old(self).parent_idx(id.idx());
                        let k = old(self).children_of(p).index_of(Id(id.idx() as usize));
                        &&& r is Some
                        &&& final(self).slot_count() == n0 + 2
                        &&& !final(self).occupied(id.idx())
                        &&& final(self).is_sub(n0)
                        &&& final(self).sub_at(n0) == (SubLayout {
                            id: Id(n0 as usize),
                            parent: Some(Id(p as usize)),
                            children: final(self).sub_at(n0).children,
                            last_focused: 0,
                            layout_type,
                        })
                        &&& final(self).children_of(n0) == seq![Id(n1 as usize)]
                        &&& final(self).is_win(n1)
                        &&& final(self).win_at(n1) == (Window {
                            id: Id(n1 as usize),
                            parent: Id(n0 as usize),
                            inner: old(self).win_at(id.idx()).inner,
                        })
                        &&& final(self).is_sub(p)
                        &&& final(self).children_of(p) == old(self).children_of(p).update(
                            k,
                            Id(n0 as usize),
                        )
                        &&& final(self).sub_at(p) == (SubLayout {
                            children: final(self).sub_at(p).children,
                            ..old(self).sub_at(p)
                        })
                        &&& (forall|j: int|
                            0 <= j < n0 && j != p && j != id.idx() ==> final(self).elements@[j]
                                == old(self).elements@[j])
                    }
                },
            },
    {
        let ghost s0 = *self;
        let id = match focused {
            None => {
                self.set_root_layout_type(layout_type);
                return Some(());
            },
            Some(id) => id,
        };
        let floating = match self.get_window(id) {
            None => {
                return None;
            },
            Some(w) => w.state.floating,
        };
        if floating {
            return None;
        }
        proof {
            assert(s0.wf_node(0));
            assert(id.idx() != 0);
            assert(s0.wf_node(id.idx()));
            lemma_index_of_unique(
                s0.children_of(s0.parent_idx(id.idx())),
                Id(id.0),
                s0.children_of(s0.parent_idx(id.idx())).index_of(Id(id.0)),
            );
        }
        let parent = match self.insert_sublayout(id, layout_type) {
            None => {
                return None;
            },
            Some(parent) => parent,
        };
        let ghost s1 = *self;
        proof {
            let p = s0.parent_idx(id.idx());
            let k = s0.children_of(p).index_of(Id(id.0));
            s0.children_of(p).insert_ensures(k + 1, Id(s0.slot_count() as usize));
            assert(s1.children_of(p)[k] == Id(id.0));
            lemma_index_of_unique(s1.children_of(p), Id(id.0), k);
            assert(!s1.gc_step(id.idx()));
        }
        let el = match self.remove_element(id) {
            None => {
                return None;
            },
            Some(el) => el,
        };
        let ghost s2 = *self;
        let r = self.insert_element(parent, el);
        proof {
            let p = s0.parent_idx(id.idx());
            let k = s0.children_of(p).index_of(Id(id.0));
            let n0 = s0.slot_count();
            s1.children_of(p).remove_ensures(k);
            assert(s2.children_of(p) =~= s0.children_of(p).update(k, Id(n0 as usize)));
            assert(self.children_of(n0) =~= seq![Id((n0 + 1) as usize)]);
            assert(s2.no_empty_subs_except(n0));
            assert forall|j: int|
                (#[trigger] self.occupied(j)) && j != 0 && j != -1 && self.node_at(j)
                    is SubLayout implies self.children_of(j).len() > 0 by {
                if j == n0 {
                    assert(self.children_of(n0).len() == 1);
                } else if j < n0 {
                    assert(self.elements@[j] == s2.elements@[j]);
                    assert(s2.occupied(j));
                } else {
                    assert(j == n0 + 1);
                    assert(self.node_at(j) is Window);
                }
            }
            assert forall|j: int|
                0 <= j < n0 && j != p && j != id.idx() implies self.elements@[j]
                == s0.elements@[j] by {
                assert(s1.elements@[j] == s0.elements@[j]);
                if s1.occupied(j) {
                    assert(s2.elements@[j] == s1.elements@[j]);
                } else {
                    assert(!s2.occupied(j));
                    assert(s2.elements@[j] is None && s1.elements@[j] is None);
                }
                assert(self.elements@[j] == s2.elements@[j]);
            }
        }
        Some(())
    }

    pub fn get_parent(&self, id: Id) -> (r: Option<Id>)
        ensures
            r == if self.occupied(id.idx()) {
                self.parent_of(id.idx())
            } else {
                Option::<Id>::None
            },
    {
        match self.get_element(id) {
            Some(el) => el.parent(),
            None => None,
        }
    }
}

/// First position of `id` in a child list, if any.
fn position_of(children: &Vec<Id>, id: Id) -> (r: Option<usize>)
    ensures
        match r {
            Some(k) => k < children@.len() && children@[k as int] == id,
            None => forall|j: int| 0 <= j < children@.len() ==> children@[j] != id,
        },
{
    let mut k: usize = 0;
    while k < children.len()
        invariant
            k <= children@.len(),
            forall|j: int| 0 <= j < k ==> children@[j] != id,
        decreases children@.len() - k,
    {
        if children[k] == id {
            return Some(k);
        }
        k += 1;
    }
    None
}

/// In a duplicate-free sequence, any position holding `x` is the position
/// `index_of` picks.
proof fn lemma_index_of_unique(s: Seq<Id>, x: Id, k: int)
    requires
        forall|k1: int, k2: int| 0 <= k1 < k2 < s.len() ==> s[k1] != s[k2],
        0 <= k < s.len(),
        s[k] == x,
    ensures
        s.contains(x),
        s.index_of(x) == k,
{
    assert(s.contains(x));
    let i = s.index_of(x);
    assert(0 <= i < s.len() && s[i] == x);
    if i < k {
        assert(s[i] != s[k]);
    } else if k < i {
        assert(s[k] != s[i]);
    }
}

/// Whether two slots hold nodes of the same shape: same variant, id, links,
/// children and focus index; only the window payload may differ.
pub open spec fn same_structure(a: LayoutElement, b: LayoutElement) -> bool {
    &&& a.spec_id() == b.spec_id()
    &&& a.spec_parent() == b.spec_parent()
    &&& a.spec_children() == b.spec_children()
    &&& ((a is SubLayout) <==> (b is SubLayout))
    &&& (a is SubLayout ==> a->SubLayout_0.last_focused == b->SubLayout_0.last_focused)
}

/// A tree whose every node keeps its shape keeps the tree invariant,
/// whatever happens to the window payloads or container orientations.
proof fn lemma_same_structure_wf(o: Layout, n: Layout)
    requires
        o.wf(),
        n.slot_count() == o.slot_count(),
        n.next_id == o.next_id,
        forall|j: int| n.occupied(j) == #[trigger] o.occupied(j),
        forall|j: int| #[trigger] o.occupied(j) ==> same_structure(o.node_at(j), n.node_at(j)),
    ensures
        n.wf(),
{
    assert forall|i: int| n.occupied(i) implies n.wf_node(i) by {
        assert(o.occupied(i));
        assert(o.wf_node(i));
        assert(same_structure(o.node_at(i), n.node_at(i)));
        if i != 0 {
            let p = o.parent_idx(i);
            assert(same_structure(o.node_at(p), n.node_at(p)));
        }
        if n.node_at(i) is SubLayout {
            let cs = o.children_of(i);
            assert forall|k: int| 0 <= k < cs.len() implies {
                &&& i < (#[trigger] cs[k]).idx() < n.slot_count()
                &&& n.occupied(cs[k].idx())
                &&& n.parent_of(cs[k].idx()) == Some(Id(i as usize))
            } by {
                assert(same_structure(o.node_at(cs[k].idx()), n.node_at(cs[k].idx())));
            }
        }
    }
}

/// Whether two slots hold the same node up to the container's
/// `last_focused` index.
pub open spec fn same_but_lf(a: LayoutElement, b: LayoutElement) -> bool {
    match (a, b) {
        (LayoutElement::SubLayout(x), LayoutElement::SubLayout(y)) => {
            &&& x.id == y.id
            &&& x.parent == y.parent
            &&& x.children@ == y.children@
            &&& x.layout_type == y.layout_type
        },
        (LayoutElement::Window(x), LayoutElement::Window(y)) => x == y,
        _ => false,
    }
}

/// A matching ancestor is a live container and the node below it a live
/// child of it.
proof fn lemma_matching_ancestor_occupied(l: Layout, i: int, edge: Edge)
    requires
        l.wf(),
    ensures
        l.matching_ancestor(i, edge) matches Some((p, c)) ==> {
            &&& l.is_sub(p)
            &&& l.occupied(c)
            &&& c != 0
            &&& l.parent_of(c) is Some
            &&& l.parent_idx(c) == p
            &&& 0 <= p < c
        },
    decreases i,
{
    if l.occupied(i) && i != 0 && l.parent_of(i) is Some && 0 <= l.parent_idx(i) < i && l.is_sub(
        l.parent_idx(i),
    ) {
        if !Layout::spec_correct_layout(l.sub_at(l.parent_idx(i)).layout_type, edge) {
            lemma_matching_ancestor_occupied(l, l.parent_idx(i), edge);
        }
    }
}

/// A focus index brought back into range after a child list shrank to
/// `newlen` entries.
pub open spec fn spec_clamped_lf(lf: int, newlen: int) -> int {
    if newlen == 0 {
        0
    } else if lf >= newlen {
        newlen - 1
    } else {
        lf
    }
}

/// Garbage-collection chains read only a node's parent link and the slots
/// below it, so two trees that agree there have the same chains.
proof fn lemma_gc_agree(o: Layout, m: Layout, i: int)
    requires
        0 <= i < o.slot_count(),
        o.slot_count() == m.slot_count(),
        forall|j: int| 0 <= j < i ==> m.elements@[j] == o.elements@[j],
        m.occupied(i) == o.occupied(i),
        m.occupied(i) ==> m.parent_of(i) == o.parent_of(i),
    ensures
        m.gc_top(i) == o.gc_top(i),
        forall|j: int| #[trigger] m.on_gc_chain(i, j) == o.on_gc_chain(i, j),
    decreases i,
{
    if o.occupied(i) && o.parent_of(i) is Some && 0 <= o.parent_idx(i) < i {
        let p = o.parent_idx(i);
        assert(m.elements@[p] == o.elements@[p]);
        assert(m.gc_step(i) == o.gc_step(i));
        if o.gc_step(i) {
            lemma_gc_agree(o, m, p);
        }
    } else {
        assert(!o.gc_step(i) && !m.gc_step(i));
    }
    assert forall|j: int| #[trigger] m.on_gc_chain(i, j) == o.on_gc_chain(i, j) by {
        if o.gc_step(i) {
            assert(m.on_gc_chain(o.parent_idx(i), j) == o.on_gc_chain(o.parent_idx(i), j));
        }
    }
}

/// Every slot on a garbage-collection chain is live, lies between the chain
/// top and the starting node, and is a container unless it is the starting
/// node itself; the chain top does not step further.
proof fn lemma_chain_nodes(o: Layout, i: int)
    requires
        o.wf(),
        o.occupied(i),
        i != 0,
    ensures
        forall|j: int|
            #[trigger] o.on_gc_chain(i, j) ==> o.occupied(j) && 0 < j <= i && (j == i || o.node_at(
                j,
            ) is SubLayout),
        o.on_gc_chain(i, i),
        o.occupied(o.gc_top(i)),
        0 < o.gc_top(i) <= i,
        o.on_gc_chain(i, o.gc_top(i)),
        !o.gc_step(o.gc_top(i)),
        o.parent_of(o.gc_top(i)) is Some,
        0 <= o.parent_idx(o.gc_top(i)) < o.gc_top(i),
        o.is_sub(o.parent_idx(o.gc_top(i))),
    decreases i,
{
    assert(o.wf_node(i));
    if o.gc_step(i) {
        let p = o.parent_idx(i);
        assert(o.is_sub(p));
        lemma_chain_nodes(o, p);
        assert forall|j: int| #[trigger] o.on_gc_chain(i, j) implies o.occupied(j) && 0 < j <= i
            && (j == i || o.node_at(j) is SubLayout) by {
            if j != i {
                assert(o.on_gc_chain(p, j));
            }
        }
    }
}

/// Detaching a childless node from its parent (and clamping the parent's
/// focus index) preserves the tree invariant.
proof fn lemma_detach_wf(o: Layout, m: Layout, id: int, p: int, k: int)
    requires
        o.wf(),
        o.occupied(id),
        id != 0,
        o.children_of(id).len() == 0,
        p == o.parent_idx(id),
        0 <= k < o.children_of(p).len(),
        o.children_of(p)[k] == Id(id as usize),
        m.slot_count() == o.slot_count(),
        m.next_id == o.next_id,
        m.elements@[id] is None,
        forall|j: int| 0 <= j < o.slot_count() && j != id && j != p ==> m.elements@[j]
            == o.elements@[j],
        m.is_sub(p),
        m.sub_at(p) == (SubLayout {
            children: m.sub_at(p).children,
            last_focused: m.sub_at(p).last_focused,
            ..o.sub_at(p)
        }),
        m.children_of(p) == o.children_of(p).remove(k),
        m.sub_at(p).last_focused == spec_clamped_lf(
            o.sub_at(p).last_focused as int,
            o.children_of(p).len() - 1,
        ),
    ensures
        m.wf(),
{
    let ocs = o.children_of(p);
    let ncs = m.children_of(p);
    ocs.remove_ensures(k);
    assert(o.wf_node(id));
    assert(o.wf_node(p));
    assert(p != id);
    assert forall|i: int| m.occupied(i) implies m.wf_node(i) by {
        assert(i != id);
        assert(o.occupied(i));
        assert(o.wf_node(i));
        if i == p {
            // parent side of p
            if p != 0 {
                let q = o.parent_idx(p);
                assert(q != id && q != p);
                assert(m.elements@[q] == o.elements@[q]);
            }
            // child side of p
            assert forall|k2: int| 0 <= k2 < ncs.len() implies {
                &&& i < #[trigger] ncs[k2].idx() < m.slot_count()
                &&& m.occupied(ncs[k2].idx())
                &&& m.parent_of(ncs[k2].idx()) == Some(Id(i as usize))
            } by {
                let k3 = if k2 < k {
                    k2
                } else {
                    k2 + 1
                };
                assert(ncs[k2] == ocs[k3]);
                assert(ncs[k2] != Id(id as usize));
                assert(ncs[k2].idx() != id);
                assert(m.elements@[ncs[k2].idx()] == o.elements@[ncs[k2].idx()]);
            }
            assert forall|k1: int, k2: int| 0 <= k1 < k2 < ncs.len() implies ncs[k1] != ncs[k2] by {
                let k1o = if k1 < k {
                    k1
                } else {
                    k1 + 1
                };
                let k2o = if k2 < k {
                    k2
                } else {
                    k2 + 1
                };
                assert(ncs[k1] == ocs[k1o] && ncs[k2] == ocs[k2o]);
            }
            assert(m.wf_node(i));
        } else {
            assert(m.elements@[i] == o.elements@[i]);
            // parent side
            if i != 0 {
                let q = o.parent_idx(i);
                assert(q != id) by {
                    if q == id {
                        assert(o.children_of(id).contains(Id(i as usize)));
                    }
                }
                if q == p {
                    let kq = choose|kq: int| 0 <= kq < ocs.len() && ocs[kq] == Id(i as usize);
                    assert(kq != k);
                    if kq < k {
                        assert(ncs[kq] == Id(i as usize));
                    } else {
                        assert(ncs[kq - 1] == Id(i as usize));
                    }
                    assert(ncs.contains(Id(i as usize)));
                } else {
                    assert(m.elements@[q] == o.elements@[q]);
                }
            }
            // child side
            if o.node_at(i) is SubLayout {
                let cs = o.children_of(i);
                assert forall|k2: int| 0 <= k2 < cs.len() implies {
                    &&& i < #[trigger] cs[k2].idx() < m.slot_count()
                    &&& m.occupied(cs[k2].idx())
                    &&& m.parent_of(cs[k2].idx()) == Some(Id(i as usize))
                } by {
                    assert(cs[k2].idx() != id) by {
                        if cs[k2].idx() == id {
                            assert(o.parent_of(id) == Some(Id(i as usize)));
                        }
                    }
                    if cs[k2].idx() != p {
                        assert(m.elements@[cs[k2].idx()] == o.elements@[cs[k2].idx()]);
                    }
                }
            }
            assert(m.wf_node(i));
        }
    }
}

/// Removing a node whose parent it emptied composes with the recursive
/// removal of that parent.
proof fn lemma_remove_compose(o: Layout, m: Layout, n: Layout, id: int, p: int)
    requires
        o.wf(),
        o.occupied(id),
        id != 0,
        p == o.parent_idx(id),
        p != 0,
        o.gc_step(id),
        m.slot_count() == o.slot_count(),
        m.next_id == o.next_id,
        m.elements@[id] is None,
        forall|j: int| 0 <= j < o.slot_count() && j != id && j != p ==> m.elements@[j]
            == o.elements@[j],
        m.is_sub(p),
        m.sub_at(p) == (SubLayout {
            children: m.sub_at(p).children,
            last_focused: m.sub_at(p).last_focused,
            ..o.sub_at(p)
        }),
        m.children_of(p).len() == 0,
        Layout::spec_remove_result(m, n, p),
    ensures
        Layout::spec_remove_result(o, n, id),
{
    lemma_gc_agree(o, m, p);
    assert(o.wf_node(id));
    assert(o.wf_node(p));
    let t = o.gc_top(p);
    assert(o.gc_top(id) == t);
    assert(m.gc_top(p) == t);
    lemma_chain_nodes(o, p);
    assert(0 < t <= p);
    // the chain top's slot and its parent's slot agree between o and m
    if t != p {
        assert(m.elements@[t] == o.elements@[t]);
    }
    assert(m.parent_of(t) == o.parent_of(t));
    let tp = o.parent_idx(t);
    assert(m.parent_idx(t) == tp);
    assert(tp < t);
    assert(m.elements@[tp] == o.elements@[tp]);
    assert(m.children_of(tp) == o.children_of(tp));
    assert(m.sub_at(tp) == o.sub_at(tp));
    assert forall|j: int| 0 <= j < o.slot_count() implies (n.occupied(j) <==> o.occupied(j)
        && !o.on_gc_chain(id, j)) by {
        assert(n.occupied(j) <==> m.occupied(j) && !m.on_gc_chain(p, j));
        assert(m.on_gc_chain(p, j) == o.on_gc_chain(p, j));
        if j == id {
            assert(!m.occupied(j));
            assert(o.on_gc_chain(id, j));
        } else {
            assert(m.occupied(j) == o.occupied(j));
            assert(o.on_gc_chain(id, j) == o.on_gc_chain(p, j));
        }
    }
    assert forall|j: int| n.occupied(j) && j != tp implies n.elements@[j] == o.elements@[j] by {
        assert(!m.on_gc_chain(p, j));
        assert(m.on_gc_chain(p, p));
        assert(j != p && j != id);
        assert(n.elements@[j] == m.elements@[j]);
    }
}

/// After a removal no empty container is left, provided only the removed
/// node itself may have been empty before.
proof fn lemma_remove_no_empty(o: Layout, n: Layout, id: int)
    requires
        o.wf(),
        o.occupied(id),
        id != 0,
        o.no_empty_subs_except(id),
        Layout::spec_remove_result(o, n, id),
    ensures
        n.no_empty_subs(),
{
    lemma_chain_nodes(o, id);
    let t = o.gc_top(id);
    let tp = o.parent_idx(t);
    let ocs = o.children_of(tp);
    assert(o.wf_node(t));
    assert(ocs.contains(Id(t as usize)));
    let ti = ocs.index_of(Id(t as usize));
    assert(0 <= ti < ocs.len());
    ocs.remove_ensures(ti);
    assert forall|i: int|
        (#[trigger] n.occupied(i)) && i != 0 && i != -1 && n.node_at(i)
            is SubLayout implies n.children_of(i).len() > 0 by {
        assert(o.occupied(i) && !o.on_gc_chain(id, i));
        assert(i != id);
        if i == tp {
            // the chain stopped at t, so tp kept at least one other child
            if tp != 0 {
                assert(!o.gc_step(t));
                assert(ocs.len() != 1);
            }
            assert(n.children_of(i).len() == ocs.len() - 1);
        } else {
            assert(n.elements@[i] == o.elements@[i]);
        }
    }
}

/// Inserting one fresh node with id `o.slot_count()` under container `tgt`
/// preserves the tree invariant, and creates no empty container other than
/// (possibly) the fresh node itself.
proof fn lemma_insert_wf(o: Layout, n: Layout, parent: int, tgt: int, pos: int)
    requires
        o.wf(),
        o.occupied(parent),
        tgt == o.spec_insert_target(parent),
        0 <= pos <= o.children_of(tgt).len(),
        n.slot_count() == o.slot_count() + 1,
        n.next_id.idx() == o.slot_count() + 1,
        n.occupied(o.slot_count()),
        n.node_at(o.slot_count()).spec_id() == Id(o.slot_count() as usize),
        n.node_at(o.slot_count()).spec_parent() == Some(Id(tgt as usize)),
        n.node_at(o.slot_count()).spec_children().len() == 0,
        n.node_at(o.slot_count()) matches LayoutElement::SubLayout(sl) ==> sl.last_focused == 0,
        forall|j: int| 0 <= j < o.slot_count() && j != tgt ==> n.elements@[j] == o.elements@[j],
        n.is_sub(tgt),
        n.sub_at(tgt) == (SubLayout { children: n.sub_at(tgt).children, ..o.sub_at(tgt) }),
        n.children_of(tgt) == o.children_of(tgt).insert(pos, Id(o.slot_count() as usize)),
    ensures
        n.wf(),
        o.no_empty_subs() ==> n.no_empty_subs_except(o.slot_count()),
        o.no_empty_subs() && n.node_at(o.slot_count()) is Window ==> n.no_empty_subs(),
{
    let newid = o.slot_count();
    let ocs = o.children_of(tgt);
    let ncs = n.children_of(tgt);
    ocs.insert_ensures(pos, Id(newid as usize));
    assert(o.wf_node(parent));
    assert(o.is_sub(tgt));
    assert(o.wf_node(tgt));
    // every old child id of tgt is below newid
    assert(forall|k: int| 0 <= k < ocs.len() ==> #[trigger] ocs[k].idx() < newid);
    assert forall|i: int| n.occupied(i) implies n.wf_node(i) by {
        if i == newid {
            assert(n.is_sub(tgt));
            assert(ncs[pos] == Id(newid as usize));
            assert(ncs.contains(Id(newid as usize)));
            assert(n.wf_node(i));
        } else {
            assert(n.elements@[i] == o.elements@[i] || i == tgt);
            assert(o.occupied(i));
            assert(o.wf_node(i));
            // the parent side of the node's invariant
            if i != 0 {
                let p = o.parent_idx(i);
                assert(n.parent_of(i) == o.parent_of(i));
                assert(n.is_sub(p));
                if p == tgt {
                    assert(ocs.contains(Id(i as usize)));
                    let k = choose|k: int| 0 <= k < ocs.len() && ocs[k] == Id(i as usize);
                    if k < pos {
                        assert(ncs[k] == Id(i as usize));
                    } else {
                        assert(ncs[k + 1] == Id(i as usize));
                    }
                    assert(n.children_of(p).contains(Id(i as usize)));
                } else {
                    assert(n.children_of(p) == o.children_of(p));
                }
            }
            // the child side of the node's invariant
            if n.node_at(i) is SubLayout {
                if i == tgt {
                    assert forall|k: int| 0 <= k < ncs.len() implies {
                        &&& i < #[trigger] ncs[k].idx() < n.slot_count()
                        &&& n.occupied(ncs[k].idx())
                        &&& n.parent_of(ncs[k].idx()) == Some(Id(i as usize))
                    } by {
                        if k < pos {
                            assert(ncs[k] == ocs[k]);
                        } else if k == pos {
                            assert(ncs[k] == Id(newid as usize));
                        } else {
                            assert(ncs[k] == ocs[k - 1]);
                        }
                        if ncs[k].idx() != newid {
                            assert(o.occupied(ncs[k].idx()));
                            assert(ncs[k].idx() != tgt);
                            assert(n.elements@[ncs[k].idx()] == o.elements@[ncs[k].idx()]);
                        }
                    }
                    assert forall|k1: int, k2: int| 0 <= k1 < k2 < ncs.len() implies ncs[k1]
                        != ncs[k2] by {
                        if k1 < pos {
                            assert(ncs[k1] == ocs[k1]);
                        } else if k1 == pos {
                            assert(ncs[k1] == Id(newid as usize));
                        } else {
                            assert(ncs[k1] == ocs[k1 - 1]);
                        }
                        if k2 < pos {
                            assert(ncs[k2] == ocs[k2]);
                        } else if k2 == pos {
                            assert(ncs[k2] == Id(newid as usize));
                        } else {
                            assert(ncs[k2] == ocs[k2 - 1]);
                        }
                    }
                    assert(n.sub_at(i).last_focused < ncs.len());
                } else {
                    let cs = o.children_of(i);
                    assert(n.children_of(i) == cs);
                    assert forall|k: int| 0 <= k < cs.len() implies {
                        &&& i < #[trigger] cs[k].idx() < n.slot_count()
                        &&& n.occupied(cs[k].idx())
                        &&& n.parent_of(cs[k].idx()) == Some(Id(i as usize))
                    } by {
                        assert(o.occupied(cs[k].idx()));
                        if cs[k].idx() != tgt {
                            assert(n.elements@[cs[k].idx()] == o.elements@[cs[k].idx()]);
                        }
                    }
                }
            }
            assert(n.wf_node(i));
        }
    }
    if o.no_empty_subs() {
        assert forall|i: int|
            (#[trigger] n.occupied(i)) && i != 0 && i != newid && n.node_at(i)
                is SubLayout implies n.children_of(i).len() > 0 by {
            assert(o.occupied(i));
            if i != tgt {
                assert(n.elements@[i] == o.elements@[i]);
            }
        }
    }
}


/// How many entries of `s` equal `x`.
pub open spec fn count_matches(s: Seq<Id>, x: Id) -> nat
    decreases s.len(),
{
    if s.len() == 0 {
        0
    } else {
        count_matches(s.drop_last(), x) + if s.last() == x {
            1nat
        } else {
            0nat
        }
    }
}

proof fn lemma_count_zero(s: Seq<Id>, x: Id)
    requires
        forall|k: int| 0 <= k < s.len() ==> s[k] != x,
    ensures
        count_matches(s, x) == 0,
    decreases s.len(),
{
    if s.len() > 0 {
        lemma_count_zero(s.drop_last(), x);
    }
}

proof fn lemma_count_distinct(s: Seq<Id>, x: Id, k: int)
    requires
        forall|k1: int, k2: int| 0 <= k1 < k2 < s.len() ==> s[k1] != s[k2],
        0 <= k < s.len(),
        s[k] == x,
    ensures
        count_matches(s, x) == 1,
    decreases s.len(),
{
    if k == s.len() - 1 {
        assert forall|j: int| 0 <= j < s.drop_last().len() implies s.drop_last()[j] != x by {
            assert(s[j] != s[k]);
        }
        lemma_count_zero(s.drop_last(), x);
    } else {
        assert(s.drop_last()[k] == x);
        lemma_count_distinct(s.drop_last(), x, k);
        assert(s.last() != x) by {
            assert(s[k] != s[s.len() - 1]);
        }
    }
}

/// Tree well-formedness: in a well-formed tree every non-root node has a
/// container parent whose child list names it exactly once; together with
/// [`Layout::no_empty_subs`] (preserved by every operation) this is the
/// shape the tree keeps across any sequence of insertions and removals.
pub proof fn lemma_tree_well_formed(l: Layout, i: int)
    requires
        l.wf(),
        l.occupied(i),
        i != 0,
    ensures
        l.parent_of(i) is Some,
        l.is_sub(l.parent_idx(i)),
        count_matches(l.children_of(l.parent_idx(i)), Id(i as usize)) == 1,
{
    assert(l.wf_node(i));
    let p = l.parent_idx(i);
    assert(l.wf_node(p));
    let cs = l.children_of(p);
    assert(cs.contains(Id(i as usize)));
    let k = choose|k: int| 0 <= k < cs.len() && cs[k] == Id(i as usize);
    lemma_count_distinct(cs, Id(i as usize), k);
}

/// Neighbor round trip: in a horizontal root holding exactly the windows
/// `a` then `b`, stepping right from `a` reaches `b`, stepping left from
/// `b` reaches `a`, and stepping left from `a` falls off the edge.
pub proof fn lemma_neighbor_round_trip(l: Layout, a: Id, b: Id)
    requires
        l.wf(),
        l.children_of(0) == seq![a, b],
        l.sub_at(0).layout_type == LayoutType::Horizontal,
        l.is_win(a.idx()),
        l.is_win(b.idx()),
    ensures
        l.neighbor_spec(a.idx(), Edge::spec_right()) == Some(b),
        l.neighbor_spec(b.idx(), Edge::spec_left()) == Some(a),
        l.neighbor_spec(a.idx(), Edge::spec_left()) is None,
{
    let cs = l.children_of(0);
    assert(l.wf_node(0));
    assert(cs[0] == a && cs[1] == b);
    assert(cs.contains(a) && cs.contains(b));
    assert(l.wf_node(a.idx()));
    assert(l.wf_node(b.idx()));
    // both windows are children of the root, so the root is their parent
    assert(l.parent_of(a.idx()) == Some(Id(0usize)));
    assert(l.parent_of(b.idx()) == Some(Id(0usize)));
    assert(a.idx() != 0 && b.idx() != 0);
    assert(Layout::spec_correct_layout(LayoutType::Horizontal, Edge::spec_right()));
    assert(Layout::spec_correct_layout(LayoutType::Horizontal, Edge::spec_left()));
    assert(l.matching_ancestor(a.idx(), Edge::spec_right()) == Some((0int, a.idx())));
    assert(l.matching_ancestor(b.idx(), Edge::spec_left()) == Some((0int, b.idx())));
    assert(l.matching_ancestor(a.idx(), Edge::spec_left()) == Some((0int, a.idx())));
    lemma_index_of_unique(cs, a, 0);
    lemma_index_of_unique(cs, b, 1);
    assert(l.descend_spec(b.idx()) == Some(b));
    assert(l.descend_spec(a.idx()) == Some(a));
    assert(l.neighbor_spec(a.idx(), Edge::spec_right()) == l.step_to(0, 1));
    assert(l.neighbor_spec(b.idx(), Edge::spec_left()) == l.step_to(0, 0));
}

} // verus!
