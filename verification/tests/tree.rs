use pocowm::edge::Edge;
use pocowm::focus::{current_focus_leaf, get_next_focus_id};
use pocowm::layout::{Id, Layout, LayoutElement, LayoutType};
use pocowm::window::Window;

fn tiled(surface: u64) -> Window {
    Window::new(surface)
}

/// Every non-root node's parent lists it exactly once, and no container but
/// the root is empty.
fn assert_well_formed(l: &Layout) {
    let root = l.root();
    assert_eq!(root.id, Id(0));
    assert!(root.parent.is_none());
    let mut stack = vec![Id(0)];
    while let Some(id) = stack.pop() {
        if let Some(sl) = l.get_sublayout(id) {
            if id != Id(0) {
                assert!(!sl.children.is_empty());
            }
            for c in sl.children.iter() {
                let count = sl.children.iter().filter(|x| *x == c).count();
                assert_eq!(count, 1);
                assert_eq!(l.get_parent(*c), Some(id));
                stack.push(*c);
            }
        }
    }
}

#[test]
fn new_tree_holds_an_empty_horizontal_root() {
    let l = Layout::new();
    let root = l.root();
    assert_eq!(root.layout_type, LayoutType::Horizontal);
    assert!(root.children.is_empty());
    assert_eq!(root.last_focused, 0);
    assert_well_formed(&l);
}

#[test]
fn insert_into_root_appends_children() {
    let mut l = Layout::new();
    let a = l.insert_window(Id(0), tiled(1)).unwrap();
    let b = l.insert_window(Id(0), tiled(2)).unwrap();
    assert_eq!(a, Id(1));
    assert_eq!(b, Id(2));
    assert_eq!(l.root().children, vec![a, b]);
    assert_eq!(l.get_parent(a), Some(Id(0)));
    assert_eq!(l.get_parent(b), Some(Id(0)));
    assert_well_formed(&l);
}

#[test]
fn insert_at_leaf_places_sibling_by_edge() {
    let mut l = Layout::new();
    let a = l.insert_window(Id(0), tiled(1)).unwrap();
    let b = l.insert_window(Id(0), tiled(2)).unwrap();
    // root is horizontal: a left edge lands the new window before `b`
    let c = l.insert_element_at(b, Edge::left(), LayoutElement::Window(
        pocowm::layout::Window { id: Id(0), parent: Id(0), inner: tiled(3) },
    )).unwrap();
    assert_eq!(l.root().children, vec![a, c, b]);
    // an unaligned edge (top, in a horizontal container) lands after
    let d = l.insert_element_at(a, Edge::top(), LayoutElement::Window(
        pocowm::layout::Window { id: Id(0), parent: Id(0), inner: tiled(4) },
    )).unwrap();
    assert_eq!(l.root().children, vec![a, d, c, b]);
    assert_well_formed(&l);
}

#[test]
fn insert_at_missing_id_is_a_no_op() {
    let mut l = Layout::new();
    let before = l.root().children.clone();
    assert!(l.insert_window(Id(77), tiled(1)).is_none());
    assert_eq!(l.root().children, before);
}

#[test]
fn remove_detaches_and_returns_the_node() {
    let mut l = Layout::new();
    let a = l.insert_window(Id(0), tiled(1)).unwrap();
    let b = l.insert_window(Id(0), tiled(2)).unwrap();
    let removed = l.remove_element(a).unwrap();
    match removed {
        LayoutElement::Window(w) => assert_eq!(w.inner.surface, 1),
        LayoutElement::SubLayout(_) => panic!("expected a window"),
    }
    assert!(l.get_element(a).is_none());
    assert_eq!(l.root().children, vec![b]);
    assert_well_formed(&l);
}

#[test]
fn remove_collapses_emptied_containers() {
    let mut l = Layout::new();
    let a = l.insert_window(Id(0), tiled(1)).unwrap();
    // wrap `a` in a vertical container: new container id 2, new leaf id 3
    l.switch_to_layout(Some(a), LayoutType::Vertical).unwrap();
    let container = Id(2);
    let leaf = Id(3);
    assert_eq!(l.root().children, vec![container]);
    assert_eq!(l.get_sublayout(container).unwrap().children, vec![leaf]);
    // removing the only leaf garbage-collects the container too
    l.remove_element(leaf).unwrap();
    assert!(l.get_element(leaf).is_none());
    assert!(l.get_element(container).is_none());
    assert!(l.root().children.is_empty());
    assert_well_formed(&l);
}

#[test]
fn remove_root_and_missing_ids_are_no_ops() {
    let mut l = Layout::new();
    let a = l.insert_window(Id(0), tiled(1)).unwrap();
    assert!(l.remove_element(Id(0)).is_none());
    assert!(l.remove_element(Id(9)).is_none());
    assert_eq!(l.root().children, vec![a]);
}

#[test]
fn removal_clamps_the_focus_index() {
    let mut l = Layout::new();
    let _a = l.insert_window(Id(0), tiled(1)).unwrap();
    let _b = l.insert_window(Id(0), tiled(2)).unwrap();
    let c = l.insert_window(Id(0), tiled(3)).unwrap();
    l.on_focus(c);
    assert_eq!(l.root().last_focused, 2);
    l.remove_element(c).unwrap();
    assert_eq!(l.root().last_focused, 1);
    assert_well_formed(&l);
}

#[test]
fn neighbor_round_trip_in_a_two_window_root() {
    let mut l = Layout::new();
    let a = l.insert_window(Id(0), tiled(1)).unwrap();
    let b = l.insert_window(Id(0), tiled(2)).unwrap();
    assert_eq!(l.get_window_neighbor(a, Edge::right()), Some(b));
    assert_eq!(l.get_window_neighbor(b, Edge::left()), Some(a));
    assert_eq!(l.get_window_neighbor(a, Edge::left()), None);
    assert_eq!(l.get_window_neighbor(b, Edge::right()), None);
    // vertical queries fall off a purely horizontal tree
    assert_eq!(l.get_window_neighbor(a, Edge::bottom()), None);
}

#[test]
fn neighbor_descends_into_the_last_focused_leaf() {
    let mut l = Layout::new();
    let a = l.insert_window(Id(0), tiled(1)).unwrap();
    // wrap `b` in a vertical split holding b and c
    let b0 = l.insert_window(Id(0), tiled(2)).unwrap();
    l.switch_to_layout(Some(b0), LayoutType::Vertical).unwrap();
    let b = Id(4); // the wrapped leaf gets a fresh id
    let c = l.insert_window(b, tiled(3)).unwrap();
    l.on_focus(c);
    assert_eq!(l.get_window_neighbor(a, Edge::right()), Some(c));
    l.on_focus(b);
    assert_eq!(l.get_window_neighbor(a, Edge::right()), Some(b));
}

#[test]
fn focus_restoration_prefers_the_preceding_sibling() {
    let mut l = Layout::new();
    let a = l.insert_window(Id(0), tiled(1)).unwrap();
    let b = l.insert_window(Id(0), tiled(2)).unwrap();
    let c = l.insert_window(Id(0), tiled(3)).unwrap();
    l.on_focus(b);
    assert_eq!(get_next_focus_id(&l, b, true), Some(a));
    l.on_focus(a);
    // the first child falls back to the sibling after it
    assert_eq!(get_next_focus_id(&l, a, true), Some(b));
    l.on_focus(c);
    assert_eq!(get_next_focus_id(&l, c, true), Some(b));
}

#[test]
fn focus_restoration_walks_up_past_an_only_child() {
    let mut l = Layout::new();
    let a = l.insert_window(Id(0), tiled(1)).unwrap();
    let b0 = l.insert_window(Id(0), tiled(2)).unwrap();
    l.switch_to_layout(Some(b0), LayoutType::Vertical).unwrap();
    let b = Id(4);
    l.set_focus(Some(b));
    // b is alone in its container: the fallback is the root's other child
    assert_eq!(get_next_focus_id(&l, b, true), Some(a));
}

#[test]
fn set_focus_marks_one_window_and_the_path() {
    let mut l = Layout::new();
    let a = l.insert_window(Id(0), tiled(1)).unwrap();
    let b = l.insert_window(Id(0), tiled(2)).unwrap();
    l.set_focus(Some(b));
    assert!(!l.get_window(a).unwrap().is_focused);
    assert!(l.get_window(b).unwrap().is_focused);
    assert_eq!(l.root().last_focused, 1);
    assert_eq!(current_focus_leaf(&l), Some(b));
    l.set_focus(Some(a));
    assert!(l.get_window(a).unwrap().is_focused);
    assert!(!l.get_window(b).unwrap().is_focused);
    assert_eq!(current_focus_leaf(&l), Some(a));
    // clearing the caller's focus target changes no flags
    l.set_focus(None);
    assert!(l.get_window(a).unwrap().is_focused);
}

#[test]
fn current_focus_of_an_empty_tree_is_none() {
    let l = Layout::new();
    assert_eq!(current_focus_leaf(&l), None);
}

#[test]
fn switch_to_layout_without_focus_reorients_the_root() {
    let mut l = Layout::new();
    let a = l.insert_window(Id(0), tiled(1)).unwrap();
    l.switch_to_layout(None, LayoutType::Tabbed).unwrap();
    assert_eq!(l.root().layout_type, LayoutType::Tabbed);
    assert_eq!(l.root().children, vec![a]);
}

#[test]
fn switch_to_layout_refuses_floating_windows() {
    let mut l = Layout::new();
    let a = l.insert_window(Id(0), tiled(1)).unwrap();
    let mut w = *l.get_window(a).unwrap();
    w.state.floating = true;
    l.set_window_state(a, w.state);
    assert!(l.switch_to_layout(Some(a), LayoutType::Vertical).is_none());
    assert_eq!(l.root().children, vec![a]);
}

#[test]
fn lookups_by_window_and_surface_agree() {
    let mut l = Layout::new();
    let a = l.insert_window(Id(0), tiled(10)).unwrap();
    let b = l.insert_window(Id(0), tiled(20)).unwrap();
    let wb = *l.get_window(b).unwrap();
    assert_eq!(l.get_window_id(&wb), Some(b));
    assert_eq!(l.find_surface(10), Some(a));
    assert_eq!(l.find_surface(99), None);
    assert_eq!(l.get_window_from_surface(20).unwrap().surface, 20);
    assert_eq!(l.window_ids(), vec![a, b]);
}

#[test]
fn ids_count_up_and_down() {
    let id = Id(3);
    assert_eq!(id.next(), Id(4));
    assert_eq!(id.prev(), Id(2));
    assert_eq!(Id::default(), Id(0));
}

#[test]
fn set_layout_type_reorients_one_container() {
    let mut l = Layout::new();
    let a = l.insert_window(Id(0), tiled(1)).unwrap();
    l.switch_to_layout(Some(a), LayoutType::Vertical).unwrap();
    let container = Id(2);
    l.set_layout_type(container, LayoutType::Tabbed);
    assert_eq!(l.get_sublayout(container).unwrap().layout_type, LayoutType::Tabbed);
    assert_eq!(l.root().layout_type, LayoutType::Horizontal);
    // a leaf id is refused
    l.set_layout_type(Id(3), LayoutType::Vertical);
    assert_eq!(l.get_sublayout(container).unwrap().layout_type, LayoutType::Tabbed);
}
