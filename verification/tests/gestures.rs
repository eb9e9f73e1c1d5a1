use pocowm::edge::Edge;
use pocowm::geometry::{Point, Rect, Size};
use pocowm::grabs::move_grab::MoveGrab;
use pocowm::grabs::resize_grab::{handle_commit, ResizeGrab, ResizeState};
use pocowm::layout::{Id, Layout, LayoutType};
use pocowm::solver::solve;
use pocowm::window::Window;

fn rect(x: i32, y: i32, w: i32, h: i32) -> Rect {
    Rect { loc: Point { x, y }, size: Size { w, h } }
}

fn point(x: i32, y: i32) -> Point {
    Point { x, y }
}

fn make_floating(l: &mut Layout, id: Id) {
    let mut st = l.get_window(id).unwrap().state;
    st.floating = true;
    l.set_window_state(id, st);
}

#[test]
fn moving_a_floating_window_translates_its_rect() {
    let mut l = Layout::new();
    let f = l.insert_window(Id(0), Window::new(7)).unwrap();
    make_floating(&mut l, f);
    l.set_floating_rect(f, rect(50, 60, 200, 100));
    let children_before = l.root().children.clone();

    let mut grab = MoveGrab::begin(7, point(50, 60), point(500, 500));
    // drag by (30, -10)
    let target = grab.motion(&mut l, point(530, 490));
    assert_eq!(target, point(80, 50));
    let fr = l.get_window(f).unwrap().floating_rect.unwrap();
    assert_eq!(fr, rect(80, 50, 200, 100));
    // the tree structure is untouched
    assert_eq!(l.root().children, children_before);
    assert_eq!(l.get_parent(f), Some(Id(0)));
    // releasing a floating window changes nothing further
    grab.unset(&mut l, &vec![]);
    assert_eq!(l.get_window(f).unwrap().floating_rect.unwrap(), rect(80, 50, 200, 100));
    assert_eq!(l.root().children, children_before);
}

#[test]
fn moving_a_tiled_window_only_tracks_the_preview() {
    let mut l = Layout::new();
    let a = l.insert_window(Id(0), Window::new(7)).unwrap();
    let mut grab = MoveGrab::begin(7, point(0, 0), point(10, 10));
    let target = grab.motion(&mut l, point(25, 4));
    assert_eq!(target, point(15, -6));
    assert_eq!(grab.new_location, point(15, -6));
    assert_eq!(grab.pointer_location, point(25, 4));
    // a tiled window's stored state does not move during the drag
    assert_eq!(l.get_window(a).unwrap().floating_rect, None);
}

#[test]
fn dropping_a_tiled_window_splits_its_target() {
    // A sits in a vertical wrap, B tiles beside it; B dropped on A's lower
    // half becomes A's sibling below it.
    let mut l = Layout::new();
    let a0 = l.insert_window(Id(0), Window::new(1)).unwrap();
    l.switch_to_layout(Some(a0), LayoutType::Vertical).unwrap();
    let container = Id(2);
    let a = Id(3);
    let b = l.insert_window(Id(0), Window::new(2)).unwrap();
    let placements = solve(&l, rect(0, 0, 1000, 1000));

    let mut grab = MoveGrab::begin(2, point(510, 0), point(600, 100));
    grab.motion(&mut l, point(200, 800)); // ends over A's bottom half
    grab.unset(&mut l, &placements);

    // B's old leaf is gone; a fresh leaf carries its window below A
    assert!(l.get_element(b).is_none());
    let new_b = l.find_surface(2).unwrap();
    assert_eq!(l.get_sublayout(container).unwrap().children, vec![a, new_b]);
    assert_eq!(l.root().children, vec![container]);

    let r = solve(&l, rect(0, 0, 1000, 1000));
    assert_eq!(r.len(), 2);
    assert_eq!(r[0].id, a);
    assert_eq!(r[0].rect, rect(0, 0, 1000, 490));
    assert_eq!(r[1].id, new_b);
    assert_eq!(r[1].rect, rect(0, 510, 1000, 490));
}

#[test]
fn dropping_over_empty_space_changes_nothing() {
    let mut l = Layout::new();
    let a = l.insert_window(Id(0), Window::new(1)).unwrap();
    let b = l.insert_window(Id(0), Window::new(2)).unwrap();
    let placements = solve(&l, rect(0, 0, 1000, 1000));
    let mut grab = MoveGrab::begin(2, point(510, 0), point(600, 100));
    grab.motion(&mut l, point(5000, 5000)); // nowhere near another window
    grab.unset(&mut l, &placements);
    assert_eq!(l.root().children, vec![a, b]);
}

#[test]
fn resize_clamps_to_the_minimum_size() {
    // dragging the right edge left would shrink to 50: the client minimum
    // of 100 wins
    let mut grab = ResizeGrab {
        surface: 7,
        edges: Edge::right(),
        start_location: point(0, 0),
        initial_rect: rect(0, 0, 80, 80),
        last_window_size: Size { w: 80, h: 80 },
    };
    let size = grab.motion(point(-30, 0), Size { w: 100, h: 100 }, Size { w: 0, h: 0 });
    assert_eq!(size, Size { w: 100, h: 100 });
    assert_eq!(grab.last_window_size, size);
}

#[test]
fn resize_grows_against_left_and_top_edges() {
    let mut grab = ResizeGrab {
        surface: 7,
        edges: Edge::left().union(Edge::top()),
        start_location: point(200, 200),
        initial_rect: rect(100, 100, 300, 250),
        last_window_size: Size { w: 300, h: 250 },
    };
    // moving the pointer up-left grows both axes
    let size = grab.motion(point(170, 160), Size { w: 1, h: 1 }, Size { w: 0, h: 0 });
    assert_eq!(size, Size { w: 330, h: 290 });
    // the maximum caps growth
    let size = grab.motion(point(100, 100), Size { w: 1, h: 1 }, Size { w: 320, h: 0 });
    assert_eq!(size, Size { w: 320, h: 350 });
}

#[test]
fn resize_ignores_motion_off_the_active_edges() {
    let mut grab = ResizeGrab {
        surface: 7,
        edges: Edge::bottom(),
        start_location: point(0, 0),
        initial_rect: rect(0, 0, 200, 150),
        last_window_size: Size { w: 200, h: 150 },
    };
    let size = grab.motion(point(500, 30), Size { w: 1, h: 1 }, Size { w: 0, h: 0 });
    assert_eq!(size, Size { w: 200, h: 180 });
}

#[test]
fn resize_begins_only_on_floating_windows() {
    let mut l = Layout::new();
    let a = l.insert_window(Id(0), Window::new(7)).unwrap();
    let mut state = ResizeState::Idle;
    assert!(ResizeGrab::begin(&l, 7, point(0, 0), Edge::right(), rect(0, 0, 10, 10), &mut state)
        .is_none());
    assert_eq!(state, ResizeState::Idle);
    make_floating(&mut l, a);
    let grab = ResizeGrab::begin(&l, 7, point(3, 4), Edge::right(), rect(1, 2, 30, 40), &mut state)
        .unwrap();
    assert_eq!(
        state,
        ResizeState::Resizing { edges: Edge::right(), initial_rect: rect(1, 2, 30, 40) }
    );
    assert_eq!(grab.last_window_size, Size { w: 30, h: 40 });
}

#[test]
fn release_stores_the_size_and_waits_for_the_last_commit() {
    let mut l = Layout::new();
    let f = l.insert_window(Id(0), Window::new(7)).unwrap();
    make_floating(&mut l, f);
    l.set_floating_rect(f, rect(10, 20, 100, 100));
    let grab = ResizeGrab {
        surface: 7,
        edges: Edge::left(),
        start_location: point(0, 0),
        initial_rect: rect(10, 20, 100, 100),
        last_window_size: Size { w: 140, h: 100 },
    };
    let mut state = ResizeState::Resizing {
        edges: Edge::left(),
        initial_rect: rect(10, 20, 100, 100),
    };
    grab.unset(&mut l, &mut state);
    assert_eq!(
        state,
        ResizeState::WaitingForLastCommit {
            edges: Edge::left(),
            initial_rect: rect(10, 20, 100, 100),
        }
    );
    assert_eq!(l.get_window(f).unwrap().floating_rect.unwrap(), rect(10, 20, 140, 100));
}

#[test]
fn commit_steps_the_state_machine() {
    let mut state = ResizeState::Idle;
    assert_eq!(state.commit(), None);
    assert_eq!(state, ResizeState::Idle);
    state = ResizeState::Resizing { edges: Edge::top(), initial_rect: rect(0, 0, 5, 5) };
    assert_eq!(state.commit(), Some((Edge::top(), rect(0, 0, 5, 5))));
    assert!(matches!(state, ResizeState::Resizing { .. }));
    state = ResizeState::WaitingForLastCommit { edges: Edge::top(), initial_rect: rect(0, 0, 5, 5) };
    assert_eq!(state.commit(), Some((Edge::top(), rect(0, 0, 5, 5))));
    assert_eq!(state, ResizeState::Idle);
}

#[test]
fn commit_repositions_top_left_anchored_resizes() {
    let mut l = Layout::new();
    let f = l.insert_window(Id(0), Window::new(9)).unwrap();
    make_floating(&mut l, f);
    l.set_floating_rect(f, rect(100, 100, 200, 150));
    let mut state = ResizeState::WaitingForLastCommit {
        edges: Edge::top().union(Edge::left()),
        initial_rect: rect(100, 100, 200, 150),
    };
    // the client committed 180 x 140: the origin moves right and down so the
    // bottom-right corner stays at (300, 250)
    let moved = handle_commit(&mut l, &mut state, 9, point(100, 100), Size { w: 180, h: 140 });
    assert_eq!(moved, Some(point(120, 110)));
    assert_eq!(state, ResizeState::Idle);
    let fr = l.get_window(f).unwrap().floating_rect.unwrap();
    assert_eq!(fr.loc, point(120, 110));
}

#[test]
fn commit_leaves_bottom_right_resizes_in_place() {
    let mut l = Layout::new();
    let f = l.insert_window(Id(0), Window::new(9)).unwrap();
    make_floating(&mut l, f);
    l.set_floating_rect(f, rect(100, 100, 200, 150));
    let mut state = ResizeState::WaitingForLastCommit {
        edges: Edge::bottom().union(Edge::right()),
        initial_rect: rect(100, 100, 200, 150),
    };
    let moved = handle_commit(&mut l, &mut state, 9, point(100, 100), Size { w: 180, h: 140 });
    assert_eq!(moved, None);
    assert_eq!(l.get_window(f).unwrap().floating_rect.unwrap(), rect(100, 100, 200, 150));
}

#[test]
fn commit_for_a_tiled_window_is_ignored() {
    let mut l = Layout::new();
    l.insert_window(Id(0), Window::new(9)).unwrap();
    let mut state = ResizeState::WaitingForLastCommit {
        edges: Edge::top(),
        initial_rect: rect(0, 0, 10, 10),
    };
    let moved = handle_commit(&mut l, &mut state, 9, point(0, 0), Size { w: 5, h: 5 });
    assert_eq!(moved, None);
    assert!(matches!(state, ResizeState::WaitingForLastCommit { .. }));
}

#[test]
fn a_window_destroyed_mid_gesture_makes_the_grab_a_no_op() {
    let mut l = Layout::new();
    let a = l.insert_window(Id(0), Window::new(1)).unwrap();
    let doomed = l.insert_window(Id(0), Window::new(2)).unwrap();
    let placements = solve(&l, rect(0, 0, 1000, 1000));
    let mut grab = MoveGrab::begin(2, point(510, 0), point(600, 100));
    l.remove_element(doomed).unwrap();
    // every later callback degrades silently to no layout change
    grab.motion(&mut l, point(100, 500));
    grab.unset(&mut l, &placements);
    assert_eq!(l.root().children, vec![a]);
    assert!(l.find_surface(2).is_none());
}
