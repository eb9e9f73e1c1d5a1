use pocowm::geometry::{Point, Rect, Size};
use pocowm::layout::{Id, Layout, LayoutType};
use pocowm::solver::{render, solve, Placement, GAP};
use pocowm::window::Window;

fn rect(x: i32, y: i32, w: i32, h: i32) -> Rect {
    Rect { loc: Point { x, y }, size: Size { w, h } }
}

#[test]
fn gap_constant_is_twenty_pixels() {
    assert_eq!(GAP, 20);
}

#[test]
fn horizontal_partition_shares_the_width() {
    let mut l = Layout::new();
    let a = l.insert_window(Id(0), Window::new(1)).unwrap();
    let b = l.insert_window(Id(0), Window::new(2)).unwrap();
    let c = l.insert_window(Id(0), Window::new(3)).unwrap();
    let r = solve(&l, rect(0, 0, 1000, 600));
    // (1000 - 2 gaps) / 3 = 320 each, one gap apart
    assert_eq!(
        r,
        vec![
            Placement { id: a, rect: rect(0, 0, 320, 600) },
            Placement { id: b, rect: rect(340, 0, 320, 600) },
            Placement { id: c, rect: rect(680, 0, 320, 600) },
        ]
    );
    // widths plus gaps cover the target width exactly here
    assert_eq!(3 * 320 + 2 * GAP, 1000);
}

#[test]
fn partition_rounds_down_within_one_pixel_per_child() {
    let mut l = Layout::new();
    for s in 1..=3u64 {
        l.insert_window(Id(0), Window::new(s)).unwrap();
    }
    let r = solve(&l, rect(0, 0, 998, 100));
    // (998 - 40) / 3 = 319, so 3*319 + 40 = 997: short of 998 by under 3px
    let sum: i32 = r.iter().map(|p| p.rect.size.w).sum::<i32>() + 2 * GAP;
    assert!(sum <= 998 && 998 - sum < 3);
    for p in &r {
        assert_eq!(p.rect.size.w, 319);
    }
}

#[test]
fn vertical_partition_shares_the_height() {
    let mut l = Layout::new();
    let a = l.insert_window(Id(0), Window::new(1)).unwrap();
    let b = l.insert_window(Id(0), Window::new(2)).unwrap();
    l.switch_to_layout(None, LayoutType::Vertical).unwrap();
    let r = solve(&l, rect(0, 0, 800, 1000));
    assert_eq!(
        r,
        vec![
            Placement { id: a, rect: rect(0, 0, 800, 490) },
            Placement { id: b, rect: rect(0, 510, 800, 490) },
        ]
    );
}

#[test]
fn tabbed_children_all_take_the_full_rect() {
    let mut l = Layout::new();
    let a = l.insert_window(Id(0), Window::new(1)).unwrap();
    let b = l.insert_window(Id(0), Window::new(2)).unwrap();
    l.switch_to_layout(None, LayoutType::Tabbed).unwrap();
    let r = solve(&l, rect(5, 7, 300, 200));
    assert_eq!(
        r,
        vec![
            Placement { id: a, rect: rect(5, 7, 300, 200) },
            Placement { id: b, rect: rect(5, 7, 300, 200) },
        ]
    );
}

#[test]
fn solving_twice_is_bit_identical() {
    let mut l = Layout::new();
    let b0 = l.insert_window(Id(0), Window::new(1)).unwrap();
    l.insert_window(Id(0), Window::new(2)).unwrap();
    l.switch_to_layout(Some(b0), LayoutType::Vertical).unwrap();
    l.insert_window(Id(4), Window::new(3)).unwrap();
    let target = rect(-35, 12, 1021, 777);
    let first = solve(&l, target);
    let second = solve(&l, target);
    assert_eq!(first, second);
}

#[test]
fn split_insertion_scenario() {
    // empty root, insert A, wrap A in a vertical split, drop B below A
    let mut l = Layout::new();
    let a0 = l.insert_window(Id(0), Window::new(1)).unwrap();
    l.switch_to_layout(Some(a0), LayoutType::Vertical).unwrap();
    let a = Id(3); // the wrapped leaf is re-created under a fresh id
    let b = l.insert_element_at(
        a,
        pocowm::edge::Edge::bottom(),
        pocowm::layout::LayoutElement::Window(pocowm::layout::Window {
            id: Id(0),
            parent: Id(0),
            inner: Window::new(2),
        }),
    ).unwrap();
    let r = solve(&l, rect(0, 0, 1000, 1000));
    assert_eq!(
        r,
        vec![
            Placement { id: a, rect: rect(0, 0, 1000, 490) },
            Placement { id: b, rect: rect(0, 510, 1000, 490) },
        ]
    );
}

#[test]
fn floating_windows_are_skipped_by_tiling() {
    let mut l = Layout::new();
    let a = l.insert_window(Id(0), Window::new(1)).unwrap();
    let f = l.insert_window(Id(0), Window::new(2)).unwrap();
    let mut st = l.get_window(f).unwrap().state;
    st.floating = true;
    l.set_window_state(f, st);
    let r = solve(&l, rect(0, 0, 1000, 600));
    // the one tiled window takes the whole rect
    assert_eq!(r, vec![Placement { id: a, rect: rect(0, 0, 1000, 600) }]);
}

#[test]
fn render_insets_by_the_gap_and_places_flagged_windows() {
    let mut l = Layout::new();
    let a = l.insert_window(Id(0), Window::new(1)).unwrap();
    let m = l.insert_window(Id(0), Window::new(2)).unwrap();
    let f = l.insert_window(Id(0), Window::new(3)).unwrap();
    let hidden = l.insert_window(Id(0), Window::new(4)).unwrap();
    let mut st = l.get_window(m).unwrap().state;
    st.maximized = true;
    l.set_window_state(m, st);
    let mut st = l.get_window(f).unwrap().state;
    st.floating = true;
    l.set_window_state(f, st);
    l.set_floating_rect(f, rect(70, 80, 300, 200));
    let mut st = l.get_window(hidden).unwrap().state;
    st.minimized = true;
    l.set_window_state(hidden, st);

    let output = rect(0, 0, 1000, 1000);
    let plan = render(&l, output);
    assert_eq!(
        plan.placements,
        vec![
            // the only tiled window fills the gap-inset working area
            Placement { id: a, rect: rect(20, 20, 960, 960) },
            // maximized: the full output
            Placement { id: m, rect: output },
            // floating: its remembered rectangle
            Placement { id: f, rect: rect(70, 80, 300, 200) },
        ]
    );
    assert_eq!(plan.unmapped, vec![hidden]);
}

#[test]
fn render_defaults_a_floating_rect_to_the_quarter_screen() {
    let mut l = Layout::new();
    let f = l.insert_window(Id(0), Window::new(1)).unwrap();
    let mut st = l.get_window(f).unwrap().state;
    st.floating = true;
    l.set_window_state(f, st);
    let plan = render(&l, rect(0, 0, 1200, 800));
    assert_eq!(plan.placements, vec![Placement { id: f, rect: rect(300, 200, 600, 400) }]);
}

#[test]
fn degenerate_spans_collapse_to_zero_slices() {
    let mut l = Layout::new();
    let a = l.insert_window(Id(0), Window::new(1)).unwrap();
    let b = l.insert_window(Id(0), Window::new(2)).unwrap();
    // 10px is narrower than the single gap: both slices are empty at x=0
    let r = solve(&l, rect(0, 0, 10, 100));
    assert_eq!(
        r,
        vec![
            Placement { id: a, rect: rect(0, 0, 0, 100) },
            Placement { id: b, rect: rect(0, 0, 0, 100) },
        ]
    );
}
