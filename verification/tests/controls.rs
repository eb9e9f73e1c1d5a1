use pocowm::borders::{border_rects, get_edge, BORDER_SIZE};
use pocowm::decorations::{decoration_rects, get_button, Button, DECORATIONS_HEIGHT};
use pocowm::edge::Edge;
use pocowm::geometry::{Point, Rect, Size};
use pocowm::input::{
    button_action, keybinding, ButtonAction, KeyAction, KeyModifiers, BTN_LEFT, BTN_RIGHT, KEY_B,
    KEY_E, KEY_F, KEY_N, KEY_RETURN,
};
use pocowm::window::{configure_size, default_floating_rect, get_edge_under, Window, WindowState};

fn point(x: i32, y: i32) -> Point {
    Point { x, y }
}

fn size(w: i32, h: i32) -> Size {
    Size { w, h }
}

fn alt() -> KeyModifiers {
    KeyModifiers { ctrl: false, shift: false, alt: true, logo: false }
}

#[test]
fn edge_sets_behave_like_sets() {
    let tl = Edge::top().union(Edge::left());
    assert!(tl.top && tl.left && !tl.bottom && !tl.right);
    assert!(tl.intersects(Edge::left()));
    assert!(!tl.intersects(Edge::bottom()));
    assert_eq!(tl.intersection(Edge::left()), Edge::left());
    assert_eq!(tl.get_vertical(), Edge::top());
    assert_eq!(tl.get_horizontal(), Edge::left());
    assert!(tl.is_vertical() && tl.is_horizontal());
    assert!(Edge::empty().is_empty());
    assert!(!Edge::bottom().is_horizontal());
    assert!(Edge::bottom().is_vertical());
}

#[test]
fn edge_under_picks_the_half_the_point_is_in() {
    let s = size(100, 80);
    assert_eq!(get_edge_under(s, point(10, 10)), Edge::top().union(Edge::left()));
    assert_eq!(get_edge_under(s, point(90, 70)), Edge::bottom().union(Edge::right()));
    assert_eq!(get_edge_under(s, point(10, 70)), Edge::bottom().union(Edge::left()));
    // the exact midpoint activates nothing on either axis
    assert_eq!(get_edge_under(s, point(50, 40)), Edge::empty());
}

#[test]
fn border_edges_need_a_point_outside_the_window() {
    let s = size(100, 80);
    assert_eq!(get_edge(s, point(-1, 40)), Edge::left());
    assert_eq!(get_edge(s, point(101, 81)), Edge::right().union(Edge::bottom()));
    assert_eq!(get_edge(s, point(50, 40)), Edge::empty());
}

#[test]
fn border_strips_surround_the_window() {
    let (top, bottom, left, right) = border_rects(size(100, 80));
    let b = BORDER_SIZE as i32;
    assert_eq!(top, Rect { loc: point(-b, -b), size: size(100 + 2 * b, b) });
    assert_eq!(bottom, Rect { loc: point(-b, 80), size: size(100 + 2 * b, b) });
    assert_eq!(left, Rect { loc: point(-b, -b), size: size(b, 80 + 2 * b) });
    assert_eq!(right, Rect { loc: point(100, -b), size: size(b, 80 + 2 * b) });
}

#[test]
fn decoration_buttons_sit_left_to_right() {
    assert_eq!(DECORATIONS_HEIGHT, 24);
    // inside the gap margin: nothing
    assert_eq!(get_button(point(2, 10)), None);
    assert_eq!(get_button(point(10, 2)), None);
    assert_eq!(get_button(point(10, 10)), Some(Button::Close));
    assert_eq!(get_button(point(25, 10)), Some(Button::Maximize));
    assert_eq!(get_button(point(45, 10)), Some(Button::Minimize));
    assert_eq!(get_button(point(70, 10)), None);
    let (background, close, maximize, minimize) = decoration_rects(300);
    assert_eq!(background, Rect { loc: point(0, 0), size: size(300, 24) });
    assert_eq!(close, Rect { loc: point(4, 4), size: size(16, 16) });
    assert_eq!(maximize, Rect { loc: point(24, 4), size: size(16, 16) });
    assert_eq!(minimize, Rect { loc: point(44, 4), size: size(16, 16) });
}

#[test]
fn keybindings_need_alt_and_a_press() {
    assert_eq!(keybinding(true, alt(), KEY_RETURN), KeyAction::SpawnTerminal);
    assert_eq!(keybinding(true, alt(), KEY_E), KeyAction::ToggleOrientation);
    assert_eq!(keybinding(true, alt(), KEY_B), KeyAction::SwitchToVertical);
    assert_eq!(keybinding(true, alt(), KEY_N), KeyAction::SwitchToHorizontal);
    assert_eq!(keybinding(true, alt(), KEY_F), KeyAction::ToggleFloating);
    assert_eq!(keybinding(true, alt(), 0x61), KeyAction::Forward);
    assert_eq!(keybinding(false, alt(), KEY_F), KeyAction::Forward);
    let plain = KeyModifiers { ctrl: false, shift: false, alt: false, logo: false };
    assert_eq!(keybinding(true, plain, KEY_F), KeyAction::Forward);
}

#[test]
fn alt_clicks_move_and_resize() {
    let s = size(400, 300);
    assert_eq!(
        button_action(point(50, 50), s, true, BTN_LEFT, true, true, false),
        ButtonAction::BeginMove
    );
    assert_eq!(
        button_action(point(350, 250), s, true, BTN_RIGHT, true, true, false),
        ButtonAction::BeginResize(Edge::bottom().union(Edge::right()))
    );
    assert_eq!(
        button_action(point(50, 50), s, true, 0x112, true, true, false),
        ButtonAction::Ignore
    );
}

#[test]
fn presses_outside_the_geometry_resize_on_the_border() {
    let s = size(400, 300);
    assert_eq!(
        button_action(point(-3, 100), s, false, BTN_LEFT, true, false, false),
        ButtonAction::BeginResize(Edge::left())
    );
    assert_eq!(
        button_action(point(401, 301), s, false, BTN_LEFT, true, false, false),
        ButtonAction::BeginResize(Edge::bottom().union(Edge::right()))
    );
}

#[test]
fn decoration_clicks_work_the_buttons() {
    let s = size(400, 300);
    assert_eq!(
        button_action(point(10, 10), s, false, BTN_LEFT, true, true, false),
        ButtonAction::CloseWindow
    );
    assert_eq!(
        button_action(point(25, 10), s, false, BTN_LEFT, true, true, false),
        ButtonAction::Maximize
    );
    assert_eq!(
        button_action(point(25, 10), s, false, BTN_LEFT, true, true, true),
        ButtonAction::Unmaximize
    );
    assert_eq!(
        button_action(point(45, 10), s, false, BTN_LEFT, true, true, false),
        ButtonAction::Minimize
    );
    // a release on a button is consumed without acting
    assert_eq!(
        button_action(point(10, 10), s, false, BTN_LEFT, false, true, false),
        ButtonAction::Ignore
    );
    // the bar outside any button starts a move
    assert_eq!(
        button_action(point(100, 10), s, false, BTN_LEFT, true, true, false),
        ButtonAction::BeginMove
    );
    // below the bar the client gets the event
    assert_eq!(
        button_action(point(100, 100), s, false, BTN_LEFT, true, true, false),
        ButtonAction::Forward
    );
    // without decorations everything inside is the client's
    assert_eq!(
        button_action(point(100, 10), s, false, BTN_LEFT, true, false, false),
        ButtonAction::Forward
    );
}

#[test]
fn window_state_flags_drive_tiling() {
    let mut st = WindowState::empty();
    assert!(st.tileable());
    st.floating = true;
    assert!(!st.tileable());
    st.toggle_floating();
    assert!(st.tileable());
    st.maximized = true;
    assert!(!st.tileable());
    let mut st = WindowState::empty();
    st.minimized = true;
    assert!(!st.tileable());
    // fullscreen alone still tiles
    let mut st = WindowState::empty();
    st.fullscreen = true;
    assert!(st.tileable());
    assert_eq!(WindowState::floating_only(), WindowState {
        floating: true,
        maximized: false,
        minimized: false,
        fullscreen: false
    });
}

#[test]
fn configure_size_reserves_the_decoration_bar() {
    assert_eq!(configure_size(size(300, 200), false), size(300, 200));
    assert_eq!(configure_size(size(300, 200), true), size(300, 176));
}

#[test]
fn fresh_floating_rects_take_the_quarter_screen() {
    let output = Rect { loc: point(0, 0), size: size(1200, 800) };
    assert_eq!(
        default_floating_rect(output),
        Rect { loc: point(300, 200), size: size(600, 400) }
    );
    let mut w = Window::new(1);
    assert_eq!(w.floating_rect, None);
    let first = w.floating_rect_or_default(output);
    assert_eq!(first, Rect { loc: point(300, 200), size: size(600, 400) });
    // once set it is remembered
    w.floating_rect = Some(Rect { loc: point(5, 6), size: size(7, 8) });
    let kept = w.floating_rect_or_default(output);
    assert_eq!(kept, Rect { loc: point(5, 6), size: size(7, 8) });
}
