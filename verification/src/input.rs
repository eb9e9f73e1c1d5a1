//! Input decisions: what one key press or pointer button means.
//!
//! The compositor decodes devices and delivers plain values: key symbols,
//! button codes, pointer positions; these functions decide what the manager
//! does with them, and the caller performs the chosen action.

use crate::decorations::{spec_get_button, get_button, Button, DECORATIONS_HEIGHT};
use crate::edge::Edge;
use crate::geometry::{Point, Size};
use crate::window::{get_edge_under, spec_get_edge_under};
use vstd::prelude::*;

verus! {

/// Keyboard modifiers held during a key event.
#[derive(Clone, Copy, Debug, PartialEq, Eq, Structural)]
pub struct KeyModifiers {
    pub ctrl: bool,
    pub shift: bool,
    pub alt: bool,
    pub logo: bool,
}

/// Key symbol of the Return key.
pub const KEY_RETURN: u32 = 0xff0d;

/// Key symbol of the letter `e`.
pub const KEY_E: u32 = 0x65;

/// Key symbol of the letter `b`.
pub const KEY_B: u32 = 0x62;

/// Key symbol of the letter `n`.
pub const KEY_N: u32 = 0x6e;

/// Key symbol of the letter `f`.
pub const KEY_F: u32 = 0x66;

/// What a key press asks the manager to do.
#[derive(Clone, Copy, Debug, PartialEq, Eq, Structural)]
pub enum KeyAction {
    /// Not a binding: hand the key to the focused client.
    Forward,
    /// Launch the terminal.
    SpawnTerminal,
    /// Flip the focused container between horizontal and vertical.
    ToggleOrientation,
    /// Wrap the focused window in a vertical split.
    SwitchToVertical,
    /// Wrap the focused window in a horizontal split.
    SwitchToHorizontal,
    /// Flip the focused window between tiled and floating.
    ToggleFloating,
}

pub open spec fn spec_keybinding(pressed: bool, modifiers: KeyModifiers, sym: u32) -> KeyAction {
    if !pressed || !modifiers.alt {
        KeyAction::Forward
    } else if sym == KEY_RETURN {
        KeyAction::SpawnTerminal
    } else if sym == KEY_E {
        KeyAction::ToggleOrientation
    } else if sym == KEY_B {
        KeyAction::SwitchToVertical
    } else if sym == KEY_N {
        KeyAction::SwitchToHorizontal
    } else if sym == KEY_F {
        KeyAction::ToggleFloating
    } else {
        KeyAction::Forward
    }
}

/// The binding a key event matches: only presses with the alt modifier are
/// bindings; everything else goes to the client.
pub fn keybinding(pressed: bool, modifiers: KeyModifiers, sym: u32) -> (r: KeyAction)
    ensures
        r == spec_keybinding(pressed, modifiers, sym),
{
    if !pressed || !modifiers.alt {
        KeyAction::Forward
    } else if sym == KEY_RETURN {
        KeyAction::SpawnTerminal
    } else if sym == KEY_E {
        KeyAction::ToggleOrientation
    } else if sym == KEY_B {
        KeyAction::SwitchToVertical
    } else if sym == KEY_N {
        KeyAction::SwitchToHorizontal
    } else if sym == KEY_F {
        KeyAction::ToggleFloating
    } else {
        KeyAction::Forward
    }
}

/// Button code of the left pointer button.
pub const BTN_LEFT: u32 = 0x110;

/// Button code of the right pointer button.
pub const BTN_RIGHT: u32 = 0x111;

/// What a pointer button event on a window asks the manager to do.
#[derive(Clone, Copy, Debug, PartialEq, Eq, Structural)]
pub enum ButtonAction {
    /// Hand the event to the client surface.
    Forward,
    /// Consume the event without acting.
    Ignore,
    /// Start an interactive move of the window.
    BeginMove,
    /// Start an interactive resize on these edges.
    BeginResize(Edge),
    /// Ask the client to close.
    CloseWindow,
    /// Maximize the window.
    Maximize,
    /// Restore the window from maximized.
    Unmaximize,
    /// Minimize the window.
    Minimize,
}

pub open spec fn spec_button_action(
    loc: Point,
    size: Size,
    alt: bool,
    button: u32,
    pressed: bool,
    has_decorations: bool,
    is_maximized: bool,
) -> ButtonAction {
    if pressed && alt {
        if button == BTN_LEFT {
            ButtonAction::BeginMove
        } else if button == BTN_RIGHT {
            ButtonAction::BeginResize(spec_get_edge_under(size, loc))
        } else {
            ButtonAction::Ignore
        }
    } else if pressed && (loc.x < 0 || loc.y < 0 || loc.x > size.w || loc.y > size.h) {
        ButtonAction::BeginResize(
            Edge { top: loc.y < 0, bottom: loc.y > size.h, left: loc.x < 0, right: loc.x > size.w },
        )
    } else if has_decorations && loc.y < DECORATIONS_HEIGHT {
        match spec_get_button(loc) {
            Some(Button::Close) => if pressed {
                ButtonAction::CloseWindow
            } else {
                ButtonAction::Ignore
            },
            Some(Button::Maximize) => if !pressed {
                ButtonAction::Ignore
            } else if is_maximized {
                ButtonAction::Unmaximize
            } else {
                ButtonAction::Maximize
            },
            Some(Button::Minimize) => if pressed {
                ButtonAction::Minimize
            } else {
                ButtonAction::Ignore
            },
            None => ButtonAction::BeginMove,
        }
    } else {
        ButtonAction::Forward
    }
}

/// What a pointer button does on a window: with alt held, the left button
/// moves and the right one resizes on the half the pointer is in; a press
/// outside the window's geometry resizes on the touched border edges; a
/// press in the decoration bar works its buttons or starts a move; anything
/// else is the client's. `loc` is relative to the window's geometry origin.
pub fn button_action(
    loc: Point,
    size: Size,
    alt: bool,
    button: u32,
    pressed: bool,
    has_decorations: bool,
    is_maximized: bool,
) -> (r: ButtonAction)
    ensures
        r == spec_button_action(loc, size, alt, button, pressed, has_decorations, is_maximized),
{
    if pressed && alt {
        if button == BTN_LEFT {
            ButtonAction::BeginMove
        } else if button == BTN_RIGHT {
            ButtonAction::BeginResize(get_edge_under(size, loc))
        } else {
            ButtonAction::Ignore
        }
    } else if pressed && (loc.x < 0 || loc.y < 0 || loc.x > size.w || loc.y > size.h) {
        ButtonAction::BeginResize(
            Edge { top: loc.y < 0, bottom: loc.y > size.h, left: loc.x < 0, right: loc.x > size.w },
        )
    } else if has_decorations && loc.y < DECORATIONS_HEIGHT as i32 {
        match get_button(loc) {
            Some(Button::Close) => if pressed {
                ButtonAction::CloseWindow
            } else {
                ButtonAction::Ignore
            },
            Some(Button::Maximize) => if !pressed {
                ButtonAction::Ignore
            } else if is_maximized {
                ButtonAction::Unmaximize
            } else {
                ButtonAction::Maximize
            },
            Some(Button::Minimize) => if pressed {
                ButtonAction::Minimize
            } else {
                ButtonAction::Ignore
            },
            None => ButtonAction::BeginMove,
        }
    } else {
        ButtonAction::Forward
    }
}

} // verus!
