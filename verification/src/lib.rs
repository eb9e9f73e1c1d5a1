//! Policy core of a tiling window manager.
//!
//! The crate owns the layout tree (an arena of split containers and window
//! leaves), the geometry solver that turns the tree into per-window
//! rectangles, the focus model, and the state machines for interactive move
//! and resize gestures. The surrounding compositor runtime is a collaborator:
//! it feeds plain values (surface handles, pointer positions, committed
//! sizes) into these functions and carries the returned commands back to the
//! clients.

pub mod borders;
pub mod decorations;
pub mod edge;
pub mod focus;
pub mod geometry;
pub mod grabs;
pub mod input;
pub mod layout;
pub mod solver;
pub mod window;
