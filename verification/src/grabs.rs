pub mod move_grab;
pub mod resize_grab;
