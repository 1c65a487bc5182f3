//! Layout management for terminal panes using a binary tree structure.

pub mod rects;
pub mod tree;
pub mod laws;

pub use rects::{draw_border, fill_rect, overlap_1d, PaneId, Rect, SplitDir};
