//! The launcher and the theme picker.

pub mod beautify_ipc;
pub mod desktop;
pub mod filter;
pub mod launcher;
pub mod picker;
pub mod thumb;
