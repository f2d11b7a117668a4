//! The screenshot tool.

pub mod capture;
pub mod overlay;
pub mod selection;
pub mod session;
