//! The bar.

pub mod context;
pub mod layout;
pub mod module;
pub mod status;
