//! The compositor: workspaces, layouts, outputs and everything that acts on
//! them.

pub mod actions;
pub mod animation;
pub mod answers;
pub mod arrange;
pub mod borders;
pub mod capture;
pub mod comings;
pub mod config;
pub mod cursor;
pub mod desk;
pub mod dispatch;
pub mod environment;
pub mod frame;
pub mod input;
pub mod keys;
pub mod laws;
pub mod layout;
pub mod lifecycle;
pub mod monitors;
pub mod motion;
pub mod outputs;
pub mod overlay;
pub mod picture;
pub mod places;
pub mod requests;
pub mod setup;
pub mod stage;
pub mod state;
pub mod wallpaper;
pub mod windows;
pub mod workspace;
