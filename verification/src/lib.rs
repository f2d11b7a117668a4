//! The verified core of the Kara desktop: window management, the bar, the
//! launcher, screenshots and the wire protocol, as functions on plain values.

pub mod gate;
pub mod geometry;
pub mod glimpse;
pub mod ipc;
pub mod pixels;
pub mod ratio;
pub mod scan;
pub mod sight;
pub mod summon;
pub mod text;
pub mod waiting;
