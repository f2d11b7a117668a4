//! What the bar shows of the workspaces.

use vstd::prelude::*;

verus! {

/// What the bar of one output shows of the workspaces.
#[derive(Debug)]
pub struct WorkspaceContext {
    pub current_ws: usize,
    pub occupied_workspaces: [bool; 9],
    pub focused_title: String,
    pub monitor_id: usize,
    pub sync_enabled: bool,
    pub is_focused_monitor: bool,
}

} // verus!
