//! The state of the compositor and what follows from it: which workspace an
//! output shows, where the windows go and which of them has the focus.

use vstd::prelude::*;

use crate::gate::actions::Keybind;
use crate::gate::animation::{ActiveAnimation, AnimationManager};
use crate::gate::config::Config;
use crate::gate::layout;
use crate::gate::stage;
use crate::gate::stage::{Configure, Placed, Stage, StageView};
use crate::gate::workspace;
use crate::gate::workspace::{WindowId, Workspace, WorkspaceView, WORKSPACE_COUNT};
use crate::geometry;
use crate::geometry::{Rect, Size};
use crate::ratio;
use crate::text;

verus! {

/// What the compositor knows of a window.
#[derive(Debug)]
pub struct WindowInfo {
    pub id: WindowId,
    pub app_id: String,
    pub title: String,
    /// The size of its content, as it last said.
    pub size: Size,
}

/// A floating workspace that is shown and hidden on demand.
#[derive(Debug)]
pub struct ScratchpadState {
    pub config_idx: usize,
    pub workspace: Workspace,
    pub visible: bool,
    pub hiding: bool,
    pub started: bool,
    pub output_idx: usize,
    /// Whether the next new window goes here.
    pub pending_capture: bool,
    /// The commands whose windows have not come yet; the first one runs.
    pub autostart_remaining: Vec<String>,
}

#[verifier::ext_equal]
pub struct ScratchpadView {
    pub config_idx: usize,
    pub workspace: WorkspaceView,
    pub visible: bool,
    pub hiding: bool,
    pub started: bool,
    pub output_idx: usize,
    pub pending_capture: bool,
    pub autostart_remaining: Seq<Seq<char>>,
}

impl View for ScratchpadState {
    type V = ScratchpadView;

    open spec fn view(&self) -> ScratchpadView {
        ScratchpadView {
            config_idx: self.config_idx,
            workspace: self.workspace@,
            visible: self.visible,
            hiding: self.hiding,
            started: self.started,
            output_idx: self.output_idx,
            pending_capture: self.pending_capture,
            autostart_remaining: text::views(self.autostart_remaining@),
        }
    }
}

/// A monitor.
#[derive(Debug)]
pub struct OutputState {
    pub name: String,
    pub current_ws: usize,
    pub size: Size,
    pub workarea: Rect,
    pub x: i32,
    pub y: i32,
    pub fullscreen_window: Option<WindowId>,
}

#[verifier::ext_equal]
pub struct OutputView {
    pub name: Seq<char>,
    pub current_ws: usize,
    pub size: Size,
    pub workarea: Rect,
    pub x: i32,
    pub y: i32,
    pub fullscreen: Option<WindowId>,
}

impl View for OutputState {
    type V = OutputView;

    open spec fn view(&self) -> OutputView {
        OutputView {
            name: self.name@,
            current_ws: self.current_ws,
            size: self.size,
            workarea: self.workarea,
            x: self.x,
            y: self.y,
            fullscreen: self.fullscreen_window,
        }
    }
}

/// Where the next window of an application goes.
#[derive(Debug)]
pub struct Route {
    pub app_id: String,
    pub output: usize,
    pub workspace: usize,
    pub since_ns: u64,
}

#[verifier::ext_equal]
pub struct RouteView {
    pub app_id: Seq<char>,
    pub output: usize,
    pub workspace: usize,
    pub since_ns: u64,
}

impl View for Route {
    type V = RouteView;

    open spec fn view(&self) -> RouteView {
        RouteView {
            app_id: self.app_id@,
            output: self.output,
            workspace: self.workspace,
            since_ns: self.since_ns,
        }
    }
}

/// A window that changes its workspace once its way out is done.
#[derive(Clone, Copy, Debug, PartialEq, Eq, Structural)]
pub struct PendingSend {
    pub window: WindowId,
    pub output: usize,
    pub workspace: usize,
}

/// A screenshot to take with the next frame: of one output, or of the focused
/// one, and of all of it or of a region.
#[derive(Debug)]
pub struct PendingScreenshot {
    pub path: String,
    pub output_idx: Option<usize>,
    pub region: Option<Rect>,
}

#[verifier::ext_equal]
pub struct ScreenshotView {
    pub path: Seq<char>,
    pub output_idx: Option<usize>,
    pub region: Option<Rect>,
}

impl View for PendingScreenshot {
    type V = ScreenshotView;

    open spec fn view(&self) -> ScreenshotView {
        ScreenshotView {
            path: self.path@,
            output_idx: self.output_idx,
            region: self.region,
        }
    }
}

/// The state of the compositor.
#[derive(Debug)]
pub struct Gate {
    pub running: bool,
    pub config: Config,
    pub keybinds: Vec<Keybind>,
    /// The workspaces of every output: `workspaces[output][number]`.
    pub workspaces: Vec<Vec<Workspace>>,
    pub current_ws: usize,
    pub previous_ws: usize,
    pub outputs: Vec<OutputState>,
    /// The outputs in the order of the settings.
    pub output_order: Vec<usize>,
    /// The right and the lower edge of all outputs.
    pub output_bounds: Size,
    pub focused_output: usize,
    pub scratchpads: Vec<ScratchpadState>,
    pub focused_scratchpad: Option<usize>,
    /// Windows that have shown nothing yet.
    pub unmapped_windows: Vec<WindowId>,
    /// Windows of helper programs, which have no place on the screen.
    pub hidden_helpers: Vec<WindowId>,
    pub pending_autostart_routes: Vec<Route>,
    pub autostart_done: bool,
    pub windows: Vec<WindowInfo>,
    pub stage: Stage,
    pub animations: AnimationManager,
    pub pending_sends: Vec<PendingSend>,
    /// The window that gets the key presses.
    pub keyboard_focus: Option<WindowId>,
    /// Whether a layer surface holds the keyboard for itself.
    pub exclusive_layer: bool,
    pub session_locked: bool,
    /// When locking was asked for, until the lock is there.
    pub lock_pending_since: Option<u64>,
    /// The time of the event at hand, in nanoseconds.
    pub now_ns: u64,
    /// When the pointer last moved noticeably.
    pub cursor_last_moved: u64,
    pub screenshot_queue: Vec<PendingScreenshot>,
    pub keybind_overlay_visible: bool,
    /// Whether the settings are to be read again.
    pub reload_requested: bool,
    /// A wallpaper to load.
    pub wallpaper_requested: Option<String>,
    /// The windows to close, in order.
    pub closes: Vec<WindowId>,
    /// The command lines to run, in order.
    pub spawns: Vec<String>,
}

/// The model of the state.
#[verifier::ext_equal]
pub struct GateView {
    pub running: bool,
    pub config: Config,
    pub keybinds: Seq<Keybind>,
    pub workspaces: Seq<Seq<WorkspaceView>>,
    pub current_ws: usize,
    pub previous_ws: usize,
    pub outputs: Seq<OutputView>,
    pub order: Seq<usize>,
    pub bounds: Size,
    pub focused_output: usize,
    pub scratchpads: Seq<ScratchpadView>,
    pub focused_scratchpad: Option<usize>,
    pub unmapped: Seq<WindowId>,
    pub helpers: Seq<WindowId>,
    pub routes: Seq<RouteView>,
    pub autostart_done: bool,
    pub windows: Seq<WindowInfo>,
    pub stage: StageView,
    pub animations: Seq<ActiveAnimation>,
    pub pending_sends: Seq<PendingSend>,
    pub keyboard_focus: Option<WindowId>,
    pub exclusive_layer: bool,
    pub locked: bool,
    pub lock_pending_since: Option<u64>,
    pub now_ns: u64,
    pub cursor_last_moved: u64,
    pub screenshots: Seq<ScreenshotView>,
    pub overlay_visible: bool,
    pub reload_requested: bool,
    pub wallpaper_requested: Option<Seq<char>>,
    pub closes: Seq<WindowId>,
    pub spawns: Seq<Seq<char>>,
}

/// The models of the workspaces of one output.
pub open spec fn pool_view(pool: Seq<Workspace>) -> Seq<WorkspaceView> {
    pool.map_values(|w: Workspace| w@)
}

/// The models of the workspaces of all outputs.
pub open spec fn pools_view(pools: Seq<Vec<Workspace>>) -> Seq<Seq<WorkspaceView>> {
    pools.map_values(|p: Vec<Workspace>| pool_view(p@))
}

impl View for Gate {
    type V = GateView;

    open spec fn view(&self) -> GateView {
        GateView {
            running: self.running,
            config: self.config,
            keybinds: self.keybinds@,
            workspaces: pools_view(self.workspaces@),
            current_ws: self.current_ws,
            previous_ws: self.previous_ws,
            outputs: self.outputs@.map_values(|o: OutputState| o@),
            order: self.output_order@,
            bounds: self.output_bounds,
            focused_output: self.focused_output,
            scratchpads: self.scratchpads@.map_values(|s: ScratchpadState| s@),
            focused_scratchpad: self.focused_scratchpad,
            unmapped: self.unmapped_windows@,
            helpers: self.hidden_helpers@,
            routes: self.pending_autostart_routes@.map_values(|r: Route| r@),
            autostart_done: self.autostart_done,
            windows: self.windows@,
            stage: self.stage@,
            animations: self.animations@,
            pending_sends: self.pending_sends@,
            keyboard_focus: self.keyboard_focus,
            exclusive_layer: self.exclusive_layer,
            locked: self.session_locked,
            lock_pending_since: self.lock_pending_since,
            now_ns: self.now_ns,
            cursor_last_moved: self.cursor_last_moved,
            screenshots: self.screenshot_queue@.map_values(|s: PendingScreenshot| s@),
            overlay_visible: self.keybind_overlay_visible,
            reload_requested: self.reload_requested,
            wallpaper_requested: text::opt_view(self.wallpaper_requested),
            closes: self.closes@,
            spawns: text::views(self.spawns@),
        }
    }
}

// ---- What holds of every state ----------------------------------------------

/// The largest width or height of an output.
pub const MAX_OUTPUT: i32 = 0x2_0000;

/// The farthest place of an output.
pub const MAX_PLACE: i32 = 0x100_0000;

/// Whether a workspace is well formed and its gap fits pixel arithmetic.
pub open spec fn ws_ok(v: WorkspaceView) -> bool {
    v.wf() && -layout::MAX_GAP <= v.gap_px <= layout::MAX_GAP
}

/// Whether the place and the size of an output fit pixel arithmetic, and it
/// shows one of its workspaces.
pub open spec fn output_ok(o: OutputView) -> bool {
    &&& o.current_ws < WORKSPACE_COUNT
    &&& 0 <= o.size.w <= MAX_OUTPUT
    &&& 0 <= o.size.h <= MAX_OUTPUT
    &&& -MAX_PLACE <= o.x <= MAX_PLACE
    &&& -MAX_PLACE <= o.y <= MAX_PLACE
    &&& -MAX_PLACE <= o.workarea.x <= MAX_PLACE
    &&& -MAX_PLACE - MAX_OUTPUT <= o.workarea.y <= 2 * MAX_PLACE
    &&& 0 <= o.workarea.w <= MAX_OUTPUT
    &&& 0 <= o.workarea.h <= 2 * MAX_OUTPUT
}

impl GateView {
    /// Whether the workspace `k` of output `o` holds the window.
    pub open spec fn in_ws(self, o: int, k: int, w: WindowId) -> bool {
        &&& 0 <= o < self.workspaces.len()
        &&& 0 <= k < self.workspaces[o].len()
        &&& self.workspaces[o][k].clients.contains(w)
    }

    /// Whether the scratchpad `s` holds the window.
    pub open spec fn in_sp(self, s: int, w: WindowId) -> bool {
        &&& 0 <= s < self.scratchpads.len()
        &&& self.scratchpads[s].workspace.clients.contains(w)
    }

    /// Whether the window waits outside the workspaces.
    pub open spec fn outside(self, w: WindowId) -> bool {
        self.unmapped.contains(w) || self.helpers.contains(w)
    }

    /// Every window is in at most one place: in one workspace, in one
    /// scratchpad, among the windows that have shown nothing, or among the
    /// helpers.
    #[verifier::opaque]
    pub open spec fn owned_once(self) -> bool {
        &&& forall|o1: int, k1: int, o2: int, k2: int, w: WindowId|
            #![trigger self.in_ws(o1, k1, w), self.in_ws(o2, k2, w)]
            self.in_ws(o1, k1, w) && self.in_ws(o2, k2, w) ==> o1 == o2 && k1 == k2
        &&& forall|o: int, k: int, s: int, w: WindowId|
            #![trigger self.in_ws(o, k, w), self.in_sp(s, w)]
            !(self.in_ws(o, k, w) && self.in_sp(s, w))
        &&& forall|s1: int, s2: int, w: WindowId|
            #![trigger self.in_sp(s1, w), self.in_sp(s2, w)]
            self.in_sp(s1, w) && self.in_sp(s2, w) ==> s1 == s2
        &&& forall|o: int, k: int, w: WindowId|
            #![trigger self.in_ws(o, k, w)]
            self.in_ws(o, k, w) ==> !self.outside(w)
        &&& forall|s: int, w: WindowId|
            #![trigger self.in_sp(s, w)]
            self.in_sp(s, w) ==> !self.outside(w)
        &&& self.unmapped.no_duplicates()
        &&& self.helpers.no_duplicates()
        &&& forall|w: WindowId|
            #![trigger self.unmapped.contains(w)]
            self.unmapped.contains(w) ==> !self.helpers.contains(w)
    }

    /// Whether the window is in no place.
    pub open spec fn free(self, w: WindowId) -> bool {
        &&& forall|o: int, k: int| !#[trigger] self.in_ws(o, k, w)
        &&& forall|s: int| !#[trigger] self.in_sp(s, w)
        &&& !self.outside(w)
    }

    /// The workspaces that belong to the outputs.
    pub open spec fn pools_ok(self) -> bool {
        &&& self.workspaces.len() == self.outputs.len()
        &&& forall|o: int|
            0 <= o < self.workspaces.len() ==> (#[trigger] self.workspaces[o]).len()
                == WORKSPACE_COUNT
        &&& forall|o: int, k: int|
            0 <= o < self.workspaces.len() && 0 <= k < WORKSPACE_COUNT ==> ws_ok(
                #[trigger] self.workspaces[o][k],
            )
    }

    /// What holds of every state.
    pub open spec fn wf(self) -> bool {
        &&& self.config.fits()
        &&& self.pools_ok()
        &&& forall|s: int|
            0 <= s < self.scratchpads.len() ==> ws_ok((#[trigger] self.scratchpads[s]).workspace)
        &&& forall|o: int| 0 <= o < self.outputs.len() ==> output_ok(#[trigger] self.outputs[o])
        &&& self.current_ws < WORKSPACE_COUNT
        &&& self.previous_ws < WORKSPACE_COUNT
        &&& self.outputs.len() > 0 ==> self.focused_output < self.outputs.len()
        &&& self.focused_scratchpad matches Some(i) ==> i < self.scratchpads.len()
        &&& forall|i: int| 0 <= i < self.order.len() ==> #[trigger] self.order[i] < self.outputs.len()
        &&& self.owned_once()
    }

    /// The state with another workspace `k` of output `o`.
    pub open spec fn with_ws(self, o: int, k: int, v: WorkspaceView) -> GateView {
        GateView {
            workspaces: self.workspaces.update(o, self.workspaces[o].update(k, v)),
            ..self
        }
    }

    /// The state with another scratchpad `s`.
    pub open spec fn with_sp(self, s: int, v: ScratchpadView) -> GateView {
        GateView { scratchpads: self.scratchpads.update(s, v), ..self }
    }

    /// The state with another workspace in scratchpad `s`.
    pub open spec fn with_sp_ws(self, s: int, v: WorkspaceView) -> GateView {
        self.with_sp(s, ScratchpadView { workspace: v, ..self.scratchpads[s] })
    }

    /// The state with another output `o`.
    pub open spec fn with_output(self, o: int, v: OutputView) -> GateView {
        GateView { outputs: self.outputs.update(o, v), ..self }
    }

    // ---- What follows from the state ----------------------------------------

    /// The workspace that an output shows.
    pub open spec fn effective_ws(self, o: int) -> int {
        if self.config.general.sync_workspaces {
            self.current_ws as int
        } else if 0 <= o < self.outputs.len() {
            self.outputs[o].current_ws as int
        } else {
            self.current_ws as int
        }
    }

    /// The workspace of the focused output that is shown.
    pub open spec fn front_ws(self) -> WorkspaceView {
        self.workspaces[self.focused_output as int][self.effective_ws(self.focused_output as int)]
    }

    /// The first visible scratchpad at or after `s` on the focused output.
    pub open spec fn active_from(self, s: int) -> Option<usize>
        decreases self.scratchpads.len() - s,
    {
        if s >= self.scratchpads.len() {
            None
        } else if self.scratchpads[s].visible && self.scratchpads[s].output_idx
            == self.focused_output {
            Some(s as usize)
        } else {
            self.active_from(s + 1)
        }
    }

    /// The scratchpad that covers the focused output.
    pub open spec fn active_scratchpad(self) -> Option<usize> {
        self.active_from(0)
    }

    /// The work area of the focused output.
    pub open spec fn workarea(self) -> Rect {
        self.workarea_of(self.focused_output as int)
    }

    /// The work area of an output, or that of a small screen where there is
    /// no such output.
    pub open spec fn workarea_of(self, o: int) -> Rect {
        if 0 <= o < self.outputs.len() {
            self.outputs[o].workarea
        } else {
            Rect { x: 0, y: 0, w: 800, h: 600 }
        }
    }

    /// The size of the focused output, or that of a small screen.
    pub open spec fn output_size(self) -> Size {
        if self.focused_output < self.outputs.len() {
            self.outputs[self.focused_output as int].size
        } else {
            Size { w: 800, h: 600 }
        }
    }

    /// The window that is to have the focus: that of the scratchpad which
    /// covers the focused output, else that of the workspace it shows.
    pub open spec fn focused_window(self) -> Option<WindowId> {
        match self.active_scratchpad() {
            Some(s) => self.scratchpads[s as int].workspace.focused_window(),
            None => if self.focused_output < self.workspaces.len() && self.effective_ws(
                self.focused_output as int,
            ) < self.workspaces[self.focused_output as int].len() {
                self.front_ws().focused_window()
            } else {
                None
            },
        }
    }
}

/// The first entry at or after `i` of the window in the table; the length
/// where there is none.
pub open spec fn info_from(ws: Seq<WindowInfo>, w: WindowId, i: int) -> int
    decreases ws.len() - i,
{
    if i >= ws.len() {
        ws.len() as int
    } else if ws[i].id == w {
        i
    } else {
        info_from(ws, w, i + 1)
    }
}

/// The size of a window, zero where it is not in the table.
pub open spec fn size_of(ws: Seq<WindowInfo>, w: WindowId) -> Size {
    let i = info_from(ws, w, 0);
    if i < ws.len() {
        ws[i].size
    } else {
        Size { w: 0, h: 0 }
    }
}

/// The title of a window, empty where it is not in the table.
pub open spec fn title_of(ws: Seq<WindowInfo>, w: WindowId) -> Seq<char> {
    let i = info_from(ws, w, 0);
    if i < ws.len() {
        ws[i].title@
    } else {
        Seq::empty()
    }
}

/// The application of a window, empty where it is not in the table.
pub open spec fn app_of(ws: Seq<WindowInfo>, w: WindowId) -> Seq<char> {
    let i = info_from(ws, w, 0);
    if i < ws.len() {
        ws[i].app_id@
    } else {
        Seq::empty()
    }
}

/// The sizes that the windows have asked for.
pub open spec fn sizes_of(ws: Seq<WindowInfo>, clients: Seq<WindowId>) -> Seq<Size> {
    clients.map_values(|w: WindowId| size_of(ws, w))
}

/// The windows of the first `n` workspaces of a pool, without those of the
/// workspace `skip`.
pub open spec fn pool_clients(pool: Seq<WorkspaceView>, skip: Option<int>, n: int) -> Seq<WindowId>
    decreases n,
{
    if n <= 0 {
        Seq::empty()
    } else if skip == Some(n - 1) {
        pool_clients(pool, skip, n - 1)
    } else {
        pool_clients(pool, skip, n - 1) + pool[n - 1].clients
    }
}

impl GateView {
    /// The windows of the workspaces that the first `n` outputs do not show.
    pub open spec fn hidden_clients(self, n: int) -> Seq<WindowId>
        decreases n,
    {
        if n <= 0 {
            Seq::empty()
        } else {
            self.hidden_clients(n - 1) + pool_clients(
                self.workspaces[n - 1],
                Some(self.effective_ws(n - 1)),
                self.workspaces[n - 1].len() as int,
            )
        }
    }

    /// All windows of the workspaces of the first `n` outputs.
    pub open spec fn pooled_clients(self, n: int) -> Seq<WindowId>
        decreases n,
    {
        if n <= 0 {
            Seq::empty()
        } else {
            self.pooled_clients(n - 1) + pool_clients(
                self.workspaces[n - 1],
                None,
                self.workspaces[n - 1].len() as int,
            )
        }
    }

    /// All windows of the first `n` scratchpads.
    pub open spec fn padded_clients(self, n: int) -> Seq<WindowId>
        decreases n,
    {
        if n <= 0 {
            Seq::empty()
        } else {
            self.padded_clients(n - 1) + self.scratchpads[n - 1].workspace.clients
        }
    }

    /// All windows of all workspaces and scratchpads.
    pub open spec fn all_clients(self) -> Seq<WindowId> {
        self.pooled_clients(self.workspaces.len() as int) + self.padded_clients(
            self.scratchpads.len() as int,
        )
    }

    /// The stage after output `o` has been laid out on it: a fullscreen window
    /// covers the output alone, else the windows of the workspace that it
    /// shows go to their places.
    pub open spec fn output_laid(self, s: StageView, o: int) -> StageView {
        let ws = self.workspaces[o][self.effective_ws(o)];
        let out = self.outputs[o];
        match out.fullscreen {
            Some(fs) => s.unmapped(ws.clients, Some(fs)).configured(
                Configure { window: fs, size: Some(out.size), tiled: true },
            ).mapped(Placed { window: fs, x: out.x, y: out.y }),
            None => s.laid(
                layout::layout_of(
                    ws,
                    sizes_of(self.windows, ws.clients),
                    out.workarea,
                    self.config.general.border_px as int,
                ),
                false,
            ),
        }
    }

    /// The stage after the first `n` outputs have been laid out.
    pub open spec fn outputs_laid(self, n: int) -> StageView
        decreases n,
    {
        if n <= 0 {
            StageView {
                layout_dirty: true,
                bar_dirty: true,
                border_rects: Seq::empty(),
                base: Seq::empty(),
                ..self.stage.unmapped(self.hidden_clients(self.workspaces.len() as int), None)
            }
        } else {
            self.output_laid(self.outputs_laid(n - 1), n - 1)
        }
    }

    /// The state after the layout of all outputs: the windows of workspaces
    /// that are not shown leave the screen, the others go to their places.
    #[verifier::opaque]
    pub open spec fn laid_out(self) -> GateView {
        GateView { stage: self.outputs_laid(self.outputs.len() as int), ..self }
    }

    /// The rectangle of scratchpad `s`: its share of the work area, centred,
    /// grown by the gap that the layout takes off again.
    pub open spec fn scratchpad_rect(self, s: int) -> Rect {
        let area = self.workarea_of(self.scratchpads[s].output_idx as int);
        let sc = self.config.scratchpads@[s];
        let gap = self.scratchpads[s].workspace.gap_px;
        let w = ratio::percent(area.w as nat, sc.width_pct as nat);
        let h = ratio::percent(area.h as nat, sc.height_pct as nat);
        Rect {
            x: (area.x + geometry::quotient(area.w - w, 2) - gap) as i32,
            y: (area.y + geometry::quotient(area.h - h, 2) - gap) as i32,
            w: (w + gap * 2) as i32,
            h: (h + gap * 2) as i32,
        }
    }

    /// The state after the layout of scratchpad `s`, where it is visible: its
    /// windows go to their places and to the top.
    #[verifier::opaque]
    pub open spec fn scratchpad_laid(self, s: int) -> GateView {
        if s >= self.config.scratchpads@.len() || s >= self.scratchpads.len()
            || !self.scratchpads[s].visible {
            self
        } else {
            let ws = self.scratchpads[s].workspace;
            let gs = layout::layout_of(
                ws,
                sizes_of(self.windows, ws.clients),
                self.scratchpad_rect(s),
                self.config.general.border_px as int,
            );
            let cleared = StageView {
                base: stage::without(self.stage.base, ws.clients, None),
                scratchpad_border_rects: Seq::empty(),
                ..self.stage
            };
            GateView {
                stage: StageView {
                    scratchpad_layout_dirty: true,
                    bar_dirty: true,
                    ..cleared.laid(gs, true).raised_all(gs)
                },
                ..self
            }
        }
    }

    /// The state after the focus has been given to the window that is to have
    /// it. Every other window is inactive. A layer surface that holds the
    /// keyboard for itself keeps it.
    #[verifier::opaque]
    pub open spec fn focus_applied(self) -> GateView {
        let quiet = StageView {
            activated: stage::minus(self.stage.activated, self.all_clients()),
            ..self.stage
        };
        GateView {
            stage: match self.focused_window() {
                Some(w) => (StageView {
                    activated: quiet.activated.push(w),
                    ..quiet
                }).raised(w),
                None => quiet,
            },
            keyboard_focus: if self.exclusive_layer {
                self.keyboard_focus
            } else {
                self.focused_window()
            },
            ..self
        }
    }

    /// The state after the layout and the focus have been brought up to date.
    pub open spec fn settled(self) -> GateView {
        self.laid_out().focus_applied()
    }

    /// The state after the part of the screen that has the focus, a scratchpad
    /// or the workspaces, has been laid out, and the focus given.
    #[verifier::opaque]
    pub open spec fn relaid(self) -> GateView {
        match self.active_scratchpad() {
            Some(s) => self.scratchpad_laid(s as int).focus_applied(),
            None => self.settled(),
        }
    }
}

/// Whether two states differ at most in what is on the screen and in who gets
/// the key presses.
pub open spec fn same_desk(g: GateView, h: GateView) -> bool {
    h == (GateView { stage: h.stage, keyboard_focus: h.keyboard_focus, ..g })
}

// ---- Lemmas on the invariant ------------------------------------------------

/// A state stays well formed when one workspace is replaced, if its windows
/// were there before or were in no place.
pub proof fn lemma_with_ws(g: GateView, o: int, k: int, v: WorkspaceView)
    requires
        g.wf(),
        0 <= o < g.workspaces.len(),
        0 <= k < WORKSPACE_COUNT,
        ws_ok(v),
        forall|w: WindowId| #[trigger]
            v.clients.contains(w) ==> g.workspaces[o][k].clients.contains(w) || g.free(w),
    ensures
        g.with_ws(o, k, v).wf(),
        forall|o2: int, k2: int, w: WindowId| #[trigger]
            g.with_ws(o, k, v).in_ws(o2, k2, w) <==> if o2 == o && k2 == k {
                v.clients.contains(w)
            } else {
                g.in_ws(o2, k2, w)
            },
        forall|s: int, w: WindowId| #[trigger] g.with_ws(o, k, v).in_sp(s, w) <==> g.in_sp(s, w),
{
    reveal(GateView::owned_once);
    let h = g.with_ws(o, k, v);
    assert forall|o2: int, k2: int, w: WindowId| #[trigger]
        h.in_ws(o2, k2, w) implies if o2 == o && k2 == k {
        v.clients.contains(w)
    } else {
        g.in_ws(o2, k2, w)
    } by {}
    assert forall|o2: int, k2: int, w: WindowId|
        (if o2 == o && k2 == k {
            v.clients.contains(w)
        } else {
            g.in_ws(o2, k2, w)
        }) implies #[trigger] h.in_ws(o2, k2, w) by {}
    assert forall|s: int, w: WindowId| #[trigger] h.in_sp(s, w) <==> g.in_sp(s, w) by {}
    assert forall|o1: int, k1: int, o2: int, k2: int, w: WindowId|
        #![trigger h.in_ws(o1, k1, w), h.in_ws(o2, k2, w)]
        h.in_ws(o1, k1, w) && h.in_ws(o2, k2, w) implies o1 == o2 && k1 == k2 by {
        if !(o1 == o && k1 == k) {
            assert(g.in_ws(o1, k1, w));
        } else if g.workspaces[o][k].clients.contains(w) {
            assert(g.in_ws(o, k, w));
        }
        if !(o2 == o && k2 == k) {
            assert(g.in_ws(o2, k2, w));
        } else if g.workspaces[o][k].clients.contains(w) {
            assert(g.in_ws(o, k, w));
        }
    }
    assert forall|o1: int, k1: int, s: int, w: WindowId|
        #![trigger h.in_ws(o1, k1, w), h.in_sp(s, w)]
        !(h.in_ws(o1, k1, w) && h.in_sp(s, w)) by {
        if h.in_ws(o1, k1, w) && h.in_sp(s, w) {
            assert(g.in_sp(s, w));
            if o1 == o && k1 == k && g.workspaces[o][k].clients.contains(w) {
                assert(g.in_ws(o, k, w));
            } else if !(o1 == o && k1 == k) {
                assert(g.in_ws(o1, k1, w));
            }
        }
    }
    assert forall|s1: int, s2: int, w: WindowId|
        #![trigger h.in_sp(s1, w), h.in_sp(s2, w)]
        h.in_sp(s1, w) && h.in_sp(s2, w) implies s1 == s2 by {
        assert(g.in_sp(s1, w) && g.in_sp(s2, w));
    }
    assert forall|o1: int, k1: int, w: WindowId|
        #![trigger h.in_ws(o1, k1, w)]
        h.in_ws(o1, k1, w) implies !h.outside(w) by {
        if o1 == o && k1 == k && g.workspaces[o][k].clients.contains(w) {
            assert(g.in_ws(o, k, w));
        } else if !(o1 == o && k1 == k) {
            assert(g.in_ws(o1, k1, w));
        }
    }
    assert forall|s: int, w: WindowId|
        #![trigger h.in_sp(s, w)]
        h.in_sp(s, w) implies !h.outside(w) by {
        assert(g.in_sp(s, w));
    }
    assert(h.unmapped == g.unmapped && h.helpers == g.helpers);
    assert forall|o2: int| 0 <= o2 < h.workspaces.len() implies (#[trigger] h.workspaces[o2]).len()
        == WORKSPACE_COUNT by {
        assert(g.workspaces[o2].len() == WORKSPACE_COUNT);
    }
    assert forall|o2: int, k2: int|
        0 <= o2 < h.workspaces.len() && 0 <= k2 < WORKSPACE_COUNT implies ws_ok(
        #[trigger] h.workspaces[o2][k2],
    ) by {
        assert(ws_ok(g.workspaces[o2][k2]));
    }
}

/// A state stays well formed when one scratchpad is replaced, if its windows
/// were there before or were in no place.
pub proof fn lemma_with_sp(g: GateView, s: int, v: ScratchpadView)
    requires
        g.wf(),
        0 <= s < g.scratchpads.len(),
        ws_ok(v.workspace),
        forall|w: WindowId| #[trigger]
            v.workspace.clients.contains(w) ==> g.scratchpads[s].workspace.clients.contains(w)
                || g.free(w),
    ensures
        g.with_sp(s, v).wf(),
        forall|o: int, k: int, w: WindowId| #[trigger]
            g.with_sp(s, v).in_ws(o, k, w) <==> g.in_ws(o, k, w),
        forall|s2: int, w: WindowId| #[trigger]
            g.with_sp(s, v).in_sp(s2, w) <==> if s2 == s {
                v.workspace.clients.contains(w)
            } else {
                g.in_sp(s2, w)
            },
{
    reveal(GateView::owned_once);
    let h = g.with_sp(s, v);
    assert forall|o: int, k: int, w: WindowId| #[trigger] h.in_ws(o, k, w) <==> g.in_ws(
        o,
        k,
        w,
    ) by {}
    assert forall|s2: int, w: WindowId| #[trigger] h.in_sp(s2, w) implies if s2 == s {
        v.workspace.clients.contains(w)
    } else {
        g.in_sp(s2, w)
    } by {}
    assert forall|s2: int, w: WindowId|
        (if s2 == s {
            v.workspace.clients.contains(w)
        } else {
            g.in_sp(s2, w)
        }) implies #[trigger] h.in_sp(s2, w) by {}
    assert forall|o1: int, k1: int, o2: int, k2: int, w: WindowId|
        #![trigger h.in_ws(o1, k1, w), h.in_ws(o2, k2, w)]
        h.in_ws(o1, k1, w) && h.in_ws(o2, k2, w) implies o1 == o2 && k1 == k2 by {
        assert(g.in_ws(o1, k1, w) && g.in_ws(o2, k2, w));
    }
    assert forall|o1: int, k1: int, s1: int, w: WindowId|
        #![trigger h.in_ws(o1, k1, w), h.in_sp(s1, w)]
        !(h.in_ws(o1, k1, w) && h.in_sp(s1, w)) by {
        if h.in_ws(o1, k1, w) && h.in_sp(s1, w) {
            assert(g.in_ws(o1, k1, w));
            if s1 == s && g.scratchpads[s].workspace.clients.contains(w) {
                assert(g.in_sp(s, w));
            } else if s1 != s {
                assert(g.in_sp(s1, w));
            }
        }
    }
    assert forall|s1: int, s2: int, w: WindowId|
        #![trigger h.in_sp(s1, w), h.in_sp(s2, w)]
        h.in_sp(s1, w) && h.in_sp(s2, w) implies s1 == s2 by {
        if s1 != s {
            assert(g.in_sp(s1, w));
        } else if g.scratchpads[s].workspace.clients.contains(w) {
            assert(g.in_sp(s, w));
        }
        if s2 != s {
            assert(g.in_sp(s2, w));
        } else if g.scratchpads[s].workspace.clients.contains(w) {
            assert(g.in_sp(s, w));
        }
    }
    assert forall|o1: int, k1: int, w: WindowId|
        #![trigger h.in_ws(o1, k1, w)]
        h.in_ws(o1, k1, w) implies !h.outside(w) by {
        assert(g.in_ws(o1, k1, w));
    }
    assert forall|s1: int, w: WindowId|
        #![trigger h.in_sp(s1, w)]
        h.in_sp(s1, w) implies !h.outside(w) by {
        if s1 == s && g.scratchpads[s].workspace.clients.contains(w) {
            assert(g.in_sp(s, w));
        } else if s1 != s {
            assert(g.in_sp(s1, w));
        }
    }
    assert(h.unmapped == g.unmapped && h.helpers == g.helpers);
    assert forall|s2: int| 0 <= s2 < h.scratchpads.len() implies ws_ok(
        (#[trigger] h.scratchpads[s2]).workspace,
    ) by {
        assert(ws_ok(g.scratchpads[s2].workspace));
    }
}

/// A state stays well formed when only what is on the screen and what is
/// derived from it changes.
pub proof fn lemma_same_places(g: GateView, h: GateView)
    requires
        g.wf(),
        h.workspaces == g.workspaces,
        h.scratchpads == g.scratchpads,
        h.unmapped == g.unmapped,
        h.helpers == g.helpers,
        h.config.fits(),
        h.outputs.len() == g.outputs.len(),
        forall|o: int| 0 <= o < h.outputs.len() ==> output_ok(#[trigger] h.outputs[o]),
        h.current_ws < WORKSPACE_COUNT,
        h.previous_ws < WORKSPACE_COUNT,
        h.outputs.len() > 0 ==> h.focused_output < h.outputs.len(),
        h.focused_scratchpad matches Some(i) ==> i < h.scratchpads.len(),
        forall|i: int| 0 <= i < h.order.len() ==> #[trigger] h.order[i] < h.outputs.len(),
    ensures
        h.wf(),
{
    reveal(GateView::owned_once);
    assert forall|o: int, k: int, w: WindowId| #[trigger] h.in_ws(o, k, w) <==> g.in_ws(
        o,
        k,
        w,
    ) by {}
    assert forall|s: int, w: WindowId| #[trigger] h.in_sp(s, w) <==> g.in_sp(s, w) by {}
    assert forall|o1: int, k1: int, o2: int, k2: int, w: WindowId|
        #![trigger h.in_ws(o1, k1, w), h.in_ws(o2, k2, w)]
        h.in_ws(o1, k1, w) && h.in_ws(o2, k2, w) implies o1 == o2 && k1 == k2 by {
        assert(g.in_ws(o1, k1, w) && g.in_ws(o2, k2, w));
    }
    assert forall|o1: int, k1: int, s1: int, w: WindowId|
        #![trigger h.in_ws(o1, k1, w), h.in_sp(s1, w)]
        !(h.in_ws(o1, k1, w) && h.in_sp(s1, w)) by {
        assert(!(g.in_ws(o1, k1, w) && g.in_sp(s1, w)));
    }
    assert forall|s1: int, s2: int, w: WindowId|
        #![trigger h.in_sp(s1, w), h.in_sp(s2, w)]
        h.in_sp(s1, w) && h.in_sp(s2, w) implies s1 == s2 by {
        assert(g.in_sp(s1, w) && g.in_sp(s2, w));
    }
    assert forall|o1: int, k1: int, w: WindowId|
        #![trigger h.in_ws(o1, k1, w)]
        h.in_ws(o1, k1, w) implies !h.outside(w) by {
        assert(g.in_ws(o1, k1, w));
    }
    assert forall|s1: int, w: WindowId|
        #![trigger h.in_sp(s1, w)]
        h.in_sp(s1, w) implies !h.outside(w) by {
        assert(g.in_sp(s1, w));
    }
}

} // verus!
