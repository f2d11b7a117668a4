//! Outputs and settings.

use vstd::prelude::*;

use crate::gate::actions::Keybind;
use crate::gate::animation::AnimationManager;
use crate::gate::arrange::window_info;
use crate::gate::config;
use crate::gate::config::{BarConfig, BarPosition, Config};
use crate::gate::input;
use crate::gate::input::keybinds_from_config;
use crate::gate::outputs;
use crate::gate::outputs::order_outputs;
use crate::gate::stage::{Stage, StageView};
use crate::gate::state;
use crate::gate::state::{
    Gate, GateView, OutputState, OutputView, ScratchpadState, ScratchpadView, MAX_OUTPUT, MAX_PLACE,
};
use crate::gate::workspace::{WindowId, Workspace, WorkspaceView, WORKSPACE_COUNT};
use crate::geometry;
use crate::geometry::{max_i32, Rect, Size};
use crate::sight::context::WorkspaceContext;
use crate::text;

verus! {

/// How much of the height of an output the bar takes.
pub open spec fn bar_height(bar: BarConfig) -> int {
    if bar.enabled {
        bar.height as int
    } else {
        0
    }
}

/// The work area of an output: all of it but the bar.
pub open spec fn work_area(bar: BarConfig, x: i32, y: i32, size: Size) -> Rect {
    let h = bar_height(bar);
    Rect {
        x,
        y: match bar.position {
            BarPosition::Top => (y + h) as i32,
            BarPosition::Bottom => y,
        },
        w: size.w,
        h: geometry::max(size.h - h, 0) as i32,
    }
}

/// The right and the lower edge of the first `n` outputs.
pub open spec fn bounds_of(os: Seq<OutputView>, n: int) -> Size
    decreases n,
{
    if n <= 0 {
        Size { w: 0, h: 0 }
    } else {
        let b = bounds_of(os, n - 1);
        let o = os[n - 1];
        Size {
            w: geometry::max(b.w as int, o.x + o.size.w) as i32,
            h: geometry::max(b.h as int, o.y + o.size.h) as i32,
        }
    }
}

/// The workspaces of a new output.
pub open spec fn fresh_pool(gap_px: i32, mfact: u32) -> Seq<WorkspaceView> {
    Seq::new(
        WORKSPACE_COUNT as nat,
        |k: int| WorkspaceView::empty(k as usize, gap_px, mfact),
    )
}

/// A scratchpad that has not been shown yet.
pub open spec fn fresh_pad(i: int, config: Config) -> ScratchpadView {
    ScratchpadView {
        config_idx: i as usize,
        workspace: WorkspaceView::empty(
            (100 + i) as usize,
            config.general.gap_px,
            config.general.default_mfact,
        ),
        visible: false,
        hiding: false,
        started: false,
        output_idx: 0,
        pending_capture: false,
        autostart_remaining: Seq::empty(),
    }
}

impl GateView {
    /// The state at the start: no outputs, no windows, and one hidden
    /// scratchpad for each in the settings.
    pub open spec fn initial(config: Config, now: u64) -> GateView {
        GateView {
            running: true,
            config,
            keybinds: input::binds_of(config.keybinds@),
            workspaces: Seq::empty(),
            current_ws: 0,
            previous_ws: 0,
            outputs: Seq::empty(),
            order: Seq::empty(),
            bounds: Size { w: 800, h: 600 },
            focused_output: 0,
            scratchpads: Seq::new(config.scratchpads@.len(), |i: int| fresh_pad(i, config)),
            focused_scratchpad: None,
            unmapped: Seq::empty(),
            helpers: Seq::empty(),
            routes: Seq::empty(),
            autostart_done: false,
            windows: Seq::empty(),
            stage: StageView::empty(),
            animations: Seq::empty(),
            pending_sends: Seq::empty(),
            keyboard_focus: None,
            exclusive_layer: false,
            locked: false,
            lock_pending_since: None,
            now_ns: now,
            cursor_last_moved: now,
            screenshots: Seq::empty(),
            overlay_visible: false,
            reload_requested: false,
            wallpaper_requested: None,
            closes: Seq::empty(),
            spawns: Seq::empty(),
        }
    }

    /// The state with the bounds and the order of the outputs brought up to
    /// date.
    pub open spec fn bounded(self) -> GateView {
        GateView {
            bounds: bounds_of(self.outputs, self.outputs.len() as int),
            order: outputs::ordered(self.config.monitors@, self.names()),
            ..self
        }
    }

    /// The state with one output more and its workspaces.
    pub open spec fn output_added(self, name: Seq<char>, size: Size, x: i32, y: i32) -> GateView {
        (GateView {
            outputs: self.outputs.push(
                OutputView {
                    name,
                    current_ws: 0,
                    size,
                    workarea: work_area(self.config.bar, x, y, size),
                    x,
                    y,
                    fullscreen: None,
                },
            ),
            workspaces: self.workspaces.push(
                fresh_pool(self.config.general.gap_px, self.config.general.default_mfact),
            ),
            ..self
        }).bounded()
    }

    /// The outputs with their work areas brought up to date.
    pub open spec fn areas_updated(self) -> Seq<OutputView> {
        self.outputs.map_values(
            |o: OutputView|
                OutputView { workarea: work_area(self.config.bar, o.x, o.y, o.size), ..o },
        )
    }

    /// The workspaces, all of them with the gap of the settings.
    pub open spec fn gaps_updated(self) -> Seq<Seq<WorkspaceView>> {
        self.workspaces.map_values(
            |p: Seq<WorkspaceView>|
                p.map_values(
                    |v: WorkspaceView|
                        WorkspaceView { gap_px: self.config.general.gap_px, ..v },
                ),
        )
    }

    /// The state after new settings have come into force.
    pub open spec fn reconfigured(self, config: Config) -> GateView {
        let g = GateView {
            config,
            keybinds: input::binds_of(config.keybinds@),
            reload_requested: false,
            ..self
        };
        (GateView { workspaces: g.gaps_updated(), outputs: g.areas_updated(), ..g }).laid_out()
    }

    /// Which workspaces of an output hold windows, among the first nine.
    pub open spec fn occupied(self, o: int, k: int) -> bool {
        &&& 0 <= o < self.workspaces.len()
        &&& k < self.workspaces[o].len()
        &&& self.workspaces[o][k].clients.len() > 0
    }

    /// The title of the focused window of the workspace that an output shows.
    pub open spec fn shown_title(self, o: int) -> Seq<char> {
        let k = self.effective_ws(o);
        if 0 <= o < self.workspaces.len() && k < self.workspaces[o].len() {
            match self.workspaces[o][k].focused_window() {
                Some(w) => state::title_of(self.windows, w),
                None => Seq::empty(),
            }
        } else {
            Seq::empty()
        }
    }
}

fn area_of(bar: &BarConfig, x: i32, y: i32, size: Size) -> (r: Rect)
    requires
        -MAX_OUTPUT <= bar.height <= MAX_PLACE,
        -MAX_PLACE <= y <= MAX_PLACE,
        0 <= size.h <= MAX_OUTPUT,
    ensures
        r == work_area(*bar, x, y, size),
{
    let h: i32 = if bar.enabled {
        bar.height
    } else {
        0
    };
    Rect {
        x,
        y: match bar.position {
            BarPosition::Top => y + h,
            BarPosition::Bottom => y,
        },
        w: size.w,
        h: max_i32(size.h - h, 0),
    }
}

fn new_pool(gap_px: i32, mfact: u32) -> (pool: Vec<Workspace>)
    requires
        mfact <= crate::ratio::ONE,
    ensures
        state::pool_view(pool@) == fresh_pool(gap_px, mfact),
{
    let mut pool: Vec<Workspace> = Vec::new();
    let mut k: usize = 0;
    while k < WORKSPACE_COUNT
        invariant
            k <= WORKSPACE_COUNT,
            pool.len() == k,
            forall|i: int|
                0 <= i < k ==> (#[trigger] pool@[i])@ == WorkspaceView::empty(
                    i as usize,
                    gap_px,
                    mfact,
                ),
        decreases WORKSPACE_COUNT - k,
    {
        let mut ws: Workspace = Workspace::new(k);
        ws.gap_px = gap_px;
        ws.mfact = mfact;
        assert(ws@ =~= WorkspaceView::empty(k, gap_px, mfact));
        pool.push(ws);
        k = k + 1;
    }
    assert(state::pool_view(pool@) =~= fresh_pool(gap_px, mfact));
    pool
}

impl Gate {
    /// The state at the start.
    pub fn new(config: Config, now: u64) -> (g: Gate)
        requires
            config.fits(),
            config.scratchpads@.len() < 0x8000_0000,
        ensures
            g@ == GateView::initial(config, now),
            g@.wf(),
    {
        let keybinds: Vec<Keybind> = keybinds_from_config(&config.keybinds);
        let mut scratchpads: Vec<ScratchpadState> = Vec::new();
        let mut i: usize = 0;
        while i < config.scratchpads.len()
            invariant
                i <= config.scratchpads.len(),
                config.scratchpads@.len() < 0x8000_0000,
                scratchpads.len() == i,
                forall|k: int|
                    0 <= k < i ==> (#[trigger] scratchpads@[k])@ == fresh_pad(k, config),
            decreases config.scratchpads.len() - i,
        {
            let mut ws: Workspace = Workspace::new(100 + i);
            ws.gap_px = config.general.gap_px;
            ws.mfact = config.general.default_mfact;
            let pad: ScratchpadState = ScratchpadState {
                config_idx: i,
                workspace: ws,
                visible: false,
                hiding: false,
                started: false,
                output_idx: 0,
                pending_capture: false,
                autostart_remaining: Vec::new(),
            };
            assert(text::views(pad.autostart_remaining@) =~= Seq::<Seq<char>>::empty());
            assert(pad@ =~= fresh_pad(i as int, config));
            scratchpads.push(pad);
            i = i + 1;
        }
        let g: Gate = Gate {
            running: true,
            config,
            keybinds,
            workspaces: Vec::new(),
            current_ws: 0,
            previous_ws: 0,
            outputs: Vec::new(),
            output_order: Vec::new(),
            output_bounds: Size { w: 800, h: 600 },
            focused_output: 0,
            scratchpads,
            focused_scratchpad: None,
            unmapped_windows: Vec::new(),
            hidden_helpers: Vec::new(),
            pending_autostart_routes: Vec::new(),
            autostart_done: false,
            windows: Vec::new(),
            stage: Stage::new(),
            animations: AnimationManager::new(),
            pending_sends: Vec::new(),
            keyboard_focus: None,
            exclusive_layer: false,
            session_locked: false,
            lock_pending_since: None,
            now_ns: now,
            cursor_last_moved: now,
            screenshot_queue: Vec::new(),
            keybind_overlay_visible: false,
            reload_requested: false,
            wallpaper_requested: None,
            closes: Vec::new(),
            spawns: Vec::new(),
        };
        proof {
            reveal(GateView::owned_once);
            assert(g@ =~= GateView::initial(config, now));
            assert forall|s: int| 0 <= s < g@.scratchpads.len() implies state::ws_ok(
                (#[trigger] g@.scratchpads[s]).workspace,
            ) by {
                assert(g@.scratchpads[s] == fresh_pad(s, config));
            }
            assert forall|s: int, w: WindowId| !#[trigger] g@.in_sp(s, w) by {
                if 0 <= s < g@.scratchpads.len() {
                    assert(g@.scratchpads[s] == fresh_pad(s, config));
                }
            }
        }
        g
    }

    /// Brings the bounds and the order of the outputs up to date.
    pub fn refresh_output_geometry(&mut self)
        requires
            old(self)@.wf(),
        ensures
            final(self)@ == old(self)@.bounded(),
            final(self)@.wf(),
    {
        let mut w: i32 = 0;
        let mut h: i32 = 0;
        let mut o: usize = 0;
        while o < self.outputs.len()
            invariant
                o <= self.outputs.len(),
                self@ == old(self)@,
                self@.wf(),
                0 <= w,
                0 <= h,
                (Size { w, h }) == bounds_of(self@.outputs, o as int),
            decreases self.outputs.len() - o,
        {
            let out: &OutputState = &self.outputs[o];
            assert(self@.outputs[o as int] == self.outputs@[o as int]@);
            assert(state::output_ok(self@.outputs[o as int]));
            w = max_i32(w, out.x + out.size.w);
            h = max_i32(h, out.y + out.size.h);
            o = o + 1;
        }
        self.output_bounds = Size { w, h };
        self.output_order = order_outputs(&self.config.monitors, &self.outputs);
        proof {
            assert(outputs::names_of(self.outputs@) =~= self@.names());
            state::lemma_same_places(old(self)@, self@);
        }
    }

    /// Adds an output, with workspaces of its own.
    pub fn add_output(&mut self, name: String, size: Size, x: i32, y: i32)
        requires
            old(self)@.wf(),
            old(self)@.outputs.len() == 0 ==> old(self)@.focused_output == 0,
            0 <= size.w <= MAX_OUTPUT,
            0 <= size.h <= MAX_OUTPUT,
            -MAX_PLACE <= x <= MAX_PLACE,
            -MAX_PLACE <= y <= MAX_PLACE,
        ensures
            final(self)@ == old(self)@.output_added(name@, size, x, y),
            final(self)@.wf(),
    {
        let workarea: Rect = area_of(&self.config.bar, x, y, size);
        let ghost g0 = self@;
        self.outputs.push(
            OutputState {
                name,
                current_ws: 0,
                size,
                workarea,
                x,
                y,
                fullscreen_window: None,
            },
        );
        let pool: Vec<Workspace> = new_pool(
            self.config.general.gap_px,
            self.config.general.default_mfact,
        );
        self.workspaces.push(pool);
        proof {
            let g = self@;
            let fresh = fresh_pool(g0.config.general.gap_px, g0.config.general.default_mfact);
            assert(g.outputs =~= g0.outputs.push(g.outputs[g0.outputs.len() as int]));
            assert(g.workspaces =~= g0.workspaces.push(fresh));
            reveal(GateView::owned_once);
            assert forall|o: int| 0 <= o < g.workspaces.len() implies (
            #[trigger] g.workspaces[o]).len() == WORKSPACE_COUNT by {
                if o < g0.workspaces.len() {
                    assert(g0.workspaces[o].len() == WORKSPACE_COUNT);
                }
            }
            assert forall|o: int, k: int|
                0 <= o < g.workspaces.len() && 0 <= k < WORKSPACE_COUNT implies state::ws_ok(
                #[trigger] g.workspaces[o][k],
            ) by {
                if o < g0.workspaces.len() {
                    assert(state::ws_ok(g0.workspaces[o][k]));
                } else {
                    assert(g.workspaces[o][k] == fresh[k]);
                }
            }
            assert forall|o: int| 0 <= o < g.outputs.len() implies state::output_ok(
                #[trigger] g.outputs[o],
            ) by {
                if o < g0.outputs.len() {
                    assert(state::output_ok(g0.outputs[o]));
                }
            }
            assert forall|o: int, k: int, w: WindowId| #[trigger] g.in_ws(o, k, w) implies g0.in_ws(
                o,
                k,
                w,
            ) by {
                if o >= g0.workspaces.len() {
                    assert(g.workspaces[o][k] == fresh[k]);
                }
            }
            assert forall|s: int, w: WindowId| #[trigger] g.in_sp(s, w) implies g0.in_sp(s, w) by {}
            assert forall|s: int| 0 <= s < g.scratchpads.len() implies state::ws_ok(
                (#[trigger] g.scratchpads[s]).workspace,
            ) by {
                assert(state::ws_ok(g0.scratchpads[s].workspace));
            }
            assert forall|i: int| 0 <= i < g.order.len() implies #[trigger] g.order[i]
                < g.outputs.len() by {
                assert(g0.order[i] < g0.outputs.len());
            }
            assert(g.wf());
        }
        self.refresh_output_geometry();
        proof {
            assert(self@ =~= g0.output_added(name@, size, x, y));
        }
    }

    fn set_output(&mut self, o: usize, size: Size, workarea: Rect)
        requires
            old(self)@.wf(),
            o < old(self)@.outputs.len(),
            state::output_ok(
                OutputView { size, workarea, ..old(self)@.outputs[o as int] },
            ),
        ensures
            final(self)@ == old(self)@.with_output(
                o as int,
                OutputView { size, workarea, ..old(self)@.outputs[o as int] },
            ),
            final(self)@.wf(),
    {
        self.outputs[o].size = size;
        self.outputs[o].workarea = workarea;
        proof {
            let v = OutputView { size, workarea, ..old(self)@.outputs[o as int] };
            assert(self@.outputs =~= old(self)@.outputs.update(o as int, v));
            assert forall|i: int| 0 <= i < self@.outputs.len() implies state::output_ok(
                #[trigger] self@.outputs[i],
            ) by {
                assert(state::output_ok(old(self)@.outputs[i]));
            }
            state::lemma_same_places(old(self)@, self@);
        }
    }

    /// Sets the size of an output and its work area.
    pub fn set_output_size(&mut self, output_idx: usize, w: i32, h: i32)
        requires
            old(self)@.wf(),
            0 <= w <= MAX_OUTPUT,
            0 <= h <= MAX_OUTPUT,
        ensures
            final(self)@ == (if output_idx < old(self)@.outputs.len() {
                let o = old(self)@.outputs[output_idx as int];
                old(self)@.with_output(
                    output_idx as int,
                    OutputView {
                        size: Size { w, h },
                        workarea: work_area(old(self)@.config.bar, o.x, o.y, Size { w, h }),
                        ..o
                    },
                ).bounded()
            } else {
                old(self)@.bounded()
            }),
            final(self)@.wf(),
    {
        if output_idx < self.outputs.len() {
            assert(self@.outputs[output_idx as int] == self.outputs@[output_idx as int]@);
            assert(state::output_ok(self@.outputs[output_idx as int]));
            let size: Size = Size { w, h };
            let x: i32 = self.outputs[output_idx].x;
            let y: i32 = self.outputs[output_idx].y;
            let workarea: Rect = area_of(&self.config.bar, x, y, size);
            self.set_output(output_idx, size, workarea);
        }
        self.refresh_output_geometry();
    }

    /// Brings the work areas of all outputs up to date.
    pub fn recompute_workarea(&mut self)
        requires
            old(self)@.wf(),
        ensures
            final(self)@ == (GateView { outputs: old(self)@.areas_updated(), ..old(self)@ }),
            final(self)@.wf(),
    {
        let mut o: usize = 0;
        let ghost g = self@;
        while o < self.outputs.len()
            invariant
                o <= self.outputs.len(),
                self@.wf(),
                g.wf(),
                self.outputs@.len() == g.outputs.len(),
                self@ == (GateView { outputs: self@.outputs, ..g }),
                forall|i: int|
                    0 <= i < o ==> #[trigger] self@.outputs[i] == (OutputView {
                        workarea: work_area(
                            g.config.bar,
                            g.outputs[i].x,
                            g.outputs[i].y,
                            g.outputs[i].size,
                        ),
                        ..g.outputs[i]
                    }),
                forall|i: int|
                    o <= i < self@.outputs.len() ==> #[trigger] self@.outputs[i] == g.outputs[i],
            decreases self.outputs.len() - o,
        {
            assert(self@.outputs[o as int] == self.outputs@[o as int]@);
            assert(state::output_ok(self@.outputs[o as int]));
            let size: Size = self.outputs[o].size;
            let x: i32 = self.outputs[o].x;
            let y: i32 = self.outputs[o].y;
            let workarea: Rect = area_of(&self.config.bar, x, y, size);
            self.set_output(o, size, workarea);
            o = o + 1;
            assert(self.outputs@.len() == self@.outputs.len());
        }
        assert(self@.outputs =~= g.areas_updated());
    }

    /// Brings new settings into force.
    pub fn reload_config(&mut self, config: Config)
        requires
            old(self)@.wf(),
            config.fits(),
        ensures
            final(self)@ == old(self)@.reconfigured(config),
            final(self)@.wf(),
    {
        let keybinds: Vec<Keybind> = keybinds_from_config(&config.keybinds);
        self.config = config;
        self.keybinds = keybinds;
        self.reload_requested = false;
        proof {
            state::lemma_same_places(old(self)@, self@);
        }
        self.update_gaps();
        self.recompute_workarea();
        self.apply_layout();
    }

    fn set_gap(&mut self, o: usize, k: usize, gap_px: i32)
        requires
            old(self)@.wf(),
            o < old(self)@.workspaces.len(),
            k < WORKSPACE_COUNT,
            -crate::gate::layout::MAX_GAP <= gap_px <= crate::gate::layout::MAX_GAP,
        ensures
            final(self)@ == old(self)@.with_ws(
                o as int,
                k as int,
                WorkspaceView { gap_px, ..old(self)@.workspaces[o as int][k as int] },
            ),
            final(self)@.wf(),
    {
        assert(self@.workspaces[o as int] == state::pool_view(self.workspaces@[o as int]@));
        assert(self@.workspaces[o as int].len() == WORKSPACE_COUNT);
        assert(self@.workspaces[o as int][k as int] == self.workspaces@[o as int]@[k as int]@);
        assert(state::ws_ok(self@.workspaces[o as int][k as int]));
        self.workspaces[o][k].gap_px = gap_px;
        proof {
            let v = WorkspaceView { gap_px, ..old(self)@.workspaces[o as int][k as int] };
            assert(self@.workspaces[o as int] =~= old(self)@.workspaces[o as int].update(
                k as int,
                v,
            ));
            assert(self@.workspaces =~= old(self)@.with_ws(o as int, k as int, v).workspaces);
            assert(self@ =~= old(self)@.with_ws(o as int, k as int, v));
            state::lemma_with_ws(old(self)@, o as int, k as int, v);
        }
    }

    fn update_gaps(&mut self)
        requires
            old(self)@.wf(),
        ensures
            final(self)@ == (GateView { workspaces: old(self)@.gaps_updated(), ..old(self)@ }),
            final(self)@.wf(),
    {
        let gap_px: i32 = self.config.general.gap_px;
        let ghost g = self@;
        let mut o: usize = 0;
        while o < self.workspaces.len()
            invariant
                o <= self.workspaces.len(),
                self@.wf(),
                g.wf(),
                gap_px == g.config.general.gap_px,
                self.workspaces@.len() == g.workspaces.len(),
                self@ == (GateView { workspaces: self@.workspaces, ..g }),
                forall|i: int|
                    0 <= i < o ==> #[trigger] self@.workspaces[i] == g.gaps_updated()[i],
                forall|i: int|
                    o <= i < self@.workspaces.len() ==> #[trigger] self@.workspaces[i]
                        == g.workspaces[i],
            decreases self.workspaces.len() - o,
        {
            let mut k: usize = 0;
            while k < WORKSPACE_COUNT
                invariant
                    k <= WORKSPACE_COUNT,
                    o < self@.workspaces.len(),
                    self@.wf(),
                    g.wf(),
                    gap_px == g.config.general.gap_px,
                    self.workspaces@.len() == g.workspaces.len(),
                    self@ == (GateView { workspaces: self@.workspaces, ..g }),
                    forall|i: int|
                        0 <= i < o ==> #[trigger] self@.workspaces[i] == g.gaps_updated()[i],
                    forall|i: int|
                        o < i < self@.workspaces.len() ==> #[trigger] self@.workspaces[i]
                            == g.workspaces[i],
                    self@.workspaces[o as int].len() == WORKSPACE_COUNT,
                    forall|j: int|
                        0 <= j < k ==> #[trigger] self@.workspaces[o as int][j] == (WorkspaceView {
                            gap_px,
                            ..g.workspaces[o as int][j]
                        }),
                    forall|j: int|
                        k <= j < WORKSPACE_COUNT ==> #[trigger] self@.workspaces[o as int][j]
                            == g.workspaces[o as int][j],
                decreases WORKSPACE_COUNT - k,
            {
                let ghost before = self@;
                self.set_gap(o, k, gap_px);
                assert(self.workspaces@.len() == self@.workspaces.len());
                assert(self@ =~= (GateView { workspaces: self@.workspaces, ..g }));
                k = k + 1;
            }
            assert(g.workspaces[o as int].len() == WORKSPACE_COUNT);
            assert(self@.workspaces[o as int] =~= g.gaps_updated()[o as int]);
            o = o + 1;
        }
        assert(self@.workspaces =~= g.gaps_updated());
    }

    /// Notes that the pointer has moved noticeably.
    pub fn update_cursor_idle(&mut self, moved: bool)
        requires
            old(self)@.wf(),
        ensures
            final(self)@ == (if moved {
                GateView { cursor_last_moved: old(self)@.now_ns, ..old(self)@ }
            } else {
                old(self)@
            }),
            final(self)@.wf(),
    {
        if moved {
            self.cursor_last_moved = self.now_ns;
        }
        proof {
            state::lemma_same_places(old(self)@, self@);
        }
    }

    /// Whether the pointer has rested for more than a second.
    pub fn cursor_is_idle(&self) -> (r: bool)
        ensures
            r == (self@.now_ns - self@.cursor_last_moved > 1_000_000_000),
    {
        self.now_ns > self.cursor_last_moved && self.now_ns - self.cursor_last_moved > 1_000_000_000
    }

    /// What the bar of an output shows of the workspaces.
    pub fn bar_workspace_context(&self, output_idx: usize) -> (c: WorkspaceContext)
        ensures
            c.current_ws == self@.effective_ws(output_idx as int),
            forall|k: int|
                0 <= k < 9 ==> #[trigger] c.occupied_workspaces@[k] == self@.occupied(
                    output_idx as int,
                    k,
                ),
            c.focused_title@ == self@.shown_title(output_idx as int),
            c.monitor_id == output_idx,
            c.sync_enabled == self@.config.general.sync_workspaces,
            c.is_focused_monitor == (output_idx == self@.focused_output),
    {
        let current_ws: usize = self.effective_ws(output_idx);
        let mut occupied: [bool; 9] = [false; 9];
        let mut focused_title: String = String::new();
        assert(Seq::<char>::empty() =~= focused_title@);
        if output_idx < self.workspaces.len() {
            let ghost o = output_idx as int;
            assert(self@.workspaces[o] == state::pool_view(self.workspaces@[o]@));
            let mut k: usize = 0;
            while k < 9 && k < self.workspaces[output_idx].len()
                invariant
                    o == output_idx,
                    output_idx < self.workspaces.len(),
                    k <= 9,
                    k <= self.workspaces@[o].len(),
                    self@.workspaces[o] == state::pool_view(self.workspaces@[o]@),
                    forall|j: int| 0 <= j < k ==> #[trigger] occupied@[j] == self@.occupied(o, j),
                    forall|j: int| k <= j < 9 ==> !#[trigger] occupied@[j],
                decreases 9 - k,
            {
                assert(self@.workspaces[o][k as int] == self.workspaces@[o]@[k as int]@);
                occupied[k] = self.workspaces[output_idx][k].clients.len() > 0;
                k = k + 1;
            }
            if current_ws < self.workspaces[output_idx].len() {
                assert(self@.workspaces[o][current_ws as int]
                    == self.workspaces@[o]@[current_ws as int]@);
                match self.workspaces[output_idx][current_ws].focused() {
                    Some(w) => {
                        match window_info(&self.windows, w) {
                            Some(i) => {
                                focused_title = text::copy_str(&self.windows[i].title);
                            },
                            None => {},
                        }
                    },
                    None => {},
                }
            }
        }
        WorkspaceContext {
            current_ws,
            occupied_workspaces: occupied,
            focused_title,
            monitor_id: output_idx,
            sync_enabled: self.config.general.sync_workspaces,
            is_focused_monitor: output_idx == self.focused_output,
        }
    }
}

/// The bar takes its height from the top or from the bottom of the output, and
/// the work area is the rest; without a bar it is all of the output.
pub proof fn law_bar_takes_its_height(bar: BarConfig, x: i32, y: i32, size: Size)
    requires
        0 <= bar.height <= size.h,
        -MAX_PLACE <= y <= MAX_PLACE,
        size.h <= MAX_OUTPUT,
    ensures
        ({
            let r = work_area(bar, x, y, size);
            &&& r.x == x
            &&& r.w == size.w
            &&& !bar.enabled ==> r.y == y && r.h == size.h
            &&& bar.enabled ==> size.h - r.h == bar.height
            &&& bar.enabled && bar.position == BarPosition::Top ==> r.y - y == bar.height
            &&& bar.enabled && bar.position == BarPosition::Bottom ==> r.y == y
        }),
{
}

/// Every output ends within the bounds of the desk, and the bounds are no wider
/// and no higher than some output needs.
pub proof fn law_bounds_hold_all_outputs(os: Seq<OutputView>, o: int)
    requires
        forall|i: int| 0 <= i < os.len() ==> state::output_ok(#[trigger] os[i]),
        0 <= o < os.len(),
    ensures
        ({
            let b = bounds_of(os, os.len() as int);
            &&& os[o].x + os[o].size.w <= b.w
            &&& os[o].y + os[o].size.h <= b.h
            &&& b.w == 0 || exists|i: int|
                0 <= i < os.len() && (#[trigger] os[i]).x + os[i].size.w == b.w
            &&& b.h == 0 || exists|i: int|
                0 <= i < os.len() && (#[trigger] os[i]).y + os[i].size.h == b.h
        }),
{
    lemma_bounds(os, os.len() as int);
}

proof fn lemma_bounds(os: Seq<OutputView>, n: int)
    requires
        0 <= n <= os.len(),
        forall|i: int| 0 <= i < os.len() ==> state::output_ok(#[trigger] os[i]),
    ensures
        ({
            let b = bounds_of(os, n);
            &&& 0 <= b.w <= MAX_PLACE + MAX_OUTPUT
            &&& 0 <= b.h <= MAX_PLACE + MAX_OUTPUT
            &&& forall|i: int|
                0 <= i < n ==> (#[trigger] os[i]).x + os[i].size.w <= b.w && os[i].y + os[i].size.h
                    <= b.h
            &&& b.w == 0 || exists|i: int|
                0 <= i < n && (#[trigger] os[i]).x + os[i].size.w == b.w
            &&& b.h == 0 || exists|i: int|
                0 <= i < n && (#[trigger] os[i]).y + os[i].size.h == b.h
        }),
    decreases n,
{
    if n > 0 {
        lemma_bounds(os, n - 1);
        let a = bounds_of(os, n - 1);
        let b = bounds_of(os, n);
        let o = os[n - 1];
        assert(state::output_ok(o));
        if b.w != 0 {
            if b.w == a.w {
                let i = choose|i: int|
                    0 <= i < n - 1 && (#[trigger] os[i]).x + os[i].size.w == a.w;
                assert(os[i].x + os[i].size.w == b.w);
            } else {
                assert(os[n - 1].x + os[n - 1].size.w == b.w);
            }
        }
        if b.h != 0 {
            if b.h == a.h {
                let i = choose|i: int|
                    0 <= i < n - 1 && (#[trigger] os[i]).y + os[i].size.h == a.h;
                assert(os[i].y + os[i].size.h == b.h);
            } else {
                assert(os[n - 1].y + os[n - 1].size.h == b.h);
            }
        }
    }
}

/// A new output stands where it was put and is the last; it shows its first
/// workspace, and all its workspaces are empty and have the gap and the split
/// of the settings. The others stay as they are.
pub proof fn law_new_output_is_empty(
    g: GateView,
    name: Seq<char>,
    size: Size,
    x: i32,
    y: i32,
    k: int,
)
    requires
        g.workspaces.len() == g.outputs.len(),
        0 <= k < WORKSPACE_COUNT,
    ensures
        ({
            let h = g.output_added(name, size, x, y);
            let o = g.outputs.len() as int;
            let out = h.outputs[o];
            let v = h.workspaces[o][k];
            &&& h.outputs.len() == o + 1
            &&& h.workspaces.len() == o + 1
            &&& h.outputs.take(o) =~= g.outputs
            &&& h.workspaces.take(o) =~= g.workspaces
            &&& out.name == name && out.size == size && out.x == x && out.y == y
            &&& out.current_ws == 0 && out.fullscreen is None
            &&& h.workspaces[o].len() == WORKSPACE_COUNT
            &&& v.id == k && v.clients.len() == 0 && v.floating.len() == 0 && v.focused is None
            &&& v.gap_px == g.config.general.gap_px && v.mfact == g.config.general.default_mfact
            &&& h.scratchpads == g.scratchpads
            &&& h.focused_output == g.focused_output
        }),
{
}

/// New settings give every workspace their gap, every output a work area beside
/// their bar, and the keyboard their bindings. Every window stays where it is
/// and every output shows what it showed.
pub proof fn law_new_settings_keep_the_windows(g: GateView, config: Config, o: int, k: int)
    requires
        g.wf(),
        0 <= o < g.outputs.len(),
        0 <= k < WORKSPACE_COUNT,
    ensures
        ({
            let h = g.reconfigured(config);
            let out = g.outputs[o];
            &&& h.workspaces.len() == g.workspaces.len()
            &&& h.workspaces[o].len() == WORKSPACE_COUNT
            &&& h.workspaces[o][k] == (WorkspaceView {
                gap_px: config.general.gap_px,
                ..g.workspaces[o][k]
            })
            &&& h.outputs.len() == g.outputs.len()
            &&& h.outputs[o] == (OutputView {
                workarea: work_area(config.bar, out.x, out.y, out.size),
                ..out
            })
            &&& h.config == config
            &&& h.keybinds.len() == config.keybinds@.len()
            &&& !h.reload_requested
            &&& h.scratchpads == g.scratchpads
            &&& h.focused_output == g.focused_output
            &&& h.current_ws == g.current_ws
        }),
{
    let a = GateView {
        config,
        keybinds: input::binds_of(config.keybinds@),
        reload_requested: false,
        ..g
    };
    let b = GateView { workspaces: a.gaps_updated(), outputs: a.areas_updated(), ..a };
    crate::gate::laws::lemma_settled_frame(b);
    assert(g.workspaces[o].len() == WORKSPACE_COUNT);
}

/// A session starts with one scratchpad for each in the settings, all of them
/// empty, hidden and not yet started, and with no window anywhere.
pub proof fn law_session_starts_empty(config: Config, now: u64, s: int)
    requires
        0 <= s < config.scratchpads@.len() < 0x8000_0000,
    ensures
        ({
            let g = GateView::initial(config, now);
            let pad = g.scratchpads[s];
            &&& g.running && !g.locked && g.lock_pending_since is None && !g.overlay_visible
            &&& g.workspaces.len() == 0 && g.outputs.len() == 0 && g.stage.space.len() == 0
            &&& g.scratchpads.len() == config.scratchpads@.len()
            &&& pad.config_idx == s
            &&& !pad.visible && !pad.hiding && !pad.started && !pad.pending_capture
            &&& pad.workspace.clients.len() == 0 && pad.workspace.focused is None
            &&& pad.workspace.gap_px == config.general.gap_px
            &&& pad.workspace.mfact == config.general.default_mfact
            &&& pad.autostart_remaining.len() == 0
        }),
{
}

/// The bar of an output shows the title of the focused window of the workspace
/// that the output shows.
pub proof fn law_bar_shows_the_focused_title(g: GateView, o: int, w: WindowId, i: int)
    requires
        g.wf(),
        0 <= o < g.outputs.len(),
        ({
            let k = if g.config.general.sync_workspaces {
                g.current_ws
            } else {
                g.outputs[o].current_ws
            };
            g.workspaces[o][k as int].focused_window() == Some(w)
        }),
        0 <= i < g.windows.len(),
        g.windows[i].id == w,
        forall|j: int| 0 <= j < i ==> (#[trigger] g.windows[j]).id != w,
    ensures
        g.shown_title(o) == g.windows[i].title@,
{
    crate::gate::places::law_size_is_looked_up(g.windows, w, i);
    assert(state::output_ok(g.outputs[o]));
    assert(g.workspaces[o].len() == WORKSPACE_COUNT);
}

} // verus!
