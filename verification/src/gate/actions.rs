//! What the user can ask of the compositor, and what then happens.

use vstd::prelude::*;

use crate::gate::animation;
use crate::gate::animation::{ActiveAnimation, Motion, SlideDirection};
use crate::gate::config;
use crate::gate::config::{AnimationPreset, ModMask};
use crate::gate::stage;
use crate::gate::stage::StageView;
use crate::gate::state;
use crate::gate::state::{GateView, OutputView, PendingSend, ScratchpadView};
use crate::gate::workspace;
use crate::gate::workspace::{WindowId, WorkspaceView, WORKSPACE_COUNT};
use crate::geometry::Rect;
use crate::text;

verus! {

/// What the user can ask of the compositor.
#[derive(Debug)]
pub enum Action {
    /// Run the command with this name.
    Spawn(String),
    /// Run this command line.
    SpawnRaw(String),
    KillClient,
    FocusNext,
    FocusPrev,
    ZoomMaster,
    ToggleMonocle,
    ToggleFullscreen,
    ToggleFloat,
    ToggleScratchpad(Option<String>),
    DecreaseMfact,
    IncreaseMfact,
    FocusMonitorNext,
    FocusMonitorPrev,
    SendMonitorNext,
    SendMonitorPrev,
    ToggleSync,
    ViewWs(usize),
    SendWs(usize),
    ShowKeybinds,
    Reload,
    Quit,
    /// Lock the session.
    Lock,
}

impl Action {
    /// Whether it is about what an output shows, so that there has to be one.
    pub open spec fn needs_output(self) -> bool {
        match self {
            Action::Spawn(_) => false,
            Action::SpawnRaw(_) => false,
            Action::KillClient => false,
            Action::ToggleScratchpad(_) => false,
            Action::FocusMonitorNext => false,
            Action::FocusMonitorPrev => false,
            Action::SendMonitorNext => false,
            Action::SendMonitorPrev => false,
            Action::ShowKeybinds => false,
            Action::Reload => false,
            Action::Quit => false,
            Action::Lock => false,
            Action::ViewWs(k) => k < WORKSPACE_COUNT,
            Action::SendWs(k) => k < WORKSPACE_COUNT,
            _ => true,
        }
    }

    /// Whether there has to be an output.
    pub fn is_about_output(&self) -> (b: bool)
        ensures
            b == self.needs_output(),
    {
        match self {
            Action::Spawn(_) | Action::SpawnRaw(_) | Action::KillClient => false,
            Action::ToggleScratchpad(_) => false,
            Action::FocusMonitorNext | Action::FocusMonitorPrev => false,
            Action::SendMonitorNext | Action::SendMonitorPrev => false,
            Action::ShowKeybinds | Action::Reload | Action::Quit | Action::Lock => false,
            Action::ViewWs(k) => *k < WORKSPACE_COUNT,
            Action::SendWs(k) => *k < WORKSPACE_COUNT,
            _ => true,
        }
    }
}

/// A key with its modifiers and what it does.
#[derive(Debug)]
pub struct Keybind {
    pub mods: ModMask,
    pub sym: u32,
    pub action: Action,
}

/// A change of one workspace.
#[derive(Clone, Copy, Debug, PartialEq, Eq, Structural)]
pub enum WsChange {
    FocusNext,
    FocusPrev,
    Zoom,
    FlipLayout,
    MoveSplit { up: bool },
    ToggleFloat,
}

impl WsChange {
    /// The workspace after the change.
    pub open spec fn applied(self, v: WorkspaceView) -> WorkspaceView {
        match self {
            WsChange::FocusNext => v.next(),
            WsChange::FocusPrev => v.prev(),
            WsChange::Zoom => v.zoomed(),
            WsChange::FlipLayout => v.flipped(),
            WsChange::MoveSplit { up } => v.split_moved(up),
            WsChange::ToggleFloat => v.float_toggled(),
        }
    }
}

/// The command line where it is not empty, appended to the others.
pub open spec fn spawned(spawns: Seq<Seq<char>>, cmd: Seq<char>) -> Seq<Seq<char>> {
    if cmd.len() == 0 {
        spawns
    } else {
        spawns.push(cmd)
    }
}

/// The animations without those of the windows.
pub open spec fn cancelled(s: Seq<ActiveAnimation>, ws: Seq<WindowId>) -> Seq<ActiveAnimation>
    decreases ws.len(),
{
    if ws.len() == 0 {
        s
    } else {
        animation::others(cancelled(s, ws.drop_last()), ws.last())
    }
}

/// The first position at or after `i` of `x`; the length where there is none.
pub open spec fn rank_from(order: Seq<usize>, x: usize, i: int) -> int
    decreases order.len() - i,
{
    if i >= order.len() {
        order.len() as int
    } else if order[i] == x {
        i
    } else {
        rank_from(order, x, i + 1)
    }
}

/// The output that stands `direction` places after the current one in the
/// order, around the ends.
pub open spec fn stepped(order: Seq<usize>, current: usize, direction: int) -> Option<usize> {
    let pos = rank_from(order, current, 0);
    if pos < order.len() {
        Some(order[(pos + direction) % (order.len() as int)])
    } else {
        None
    }
}

impl GateView {
    /// The first scratchpad at or after `s` whose settings have the name.
    pub open spec fn scratchpad_named(self, name: Seq<char>, s: int) -> Option<usize>
        decreases self.scratchpads.len() - s,
    {
        if s >= self.scratchpads.len() {
            None
        } else if self.scratchpads[s].config_idx < self.config.scratchpads@.len()
            && self.config.scratchpads@[self.scratchpads[s].config_idx as int].name@ == name {
            Some(s as usize)
        } else {
            self.scratchpad_named(name, s + 1)
        }
    }

    /// The state with one command line more to run.
    pub open spec fn spawning(self, cmd: Seq<char>) -> GateView {
        GateView { spawns: spawned(self.spawns, cmd), ..self }
    }

    /// The state with a change to the workspace that has the focus: that of
    /// the scratchpad which covers the focused output, else the one which that
    /// output shows.
    #[verifier::opaque]
    pub open spec fn front_changed(self, c: WsChange) -> GateView {
        match self.active_scratchpad() {
            Some(s) => self.with_sp_ws(
                s as int,
                c.applied(self.scratchpads[s as int].workspace),
            ),
            None => self.with_ws(
                self.focused_output as int,
                self.effective_ws(self.focused_output as int),
                c.applied(self.front_ws()),
            ),
        }
    }

    /// The state after the part of the screen that has the focus has been
    /// laid out.
    #[verifier::opaque]
    pub open spec fn front_laid(self) -> GateView {
        match self.active_scratchpad() {
            Some(s) => self.scratchpad_laid(s as int),
            None => self.laid_out(),
        }
    }

    /// The state with the focused window among those to close.
    #[verifier::opaque]
    pub open spec fn killing(self) -> GateView {
        GateView {
            closes: match self.focused_window() {
                Some(w) => self.closes.push(w),
                None => self.closes,
            },
            ..self
        }
    }

    /// The state with another fullscreen window on the focused output.
    pub open spec fn with_fullscreen(self, fs: Option<WindowId>) -> GateView {
        let o = self.focused_output as int;
        self.with_output(o, OutputView { fullscreen: fs, ..self.outputs[o] })
    }

    /// The state after the focused window has been made to fill the output, or
    /// a window that does so has gone back. Scratchpads know no fullscreen.
    #[verifier::opaque]
    pub open spec fn fullscreen_toggled(self) -> GateView {
        if self.active_scratchpad() is Some {
            self
        } else if self.outputs[self.focused_output as int].fullscreen is Some {
            self.with_fullscreen(None).settled()
        } else {
            match self.front_ws().focused_window() {
                Some(w) => self.with_fullscreen(Some(w)).settled(),
                None => self,
            }
        }
    }

    /// The state without the borders of scratchpads.
    pub open spec fn pad_borders_cleared(self) -> GateView {
        GateView {
            stage: StageView {
                scratchpad_border_rects: Seq::empty(),
                scratchpad_border_offsets: Seq::empty(),
                ..self.stage
            },
            ..self
        }
    }

    /// The state with scratchpad `s` hidden: its windows stand still and leave
    /// the screen.
    pub open spec fn pad_hidden(self, s: int) -> GateView {
        let ws = self.scratchpads[s].workspace.clients;
        GateView {
            animations: cancelled(self.animations, ws),
            stage: self.stage.unmapped(ws, None),
            focused_scratchpad: if self.focused_scratchpad == Some(s as usize) {
                None
            } else {
                self.focused_scratchpad
            },
            ..self.with_sp(s, ScratchpadView { visible: false, ..self.scratchpads[s] })
        }
    }

    /// Whether scratchpad `s` is in the way of scratchpad `keep`.
    pub open spec fn in_the_way(self, s: int, keep: int) -> bool {
        s != keep && self.scratchpads[s].visible && self.scratchpads[s].output_idx
            == self.focused_output
    }

    /// The state with those of the first `n` scratchpads hidden that are in
    /// the way.
    pub open spec fn way_cleared(self, keep: int, n: int) -> GateView
        decreases n,
    {
        if n <= 0 {
            self
        } else {
            let g = self.way_cleared(keep, n - 1);
            if self.in_the_way(n - 1, keep) {
                g.pad_hidden(n - 1)
            } else {
                g
            }
        }
    }

    /// Whether any scratchpad is in the way.
    pub open spec fn blocked(self, keep: int) -> bool {
        exists|s: int| 0 <= s < self.scratchpads.len() && #[trigger] self.in_the_way(s, keep)
    }

    /// The state after the commands of a scratchpad have been queued, the
    /// first time that it is shown, and the first of them run.
    pub open spec fn pad_started(self, s: int) -> GateView {
        if self.scratchpads[s].started {
            self
        } else {
            let cmds = if s < self.config.scratchpads@.len() {
                text::views(self.config.scratchpads@[s].autostart@)
            } else {
                Seq::empty()
            };
            if cmds.len() == 0 {
                self.with_sp(s, ScratchpadView { started: true, ..self.scratchpads[s] })
            } else {
                self.with_sp(
                    s,
                    ScratchpadView {
                        started: true,
                        autostart_remaining: cmds,
                        ..self.scratchpads[s]
                    },
                ).spawning(cmds[0])
            }
        }
    }

    /// The state with scratchpad `s` on the focused output, and last toggled.
    pub open spec fn pad_shown(self, s: int) -> GateView {
        GateView {
            focused_scratchpad: Some(s as usize),
            ..self.with_sp(
                s,
                ScratchpadView {
                    visible: true,
                    output_idx: self.focused_output,
                    ..self.scratchpads[s]
                },
            )
        }
    }

    /// The way in of a window that stands at `p`.
    pub open spec fn motion(self, p: stage::Placed, direction: SlideDirection) -> Motion {
        let size = state::size_of(self.windows, p.window);
        Motion {
            window: p.window,
            preset: self.config.animations.preset,
            duration_ms: self.config.animations.duration_ms,
            place: Rect { x: p.x, y: p.y, w: size.w, h: size.h },
            area: self.workarea(),
            direction,
        }
    }

    /// The animations after the mapped windows of `ws` have been set on their
    /// way in.
    pub open spec fn coming_in(self, ws: Seq<WindowId>, direction: SlideDirection) -> Seq<
        ActiveAnimation,
    >
        decreases ws.len(),
    {
        if ws.len() == 0 {
            self.animations
        } else {
            let rest = self.coming_in(ws.drop_last(), direction);
            match stage::place_of(self.stage.space, ws.last()) {
                Some(p) => animation::started(
                    rest,
                    self.motion(p, direction).coming(self.now_ns),
                ),
                None => rest,
            }
        }
    }

    /// The state after the mapped windows of `ws` have been set on their way
    /// in.
    pub open spec fn animated_in(self, ws: Seq<WindowId>, direction: SlideDirection) -> GateView {
        GateView { animations: self.coming_in(ws, direction), ..self }
    }

    /// The state after a scratchpad has been toggled. One that is visible on
    /// another output moves to the focused one; one that is visible here
    /// hides; a hidden one shows, in place of any other on this output.
    #[verifier::opaque]
    pub open spec fn pad_toggled(self, name: Seq<char>) -> GateView {
        match self.scratchpad_named(name, 0) {
            None => self,
            Some(i) => {
                let s = i as int;
                if self.scratchpads[s].visible && self.scratchpads[s].output_idx
                    != self.focused_output {
                    self.pad_shown(s).laid_out().scratchpad_laid(s).focus_applied().bar_marked()
                } else if self.scratchpads[s].visible {
                    self.pad_hidden(s).pad_borders_cleared().settled()
                } else {
                    let cleared = self.way_cleared(s, self.scratchpads.len() as int);
                    let ready = if self.blocked(s) {
                        cleared.pad_borders_cleared()
                    } else {
                        cleared
                    };
                    let shown = ready.pad_started(s).pad_shown(s).laid_out().scratchpad_laid(s);
                    shown.animated_in(
                        shown.scratchpads[s].workspace.clients,
                        SlideDirection::Auto,
                    ).focus_applied()
                }
            },
        }
    }

    /// The state with the bar to be drawn again.
    pub open spec fn bar_marked(self) -> GateView {
        GateView { stage: StageView { bar_dirty: true, ..self.stage }, ..self }
    }

    /// The outputs, all of them showing the workspace `k`.
    pub open spec fn outputs_at(self, k: usize) -> Seq<OutputView> {
        self.outputs.map_values(|o: OutputView| OutputView { current_ws: k, ..o })
    }

    /// The state with the workspace `k` in view: on all outputs where they are
    /// synchronised, else on the focused one.
    pub open spec fn viewing(self, k: usize) -> GateView {
        let o = self.focused_output as int;
        if self.config.general.sync_workspaces {
            GateView {
                previous_ws: self.current_ws,
                current_ws: k,
                outputs: self.outputs_at(k),
                ..self
            }
        } else {
            GateView {
                previous_ws: self.outputs[o].current_ws,
                current_ws: k,
                ..self.with_output(o, OutputView { current_ws: k, ..self.outputs[o] })
            }
        }
    }

    /// Which way windows slide when workspace `k` comes into view.
    pub open spec fn toward(self, k: int) -> SlideDirection {
        if k > self.effective_ws(self.focused_output as int) {
            SlideDirection::Right
        } else {
            SlideDirection::Left
        }
    }

    /// The state after a change to workspace `k`, whose windows then come in.
    #[verifier::opaque]
    pub open spec fn viewed(self, k: usize) -> GateView {
        if k >= WORKSPACE_COUNT || k == self.effective_ws(self.focused_output as int) {
            self
        } else {
            let g = self.viewing(k).settled();
            g.animated_in(g.front_ws().clients, self.toward(k as int))
        }
    }

    /// The state with a window moved between two workspaces, and off the
    /// screen.
    pub open spec fn moved(self, w: WindowId, o: int, k: int, o2: int, k2: int) -> GateView {
        let g = self.with_ws(o, k, self.workspaces[o][k].removed(w));
        let g = GateView { stage: g.stage.unmapped(seq![w], None), ..g };
        g.with_ws(o2, k2, g.workspaces[o2][k2].added(w, false))
    }

    /// Whether windows move with visible motion.
    pub open spec fn motion_on(self) -> bool {
        self.config.animations.preset != AnimationPreset::Instant
            && self.config.animations.duration_ms > 0
    }

    /// The state after the focused window has been sent to workspace `k` of
    /// its output: with motion it first slides out, else it moves at once.
    #[verifier::opaque]
    pub open spec fn sent(self, k: usize) -> GateView {
        let o = self.focused_output;
        let from = self.effective_ws(o as int);
        if k >= WORKSPACE_COUNT || k == from {
            self
        } else {
            match self.front_ws().focused_window() {
                None => self,
                Some(w) => match stage::place_of(self.stage.space, w) {
                    Some(p) => if self.motion_on() {
                        GateView {
                            animations: animation::started(
                                self.animations,
                                self.motion(p, self.toward(k as int)).going(self.now_ns, true),
                            ),
                            pending_sends: self.pending_sends.push(
                                PendingSend { window: w, output: o, workspace: k },
                            ),
                            ..self
                        }
                    } else {
                        self.moved(w, o as int, from, o as int, k as int).settled()
                    },
                    None => self.moved(w, o as int, from, o as int, k as int).settled(),
                },
            }
        }
    }

    /// The state with the focus on the output that stands `direction` places
    /// further in the order.
    #[verifier::opaque]
    pub open spec fn monitor_focused(self, direction: int) -> GateView {
        if self.outputs.len() <= 1 {
            self
        } else {
            match stepped(self.order, self.focused_output, direction) {
                None => self,
                Some(o) => (GateView { focused_output: o, ..self }).bar_marked().settled(),
            }
        }
    }

    /// The state after the focused window has been sent to the output that
    /// stands `direction` places further in the order; the focus follows it.
    #[verifier::opaque]
    pub open spec fn monitor_sent(self, direction: int) -> GateView {
        if self.outputs.len() <= 1 {
            self
        } else {
            match stepped(self.order, self.focused_output, direction) {
                None => self,
                Some(o) => match self.front_ws().focused_window() {
                    None => self,
                    Some(w) => (GateView {
                        focused_output: o,
                        ..self.moved(
                            w,
                            self.focused_output as int,
                            self.effective_ws(self.focused_output as int),
                            o as int,
                            self.effective_ws(o as int),
                        )
                    }).bar_marked().settled(),
                },
            }
        }
    }

    /// The state with the synchronisation of workspaces turned over. When it
    /// comes on, all outputs show the workspace of the focused one.
    #[verifier::opaque]
    pub open spec fn sync_toggled(self) -> GateView {
        let config = self.config.sync_toggled();
        if config.general.sync_workspaces {
            let k = self.outputs[self.focused_output as int].current_ws;
            (GateView { config, current_ws: k, outputs: self.outputs_at(k), ..self }).settled()
        } else {
            (GateView { config, ..self }).settled()
        }
    }

    /// The state after locking has been asked for.
    #[verifier::opaque]
    pub open spec fn locking(self) -> GateView {
        if self.locked {
            self
        } else {
            (GateView {
                lock_pending_since: Some(self.now_ns),
                stage: StageView { layout_dirty: true, bar_dirty: true, ..self.stage },
                ..self
            }).spawning("kara-veil"@)
        }
    }

    /// The state after an action.
    pub open spec fn dispatched(self, a: Action) -> GateView {
        match a {
            Action::Spawn(name) => match config::command_from(
                self.config.commands@,
                name@,
                0,
            ) {
                Some(line) => self.spawning(line),
                None => self,
            },
            Action::SpawnRaw(cmd) => self.spawning(cmd@),
            Action::KillClient => self.killing(),
            Action::FocusNext => self.front_changed(WsChange::FocusNext).relaid(),
            Action::FocusPrev => self.front_changed(WsChange::FocusPrev).relaid(),
            Action::ZoomMaster => self.front_changed(WsChange::Zoom).relaid(),
            Action::ToggleMonocle => self.front_changed(WsChange::FlipLayout).front_laid(),
            Action::ToggleFullscreen => self.fullscreen_toggled(),
            Action::ToggleFloat => self.front_changed(WsChange::ToggleFloat).relaid(),
            Action::ToggleScratchpad(name) => self.pad_toggled(
                match name {
                    Some(n) => n@,
                    None => "main"@,
                },
            ),
            Action::DecreaseMfact => self.front_changed(
                WsChange::MoveSplit { up: false },
            ).front_laid(),
            Action::IncreaseMfact => self.front_changed(
                WsChange::MoveSplit { up: true },
            ).front_laid(),
            Action::FocusMonitorNext => self.monitor_focused(1),
            Action::FocusMonitorPrev => self.monitor_focused(-1),
            Action::SendMonitorNext => self.monitor_sent(1),
            Action::SendMonitorPrev => self.monitor_sent(-1),
            Action::ToggleSync => self.sync_toggled(),
            Action::ViewWs(k) => self.viewed(k),
            Action::SendWs(k) => self.sent(k),
            Action::ShowKeybinds => GateView {
                overlay_visible: !self.overlay_visible,
                stage: StageView { layout_dirty: true, ..self.stage },
                ..self
            },
            Action::Reload => GateView { reload_requested: true, ..self },
            Action::Quit => GateView { running: false, ..self },
            Action::Lock => self.locking(),
        }
    }
}

/// The output that stands `direction` places after the current one in the
/// order, around the ends; `None` where the current one is not in the order.
pub fn step_output(order: &Vec<usize>, current: usize, direction: i32) -> (out: Option<usize>)
    ensures
        out == stepped(order@, current, direction as int),
        out matches Some(o) ==> order@.contains(o),
{
    let mut pos: usize = 0;
    while pos < order.len()
        invariant
            pos <= order.len(),
            rank_from(order@, current, 0) == rank_from(order@, current, pos as int),
        decreases order.len() - pos,
    {
        if order[pos] == current {
            let count: i128 = order.len() as i128;
            let sum: i128 = pos as i128 + direction as i128;
            let next: usize = euclid(sum, count) as usize;
            assert(order@[next as int] == order@[(pos + direction) % (order@.len() as int)]);
            return Some(order[next]);
        }
        pos = pos + 1;
    }
    None
}

fn euclid(a: i128, n: i128) -> (r: i128)
    requires
        0 < n <= 0x1_0000_0000_0000_0000,
        -0x1_0000_0000_0000_0000 <= a <= 0x2_0000_0000_0000_0000,
    ensures
        r == a as int % n as int,
        0 <= r < n,
{
    if a >= 0 {
        a % n
    } else {
        let m: i128 = -a;
        let t: i128 = m % n;
        proof {
            let q = m as int / n as int;
            vstd::arithmetic::div_mod::lemma_fundamental_div_mod(m as int, n as int);
            if t == 0 {
                assert(a == n * (-q) + 0) by (nonlinear_arith)
                    requires
                        m == n * q + t,
                        t == 0,
                        a == -m,
                ;
                vstd::arithmetic::div_mod::lemma_fundamental_div_mod_converse(
                    a as int,
                    n as int,
                    -q,
                    0,
                );
            } else {
                assert(a == n * (-q - 1) + (n - t)) by (nonlinear_arith)
                    requires
                        m == n * q + t,
                        a == -m,
                ;
                vstd::arithmetic::div_mod::lemma_fundamental_div_mod_converse(
                    a as int,
                    n as int,
                    -q - 1,
                    n - t,
                );
            }
        }
        if t == 0 {
            0
        } else {
            n - t
        }
    }
}

/// Stepping through the order and back leads to the same output.
pub proof fn law_step_back(order: Seq<usize>, current: usize, direction: int)
    requires
        order.no_duplicates(),
        order.contains(current),
    ensures
        stepped(order, current, direction) is Some,
        stepped(order, stepped(order, current, direction)->0, -direction) == Some(current),
{
    let n = order.len() as int;
    lemma_rank_from(order, current, 0);
    let pos = rank_from(order, current, 0);
    let next = (pos + direction) % n;
    vstd::arithmetic::div_mod::lemma_mod_bound(pos + direction, n);
    let o = order[next];
    lemma_rank_from(order, o, 0);
    assert(rank_from(order, o, 0) == next);
    vstd::arithmetic::div_mod::lemma_sub_mod_noop_right(-direction + pos + direction, 0, n);
    vstd::arithmetic::div_mod::lemma_add_mod_noop_right(-direction, pos + direction, n);
    vstd::arithmetic::div_mod::lemma_small_mod(pos as nat, n as nat);
}

/// The output that is reached by `n` steps to the next one.
pub open spec fn walked(order: Seq<usize>, current: usize, n: nat) -> Option<usize>
    decreases n,
{
    if n == 0 {
        Some(current)
    } else {
        match walked(order, current, (n - 1) as nat) {
            Some(o) => stepped(order, o, 1),
            None => None,
        }
    }
}

proof fn lemma_walked(order: Seq<usize>, current: usize, n: nat)
    requires
        order.no_duplicates(),
        order.contains(current),
    ensures
        walked(order, current, n) == Some(
            order[(rank_from(order, current, 0) + n) % (order.len() as int)],
        ),
    decreases n,
{
    let len = order.len() as int;
    lemma_rank_from(order, current, 0);
    let pos = rank_from(order, current, 0);
    if n == 0 {
        vstd::arithmetic::div_mod::lemma_small_mod(pos as nat, len as nat);
    } else {
        lemma_walked(order, current, (n - 1) as nat);
        let at = (pos + n - 1) % len;
        vstd::arithmetic::div_mod::lemma_mod_bound(pos + n - 1, len);
        lemma_rank_from(order, order[at], 0);
        assert(rank_from(order, order[at], 0) == at);
        vstd::arithmetic::div_mod::lemma_add_mod_noop_right(1, pos + n - 1, len);
    }
}

/// Going on to the next output, again and again, visits every output of the
/// order once and then comes back to where it began.
pub proof fn law_walk_visits_all(order: Seq<usize>, current: usize)
    requires
        order.no_duplicates(),
        order.contains(current),
    ensures
        walked(order, current, order.len()) == Some(current),
        forall|i: nat, j: nat|
            i < j < order.len() ==> #[trigger] walked(order, current, i) != #[trigger] walked(
                order,
                current,
                j,
            ),
        forall|o: usize|
            #[trigger] order.contains(o) ==> exists|k: nat|
                k < order.len() && #[trigger] walked(order, current, k) == Some(o),
{
    let len = order.len() as int;
    lemma_rank_from(order, current, 0);
    let pos = rank_from(order, current, 0);
    lemma_walked(order, current, order.len());
    assert((pos + len) % len == pos) by {
        vstd::arithmetic::div_mod::lemma_mod_add_multiples_vanish(pos, len);
        vstd::arithmetic::div_mod::lemma_small_mod(pos as nat, len as nat);
    }
    assert forall|i: nat, j: nat| i < j < order.len() implies #[trigger] walked(order, current, i)
        != #[trigger] walked(order, current, j) by {
        lemma_walked(order, current, i);
        lemma_walked(order, current, j);
        lemma_turn(pos, i as int, len);
        lemma_turn(pos, j as int, len);
    }
    assert forall|o: usize| #[trigger] order.contains(o) implies exists|k: nat|
        k < order.len() && #[trigger] walked(order, current, k) == Some(o) by {
        let at = choose|at: int| 0 <= at < order.len() && order[at] == o;
        let k = (if at >= pos {
            at - pos
        } else {
            at - pos + len
        }) as nat;
        lemma_walked(order, current, k);
        lemma_turn(pos, k as int, len);
        assert(walked(order, current, k) == Some(o));
    }
}

/// Where `k` steps from `pos` lead around a circle of `n` places.
proof fn lemma_turn(pos: int, k: int, n: int)
    requires
        0 <= pos < n,
        0 <= k < n,
    ensures
        (pos + k) % n == (if pos + k < n {
            pos + k
        } else {
            pos + k - n
        }),
{
    if pos + k < n {
        vstd::arithmetic::div_mod::lemma_small_mod((pos + k) as nat, n as nat);
    } else {
        vstd::arithmetic::div_mod::lemma_mod_add_multiples_vanish(pos + k - n, n);
        vstd::arithmetic::div_mod::lemma_small_mod((pos + k - n) as nat, n as nat);
    }
}

proof fn lemma_rank_from(order: Seq<usize>, x: usize, i: int)
    requires
        0 <= i <= order.len(),
    ensures
        i <= rank_from(order, x, i) <= order.len(),
        rank_from(order, x, i) < order.len() ==> order[rank_from(order, x, i)] == x,
        forall|k: int| i <= k < rank_from(order, x, i) ==> order[k] != x,
    decreases order.len() - i,
{
    if i < order.len() && order[i] != x {
        lemma_rank_from(order, x, i + 1);
    }
}

} // verus!
