//! Carrying out the actions.

use vstd::prelude::*;

use crate::gate::actions;
use crate::gate::actions::{step_output, Action, WsChange};
use crate::gate::animation;
use crate::gate::animation::{Motion, SlideDirection};
use crate::gate::arrange::window_size;
use crate::gate::config::{find_command, AnimationPreset};
use crate::gate::stage;
use crate::gate::stage::{Placed, StageView};
use crate::gate::state;
use crate::gate::state::{Gate, GateView, OutputView, PendingSend, ScratchpadView};
use crate::gate::workspace;
use crate::gate::workspace::{WindowId, Workspace, WORKSPACE_COUNT};
use crate::geometry::{Rect, Size};
use crate::text;
use crate::text::eq_str;

verus! {

/// A copy of a list of windows.
pub fn copy_windows(ws: &Vec<WindowId>) -> (out: Vec<WindowId>)
    ensures
        out@ == ws@,
{
    let mut out: Vec<WindowId> = Vec::new();
    let mut i: usize = 0;
    while i < ws.len()
        invariant
            i <= ws.len(),
            out@ == ws@.take(i as int),
        decreases ws.len() - i,
    {
        out.push(ws[i]);
        i = i + 1;
        assert(ws@.take(i as int) =~= ws@.take(i - 1).push(ws@[i - 1]));
    }
    assert(ws@.take(i as int) =~= ws@);
    out
}

fn change(ws: &mut Workspace, c: WsChange)
    requires
        state::ws_ok(old(ws)@),
    ensures
        final(ws)@ == c.applied(old(ws)@),
        state::ws_ok(final(ws)@),
        forall|w: WindowId| #[trigger]
            final(ws)@.clients.contains(w) ==> old(ws)@.clients.contains(w),
{
    match c {
        WsChange::FocusNext => {
            ws.focus_next();
        },
        WsChange::FocusPrev => {
            ws.focus_prev();
        },
        WsChange::Zoom => {
            ws.zoom_master();
            assert forall|w: WindowId| #[trigger] ws@.clients.contains(w) implies old(
                ws,
            )@.clients.contains(w) by {
                let j = choose|j: int| 0 <= j < ws@.clients.len() && ws@.clients[j] == w;
                let f = old(ws)@.cursor();
                let i = if j == 0 {
                    f
                } else if j == f {
                    0
                } else {
                    j
                };
                if ws@ != old(ws)@ {
                    assert(old(ws)@.clients[i] == w);
                }
            }
        },
        WsChange::FlipLayout => {
            ws.toggle_layout();
        },
        WsChange::MoveSplit { up } => {
            ws.adjust_mfact(up);
        },
        WsChange::ToggleFloat => {
            ws.toggle_focused_floating();
        },
    }
}

impl Gate {
    /// Changes the workspace that has the focus.
    fn change_front(&mut self, c: WsChange)
        requires
            old(self)@.wf(),
            old(self)@.outputs.len() > 0,
        ensures
            final(self)@ == old(self)@.front_changed(c),
            final(self)@.wf(),
    {
        proof {
            reveal(GateView::front_changed);
        }
        match self.active_scratchpad_for_focus() {
            Some(s) => {
                assert(self@.scratchpads[s as int] == self.scratchpads@[s as int]@);
                assert(state::ws_ok(self@.scratchpads[s as int].workspace));
                change(&mut self.scratchpads[s].workspace, c);
                proof {
                    let v = self.scratchpads@[s as int]@;
                    assert(v =~= (ScratchpadView {
                        workspace: v.workspace,
                        ..old(self)@.scratchpads[s as int]
                    }));
                    assert(self@.scratchpads =~= old(self)@.scratchpads.update(s as int, v));
                    assert(self@ =~= old(self)@.with_sp(s as int, v));
                    state::lemma_with_sp(old(self)@, s as int, v);
                }
            },
            None => {
                let o: usize = self.focused_output;
                let k: usize = self.effective_ws(o);
                self.change_ws(o, k, c);
            },
        }
    }

    fn change_ws(&mut self, o: usize, k: usize, c: WsChange)
        requires
            old(self)@.wf(),
            o < old(self)@.workspaces.len(),
            k < WORKSPACE_COUNT,
        ensures
            final(self)@ == old(self)@.with_ws(
                o as int,
                k as int,
                c.applied(old(self)@.workspaces[o as int][k as int]),
            ),
            final(self)@.wf(),
    {
        assert(self@.workspaces[o as int] == state::pool_view(self.workspaces@[o as int]@));
        assert(self@.workspaces[o as int].len() == WORKSPACE_COUNT);
        assert(self@.workspaces[o as int][k as int] == self.workspaces@[o as int]@[k as int]@);
        assert(state::ws_ok(self@.workspaces[o as int][k as int]));
        change(&mut self.workspaces[o][k], c);
        proof {
            let v = c.applied(old(self)@.workspaces[o as int][k as int]);
            assert(self@.workspaces[o as int] =~= old(self)@.workspaces[o as int].update(
                k as int,
                v,
            ));
            assert(self@.workspaces =~= old(self)@.with_ws(o as int, k as int, v).workspaces);
            assert(self@ =~= old(self)@.with_ws(o as int, k as int, v));
            state::lemma_with_ws(old(self)@, o as int, k as int, v);
        }
    }

    /// Removes a window from a workspace.
    pub fn take_from_ws(&mut self, o: usize, k: usize, w: WindowId) -> (had_focus: bool)
        requires
            old(self)@.wf(),
            o < old(self)@.workspaces.len(),
            k < WORKSPACE_COUNT,
        ensures
            final(self)@ == old(self)@.with_ws(
                o as int,
                k as int,
                old(self)@.workspaces[o as int][k as int].removed(w),
            ),
            final(self)@.wf(),
            !final(self)@.in_ws(o as int, k as int, w),
            forall|o2: int, k2: int| #[trigger]
                final(self)@.in_ws(o2, k2, w) ==> old(self)@.in_ws(o2, k2, w),
            forall|s: int| #[trigger] final(self)@.in_sp(s, w) <==> old(self)@.in_sp(s, w),
            had_focus == (old(self)@.workspaces[o as int][k as int].focused_window() == Some(w)),
    {
        assert(self@.workspaces[o as int] == state::pool_view(self.workspaces@[o as int]@));
        assert(self@.workspaces[o as int].len() == WORKSPACE_COUNT);
        assert(self@.workspaces[o as int][k as int] == self.workspaces@[o as int]@[k as int]@);
        assert(state::ws_ok(self@.workspaces[o as int][k as int]));
        let had_focus: bool = self.workspaces[o][k].remove_client(w);
        proof {
            let before = old(self)@.workspaces[o as int][k as int];
            let v = before.removed(w);
            workspace::lemma_removed_wf(before, w);
            assert(self@.workspaces[o as int] =~= old(self)@.workspaces[o as int].update(
                k as int,
                v,
            ));
            assert(self@.workspaces =~= old(self)@.with_ws(o as int, k as int, v).workspaces);
            assert(self@ =~= old(self)@.with_ws(o as int, k as int, v));
            state::lemma_with_ws(old(self)@, o as int, k as int, v);
            assert forall|o2: int, k2: int| #[trigger] self@.in_ws(o2, k2, w) implies old(
                self,
            )@.in_ws(o2, k2, w) by {}
        }
        had_focus
    }

    /// Adds a window to a workspace.
    pub fn put_in_ws(&mut self, o: usize, k: usize, w: WindowId, floats: bool)
        requires
            old(self)@.wf(),
            o < old(self)@.workspaces.len(),
            k < WORKSPACE_COUNT,
            old(self)@.free(w),
        ensures
            final(self)@ == old(self)@.with_ws(
                o as int,
                k as int,
                old(self)@.workspaces[o as int][k as int].added(w, floats),
            ),
            final(self)@.wf(),
    {
        assert(self@.workspaces[o as int] == state::pool_view(self.workspaces@[o as int]@));
        assert(self@.workspaces[o as int].len() == WORKSPACE_COUNT);
        assert(self@.workspaces[o as int][k as int] == self.workspaces@[o as int]@[k as int]@);
        assert(state::ws_ok(self@.workspaces[o as int][k as int]));
        assert(!self@.in_ws(o as int, k as int, w));
        self.workspaces[o][k].add_client_floating(w, floats);
        proof {
            let before = old(self)@.workspaces[o as int][k as int];
            let v = before.added(w, floats);
            assert(self@.workspaces[o as int] =~= old(self)@.workspaces[o as int].update(
                k as int,
                v,
            ));
            assert(self@.workspaces =~= old(self)@.with_ws(o as int, k as int, v).workspaces);
            assert(self@ =~= old(self)@.with_ws(o as int, k as int, v));
            assert forall|u: WindowId| #[trigger] v.clients.contains(u) implies old(
                self,
            )@.workspaces[o as int][k as int].clients.contains(u) || old(self)@.free(u) by {
                let j = choose|j: int| 0 <= j < v.clients.len() && v.clients[j] == u;
                if j < before.clients.len() {
                    assert(before.clients[j] == u);
                }
            }
            state::lemma_with_ws(old(self)@, o as int, k as int, v);
        }
    }

    /// Runs a command line, unless it is empty.
    pub fn spawn_raw(&mut self, cmd: &str)
        requires
            old(self)@.wf(),
        ensures
            final(self)@ == old(self)@.spawning(cmd@),
            final(self)@.wf(),
    {
        if !cmd.is_empty() {
            self.spawns.push(cmd.to_owned());
            assert(text::views(self.spawns@) =~= text::views(old(self).spawns@).push(cmd@));
        }
        proof {
            state::lemma_same_places(old(self)@, self@);
        }
    }

    /// Runs the command with the name, where there is one.
    pub fn spawn_named(&mut self, name: &str)
        requires
            old(self)@.wf(),
        ensures
            final(self)@ == (match crate::gate::config::command_from(
                old(self)@.config.commands@,
                name@,
                0,
            ) {
                Some(line) => old(self)@.spawning(line),
                None => old(self)@,
            }),
            final(self)@.wf(),
    {
        match find_command(&self.config.commands, name) {
            Some(line) => {
                self.spawn_raw(line.as_str());
            },
            None => {},
        }
    }

    /// Asks the focused window to close.
    pub fn kill_focused(&mut self)
        requires
            old(self)@.wf(),
        ensures
            final(self)@ == old(self)@.killing(),
            final(self)@.wf(),
    {
        proof {
            reveal(GateView::killing);
        }
        match self.compute_focused_window() {
            Some(w) => {
                self.closes.push(w);
            },
            None => {},
        }
        proof {
            state::lemma_same_places(old(self)@, self@);
        }
    }

    fn lay_front(&mut self)
        requires
            old(self)@.wf(),
        ensures
            final(self)@ == old(self)@.front_laid(),
            final(self)@.wf(),
    {
        proof {
            reveal(GateView::front_laid);
        }
        match self.active_scratchpad_for_focus() {
            Some(s) => {
                self.apply_scratchpad_layout(s);
            },
            None => {
                self.apply_layout();
            },
        }
    }

    fn set_fullscreen(&mut self, fs: Option<WindowId>)
        requires
            old(self)@.wf(),
            old(self)@.outputs.len() > 0,
        ensures
            final(self)@ == old(self)@.with_fullscreen(fs),
            final(self)@.wf(),
    {
        let o: usize = self.focused_output;
        assert(self@.outputs[o as int] == self.outputs@[o as int]@);
        assert(state::output_ok(self@.outputs[o as int]));
        self.outputs[o].fullscreen_window = fs;
        proof {
            let v = OutputView { fullscreen: fs, ..old(self)@.outputs[o as int] };
            assert(self@.outputs =~= old(self)@.outputs.update(o as int, v));
            assert forall|i: int| 0 <= i < self@.outputs.len() implies state::output_ok(
                #[trigger] self@.outputs[i],
            ) by {
                assert(state::output_ok(old(self)@.outputs[i]));
            }
            assert(self@ =~= old(self)@.with_fullscreen(fs));
            state::lemma_same_places(old(self)@, self@);
        }
    }

    /// Lets the focused window fill its output, or ends that.
    pub fn do_toggle_fullscreen(&mut self)
        requires
            old(self)@.wf(),
            old(self)@.outputs.len() > 0,
        ensures
            final(self)@ == old(self)@.fullscreen_toggled(),
            final(self)@.wf(),
    {
        proof {
            reveal(GateView::fullscreen_toggled);
        }
        if self.active_scratchpad_for_focus().is_some() {
            return;
        }
        let o: usize = self.focused_output;
        assert(self@.outputs[o as int] == self.outputs@[o as int]@);
        if self.outputs[o].fullscreen_window.is_some() {
            self.set_fullscreen(None);
            self.settle();
        } else {
            match self.front_focused() {
                Some(w) => {
                    self.set_fullscreen(Some(w));
                    self.settle();
                },
                None => {},
            }
        }
    }

    /// The focused window of the workspace that the focused output shows.
    fn front_focused(&self) -> (out: Option<WindowId>)
        requires
            self@.wf(),
            self@.outputs.len() > 0,
        ensures
            out == self@.front_ws().focused_window(),
            out matches Some(w) ==> self@.in_ws(
                self.focused_output as int,
                self@.effective_ws(self.focused_output as int),
                w,
            ),
    {
        let o: usize = self.focused_output;
        let k: usize = self.effective_ws(o);
        assert(self@.workspaces[o as int] == state::pool_view(self.workspaces@[o as int]@));
        assert(self@.workspaces[o as int].len() == WORKSPACE_COUNT);
        assert(self@.workspaces[o as int][k as int] == self.workspaces@[o as int]@[k as int]@);
        self.workspaces[o][k].focused()
    }

    fn cancel_all(&mut self, ws: &Vec<WindowId>)
        requires
            old(self)@.wf(),
        ensures
            final(self)@ == (GateView {
                animations: actions::cancelled(old(self)@.animations, ws@),
                ..old(self)@
            }),
            final(self)@.wf(),
    {
        let mut i: usize = 0;
        assert(ws@.take(0) =~= Seq::<WindowId>::empty());
        while i < ws.len()
            invariant
                i <= ws.len(),
                self@ == (GateView {
                    animations: actions::cancelled(old(self)@.animations, ws@.take(i as int)),
                    ..old(self)@
                }),
            decreases ws.len() - i,
        {
            self.animations.cancel(ws[i]);
            i = i + 1;
            assert(ws@.take(i as int).drop_last() =~= ws@.take(i - 1));
        }
        assert(ws@.take(i as int) =~= ws@);
        proof {
            state::lemma_same_places(old(self)@, self@);
        }
    }

    fn replace_sp_flags(&mut self, s: usize, visible: bool, output_idx: usize)
        requires
            old(self)@.wf(),
            s < old(self)@.scratchpads.len(),
        ensures
            final(self)@ == old(self)@.with_sp(
                s as int,
                ScratchpadView { visible, output_idx, ..old(self)@.scratchpads[s as int] },
            ),
            final(self)@.wf(),
    {
        assert(self@.scratchpads[s as int] == self.scratchpads@[s as int]@);
        assert(state::ws_ok(self@.scratchpads[s as int].workspace));
        self.scratchpads[s].visible = visible;
        self.scratchpads[s].output_idx = output_idx;
        proof {
            let v = ScratchpadView { visible, output_idx, ..old(self)@.scratchpads[s as int] };
            assert(self@.scratchpads =~= old(self)@.scratchpads.update(s as int, v));
            assert(self@ =~= old(self)@.with_sp(s as int, v));
            state::lemma_with_sp(old(self)@, s as int, v);
        }
    }

    fn hide_pad(&mut self, s: usize)
        requires
            old(self)@.wf(),
            s < old(self)@.scratchpads.len(),
        ensures
            final(self)@ == old(self)@.pad_hidden(s as int),
            final(self)@.wf(),
    {
        assert(self@.scratchpads[s as int] == self.scratchpads@[s as int]@);
        let windows: Vec<WindowId> = copy_windows(&self.scratchpads[s].workspace.clients);
        self.cancel_all(&windows);
        assert(self@.scratchpads[s as int] == self.scratchpads@[s as int]@);
        let output_idx: usize = self.scratchpads[s].output_idx;
        self.replace_sp_flags(s, false, output_idx);
        let ghost before = self@;
        self.stage.unmap(&windows, None);
        match self.focused_scratchpad {
            Some(f) => {
                if f == s {
                    self.focused_scratchpad = None;
                }
            },
            None => {},
        }
        proof {
            state::lemma_same_places(before, self@);
            assert(self@ =~= old(self)@.pad_hidden(s as int));
        }
    }

    pub fn clear_pad_borders(&mut self)
        requires
            old(self)@.wf(),
        ensures
            final(self)@ == old(self)@.pad_borders_cleared(),
            final(self)@.wf(),
    {
        self.stage.scratchpad_border_rects = Vec::new();
        self.stage.scratchpad_border_offsets = Vec::new();
        proof {
            assert(self@ =~= old(self)@.pad_borders_cleared());
            state::lemma_same_places(old(self)@, self@);
        }
    }

    /// Hides the scratchpads that are in the way of `keep`, and returns
    /// whether there were any.
    fn clear_way(&mut self, keep: usize) -> (any: bool)
        requires
            old(self)@.wf(),
        ensures
            final(self)@ == old(self)@.way_cleared(
                keep as int,
                old(self)@.scratchpads.len() as int,
            ),
            final(self)@.wf(),
            final(self)@.scratchpads.len() == old(self)@.scratchpads.len(),
            any == old(self)@.blocked(keep as int),
    {
        let mut any: bool = false;
        let mut s: usize = 0;
        let ghost g = self@;
        while s < self.scratchpads.len()
            invariant
                s <= self.scratchpads.len(),
                self@ == g.way_cleared(keep as int, s as int),
                self@.wf(),
                self@.scratchpads.len() == g.scratchpads.len(),
                self@.focused_output == g.focused_output,
                forall|i: int|
                    s <= i < g.scratchpads.len() ==> #[trigger] self@.scratchpads[i]
                        == g.scratchpads[i],
                any == exists|i: int| 0 <= i < s && #[trigger] g.in_the_way(i, keep as int),
            decreases self.scratchpads.len() - s,
        {
            assert(self@.scratchpads[s as int] == self.scratchpads@[s as int]@);
            assert(self@.scratchpads[s as int] == g.scratchpads[s as int]);
            let ghost was = any;
            if s != keep && self.scratchpads[s].visible && self.scratchpads[s].output_idx
                == self.focused_output {
                assert(g.in_the_way(s as int, keep as int));
                self.hide_pad(s);
                any = true;
            }
            proof {
                if was {
                    let i = choose|i: int| 0 <= i < s && #[trigger] g.in_the_way(i, keep as int);
                    assert(0 <= i < s + 1 && g.in_the_way(i, keep as int));
                }
            }
            s = s + 1;
            assert(self.scratchpads@.len() == self@.scratchpads.len());
        }
        any
    }

    #[verifier::rlimit(40)]
    #[verifier::spinoff_prover]
    fn start_pad(&mut self, s: usize)
        requires
            old(self)@.wf(),
            s < old(self)@.scratchpads.len(),
        ensures
            final(self)@ == old(self)@.pad_started(s as int),
            final(self)@.wf(),
            final(self)@.scratchpads.len() == old(self)@.scratchpads.len(),
    {
        assert(self@.scratchpads[s as int] == self.scratchpads@[s as int]@);
        assert(state::ws_ok(self@.scratchpads[s as int].workspace));
        if self.scratchpads[s].started {
            return;
        }
        let cmds: Vec<String> = if s < self.config.scratchpads.len() {
            text::copy_list(&self.config.scratchpads[s].autostart)
        } else {
            Vec::new()
        };
        let ghost lines = if s < self@.config.scratchpads@.len() {
            text::views(self@.config.scratchpads@[s as int].autostart@)
        } else {
            Seq::empty()
        };
        assert(text::views(cmds@) =~= lines);
        self.scratchpads[s].started = true;
        if cmds.len() == 0 {
            proof {
                let v = ScratchpadView { started: true, ..old(self)@.scratchpads[s as int] };
                assert(self@.scratchpads =~= old(self)@.scratchpads.update(s as int, v));
                assert(self@ =~= old(self)@.with_sp(s as int, v));
                state::lemma_with_sp(old(self)@, s as int, v);
            }
        } else {
            let first: String = text::copy_str(&cmds[0]);
            assert(first@ == lines[0]);
            self.scratchpads[s].autostart_remaining = cmds;
            proof {
                let v = ScratchpadView {
                    started: true,
                    autostart_remaining: lines,
                    ..old(self)@.scratchpads[s as int]
                };
                assert(self@.scratchpads =~= old(self)@.scratchpads.update(s as int, v));
                assert(self@ =~= old(self)@.with_sp(s as int, v));
                state::lemma_with_sp(old(self)@, s as int, v);
            }
            self.spawn_raw(first.as_str());
        }
    }

    fn show_pad(&mut self, s: usize)
        requires
            old(self)@.wf(),
            s < old(self)@.scratchpads.len(),
        ensures
            final(self)@ == old(self)@.pad_shown(s as int),
            final(self)@.wf(),
    {
        let out: usize = self.focused_output;
        self.replace_sp_flags(s, true, out);
        let ghost before = self@;
        self.focused_scratchpad = Some(s);
        proof {
            state::lemma_same_places(before, self@);
        }
    }

    /// Sets the mapped windows of a list on their way in.
    pub fn animate_windows(&mut self, ws: &Vec<WindowId>, direction: SlideDirection)
        requires
            old(self)@.wf(),
        ensures
            final(self)@ == old(self)@.animated_in(ws@, direction),
            final(self)@.wf(),
    {
        let mut i: usize = 0;
        assert(ws@.take(0) =~= Seq::<WindowId>::empty());
        while i < ws.len()
            invariant
                i <= ws.len(),
                self@ == old(self)@.animated_in(ws@.take(i as int), direction),
            decreases ws.len() - i,
        {
            let w: WindowId = ws[i];
            assert(ws@.take(i + 1).drop_last() =~= ws@.take(i as int));
            match self.stage.location(w) {
                Some(p) => {
                    let m: Motion = self.motion_of(p, direction);
                    let now: u64 = self.now_ns;
                    assert(m == old(self)@.motion(p, direction));
                    self.animations.animate_in(m, now);
                },
                None => {},
            }
            i = i + 1;
        }
        assert(ws@.take(i as int) =~= ws@);
        proof {
            state::lemma_same_places(old(self)@, self@);
        }
    }

    /// The way of a window that stands at `p`.
    pub fn motion_of(&self, p: Placed, direction: SlideDirection) -> (m: Motion)
        ensures
            m == self@.motion(p, direction),
    {
        let size: Size = window_size(&self.windows, p.window);
        Motion {
            window: p.window,
            preset: self.config.animations.preset,
            duration_ms: self.config.animations.duration_ms,
            place: Rect { x: p.x, y: p.y, w: size.w, h: size.h },
            area: self.workarea(),
            direction,
        }
    }

    fn find_pad(&self, name: &str) -> (out: Option<usize>)
        ensures
            out == self@.scratchpad_named(name@, 0),
            out matches Some(s) ==> s < self@.scratchpads.len(),
    {
        let mut s: usize = 0;
        while s < self.scratchpads.len()
            invariant
                s <= self.scratchpads.len(),
                self@.scratchpad_named(name@, 0) == self@.scratchpad_named(name@, s as int),
            decreases self.scratchpads.len() - s,
        {
            assert(self@.scratchpads[s as int] == self.scratchpads@[s as int]@);
            let c: usize = self.scratchpads[s].config_idx;
            if c < self.config.scratchpads.len() && eq_str(
                self.config.scratchpads[c].name.as_str(),
                name,
            ) {
                return Some(s);
            }
            s = s + 1;
        }
        None
    }

    /// Shows a scratchpad, moves it to the focused output, or hides it.
    pub fn do_toggle_scratchpad(&mut self, name: &str)
        requires
            old(self)@.wf(),
        ensures
            final(self)@ == old(self)@.pad_toggled(name@),
            final(self)@.wf(),
    {
        proof {
            reveal(GateView::pad_toggled);
        }
        let s: usize = match self.find_pad(name) {
            Some(s) => s,
            None => {
                return;
            },
        };
        assert(self@.scratchpads[s as int] == self.scratchpads@[s as int]@);
        if self.scratchpads[s].visible {
            if self.scratchpads[s].output_idx != self.focused_output {
                self.show_pad(s);
                self.apply_layout();
                self.apply_scratchpad_layout(s);
                self.apply_focus();
                self.mark_bar();
            } else {
                self.hide_pad(s);
                self.clear_pad_borders();
                self.settle();
            }
            return;
        }
        if self.clear_way(s) {
            self.clear_pad_borders();
        }
        self.start_pad(s);
        self.show_pad(s);
        self.apply_layout();
        self.apply_scratchpad_layout(s);
        assert(self@.scratchpads[s as int] == self.scratchpads@[s as int]@);
        let windows: Vec<WindowId> = copy_windows(&self.scratchpads[s].workspace.clients);
        self.animate_windows(&windows, SlideDirection::Auto);
        self.apply_focus();
    }

    fn mark_bar(&mut self)
        requires
            old(self)@.wf(),
        ensures
            final(self)@ == old(self)@.bar_marked(),
            final(self)@.wf(),
    {
        self.stage.bar_dirty = true;
        proof {
            assert(self@ =~= old(self)@.bar_marked());
            state::lemma_same_places(old(self)@, self@);
        }
    }

    fn show_on_all(&mut self, k: usize)
        requires
            old(self)@.wf(),
            k < WORKSPACE_COUNT,
        ensures
            final(self)@ == (GateView { outputs: old(self)@.outputs_at(k), ..old(self)@ }),
            final(self)@.wf(),
    {
        let mut o: usize = 0;
        while o < self.outputs.len()
            invariant
                k < WORKSPACE_COUNT,
                o <= self.outputs.len(),
                self.outputs.len() == old(self).outputs.len(),
                self@ == (GateView { outputs: self@.outputs, ..old(self)@ }),
                forall|i: int|
                    0 <= i < o ==> #[trigger] self@.outputs[i] == (OutputView {
                        current_ws: k,
                        ..old(self)@.outputs[i]
                    }),
                forall|i: int|
                    o <= i < self@.outputs.len() ==> #[trigger] self@.outputs[i] == old(
                        self,
                    )@.outputs[i],
            decreases self.outputs.len() - o,
        {
            let ghost before = self@;
            self.outputs[o].current_ws = k;
            proof {
                let v = OutputView { current_ws: k, ..before.outputs[o as int] };
                assert(self@.outputs =~= before.outputs.update(o as int, v));
                assert(self@ =~= (GateView { outputs: self@.outputs, ..old(self)@ }));
            }
            o = o + 1;
        }
        proof {
            assert(self@.outputs =~= old(self)@.outputs_at(k));
            assert forall|i: int| 0 <= i < self@.outputs.len() implies state::output_ok(
                #[trigger] self@.outputs[i],
            ) by {
                assert(state::output_ok(old(self)@.outputs[i]));
            }
            state::lemma_same_places(old(self)@, self@);
        }
    }

    fn bring_into_view(&mut self, k: usize)
        requires
            old(self)@.wf(),
            old(self)@.outputs.len() > 0,
            k < WORKSPACE_COUNT,
        ensures
            final(self)@ == old(self)@.viewing(k),
            final(self)@.wf(),
    {
        if self.config.general.sync_workspaces {
            self.show_on_all(k);
            let ghost before = self@;
            self.previous_ws = self.current_ws;
            self.current_ws = k;
            proof {
                state::lemma_same_places(before, self@);
            }
        } else {
            let o: usize = self.focused_output;
            assert(self@.outputs[o as int] == self.outputs@[o as int]@);
            assert(state::output_ok(self@.outputs[o as int]));
            self.previous_ws = self.outputs[o].current_ws;
            self.outputs[o].current_ws = k;
            self.current_ws = k;
            proof {
                let v = OutputView { current_ws: k, ..old(self)@.outputs[o as int] };
                assert(self@.outputs =~= old(self)@.outputs.update(o as int, v));
                assert forall|i: int| 0 <= i < self@.outputs.len() implies state::output_ok(
                    #[trigger] self@.outputs[i],
                ) by {
                    assert(state::output_ok(old(self)@.outputs[i]));
                }
                assert(self@ =~= old(self)@.viewing(k));
                state::lemma_same_places(old(self)@, self@);
            }
        }
    }

    fn toward(&self, k: usize) -> (d: SlideDirection)
        ensures
            d == self@.toward(k as int),
    {
        if k > self.effective_ws(self.focused_output) {
            SlideDirection::Right
        } else {
            SlideDirection::Left
        }
    }

    /// Brings a workspace into view.
    pub fn do_view_ws(&mut self, idx: usize)
        requires
            old(self)@.wf(),
            idx < WORKSPACE_COUNT ==> old(self)@.outputs.len() > 0,
        ensures
            final(self)@ == old(self)@.viewed(idx),
            final(self)@.wf(),
    {
        proof {
            reveal(GateView::viewed);
        }
        if idx >= WORKSPACE_COUNT || idx == self.effective_ws(self.focused_output) {
            return;
        }
        let direction: SlideDirection = self.toward(idx);
        self.bring_into_view(idx);
        self.settle();
        let o: usize = self.focused_output;
        let k: usize = self.effective_ws(o);
        assert(self@.workspaces[o as int] == state::pool_view(self.workspaces@[o as int]@));
        assert(self@.workspaces[o as int].len() == WORKSPACE_COUNT);
        assert(self@.workspaces[o as int][k as int] == self.workspaces@[o as int]@[k as int]@);
        let windows: Vec<WindowId> = copy_windows(&self.workspaces[o][k].clients);
        self.animate_windows(&windows, direction);
    }

    /// Moves a window between two workspaces and off the screen.
    fn move_window(&mut self, w: WindowId, o: usize, k: usize, o2: usize, k2: usize)
        requires
            old(self)@.wf(),
            o < old(self)@.workspaces.len(),
            k < WORKSPACE_COUNT,
            o2 < old(self)@.workspaces.len(),
            k2 < WORKSPACE_COUNT,
            old(self)@.in_ws(o as int, k as int, w),
        ensures
            final(self)@ == old(self)@.moved(w, o as int, k as int, o2 as int, k2 as int),
            final(self)@.wf(),
    {
        let _ = self.take_from_ws(o, k, w);
        let ghost before = self@;
        self.stage.unmap_one(w);
        proof {
            state::lemma_same_places(before, self@);
            let g = self@;
            reveal(GateView::owned_once);
            assert(g.free(w)) by {
                assert forall|o3: int, k3: int| !#[trigger] g.in_ws(o3, k3, w) by {
                    if g.in_ws(o3, k3, w) {
                        assert(before.in_ws(o3, k3, w));
                        assert(old(self)@.in_ws(o3, k3, w));
                    }
                }
                assert forall|s: int| !#[trigger] g.in_sp(s, w) by {
                    if g.in_sp(s, w) {
                        assert(before.in_sp(s, w));
                        assert(old(self)@.in_sp(s, w));
                    }
                }
            }
        }
        self.put_in_ws(o2, k2, w, false);
    }

    /// Sends the focused window to another workspace of its output.
    pub fn do_send_ws(&mut self, idx: usize)
        requires
            old(self)@.wf(),
            idx < WORKSPACE_COUNT ==> old(self)@.outputs.len() > 0,
        ensures
            final(self)@ == old(self)@.sent(idx),
            final(self)@.wf(),
    {
        proof {
            reveal(GateView::sent);
        }
        let o: usize = self.focused_output;
        let k: usize = self.effective_ws(o);
        if idx >= WORKSPACE_COUNT || idx == k {
            return;
        }
        let w: WindowId = match self.front_focused() {
            Some(w) => w,
            None => {
                return;
            },
        };
        if self.config.animations.preset != AnimationPreset::Instant
            && self.config.animations.duration_ms > 0 {
            match self.stage.location(w) {
                Some(p) => {
                    let direction: SlideDirection = self.toward(idx);
                    let m: Motion = self.motion_of(p, direction);
                    let now: u64 = self.now_ns;
                    self.animations.animate_out(m, now);
                    self.pending_sends.push(PendingSend { window: w, output: o, workspace: idx });
                    proof {
                        state::lemma_same_places(old(self)@, self@);
                    }
                    return;
                },
                None => {},
            }
        }
        self.move_window(w, o, k, o, idx);
        self.settle();
    }

    fn focus_output(&mut self, o: usize)
        requires
            old(self)@.wf(),
            o < old(self)@.outputs.len(),
        ensures
            final(self)@ == (GateView { focused_output: o, ..old(self)@ }).bar_marked(),
            final(self)@.wf(),
    {
        self.focused_output = o;
        self.stage.bar_dirty = true;
        proof {
            assert(self@ =~= (GateView { focused_output: o, ..old(self)@ }).bar_marked());
            state::lemma_same_places(old(self)@, self@);
        }
    }

    fn neighbour(&self, direction: i32) -> (out: Option<usize>)
        requires
            self@.wf(),
        ensures
            out == actions::stepped(self@.order, self.focused_output, direction as int),
            out matches Some(o) ==> o < self@.outputs.len(),
    {
        let out: Option<usize> = step_output(&self.output_order, self.focused_output, direction);
        proof {
            if out is Some {
                let i = choose|i: int|
                    0 <= i < self@.order.len() && self@.order[i] == out->0;
                assert(self@.order[i] < self@.outputs.len());
            }
        }
        out
    }

    /// Moves the focus to another output.
    pub fn do_focus_monitor(&mut self, direction: i32)
        requires
            old(self)@.wf(),
        ensures
            final(self)@ == old(self)@.monitor_focused(direction as int),
            final(self)@.wf(),
    {
        proof {
            reveal(GateView::monitor_focused);
        }
        if self.outputs.len() <= 1 {
            return;
        }
        match self.neighbour(direction) {
            Some(o) => {
                self.focus_output(o);
                self.settle();
            },
            None => {},
        }
    }

    /// Sends the focused window to another output; the focus follows it.
    pub fn do_send_monitor(&mut self, direction: i32)
        requires
            old(self)@.wf(),
        ensures
            final(self)@ == old(self)@.monitor_sent(direction as int),
            final(self)@.wf(),
    {
        proof {
            reveal(GateView::monitor_sent);
        }
        if self.outputs.len() <= 1 {
            return;
        }
        let target: usize = match self.neighbour(direction) {
            Some(o) => o,
            None => {
                return;
            },
        };
        let w: WindowId = match self.front_focused() {
            Some(w) => w,
            None => {
                return;
            },
        };
        let o: usize = self.focused_output;
        let k: usize = self.effective_ws(o);
        let k2: usize = self.effective_ws(target);
        self.move_window(w, o, k, target, k2);
        self.focus_output(target);
        self.settle();
    }

    /// Turns the synchronisation of workspaces on or off.
    pub fn do_toggle_sync(&mut self)
        requires
            old(self)@.wf(),
            old(self)@.outputs.len() > 0,
        ensures
            final(self)@ == old(self)@.sync_toggled(),
            final(self)@.wf(),
    {
        proof {
            reveal(GateView::sync_toggled);
        }
        let on: bool = !self.config.general.sync_workspaces;
        self.config.general.sync_workspaces = on;
        proof {
            assert(self@.config == old(self)@.config.sync_toggled());
            state::lemma_same_places(old(self)@, self@);
        }
        if on {
            let o: usize = self.focused_output;
            assert(self@.outputs[o as int] == self.outputs@[o as int]@);
            let k: usize = self.outputs[o].current_ws;
            self.show_on_all(k);
            let ghost before = self@;
            self.current_ws = k;
            proof {
                state::lemma_same_places(before, self@);
            }
        }
        self.settle();
    }

    /// Asks for the session to be locked.
    pub fn do_lock(&mut self)
        requires
            old(self)@.wf(),
        ensures
            final(self)@ == old(self)@.locking(),
            final(self)@.wf(),
    {
        proof {
            reveal(GateView::locking);
        }
        if self.session_locked {
            return;
        }
        self.lock_pending_since = Some(self.now_ns);
        self.stage.layout_dirty = true;
        self.stage.bar_dirty = true;
        proof {
            state::lemma_same_places(old(self)@, self@);
        }
        self.spawn_raw("kara-veil");
    }

    /// Moves the focus to the next window.
    pub fn do_focus_next(&mut self)
        requires
            old(self)@.wf(),
            old(self)@.outputs.len() > 0,
        ensures
            final(self)@ == old(self)@.front_changed(WsChange::FocusNext).relaid(),
            final(self)@.wf(),
    {
        self.change_front(WsChange::FocusNext);
        self.relayout_active();
    }

    /// Moves the focus to the previous window.
    pub fn do_focus_prev(&mut self)
        requires
            old(self)@.wf(),
            old(self)@.outputs.len() > 0,
        ensures
            final(self)@ == old(self)@.front_changed(WsChange::FocusPrev).relaid(),
            final(self)@.wf(),
    {
        self.change_front(WsChange::FocusPrev);
        self.relayout_active();
    }

    /// Exchanges the focused window with the master window.
    pub fn do_zoom_master(&mut self)
        requires
            old(self)@.wf(),
            old(self)@.outputs.len() > 0,
        ensures
            final(self)@ == old(self)@.front_changed(WsChange::Zoom).relaid(),
            final(self)@.wf(),
    {
        self.change_front(WsChange::Zoom);
        self.relayout_active();
    }

    /// Changes between the tiled and the monocle layout.
    pub fn do_toggle_monocle(&mut self)
        requires
            old(self)@.wf(),
            old(self)@.outputs.len() > 0,
        ensures
            final(self)@ == old(self)@.front_changed(WsChange::FlipLayout).front_laid(),
            final(self)@.wf(),
    {
        self.change_front(WsChange::FlipLayout);
        self.lay_front();
    }

    /// Lets the focused window float, or tiles it again.
    pub fn do_toggle_float(&mut self)
        requires
            old(self)@.wf(),
            old(self)@.outputs.len() > 0,
        ensures
            final(self)@ == old(self)@.front_changed(WsChange::ToggleFloat).relaid(),
            final(self)@.wf(),
    {
        self.change_front(WsChange::ToggleFloat);
        self.relayout_active();
    }

    /// Makes the master column wider or narrower.
    pub fn do_adjust_mfact(&mut self, up: bool)
        requires
            old(self)@.wf(),
            old(self)@.outputs.len() > 0,
        ensures
            final(self)@ == old(self)@.front_changed(WsChange::MoveSplit { up }).front_laid(),
            final(self)@.wf(),
    {
        self.change_front(WsChange::MoveSplit { up });
        self.lay_front();
    }

    fn toggle_overlay(&mut self)
        requires
            old(self)@.wf(),
        ensures
            final(self)@ == (GateView {
                overlay_visible: !old(self)@.overlay_visible,
                stage: StageView { layout_dirty: true, ..old(self)@.stage },
                ..old(self)@
            }),
            final(self)@.wf(),
    {
        self.keybind_overlay_visible = !self.keybind_overlay_visible;
        self.stage.layout_dirty = true;
        proof {
            state::lemma_same_places(old(self)@, self@);
        }
    }

    pub fn request_reload(&mut self)
        requires
            old(self)@.wf(),
        ensures
            final(self)@ == (GateView { reload_requested: true, ..old(self)@ }),
            final(self)@.wf(),
    {
        self.reload_requested = true;
        proof {
            state::lemma_same_places(old(self)@, self@);
        }
    }

    fn quit(&mut self)
        requires
            old(self)@.wf(),
        ensures
            final(self)@ == (GateView { running: false, ..old(self)@ }),
            final(self)@.wf(),
    {
        self.running = false;
        proof {
            state::lemma_same_places(old(self)@, self@);
        }
    }

    /// Carries out an action.
    pub fn dispatch_action(&mut self, action: Action)
        requires
            old(self)@.wf(),
            action.needs_output() ==> old(self)@.outputs.len() > 0,
        ensures
            final(self)@ == old(self)@.dispatched(action),
            final(self)@.wf(),
    {
        match action {
            Action::Spawn(name) => {
                self.spawn_named(name.as_str());
            },
            Action::SpawnRaw(cmd) => {
                self.spawn_raw(cmd.as_str());
            },
            Action::KillClient => {
                self.kill_focused();
            },
            Action::FocusNext => {
                self.do_focus_next();
            },
            Action::FocusPrev => {
                self.do_focus_prev();
            },
            Action::ZoomMaster => {
                self.do_zoom_master();
            },
            Action::ToggleMonocle => {
                self.do_toggle_monocle();
            },
            Action::ToggleFullscreen => {
                self.do_toggle_fullscreen();
            },
            Action::ToggleFloat => {
                self.do_toggle_float();
            },
            Action::ToggleScratchpad(None) => {
                self.do_toggle_scratchpad("main");
            },
            Action::ToggleScratchpad(Some(name)) => {
                self.do_toggle_scratchpad(name.as_str());
            },
            Action::DecreaseMfact => {
                self.do_adjust_mfact(false);
            },
            Action::IncreaseMfact => {
                self.do_adjust_mfact(true);
            },
            Action::FocusMonitorNext => {
                self.do_focus_monitor(1);
            },
            Action::FocusMonitorPrev => {
                self.do_focus_monitor(-1);
            },
            Action::SendMonitorNext => {
                self.do_send_monitor(1);
            },
            Action::SendMonitorPrev => {
                self.do_send_monitor(-1);
            },
            Action::ToggleSync => {
                self.do_toggle_sync();
            },
            Action::ViewWs(k) => {
                self.do_view_ws(k);
            },
            Action::SendWs(k) => {
                self.do_send_ws(k);
            },
            Action::ShowKeybinds => {
                self.toggle_overlay();
            },
            Action::Reload => {
                self.request_reload();
            },
            Action::Quit => {
                self.quit();
            },
            Action::Lock => {
                self.do_lock();
            },
        }
    }
}

} // verus!
