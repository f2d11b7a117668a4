//! Windows that close, ask for the focus or arrive at the end of their way,
//! and the start of the session.

use vstd::prelude::*;

use crate::gate::animation;
use crate::gate::stage;
use crate::gate::stage::StageView;
use crate::gate::state;
use crate::gate::state::{Gate, GateView, OutputView, PendingSend, ScratchpadView};
use crate::gate::windows;
use crate::gate::workspace;
use crate::gate::workspace::{position, WindowId, WorkspaceView, WORKSPACE_COUNT};

verus! {

/// The workspaces of a pool without the window.
pub open spec fn pool_without(pool: Seq<WorkspaceView>, w: WindowId) -> Seq<WorkspaceView> {
    pool.map_values(|v: WorkspaceView| v.removed(w))
}

/// The outputs, none of them filled by the window.
pub open spec fn uncovered(os: Seq<OutputView>, w: WindowId) -> Seq<OutputView> {
    os.map_values(
        |o: OutputView|
            OutputView {
                fullscreen: if o.fullscreen == Some(w) {
                    None
                } else {
                    o.fullscreen
                },
                ..o
            },
    )
}

/// The first transfer at or after `i` of the window; the length where there
/// is none.
pub open spec fn send_from(s: Seq<PendingSend>, w: WindowId, i: int) -> int
    decreases s.len() - i,
{
    if i >= s.len() {
        s.len() as int
    } else if s[i].window == w {
        i
    } else {
        send_from(s, w, i + 1)
    }
}

impl GateView {
    /// The state without the window in any workspace of the outputs.
    pub open spec fn pools_without(self, w: WindowId) -> GateView {
        GateView {
            workspaces: self.workspaces.map_values(
                |p: Seq<WorkspaceView>| pool_without(p, w),
            ),
            ..self
        }
    }

    /// The state without the window in any scratchpad.
    pub open spec fn pads_without(self, w: WindowId) -> GateView {
        GateView {
            scratchpads: self.scratchpads.map_values(
                |s: ScratchpadView| ScratchpadView { workspace: s.workspace.removed(w), ..s },
            ),
            ..self
        }
    }

    /// The first scratchpad at or after `s` in which the window has the focus.
    pub open spec fn pad_focusing(self, w: WindowId, s: int) -> Option<usize>
        decreases self.scratchpads.len() - s,
    {
        if s >= self.scratchpads.len() {
            None
        } else if self.scratchpads[s].workspace.focused_window() == Some(w) {
            Some(s as usize)
        } else {
            self.pad_focusing(w, s + 1)
        }
    }

    /// Whether the window is on the screen, in a workspace or in a scratchpad.
    pub open spec fn knows(self, w: WindowId) -> bool {
        ||| stage::place_of(self.stage.space, w) is Some
        ||| exists|o: int, k: int| self.in_ws(o, k, w)
        ||| exists|s: int| self.in_sp(s, w)
    }

    /// The state after a window has gone from every place that it had. A
    /// transfer that waits for its motion to end stays behind: the motion is
    /// cancelled, so that it is never carried out.
    pub open spec fn forgotten(self, w: WindowId) -> GateView {
        (GateView {
            animations: animation::others(self.animations, w),
            stage: StageView {
                activated: stage::minus(self.stage.activated, seq![w]),
                ..self.stage.unmapped(seq![w], None)
            },
            outputs: uncovered(self.outputs, w),
            ..self
        }).pads_without(w).pools_without(w)
    }

    /// The state with an empty scratchpad hidden, and to be started again.
    pub open spec fn pad_closed(self, s: int) -> GateView {
        GateView {
            focused_scratchpad: if self.focused_scratchpad == Some(s as usize) {
                None
            } else {
                self.focused_scratchpad
            },
            ..self.with_sp(
                s,
                ScratchpadView {
                    visible: false,
                    hiding: false,
                    started: false,
                    ..self.scratchpads[s]
                },
            )
        }
    }

    /// The state after the window with the focus of scratchpad `s` has gone.
    /// An empty scratchpad hides, and will start its commands again.
    pub open spec fn pad_left(self, s: int) -> GateView {
        if self.scratchpads[s].workspace.clients.len() == 0 {
            self.pad_closed(s).pad_borders_cleared().laid_out()
        } else if self.scratchpads[s].visible {
            self.scratchpad_laid(s)
        } else {
            GateView {
                stage: StageView { scratchpad_border_rects: Seq::empty(), ..self.stage },
                ..self
            }
        }
    }

    /// The state after a window has been destroyed.
    #[verifier::opaque]
    pub open spec fn destroyed(self, w: WindowId) -> GateView {
        let i = workspace::first_index(self.unmapped, w);
        let j = workspace::first_index(self.helpers, w);
        if i < self.unmapped.len() {
            GateView { unmapped: self.unmapped.remove(i), ..self }
        } else if j < self.helpers.len() {
            (GateView { helpers: self.helpers.remove(j), ..self }).focus_applied()
        } else if self.knows(w) {
            let g = self.forgotten(w).laid_out();
            match self.pad_focusing(w, 0) {
                Some(s) => g.pad_left(s as int).focus_applied(),
                None => g.focus_applied(),
            }
        } else {
            self
        }
    }

    /// The state after the window has been given the focus in the workspace
    /// in view, where it is one of its windows and does not have it.
    pub open spec fn window_focused(self, w: WindowId) -> GateView {
        let o = self.focused_output as int;
        let k = self.effective_ws(o);
        let ws = self.workspaces[o][k];
        let i = workspace::first_index(ws.clients, w);
        if i < ws.clients.len() && ws.focused != Some(i as usize) {
            self.with_ws(o, k, ws.refocused(i)).focus_applied()
        } else {
            self
        }
    }

    /// The first workspace at or after `k` of output `o`, and then of the
    /// outputs after it, that holds the window.
    pub open spec fn home_from(self, w: WindowId, o: int, k: int) -> Option<(int, int)>
        decreases self.workspaces.len() - o, WORKSPACE_COUNT - k,
    {
        if o >= self.workspaces.len() {
            None
        } else if k >= WORKSPACE_COUNT {
            self.home_from(w, o + 1, 0)
        } else if self.workspaces[o][k].clients.contains(w) {
            Some((o, k))
        } else {
            self.home_from(w, o, k + 1)
        }
    }

    /// The state after a window has asked for the focus: its workspace comes
    /// into view on its output, and the focus goes to it.
    #[verifier::opaque]
    pub open spec fn activated(self, w: WindowId) -> GateView {
        match self.home_from(w, 0, 0) {
            None => self,
            Some(home) => {
                let (o, k) = home;
                let ws = self.workspaces[o][k];
                let g = self.with_ws(
                    o,
                    k,
                    WorkspaceView {
                        focused: Some(workspace::first_index(ws.clients, w) as usize),
                        ..ws
                    },
                );
                if o != self.focused_output || k != self.effective_ws(
                    self.focused_output as int,
                ) {
                    (GateView {
                        focused_output: o as usize,
                        ..g.with_output(o, OutputView { current_ws: k as usize, ..g.outputs[o] })
                    }).settled()
                } else {
                    g.focus_applied()
                }
            },
        }
    }
}

// ---- The invariant without a window -----------------------------------------

pub proof fn lemma_forgotten_wf(g: GateView, w: WindowId)
    requires
        g.wf(),
    ensures
        g.pools_without(w).wf(),
        g.pads_without(w).wf(),
        forall|o: int, k: int| !#[trigger] g.pools_without(w).in_ws(o, k, w),
        forall|s: int| #[trigger] g.pools_without(w).in_sp(s, w) <==> g.in_sp(s, w),
{
    reveal(GateView::owned_once);
    let h = g.pools_without(w);
    assert forall|o: int, k: int, u: WindowId| #[trigger] h.in_ws(o, k, u) implies g.in_ws(o, k, u)
        && u != w by {
        assert(h.workspaces[o][k] == g.workspaces[o][k].removed(w));
        assert(g.workspaces[o].len() == WORKSPACE_COUNT);
        assert(state::ws_ok(g.workspaces[o][k]));
        workspace::lemma_removed_wf(g.workspaces[o][k], w);
    }
    assert forall|s: int, u: WindowId| #[trigger] h.in_sp(s, u) <==> g.in_sp(s, u) by {}
    assert forall|o: int| 0 <= o < h.workspaces.len() implies (#[trigger] h.workspaces[o]).len()
        == WORKSPACE_COUNT by {
        assert(g.workspaces[o].len() == WORKSPACE_COUNT);
    }
    assert forall|o: int, k: int|
        0 <= o < h.workspaces.len() && 0 <= k < WORKSPACE_COUNT implies state::ws_ok(
        #[trigger] h.workspaces[o][k],
    ) by {
        assert(g.workspaces[o].len() == WORKSPACE_COUNT);
        assert(state::ws_ok(g.workspaces[o][k]));
        assert(h.workspaces[o][k] == g.workspaces[o][k].removed(w));
        workspace::lemma_removed_wf(g.workspaces[o][k], w);
    }
    assert(h.wf());
    let p = g.pads_without(w);
    assert forall|s: int, u: WindowId| #[trigger] p.in_sp(s, u) implies g.in_sp(s, u) && u != w by {
        assert(state::ws_ok(g.scratchpads[s].workspace));
        workspace::lemma_removed_wf(g.scratchpads[s].workspace, w);
    }
    assert forall|o: int, k: int, u: WindowId| #[trigger] p.in_ws(o, k, u) <==> g.in_ws(
        o,
        k,
        u,
    ) by {}
    assert forall|s: int| 0 <= s < p.scratchpads.len() implies state::ws_ok(
        (#[trigger] p.scratchpads[s]).workspace,
    ) by {
        assert(state::ws_ok(g.scratchpads[s].workspace));
        workspace::lemma_removed_wf(g.scratchpads[s].workspace, w);
    }
    assert(p.wf());
}

impl Gate {
    /// A window has drawn something. The first time it does, it goes to its
    /// place.
    pub fn commit(&mut self, window: WindowId, app_id: &str, has_buffer: bool)
        requires
            old(self)@.wf(),
            old(self)@.can_join(app_id@),
        ensures
            final(self)@ == ({
                let i = workspace::first_index(old(self)@.unmapped, window);
                if has_buffer && i < old(self)@.unmapped.len() {
                    (GateView {
                        unmapped: old(self)@.unmapped.remove(i),
                        ..old(self)@
                    }).newly_mapped(window, app_id@)
                } else {
                    old(self)@
                }
            }),
            final(self)@.wf(),
    {
        if !has_buffer {
            return;
        }
        match position(&self.unmapped_windows, window) {
            Some(i) => {
                let _ = self.unmapped_windows.remove(i);
                proof {
                    windows::lemma_take_outside(old(self)@, self@, window, i as int);
                }
                self.map_new_toplevel(window, app_id);
            },
            None => {},
        }
    }

    pub fn remove_from_pools(&mut self, w: WindowId)
        requires
            old(self)@.wf(),
        ensures
            final(self)@ == old(self)@.pools_without(w),
            final(self)@.wf(),
    {
        let ghost g = self@;
        let mut o: usize = 0;
        while o < self.workspaces.len()
            invariant
                o <= self.workspaces.len(),
                self@.wf(),
                g.wf(),
                self.workspaces@.len() == g.workspaces.len(),
                self@ == (GateView { workspaces: self@.workspaces, ..g }),
                forall|i: int|
                    0 <= i < o ==> #[trigger] self@.workspaces[i] == pool_without(
                        g.workspaces[i],
                        w,
                    ),
                forall|i: int|
                    o <= i < self@.workspaces.len() ==> #[trigger] self@.workspaces[i]
                        == g.workspaces[i],
            decreases self.workspaces.len() - o,
        {
            let mut k: usize = 0;
            while k < WORKSPACE_COUNT
                invariant
                    k <= WORKSPACE_COUNT,
                    o < self@.workspaces.len(),
                    self@.wf(),
                    g.wf(),
                    self.workspaces@.len() == g.workspaces.len(),
                    self@ == (GateView { workspaces: self@.workspaces, ..g }),
                    forall|i: int|
                        0 <= i < o ==> #[trigger] self@.workspaces[i] == pool_without(
                            g.workspaces[i],
                            w,
                        ),
                    forall|i: int|
                        o < i < self@.workspaces.len() ==> #[trigger] self@.workspaces[i]
                            == g.workspaces[i],
                    self@.workspaces[o as int].len() == WORKSPACE_COUNT,
                    forall|j: int|
                        0 <= j < k ==> #[trigger] self@.workspaces[o as int][j]
                            == g.workspaces[o as int][j].removed(w),
                    forall|j: int|
                        k <= j < WORKSPACE_COUNT ==> #[trigger] self@.workspaces[o as int][j]
                            == g.workspaces[o as int][j],
                decreases WORKSPACE_COUNT - k,
            {
                let _ = self.take_from_ws(o, k, w);
                assert(self.workspaces@.len() == self@.workspaces.len());
                assert(self@ =~= (GateView { workspaces: self@.workspaces, ..g }));
                k = k + 1;
            }
            assert(g.workspaces[o as int].len() == WORKSPACE_COUNT);
            assert(self@.workspaces[o as int] =~= pool_without(g.workspaces[o as int], w));
            o = o + 1;
        }
        assert(self@.workspaces =~= g.pools_without(w).workspaces);
    }

    fn remove_from_pads(&mut self, w: WindowId) -> (focusing: Option<usize>)
        requires
            old(self)@.wf(),
        ensures
            final(self)@ == old(self)@.pads_without(w),
            final(self)@.wf(),
            focusing == old(self)@.pad_focusing(w, 0),
            focusing matches Some(s) ==> s < old(self)@.scratchpads.len(),
    {
        let ghost g = self@;
        let mut focusing: Option<usize> = None;
        let mut s: usize = 0;
        while s < self.scratchpads.len()
            invariant
                s <= self.scratchpads.len(),
                g.wf(),
                self.scratchpads@.len() == g.scratchpads.len(),
                self@ == (GateView { scratchpads: self@.scratchpads, ..g }),
                forall|i: int|
                    0 <= i < s ==> #[trigger] self@.scratchpads[i] == (ScratchpadView {
                        workspace: g.scratchpads[i].workspace.removed(w),
                        ..g.scratchpads[i]
                    }),
                forall|i: int|
                    s <= i < self@.scratchpads.len() ==> #[trigger] self@.scratchpads[i]
                        == g.scratchpads[i],
                match focusing {
                    Some(f) => f < s && g.pad_focusing(w, 0) == Some(f),
                    None => g.pad_focusing(w, 0) == g.pad_focusing(w, s as int),
                },
            decreases self.scratchpads.len() - s,
        {
            let ghost before = self@;
            assert(self@.scratchpads[s as int] == self.scratchpads@[s as int]@);
            assert(state::ws_ok(g.scratchpads[s as int].workspace));
            let had_focus: bool = self.scratchpads[s].workspace.remove_client(w);
            if had_focus && focusing.is_none() {
                focusing = Some(s);
            }
            proof {
                let v = ScratchpadView {
                    workspace: g.scratchpads[s as int].workspace.removed(w),
                    ..g.scratchpads[s as int]
                };
                assert(self@.scratchpads =~= before.scratchpads.update(s as int, v));
                assert(self@ =~= (GateView { scratchpads: self@.scratchpads, ..g }));
            }
            s = s + 1;
        }
        proof {
            assert(self@.scratchpads =~= g.pads_without(w).scratchpads);
            lemma_forgotten_wf(g, w);
        }
        focusing
    }

    fn uncover(&mut self, w: WindowId)
        requires
            old(self)@.wf(),
        ensures
            final(self)@ == (GateView { outputs: uncovered(old(self)@.outputs, w), ..old(self)@ }),
            final(self)@.wf(),
    {
        let ghost g = self@;
        let mut o: usize = 0;
        while o < self.outputs.len()
            invariant
                o <= self.outputs.len(),
                g.wf(),
                self.outputs@.len() == g.outputs.len(),
                self@ == (GateView { outputs: self@.outputs, ..g }),
                forall|i: int|
                    0 <= i < o ==> #[trigger] self@.outputs[i] == uncovered(g.outputs, w)[i],
                forall|i: int|
                    o <= i < self@.outputs.len() ==> #[trigger] self@.outputs[i] == g.outputs[i],
            decreases self.outputs.len() - o,
        {
            let ghost before = self@;
            assert(self@.outputs[o as int] == self.outputs@[o as int]@);
            let covers: bool = match self.outputs[o].fullscreen_window {
                Some(fs) => fs == w,
                None => false,
            };
            if covers {
                self.outputs[o].fullscreen_window = None;
            }
            proof {
                let v = uncovered(g.outputs, w)[o as int];
                assert(self@.outputs =~= before.outputs.update(o as int, v));
                assert(self@ =~= (GateView { outputs: self@.outputs, ..g }));
            }
            o = o + 1;
        }
        proof {
            assert(self@.outputs =~= uncovered(g.outputs, w));
            assert forall|i: int| 0 <= i < self@.outputs.len() implies state::output_ok(
                #[trigger] self@.outputs[i],
            ) by {
                assert(state::output_ok(g.outputs[i]));
            }
            state::lemma_same_places(g, self@);
        }
    }

    fn forget_motion(&mut self, w: WindowId)
        requires
            old(self)@.wf(),
        ensures
            final(self)@ == (GateView {
                animations: animation::others(old(self)@.animations, w),
                stage: StageView {
                    activated: stage::minus(old(self)@.stage.activated, seq![w]),
                    ..old(self)@.stage.unmapped(seq![w], None)
                },
                ..old(self)@
            }),
            final(self)@.wf(),
    {
        self.animations.cancel(w);
        let mut gone: Vec<WindowId> = Vec::new();
        gone.push(w);
        assert(gone@ =~= seq![w]);
        self.stage.unmap(&gone, None);
        self.stage.deactivate(&gone);
        proof {
            state::lemma_same_places(old(self)@, self@);
        }
    }

    fn is_known(&self, w: WindowId) -> (r: bool)
        requires
            self@.wf(),
        ensures
            r == self@.knows(w),
    {
        if self.stage.location(w).is_some() {
            return true;
        }
        if self.find_home(w).is_some() {
            return true;
        }
        let mut s: usize = 0;
        while s < self.scratchpads.len()
            invariant
                s <= self.scratchpads.len(),
                forall|i: int| 0 <= i < s ==> !#[trigger] self@.in_sp(i, w),
            decreases self.scratchpads.len() - s,
        {
            assert(self@.scratchpads[s as int] == self.scratchpads@[s as int]@);
            if workspace::holds(&self.scratchpads[s].workspace.clients, w) {
                assert(self@.in_sp(s as int, w));
                return true;
            }
            s = s + 1;
        }
        false
    }

    /// The workspace that holds a window.
    fn find_home(&self, w: WindowId) -> (out: Option<(usize, usize)>)
        requires
            self@.wf(),
        ensures
            match out {
                Some(h) => self@.home_from(w, 0, 0) == Some((h.0 as int, h.1 as int)) && h.0
                    < self@.workspaces.len() && h.1 < WORKSPACE_COUNT && self@.in_ws(
                    h.0 as int,
                    h.1 as int,
                    w,
                ),
                None => self@.home_from(w, 0, 0) is None && forall|o: int, k: int|
                    !#[trigger] self@.in_ws(o, k, w),
            },
    {
        let mut o: usize = 0;
        while o < self.workspaces.len()
            invariant
                o <= self.workspaces.len(),
                self@.wf(),
                self@.home_from(w, 0, 0) == self@.home_from(w, o as int, 0),
                forall|i: int, j: int| i < o ==> !#[trigger] self@.in_ws(i, j, w),
            decreases self.workspaces.len() - o,
        {
            assert(self@.workspaces[o as int] == state::pool_view(self.workspaces@[o as int]@));
            assert(self@.workspaces[o as int].len() == WORKSPACE_COUNT);
            let mut k: usize = 0;
            while k < WORKSPACE_COUNT
                invariant
                    k <= WORKSPACE_COUNT,
                    o < self.workspaces.len(),
                    self@.wf(),
                    self@.workspaces[o as int] == state::pool_view(self.workspaces@[o as int]@),
                    self@.workspaces[o as int].len() == WORKSPACE_COUNT,
                    self@.home_from(w, 0, 0) == self@.home_from(w, o as int, k as int),
                    forall|j: int| j < k ==> !#[trigger] self@.in_ws(o as int, j, w),
                decreases WORKSPACE_COUNT - k,
            {
                assert(self@.workspaces[o as int][k as int]
                    == self.workspaces@[o as int]@[k as int]@);
                if workspace::holds(&self.workspaces[o][k].clients, w) {
                    assert(self@.in_ws(o as int, k as int, w));
                    return Some((o, k));
                }
                k = k + 1;
            }
            assert forall|i: int, j: int| i < o + 1 implies !#[trigger] self@.in_ws(i, j, w) by {
                if i == o && j >= WORKSPACE_COUNT {
                }
            }
            o = o + 1;
        }
        None
    }

    fn close_pad(&mut self, s: usize)
        requires
            old(self)@.wf(),
            s < old(self)@.scratchpads.len(),
        ensures
            final(self)@ == old(self)@.pad_closed(s as int),
            final(self)@.wf(),
    {
        assert(self@.scratchpads[s as int] == self.scratchpads@[s as int]@);
        assert(state::ws_ok(self@.scratchpads[s as int].workspace));
        self.scratchpads[s].visible = false;
        self.scratchpads[s].hiding = false;
        self.scratchpads[s].started = false;
        proof {
            let v = ScratchpadView {
                visible: false,
                hiding: false,
                started: false,
                ..old(self)@.scratchpads[s as int]
            };
            assert(self@.scratchpads =~= old(self)@.scratchpads.update(s as int, v));
            assert(self@ =~= old(self)@.with_sp(s as int, v));
            state::lemma_with_sp(old(self)@, s as int, v);
        }
        let ghost before = self@;
        match self.focused_scratchpad {
            Some(f) => {
                if f == s {
                    self.focused_scratchpad = None;
                }
            },
            None => {},
        }
        proof {
            state::lemma_same_places(before, self@);
        }
    }

    fn drop_pad_borders(&mut self)
        requires
            old(self)@.wf(),
        ensures
            final(self)@ == (GateView {
                stage: StageView {
                    scratchpad_border_rects: Seq::empty(),
                    ..old(self)@.stage
                },
                ..old(self)@
            }),
            final(self)@.wf(),
    {
        self.stage.scratchpad_border_rects = Vec::new();
        proof {
            state::lemma_same_places(old(self)@, self@);
        }
    }

    fn leave_pad(&mut self, s: usize)
        requires
            old(self)@.wf(),
            s < old(self)@.scratchpads.len(),
        ensures
            final(self)@ == old(self)@.pad_left(s as int),
            final(self)@.wf(),
    {
        assert(self@.scratchpads[s as int] == self.scratchpads@[s as int]@);
        if self.scratchpads[s].workspace.clients.len() == 0 {
            self.close_pad(s);
            self.clear_pad_borders();
            self.apply_layout();
        } else if self.scratchpads[s].visible {
            self.apply_scratchpad_layout(s);
        } else {
            self.drop_pad_borders();
        }
    }

    /// A window has been destroyed.
    pub fn toplevel_destroyed(&mut self, window: WindowId)
        requires
            old(self)@.wf(),
        ensures
            final(self)@ == old(self)@.destroyed(window),
            final(self)@.wf(),
    {
        proof {
            reveal(GateView::destroyed);
        }
        match position(&self.unmapped_windows, window) {
            Some(i) => {
                let _ = self.unmapped_windows.remove(i);
                proof {
                    windows::lemma_take_outside(old(self)@, self@, window, i as int);
                }
                return;
            },
            None => {},
        }
        match position(&self.hidden_helpers, window) {
            Some(i) => {
                let _ = self.hidden_helpers.remove(i);
                proof {
                    windows::lemma_take_outside(old(self)@, self@, window, i as int);
                }
                self.apply_focus();
                return;
            },
            None => {},
        }
        if !self.is_known(window) {
            return;
        }
        self.forget_motion(window);
        self.uncover(window);
        let focusing: Option<usize> = self.remove_from_pads(window);
        assert(focusing == old(self)@.pad_focusing(window, 0)) by {
            lemma_focusing_kept(
                old(self)@,
                GateView { scratchpads: old(self)@.scratchpads, ..self@ },
                window,
                0,
            );
        }
        self.remove_from_pools(window);
        self.apply_layout();
        match focusing {
            Some(s) => {
                self.leave_pad(s);
            },
            None => {},
        }
        self.apply_focus();
    }

    /// Gives the focus to a window of the workspace in view.
    pub fn focus_window(&mut self, target: WindowId)
        requires
            old(self)@.wf(),
            old(self)@.outputs.len() > 0,
        ensures
            final(self)@ == old(self)@.window_focused(target),
            final(self)@.wf(),
    {
        let o: usize = self.focused_output;
        let k: usize = self.effective_ws(o);
        assert(self@.workspaces[o as int] == state::pool_view(self.workspaces@[o as int]@));
        assert(self@.workspaces[o as int].len() == WORKSPACE_COUNT);
        assert(self@.workspaces[o as int][k as int] == self.workspaces@[o as int]@[k as int]@);
        let idx: usize = match position(&self.workspaces[o][k].clients, target) {
            Some(i) => i,
            None => {
                return;
            },
        };
        let same: bool = match self.workspaces[o][k].focused_idx {
            Some(f) => f == idx,
            None => false,
        };
        if same {
            return;
        }
        let last: Option<usize> = self.workspaces[o][k].focused_idx;
        self.set_focus_at(o, k, idx, last);
        self.apply_focus();
    }

    fn set_focus_at(&mut self, o: usize, k: usize, idx: usize, last: Option<usize>)
        requires
            old(self)@.wf(),
            o < old(self)@.workspaces.len(),
            k < WORKSPACE_COUNT,
            idx < old(self)@.workspaces[o as int][k as int].clients.len(),
            last matches Some(l) ==> l < old(self)@.workspaces[o as int][k as int].clients.len(),
        ensures
            final(self)@ == old(self)@.with_ws(
                o as int,
                k as int,
                WorkspaceView {
                    focused: Some(idx),
                    last_focused: last,
                    ..old(self)@.workspaces[o as int][k as int]
                },
            ),
            final(self)@.wf(),
    {
        assert(self@.workspaces[o as int] == state::pool_view(self.workspaces@[o as int]@));
        assert(self@.workspaces[o as int].len() == WORKSPACE_COUNT);
        assert(self@.workspaces[o as int][k as int] == self.workspaces@[o as int]@[k as int]@);
        assert(state::ws_ok(self@.workspaces[o as int][k as int]));
        self.workspaces[o][k].focused_idx = Some(idx);
        self.workspaces[o][k].last_focused_idx = last;
        proof {
            let v = WorkspaceView {
                focused: Some(idx),
                last_focused: last,
                ..old(self)@.workspaces[o as int][k as int]
            };
            assert(self@.workspaces[o as int] =~= old(self)@.workspaces[o as int].update(
                k as int,
                v,
            ));
            assert(self@.workspaces =~= old(self)@.with_ws(o as int, k as int, v).workspaces);
            assert(self@ =~= old(self)@.with_ws(o as int, k as int, v));
            state::lemma_with_ws(old(self)@, o as int, k as int, v);
        }
    }

    /// A window asks for the focus.
    pub fn request_activation(&mut self, window: WindowId)
        requires
            old(self)@.wf(),
        ensures
            final(self)@ == old(self)@.activated(window),
            final(self)@.wf(),
    {
        proof {
            reveal(GateView::activated);
        }
        let (o, k): (usize, usize) = match self.find_home(window) {
            Some(h) => h,
            None => {
                return;
            },
        };
        assert(self@.workspaces[o as int] == state::pool_view(self.workspaces@[o as int]@));
        assert(self@.workspaces[o as int].len() == WORKSPACE_COUNT);
        assert(self@.workspaces[o as int][k as int] == self.workspaces@[o as int]@[k as int]@);
        assert(state::ws_ok(self@.workspaces[o as int][k as int]));
        let idx: usize = match position(&self.workspaces[o][k].clients, window) {
            Some(i) => i,
            None => {
                return;
            },
        };
        let last: Option<usize> = self.workspaces[o][k].last_focused_idx;
        self.set_focus_at(o, k, idx, last);
        if o != self.focused_output || k != self.effective_ws(self.focused_output) {
            let ghost before = self@;
            assert(self@.outputs.len() == self.outputs@.len());
            assert(self@.outputs[o as int] == self.outputs@[o as int]@);
            assert(state::output_ok(self@.outputs[o as int]));
            self.focused_output = o;
            self.outputs[o].current_ws = k;
            proof {
                let v = OutputView { current_ws: k, ..before.outputs[o as int] };
                assert(self@.outputs =~= before.outputs.update(o as int, v));
                assert forall|i: int| 0 <= i < self@.outputs.len() implies state::output_ok(
                    #[trigger] self@.outputs[i],
                ) by {
                    assert(state::output_ok(before.outputs[i]));
                }
                state::lemma_same_places(before, self@);
            }
            self.apply_layout();
        }
        self.apply_focus();
    }
}

proof fn lemma_focusing_kept(g: GateView, h: GateView, w: WindowId, s: int)
    requires
        h.scratchpads == g.scratchpads,
        0 <= s <= g.scratchpads.len(),
    ensures
        h.pad_focusing(w, s) == g.pad_focusing(w, s),
    decreases g.scratchpads.len() - s,
{
    if s < g.scratchpads.len() {
        lemma_focusing_kept(g, h, w, s + 1);
    }
}

} // verus!
