//! Bringing the screen up to date: the layout of the outputs and of the
//! scratchpads, and the focus.

use vstd::prelude::*;

use crate::gate::layout;
use crate::gate::layout::{layout_workspace, ClientGeometry};
use crate::gate::stage;
use crate::gate::stage::{Configure, Placed, StageView};
use crate::gate::state;
use crate::gate::state::{Gate, GateView, WindowInfo};
use crate::gate::workspace::{WindowId, Workspace, WORKSPACE_COUNT};
use crate::geometry::{half, Rect, Size};
use crate::ratio;

verus! {

fn append(out: &mut Vec<WindowId>, more: &Vec<WindowId>)
    ensures
        final(out)@ == old(out)@ + more@,
{
    let mut i: usize = 0;
    while i < more.len()
        invariant
            i <= more.len(),
            out@ == old(out)@ + more@.take(i as int),
        decreases more.len() - i,
    {
        out.push(more[i]);
        i = i + 1;
        assert(more@.take(i as int) =~= more@.take(i - 1).push(more@[i - 1]));
        assert(out@ =~= old(out)@ + more@.take(i as int));
    }
    assert(more@.take(i as int) =~= more@);
}

/// The windows of a pool, without those of the workspace `skip`.
fn pool_windows(pool: &Vec<Workspace>, skip: Option<usize>) -> (out: Vec<WindowId>)
    ensures
        out@ == state::pool_clients(
            state::pool_view(pool@),
            match skip {
                Some(k) => Some(k as int),
                None => None,
            },
            pool@.len() as int,
        ),
{
    let ghost view = state::pool_view(pool@);
    let ghost left_out: Option<int> = match skip {
        Some(k) => Some(k as int),
        None => None,
    };
    let mut out: Vec<WindowId> = Vec::new();
    let mut k: usize = 0;
    while k < pool.len()
        invariant
            k <= pool.len(),
            view == state::pool_view(pool@),
            left_out == (match skip {
                Some(k) => Some(k as int),
                None => None,
            }),
            out@ == state::pool_clients(view, left_out, k as int),
        decreases pool.len() - k,
    {
        let skipped: bool = match skip {
            Some(i) => i == k,
            None => false,
        };
        if !skipped {
            append(&mut out, &pool[k].clients);
            assert(view[k as int] == pool@[k as int]@);
        }
        k = k + 1;
    }
    out
}

/// The size of a window, zero where it is not in the table.
pub fn window_size(ws: &Vec<WindowInfo>, w: WindowId) -> (out: Size)
    ensures
        out == state::size_of(ws@, w),
{
    match window_info(ws, w) {
        Some(i) => ws[i].size,
        None => Size { w: 0, h: 0 },
    }
}

/// The entry of a window in the table.
pub fn window_info(ws: &Vec<WindowInfo>, w: WindowId) -> (out: Option<usize>)
    ensures
        match out {
            Some(i) => i < ws.len() && i == state::info_from(ws@, w, 0),
            None => state::info_from(ws@, w, 0) == ws@.len(),
        },
{
    let mut i: usize = 0;
    while i < ws.len()
        invariant
            i <= ws.len(),
            state::info_from(ws@, w, 0) == state::info_from(ws@, w, i as int),
        decreases ws.len() - i,
    {
        if ws[i].id == w {
            return Some(i);
        }
        i = i + 1;
    }
    None
}

pub fn window_sizes(ws: &Vec<WindowInfo>, clients: &Vec<WindowId>) -> (out: Vec<Size>)
    ensures
        out@ == state::sizes_of(ws@, clients@),
{
    let mut out: Vec<Size> = Vec::new();
    let mut i: usize = 0;
    while i < clients.len()
        invariant
            i <= clients.len(),
            out@ == state::sizes_of(ws@, clients@.take(i as int)),
        decreases clients.len() - i,
    {
        out.push(window_size(ws, clients[i]));
        i = i + 1;
        assert(clients@.take(i as int) =~= clients@.take(i - 1).push(clients@[i - 1]));
        assert(out@ =~= state::sizes_of(ws@, clients@.take(i as int)));
    }
    assert(clients@.take(i as int) =~= clients@);
    out
}

impl Gate {
    /// The workspace that an output shows.
    pub fn effective_ws(&self, output_idx: usize) -> (k: usize)
        ensures
            k == self@.effective_ws(output_idx as int),
            self@.wf() ==> k < WORKSPACE_COUNT,
    {
        if self.config.general.sync_workspaces {
            self.current_ws
        } else if output_idx < self.outputs.len() {
            assert(self@.outputs[output_idx as int] == self.outputs@[output_idx as int]@);
            self.outputs[output_idx].current_ws
        } else {
            self.current_ws
        }
    }

    /// The size of the focused output.
    pub fn output_size(&self) -> (s: Size)
        ensures
            s == self@.output_size(),
    {
        if self.focused_output < self.outputs.len() {
            self.outputs[self.focused_output].size
        } else {
            Size { w: 800, h: 600 }
        }
    }

    /// The work area of the focused output.
    pub fn workarea(&self) -> (r: Rect)
        ensures
            r == self@.workarea(),
    {
        self.workarea_of(self.focused_output)
    }

    fn workarea_of(&self, output_idx: usize) -> (r: Rect)
        ensures
            r == self@.workarea_of(output_idx as int),
    {
        if output_idx < self.outputs.len() {
            self.outputs[output_idx].workarea
        } else {
            Rect { x: 0, y: 0, w: 800, h: 600 }
        }
    }

    /// The scratchpad that is visible on the focused output.
    pub fn active_scratchpad_for_focus(&self) -> (out: Option<usize>)
        ensures
            out == self@.active_scratchpad(),
            out matches Some(s) ==> s < self.scratchpads.len() && self@.scratchpads[s as int].visible
                && self@.scratchpads[s as int].output_idx == self.focused_output,
    {
        let mut s: usize = 0;
        while s < self.scratchpads.len()
            invariant
                s <= self.scratchpads.len(),
                self@.active_scratchpad() == self@.active_from(s as int),
            decreases self.scratchpads.len() - s,
        {
            assert(self@.scratchpads[s as int] == self.scratchpads@[s as int]@);
            if self.scratchpads[s].visible && self.scratchpads[s].output_idx == self.focused_output {
                return Some(s);
            }
            s = s + 1;
        }
        None
    }

    /// The window that is to have the focus.
    pub fn compute_focused_window(&self) -> (out: Option<WindowId>)
        ensures
            out == self@.focused_window(),
    {
        match self.active_scratchpad_for_focus() {
            Some(s) => {
                assert(self@.scratchpads[s as int] == self.scratchpads@[s as int]@);
                self.scratchpads[s].workspace.focused()
            },
            None => {
                let o: usize = self.focused_output;
                let k: usize = self.effective_ws(o);
                if o < self.workspaces.len() {
                    assert(self@.workspaces[o as int] == state::pool_view(
                        self.workspaces@[o as int]@,
                    ));
                    if k < self.workspaces[o].len() {
                        assert(self@.workspaces[o as int][k as int]
                            == self.workspaces@[o as int]@[k as int]@);
                        self.workspaces[o][k].focused()
                    } else {
                        None
                    }
                } else {
                    None
                }
            },
        }
    }

    fn hidden_windows(&self) -> (out: Vec<WindowId>)
        ensures
            out@ == self@.hidden_clients(self@.workspaces.len() as int),
    {
        let mut out: Vec<WindowId> = Vec::new();
        let mut o: usize = 0;
        while o < self.workspaces.len()
            invariant
                o <= self.workspaces.len(),
                out@ == self@.hidden_clients(o as int),
            decreases self.workspaces.len() - o,
        {
            let k: usize = self.effective_ws(o);
            let more: Vec<WindowId> = pool_windows(&self.workspaces[o], Some(k));
            assert(self@.workspaces[o as int] == state::pool_view(self.workspaces@[o as int]@));
            append(&mut out, &more);
            o = o + 1;
        }
        out
    }

    fn all_windows(&self) -> (out: Vec<WindowId>)
        ensures
            out@ == self@.all_clients(),
    {
        let mut out: Vec<WindowId> = Vec::new();
        let mut o: usize = 0;
        while o < self.workspaces.len()
            invariant
                o <= self.workspaces.len(),
                out@ == self@.pooled_clients(o as int),
            decreases self.workspaces.len() - o,
        {
            let more: Vec<WindowId> = pool_windows(&self.workspaces[o], None);
            assert(self@.workspaces[o as int] == state::pool_view(self.workspaces@[o as int]@));
            append(&mut out, &more);
            o = o + 1;
        }
        let ghost pooled = out@;
        let mut s: usize = 0;
        assert(out@ =~= pooled + self@.padded_clients(0));
        while s < self.scratchpads.len()
            invariant
                s <= self.scratchpads.len(),
                pooled == self@.pooled_clients(self@.workspaces.len() as int),
                out@ == pooled + self@.padded_clients(s as int),
            decreases self.scratchpads.len() - s,
        {
            append(&mut out, &self.scratchpads[s].workspace.clients);
            assert(self@.scratchpads[s as int] == self.scratchpads@[s as int]@);
            s = s + 1;
            assert(out@ =~= pooled + self@.padded_clients(s as int));
        }
        out
    }

    /// Lays out all outputs: the windows of workspaces that are not shown
    /// leave the screen, the others go to their places.
    pub fn apply_layout(&mut self)
        requires
            old(self)@.wf(),
        ensures
            final(self)@ == old(self)@.laid_out(),
            state::same_desk(old(self)@, final(self)@),
            final(self)@.wf(),
    {
        proof {
            reveal(GateView::laid_out);
        }
        let hidden: Vec<WindowId> = self.hidden_windows();
        let border_px: i32 = self.config.general.border_px;
        self.stage.layout_dirty = true;
        self.stage.bar_dirty = true;
        self.stage.border_rects = Vec::new();
        self.stage.base_positions = Vec::new();
        self.stage.unmap(&hidden, None);
        let mut o: usize = 0;
        assert(self.stage@ =~= old(self)@.outputs_laid(0));
        assert(self@ =~= (GateView { stage: old(self)@.outputs_laid(0), ..old(self)@ }));
        while o < self.outputs.len()
            invariant
                o <= self.outputs.len(),
                old(self)@.wf(),
                border_px == old(self)@.config.general.border_px,
                self@ == (GateView { stage: old(self)@.outputs_laid(o as int), ..old(self)@ }),
            decreases self.outputs.len() - o,
        {
            let ghost before = self.stage@;
            let k: usize = self.effective_ws(o);
            assert(k == old(self)@.effective_ws(o as int));
            assert(k < WORKSPACE_COUNT);
            assert(self@.outputs[o as int] == self.outputs@[o as int]@);
            assert(state::output_ok(old(self)@.outputs[o as int]));
            assert(self@.workspaces[o as int] == state::pool_view(self.workspaces@[o as int]@));
            assert(old(self)@.workspaces[o as int].len() == WORKSPACE_COUNT);
            assert(self@.workspaces[o as int][k as int] == self.workspaces@[o as int]@[k as int]@);
            assert(state::ws_ok(old(self)@.workspaces[o as int][k as int]));
            let size: Size = self.outputs[o].size;
            match self.outputs[o].fullscreen_window {
                Some(fs) => {
                    let p: Placed = Placed { window: fs, x: self.outputs[o].x, y: self.outputs[o].y };
                    self.stage.unmap(&self.workspaces[o][k].clients, Some(fs));
                    self.stage.configures.push(
                        Configure { window: fs, size: Some(size), tiled: true },
                    );
                    self.stage.map(p);
                },
                None => {
                    let ws: &Workspace = &self.workspaces[o][k];
                    let asked: Vec<Size> = window_sizes(&self.windows, &ws.clients);
                    let gs: Vec<ClientGeometry> = layout_workspace(
                        ws,
                        &asked,
                        self.outputs[o].workarea,
                        border_px,
                    );
                    self.stage.lay(&gs, false);
                },
            }
            assert(self.stage@ =~= old(self)@.output_laid(before, o as int));
            o = o + 1;
        }
        proof {
            state::lemma_same_places(old(self)@, self@);
        }
    }

    /// Lays out a visible scratchpad: its windows go to their places and to
    /// the top.
    pub fn apply_scratchpad_layout(&mut self, sp_idx: usize)
        requires
            old(self)@.wf(),
        ensures
            final(self)@ == old(self)@.scratchpad_laid(sp_idx as int),
            state::same_desk(old(self)@, final(self)@),
            final(self)@.wf(),
    {
        proof {
            reveal(GateView::scratchpad_laid);
        }
        if sp_idx >= self.config.scratchpads.len() || sp_idx >= self.scratchpads.len() {
            return;
        }
        assert(self@.scratchpads[sp_idx as int] == self.scratchpads@[sp_idx as int]@);
        assert(state::ws_ok(self@.scratchpads[sp_idx as int].workspace));
        if !self.scratchpads[sp_idx].visible {
            return;
        }
        let area: Rect = self.workarea_of(self.scratchpads[sp_idx].output_idx);
        assert(0 <= area.w <= state::MAX_OUTPUT && 0 <= area.h <= 2 * state::MAX_OUTPUT
            && -state::MAX_PLACE <= area.x <= state::MAX_PLACE && -state::MAX_PLACE
            - state::MAX_OUTPUT <= area.y <= 2 * state::MAX_PLACE) by {
            let o = self@.scratchpads[sp_idx as int].output_idx as int;
            if o < self@.outputs.len() {
                assert(state::output_ok(self@.outputs[o]));
            }
        }
        let w: i32 = ratio::share(area.w, self.config.scratchpads[sp_idx].width_pct);
        let h: i32 = ratio::share(area.h, self.config.scratchpads[sp_idx].height_pct);
        let gap: i32 = self.scratchpads[sp_idx].workspace.gap_px;
        let rect: Rect = Rect {
            x: area.x + half(area.w - w) - gap,
            y: area.y + half(area.h - h) - gap,
            w: w + gap * 2,
            h: h + gap * 2,
        };
        assert(rect == self@.scratchpad_rect(sp_idx as int));
        let border_px: i32 = self.config.general.border_px;
        let ws: &Workspace = &self.scratchpads[sp_idx].workspace;
        let asked: Vec<Size> = window_sizes(&self.windows, &ws.clients);
        let gs: Vec<ClientGeometry> = layout_workspace(ws, &asked, rect, border_px);
        self.stage.forget_places(&self.scratchpads[sp_idx].workspace.clients);
        self.stage.scratchpad_border_rects = Vec::new();
        self.stage.lay(&gs, true);
        self.stage.raise_all(&gs);
        self.stage.scratchpad_layout_dirty = true;
        self.stage.bar_dirty = true;
        proof {
            let s = sp_idx as int;
            let cleared = StageView {
                base: stage::without(
                    old(self)@.stage.base,
                    old(self)@.scratchpads[s].workspace.clients,
                    None,
                ),
                scratchpad_border_rects: Seq::empty(),
                ..old(self)@.stage
            };
            assert(self.stage@ =~= (StageView {
                scratchpad_layout_dirty: true,
                bar_dirty: true,
                ..cleared.laid(gs@, true).raised_all(gs@)
            }));
            assert(self@ =~= old(self)@.scratchpad_laid(s));
            state::lemma_same_places(old(self)@, self@);
        }
    }

    /// Gives the focus to the window that is to have it and makes every other
    /// window inactive.
    pub fn apply_focus(&mut self)
        requires
            old(self)@.wf(),
        ensures
            final(self)@ == old(self)@.focus_applied(),
            state::same_desk(old(self)@, final(self)@),
            final(self)@.wf(),
    {
        proof {
            reveal(GateView::focus_applied);
        }
        let focused: Option<WindowId> = self.compute_focused_window();
        let all: Vec<WindowId> = self.all_windows();
        self.stage.deactivate(&all);
        match focused {
            Some(w) => {
                self.stage.activated.push(w);
                self.stage.raise(w);
            },
            None => {},
        }
        if !self.exclusive_layer {
            self.keyboard_focus = focused;
        }
        proof {
            assert(self@ =~= old(self)@.focus_applied());
            state::lemma_same_places(old(self)@, self@);
        }
    }

    /// Lays out the part of the screen that has the focus, and gives the
    /// focus.
    pub fn relayout_active(&mut self)
        requires
            old(self)@.wf(),
        ensures
            final(self)@ == old(self)@.relaid(),
            state::same_desk(old(self)@, final(self)@),
            final(self)@.wf(),
    {
        proof {
            reveal(GateView::relaid);
        }
        match self.active_scratchpad_for_focus() {
            Some(s) => {
                self.apply_scratchpad_layout(s);
            },
            None => {
                self.apply_layout();
            },
        }
        self.apply_focus();
    }

    /// Brings the layout and the focus up to date.
    pub fn settle(&mut self)
        requires
            old(self)@.wf(),
        ensures
            final(self)@ == old(self)@.settled(),
            state::same_desk(old(self)@, final(self)@),
            final(self)@.wf(),
    {
        self.apply_layout();
        self.apply_focus();
    }
}

} // verus!
