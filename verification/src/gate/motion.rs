//! The frame by frame work on windows that are on their way, and the start
//! and the lock of the session.

use vstd::prelude::*;

use crate::gate::animation;
use crate::gate::animation::{ActiveAnimation, Offset};
use crate::gate::config;
use crate::gate::config::AutostartEntry;
use crate::gate::lifecycle;
use crate::gate::stage;
use crate::gate::stage::{Placed, StageView};
use crate::gate::state;
use crate::gate::state::{Gate, GateView, OutputView, PendingSend, Route, RouteView, ScratchpadView};
use crate::gate::workspace;
use crate::gate::workspace::{WindowId, WORKSPACE_COUNT};
use crate::text;

verus! {

/// The sum of two numbers, kept within the range of an `i32`.
pub open spec fn saturated(a: int) -> i32 {
    if a > i32::MAX {
        i32::MAX
    } else if a < i32::MIN {
        i32::MIN
    } else {
        a as i32
    }
}

fn plus(a: i32, b: i32) -> (r: i32)
    ensures
        r == saturated(a + b),
{
    let s: i64 = a as i64 + b as i64;
    if s > i32::MAX as i64 {
        i32::MAX
    } else if s < i32::MIN as i64 {
        i32::MIN
    } else {
        s as i32
    }
}

/// Whether no window of `ws` is on its way.
pub open spec fn at_rest(s: Seq<ActiveAnimation>, ws: Seq<WindowId>) -> bool {
    forall|i: int| 0 <= i < ws.len() ==> !animation::moving(s, #[trigger] ws[i])
}

impl GateView {
    /// Whether any scratchpad is visible or on its way out.
    pub open spec fn any_pad_active(self) -> bool {
        exists|s: int|
            0 <= s < self.scratchpads.len() && ((#[trigger] self.scratchpads[s]).visible
                || self.scratchpads[s].hiding)
    }

    /// Whether the window belongs to a scratchpad.
    pub open spec fn pad_window(self, w: WindowId) -> bool {
        exists|s: int| #[trigger] self.in_sp(s, w)
    }

    /// Whether the window keeps its place while a scratchpad is in front.
    pub open spec fn held(self, w: WindowId) -> bool {
        self.any_pad_active() && !self.pad_window(w)
    }

    /// The stage with the first `n` windows of the last layout moved to where
    /// their animations have brought them.
    pub open spec fn moved_along(self, offsets: Seq<Offset>, n: int) -> StageView
        decreases n,
    {
        if n <= 0 {
            self.stage
        } else {
            let s = self.moved_along(offsets, n - 1);
            let p = self.stage.base[n - 1];
            match animation::animation_of(self.animations, p.window) {
                Some(i) => if self.held(p.window) {
                    s
                } else {
                    s.mapped(
                        Placed {
                            window: p.window,
                            x: saturated(p.x + offsets[i as int].dx),
                            y: saturated(p.y + offsets[i as int].dy),
                        },
                    )
                },
                None => s,
            }
        }
    }

    /// The animation of the window that the last layout placed at index `i`.
    pub open spec fn animation_at(self, i: int) -> Option<usize> {
        if 0 <= i < self.stage.base.len() {
            animation::animation_of(self.animations, self.stage.base[i].window)
        } else {
            None
        }
    }

    /// The state with windows and borders moved to where the animations have
    /// brought them.
    pub open spec fn offsets_applied(self, offsets: Seq<Offset>) -> GateView {
        let regular = self.stage.border_rects.len();
        GateView {
            stage: StageView {
                border_offsets: Seq::new(regular, |i: int| self.animation_at(i)),
                scratchpad_border_offsets: Seq::new(
                    self.stage.scratchpad_border_rects.len(),
                    |i: int| self.animation_at(regular + i),
                ),
                ..self.moved_along(offsets, self.stage.base.len() as int)
            },
            ..self
        }
    }

    /// Whether scratchpad `s` has finished its way out.
    pub open spec fn pad_gone(self, s: int) -> bool {
        self.scratchpads[s].hiding && at_rest(
            self.animations,
            self.scratchpads[s].workspace.clients,
        )
    }

    /// The state with those of the first `n` scratchpads hidden that have
    /// finished their way out.
    pub open spec fn pads_settled(self, n: int) -> GateView
        decreases n,
    {
        if n <= 0 {
            self
        } else {
            let g = self.pads_settled(n - 1);
            if self.pad_gone(n - 1) {
                (GateView {
                    stage: g.stage.unmapped(self.scratchpads[n - 1].workspace.clients, None),
                    ..g.with_sp(
                        n - 1,
                        ScratchpadView {
                            visible: false,
                            hiding: false,
                            ..self.scratchpads[n - 1]
                        },
                    )
                }).pad_borders_cleared()
            } else {
                g
            }
        }
    }

    /// Whether any of the first `n` scratchpads has finished its way out.
    pub open spec fn any_pad_gone(self, n: int) -> bool {
        exists|s: int| 0 <= s < n && #[trigger] self.pad_gone(s)
    }

    /// Whether the window is in a scratchpad or waits outside.
    pub open spec fn elsewhere(self, w: WindowId) -> bool {
        self.pad_window(w) || self.outside(w)
    }

    /// Whether a transfer of the window is due.
    pub open spec fn send_due(self, w: WindowId) -> bool {
        lifecycle::send_from(self.pending_sends, w, 0) < self.pending_sends.len()
    }

    /// The state after a window has arrived at the end of its way out: it
    /// leaves the screen, and a transfer that was waiting for this takes
    /// place.
    pub open spec fn arrived_one(self, w: WindowId) -> GateView {
        let g = GateView { stage: self.stage.unmapped(seq![w], None), ..self };
        let i = lifecycle::send_from(self.pending_sends, w, 0);
        if i < self.pending_sends.len() {
            let p = self.pending_sends[i];
            let g = (GateView { pending_sends: self.pending_sends.remove(i), ..g }).pools_without(
                w,
            );
            if p.output < g.workspaces.len() && p.workspace < g.workspaces[p.output as int].len()
                && !g.elsewhere(w) {
                g.with_ws(
                    p.output as int,
                    p.workspace as int,
                    g.workspaces[p.output as int][p.workspace as int].added(w, false),
                )
            } else {
                g
            }
        } else {
            g
        }
    }

    /// The state after windows have arrived, in order.
    pub open spec fn arrived(self, ws: Seq<WindowId>) -> GateView
        decreases ws.len(),
    {
        if ws.len() == 0 {
            self
        } else {
            self.arrived(ws.drop_last()).arrived_one(ws.last())
        }
    }

    /// Whether the arrival of any of the windows sets off a transfer.
    pub open spec fn any_sent(self, ws: Seq<WindowId>) -> bool
        decreases ws.len(),
    {
        ws.len() > 0 && (self.any_sent(ws.drop_last()) || self.arrived(ws.drop_last()).send_due(
            ws.last(),
        ))
    }

    /// The stage with the first `n` windows of the last layout back in their
    /// places, where they are not on their way.
    pub open spec fn snapped(self, n: int) -> StageView
        decreases n,
    {
        if n <= 0 {
            self.stage
        } else {
            let s = self.snapped(n - 1);
            let p = self.stage.base[n - 1];
            if self.held(p.window) || animation::moving(self.animations, p.window) {
                s
            } else {
                s.mapped(p)
            }
        }
    }

    /// The state after the animations that are done have been dealt with.
    #[verifier::opaque]
    pub open spec fn ticked(self) -> GateView {
        let leaving = animation::leaving(self.animations, self.now_ns);
        let g = GateView { animations: animation::running(self.animations, self.now_ns), ..self };
        let n = g.scratchpads.len() as int;
        let h = g.pads_settled(n).arrived(leaving);
        let s = GateView { stage: h.snapped(h.stage.base.len() as int), ..h };
        if g.any_pad_gone(n) || g.pads_settled(n).any_sent(leaving) {
            s.settled()
        } else {
            s
        }
    }
}

impl Gate {
    /// Whether a window belongs to a scratchpad.
    pub fn is_scratchpad_window(&self, w: WindowId) -> (r: bool)
        ensures
            r == self@.pad_window(w),
    {
        let mut s: usize = 0;
        while s < self.scratchpads.len()
            invariant
                s <= self.scratchpads.len(),
                forall|i: int| i < s ==> !#[trigger] self@.in_sp(i, w),
            decreases self.scratchpads.len() - s,
        {
            assert(self@.scratchpads[s as int] == self.scratchpads@[s as int]@);
            if workspace::holds(&self.scratchpads[s].workspace.clients, w) {
                assert(self@.in_sp(s as int, w));
                return true;
            }
            s = s + 1;
        }
        false
    }

    /// Whether any scratchpad is visible or on its way out.
    fn any_scratchpad_active(&self) -> (r: bool)
        ensures
            r == self@.any_pad_active(),
    {
        let mut s: usize = 0;
        while s < self.scratchpads.len()
            invariant
                s <= self.scratchpads.len(),
                forall|i: int|
                    0 <= i < s ==> !((#[trigger] self@.scratchpads[i]).visible
                        || self@.scratchpads[i].hiding),
            decreases self.scratchpads.len() - s,
        {
            assert(self@.scratchpads[s as int] == self.scratchpads@[s as int]@);
            if self.scratchpads[s].visible || self.scratchpads[s].hiding {
                return true;
            }
            s = s + 1;
        }
        false
    }

    fn is_held(&self, w: WindowId) -> (r: bool)
        ensures
            r == self@.held(w),
    {
        self.any_scratchpad_active() && !self.is_scratchpad_window(w)
    }

    fn animation_index(&self, i: usize) -> (out: Option<usize>)
        ensures
            out == self@.animation_at(i as int),
    {
        if i < self.stage.base_positions.len() {
            self.animations.offset_for(self.stage.base_positions[i].window)
        } else {
            None
        }
    }

    /// Moves windows and borders to where the animations have brought them.
    /// `offsets` holds the present displacement of every animation.
    pub fn apply_animation_offsets(&mut self, offsets: &Vec<Offset>)
        requires
            old(self)@.wf(),
            offsets.len() == old(self)@.animations.len(),
        ensures
            final(self)@ == old(self)@.offsets_applied(offsets@),
            final(self)@.wf(),
    {
        let ghost g = self@;
        let mut n: usize = 0;
        while n < self.stage.base_positions.len()
            invariant
                n <= self.stage.base_positions.len(),
                offsets.len() == g.animations.len(),
                self.stage@.base == g.stage.base,
                self@ == (GateView { stage: g.moved_along(offsets@, n as int), ..g }),
            decreases self.stage.base_positions.len() - n,
        {
            let p: Placed = self.stage.base_positions[n];
            assert(p == g.stage.base[n as int]);
            assert(self@.held(p.window) == g.held(p.window)) by {
                lemma_held_kept(g, self@, p.window);
            }
            match self.animations.offset_for(p.window) {
                Some(i) => {
                    if !self.is_held(p.window) {
                        let q: Placed = Placed {
                            window: p.window,
                            x: plus(p.x, offsets[i].dx),
                            y: plus(p.y, offsets[i].dy),
                        };
                        self.stage.map(q);
                    }
                },
                None => {},
            }
            n = n + 1;
        }
        proof {
            lemma_moved_frame(g, offsets@, g.stage.base.len() as int);
        }
        let total: usize = self.stage.base_positions.len();
        let mut borders: Vec<Option<usize>> = Vec::new();
        let regular: usize = self.stage.border_rects.len();
        let mut i: usize = 0;
        while i < regular
            invariant
                i <= regular,
                regular == g.stage.border_rects.len(),
                self@.stage.base == g.stage.base,
                self@.animations == g.animations,
                borders@ == Seq::new(i as nat, |k: int| g.animation_at(k)),
            decreases regular - i,
        {
            borders.push(self.animation_index(i));
            i = i + 1;
            assert(borders@ =~= Seq::new(i as nat, |k: int| g.animation_at(k)));
        }
        let mut pads: Vec<Option<usize>> = Vec::new();
        let mut j: usize = 0;
        while j < self.stage.scratchpad_border_rects.len()
            invariant
                j <= self.stage.scratchpad_border_rects.len(),
                regular == g.stage.border_rects.len(),
                total == g.stage.base.len(),
                self@.stage.base == g.stage.base,
                self@.animations == g.animations,
                pads@ == Seq::new(j as nat, |k: int| g.animation_at(regular + k)),
            decreases self.stage.scratchpad_border_rects.len() - j,
        {
            let source: Option<usize> = if regular < total && j < total - regular {
                self.animation_index(regular + j)
            } else {
                None
            };
            pads.push(source);
            j = j + 1;
            assert(pads@ =~= Seq::new(j as nat, |k: int| g.animation_at(regular + k)));
        }
        self.stage.border_offsets = borders;
        self.stage.scratchpad_border_offsets = pads;
        proof {
            assert(self@ =~= g.offsets_applied(offsets@));
            state::lemma_same_places(g, self@);
        }
    }

    fn all_at_rest(&self, ws: &Vec<WindowId>) -> (r: bool)
        ensures
            r == at_rest(self@.animations, ws@),
    {
        let mut i: usize = 0;
        while i < ws.len()
            invariant
                i <= ws.len(),
                forall|k: int| 0 <= k < i ==> !animation::moving(self@.animations, #[trigger] ws@[k]),
            decreases ws.len() - i,
        {
            if self.animations.offset_for(ws[i]).is_some() {
                assert(animation::moving(self@.animations, ws@[i as int]));
                return false;
            }
            i = i + 1;
        }
        true
    }

    fn drop_pad(&mut self, s: usize)
        requires
            old(self)@.wf(),
            s < old(self)@.scratchpads.len(),
        ensures
            final(self)@ == (GateView {
                stage: old(self)@.stage.unmapped(
                    old(self)@.scratchpads[s as int].workspace.clients,
                    None,
                ),
                ..old(self)@.with_sp(
                    s as int,
                    ScratchpadView {
                        visible: false,
                        hiding: false,
                        ..old(self)@.scratchpads[s as int]
                    },
                )
            }).pad_borders_cleared(),
            final(self)@.wf(),
    {
        assert(self@.scratchpads[s as int] == self.scratchpads@[s as int]@);
        assert(state::ws_ok(self@.scratchpads[s as int].workspace));
        self.scratchpads[s].visible = false;
        self.scratchpads[s].hiding = false;
        proof {
            let v = ScratchpadView {
                visible: false,
                hiding: false,
                ..old(self)@.scratchpads[s as int]
            };
            assert(self@.scratchpads =~= old(self)@.scratchpads.update(s as int, v));
            assert(self@ =~= old(self)@.with_sp(s as int, v));
            state::lemma_with_sp(old(self)@, s as int, v);
        }
        let ghost before = self@;
        self.stage.unmap(&self.scratchpads[s].workspace.clients, None);
        proof {
            state::lemma_same_places(before, self@);
        }
        self.clear_pad_borders();
    }

    fn settle_pads(&mut self) -> (any: bool)
        requires
            old(self)@.wf(),
        ensures
            final(self)@ == old(self)@.pads_settled(old(self)@.scratchpads.len() as int),
            final(self)@.wf(),
            any == old(self)@.any_pad_gone(old(self)@.scratchpads.len() as int),
    {
        let ghost g = self@;
        let mut any: bool = false;
        let mut s: usize = 0;
        while s < self.scratchpads.len()
            invariant
                s <= self.scratchpads.len(),
                self@.wf(),
                self.scratchpads@.len() == g.scratchpads.len(),
                self@ == g.pads_settled(s as int),
                self@.animations == g.animations,
                forall|i: int|
                    s <= i < g.scratchpads.len() ==> #[trigger] self@.scratchpads[i]
                        == g.scratchpads[i],
                any == g.any_pad_gone(s as int),
            decreases self.scratchpads.len() - s,
        {
            assert(self@.scratchpads[s as int] == self.scratchpads@[s as int]@);
            assert(self@.scratchpads[s as int] == g.scratchpads[s as int]);
            let gone: bool = self.scratchpads[s].hiding && self.all_at_rest(
                &self.scratchpads[s].workspace.clients,
            );
            assert(gone == g.pad_gone(s as int));
            let ghost was = any;
            if gone {
                self.drop_pad(s);
                any = true;
            }
            assert(self.scratchpads@.len() == self@.scratchpads.len());
            proof {
                if was {
                    let i = choose|i: int| 0 <= i < s && #[trigger] g.pad_gone(i);
                    assert(0 <= i < s + 1 && g.pad_gone(i));
                }
            }
            s = s + 1;
        }
        any
    }

    fn find_send(&self, w: WindowId) -> (out: Option<usize>)
        ensures
            match out {
                Some(i) => i < self@.pending_sends.len() && i == lifecycle::send_from(
                    self@.pending_sends,
                    w,
                    0,
                ),
                None => !self@.send_due(w),
            },
    {
        let mut i: usize = 0;
        while i < self.pending_sends.len()
            invariant
                i <= self.pending_sends.len(),
                lifecycle::send_from(self@.pending_sends, w, 0) == lifecycle::send_from(
                    self@.pending_sends,
                    w,
                    i as int,
                ),
            decreases self.pending_sends.len() - i,
        {
            if self.pending_sends[i].window == w {
                return Some(i);
            }
            i = i + 1;
        }
        None
    }

    fn arrive(&mut self, w: WindowId) -> (sent: bool)
        requires
            old(self)@.wf(),
        ensures
            final(self)@ == old(self)@.arrived_one(w),
            final(self)@.wf(),
            sent == old(self)@.send_due(w),
    {
        self.stage.unmap_one(w);
        proof {
            state::lemma_same_places(old(self)@, self@);
        }
        let i: usize = match self.find_send(w) {
            Some(i) => i,
            None => {
                return false;
            },
        };
        let p: PendingSend = self.pending_sends[i];
        let ghost before = self@;
        let _ = self.pending_sends.remove(i);
        proof {
            state::lemma_same_places(before, self@);
            lifecycle::lemma_forgotten_wf(self@, w);
        }
        let ghost mid = self@;
        self.remove_from_pools(w);
        let elsewhere: bool = self.is_scratchpad_window(w) || workspace::holds(
            &self.unmapped_windows,
            w,
        ) || workspace::holds(&self.hidden_helpers, w);
        assert(self@.workspaces.len() == self.workspaces@.len());
        if !elsewhere && p.output < self.workspaces.len() {
            assert(self@.workspaces[p.output as int] == state::pool_view(
                self.workspaces@[p.output as int]@,
            ));
            assert(self@.workspaces[p.output as int].len() == WORKSPACE_COUNT);
            if p.workspace < self.workspaces[p.output].len() {
                self.put_in_ws(p.output, p.workspace, w, false);
            }
        }
        true
    }

    fn arrive_all(&mut self, ws: &Vec<WindowId>) -> (any: bool)
        requires
            old(self)@.wf(),
        ensures
            final(self)@ == old(self)@.arrived(ws@),
            final(self)@.wf(),
            any == old(self)@.any_sent(ws@),
    {
        let mut any: bool = false;
        let mut i: usize = 0;
        assert(ws@.take(0) =~= Seq::<WindowId>::empty());
        while i < ws.len()
            invariant
                i <= ws.len(),
                self@.wf(),
                self@ == old(self)@.arrived(ws@.take(i as int)),
                any == old(self)@.any_sent(ws@.take(i as int)),
            decreases ws.len() - i,
        {
            assert(ws@.take(i + 1).drop_last() =~= ws@.take(i as int));
            let sent: bool = self.arrive(ws[i]);
            any = any || sent;
            i = i + 1;
        }
        assert(ws@.take(i as int) =~= ws@);
        any
    }

    fn snap(&mut self)
        requires
            old(self)@.wf(),
        ensures
            final(self)@ == (GateView {
                stage: old(self)@.snapped(old(self)@.stage.base.len() as int),
                ..old(self)@
            }),
            final(self)@.wf(),
    {
        let ghost g = self@;
        let mut n: usize = 0;
        while n < self.stage.base_positions.len()
            invariant
                n <= self.stage.base_positions.len(),
                self.stage@.base == g.stage.base,
                self@ == (GateView { stage: g.snapped(n as int), ..g }),
            decreases self.stage.base_positions.len() - n,
        {
            let p: Placed = self.stage.base_positions[n];
            assert(p == g.stage.base[n as int]);
            assert(self@.held(p.window) == g.held(p.window)) by {
                lemma_held_kept(g, self@, p.window);
            }
            if !self.is_held(p.window) && self.animations.offset_for(p.window).is_none() {
                self.stage.map(p);
            }
            n = n + 1;
        }
        proof {
            state::lemma_same_places(g, self@);
        }
    }

    /// Deals with the animations that are done: windows leave the screen,
    /// transfers take place, and windows at rest are put in their places.
    pub fn process_completed_animations(&mut self)
        requires
            old(self)@.wf(),
        ensures
            final(self)@ == old(self)@.ticked(),
            final(self)@.wf(),
    {
        proof {
            reveal(GateView::ticked);
        }
        let now: u64 = self.now_ns;
        let leaving: Vec<WindowId> = self.animations.tick(now);
        proof {
            state::lemma_same_places(old(self)@, self@);
        }
        let pads: bool = self.settle_pads();
        let sends: bool = self.arrive_all(&leaving);
        self.snap();
        if pads || sends {
            self.settle();
        }
    }
}

proof fn lemma_held_kept(g: GateView, h: GateView, w: WindowId)
    requires
        h.scratchpads == g.scratchpads,
    ensures
        h.held(w) == g.held(w),
{
    assert(h.any_pad_active() == g.any_pad_active());
    if g.pad_window(w) {
        let s = choose|s: int| #[trigger] g.in_sp(s, w);
        assert(h.in_sp(s, w));
    }
    if h.pad_window(w) {
        let s = choose|s: int| #[trigger] h.in_sp(s, w);
        assert(g.in_sp(s, w));
    }
}

proof fn lemma_moved_frame(g: GateView, offsets: Seq<Offset>, n: int)
    ensures
        g.moved_along(offsets, n) == (StageView {
            space: g.moved_along(offsets, n).space,
            ..g.stage
        }),
    decreases n,
{
    if n > 0 {
        lemma_moved_frame(g, offsets, n - 1);
    }
}

// ---- The start of the session -----------------------------------------------

/// Whether a command is to be run with the monitors that are there.
pub open spec fn eligible(e: AutostartEntry, names: Seq<Seq<char>>) -> bool {
    &&& forall|i: int|
        0 <= i < e.required_monitors@.len() ==> names.contains(
            (#[trigger] e.required_monitors@[i])@,
        )
    &&& forall|i: int|
        0 <= i < e.forbidden_monitors@.len() ==> !names.contains(
            (#[trigger] e.forbidden_monitors@[i])@,
        )
}

impl GateView {
    /// The names of the outputs.
    pub open spec fn names(self) -> Seq<Seq<char>> {
        self.outputs.map_values(|o: OutputView| o.name)
    }

    /// The output that an entry names by its place in the order, else the
    /// focused one.
    pub open spec fn entry_output(self, e: AutostartEntry) -> usize {
        match e.monitor {
            Some(m) => if m < self.order.len() && self.order[m as int] < self.outputs.len() {
                self.order[m as int]
            } else {
                self.focused_output
            },
            None => self.focused_output,
        }
    }

    /// The route that an entry gives to the window of its application.
    pub open spec fn entry_route(self, e: AutostartEntry) -> RouteView {
        let o = self.entry_output(e);
        RouteView {
            app_id: e.app_id->0@,
            output: o,
            workspace: match e.workspace {
                Some(k) => k,
                None => self.effective_ws(o as int) as usize,
            },
            since_ns: self.now_ns,
        }
    }

    /// Whether an entry says where the window of its command goes.
    pub open spec fn entry_routes(self, e: AutostartEntry) -> bool {
        e.app_id is Some && (e.monitor is Some || e.workspace is Some)
    }

    /// The state after the first `n` entries have been dealt with.
    pub open spec fn autostarted(self, n: int) -> GateView
        decreases n,
    {
        if n <= 0 {
            self
        } else {
            let g = self.autostarted(n - 1);
            let e = self.config.autostart@[n - 1];
            if eligible(e, self.names()) {
                GateView {
                    routes: if self.entry_routes(e) {
                        g.routes.push(self.entry_route(e))
                    } else {
                        g.routes
                    },
                    spawns: g.spawns.push(e.command@),
                    ..g
                }
            } else {
                g
            }
        }
    }
}

impl Gate {
    fn has_output(&self, name: &str) -> (r: bool)
        ensures
            r == self@.names().contains(name@),
    {
        let mut o: usize = 0;
        while o < self.outputs.len()
            invariant
                o <= self.outputs.len(),
                forall|i: int| 0 <= i < o ==> #[trigger] self@.names()[i] != name@,
            decreases self.outputs.len() - o,
        {
            assert(self@.names()[o as int] == self.outputs@[o as int]@.name);
            if text::eq_str(self.outputs[o].name.as_str(), name) {
                assert(self@.names()[o as int] == name@);
                return true;
            }
            o = o + 1;
        }
        false
    }

    fn is_eligible(&self, e: &AutostartEntry) -> (r: bool)
        ensures
            r == eligible(*e, self@.names()),
    {
        let mut i: usize = 0;
        while i < e.required_monitors.len()
            invariant
                i <= e.required_monitors.len(),
                forall|k: int|
                    0 <= k < i ==> self@.names().contains((#[trigger] e.required_monitors@[k])@),
            decreases e.required_monitors.len() - i,
        {
            if !self.has_output(e.required_monitors[i].as_str()) {
                assert(!self@.names().contains(e.required_monitors@[i as int]@));
                return false;
            }
            i = i + 1;
        }
        let mut j: usize = 0;
        while j < e.forbidden_monitors.len()
            invariant
                j <= e.forbidden_monitors.len(),
                forall|k: int|
                    0 <= k < j ==> !self@.names().contains((#[trigger] e.forbidden_monitors@[k])@),
            decreases e.forbidden_monitors.len() - j,
        {
            if self.has_output(e.forbidden_monitors[j].as_str()) {
                assert(self@.names().contains(e.forbidden_monitors@[j as int]@));
                return false;
            }
            j = j + 1;
        }
        true
    }

    /// Runs the commands of the settings, once. A command whose window has a
    /// place to go to gets a route first.
    pub fn run_autostart(&mut self)
        requires
            old(self)@.wf(),
        ensures
            final(self)@ == (if old(self)@.autostart_done {
                old(self)@
            } else {
                GateView {
                    autostart_done: true,
                    ..old(self)@.autostarted(old(self)@.config.autostart@.len() as int)
                }
            }),
            final(self)@.wf(),
    {
        if self.autostart_done {
            return;
        }
        let ghost g = self@;
        let mut i: usize = 0;
        while i < self.config.autostart.len()
            invariant
                i <= self.config.autostart.len(),
                g.wf(),
                self@ == g.autostarted(i as int),
                self@ == (GateView { routes: self@.routes, spawns: self@.spawns, ..g }),
            decreases self.config.autostart.len() - i,
        {
            let ghost before = self@;
            let ghost e0 = self.config.autostart@[i as int];
            assert(e0 == g.config.autostart@[i as int]);
            assert(self@.names() =~= g.names());
            let e: &AutostartEntry = &self.config.autostart[i];
            if self.is_eligible(e) {
                let route: Option<Route> = self.route_of(e);
                let command: String = text::copy_str(&e.command);
                match route {
                    Some(r) => {
                        self.pending_autostart_routes.push(r);
                        assert(self@.routes =~= before.routes.push(r@));
                        assert(r@ =~= g.entry_route(e0));
                    },
                    None => {},
                }
                self.spawns.push(command);
                assert(self@.spawns =~= before.spawns.push(e0.command@));
            }
            i = i + 1;
            assert(self@ =~= g.autostarted(i as int));
        }
        self.autostart_done = true;
        proof {
            state::lemma_same_places(g, self@);
        }
    }

    fn route_of(&self, e: &AutostartEntry) -> (out: Option<Route>)
        ensures
            match out {
                Some(r) => self@.entry_routes(*e) && r@ == self@.entry_route(*e),
                None => !self@.entry_routes(*e),
            },
    {
        match &e.app_id {
            Some(app_id) => {
                if e.monitor.is_none() && e.workspace.is_none() {
                    return None;
                }
                let o: usize = match e.monitor {
                    Some(m) => if m < self.output_order.len() && self.output_order[m]
                        < self.outputs.len() {
                        self.output_order[m]
                    } else {
                        self.focused_output
                    },
                    None => self.focused_output,
                };
                let k: usize = match e.workspace {
                    Some(k) => k,
                    None => self.effective_ws(o),
                };
                let r: Route = Route {
                    app_id: text::copy_str(app_id),
                    output: o,
                    workspace: k,
                    since_ns: self.now_ns,
                };
                assert(r@ =~= self@.entry_route(*e));
                Some(r)
            },
            None => None,
        }
    }
}

/// Whether a window keeps its place because a scratchpad is in front or on its
/// way out, and the window is in none.
pub open spec fn stands_back(g: GateView, w: WindowId) -> bool {
    &&& exists|s: int|
        0 <= s < g.scratchpads.len() && ((#[trigger] g.scratchpads[s]).visible
            || g.scratchpads[s].hiding)
    &&& forall|s: int|
        0 <= s < g.scratchpads.len() ==> !(#[trigger] g.scratchpads[s]).workspace.clients.contains(w)
}

proof fn lemma_stands_back(g: GateView, w: WindowId)
    ensures
        g.held(w) == stands_back(g, w),
{
    if g.pad_window(w) {
        let s = choose|s: int| #[trigger] g.in_sp(s, w);
        assert(g.scratchpads[s].workspace.clients.contains(w));
    } else {
        assert forall|s: int| 0 <= s < g.scratchpads.len() implies !(
        #[trigger] g.scratchpads[s]).workspace.clients.contains(w) by {
            assert(!g.in_sp(s, w));
        }
    }
}

proof fn lemma_moved_place(g: GateView, offsets: Seq<Offset>, n: int, w: WindowId)
    requires
        stage::mapped_once(g.stage.space),
        0 <= n <= g.stage.base.len(),
        forall|a: int, b: int|
            0 <= a < b < g.stage.base.len() ==> (#[trigger] g.stage.base[a]).window != (
            #[trigger] g.stage.base[b]).window,
    ensures
        stage::mapped_once(g.moved_along(offsets, n).space),
        forall|m: int|
            0 <= m < n && (#[trigger] g.stage.base[m]).window == w && !g.held(w)
                && animation::animation_of(g.animations, w) is Some ==> stage::place_of(
                g.moved_along(offsets, n).space,
                w,
            ) == Some(
                Placed {
                    window: w,
                    x: saturated(
                        g.stage.base[m].x + offsets[animation::animation_of(
                            g.animations,
                            w,
                        )->0 as int].dx,
                    ),
                    y: saturated(
                        g.stage.base[m].y + offsets[animation::animation_of(
                            g.animations,
                            w,
                        )->0 as int].dy,
                    ),
                },
            ),
        g.held(w) || animation::animation_of(g.animations, w) is None ==> stage::place_of(
            g.moved_along(offsets, n).space,
            w,
        ) == stage::place_of(g.stage.space, w),
    decreases n,
{
    if n > 0 {
        lemma_moved_place(g, offsets, n - 1, w);
        let s = g.moved_along(offsets, n - 1);
        let p = g.stage.base[n - 1];
        match animation::animation_of(g.animations, p.window) {
            Some(i) => {
                if !g.held(p.window) {
                    let q = Placed {
                        window: p.window,
                        x: saturated(p.x + offsets[i as int].dx),
                        y: saturated(p.y + offsets[i as int].dy),
                    };
                    crate::gate::places::law_mapping(s, q, w);
                }
            },
            None => {},
        }
        assert forall|m: int| 0 <= m < n - 1 && (#[trigger] g.stage.base[m]).window == w implies
            p.window != w by {
            assert(g.stage.base[m].window != g.stage.base[n - 1].window);
        }
    }
}

/// A window on its way stands as far from the place that the layout gave it as
/// its animation has brought it; one without an animation, or one that a
/// scratchpad holds back, stays where it is.
pub proof fn law_moving_window_is_off_its_place(
    g: GateView,
    offsets: Seq<Offset>,
    m: int,
    i: int,
)
    requires
        stage::mapped_once(g.stage.space),
        forall|a: int, b: int|
            0 <= a < b < g.stage.base.len() ==> (#[trigger] g.stage.base[a]).window != (
            #[trigger] g.stage.base[b]).window,
        0 <= m < g.stage.base.len(),
        0 <= i < g.animations.len() <= usize::MAX,
        g.animations[i].window == g.stage.base[m].window,
        forall|j: int|
            0 <= j < i ==> (#[trigger] g.animations[j]).window != g.stage.base[m].window,
        i32::MIN <= g.stage.base[m].x + offsets[i].dx <= i32::MAX,
        i32::MIN <= g.stage.base[m].y + offsets[i].dy <= i32::MAX,
    ensures
        ({
            let p = g.stage.base[m];
            let at = stage::place_of(g.offsets_applied(offsets).stage.space, p.window);
            &&& stands_back(g, p.window) ==> at == stage::place_of(g.stage.space, p.window)
            &&& !stands_back(g, p.window) ==> at is Some && at->0.x - p.x == offsets[i].dx && at->0.y
                - p.y == offsets[i].dy
        }),
{
    let w = g.stage.base[m].window;
    lemma_stands_back(g, w);
    lemma_animation_is(g.animations, w, 0, i);
    lemma_moved_place(g, offsets, g.stage.base.len() as int, w);
    assert(g.stage.base[m].window == w);
}

proof fn lemma_animation_is(s: Seq<ActiveAnimation>, w: WindowId, j: int, i: int)
    requires
        0 <= j <= i < s.len(),
        s[i].window == w,
        forall|k: int| j <= k < i ==> (#[trigger] s[k]).window != w,
    ensures
        animation::animation_from(s, w, j) == i,
    decreases i - j,
{
    if j < i {
        lemma_animation_is(s, w, j + 1, i);
    }
}

proof fn lemma_pads_settled(g: GateView, n: int)
    requires
        0 <= n <= g.scratchpads.len(),
    ensures
        ({
            let h = g.pads_settled(n);
            &&& h.scratchpads.len() == g.scratchpads.len()
            &&& h.animations == g.animations
            &&& forall|s: int|
                0 <= s < g.scratchpads.len() ==> #[trigger] h.scratchpads[s] == (if s < n
                    && g.pad_gone(s) {
                    ScratchpadView { visible: false, hiding: false, ..g.scratchpads[s] }
                } else {
                    g.scratchpads[s]
                })
        }),
    decreases n,
{
    if n > 0 {
        lemma_pads_settled(g, n - 1);
    }
}

proof fn lemma_arrived_frame(g: GateView, ws: Seq<WindowId>)
    ensures
        g.arrived(ws).scratchpads == g.scratchpads,
        g.arrived(ws).animations == g.animations,
    decreases ws.len(),
{
    if ws.len() > 0 {
        lemma_arrived_frame(g, ws.drop_last());
    }
}

/// A scratchpad on its way out hides when none of its windows moves any more;
/// every other one stays as it is. The animations that are over are dropped.
pub proof fn law_scratchpad_is_gone_when_still(g: GateView, s: int)
    requires
        0 <= s < g.scratchpads.len(),
    ensures
        ({
            let h = g.ticked();
            let pad = g.scratchpads[s];
            let still = forall|i: int, k: int|
                #![trigger g.animations[i], pad.workspace.clients[k]]
                0 <= i < g.animations.len() && 0 <= k < pad.workspace.clients.len()
                    && g.animations[i].window == pad.workspace.clients[k] ==> g.now_ns
                    >= g.animations[i].start_ns + g.animations[i].duration_ms * 1_000_000;
            &&& pad.hiding && still ==> h.scratchpads[s] == (ScratchpadView {
                visible: false,
                hiding: false,
                ..pad
            })
            &&& !(pad.hiding && still) ==> h.scratchpads[s] == pad
            &&& forall|i: int|
                0 <= i < h.animations.len() ==> g.now_ns < (#[trigger] h.animations[i]).start_ns
                    + h.animations[i].duration_ms * 1_000_000
        }),
{
    reveal(GateView::ticked);
    let a = GateView { animations: animation::running(g.animations, g.now_ns), ..g };
    let n = a.scratchpads.len() as int;
    let leaving = animation::leaving(g.animations, g.now_ns);
    lemma_pads_settled(a, n);
    let b = a.pads_settled(n);
    lemma_arrived_frame(b, leaving);
    let c = b.arrived(leaving);
    let d = GateView { stage: c.snapped(c.stage.base.len() as int), ..c };
    crate::gate::laws::lemma_settled_frame(d);
    assert(g.ticked().scratchpads == b.scratchpads);
    assert(g.ticked().animations == a.animations);
    let pad = g.scratchpads[s];
    let ws = pad.workspace.clients;
    let r = a.animations;
    let still = forall|i: int, k: int|
        #![trigger g.animations[i], pad.workspace.clients[k]]
        0 <= i < g.animations.len() && 0 <= k < pad.workspace.clients.len()
            && g.animations[i].window == pad.workspace.clients[k] ==> g.now_ns
            >= g.animations[i].start_ns + g.animations[i].duration_ms * 1_000_000;
    assert(at_rest(r, ws) == still) by {
        if at_rest(r, ws) {
            assert forall|i: int, k: int|
                #![trigger g.animations[i], pad.workspace.clients[k]]
                0 <= i < g.animations.len() && 0 <= k < pad.workspace.clients.len()
                    && g.animations[i].window == pad.workspace.clients[k] implies g.now_ns
                >= g.animations[i].start_ns + g.animations[i].duration_ms * 1_000_000 by {
                let x = g.animations[i];
                animation::law_ways_take_their_time(g.animations, g.now_ns, x);
                assert(g.animations.contains(x));
                if r.contains(x) {
                    let j = choose|j: int| 0 <= j < r.len() && r[j] == x;
                    assert(r[j].window == ws[k]);
                    assert(animation::moving(r, ws[k]));
                }
            }
        }
        if still {
            assert forall|k: int| 0 <= k < ws.len() implies !animation::moving(
                r,
                #[trigger] ws[k],
            ) by {
                if animation::moving(r, ws[k]) {
                    let j = choose|j: int| 0 <= j < r.len() && (#[trigger] r[j]).window == ws[k];
                    let x = r[j];
                    assert(r.contains(x));
                    animation::law_ways_take_their_time(g.animations, g.now_ns, x);
                    let i = choose|i: int|
                        0 <= i < g.animations.len() && g.animations[i] == x;
                    assert(g.animations[i].window == pad.workspace.clients[k]);
                }
            }
        }
    }
    assert forall|i: int| 0 <= i < r.len() implies g.now_ns < (#[trigger] r[i]).start_ns
        + r[i].duration_ms * 1_000_000 by {
        assert(r.contains(r[i]));
        animation::law_ways_take_their_time(g.animations, g.now_ns, r[i]);
    }
}

/// At the start of the session the commands run in the order of the settings,
/// those that need a monitor which is not there, or that do not want one which
/// is, left out. A window whose place the settings give is routed there: to the
/// output that they count, or the focused one, and to the workspace that they
/// name, or the one in view.
pub proof fn law_start_of_the_session(g: GateView, n: int)
    requires
        0 <= n < g.config.autostart@.len(),
    ensures
        ({
            let e = g.config.autostart@[n];
            let a = g.autostarted(n);
            let b = g.autostarted(n + 1);
            let there = |name: Seq<char>|
                exists|o: int| 0 <= o < g.outputs.len() && (#[trigger] g.outputs[o]).name == name;
            let wanted = (forall|i: int|
                0 <= i < e.required_monitors@.len() ==> there(
                    (#[trigger] e.required_monitors@[i])@,
                )) && (forall|i: int|
                0 <= i < e.forbidden_monitors@.len() ==> !there(
                    (#[trigger] e.forbidden_monitors@[i])@,
                ));
            &&& !wanted ==> b == a
            &&& wanted ==> b.spawns == a.spawns.push(e.command@)
            &&& wanted && (e.app_id is None || (e.monitor is None && e.workspace is None))
                ==> b.routes == a.routes
            &&& wanted && e.app_id is Some && (e.monitor is Some || e.workspace is Some) ==> {
                let r = b.routes.last();
                &&& b.routes == a.routes.push(r)
                &&& r.app_id == e.app_id->0@
                &&& r.since_ns == g.now_ns
                &&& e.workspace matches Some(k) ==> r.workspace == k
                &&& e.monitor matches Some(m) ==> (m < g.order.len() && g.order[m as int]
                    < g.outputs.len() ==> r.output == g.order[m as int])
                &&& e.monitor is None ==> r.output == g.focused_output
            }
        }),
{
    let e = g.config.autostart@[n];
    let names = g.names();
    assert forall|name: Seq<char>| #[trigger] names.contains(name) <==> exists|o: int|
        0 <= o < g.outputs.len() && (#[trigger] g.outputs[o]).name == name by {
        if names.contains(name) {
            let o = choose|o: int| 0 <= o < names.len() && names[o] == name;
            assert(g.outputs[o].name == name);
        }
        if exists|o: int| 0 <= o < g.outputs.len() && (#[trigger] g.outputs[o]).name == name {
            let o = choose|o: int| 0 <= o < g.outputs.len() && (#[trigger] g.outputs[o]).name
                == name;
            assert(names[o] == name);
        }
    }
}

} // verus!
