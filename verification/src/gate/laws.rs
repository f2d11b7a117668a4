//! What holds of the compositor as a whole.

use vstd::prelude::*;

use crate::gate::actions;
use crate::gate::layout;
use crate::gate::layout::ClientGeometry;
use crate::gate::lifecycle;
use crate::gate::stage;
use crate::gate::stage::{BorderRect, Placed, StageView};
use crate::gate::state;
use crate::gate::state::{GateView, PendingSend, ScratchpadView};
use crate::gate::workspace;
use crate::gate::workspace::{WindowId, WorkspaceView, WORKSPACE_COUNT};
use crate::geometry;
use crate::geometry::{Rect, Size};

verus! {

// ---- Frames -----------------------------------------------------------------

pub proof fn lemma_settled_frame(g: GateView)
    ensures
        state::same_desk(g, g.laid_out()),
        state::same_desk(g, g.focus_applied()),
        state::same_desk(g, g.settled()),
{
    reveal(GateView::laid_out);
    reveal(GateView::focus_applied);
}

pub proof fn lemma_scratchpad_frame(g: GateView, s: int)
    ensures
        state::same_desk(g, g.scratchpad_laid(s)),
{
    reveal(GateView::scratchpad_laid);
}

// ---- Windows have one place -------------------------------------------------

/// A window is in at most one workspace or scratchpad.
pub proof fn law_one_place(g: GateView, w: WindowId, o1: int, k1: int, o2: int, k2: int, s: int)
    requires
        g.wf(),
        g.in_ws(o1, k1, w),
    ensures
        g.in_ws(o2, k2, w) ==> o1 == o2 && k1 == k2,
        !g.in_sp(s, w),
        !g.outside(w),
{
    reveal(GateView::owned_once);
}

/// A window that is sent to another workspace without motion is in that
/// workspace afterwards, and in no other; it has the focus there.
pub proof fn law_send(g: GateView, k: usize)
    requires
        g.wf(),
        g.outputs.len() > 0,
        k < WORKSPACE_COUNT,
        k != g.effective_ws(g.focused_output as int),
        g.front_ws().focused_window() is Some,
        !g.motion_on() || stage::place_of(
            g.stage.space,
            g.front_ws().focused_window()->0,
        ) is None,
    ensures
        ({
            let w = g.front_ws().focused_window()->0;
            let o = g.focused_output as int;
            let h = g.sent(k);
            &&& h.in_ws(o, k as int, w)
            &&& !h.in_ws(o, g.effective_ws(o), w)
            &&& h.workspaces[o][k as int].focused_window() == Some(w)
            &&& h.workspaces[o][k as int].clients == g.workspaces[o][k as int].clients.push(w)
        }),
{
    reveal(GateView::sent);
    let w = g.front_ws().focused_window()->0;
    let o = g.focused_output as int;
    let from = g.effective_ws(o);
    assert(g.workspaces[o].len() == WORKSPACE_COUNT);
    assert(state::ws_ok(g.workspaces[o][from]));
    assert(state::ws_ok(g.workspaces[o][k as int]));
    let m = g.moved(w, o, from, o, k as int);
    lemma_settled_frame(m);
    let before = g.workspaces[o][from];
    workspace::lemma_removed_wf(before, w);
    workspace::lemma_window_count(g.workspaces[o][k as int].clients);
    let target = g.workspaces[o][k as int];
    assert(m.workspaces[o][k as int] == target.added(w, false));
    assert(m.workspaces[o][from] == before.removed(w));
    assert(target.added(w, false).clients.last() == w);
    assert(m.workspaces[o][k as int].clients[target.clients.len() as int] == w);
}

/// A window that is sent with motion is waited for: it is due to be moved when
/// it has slid out.
pub proof fn law_send_is_remembered(g: GateView, k: usize)
    requires
        g.wf(),
        g.outputs.len() > 0,
        k < WORKSPACE_COUNT,
        k != g.effective_ws(g.focused_output as int),
        g.front_ws().focused_window() is Some,
        g.motion_on(),
        stage::place_of(g.stage.space, g.front_ws().focused_window()->0) is Some,
        !g.send_due(g.front_ws().focused_window()->0),
    ensures
        ({
            let w = g.front_ws().focused_window()->0;
            let h = g.sent(k);
            &&& h.send_due(w)
            &&& h.pending_sends[lifecycle::send_from(h.pending_sends, w, 0)] == (PendingSend {
                window: w,
                output: g.focused_output,
                workspace: k,
            })
            &&& h.workspaces == g.workspaces
        }),
{
    reveal(GateView::sent);
    let w = g.front_ws().focused_window()->0;
    let last = PendingSend { window: w, output: g.focused_output, workspace: k };
    lemma_send_at_end(g.pending_sends, last, 0);
}

proof fn lemma_send_at_end(s: Seq<PendingSend>, last: PendingSend, i: int)
    requires
        0 <= i <= s.len(),
        lifecycle::send_from(s, last.window, i) >= s.len(),
    ensures
        lifecycle::send_from(s.push(last), last.window, i) == s.len(),
    decreases s.len() - i,
{
    if i < s.len() {
        assert(s.push(last)[i] == s[i]);
        lemma_send_at_end(s, last, i + 1);
    }
}

/// A window that was sent with motion is, once it has slid out, in the
/// workspace that it was sent to, and in no other; it has the focus there.
pub proof fn law_delayed_send(g: GateView, w: WindowId, o2: int, k2: int)
    requires
        g.wf(),
        g.send_due(w),
        !g.elsewhere(w),
        ({
            let p = g.pending_sends[lifecycle::send_from(g.pending_sends, w, 0)];
            p.output < g.workspaces.len() && p.workspace < WORKSPACE_COUNT
        }),
    ensures
        ({
            let p = g.pending_sends[lifecycle::send_from(g.pending_sends, w, 0)];
            let h = g.arrived_one(w);
            &&& h.in_ws(p.output as int, p.workspace as int, w)
            &&& h.in_ws(o2, k2, w) ==> o2 == p.output && k2 == p.workspace
            &&& h.workspaces[p.output as int][p.workspace as int].focused_window() == Some(w)
        }),
{
    let i = lifecycle::send_from(g.pending_sends, w, 0);
    let p = g.pending_sends[i];
    let o = p.output as int;
    let k = p.workspace as int;
    lifecycle::lemma_forgotten_wf(g, w);
    let a = g.pools_without(w);
    let b = (GateView {
        pending_sends: g.pending_sends.remove(i),
        stage: g.stage.unmapped(seq![w], None),
        ..g
    }).pools_without(w);
    assert(b.workspaces == a.workspaces);
    assert(g.workspaces[o].len() == WORKSPACE_COUNT);
    assert(b.workspaces[o].len() == WORKSPACE_COUNT);
    assert(state::ws_ok(a.workspaces[o][k]));
    assert forall|s: int| #[trigger] b.in_sp(s, w) implies g.in_sp(s, w) by {}
    assert(!b.elsewhere(w));
    let t = b.workspaces[o][k];
    workspace::lemma_window_count(t.clients);
    let h = g.arrived_one(w);
    assert(h.workspaces[o][k] == t.added(w, false));
    assert(h.workspaces[o][k].clients[t.clients.len() as int] == w);
    if h.in_ws(o2, k2, w) && !(o2 == o && k2 == k) {
        assert(h.workspaces[o2][k2] == a.workspaces[o2][k2]);
        assert(!a.in_ws(o2, k2, w));
    }
}

// ---- Views ------------------------------------------------------------------

/// After a change to a workspace the focused output shows it; where outputs
/// are synchronised, all of them do.
pub proof fn law_view(g: GateView, k: usize)
    requires
        g.wf(),
        g.outputs.len() > 0,
        k < WORKSPACE_COUNT,
    ensures
        g.viewed(k).effective_ws(g.focused_output as int) == k,
        g.viewed(k).focused_output == g.focused_output,
        g.config.general.sync_workspaces ==> forall|o: int| g.viewed(k).effective_ws(o) == k,
        !g.config.general.sync_workspaces ==> forall|o: int|
            0 <= o < g.outputs.len() && o != g.focused_output ==> #[trigger] g.viewed(
                k,
            ).effective_ws(o) == g.effective_ws(o),
{
    reveal(GateView::viewed);
    lemma_settled_frame(g.viewing(k));
}

/// Changing to a workspace that is in view changes nothing.
pub proof fn law_view_twice(g: GateView, k: usize)
    requires
        g.wf(),
        g.outputs.len() > 0,
        k < WORKSPACE_COUNT,
    ensures
        g.viewed(k).viewed(k) == g.viewed(k),
{
    law_view(g, k);
    reveal(GateView::viewed);
}

/// A change of view moves no window to another workspace or scratchpad.
pub proof fn law_view_keeps_windows(g: GateView, k: usize)
    ensures
        g.viewed(k).workspaces == g.workspaces,
        g.viewed(k).scratchpads == g.scratchpads,
{
    reveal(GateView::viewed);
    lemma_settled_frame(g.viewing(k));
}

/// Turning the synchronisation of workspaces over twice leaves it as it was;
/// turning it on brings all outputs to the workspace of the focused one.
pub proof fn law_sync(g: GateView)
    requires
        g.wf(),
        g.outputs.len() > 0,
    ensures
        g.sync_toggled().sync_toggled().config.general.sync_workspaces
            == g.config.general.sync_workspaces,
        g.sync_toggled().workspaces == g.workspaces,
        !g.config.general.sync_workspaces ==> forall|o: int|
            g.sync_toggled().effective_ws(o) == g.effective_ws(g.focused_output as int),
{
    reveal(GateView::sync_toggled);
    let config = g.config.sync_toggled();
    let k = g.outputs[g.focused_output as int].current_ws;
    lemma_settled_frame(GateView { config, current_ws: k, outputs: g.outputs_at(k), ..g });
    lemma_settled_frame(GateView { config, ..g });
    let h = g.sync_toggled();
    let config2 = h.config.sync_toggled();
    let k2 = h.outputs[h.focused_output as int].current_ws;
    lemma_settled_frame(GateView { config: config2, current_ws: k2, outputs: h.outputs_at(k2), ..h });
    lemma_settled_frame(GateView { config: config2, ..h });
}

/// Moving the focus to the next output and back to the previous one returns
/// it to where it was.
pub proof fn law_focus_monitor_back(g: GateView, direction: int)
    requires
        g.wf(),
        g.outputs.len() > 1,
        g.order.no_duplicates(),
        g.order.contains(g.focused_output),
    ensures
        g.monitor_focused(direction).monitor_focused(-direction).focused_output
            == g.focused_output,
{
    reveal(GateView::monitor_focused);
    actions::law_step_back(g.order, g.focused_output, direction);
    let o = actions::stepped(g.order, g.focused_output, direction)->0;
    let a = (GateView { focused_output: o, ..g }).bar_marked();
    lemma_settled_frame(a);
    let h = g.monitor_focused(direction);
    let o2 = actions::stepped(h.order, h.focused_output, -direction)->0;
    lemma_settled_frame((GateView { focused_output: o2, ..h }).bar_marked());
}

/// A window that is sent to another output is in the workspace that this one
/// shows, and no longer where it was; the focus follows it.
pub proof fn law_send_monitor(g: GateView, direction: int)
    requires
        g.wf(),
        g.outputs.len() > 1,
        g.front_ws().focused_window() is Some,
        actions::stepped(g.order, g.focused_output, direction) is Some,
        actions::stepped(g.order, g.focused_output, direction)->0 < g.outputs.len(),
        actions::stepped(g.order, g.focused_output, direction)->0 != g.focused_output,
    ensures
        ({
            let w = g.front_ws().focused_window()->0;
            let o = g.focused_output as int;
            let to = actions::stepped(g.order, g.focused_output, direction)->0;
            let h = g.monitor_sent(direction);
            &&& h.in_ws(to as int, g.effective_ws(to as int), w)
            &&& !h.in_ws(o, g.effective_ws(o), w)
            &&& h.focused_output == to
            &&& h.workspaces[to as int][g.effective_ws(to as int)].focused_window() == Some(w)
        }),
{
    reveal(GateView::monitor_sent);
    let w = g.front_ws().focused_window()->0;
    let o = g.focused_output as int;
    let to = actions::stepped(g.order, g.focused_output, direction)->0;
    let from = g.effective_ws(o);
    let k = g.effective_ws(to as int);
    assert(g.workspaces[o].len() == WORKSPACE_COUNT);
    assert(g.workspaces[to as int].len() == WORKSPACE_COUNT);
    assert(state::ws_ok(g.workspaces[o][from]));
    assert(state::ws_ok(g.workspaces[to as int][k]));
    let m = (GateView { focused_output: to, ..g.moved(w, o, from, to as int, k) }).bar_marked();
    lemma_settled_frame(m);
    let before = g.workspaces[o][from];
    let target = g.workspaces[to as int][k];
    workspace::lemma_removed_wf(before, w);
    workspace::lemma_window_count(target.clients);
    assert(m.workspaces[to as int][k] == target.added(w, false));
    assert(m.workspaces[o][from] == before.removed(w));
    assert(m.workspaces[to as int][k].clients[target.clients.len() as int] == w);
}

/// Asking for fullscreen twice ends it.
pub proof fn law_fullscreen_twice(g: GateView)
    requires
        g.wf(),
        g.outputs.len() > 0,
        g.active_scratchpad() is None,
        g.outputs[g.focused_output as int].fullscreen is None,
    ensures
        g.fullscreen_toggled().fullscreen_toggled().outputs[g.focused_output as int].fullscreen
            is None,
{
    reveal(GateView::fullscreen_toggled);
    let o = g.focused_output as int;
    match g.front_ws().focused_window() {
        None => {},
        Some(w) => {
            let a = g.with_fullscreen(Some(w));
            lemma_settled_frame(a);
            let h = g.fullscreen_toggled();
            assert(h.outputs[o].fullscreen == Some(w));
            lemma_active_same(a, h, 0);
            lemma_active_same(g, a, 0);
            lemma_settled_frame(h.with_fullscreen(None));
        },
    }
}

proof fn lemma_active_same(g: GateView, h: GateView, s: int)
    requires
        h.scratchpads == g.scratchpads,
        h.focused_output == g.focused_output,
        0 <= s,
    ensures
        h.active_from(s) == g.active_from(s),
    decreases g.scratchpads.len() - s,
{
    if s < g.scratchpads.len() {
        lemma_active_same(g, h, s + 1);
    }
}

// ---- Scratchpads ------------------------------------------------------------

pub proof fn lemma_way_cleared(g: GateView, keep: int, n: int)
    requires
        0 <= n <= g.scratchpads.len(),
    ensures
        ({
            let h = g.way_cleared(keep, n);
            &&& h.scratchpads.len() == g.scratchpads.len()
            &&& h.focused_output == g.focused_output
            &&& h.config == g.config
            &&& forall|s: int|
                0 <= s < g.scratchpads.len() ==> #[trigger] h.scratchpads[s] == (if s < n
                    && g.in_the_way(s, keep) {
                    ScratchpadView { visible: false, ..g.scratchpads[s] }
                } else {
                    g.scratchpads[s]
                })
        }),
    decreases n,
{
    if n > 0 {
        lemma_way_cleared(g, keep, n - 1);
    }
}

/// A scratchpad that is toggled into view is visible on the focused output
/// afterwards, and no other scratchpad is visible there.
pub proof fn law_one_scratchpad_per_output(g: GateView, name: Seq<char>)
    requires
        g.wf(),
        g.scratchpads.len() <= usize::MAX,
        g.scratchpad_named(name, 0) is Some,
        !g.scratchpads[g.scratchpad_named(name, 0)->0 as int].visible,
    ensures
        ({
            let s = g.scratchpad_named(name, 0)->0 as int;
            let h = g.pad_toggled(name);
            &&& h.scratchpads[s].visible
            &&& h.scratchpads[s].output_idx == g.focused_output
            &&& h.focused_scratchpad == Some(s as usize)
            &&& forall|t: int|
                0 <= t < h.scratchpads.len() && t != s && (#[trigger] h.scratchpads[t]).visible
                    ==> h.scratchpads[t].output_idx != g.focused_output
            &&& h.active_scratchpad() == Some(s as usize)
        }),
{
    reveal(GateView::pad_toggled);
    lemma_named(g, name, 0);
    let s = g.scratchpad_named(name, 0)->0 as int;
    lemma_way_cleared(g, s, g.scratchpads.len() as int);
    let cleared = g.way_cleared(s, g.scratchpads.len() as int);
    let ready = if g.blocked(s) {
        cleared.pad_borders_cleared()
    } else {
        cleared
    };
    let shown0 = ready.pad_started(s).pad_shown(s);
    lemma_settled_frame(shown0);
    lemma_scratchpad_frame(shown0.laid_out(), s);
    let shown = shown0.laid_out().scratchpad_laid(s);
    let anim = shown.animated_in(
        shown.scratchpads[s].workspace.clients,
        crate::gate::animation::SlideDirection::Auto,
    );
    lemma_settled_frame(anim);
    let h = g.pad_toggled(name);
    assert(h.scratchpads == shown0.scratchpads);
    assert(h.focused_output == g.focused_output);
    assert forall|t: int|
        0 <= t < h.scratchpads.len() && t != s && (
        #[trigger] h.scratchpads[t]).visible implies h.scratchpads[t].output_idx
        != g.focused_output by {
        assert(h.scratchpads[t] == cleared.scratchpads[t]);
    }
    lemma_active_is(h, s, 0);
}

proof fn lemma_named(g: GateView, name: Seq<char>, s: int)
    requires
        0 <= s,
        g.scratchpads.len() <= usize::MAX,
    ensures
        g.scratchpad_named(name, s) matches Some(i) ==> s <= i < g.scratchpads.len(),
    decreases g.scratchpads.len() - s,
{
    if s < g.scratchpads.len() {
        lemma_named(g, name, s + 1);
    }
}

proof fn lemma_active_is(g: GateView, s: int, t: int)
    requires
        0 <= t <= s < g.scratchpads.len(),
        g.scratchpads[s].visible,
        g.scratchpads[s].output_idx == g.focused_output,
        forall|i: int|
            0 <= i < g.scratchpads.len() && i != s && (#[trigger] g.scratchpads[i]).visible
                ==> g.scratchpads[i].output_idx != g.focused_output,
    ensures
        g.active_from(t) == Some(s as usize),
    decreases s - t,
{
    if t < s {
        lemma_active_is(g, s, t + 1);
    }
}

/// A scratchpad that is visible on the focused output hides when it is
/// toggled; where no window fills an output, none of its windows is on the
/// screen afterwards.
pub proof fn law_toggle_hides(g: GateView, name: Seq<char>)
    requires
        g.wf(),
        g.scratchpads.len() <= usize::MAX,
        g.scratchpad_named(name, 0) is Some,
        g.scratchpads[g.scratchpad_named(name, 0)->0 as int].visible,
        g.scratchpads[g.scratchpad_named(name, 0)->0 as int].output_idx == g.focused_output,
    ensures
        ({
            let s = g.scratchpad_named(name, 0)->0 as int;
            let h = g.pad_toggled(name);
            &&& !h.scratchpads[s].visible
            &&& h.focused_scratchpad != Some(s as usize)
            &&& h.scratchpads[s].workspace == g.scratchpads[s].workspace
            &&& nothing_fills(g) ==> forall|w: WindowId|
                g.in_sp(s, w) ==> #[trigger] stage::place_of(h.stage.space, w) is None
        }),
{
    reveal(GateView::pad_toggled);
    lemma_named(g, name, 0);
    let s = g.scratchpad_named(name, 0)->0 as int;
    let a = g.pad_hidden(s);
    let b = a.pad_borders_cleared();
    lemma_settled_frame(b);
    if nothing_fills(g) {
        let v = ScratchpadView { visible: false, ..g.scratchpads[s] };
        assert(state::ws_ok(g.scratchpads[s].workspace));
        state::lemma_with_sp(g, s, v);
        state::lemma_same_places(g.with_sp(s, v), b);
        assert forall|w: WindowId| g.in_sp(s, w) implies #[trigger] stage::place_of(
            g.pad_toggled(name).stage.space,
            w,
        ) is None by {
            lemma_absent(g.stage.space, g.scratchpads[s].workspace.clients, w);
            assert(b.in_sp(s, w));
            lemma_pad_off_screen(b, s, w);
        }
    }
}

/// Whether no output is filled by a window.
pub open spec fn nothing_fills(g: GateView) -> bool {
    forall|i: int| 0 <= i < g.outputs.len() ==> (#[trigger] g.outputs[i]).fullscreen is None
}

proof fn lemma_pad_off_screen(g: GateView, s: int, w: WindowId)
    requires
        g.wf(),
        g.in_sp(s, w),
        nothing_fills(g),
        stage::place_of(g.stage.space, w) is None,
    ensures
        stage::place_of(g.settled().stage.space, w) is None,
{
    reveal(GateView::laid_out);
    reveal(GateView::focus_applied);
    lemma_pad_absent(g, s, w, g.outputs.len() as int);
    let h = g.laid_out();
    match h.focused_window() {
        Some(f) => {
            let quiet = StageView {
                activated: stage::minus(h.stage.activated, h.all_clients()).push(f),
                ..h.stage
            };
            match stage::place_of(quiet.space, f) {
                Some(p) => {
                    stage::lemma_place_from(quiet.space, f, 0);
                    lemma_absent_kept(quiet, p, w);
                },
                None => {},
            }
        },
        None => {},
    }
}

proof fn lemma_pad_absent(g: GateView, s: int, w: WindowId, n: int)
    requires
        g.wf(),
        g.in_sp(s, w),
        nothing_fills(g),
        stage::place_of(g.stage.space, w) is None,
        0 <= n <= g.outputs.len(),
    ensures
        stage::place_of(g.outputs_laid(n).space, w) is None,
    decreases n,
{
    if n <= 0 {
        lemma_absent_unmapped(g.stage, g.hidden_clients(g.workspaces.len() as int), w);
    } else {
        lemma_pad_absent(g, s, w, n - 1);
        let p = n - 1;
        let e = g.effective_ws(p);
        assert(state::output_ok(g.outputs[p]));
        assert(g.workspaces[p].len() == WORKSPACE_COUNT);
        let ws = g.workspaces[p][e];
        assert(state::ws_ok(ws));
        let gs = layout::layout_of(
            ws,
            state::sizes_of(g.windows, ws.clients),
            g.outputs[p].workarea,
            g.config.general.border_px as int,
        );
        lemma_layout_windows(
            ws,
            state::sizes_of(g.windows, ws.clients),
            g.outputs[p].workarea,
            g.config.general.border_px as int,
        );
        assert forall|i: int| 0 <= i < gs.len() implies (#[trigger] gs[i]).window != w by {
            if gs[i].window == w {
                assert(g.in_ws(p, e, w));
                law_one_place(g, w, p, e, p, e, s);
            }
        }
        lemma_absent_laid(g.outputs_laid(n - 1), gs, w);
    }
}

/// A scratchpad that is visible on another output moves to the focused one
/// when it is toggled.
pub proof fn law_toggle_moves(g: GateView, name: Seq<char>)
    requires
        g.wf(),
        g.scratchpads.len() <= usize::MAX,
        g.scratchpad_named(name, 0) is Some,
        g.scratchpads[g.scratchpad_named(name, 0)->0 as int].visible,
        g.scratchpads[g.scratchpad_named(name, 0)->0 as int].output_idx != g.focused_output,
    ensures
        ({
            let s = g.scratchpad_named(name, 0)->0 as int;
            let h = g.pad_toggled(name);
            &&& h.scratchpads[s].visible
            &&& h.scratchpads[s].output_idx == g.focused_output
            &&& h.scratchpads[s].workspace == g.scratchpads[s].workspace
        }),
{
    reveal(GateView::pad_toggled);
    lemma_named(g, name, 0);
    let s = g.scratchpad_named(name, 0)->0 as int;
    let a = g.pad_shown(s);
    lemma_settled_frame(a);
    lemma_scratchpad_frame(a.laid_out(), s);
    lemma_settled_frame(a.laid_out().scratchpad_laid(s));
}

// ---- The focus --------------------------------------------------------------

proof fn lemma_minus(ws: Seq<WindowId>, gone: Seq<WindowId>)
    ensures
        forall|w: WindowId| #[trigger]
            stage::minus(ws, gone).contains(w) ==> ws.contains(w) && !gone.contains(w),
    decreases ws.len(),
{
    if ws.len() > 0 {
        lemma_minus(ws.drop_last(), gone);
        let a = stage::minus(ws.drop_last(), gone);
        let b = stage::minus(ws, gone);
        assert forall|w: WindowId| #[trigger] b.contains(w) implies ws.contains(w)
            && !gone.contains(w) by {
            let i = choose|i: int| 0 <= i < b.len() && b[i] == w;
            if i < a.len() {
                assert(a[i] == w);
                assert(a.contains(w));
                let j = choose|j: int| 0 <= j < ws.drop_last().len() && ws.drop_last()[j] == w;
                assert(ws[j] == w);
            } else {
                assert(ws[ws.len() - 1] == w);
            }
        }
    }
}

proof fn lemma_unmapped_of(ws: Seq<WindowId>, space: Seq<Placed>)
    ensures
        forall|w: WindowId| #[trigger]
            stage::unmapped_of(ws, space).contains(w) ==> ws.contains(w),
    decreases ws.len(),
{
    if ws.len() > 0 {
        lemma_unmapped_of(ws.drop_last(), space);
        let a = stage::unmapped_of(ws.drop_last(), space);
        let b = stage::unmapped_of(ws, space);
        assert forall|w: WindowId| #[trigger] b.contains(w) implies ws.contains(w) by {
            let i = choose|i: int| 0 <= i < b.len() && b[i] == w;
            if i < a.len() {
                assert(a[i] == w);
                assert(a.contains(w));
                let j = choose|j: int| 0 <= j < ws.drop_last().len() && ws.drop_last()[j] == w;
                assert(ws[j] == w);
            } else {
                assert(ws[ws.len() - 1] == w);
            }
        }
    }
}

/// After the focus has been given, no window of any workspace or scratchpad
/// but the focused one is active, and that one is.
pub proof fn law_one_active(g: GateView, w: WindowId)
    requires
        g.all_clients().contains(w),
    ensures
        g.focus_applied().stage.activated.contains(w) <==> g.focused_window() == Some(w),
{
    reveal(GateView::focus_applied);
    lemma_minus(g.stage.activated, g.all_clients());
    let quiet = stage::minus(g.stage.activated, g.all_clients());
    assert(!quiet.contains(w));
    match g.focused_window() {
        Some(f) => {
            let a = quiet.push(f);
            assert(a[a.len() - 1] == f);
            lemma_unmapped_of(a, g.stage.space);
            let u = stage::unmapped_of(a, g.stage.space).push(f);
            assert(u[u.len() - 1] == f);
            assert forall|x: WindowId| a.contains(x) implies x == f || quiet.contains(x) by {
                let i = choose|i: int| 0 <= i < a.len() && a[i] == x;
                if i < quiet.len() {
                    assert(quiet[i] == x);
                }
            }
            assert forall|x: WindowId| u.contains(x) implies x == f || a.contains(x) by {
                let i = choose|i: int| 0 <= i < u.len() && u[i] == x;
                if i < u.len() - 1 {
                    assert(stage::unmapped_of(a, g.stage.space)[i] == x);
                    assert(stage::unmapped_of(a, g.stage.space).contains(x));
                }
            }
        },
        None => {},
    }
}

/// A layer surface that holds the keyboard for itself keeps it; otherwise the
/// key presses go to the focused window.
pub proof fn law_keyboard_follows_focus(g: GateView)
    ensures
        g.exclusive_layer ==> g.focus_applied().keyboard_focus == g.keyboard_focus,
        !g.exclusive_layer ==> g.focus_applied().keyboard_focus == g.focused_window(),
{
    reveal(GateView::focus_applied);
}

// ---- The lock ---------------------------------------------------------------

/// While the session is locked a request to lock it changes nothing.
pub proof fn law_lock_once(g: GateView)
    requires
        g.locked,
    ensures
        g.locking() == g,
{
    reveal(GateView::locking);
}

// ---- The layout -------------------------------------------------------------

/// Whether every border has the window of the same index in it.
pub open spec fn paired(bs: Seq<BorderRect>, base: Seq<Placed>, border_px: int) -> bool {
    &&& bs.len() == base.len()
    &&& forall|i: int|
        0 <= i < bs.len() ==> (#[trigger] bs[i]).rect.x == (base[i].x - border_px) as i32
            && bs[i].rect.y == (base[i].y - border_px) as i32
}

proof fn lemma_laid_pairs(s: StageView, gs: Seq<ClientGeometry>, border_px: int)
    requires
        border_px > 0,
        paired(s.border_rects, s.base, border_px),
        forall|i: int|
            0 <= i < gs.len() ==> (#[trigger] gs[i]).border_rect == layout::border_of(
                gs[i].rect,
                border_px,
            ),
    ensures
        paired(s.laid(gs, false).border_rects, s.laid(gs, false).base, border_px),
    decreases gs.len(),
{
    if gs.len() > 0 {
        let t = gs.drop_last();
        assert forall|i: int| 0 <= i < t.len() implies (#[trigger] t[i]).border_rect
            == layout::border_of(t[i].rect, border_px) by {
            assert(gs[i] == t[i]);
        }
        lemma_laid_pairs(s, t, border_px);
        let a = s.laid(t, false);
        let b = s.laid(gs, false);
        let g = gs.last();
        assert(gs[gs.len() - 1] == g);
        if g.visible {
            assert(b.border_rects == a.border_rects.push(
                BorderRect {
                    rect: geometry::outset(g.rect, border_px),
                    is_focused: g.is_focused,
                },
            ));
            assert(b.base == a.base.push(Placed { window: g.window, x: g.rect.x, y: g.rect.y }));
            assert forall|i: int| 0 <= i < b.border_rects.len() implies (
            #[trigger] b.border_rects[i]).rect.x == (b.base[i].x - border_px) as i32
                && b.border_rects[i].rect.y == (b.base[i].y - border_px) as i32 by {
                if i < a.border_rects.len() {
                    assert(b.border_rects[i] == a.border_rects[i]);
                    assert(b.base[i] == a.base[i]);
                }
            }
        } else {
            assert(b.border_rects == a.border_rects);
            assert(b.base == a.base);
        }
    }
}

/// After a layout with borders, the borders and the places of the windows
/// stand in the same order, one border for every window.
pub proof fn law_borders_match_windows(g: GateView)
    requires
        g.config.general.border_px > 0,
    ensures
        paired(
            g.laid_out().stage.border_rects,
            g.laid_out().stage.base,
            g.config.general.border_px as int,
        ),
{
    reveal(GateView::laid_out);
    lemma_outputs_pair(g, g.outputs.len() as int);
}

proof fn lemma_outputs_pair(g: GateView, n: int)
    requires
        g.config.general.border_px > 0,
    ensures
        paired(
            g.outputs_laid(n).border_rects,
            g.outputs_laid(n).base,
            g.config.general.border_px as int,
        ),
    decreases n,
{
    if n > 0 {
        lemma_outputs_pair(g, n - 1);
        let s = g.outputs_laid(n - 1);
        let o = n - 1;
        let ws = g.workspaces[o][g.effective_ws(o)];
        let b = g.config.general.border_px as int;
        if g.outputs[o].fullscreen is None {
            let gs = layout::layout_of(
                ws,
                state::sizes_of(g.windows, ws.clients),
                g.outputs[o].workarea,
                b,
            );
            lemma_laid_pairs(s, gs, b);
        }
    }
}

proof fn lemma_absent(s: Seq<Placed>, gone: Seq<WindowId>, w: WindowId)
    requires
        gone.contains(w),
    ensures
        stage::place_of(stage::without(s, gone, None), w) is None,
{
    stage::lemma_without(s, gone, None);
    let t = stage::without(s, gone, None);
    stage::lemma_place_from(t, w, 0);
    let i = stage::place_from(t, w, 0);
    if i < t.len() {
        assert(s.contains(t[i]));
    }
}

proof fn lemma_absent_kept(s: StageView, p: Placed, w: WindowId)
    requires
        stage::place_of(s.space, w) is None,
        p.window != w,
    ensures
        stage::place_of(s.mapped(p).space, w) is None,
{
    stage::lemma_place_from(s.space, w, 0);
    stage::lemma_without(s.space, seq![p.window], None);
    let t = s.mapped(p).space;
    stage::lemma_place_from(t, w, 0);
    let i = stage::place_from(t, w, 0);
    if i < t.len() && i < t.len() - 1 {
        let u = stage::without(s.space, seq![p.window], None);
        assert(u[i] == t[i]);
        assert(s.space.contains(u[i]));
        let k = choose|k: int| 0 <= k < s.space.len() && s.space[k] == u[i];
        assert(s.space[k].window == w);
    }
}

proof fn lemma_absent_unmapped(s: StageView, gone: Seq<WindowId>, w: WindowId)
    requires
        stage::place_of(s.space, w) is None,
    ensures
        stage::place_of(s.unmapped(gone, None).space, w) is None,
{
    stage::lemma_place_from(s.space, w, 0);
    stage::lemma_without(s.space, gone, None);
    let t = s.unmapped(gone, None).space;
    stage::lemma_place_from(t, w, 0);
    let i = stage::place_from(t, w, 0);
    if i < t.len() {
        assert(s.space.contains(t[i]));
        let k = choose|k: int| 0 <= k < s.space.len() && s.space[k] == t[i];
        assert(s.space[k].window == w);
    }
}

proof fn lemma_absent_laid(s: StageView, gs: Seq<ClientGeometry>, w: WindowId)
    requires
        stage::place_of(s.space, w) is None,
        forall|i: int| 0 <= i < gs.len() ==> (#[trigger] gs[i]).window != w,
    ensures
        stage::place_of(s.laid(gs, false).space, w) is None,
    decreases gs.len(),
{
    if gs.len() > 0 {
        let t = gs.drop_last();
        assert forall|i: int| 0 <= i < t.len() implies (#[trigger] t[i]).window != w by {
            assert(gs[i] == t[i]);
        }
        lemma_absent_laid(s, t, w);
        let a = s.laid(t, false);
        let g = gs.last();
        assert(gs[gs.len() - 1] == g);
        if g.visible {
            lemma_absent_kept(a, Placed { window: g.window, x: g.rect.x, y: g.rect.y }, w);
        } else {
            lemma_absent_unmapped(a, seq![g.window], w);
        }
    }
}

proof fn lemma_layout_windows(ws: WorkspaceView, asked: Seq<Size>, area: Rect, border_px: int)
    requires
        ws.wf(),
    ensures
        forall|i: int|
            0 <= i < layout::layout_of(ws, asked, area, border_px).len() ==> ws.clients.contains(
                (#[trigger] layout::layout_of(ws, asked, area, border_px)[i]).window,
            ),
{
    let gs = layout::layout_of(ws, asked, area, border_px);
    let n = ws.floating.len() as int;
    workspace::lemma_picked(ws.floating, false, n);
    workspace::lemma_picked(ws.floating, true, n);
    let t = layout::tiled_of(ws);
    let f = layout::floating_of(ws);
    assert forall|i: int| 0 <= i < gs.len() implies ws.clients.contains(
        (#[trigger] gs[i]).window,
    ) by {
        if i < t.len() {
            assert(gs[i] == layout::tiled_geometry(ws, area, border_px, t, i));
            assert(gs[i].window == ws.clients[t[i]]);
        } else {
            assert(gs[i] == layout::float_geometry(ws, asked, area, border_px, f[i - t.len()]));
            assert(gs[i].window == ws.clients[f[i - t.len()]]);
        }
    }
}

proof fn lemma_pool_clients(pool: Seq<WorkspaceView>, skip: Option<int>, n: int, k: int, w: WindowId)
    requires
        0 <= k < n,
        skip != Some(k),
        pool[k].clients.contains(w),
    ensures
        state::pool_clients(pool, skip, n).contains(w),
    decreases n,
{
    let c = state::pool_clients(pool, skip, n - 1);
    if k == n - 1 {
        let i = choose|i: int| 0 <= i < pool[k].clients.len() && pool[k].clients[i] == w;
        assert((c + pool[k].clients)[c.len() + i] == w);
    } else {
        lemma_pool_clients(pool, skip, n - 1, k, w);
        let i = choose|i: int| 0 <= i < c.len() && c[i] == w;
        if skip != Some(n - 1) {
            assert((c + pool[n - 1].clients)[i] == w);
        }
    }
}

proof fn lemma_hidden_clients(g: GateView, n: int, o: int, k: int, w: WindowId)
    requires
        0 <= o < n <= g.workspaces.len(),
        0 <= k < g.workspaces[o].len(),
        k != g.effective_ws(o),
        g.workspaces[o][k].clients.contains(w),
    ensures
        g.hidden_clients(n).contains(w),
    decreases n,
{
    let c = g.hidden_clients(n - 1);
    let d = state::pool_clients(
        g.workspaces[n - 1],
        Some(g.effective_ws(n - 1)),
        g.workspaces[n - 1].len() as int,
    );
    if o == n - 1 {
        lemma_pool_clients(
            g.workspaces[o],
            Some(g.effective_ws(o)),
            g.workspaces[o].len() as int,
            k,
            w,
        );
        let i = choose|i: int| 0 <= i < d.len() && d[i] == w;
        assert((c + d)[c.len() + i] == w);
    } else {
        lemma_hidden_clients(g, n - 1, o, k, w);
        let i = choose|i: int| 0 <= i < c.len() && c[i] == w;
        assert((c + d)[i] == w);
    }
}

/// After a layout no window of a workspace that its output does not show is
/// on the screen, where no window fills an output.
pub proof fn law_hidden_windows_off_screen(g: GateView, o: int, k: int, w: WindowId)
    requires
        g.wf(),
        g.in_ws(o, k, w),
        k != g.effective_ws(o),
        forall|i: int| 0 <= i < g.outputs.len() ==> (#[trigger] g.outputs[i]).fullscreen is None,
    ensures
        stage::place_of(g.laid_out().stage.space, w) is None,
{
    reveal(GateView::laid_out);
    lemma_off_screen(g, o, k, w, g.outputs.len() as int);
}

proof fn lemma_off_screen(g: GateView, o: int, k: int, w: WindowId, n: int)
    requires
        g.wf(),
        g.in_ws(o, k, w),
        k != g.effective_ws(o),
        0 <= n <= g.outputs.len(),
        forall|i: int| 0 <= i < g.outputs.len() ==> (#[trigger] g.outputs[i]).fullscreen is None,
    ensures
        stage::place_of(g.outputs_laid(n).space, w) is None,
    decreases n,
{
    if n <= 0 {
        lemma_hidden_clients(g, g.workspaces.len() as int, o, k, w);
        lemma_absent(g.stage.space, g.hidden_clients(g.workspaces.len() as int), w);
    } else {
        lemma_off_screen(g, o, k, w, n - 1);
        let p = n - 1;
        let e = g.effective_ws(p);
        assert(state::output_ok(g.outputs[p]));
        assert(g.workspaces[p].len() == WORKSPACE_COUNT);
        let ws = g.workspaces[p][e];
        assert(state::ws_ok(ws));
        let gs = layout::layout_of(
            ws,
            state::sizes_of(g.windows, ws.clients),
            g.outputs[p].workarea,
            g.config.general.border_px as int,
        );
        lemma_layout_windows(
            ws,
            state::sizes_of(g.windows, ws.clients),
            g.outputs[p].workarea,
            g.config.general.border_px as int,
        );
        assert forall|i: int| 0 <= i < gs.len() implies (#[trigger] gs[i]).window != w by {
            if gs[i].window == w {
                assert(g.in_ws(p, e, w));
                law_one_place(g, w, o, k, p, e, 0);
            }
        }
        lemma_absent_laid(g.outputs_laid(n - 1), gs, w);
    }
}

} // verus!
