//! Where new windows go, and what remains when a window has gone.

use vstd::prelude::*;

use crate::gate::config;
use crate::gate::config::{Rule, ScratchpadConfig};
use crate::gate::keys;
use crate::gate::laws;
use crate::gate::state;
use crate::gate::state::{GateView, OutputView, ScratchpadView};
use crate::gate::windows;
use crate::gate::workspace;
use crate::gate::workspace::{WindowId, WorkspaceView, WORKSPACE_COUNT};
use crate::text;

verus! {

// ---- Rules ------------------------------------------------------------------

/// A rule that lets the windows of an application float is heeded wherever it
/// stands; without one they do not float.
pub proof fn law_float_rules(rules: Seq<Rule>, app: Seq<char>)
    ensures
        config::ruling(rules, app).0 <==> exists|i: int|
            0 <= i < rules.len() && (#[trigger] rules[i] matches Rule::Float { app_id } && app_id@
                == app),
{
    if config::ruling(rules, app).0 {
        let i = choose|i: int| 0 <= i < rules.len() && #[trigger] config::floats(rules[i], app);
        assert(rules[i] is Float);
    }
    if exists|i: int|
        0 <= i < rules.len() && (#[trigger] rules[i] matches Rule::Float { app_id } && app_id@
            == app) {
        let i = choose|i: int|
            0 <= i < rules.len() && (#[trigger] rules[i] matches Rule::Float { app_id } && app_id@
                == app);
        assert(config::floats(rules[i], app));
    }
}

/// Of the rules that send an application to a workspace the last one counts.
pub proof fn law_last_workspace_rule(rules: Seq<Rule>, app: Seq<char>, r: int)
    requires
        0 <= r < rules.len(),
        rules[r] matches Rule::Workspace { workspace, app_id } && app_id@ == app,
        forall|i: int|
            r < i < rules.len() ==> !(#[trigger] rules[i] matches Rule::Workspace { workspace, app_id }
                && app_id@ == app),
    ensures
        config::ruling(rules, app).1 == Some(rules[r]->workspace),
{
    lemma_ruled(rules, app, r, rules.len() as int);
}

proof fn lemma_ruled(rules: Seq<Rule>, app: Seq<char>, r: int, n: int)
    requires
        0 <= r < n <= rules.len(),
        rules[r] matches Rule::Workspace { workspace, app_id } && app_id@ == app,
        forall|i: int|
            r < i < rules.len() ==> !(#[trigger] rules[i] matches Rule::Workspace { workspace, app_id }
                && app_id@ == app),
    ensures
        config::ruled_workspace(rules, app, n) == Some(rules[r]->workspace),
    decreases n,
{
    if r < n - 1 {
        assert(!(rules[n - 1] matches Rule::Workspace { workspace, app_id } && app_id@ == app));
        lemma_ruled(rules, app, r, n - 1);
    }
}

/// Without a rule for it an application is sent to no workspace.
pub proof fn law_no_workspace_rule(rules: Seq<Rule>, app: Seq<char>)
    requires
        forall|i: int|
            0 <= i < rules.len() ==> !(#[trigger] rules[i] matches Rule::Workspace { workspace, app_id }
                && app_id@ == app),
    ensures
        config::ruling(rules, app).1 is None,
{
    lemma_unruled(rules, app, rules.len() as int);
}

proof fn lemma_unruled(rules: Seq<Rule>, app: Seq<char>, n: int)
    requires
        n <= rules.len(),
        forall|i: int|
            0 <= i < rules.len() ==> !(#[trigger] rules[i] matches Rule::Workspace { workspace, app_id }
                && app_id@ == app),
    ensures
        config::ruled_workspace(rules, app, n) is None,
    decreases n,
{
    if n > 0 {
        assert(!(rules[n - 1] matches Rule::Workspace { workspace, app_id } && app_id@ == app));
        lemma_unruled(rules, app, n - 1);
    }
}

// ---- Where a new window goes ------------------------------------------------

/// Whether a scratchpad takes the windows of an application.
pub open spec fn takes(c: ScratchpadConfig, app: Seq<char>) -> bool {
    exists|i: int| 0 <= i < c.captures@.len() && (#[trigger] c.captures@[i])@ == app
}

/// Whether `s` is the first scratchpad that takes the windows of the
/// application; `None` where none does.
pub open spec fn taker(g: GateView, app: Seq<char>, s: Option<int>) -> bool {
    match s {
        Some(s) => {
            &&& app.len() > 0
            &&& 0 <= s < g.config.scratchpads@.len() <= usize::MAX
            &&& takes(g.config.scratchpads@[s], app)
            &&& forall|t: int| 0 <= t < s ==> !takes(#[trigger] g.config.scratchpads@[t], app)
        },
        None => app.len() == 0 || forall|t: int|
            0 <= t < g.config.scratchpads@.len() ==> !takes(
                #[trigger] g.config.scratchpads@[t],
                app,
            ),
    }
}

/// Whether `s` is the first scratchpad that waits for a window; `None` where
/// none does.
pub open spec fn waiter(g: GateView, s: Option<int>) -> bool {
    match s {
        Some(s) => {
            &&& 0 <= s < g.scratchpads.len() <= usize::MAX
            &&& g.scratchpads[s].pending_capture || g.scratchpads[s].autostart_remaining.len() > 0
            &&& forall|t: int|
                0 <= t < s ==> !(#[trigger] g.scratchpads[t]).pending_capture
                    && g.scratchpads[t].autostart_remaining.len() == 0
        },
        None => forall|t: int|
            0 <= t < g.scratchpads.len() ==> !(#[trigger] g.scratchpads[t]).pending_capture
                && g.scratchpads[t].autostart_remaining.len() == 0,
    }
}

/// Whether `r` is the first route for the application; `None` where there is
/// none.
pub open spec fn route_for(g: GateView, app: Seq<char>, r: Option<int>) -> bool {
    match r {
        Some(r) => {
            &&& app.len() > 0
            &&& 0 <= r < g.routes.len()
            &&& g.routes[r].app_id == app
            &&& forall|t: int| 0 <= t < r ==> (#[trigger] g.routes[t]).app_id != app
        },
        None => app.len() == 0 || forall|t: int|
            0 <= t < g.routes.len() ==> (#[trigger] g.routes[t]).app_id != app,
    }
}

proof fn lemma_taker(g: GateView, app: Seq<char>, s: Option<int>, i: int)
    requires
        taker(g, app, s),
        app.len() > 0,
        0 <= i <= g.config.scratchpads@.len(),
        s matches Some(s) ==> i <= s,
    ensures
        config::capture_from(g.config.scratchpads@, app, i) == (match s {
            Some(s) => Some(s as usize),
            None => None,
        }),
    decreases g.config.scratchpads@.len() - i,
{
    if i < g.config.scratchpads@.len() {
        let c = g.config.scratchpads@[i];
        let v = text::views(c.captures@);
        assert(v.len() == c.captures@.len());
        assert(takes(c, app) <==> v.contains(app)) by {
            if takes(c, app) {
                let k = choose|k: int| 0 <= k < c.captures@.len() && (#[trigger] c.captures@[k])@
                    == app;
                assert(v[k] == app);
            }
            if v.contains(app) {
                let k = choose|k: int| 0 <= k < v.len() && v[k] == app;
                assert(c.captures@[k]@ == app);
            }
        }
        if s != Some(i) {
            lemma_taker(g, app, s, i + 1);
        }
    }
}

proof fn lemma_captured(g: GateView, app: Seq<char>, s: Option<int>)
    requires
        taker(g, app, s),
    ensures
        g.captured(app) == (match s {
            Some(s) => Some(s as usize),
            None => None,
        }),
{
    if app.len() > 0 {
        lemma_taker(g, app, s, 0);
    }
}

proof fn lemma_waiter(g: GateView, s: Option<int>, i: int)
    requires
        waiter(g, s),
        0 <= i <= g.scratchpads.len(),
        s matches Some(s) ==> i <= s,
    ensures
        windows::waiting_from(g.scratchpads, i) == (match s {
            Some(s) => Some(s as usize),
            None => None,
        }),
    decreases g.scratchpads.len() - i,
{
    if i < g.scratchpads.len() && s != Some(i) {
        lemma_waiter(g, s, i + 1);
    }
}

proof fn lemma_route(g: GateView, app: Seq<char>, r: Option<int>, i: int)
    requires
        route_for(g, app, r),
        app.len() > 0,
        0 <= i <= g.routes.len(),
        r matches Some(r) ==> i <= r,
    ensures
        windows::route_from(g.routes, app, i) == (match r {
            Some(r) => r,
            None => g.routes.len() as int,
        }),
    decreases g.routes.len() - i,
{
    if i < g.routes.len() && r != Some(i) {
        lemma_route(g, app, r, i + 1);
    }
}

/// Whether a workspace has got one more window, last in its list and with the
/// focus.
pub open spec fn has_got(v: WorkspaceView, u: WorkspaceView, w: WindowId, floats: bool) -> bool {
    &&& u.clients == v.clients.push(w)
    &&& u.floating == v.floating.push(floats)
    &&& u.focused_window() == Some(w)
    &&& (u.id, u.layout, u.mfact, u.nmaster, u.gap_px) == (
        v.id,
        v.layout,
        v.mfact,
        v.nmaster,
        v.gap_px,
    )
}

proof fn lemma_got(v: WorkspaceView, w: WindowId, floats: bool)
    requires
        v.wf(),
    ensures
        has_got(v, v.added(w, floats), w, floats),
{
    workspace::lemma_window_count(v.clients);
    assert(v.added(w, floats).clients[v.clients.len() as int] == w);
}

/// The window of a program that only wants to reach the clipboard gets the key
/// presses and a size of one pixel, but no place in a workspace or scratchpad.
pub proof fn law_helper_gets_no_place(g: GateView, w: WindowId, app: Seq<char>)
    requires
        app == "io.github.bugaevc.wl-clipboard"@,
    ensures
        ({
            let h = g.newly_mapped(w, app);
            &&& h.helpers == g.helpers.push(w)
            &&& h.keyboard_focus == Some(w)
            &&& h.workspaces == g.workspaces
            &&& h.scratchpads == g.scratchpads
            &&& h.stage.space == g.stage.space
            &&& h.stage.configures.len() == g.stage.configures.len() + 1
            &&& h.stage.configures.last().window == w
            &&& h.stage.configures.last().size matches Some(z) && z.w == 1 && z.h == 1
            &&& !h.stage.configures.last().tiled
        }),
{
    reveal(GateView::newly_mapped);
}

/// What happens to the commands of a scratchpad when a window has come to it:
/// the one that was running is done, and the next one runs.
pub open spec fn queue_moved(g: GateView, h: GateView, s: int) -> bool {
    let q = g.scratchpads[s].autostart_remaining;
    &&& h.scratchpads[s].autostart_remaining == (if q.len() > 0 {
        q.skip(1)
    } else {
        q
    })
    &&& h.spawns == (if q.len() > 1 && q[1].len() > 0 {
        g.spawns.push(q[1])
    } else {
        g.spawns
    })
}

/// Whether a window has come to scratchpad `s` and to no other place.
pub open spec fn came_to_pad(g: GateView, h: GateView, s: int, w: WindowId) -> bool {
    &&& h.scratchpads.len() == g.scratchpads.len()
    &&& has_got(g.scratchpads[s].workspace, h.scratchpads[s].workspace, w, false)
    &&& h.scratchpads[s].visible == g.scratchpads[s].visible
    &&& h.scratchpads[s].output_idx == g.scratchpads[s].output_idx
    &&& forall|t: int|
        0 <= t < g.scratchpads.len() && t != s ==> #[trigger] h.scratchpads[t] == g.scratchpads[t]
    &&& h.workspaces == g.workspaces
    &&& h.outputs == g.outputs
    &&& h.routes == g.routes
    &&& h.focused_output == g.focused_output
}

/// A new window goes to the first scratchpad whose settings take the windows of
/// its application.
pub proof fn law_new_window_is_taken(g: GateView, w: WindowId, app: Seq<char>, s: int)
    requires
        g.wf(),
        app != "io.github.bugaevc.wl-clipboard"@,
        taker(g, app, Some(s)),
        s < g.scratchpads.len(),
    ensures
        came_to_pad(g, g.newly_mapped(w, app), s, w),
        queue_moved(g, g.newly_mapped(w, app), s),
{
    reveal(GateView::newly_mapped);
    lemma_captured(g, app, Some(s));
    assert(state::ws_ok(g.scratchpads[s].workspace));
    lemma_got(g.scratchpads[s].workspace, w, false);
    let a = g.pad_joined(s, w);
    let b = a.pad_advanced(s);
    laws::lemma_scratchpad_frame(b, s);
    let q = g.scratchpads[s].autostart_remaining;
    if q.len() > 1 {
        assert(q.skip(1)[0] == q[1]);
    }
}

/// A new window that no scratchpad takes goes to the first one that waits for
/// a window, which then waits no more.
pub proof fn law_new_window_is_awaited(g: GateView, w: WindowId, app: Seq<char>, s: int)
    requires
        g.wf(),
        app != "io.github.bugaevc.wl-clipboard"@,
        taker(g, app, None),
        waiter(g, Some(s)),
    ensures
        came_to_pad(g, g.newly_mapped(w, app), s, w),
        queue_moved(g, g.newly_mapped(w, app), s),
        !g.newly_mapped(w, app).scratchpads[s].pending_capture,
{
    reveal(GateView::newly_mapped);
    lemma_captured(g, app, None);
    lemma_waiter(g, Some(s), 0);
    assert(state::ws_ok(g.scratchpads[s].workspace));
    lemma_got(g.scratchpads[s].workspace, w, false);
    let a = g.pad_joined(s, w);
    let b = a.with_sp(s, ScratchpadView { pending_capture: false, ..a.scratchpads[s] });
    let c = b.pad_advanced(s);
    laws::lemma_scratchpad_frame(c, s);
    laws::lemma_settled_frame(c.scratchpad_laid(s));
    let q = g.scratchpads[s].autostart_remaining;
    if q.len() > 1 {
        assert(q.skip(1)[0] == q[1]);
    }
}

/// A new window that no scratchpad takes or waits for goes to the one that
/// covers the focused output, and gets the key presses.
pub proof fn law_new_window_is_covered(g: GateView, w: WindowId, app: Seq<char>, s: int)
    requires
        g.wf(),
        g.outputs.len() > 0,
        app != "io.github.bugaevc.wl-clipboard"@,
        taker(g, app, None),
        waiter(g, None),
        keys::covering(g, Some(s)),
    ensures
        came_to_pad(g, g.newly_mapped(w, app), s, w),
        g.newly_mapped(w, app).spawns == g.spawns,
        !g.exclusive_layer ==> g.newly_mapped(w, app).keyboard_focus == Some(w),
{
    reveal(GateView::newly_mapped);
    lemma_captured(g, app, None);
    lemma_waiter(g, None, 0);
    keys::lemma_cover(g, Some(s));
    assert(state::ws_ok(g.scratchpads[s].workspace));
    lemma_got(g.scratchpads[s].workspace, w, false);
    let a = g.pad_joined(s, w);
    laws::lemma_scratchpad_frame(a, s);
    let b = a.scratchpad_laid(s);
    laws::lemma_settled_frame(b);
    assert(keys::covering(b, Some(s))) by {
        assert forall|t: int| 0 <= t < s implies !((#[trigger] b.scratchpads[t]).visible
            && b.scratchpads[t].output_idx == b.focused_output) by {
            assert(b.scratchpads[t] == g.scratchpads[t]);
        }
    }
    keys::lemma_cover(b, Some(s));
    laws::law_keyboard_follows_focus(b);
}

/// Whether a window has come to workspace `k` of output `o` and to no other
/// place.
pub open spec fn came_to_workspace(
    g: GateView,
    h: GateView,
    o: int,
    k: int,
    w: WindowId,
    floats: bool,
) -> bool {
    &&& h.workspaces.len() == g.workspaces.len()
    &&& has_got(g.workspaces[o][k], h.workspaces[o][k], w, floats)
    &&& forall|a: int, b: int|
        0 <= a < g.workspaces.len() && 0 <= b < WORKSPACE_COUNT && !(a == o && b == k)
            ==> #[trigger] h.workspaces[a][b] == g.workspaces[a][b]
    &&& h.scratchpads == g.scratchpads
    &&& h.outputs == g.outputs
    &&& h.focused_output == g.focused_output
    &&& h.current_ws == g.current_ws
    &&& h.spawns == g.spawns
}

/// A new window for which there is a route, and no scratchpad, goes where the
/// route leads, tiled; the route is used up.
pub proof fn law_new_window_is_routed(g: GateView, w: WindowId, app: Seq<char>, r: int)
    requires
        g.wf(),
        app != "io.github.bugaevc.wl-clipboard"@,
        taker(g, app, None),
        waiter(g, None),
        keys::covering(g, None),
        route_for(g, app, Some(r)),
        g.routes[r].output < g.workspaces.len(),
        g.routes[r].workspace < WORKSPACE_COUNT,
    ensures
        came_to_workspace(
            g,
            g.newly_mapped(w, app),
            g.routes[r].output as int,
            g.routes[r].workspace as int,
            w,
            false,
        ),
        g.newly_mapped(w, app).routes == g.routes.remove(r),
{
    reveal(GateView::newly_mapped);
    lemma_captured(g, app, None);
    lemma_waiter(g, None, 0);
    lemma_route(g, app, Some(r), 0);
    keys::lemma_cover(g, None);
    let o = g.routes[r].output as int;
    let k = g.routes[r].workspace as int;
    assert(g.workspaces[o].len() == WORKSPACE_COUNT);
    assert(state::ws_ok(g.workspaces[o][k]));
    lemma_got(g.workspaces[o][k], w, false);
    let a = g.route_taken(r);
    let b = a.with_ws(o, k, a.workspaces[o][k].added(w, false));
    laws::lemma_settled_frame(b);
    assert(b.workspaces[o][k] == g.workspaces[o][k].added(w, false));
}

/// Any other new window goes to the workspace of the focused output that the
/// rules name, or else to the one in view; it floats where a rule says so.
pub proof fn law_new_window_is_ruled(g: GateView, w: WindowId, app: Seq<char>, k: int)
    requires
        g.wf(),
        g.outputs.len() > 0,
        app.len() > 0,
        app != "io.github.bugaevc.wl-clipboard"@,
        taker(g, app, None),
        waiter(g, None),
        keys::covering(g, None),
        route_for(g, app, None),
        k == (match config::ruling(g.config.rules@, app).1 {
            Some(k) => k as int,
            None => keys::shown(g, g.focused_output as int),
        }),
        k < WORKSPACE_COUNT,
    ensures
        came_to_workspace(
            g,
            g.newly_mapped(w, app),
            g.focused_output as int,
            k,
            w,
            config::ruling(g.config.rules@, app).0,
        ),
        g.newly_mapped(w, app).routes == g.routes,
{
    reveal(GateView::newly_mapped);
    lemma_captured(g, app, None);
    lemma_waiter(g, None, 0);
    lemma_route(g, app, None, 0);
    keys::lemma_cover(g, None);
    let o = g.focused_output as int;
    assert(g.workspaces[o].len() == WORKSPACE_COUNT);
    assert(state::output_ok(g.outputs[o]));
    assert(state::ws_ok(g.workspaces[o][k]));
    let floats = config::ruling(g.config.rules@, app).0;
    lemma_got(g.workspaces[o][k], w, floats);
    let b = g.with_ws(o, k, g.workspaces[o][k].added(w, floats));
    laws::lemma_settled_frame(b);
    assert(b.workspaces[o][k] == g.workspaces[o][k].added(w, floats));
}

/// A window that has shown nothing yet is told that it will be tiled, and no
/// size; it waits outside.
pub proof fn law_new_toplevel_waits(g: GateView, w: WindowId)
    ensures
        ({
            let h = g.toplevel_added(w);
            &&& h.unmapped == g.unmapped.push(w)
            &&& h.workspaces == g.workspaces
            &&& h.scratchpads == g.scratchpads
            &&& h.stage.space == g.stage.space
            &&& h.stage.configures.len() == g.stage.configures.len() + 1
            &&& h.stage.configures.last().window == w
            &&& h.stage.configures.last().size is None
            &&& h.stage.configures.last().tiled
        }),
{
}

// ---- What remains of a window that has gone ---------------------------------

/// A window that is destroyed before it has shown anything only stops waiting.
pub proof fn law_waiting_window_goes(g: GateView, w: WindowId, i: int)
    requires
        g.wf(),
        0 <= i < g.unmapped.len(),
        g.unmapped[i] == w,
        forall|j: int| 0 <= j < i ==> #[trigger] g.unmapped[j] != w,
    ensures
        g.destroyed(w) == (GateView { unmapped: g.unmapped.remove(i), ..g }),
{
    reveal(GateView::destroyed);
    workspace::lemma_first_from(g.unmapped, w, 0);
    let k = workspace::first_index(g.unmapped, w);
    assert(k == i);
}

/// When the window of a clipboard program goes, the key presses go back to the
/// focused window, and nothing else changes.
pub proof fn law_helper_goes(g: GateView, w: WindowId, i: int)
    requires
        g.wf(),
        !g.unmapped.contains(w),
        0 <= i < g.helpers.len(),
        g.helpers[i] == w,
        forall|j: int| 0 <= j < i ==> #[trigger] g.helpers[j] != w,
    ensures
        ({
            let h = g.destroyed(w);
            &&& h == (GateView {
                helpers: g.helpers.remove(i),
                stage: h.stage,
                keyboard_focus: h.keyboard_focus,
                ..g
            })
            &&& !g.exclusive_layer ==> h.keyboard_focus == (GateView {
                helpers: g.helpers.remove(i),
                ..g
            }).focused_window()
        }),
{
    reveal(GateView::destroyed);
    workspace::lemma_first_from(g.unmapped, w, 0);
    workspace::lemma_first_from(g.helpers, w, 0);
    assert(workspace::first_index(g.helpers, w) == i);
    let a = GateView { helpers: g.helpers.remove(i), ..g };
    laws::lemma_settled_frame(a);
    laws::law_keyboard_follows_focus(a);
}

/// A window that is destroyed leaves its workspace or scratchpad as one that is
/// taken out of it, fills no output any more and moves no more. Every other
/// workspace and scratchpad keeps its windows.
pub proof fn law_destroyed_window_goes(g: GateView, w: WindowId, o: int, k: int)
    requires
        g.wf(),
        g.in_ws(o, k, w),
    ensures
        ({
            let h = g.destroyed(w);
            &&& h.workspaces.len() == g.workspaces.len()
            &&& h.workspaces[o][k] == g.workspaces[o][k].removed(w)
            &&& forall|a: int, b: int|
                0 <= a < g.workspaces.len() && 0 <= b < WORKSPACE_COUNT && !(a == o && b == k)
                    ==> #[trigger] h.workspaces[a][b] == g.workspaces[a][b]
            &&& h.scratchpads =~= g.scratchpads
            &&& h.outputs.len() == g.outputs.len()
            &&& forall|p: int|
                0 <= p < g.outputs.len() ==> (#[trigger] h.outputs[p]) == (OutputView {
                    fullscreen: if g.outputs[p].fullscreen == Some(w) {
                        None
                    } else {
                        g.outputs[p].fullscreen
                    },
                    ..g.outputs[p]
                })
            &&& forall|i: int|
                0 <= i < h.animations.len() ==> (#[trigger] h.animations[i]).window != w
            &&& h.focused_output == g.focused_output
            &&& h.current_ws == g.current_ws
            &&& h.pending_sends == g.pending_sends
        }),
{
    reveal(GateView::destroyed);
    laws::law_one_place(g, w, o, k, o, k, 0);
    workspace::lemma_first_from(g.unmapped, w, 0);
    workspace::lemma_first_from(g.helpers, w, 0);
    if workspace::first_index(g.unmapped, w) < g.unmapped.len() {
        assert(g.unmapped.contains(w));
        assert(g.outside(w));
    }
    if workspace::first_index(g.helpers, w) < g.helpers.len() {
        assert(g.helpers.contains(w));
        assert(g.outside(w));
    }
    assert(g.knows(w));
    let f = g.forgotten(w);
    laws::lemma_settled_frame(f);
    laws::lemma_settled_frame(f.laid_out());
    assert forall|s: int| 0 <= s < g.scratchpads.len() implies
        #[trigger] g.scratchpads[s].workspace.removed(w) == g.scratchpads[s].workspace by {
        laws::law_one_place(g, w, o, k, o, k, s);
        assert(!g.in_sp(s, w));
        workspace::law_nothing_to_remove(g.scratchpads[s].workspace, w);
    }
    assert(f.scratchpads =~= g.scratchpads);
    assert forall|a: int, b: int|
        0 <= a < g.workspaces.len() && 0 <= b < WORKSPACE_COUNT && !(a == o && b
            == k) implies #[trigger] f.workspaces[a][b] == g.workspaces[a][b] by {
        assert(g.workspaces[a].len() == WORKSPACE_COUNT);
        laws::law_one_place(g, w, o, k, a, b, 0);
        assert(!g.in_ws(a, b, w));
        workspace::law_nothing_to_remove(g.workspaces[a][b], w);
    }
    assert(g.workspaces[o].len() == WORKSPACE_COUNT);
    assert(f.workspaces[o][k] == g.workspaces[o][k].removed(w));
    lemma_no_pad_focuses(g, w, o, k, 0);
    crate::gate::animation::law_cancel(g.animations, w);
}

proof fn lemma_no_pad_focuses(g: GateView, w: WindowId, o: int, k: int, s: int)
    requires
        g.wf(),
        g.in_ws(o, k, w),
        0 <= s,
    ensures
        g.pad_focusing(w, s) is None,
    decreases g.scratchpads.len() - s,
{
    if s < g.scratchpads.len() {
        laws::law_one_place(g, w, o, k, o, k, s);
        assert(!g.in_sp(s, w));
        let v = g.scratchpads[s].workspace;
        assert(state::ws_ok(v));
        if v.focused_window() == Some(w) {
            assert(v.clients[v.focused->0 as int] == w);
            assert(v.clients.contains(w));
        }
        lemma_no_pad_focuses(g, w, o, k, s + 1);
    }
}

/// A scratchpad whose last window goes hides, and will start its commands again
/// when it is next shown; one that keeps a window stays as it is.
pub proof fn law_empty_scratchpad_hides(g: GateView, w: WindowId, s: int)
    requires
        g.wf(),
        !g.outside(w),
        0 <= s < g.scratchpads.len() <= usize::MAX,
        g.scratchpads[s].workspace.focused_window() == Some(w),
        forall|t: int|
            0 <= t < s ==> (#[trigger] g.scratchpads[t]).workspace.focused_window() != Some(w),
    ensures
        ({
            let h = g.destroyed(w);
            let alone = g.scratchpads[s].workspace.clients.len() == 1;
            &&& h.scratchpads[s].workspace == g.scratchpads[s].workspace.removed(w)
            &&& alone ==> !h.scratchpads[s].visible && !h.scratchpads[s].started
                && h.focused_scratchpad != Some(s as usize)
            &&& !alone ==> h.scratchpads[s].visible == g.scratchpads[s].visible
                && h.scratchpads[s].started == g.scratchpads[s].started && h.focused_scratchpad
                == g.focused_scratchpad
        }),
{
    reveal(GateView::destroyed);
    let v = g.scratchpads[s].workspace;
    assert(state::ws_ok(v));
    assert(v.clients[v.focused->0 as int] == w);
    assert(g.in_sp(s, w));
    workspace::lemma_first_from(g.unmapped, w, 0);
    workspace::lemma_first_from(g.helpers, w, 0);
    if workspace::first_index(g.unmapped, w) < g.unmapped.len() {
        assert(g.unmapped.contains(w));
    }
    if workspace::first_index(g.helpers, w) < g.helpers.len() {
        assert(g.helpers.contains(w));
    }
    assert(g.knows(w));
    workspace::law_removal_keeps_the_rest(v, w, v.focused->0 as int);
    lemma_pad_focusing(g, w, s, 0);
    let f = g.forgotten(w);
    laws::lemma_settled_frame(f);
    let l = f.laid_out();
    let c = l.pad_closed(s).pad_borders_cleared();
    laws::lemma_settled_frame(c);
    laws::lemma_scratchpad_frame(l, s);
    laws::lemma_settled_frame(l.pad_left(s));
    assert(f.scratchpads[s].workspace == v.removed(w));
}

proof fn lemma_pad_focusing(g: GateView, w: WindowId, s: int, t: int)
    requires
        0 <= t <= s < g.scratchpads.len() <= usize::MAX,
        g.scratchpads[s].workspace.focused_window() == Some(w),
        forall|t: int|
            0 <= t < s ==> (#[trigger] g.scratchpads[t]).workspace.focused_window() != Some(w),
    ensures
        g.pad_focusing(w, t) == Some(s as usize),
    decreases s - t,
{
    if t < s {
        lemma_pad_focusing(g, w, s, t + 1);
    }
}

// ---- Windows that ask for the focus -----------------------------------------

proof fn lemma_home(g: GateView, w: WindowId, o: int, k: int, a: int, b: int)
    requires
        g.wf(),
        g.in_ws(o, k, w),
        0 <= a <= o,
        0 <= b <= WORKSPACE_COUNT,
        a == o ==> b <= k,
    ensures
        g.home_from(w, a, b) == Some((o, k)),
    decreases o - a, WORKSPACE_COUNT - b,
{
    assert(g.workspaces[o].len() == WORKSPACE_COUNT);
    assert(g.workspaces[a].len() == WORKSPACE_COUNT);
    if b >= WORKSPACE_COUNT {
        lemma_home(g, w, o, k, a + 1, 0);
    } else if g.workspaces[a][b].clients.contains(w) {
        assert(g.in_ws(a, b, w));
        laws::law_one_place(g, w, o, k, a, b, 0);
    } else {
        lemma_home(g, w, o, k, a, b + 1);
    }
}

/// A window that asks for the focus gets it in its workspace; the focus goes to
/// its output, which shows that workspace. No window changes its place.
pub proof fn law_asking_window_is_shown(g: GateView, w: WindowId, o: int, k: int)
    requires
        g.wf(),
        g.in_ws(o, k, w),
        o < g.outputs.len() <= usize::MAX,
    ensures
        ({
            let h = g.activated(w);
            &&& h.workspaces[o][k].focused_window() == Some(w)
            &&& h.workspaces[o][k] == (WorkspaceView {
                focused: h.workspaces[o][k].focused,
                ..g.workspaces[o][k]
            })
            &&& forall|a: int, b: int|
                0 <= a < g.workspaces.len() && 0 <= b < WORKSPACE_COUNT && !(a == o && b == k)
                    ==> #[trigger] h.workspaces[a][b] == g.workspaces[a][b]
            &&& h.scratchpads == g.scratchpads
            &&& h.focused_output == o
            &&& !g.config.general.sync_workspaces ==> keys::shown(h, o) == k
            &&& forall|p: int|
                0 <= p < g.outputs.len() && p != o ==> #[trigger] h.outputs[p] == g.outputs[p]
        }),
{
    reveal(GateView::activated);
    lemma_home(g, w, o, k, 0, 0);
    let v = g.workspaces[o][k];
    assert(g.workspaces[o].len() == WORKSPACE_COUNT);
    assert(state::ws_ok(v));
    workspace::lemma_first_from(v.clients, w, 0);
    workspace::lemma_window_count(v.clients);
    let i = workspace::first_index(v.clients, w);
    assert(i < v.clients.len());
    let a = g.with_ws(o, k, WorkspaceView { focused: Some(i as usize), ..v });
    laws::lemma_settled_frame(a);
    laws::lemma_settled_frame(
        GateView {
            focused_output: o as usize,
            ..a.with_output(o, OutputView { current_ws: k as usize, ..a.outputs[o] })
        },
    );
    assert(a.workspaces[o][k].focused_window() == Some(w));
}

/// Pointing at a window of the workspace in view gives it the focus there and
/// remembers the one that had it; pointing at the focused one, or at a window
/// that is not in view, does nothing.
pub proof fn law_pointed_window_is_focused(g: GateView, w: WindowId, i: int)
    requires
        g.wf(),
        g.outputs.len() > 0,
        ({
            let v = keys::front(g, None);
            0 <= i < v.clients.len() && v.clients[i] == w
        }),
    ensures
        ({
            let h = g.window_focused(w);
            let v = keys::front(g, None);
            &&& v.focused == Some(i as usize) ==> h == g
            &&& v.focused != Some(i as usize) ==> keys::only_front(g, h, None) && keys::front(
                h,
                None,
            ) == (WorkspaceView { focused: Some(i as usize), last_focused: v.focused, ..v })
        }),
{
    let o = g.focused_output as int;
    let k = keys::shown(g, o);
    assert(g.workspaces[o].len() == WORKSPACE_COUNT);
    assert(state::output_ok(g.outputs[o]));
    let v = g.workspaces[o][k];
    assert(state::ws_ok(v));
    workspace::lemma_first_from(v.clients, w, 0);
    workspace::lemma_window_count(v.clients);
    assert(workspace::first_index(v.clients, w) == i);
    let a = g.with_ws(o, k, v.refocused(i));
    laws::lemma_settled_frame(a);
    assert(a.workspaces[o][k] == v.refocused(i));
}

} // verus!
