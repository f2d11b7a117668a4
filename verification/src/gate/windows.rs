//! Windows that come and go.

use vstd::prelude::*;

use crate::gate::animation;
use crate::gate::animation::SlideDirection;
use crate::gate::config;
use crate::gate::config::{apply_rules, find_capture};
use crate::gate::stage;
use crate::gate::stage::Configure;
use crate::gate::state;
use crate::gate::state::{Gate, GateView, RouteView, ScratchpadView};
use crate::gate::workspace;
use crate::gate::workspace::{WindowId, WORKSPACE_COUNT};
use crate::geometry::Size;
use crate::text;
use crate::text::eq_str;

verus! {

/// The application whose windows only serve to reach the clipboard.
pub open spec fn helper_app() -> Seq<char> {
    "io.github.bugaevc.wl-clipboard"@
}

/// Whether an application opens windows only to get an input event, and
/// closes them at once. Such windows are never tiled.
pub fn is_helper_client(app_id: &str) -> (r: bool)
    ensures
        r == (app_id@ == helper_app()),
{
    eq_str(app_id, "io.github.bugaevc.wl-clipboard")
}

/// The first scratchpad at or after `s` that waits for a window.
pub open spec fn waiting_from(sps: Seq<ScratchpadView>, s: int) -> Option<usize>
    decreases sps.len() - s,
{
    if s >= sps.len() {
        None
    } else if sps[s].pending_capture || sps[s].autostart_remaining.len() > 0 {
        Some(s as usize)
    } else {
        waiting_from(sps, s + 1)
    }
}

/// The first route at or after `i` for the application; the length where
/// there is none.
pub open spec fn route_from(rs: Seq<RouteView>, app: Seq<char>, i: int) -> int
    decreases rs.len() - i,
{
    if i >= rs.len() {
        rs.len() as int
    } else if rs[i].app_id == app {
        i
    } else {
        route_from(rs, app, i + 1)
    }
}

impl GateView {
    /// The state with a new window that has shown nothing yet. It is told
    /// that it will be tiled, but no size.
    pub open spec fn toplevel_added(self, w: WindowId) -> GateView {
        GateView {
            stage: self.stage.configured(Configure { window: w, size: None, tiled: true }),
            unmapped: self.unmapped.push(w),
            ..self
        }
    }

    /// The state with one more window in a scratchpad.
    pub open spec fn pad_joined(self, s: int, w: WindowId) -> GateView {
        self.with_sp_ws(s, self.scratchpads[s].workspace.added(w, false))
    }

    /// The state after the window of the running command of a scratchpad has
    /// come: the next command runs.
    pub open spec fn pad_advanced(self, s: int) -> GateView {
        let queue = self.scratchpads[s].autostart_remaining;
        if queue.len() == 0 {
            self
        } else {
            let rest = queue.skip(1);
            let g = self.with_sp(
                s,
                ScratchpadView { autostart_remaining: rest, ..self.scratchpads[s] },
            );
            if rest.len() > 0 {
                g.spawning(rest[0])
            } else {
                g
            }
        }
    }

    /// The state after a helper's window has come: it gets the key presses,
    /// but no place on the screen.
    pub open spec fn helper_joined(self, w: WindowId) -> GateView {
        GateView {
            stage: self.stage.configured(
                Configure { window: w, size: Some(Size { w: 1, h: 1 }), tiled: false },
            ),
            keyboard_focus: Some(w),
            helpers: self.helpers.push(w),
            ..self
        }
    }

    /// The workspace that a rule or the focus gives to a new window, and
    /// whether the window floats.
    pub open spec fn ruled(self, app: Seq<char>) -> (bool, Option<usize>) {
        if app.len() == 0 {
            (false, None)
        } else {
            config::ruling(self.config.rules@, app)
        }
    }

    /// The state after a new window has gone to the workspace that a rule
    /// gives it, else to the one in view, and come in.
    pub open spec fn window_joined(self, w: WindowId, app: Seq<char>) -> GateView {
        let o = self.focused_output as int;
        let k = match self.ruled(app).1 {
            Some(k) => k as int,
            None => self.effective_ws(o),
        };
        self.with_ws(
            o,
            k,
            self.workspaces[o][k].added(w, self.ruled(app).0),
        ).settled().animated_in(seq![w], SlideDirection::Auto)
    }

    /// The state without the route at `i`.
    pub open spec fn route_taken(self, i: int) -> GateView {
        GateView { routes: self.routes.remove(i), ..self }
    }

    /// The scratchpad that takes the windows of the application.
    pub open spec fn captured(self, app: Seq<char>) -> Option<usize> {
        if app.len() == 0 {
            None
        } else {
            config::capture_from(self.config.scratchpads@, app, 0)
        }
    }

    /// The route of the application, where there is one.
    pub open spec fn routed(self, app: Seq<char>) -> Option<int> {
        let i = route_from(self.routes, app, 0);
        if app.len() > 0 && i < self.routes.len() {
            Some(i)
        } else {
            None
        }
    }

    /// Whether a route leads to a workspace that there is.
    pub open spec fn leads(self, r: RouteView) -> bool {
        r.output < self.workspaces.len() && r.workspace < self.workspaces[r.output as int].len()
    }

    /// The state after a window has shown itself for the first time. It goes
    /// to the scratchpad that takes the windows of its application, to the
    /// one that waits for a window, to the one that covers the focused
    /// output, where a route leads it, or where the rules say.
    #[verifier::opaque]
    pub open spec fn newly_mapped(self, w: WindowId, app: Seq<char>) -> GateView {
        if app == helper_app() {
            self.helper_joined(w)
        } else if self.captured(app) is Some {
            let s = self.captured(app)->0 as int;
            let g = self.pad_joined(s, w).pad_advanced(s);
            if g.scratchpads[s].visible {
                g.scratchpad_laid(s)
            } else {
                g
            }
        } else if waiting_from(self.scratchpads, 0) is Some {
            let s = waiting_from(self.scratchpads, 0)->0 as int;
            let g = self.pad_joined(s, w);
            let g = g.with_sp(
                s,
                ScratchpadView { pending_capture: false, ..g.scratchpads[s] },
            ).pad_advanced(s);
            if g.scratchpads[s].visible {
                g.scratchpad_laid(s).focus_applied()
            } else {
                g
            }
        } else if self.active_scratchpad() is Some {
            let s = self.active_scratchpad()->0 as int;
            self.pad_joined(s, w).scratchpad_laid(s).focus_applied()
        } else {
            match self.routed(app) {
                Some(i) => {
                    let r = self.routes[i];
                    let g = self.route_taken(i);
                    if self.leads(r) {
                        g.with_ws(
                            r.output as int,
                            r.workspace as int,
                            g.workspaces[r.output as int][r.workspace as int].added(w, false),
                        ).settled()
                    } else {
                        g.window_joined(w, app)
                    }
                },
                None => self.window_joined(w, app),
            }
        }
    }

    /// Whether a new window can find a place: the scratchpad that takes it
    /// exists, and the workspace that a rule gives it exists.
    pub open spec fn can_join(self, app: Seq<char>) -> bool {
        &&& self.captured(app) matches Some(s) ==> s < self.scratchpads.len()
        &&& self.ruled(app).1 matches Some(k) ==> k < WORKSPACE_COUNT
        &&& self.outputs.len() > 0
    }
}

// ---- The invariant around new windows ---------------------------------------

proof fn lemma_add_unmapped(g: GateView, w: WindowId)
    requires
        g.wf(),
        g.free(w),
    ensures
        g.toplevel_added(w).wf(),
{
    reveal(GateView::owned_once);
    let h = g.toplevel_added(w);
    lemma_places_kept(g, h);
    assert forall|u: WindowId| #[trigger] h.unmapped.contains(u) implies g.unmapped.contains(u)
        || u == w by {
        let i = choose|i: int| 0 <= i < h.unmapped.len() && h.unmapped[i] == u;
        if i < g.unmapped.len() {
            assert(g.unmapped[i] == u);
        }
    }
    assert forall|u: WindowId| g.outside(u) implies #[trigger] h.outside(u) by {
        if g.unmapped.contains(u) {
            let i = choose|i: int| 0 <= i < g.unmapped.len() && g.unmapped[i] == u;
            assert(h.unmapped[i] == u);
        }
    }
    assert forall|o: int, k: int, u: WindowId|
        #![trigger h.in_ws(o, k, u)]
        h.in_ws(o, k, u) implies !h.outside(u) by {
        assert(g.in_ws(o, k, u));
        assert(!g.in_ws(o, k, w));
    }
    assert forall|s: int, u: WindowId|
        #![trigger h.in_sp(s, u)]
        h.in_sp(s, u) implies !h.outside(u) by {
        assert(g.in_sp(s, u));
        assert(!g.in_sp(s, w));
    }
    assert(h.unmapped.no_duplicates()) by {
        assert forall|i: int, j: int|
            0 <= i < h.unmapped.len() && 0 <= j < h.unmapped.len() && i
                != j implies h.unmapped[i] != h.unmapped[j] by {
            if i < g.unmapped.len() {
                assert(g.unmapped.contains(g.unmapped[i]));
            }
            if j < g.unmapped.len() {
                assert(g.unmapped.contains(g.unmapped[j]));
            }
        }
    }
}

proof fn lemma_add_helper(g: GateView, w: WindowId)
    requires
        g.wf(),
        g.free(w),
    ensures
        g.helper_joined(w).wf(),
{
    reveal(GateView::owned_once);
    let h = g.helper_joined(w);
    lemma_places_kept(g, h);
    assert forall|u: WindowId| #[trigger] h.helpers.contains(u) implies g.helpers.contains(u) || u
        == w by {
        let i = choose|i: int| 0 <= i < h.helpers.len() && h.helpers[i] == u;
        if i < g.helpers.len() {
            assert(g.helpers[i] == u);
        }
    }
    assert forall|o: int, k: int, u: WindowId|
        #![trigger h.in_ws(o, k, u)]
        h.in_ws(o, k, u) implies !h.outside(u) by {
        assert(g.in_ws(o, k, u));
        assert(!g.in_ws(o, k, w));
    }
    assert forall|s: int, u: WindowId|
        #![trigger h.in_sp(s, u)]
        h.in_sp(s, u) implies !h.outside(u) by {
        assert(g.in_sp(s, u));
        assert(!g.in_sp(s, w));
    }
    assert(h.helpers.no_duplicates()) by {
        assert forall|i: int, j: int|
            0 <= i < h.helpers.len() && 0 <= j < h.helpers.len() && i != j implies h.helpers[i]
                != h.helpers[j] by {
            if i < g.helpers.len() {
                assert(g.helpers.contains(g.helpers[i]));
            }
            if j < g.helpers.len() {
                assert(g.helpers.contains(g.helpers[j]));
            }
        }
    }
    assert forall|u: WindowId|
        #![trigger h.unmapped.contains(u)]
        h.unmapped.contains(u) implies !h.helpers.contains(u) by {
        assert(g.unmapped.contains(u));
    }
}

proof fn lemma_places_kept(g: GateView, h: GateView)
    requires
        g.wf(),
        h.workspaces == g.workspaces,
        h.scratchpads == g.scratchpads,
    ensures
        forall|o: int, k: int, w: WindowId| #[trigger] h.in_ws(o, k, w) <==> g.in_ws(o, k, w),
        forall|s: int, w: WindowId| #[trigger] h.in_sp(s, w) <==> g.in_sp(s, w),
        forall|o1: int, k1: int, o2: int, k2: int, w: WindowId|
            #![trigger h.in_ws(o1, k1, w), h.in_ws(o2, k2, w)]
            h.in_ws(o1, k1, w) && h.in_ws(o2, k2, w) ==> o1 == o2 && k1 == k2,
        forall|o: int, k: int, s: int, w: WindowId|
            #![trigger h.in_ws(o, k, w), h.in_sp(s, w)]
            !(h.in_ws(o, k, w) && h.in_sp(s, w)),
        forall|s1: int, s2: int, w: WindowId|
            #![trigger h.in_sp(s1, w), h.in_sp(s2, w)]
            h.in_sp(s1, w) && h.in_sp(s2, w) ==> s1 == s2,
{
    reveal(GateView::owned_once);
    assert forall|o: int, k: int, w: WindowId| #[trigger] h.in_ws(o, k, w) <==> g.in_ws(
        o,
        k,
        w,
    ) by {}
    assert forall|s: int, w: WindowId| #[trigger] h.in_sp(s, w) <==> g.in_sp(s, w) by {}
    assert forall|o1: int, k1: int, o2: int, k2: int, w: WindowId|
        #![trigger h.in_ws(o1, k1, w), h.in_ws(o2, k2, w)]
        h.in_ws(o1, k1, w) && h.in_ws(o2, k2, w) implies o1 == o2 && k1 == k2 by {
        assert(g.in_ws(o1, k1, w) && g.in_ws(o2, k2, w));
    }
    assert forall|o: int, k: int, s: int, w: WindowId|
        #![trigger h.in_ws(o, k, w), h.in_sp(s, w)]
        !(h.in_ws(o, k, w) && h.in_sp(s, w)) by {
        assert(!(g.in_ws(o, k, w) && g.in_sp(s, w)));
    }
    assert forall|s1: int, s2: int, w: WindowId|
        #![trigger h.in_sp(s1, w), h.in_sp(s2, w)]
        h.in_sp(s1, w) && h.in_sp(s2, w) implies s1 == s2 by {
        assert(g.in_sp(s1, w) && g.in_sp(s2, w));
    }
}

/// Taking a window out of those that wait outside keeps the state well formed
/// and sets the window free.
pub proof fn lemma_take_outside(g: GateView, h: GateView, w: WindowId, i: int)
    requires
        g.wf(),
        h.workspaces == g.workspaces,
        h.scratchpads == g.scratchpads,
        h == (GateView { unmapped: h.unmapped, helpers: h.helpers, ..g }),
        ({
            ||| 0 <= i < g.unmapped.len() && g.unmapped[i] == w && h.unmapped == g.unmapped.remove(
                i,
            ) && h.helpers == g.helpers
            ||| 0 <= i < g.helpers.len() && g.helpers[i] == w && h.helpers == g.helpers.remove(i)
                && h.unmapped == g.unmapped
        }),
    ensures
        h.wf(),
        h.free(w),
{
    reveal(GateView::owned_once);
    lemma_places_kept(g, h);
    assert(g.outside(w));
    assert forall|u: WindowId| #[trigger] h.unmapped.contains(u) implies g.unmapped.contains(u) by {
        let j = choose|j: int| 0 <= j < h.unmapped.len() && h.unmapped[j] == u;
        if h.unmapped == g.unmapped.remove(i) {
            assert(g.unmapped[if j < i {
                j
            } else {
                j + 1
            }] == u);
        }
    }
    assert forall|u: WindowId| #[trigger] h.helpers.contains(u) implies g.helpers.contains(u) by {
        let j = choose|j: int| 0 <= j < h.helpers.len() && h.helpers[j] == u;
        if h.helpers == g.helpers.remove(i) {
            assert(g.helpers[if j < i {
                j
            } else {
                j + 1
            }] == u);
        }
    }
    assert(h.unmapped.no_duplicates());
    assert(h.helpers.no_duplicates());
    assert forall|o: int, k: int, u: WindowId|
        #![trigger h.in_ws(o, k, u)]
        h.in_ws(o, k, u) implies !h.outside(u) by {
        assert(g.in_ws(o, k, u));
    }
    assert forall|s: int, u: WindowId|
        #![trigger h.in_sp(s, u)]
        h.in_sp(s, u) implies !h.outside(u) by {
        assert(g.in_sp(s, u));
    }
    assert(!h.unmapped.contains(w)) by {
        if h.unmapped.contains(w) {
            let j = choose|j: int| 0 <= j < h.unmapped.len() && h.unmapped[j] == w;
            if 0 <= i < g.unmapped.len() && g.unmapped[i] == w && h.unmapped == g.unmapped.remove(
                i,
            ) {
                let j2 = if j < i {
                    j
                } else {
                    j + 1
                };
                assert(g.unmapped[j2] == w && j2 != i);
            } else {
                assert(g.unmapped.contains(w));
                assert(g.helpers.contains(w));
            }
        }
    }
    assert(!h.helpers.contains(w)) by {
        if h.helpers.contains(w) {
            let j = choose|j: int| 0 <= j < h.helpers.len() && h.helpers[j] == w;
            if 0 <= i < g.helpers.len() && g.helpers[i] == w && h.helpers == g.helpers.remove(i) {
                let j2 = if j < i {
                    j
                } else {
                    j + 1
                };
                assert(g.helpers[j2] == w && j2 != i);
            } else {
                assert(g.unmapped.contains(w));
                assert(g.helpers.contains(w));
            }
        }
    }
    assert(h.free(w)) by {
        assert forall|o: int, k: int| !#[trigger] h.in_ws(o, k, w) by {
            if h.in_ws(o, k, w) {
                assert(g.in_ws(o, k, w));
            }
        }
        assert forall|s: int| !#[trigger] h.in_sp(s, w) by {
            if h.in_sp(s, w) {
                assert(g.in_sp(s, w));
            }
        }
    }
}

impl Gate {
    /// What the rules say of an application: whether its windows float, and
    /// to which workspace they go.
    pub fn check_rules(&self, app_id: &str) -> (out: (bool, Option<usize>))
        ensures
            out == config::ruling(self@.config.rules@, app_id@),
    {
        apply_rules(&self.config.rules, app_id)
    }

    /// The scratchpad that takes the windows of an application.
    pub fn check_scratchpad_capture(&self, app_id: &str) -> (out: Option<usize>)
        ensures
            out == config::capture_from(self@.config.scratchpads@, app_id@, 0),
    {
        find_capture(&self.config.scratchpads, app_id)
    }

    /// A window has been created; it has shown nothing yet. Its number is one
    /// that nothing goes by any more.
    pub fn new_toplevel(&mut self, window: WindowId)
        requires
            old(self)@.wf(),
            old(self)@.free(window),
            crate::gate::lifecycle::send_from(old(self)@.pending_sends, window, 0) == old(
                self,
            )@.pending_sends.len(),
        ensures
            final(self)@ == old(self)@.toplevel_added(window),
            final(self)@.wf(),
    {
        self.stage.configures.push(Configure { window, size: None, tiled: true });
        self.unmapped_windows.push(window);
        proof {
            assert(self@ =~= old(self)@.toplevel_added(window));
            lemma_add_unmapped(old(self)@, window);
        }
    }

    fn join_pad(&mut self, s: usize, w: WindowId)
        requires
            old(self)@.wf(),
            s < old(self)@.scratchpads.len(),
            old(self)@.free(w),
        ensures
            final(self)@ == old(self)@.pad_joined(s as int, w),
            final(self)@.wf(),
    {
        assert(self@.scratchpads[s as int] == self.scratchpads@[s as int]@);
        assert(state::ws_ok(self@.scratchpads[s as int].workspace));
        assert(!self@.in_sp(s as int, w));
        self.scratchpads[s].workspace.add_client(w);
        proof {
            let before = old(self)@.scratchpads[s as int];
            let v = ScratchpadView { workspace: before.workspace.added(w, false), ..before };
            assert(self@.scratchpads =~= old(self)@.scratchpads.update(s as int, v));
            assert(self@ =~= old(self)@.with_sp(s as int, v));
            assert forall|u: WindowId| #[trigger]
                v.workspace.clients.contains(u) implies before.workspace.clients.contains(u) || old(
                self,
            )@.free(u) by {
                let j = choose|j: int|
                    0 <= j < v.workspace.clients.len() && v.workspace.clients[j] == u;
                if j < before.workspace.clients.len() {
                    assert(before.workspace.clients[j] == u);
                }
            }
            state::lemma_with_sp(old(self)@, s as int, v);
        }
    }

    fn advance_pad(&mut self, s: usize)
        requires
            old(self)@.wf(),
            s < old(self)@.scratchpads.len(),
        ensures
            final(self)@ == old(self)@.pad_advanced(s as int),
            final(self)@.wf(),
    {
        assert(self@.scratchpads[s as int] == self.scratchpads@[s as int]@);
        assert(state::ws_ok(self@.scratchpads[s as int].workspace));
        if self.scratchpads[s].autostart_remaining.len() == 0 {
            return;
        }
        let ghost queue = self@.scratchpads[s as int].autostart_remaining;
        let _ = self.scratchpads[s].autostart_remaining.remove(0);
        proof {
            let v = ScratchpadView {
                autostart_remaining: queue.skip(1),
                ..old(self)@.scratchpads[s as int]
            };
            assert(text::views(self.scratchpads@[s as int].autostart_remaining@) =~= queue.skip(1));
            assert(self@.scratchpads =~= old(self)@.scratchpads.update(s as int, v));
            assert(self@ =~= old(self)@.with_sp(s as int, v));
            state::lemma_with_sp(old(self)@, s as int, v);
        }
        if self.scratchpads[s].autostart_remaining.len() > 0 {
            let next: String = text::copy_str(&self.scratchpads[s].autostart_remaining[0]);
            assert(next@ == queue.skip(1)[0]);
            self.spawn_raw(next.as_str());
        }
    }

    fn stop_waiting(&mut self, s: usize)
        requires
            old(self)@.wf(),
            s < old(self)@.scratchpads.len(),
        ensures
            final(self)@ == old(self)@.with_sp(
                s as int,
                ScratchpadView { pending_capture: false, ..old(self)@.scratchpads[s as int] },
            ),
            final(self)@.wf(),
    {
        assert(self@.scratchpads[s as int] == self.scratchpads@[s as int]@);
        assert(state::ws_ok(self@.scratchpads[s as int].workspace));
        self.scratchpads[s].pending_capture = false;
        proof {
            let v = ScratchpadView { pending_capture: false, ..old(self)@.scratchpads[s as int] };
            assert(self@.scratchpads =~= old(self)@.scratchpads.update(s as int, v));
            assert(self@ =~= old(self)@.with_sp(s as int, v));
            state::lemma_with_sp(old(self)@, s as int, v);
        }
    }

    fn waiting_pad(&self) -> (out: Option<usize>)
        ensures
            out == waiting_from(self@.scratchpads, 0),
            out matches Some(s) ==> s < self@.scratchpads.len(),
    {
        let mut s: usize = 0;
        while s < self.scratchpads.len()
            invariant
                s <= self.scratchpads.len(),
                waiting_from(self@.scratchpads, 0) == waiting_from(self@.scratchpads, s as int),
            decreases self.scratchpads.len() - s,
        {
            assert(self@.scratchpads[s as int] == self.scratchpads@[s as int]@);
            if self.scratchpads[s].pending_capture
                || self.scratchpads[s].autostart_remaining.len() > 0 {
                return Some(s);
            }
            s = s + 1;
        }
        None
    }

    fn find_route(&self, app_id: &str) -> (out: Option<usize>)
        ensures
            match out {
                Some(i) => i < self@.routes.len() && i == route_from(self@.routes, app_id@, 0),
                None => route_from(self@.routes, app_id@, 0) == self@.routes.len(),
            },
    {
        let mut i: usize = 0;
        while i < self.pending_autostart_routes.len()
            invariant
                i <= self.pending_autostart_routes.len(),
                route_from(self@.routes, app_id@, 0) == route_from(self@.routes, app_id@, i as int),
            decreases self.pending_autostart_routes.len() - i,
        {
            assert(self@.routes[i as int] == self.pending_autostart_routes@[i as int]@);
            if eq_str(self.pending_autostart_routes[i].app_id.as_str(), app_id) {
                return Some(i);
            }
            i = i + 1;
        }
        None
    }

    fn join_helper(&mut self, w: WindowId)
        requires
            old(self)@.wf(),
            old(self)@.free(w),
        ensures
            final(self)@ == old(self)@.helper_joined(w),
            final(self)@.wf(),
    {
        self.stage.configures.push(
            Configure { window: w, size: Some(Size { w: 1, h: 1 }), tiled: false },
        );
        self.keyboard_focus = Some(w);
        self.hidden_helpers.push(w);
        proof {
            assert(self@ =~= old(self)@.helper_joined(w));
            lemma_add_helper(old(self)@, w);
        }
    }

    fn join_window(&mut self, w: WindowId, app_id: &str)
        requires
            old(self)@.wf(),
            old(self)@.free(w),
            old(self)@.outputs.len() > 0,
            old(self)@.ruled(app_id@).1 matches Some(k) ==> k < WORKSPACE_COUNT,
        ensures
            final(self)@ == old(self)@.window_joined(w, app_id@),
            final(self)@.wf(),
    {
        let (floats, target): (bool, Option<usize>) = if app_id.is_empty() {
            (false, None)
        } else {
            self.check_rules(app_id)
        };
        let o: usize = self.focused_output;
        let k: usize = match target {
            Some(k) => k,
            None => self.effective_ws(o),
        };
        self.put_in_ws(o, k, w, floats);
        self.settle();
        let mut one: Vec<WindowId> = Vec::new();
        one.push(w);
        assert(one@ =~= seq![w]);
        self.animate_windows(&one, SlideDirection::Auto);
    }

    fn drop_route(&mut self, i: usize)
        requires
            old(self)@.wf(),
            i < old(self)@.routes.len(),
        ensures
            final(self)@ == old(self)@.route_taken(i as int),
            final(self)@.wf(),
    {
        let _ = self.pending_autostart_routes.remove(i);
        proof {
            assert(self@.routes =~= old(self)@.routes.remove(i as int));
            state::lemma_same_places(old(self)@, self@);
        }
    }

    /// A window has shown itself for the first time and goes to its place.
    pub fn map_new_toplevel(&mut self, window: WindowId, app_id: &str)
        requires
            old(self)@.wf(),
            old(self)@.free(window),
            old(self)@.can_join(app_id@),
        ensures
            final(self)@ == old(self)@.newly_mapped(window, app_id@),
            final(self)@.wf(),
    {
        proof {
            reveal(GateView::newly_mapped);
        }
        if is_helper_client(app_id) {
            self.join_helper(window);
            return;
        }
        if !app_id.is_empty() {
            match self.check_scratchpad_capture(app_id) {
                Some(s) => {
                    self.join_pad(s, window);
                    self.advance_pad(s);
                    assert(self@.scratchpads.len() == self.scratchpads@.len());
                    assert(self@.scratchpads[s as int] == self.scratchpads@[s as int]@);
                    if self.scratchpads[s].visible {
                        self.apply_scratchpad_layout(s);
                    }
                    return;
                },
                None => {},
            }
        }
        match self.waiting_pad() {
            Some(s) => {
                self.join_pad(s, window);
                self.stop_waiting(s);
                self.advance_pad(s);
                assert(self@.scratchpads.len() == self.scratchpads@.len());
                assert(self@.scratchpads[s as int] == self.scratchpads@[s as int]@);
                if self.scratchpads[s].visible {
                    self.apply_scratchpad_layout(s);
                    self.apply_focus();
                }
                return;
            },
            None => {},
        }
        match self.active_scratchpad_for_focus() {
            Some(s) => {
                self.join_pad(s, window);
                self.apply_scratchpad_layout(s);
                self.apply_focus();
                return;
            },
            None => {},
        }
        if !app_id.is_empty() {
            match self.find_route(app_id) {
                Some(i) => {
                    assert(self@.routes[i as int] == self.pending_autostart_routes@[i as int]@);
                    let o: usize = self.pending_autostart_routes[i].output;
                    let k: usize = self.pending_autostart_routes[i].workspace;
                    self.drop_route(i);
                    assert(self@.workspaces.len() == self.workspaces@.len());
                    assert(self@.free(window)) by {
                        lemma_free_kept(old(self)@, self@, window);
                    }
                    if o < self.workspaces.len() {
                        assert(self@.workspaces[o as int] == state::pool_view(
                            self.workspaces@[o as int]@,
                        ));
                        assert(self@.workspaces[o as int].len() == WORKSPACE_COUNT);
                        if k < self.workspaces[o].len() {
                            self.put_in_ws(o, k, window, false);
                            self.settle();
                            return;
                        }
                    }
                },
                None => {},
            }
        }
        self.join_window(window, app_id);
    }
}

proof fn lemma_free_kept(g: GateView, h: GateView, w: WindowId)
    requires
        g.free(w),
        h.workspaces == g.workspaces,
        h.scratchpads == g.scratchpads,
        h.unmapped == g.unmapped,
        h.helpers == g.helpers,
    ensures
        h.free(w),
{
    assert forall|o: int, k: int| !#[trigger] h.in_ws(o, k, w) by {
        assert(!g.in_ws(o, k, w));
    }
    assert forall|s: int| !#[trigger] h.in_sp(s, w) by {
        assert(!g.in_sp(s, w));
    }
}

} // verus!
