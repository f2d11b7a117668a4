//! Where windows stand once they have been laid out.

use vstd::prelude::*;

use crate::gate::layout;
use crate::gate::layout::ClientGeometry;
use crate::gate::laws;
use crate::gate::stage;
use crate::gate::stage::{Configure, Placed, StageView};
use crate::gate::state;
use crate::gate::state::{GateView, WindowInfo};
use crate::gate::workspace;
use crate::gate::workspace::{WindowId, WORKSPACE_COUNT};
use crate::geometry::{Rect, Size};
use crate::ratio;

verus! {

// ---- One window -------------------------------------------------------------

proof fn lemma_place_is(s: Seq<Placed>, w: WindowId, m: int)
    requires
        0 <= m < s.len(),
        s[m].window == w,
        stage::mapped_once(s),
    ensures
        stage::place_of(s, w) == Some(s[m]),
{
    stage::lemma_place_from(s, w, 0);
    let i = stage::place_from(s, w, 0);
    if i < m {
        assert(s[i].window != s[m].window);
    }
}

proof fn lemma_place_none(s: Seq<Placed>, w: WindowId)
    requires
        forall|m: int| 0 <= m < s.len() ==> (#[trigger] s[m]).window != w,
    ensures
        stage::place_of(s, w) is None,
{
    stage::lemma_place_from(s, w, 0);
}

/// Taking windows off the screen takes just these: every other one stands
/// where it stood, and so does one that is excepted.
pub proof fn law_unmapping(
    s: StageView,
    gone: Seq<WindowId>,
    except: Option<WindowId>,
    w: WindowId,
)
    requires
        stage::mapped_once(s.space),
    ensures
        stage::mapped_once(s.unmapped(gone, except).space),
        stage::place_of(s.unmapped(gone, except).space, w) == (if gone.contains(w) && except
            != Some(w) {
            None
        } else {
            stage::place_of(s.space, w)
        }),
        s.unmapped(gone, except) == (StageView { space: s.unmapped(gone, except).space, ..s }),
{
    let t = stage::without(s.space, gone, except);
    stage::lemma_without(s.space, gone, except);
    stage::lemma_place_from(s.space, w, 0);
    let i = stage::place_from(s.space, w, 0);
    if (gone.contains(w) && except != Some(w)) || i >= s.space.len() {
        assert forall|m: int| 0 <= m < t.len() implies (#[trigger] t[m]).window != w by {
            assert(s.space.contains(t[m]));
            let k = choose|k: int| 0 <= k < s.space.len() && s.space[k] == t[m];
            assert(s.space[k].window == t[m].window);
        }
        lemma_place_none(t, w);
    } else {
        let p = s.space[i];
        assert(s.space.contains(p));
        assert(t.contains(p));
        let m = choose|m: int| 0 <= m < t.len() && t[m] == p;
        lemma_place_is(t, w, m);
    }
}

/// A window that is put on the screen stands on top, where it was put; every
/// other one stands where it stood.
pub proof fn law_mapping(s: StageView, p: Placed, w: WindowId)
    requires
        stage::mapped_once(s.space),
    ensures
        s.mapped(p).space.last() == p,
        stage::mapped_once(s.mapped(p).space),
        stage::place_of(s.mapped(p).space, w) == (if w == p.window {
            Some(p)
        } else {
            stage::place_of(s.space, w)
        }),
        s.mapped(p) == (StageView { space: s.mapped(p).space, ..s }),
{
    stage::law_mapped_once(s, p);
    let t = stage::without(s.space, seq![p.window], None);
    let u = s.mapped(p).space;
    if w != p.window {
        assert(!seq![p.window].contains(w));
        law_unmapping(s, seq![p.window], None, w);
        stage::lemma_place_from(t, w, 0);
        let i = stage::place_from(t, w, 0);
        if i < t.len() {
            assert(u[i] == t[i]);
            lemma_place_is(u, w, i);
        } else {
            assert forall|m: int| 0 <= m < u.len() implies (#[trigger] u[m]).window != w by {
                if m < t.len() {
                    assert(u[m] == t[m]);
                }
            }
            lemma_place_none(u, w);
        }
    }
}

proof fn lemma_without_order(
    s: Seq<Placed>,
    gone: Seq<WindowId>,
    except: Option<WindowId>,
    a: int,
    b: int,
) -> (at: (int, int))
    requires
        0 <= a < b < stage::without(s, gone, except).len(),
    ensures
        0 <= at.0 < at.1 < s.len(),
        s[at.0] == stage::without(s, gone, except)[a],
        s[at.1] == stage::without(s, gone, except)[b],
    decreases s.len(),
{
    let t = s.drop_last();
    let u = stage::without(t, gone, except);
    if b < u.len() {
        lemma_without_order(t, gone, except, a, b)
    } else {
        stage::lemma_without(t, gone, except);
        assert(t.contains(u[a]));
        let i = choose|i: int| 0 <= i < t.len() && t[i] == u[a];
        (i, s.len() - 1)
    }
}

/// Windows that stay on the screen stay in their order, from the bottom to the
/// top.
pub proof fn law_unmapping_keeps_order(
    s: StageView,
    gone: Seq<WindowId>,
    except: Option<WindowId>,
    a: int,
    b: int,
    i: int,
    j: int,
)
    requires
        stage::mapped_once(s.space),
        0 <= a < b < s.unmapped(gone, except).space.len(),
        0 <= i < s.space.len(),
        0 <= j < s.space.len(),
        s.space[i].window == s.unmapped(gone, except).space[a].window,
        s.space[j].window == s.unmapped(gone, except).space[b].window,
    ensures
        i < j,
{
    let at = lemma_without_order(s.space, gone, except, a, b);
    if at.0 != i {
        assert(s.space[at.0].window != s.space[i].window);
    }
    if at.1 != j {
        assert(s.space[at.1].window != s.space[j].window);
    }
}

/// A window that is raised comes to the top without moving, and no window
/// moves; of the windows on the screen it alone is active. One that is not on
/// the screen is not raised.
pub proof fn law_raising(s: StageView, f: WindowId, w: WindowId)
    requires
        stage::mapped_once(s.space),
    ensures
        stage::mapped_once(s.raised(f).space),
        stage::place_of(s.raised(f).space, w) == stage::place_of(s.space, w),
        stage::place_of(s.space, f) is None ==> s.raised(f) == s,
        stage::place_of(s.space, f) is Some ==> {
            &&& s.raised(f).space.last().window == f
            &&& s.raised(f).activated.contains(f)
            &&& w != f && stage::place_of(s.space, w) is Some ==> !s.raised(f).activated.contains(w)
            &&& w != f && stage::place_of(s.space, w) is None ==> (s.raised(f).activated.contains(w)
                <==> s.activated.contains(w))
        },
        s.raised(f) == (StageView {
            space: s.raised(f).space,
            activated: s.raised(f).activated,
            ..s
        }),
{
    match stage::place_of(s.space, f) {
        Some(p) => {
            stage::lemma_place_from(s.space, f, 0);
            law_mapping(s, p, w);
            law_mapping(s, p, f);
            lemma_unmapped_of(s.activated, s.space, w);
            let u = stage::unmapped_of(s.activated, s.space);
            let v = u.push(f);
            assert(v[v.len() - 1] == f);
            if u.contains(w) {
                let i = choose|i: int| 0 <= i < u.len() && u[i] == w;
                assert(v[i] == w);
            }
            if v.contains(w) && w != f {
                let i = choose|i: int| 0 <= i < v.len() && v[i] == w;
                assert(u[i] == w);
            }
        },
        None => {},
    }
}

proof fn lemma_unmapped_of(ws: Seq<WindowId>, space: Seq<Placed>, w: WindowId)
    ensures
        stage::unmapped_of(ws, space).contains(w) <==> ws.contains(w) && stage::place_of(space, w)
            is None,
    decreases ws.len(),
{
    if ws.len() > 0 {
        let t = ws.drop_last();
        lemma_unmapped_of(t, space, w);
        let a = stage::unmapped_of(t, space);
        let b = stage::unmapped_of(ws, space);
        if a.contains(w) {
            let i = choose|i: int| 0 <= i < a.len() && a[i] == w;
            assert(b[i] == w);
        }
        if t.contains(w) {
            let i = choose|i: int| 0 <= i < t.len() && t[i] == w;
            assert(ws[i] == w);
        }
        if ws.contains(w) {
            let i = choose|i: int| 0 <= i < ws.len() && ws[i] == w;
            if i < t.len() {
                assert(t[i] == w);
            }
        }
        if b.len() > a.len() {
            assert(b[a.len() as int] == ws.last());
        }
        if b.contains(w) {
            let i = choose|i: int| 0 <= i < b.len() && b[i] == w;
            if i < a.len() {
                assert(a[i] == w);
            }
        }
        assert(ws[ws.len() - 1] == ws.last());
    }
}

// ---- The windows of a layout ------------------------------------------------

/// Whether no window has two places.
pub open spec fn distinct(gs: Seq<ClientGeometry>) -> bool {
    forall|i: int, j: int|
        0 <= i < j < gs.len() ==> (#[trigger] gs[i]).window != (#[trigger] gs[j]).window
}

/// After a layout every visible window of it stands where it belongs and has
/// been asked to take its size; one that is not visible is off the screen; no
/// other window has moved.
pub proof fn law_laying(s: StageView, gs: Seq<ClientGeometry>, pad: bool, w: WindowId)
    requires
        stage::mapped_once(s.space),
        distinct(gs),
    ensures
        stage::mapped_once(s.laid(gs, pad).space),
        forall|k: int|
            0 <= k < gs.len() && (#[trigger] gs[k]).window == w ==> {
                &&& gs[k].visible ==> stage::place_of(s.laid(gs, pad).space, w) == Some(
                    Placed { window: w, x: gs[k].rect.x, y: gs[k].rect.y },
                ) && s.laid(gs, pad).configures.contains(
                    Configure {
                        window: w,
                        size: Some(Size { w: gs[k].rect.w, h: gs[k].rect.h }),
                        tiled: true,
                    },
                )
                &&& !gs[k].visible ==> stage::place_of(s.laid(gs, pad).space, w) is None
            },
        (forall|k: int| 0 <= k < gs.len() ==> (#[trigger] gs[k]).window != w) ==> stage::place_of(
            s.laid(gs, pad).space,
            w,
        ) == stage::place_of(s.space, w),
        s.laid(gs, pad).activated == s.activated,
    decreases gs.len(),
{
    if gs.len() > 0 {
        let t = gs.drop_last();
        let g = gs.last();
        assert forall|i: int, j: int| 0 <= i < j < t.len() implies (#[trigger] t[i]).window != (
        #[trigger] t[j]).window by {
            assert(gs[i].window != gs[j].window);
        }
        law_laying(s, t, pad, w);
        let a = s.laid(t, pad);
        let b = s.laid(gs, pad);
        assert(b == a.laid_one(g, pad));
        assert(gs[gs.len() - 1] == g);
        if g.visible {
            let p = Placed { window: g.window, x: g.rect.x, y: g.rect.y };
            let c = Configure {
                window: g.window,
                size: Some(Size { w: g.rect.w, h: g.rect.h }),
                tiled: true,
            };
            law_mapping(a.configured(c), p, w);
            assert(b.space == a.configured(c).mapped(p).space);
            assert(b.configures == a.configures.push(c));
            assert(b.configures[a.configures.len() as int] == c);
            assert forall|d: Configure| a.configures.contains(d) implies b.configures.contains(
                d,
            ) by {
                let i = choose|i: int| 0 <= i < a.configures.len() && a.configures[i] == d;
                assert(b.configures[i] == d);
            }
        } else {
            law_unmapping(a, seq![g.window], None, w);
            assert(seq![g.window][0] == g.window);
            assert(w == g.window ==> seq![g.window].contains(w));
        }
        assert forall|k: int| 0 <= k < gs.len() && (#[trigger] gs[k]).window == w implies {
            &&& gs[k].visible ==> stage::place_of(b.space, w) == Some(
                Placed { window: w, x: gs[k].rect.x, y: gs[k].rect.y },
            ) && b.configures.contains(
                Configure {
                    window: w,
                    size: Some(Size { w: gs[k].rect.w, h: gs[k].rect.h }),
                    tiled: true,
                },
            )
            &&& !gs[k].visible ==> stage::place_of(b.space, w) is None
        } by {
            if k < t.len() {
                assert(t[k] == gs[k]);
                assert(gs[k].window != gs[gs.len() - 1].window);
            }
        }
        if forall|k: int| 0 <= k < gs.len() ==> (#[trigger] gs[k]).window != w {
            assert forall|k: int| 0 <= k < t.len() implies (#[trigger] t[k]).window != w by {
                assert(gs[k] == t[k]);
            }
        }
    }
}

/// Raising the windows of a layout moves none; the last visible one of them is
/// on top afterwards.
pub proof fn law_raising_all(s: StageView, gs: Seq<ClientGeometry>, w: WindowId)
    requires
        stage::mapped_once(s.space),
    ensures
        stage::mapped_once(s.raised_all(gs).space),
        stage::place_of(s.raised_all(gs).space, w) == stage::place_of(s.space, w),
        s.raised_all(gs).configures == s.configures,
        gs.len() > 0 && gs.last().visible && stage::place_of(s.space, gs.last().window) is Some
            ==> s.raised_all(gs).space.last().window == gs.last().window,
    decreases gs.len(),
{
    if gs.len() > 0 {
        law_raising_all(s, gs.drop_last(), w);
        law_raising_all(s, gs.drop_last(), gs.last().window);
        law_raising(s.raised_all(gs.drop_last()), gs.last().window, w);
    }
}

// ---- Outputs ----------------------------------------------------------------

/// The size that a window has asked for is the one in its entry of the table.
pub proof fn law_size_is_looked_up(ws: Seq<WindowInfo>, w: WindowId, i: int)
    requires
        0 <= i < ws.len(),
        ws[i].id == w,
        forall|j: int| 0 <= j < i ==> (#[trigger] ws[j]).id != w,
    ensures
        state::size_of(ws, w) == ws[i].size,
        state::title_of(ws, w) == ws[i].title@,
        state::app_of(ws, w) == ws[i].app_id@,
{
    lemma_info(ws, w, 0, i);
}

proof fn lemma_info(ws: Seq<WindowInfo>, w: WindowId, j: int, i: int)
    requires
        0 <= j <= i < ws.len(),
        ws[i].id == w,
        forall|k: int| j <= k < i ==> (#[trigger] ws[k]).id != w,
    ensures
        state::info_from(ws, w, j) == i,
    decreases i - j,
{
    if j < i {
        lemma_info(ws, w, j + 1, i);
    }
}

/// The number of the workspace that an output shows.
pub open spec fn number_shown(g: GateView, o: int) -> int {
    if g.config.general.sync_workspaces {
        g.current_ws as int
    } else {
        g.outputs[o].current_ws as int
    }
}

/// The places of the windows that output `o` shows.
pub open spec fn places_on(g: GateView, o: int) -> Seq<ClientGeometry> {
    let ws = g.workspaces[o][number_shown(g, o)];
    layout::layout_of(
        ws,
        ws.clients.map_values(|w: WindowId| state::size_of(g.windows, w)),
        g.outputs[o].workarea,
        g.config.general.border_px as int,
    )
}

pub proof fn lemma_places(g: GateView, o: int)
    requires
        g.wf(),
        0 <= o < g.outputs.len(),
    ensures
        distinct(places_on(g, o)),
        number_shown(g, o) == g.effective_ws(o),
        0 <= g.effective_ws(o) < WORKSPACE_COUNT,
        g.outputs[o].fullscreen is None ==> forall|s: StageView| #[trigger]
            g.output_laid(s, o) == s.laid(places_on(g, o), false),
        forall|k: int|
            0 <= k < places_on(g, o).len() ==> g.in_ws(
                o,
                number_shown(g, o),
                (#[trigger] places_on(g, o)[k]).window,
            ),
{
    assert(state::output_ok(g.outputs[o]));
    assert(g.workspaces[o].len() == WORKSPACE_COUNT);
    let ws = g.workspaces[o][number_shown(g, o)];
    assert(state::ws_ok(ws));
    let asked = ws.clients.map_values(|w: WindowId| state::size_of(g.windows, w));
    assert(asked =~= state::sizes_of(g.windows, ws.clients));
    layout::law_every_window_has_a_place(
        ws,
        asked,
        g.outputs[o].workarea,
        g.config.general.border_px as int,
    );
}

proof fn lemma_outputs_place(g: GateView, n: int, w: WindowId)
    requires
        g.wf(),
        stage::mapped_once(g.stage.space),
        laws::nothing_fills(g),
        0 <= n <= g.outputs.len(),
    ensures
        stage::mapped_once(g.outputs_laid(n).space),
        forall|o: int, k: int|
            #![trigger places_on(g, o)[k]]
            0 <= o < n && 0 <= k < places_on(g, o).len() && places_on(g, o)[k].window == w ==> {
                let q = places_on(g, o)[k];
                &&& q.visible ==> stage::place_of(g.outputs_laid(n).space, w) == Some(
                    Placed { window: w, x: q.rect.x, y: q.rect.y },
                )
                &&& !q.visible ==> stage::place_of(g.outputs_laid(n).space, w) is None
            },
    decreases n,
{
    if n <= 0 {
        law_unmapping(g.stage, g.hidden_clients(g.workspaces.len() as int), None, w);
    } else {
        lemma_outputs_place(g, n - 1, w);
        let p = n - 1;
        lemma_places(g, p);
        let s = g.outputs_laid(p);
        law_laying(s, places_on(g, p), false, w);
        assert(g.outputs_laid(n) == g.output_laid(s, p));
        assert forall|o: int, k: int|
            #![trigger places_on(g, o)[k]]
            0 <= o < n && 0 <= k < places_on(g, o).len() && places_on(g, o)[k].window == w implies {
            let q = places_on(g, o)[k];
            &&& q.visible ==> stage::place_of(g.outputs_laid(n).space, w) == Some(
                Placed { window: w, x: q.rect.x, y: q.rect.y },
            )
            &&& !q.visible ==> stage::place_of(g.outputs_laid(n).space, w) is None
        } by {
            if o < p {
                lemma_places(g, o);
                assert(g.in_ws(o, number_shown(g, o), w));
                assert forall|j: int| 0 <= j < places_on(g, p).len() implies (#[trigger] places_on(
                    g,
                    p,
                )[j]).window != w by {
                    if places_on(g, p)[j].window == w {
                        assert(g.in_ws(p, number_shown(g, p), w));
                        laws::law_one_place(
                            g,
                            w,
                            o,
                            number_shown(g, o),
                            p,
                            number_shown(g, p),
                            0,
                        );
                    }
                }
            }
        }
    }
}

/// After a layout, every visible window of a workspace that an output shows
/// stands where the layout of that workspace in the work area of that output
/// puts it; one that the layout hides is off the screen.
pub proof fn law_shown_windows_in_place(g: GateView, o: int, k: int)
    requires
        g.wf(),
        stage::mapped_once(g.stage.space),
        laws::nothing_fills(g),
        0 <= o < g.outputs.len(),
        0 <= k < places_on(g, o).len(),
    ensures
        ({
            let q = places_on(g, o)[k];
            let at = stage::place_of(g.laid_out().stage.space, q.window);
            &&& q.visible ==> at == Some(Placed { window: q.window, x: q.rect.x, y: q.rect.y })
            &&& !q.visible ==> at is None
        }),
        stage::mapped_once(g.laid_out().stage.space),
{
    reveal(GateView::laid_out);
    lemma_outputs_place(g, g.outputs.len() as int, places_on(g, o)[k].window);
}

/// Giving the focus moves no window.
pub proof fn law_focus_moves_nothing(g: GateView, w: WindowId)
    requires
        stage::mapped_once(g.stage.space),
    ensures
        stage::place_of(g.focus_applied().stage.space, w) == stage::place_of(g.stage.space, w),
        stage::mapped_once(g.focus_applied().stage.space),
        g.focused_window() matches Some(f) && stage::place_of(g.stage.space, f) is Some
            ==> g.focus_applied().stage.space.last().window == g.focused_window()->0,
{
    reveal(GateView::focus_applied);
    let quiet = StageView {
        activated: stage::minus(g.stage.activated, g.all_clients()),
        ..g.stage
    };
    match g.focused_window() {
        Some(f) => {
            law_raising(StageView { activated: quiet.activated.push(f), ..quiet }, f, w);
        },
        None => {},
    }
}

proof fn lemma_fills(g: GateView, n: int, o: int, w: WindowId)
    requires
        g.wf(),
        stage::mapped_once(g.stage.space),
        0 <= n <= g.outputs.len(),
        0 <= o < g.outputs.len(),
        g.outputs[o].fullscreen is Some,
        forall|p: int|
            0 <= p < g.outputs.len() && p != o ==> (#[trigger] g.outputs[p]).fullscreen is None,
        g.in_ws(o, number_shown(g, o), g.outputs[o].fullscreen->0),
        g.in_ws(o, number_shown(g, o), w),
    ensures
        stage::mapped_once(g.outputs_laid(n).space),
        n > o ==> stage::place_of(g.outputs_laid(n).space, w) == (if g.outputs[o].fullscreen
            == Some(w) {
            Some(Placed { window: w, x: g.outputs[o].x, y: g.outputs[o].y })
        } else {
            None
        }),
    decreases n,
{
    if n <= 0 {
        law_unmapping(g.stage, g.hidden_clients(g.workspaces.len() as int), None, w);
    } else {
        lemma_fills(g, n - 1, o, w);
        let p = n - 1;
        let s = g.outputs_laid(p);
        lemma_places(g, p);
        assert(g.outputs_laid(n) == g.output_laid(s, p));
        if p == o {
            let fs = g.outputs[o].fullscreen->0;
            let ws = g.workspaces[o][number_shown(g, o)];
            law_unmapping(s, ws.clients, Some(fs), w);
            let a = s.unmapped(ws.clients, Some(fs)).configured(
                Configure { window: fs, size: Some(g.outputs[o].size), tiled: true },
            );
            law_mapping(a, Placed { window: fs, x: g.outputs[o].x, y: g.outputs[o].y }, w);
        } else {
            law_laying(s, places_on(g, p), false, w);
            assert forall|j: int| 0 <= j < places_on(g, p).len() implies (#[trigger] places_on(
                g,
                p,
            )[j]).window != w by {
                if places_on(g, p)[j].window == w {
                    laws::law_one_place(g, w, o, number_shown(g, o), p, number_shown(g, p), 0);
                }
            }
        }
    }
}

/// A window that fills an output stands at its corner, and no other window of
/// its workspace is on the screen.
pub proof fn law_filling_window_is_alone(g: GateView, o: int, w: WindowId)
    requires
        g.wf(),
        stage::mapped_once(g.stage.space),
        0 <= o < g.outputs.len(),
        g.outputs[o].fullscreen is Some,
        forall|p: int|
            0 <= p < g.outputs.len() && p != o ==> (#[trigger] g.outputs[p]).fullscreen is None,
        g.in_ws(o, number_shown(g, o), g.outputs[o].fullscreen->0),
        g.in_ws(o, number_shown(g, o), w),
    ensures
        g.outputs[o].fullscreen == Some(w) ==> stage::place_of(g.laid_out().stage.space, w) == Some(
            Placed { window: w, x: g.outputs[o].x, y: g.outputs[o].y },
        ),
        g.outputs[o].fullscreen != Some(w) ==> stage::place_of(g.laid_out().stage.space, w) is None,
{
    reveal(GateView::laid_out);
    lemma_fills(g, g.outputs.len() as int, o, w);
}

proof fn lemma_configures_kept(s: StageView, gs: Seq<ClientGeometry>, c: Configure)
    requires
        s.configures.contains(c),
    ensures
        s.laid(gs, false).configures.contains(c),
    decreases gs.len(),
{
    if gs.len() > 0 {
        lemma_configures_kept(s, gs.drop_last(), c);
        let a = s.laid(gs.drop_last(), false);
        let b = s.laid(gs, false);
        let i = choose|i: int| 0 <= i < a.configures.len() && a.configures[i] == c;
        assert(b.configures[i] == c);
    }
}

proof fn lemma_asked(g: GateView, n: int, o: int, c: Configure)
    requires
        g.wf(),
        stage::mapped_once(g.stage.space),
        0 <= o < n <= g.outputs.len(),
        g.output_laid(g.outputs_laid(o), o).configures.contains(c),
    ensures
        g.outputs_laid(n).configures.contains(c),
    decreases n,
{
    if n - 1 > o {
        let p = n - 1;
        lemma_asked(g, p, o, c);
        lemma_places(g, p);
        let s = g.outputs_laid(p);
        assert(g.outputs_laid(n) == g.output_laid(s, p));
        match g.outputs[p].fullscreen {
            Some(fs) => {
                let i = choose|i: int| 0 <= i < s.configures.len() && s.configures[i] == c;
                assert(g.outputs_laid(n).configures[i] == c);
            },
            None => {
                lemma_configures_kept(s, places_on(g, p), c);
            },
        }
    }
}

/// A window that fills an output is asked to be as large as the output.
pub proof fn law_filling_window_is_large(g: GateView, o: int, fs: WindowId)
    requires
        g.wf(),
        stage::mapped_once(g.stage.space),
        0 <= o < g.outputs.len(),
        g.outputs[o].fullscreen == Some(fs),
    ensures
        g.laid_out().stage.configures.contains(
            Configure { window: fs, size: Some(g.outputs[o].size), tiled: true },
        ),
{
    reveal(GateView::laid_out);
    let c = Configure { window: fs, size: Some(g.outputs[o].size), tiled: true };
    let s = g.outputs_laid(o);
    let t = g.output_laid(s, o);
    assert(t.configures[s.configures.len() as int] == c);
    lemma_asked(g, g.outputs.len() as int, o, c);
}

// ---- Scratchpads ------------------------------------------------------------

/// A scratchpad takes its share of the work area: without the gap on each side
/// it is as many percent as wide and as high as its settings ask, cut off to
/// whole pixels, and it stands in the middle. With at most all of the work area
/// it lies within it.
pub proof fn law_scratchpad_takes_its_share(g: GateView, s: int)
    requires
        g.wf(),
        0 <= s < g.scratchpads.len(),
        s < g.config.scratchpads@.len(),
        g.scratchpads[s].output_idx < g.outputs.len(),
        ({
            let area = g.outputs[g.scratchpads[s].output_idx as int].workarea;
            let c = g.config.scratchpads@[s];
            area.w * c.width_pct < 0x100_0000 && area.h * c.height_pct < 0x100_0000
        }),
    ensures
        ({
            let area = g.outputs[g.scratchpads[s].output_idx as int].workarea;
            let c = g.config.scratchpads@[s];
            let gap = g.scratchpads[s].workspace.gap_px;
            let r = g.scratchpad_rect(s);
            let left = r.x + gap;
            let right = r.x + r.w - gap;
            let top = r.y + gap;
            let bottom = r.y + r.h - gap;
            &&& right - left == (area.w * c.width_pct) / 100
            &&& bottom - top == (area.h * c.height_pct) / 100
            &&& -1 <= (left - area.x) - (area.x + area.w - right) <= 1
            &&& -1 <= (top - area.y) - (area.y + area.h - bottom) <= 1
            &&& c.width_pct <= 100 && c.height_pct <= 100 ==> {
                &&& area.x <= left <= right <= area.x + area.w
                &&& area.y <= top <= bottom <= area.y + area.h
            }
        }),
{
    let o = g.scratchpads[s].output_idx as int;
    assert(state::output_ok(g.outputs[o]));
    let area = g.outputs[o].workarea;
    let c = g.config.scratchpads@[s];
    assert(state::ws_ok(g.scratchpads[s].workspace));
    ratio::law_percent_is_a_share(area.w as nat, c.width_pct as nat);
    ratio::law_percent_is_a_share(area.h as nat, c.height_pct as nat);
    assert(c.width_pct <= 100 ==> area.w * c.width_pct <= area.w * 100) by (nonlinear_arith)
        requires
            area.w >= 0,
    ;
    assert(c.height_pct <= 100 ==> area.h * c.height_pct <= area.h * 100) by (nonlinear_arith)
        requires
            area.h >= 0,
    ;
    assert(0 <= area.w * c.width_pct && 0 <= area.h * c.height_pct) by (nonlinear_arith)
        requires
            area.w >= 0,
            area.h >= 0,
    ;
}

/// When a visible scratchpad is laid out, its windows go where the layout puts
/// them in the rectangle of the scratchpad, and no other window moves; the last
/// of them that the layout shows is on top. One that is not visible stays
/// away.
pub proof fn law_scratchpad_windows_in_place(g: GateView, s: int, w: WindowId)
    requires
        g.wf(),
        stage::mapped_once(g.stage.space),
        0 <= s < g.scratchpads.len(),
        s < g.config.scratchpads@.len(),
    ensures
        ({
            let ws = g.scratchpads[s].workspace;
            let gs = layout::layout_of(
                ws,
                ws.clients.map_values(|w: WindowId| state::size_of(g.windows, w)),
                g.scratchpad_rect(s),
                g.config.general.border_px as int,
            );
            let h = g.scratchpad_laid(s);
            let at = stage::place_of(h.stage.space, w);
            &&& !g.scratchpads[s].visible ==> h == g
            &&& g.scratchpads[s].visible ==> {
                &&& forall|k: int|
                    0 <= k < gs.len() && (#[trigger] gs[k]).window == w ==> {
                        &&& gs[k].visible ==> at == Some(
                            Placed { window: w, x: gs[k].rect.x, y: gs[k].rect.y },
                        ) && h.stage.configures.contains(
                            Configure {
                                window: w,
                                size: Some(Size { w: gs[k].rect.w, h: gs[k].rect.h }),
                                tiled: true,
                            },
                        )
                        &&& !gs[k].visible ==> at is None
                    }
                &&& !ws.clients.contains(w) ==> at == stage::place_of(g.stage.space, w)
                &&& gs.len() > 0 && gs.last().visible ==> h.stage.space.last().window
                    == gs.last().window
            }
        }),
{
    reveal(GateView::scratchpad_laid);
    let ws = g.scratchpads[s].workspace;
    assert(state::ws_ok(ws));
    let asked = ws.clients.map_values(|w: WindowId| state::size_of(g.windows, w));
    assert(asked =~= state::sizes_of(g.windows, ws.clients));
    let r = g.scratchpad_rect(s);
    let b = g.config.general.border_px as int;
    let gs = layout::layout_of(ws, asked, r, b);
    layout::law_every_window_has_a_place(ws, asked, r, b);
    let cleared = StageView {
        base: stage::without(g.stage.base, ws.clients, None),
        scratchpad_border_rects: Seq::empty(),
        ..g.stage
    };
    law_laying(cleared, gs, true, w);
    let laid = cleared.laid(gs, true);
    law_raising_all(laid, gs, w);
    if gs.len() > 0 {
        law_laying(cleared, gs, true, gs.last().window);
        assert(gs[gs.len() - 1].window == gs.last().window);
    }
    if !ws.clients.contains(w) {
        assert forall|k: int| 0 <= k < gs.len() implies (#[trigger] gs[k]).window != w by {}
    }
}

} // verus!
