//! What the requests of tools do, and what the tools are told.

use vstd::prelude::*;

use crate::gate::config;
use crate::gate::config::{BindAction, BindConfig, ModMask};
use crate::gate::keys;
use crate::gate::layout::ClientGeometry;
use crate::gate::places;
use crate::gate::requests;
use crate::gate::stage;
use crate::gate::state;
use crate::gate::state::GateView;
use crate::gate::workspace::WindowId;
use crate::geometry::Rect;
use crate::ipc::message::{
    OutputInfo, Request, Response, WindowGeometry, WindowGeometryView,
};

verus! {

// ---- Requests ---------------------------------------------------------------

/// A request for something that a key can be bound to does what that key does.
pub proof fn law_request_acts_as_key(
    g: GateView,
    r: Request,
    path: Seq<char>,
    binds: Seq<BindConfig>,
    syms: Seq<u32>,
    mods: ModMask,
    i: int,
)
    requires
        keys::answers(g, binds, syms, mods, i),
        match r {
            Request::ViewWorkspace { index } => binds[i].action == BindAction::ViewWs(index),
            Request::SendToWorkspace { index } => binds[i].action == BindAction::SendWs(index),
            Request::FocusNext => binds[i].action is FocusNext,
            Request::FocusPrev => binds[i].action is FocusPrev,
            Request::KillClient => binds[i].action is KillClient,
            Request::Spawn { command } => binds[i].action matches BindAction::Exec(line) && line@
                == command@,
            Request::Reload => binds[i].action is Reload,
            _ => false,
        },
    ensures
        g.requested(r, path) == g.key_handled(syms, mods, true),
{
    keys::lemma_answer(g, binds, syms, mods, i);
}

/// News of another theme makes the settings be read again; news of another
/// wallpaper asks for that picture. Nothing else changes.
pub proof fn law_news_are_noted(g: GateView, r: Request, path: Seq<char>)
    ensures
        r is ThemeChanged ==> g.requested(r, path) == (GateView { reload_requested: true, ..g }),
        r matches Request::WallpaperChanged { path: picture } ==> g.requested(r, path)
            == (GateView { wallpaper_requested: Some(picture@), ..g }),
{
}

/// A request for a screenshot puts one last in the queue, and changes nothing
/// else: of everything, of the region, or of the output with the name, and for
/// the file that the answer names.
pub proof fn law_screenshots_are_queued(
    g: GateView,
    r: Request,
    path: Seq<char>,
    a: Response,
    o: usize,
)
    requires
        g.answered(r, path, a),
        match r {
            Request::Screenshot => true,
            Request::ScreenshotRegion { x, y, w, h } => true,
            Request::ScreenshotOutput { name } => {
                &&& o < g.outputs.len()
                &&& g.outputs[o as int].name == name@
                &&& forall|p: int| 0 <= p < o ==> (#[trigger] g.outputs[p]).name != name@
            },
            _ => false,
        },
    ensures
        ({
            let h = g.requested(r, path);
            let s = h.screenshots.last();
            &&& h == (GateView { screenshots: g.screenshots.push(s), ..g })
            &&& a matches Response::ScreenshotDone { path: told } && s.path == told@
            &&& r is Screenshot ==> s.output_idx is None && s.region is None
            &&& r matches Request::ScreenshotRegion { x, y, w, h } ==> s.output_idx is None
                && s.region == Some(Rect { x, y, w, h })
            &&& r is ScreenshotOutput ==> s.output_idx == Some(o) && s.region is None
        }),
{
    match r {
        Request::ScreenshotOutput { name } => {
            lemma_output_named(g, name@, 0, o as int);
        },
        _ => {},
    }
    assert(g.requested(r, path).screenshots =~= g.screenshots.push(
        g.requested(r, path).screenshots.last(),
    ));
}

proof fn lemma_output_named(g: GateView, name: Seq<char>, i: int, o: int)
    requires
        0 <= i <= o < g.outputs.len(),
        g.outputs[o].name == name,
        forall|p: int| i <= p < o ==> (#[trigger] g.outputs[p]).name != name,
    ensures
        g.output_named(name, i) == o,
    decreases o - i,
{
    if i < o {
        lemma_output_named(g, name, i + 1, o);
    }
}

// ---- Workspaces and the focused window --------------------------------------

/// A tool that asks for the workspaces is told which of those of the focused
/// output hold windows, and which one is current.
pub proof fn law_workspaces_are_told(g: GateView, path: Seq<char>, a: Response)
    requires
        g.focused_output < g.workspaces.len(),
        g.answered(Request::GetWorkspaces, path, a),
    ensures
        a matches Response::Workspaces { current, occupied } && {
            let pool = g.workspaces[g.focused_output as int];
            &&& current == g.current_ws
            &&& occupied@.len() == pool.len()
            &&& forall|k: int|
                0 <= k < pool.len() ==> (#[trigger] occupied@[k] <==> pool[k].clients.len() > 0)
        },
{
}

/// A tool that asks for the focused window is told the title and the
/// application in the entry of that window.
pub proof fn law_focused_window_is_told(
    g: GateView,
    path: Seq<char>,
    a: Response,
    w: WindowId,
    i: int,
)
    requires
        g.focused_output < g.workspaces.len(),
        g.current_ws < g.workspaces[g.focused_output as int].len(),
        g.workspaces[g.focused_output as int][g.current_ws as int].focused_window() == Some(w),
        0 <= i < g.windows.len(),
        g.windows[i].id == w,
        forall|j: int| 0 <= j < i ==> (#[trigger] g.windows[j]).id != w,
        g.answered(Request::GetActiveWindow, path, a),
    ensures
        a matches Response::ActiveWindow { title, app_id } && title@ == g.windows[i].title@
            && app_id@ == g.windows[i].app_id@,
{
    places::law_size_is_looked_up(g.windows, w, i);
}

// ---- Outputs ----------------------------------------------------------------

/// A tool that asks for the outputs is told of each of them, in their order,
/// where it stands and how large it is, and whether it is primary, which the
/// first entry of the settings for it decides.
pub proof fn law_outputs_are_told(g: GateView, path: Seq<char>, a: Response, k: int, m: int)
    requires
        g.outputs.len() > 0,
        g.order.len() == g.outputs.len(),
        0 <= k < g.order.len(),
        g.order[k] < g.outputs.len(),
        g.answered(Request::GetOutputs, path, a),
        0 <= m <= g.config.monitors@.len(),
        m < g.config.monitors@.len() ==> g.config.monitors@[m].name@
            == g.outputs[g.order[k] as int].name,
        forall|n: int|
            0 <= n < m ==> (#[trigger] g.config.monitors@[n]).name@
                != g.outputs[g.order[k] as int].name,
    ensures
        a matches Response::Outputs { outputs } && outputs@.len() == g.outputs.len() && {
            let told = outputs@[k];
            let out = g.outputs[g.order[k] as int];
            &&& told.name@ == out.name
            &&& told.width == out.size.w
            &&& told.height == out.size.h
            &&& told.x == out.x
            &&& told.y == out.y
            &&& told.primary <==> m < g.config.monitors@.len() && g.config.monitors@[m].primary
        },
{
    let outputs = a->outputs;
    let infos = outputs@.map_values(|o: OutputInfo| o@);
    assert(infos == g.output_infos());
    assert(infos[k] == outputs@[k]@);
    assert(g.output_infos()[k] == g.output_info(g.order[k] as int));
    lemma_monitor(g.config.monitors@, g.outputs[g.order[k] as int].name, 0, m);
}

proof fn lemma_monitor(ms: Seq<config::MonitorConfig>, name: Seq<char>, i: int, m: int)
    requires
        0 <= i <= m <= ms.len(),
        m < ms.len() ==> ms[m].name@ == name,
        forall|n: int| i <= n < m ==> (#[trigger] ms[n]).name@ != name,
    ensures
        config::monitor_from(ms, name, i) == m,
    decreases m - i,
{
    if i < m {
        lemma_monitor(ms, name, i + 1, m);
    }
}

/// A tool that asks for the theme is told the colours of the settings, the
/// height and the background of the bar, and the borders.
pub proof fn law_theme_is_told(g: GateView, path: Seq<char>, a: Response)
    requires
        g.answered(Request::GetTheme, path, a),
        0 <= g.config.bar.height <= u16::MAX,
        g.config.general.border_px <= u16::MAX,
        g.config.general.border_radius <= u16::MAX,
    ensures
        a matches Response::Theme { colors } && {
            let t = g.config.theme;
            let general = g.config.general;
            &&& (colors.bg, colors.surface, colors.text, colors.text_muted) == (
                t.bg,
                t.surface,
                t.text,
                t.text_muted,
            )
            &&& (colors.accent, colors.accent_soft, colors.border) == (
                t.accent,
                t.accent_soft,
                t.border,
            )
            &&& colors.bar_height matches Some(h) && h == g.config.bar.height
            &&& colors.bar_background == Some(g.config.bar.background)
            &&& colors.bar_background_alpha == Some(g.config.bar.background_alpha)
            &&& colors.border_px matches Some(b) && b == (if general.border_px > 0 {
                general.border_px as int
            } else {
                0
            })
            &&& colors.border_radius matches Some(b) && b == (if general.border_radius > 0 {
                general.border_radius as int
            } else {
                0
            })
            &&& colors.border_tile_path == general.border_tile
            &&& general.font@.len() == 0 ==> colors.font_family is None
            &&& general.font@.len() > 0 ==> colors.font_family == Some(general.font)
        },
{
}

// ---- Windows ----------------------------------------------------------------

/// The list that tools are told of has a window at a place in it.
pub open spec fn tells(
    g: GateView,
    windows: Seq<WindowGeometryView>,
    w: WindowId,
    r: Rect,
) -> bool {
    exists|k: int|
        0 <= k < windows.len() && (#[trigger] windows[k]).x == r.x && windows[k].y == r.y
            && windows[k].w == r.w && windows[k].h == r.h && windows[k].title == state::title_of(
            g.windows,
            w,
        ) && windows[k].app_id == state::app_of(g.windows, w)
}

proof fn lemma_all_outputs_told(g: GateView, n: int, o: int, k: int)
    requires
        0 <= o < n,
        0 <= k < g.output_told(o).len(),
    ensures
        exists|j: int|
            0 <= j < g.outputs_told(n).len() && #[trigger] g.outputs_told(n)[j] == g.output_told(
                o,
            )[k],
    decreases n,
{
    let before = g.outputs_told(n - 1);
    if o == n - 1 {
        assert(g.outputs_told(n)[before.len() + k] == g.output_told(o)[k]);
    } else {
        lemma_all_outputs_told(g, n - 1, o, k);
        let j = choose|j: int|
            0 <= j < before.len() && #[trigger] before[j] == g.output_told(o)[k];
        assert(g.outputs_told(n)[j] == g.output_told(o)[k]);
    }
}

proof fn lemma_visible(gs: Seq<ClientGeometry>, k: int) -> (j: int)
    requires
        0 <= k < gs.len(),
        gs[k].visible,
    ensures
        0 <= j < requests::visible_of(gs).len(),
        requests::visible_of(gs)[j] == gs[k],
    decreases gs.len(),
{
    if k == gs.len() - 1 {
        requests::visible_of(gs.drop_last()).len() as int
    } else {
        lemma_visible(gs.drop_last(), k)
    }
}

/// Tools are told of every visible window of a workspace in view, where the
/// layout has put it.
pub proof fn law_windows_in_view_are_told(
    g: GateView,
    path: Seq<char>,
    a: Response,
    o: int,
    k: int,
)
    requires
        g.wf(),
        0 <= o < g.outputs.len(),
        g.outputs[o].fullscreen is None,
        0 <= k < places::places_on(g, o).len(),
        places::places_on(g, o)[k].visible,
        g.answered(Request::GetWindowGeometries, path, a),
    ensures
        a matches Response::WindowGeometries { windows } && tells(
            g,
            windows@.map_values(|w: WindowGeometry| w@),
            places::places_on(g, o)[k].window,
            places::places_on(g, o)[k].rect,
        ),
{
    let n = g.outputs.len() as int;
    let q = places::places_on(g, o)[k];
    places::lemma_places(g, o);
    let ws = g.workspaces[o][g.effective_ws(o)];
    assert(state::sizes_of(g.windows, ws.clients) =~= ws.clients.map_values(
        |w: WindowId| state::size_of(g.windows, w),
    ));
    let gs = places::places_on(g, o);
    let j = lemma_visible(gs, k);
    let t = requests::told(g.windows, q.window, q.rect);
    assert(g.output_told(o)[j] == t);
    lemma_all_outputs_told(g, n, o, j);
    let i = choose|i: int| 0 <= i < g.outputs_told(n).len() && #[trigger] g.outputs_told(n)[i] == t;
    assert(g.outputs_told(n)[i].x == q.rect.x);
}

/// Of an output that a window fills, tools are told of that window alone, as
/// large as the output.
pub proof fn law_filling_window_is_told(g: GateView, path: Seq<char>, a: Response, o: int)
    requires
        0 <= o < g.outputs.len(),
        g.outputs[o].fullscreen is Some,
        g.answered(Request::GetWindowGeometries, path, a),
    ensures
        g.output_told(o).len() == 1,
        a matches Response::WindowGeometries { windows } && tells(
            g,
            windows@.map_values(|w: WindowGeometry| w@),
            g.outputs[o].fullscreen->0,
            Rect {
                x: g.outputs[o].x,
                y: g.outputs[o].y,
                w: g.outputs[o].size.w,
                h: g.outputs[o].size.h,
            },
        ),
{
    let n = g.outputs.len() as int;
    lemma_all_outputs_told(g, n, o, 0);
    let t = g.output_told(o)[0];
    let i = choose|i: int| 0 <= i < g.outputs_told(n).len() && #[trigger] g.outputs_told(n)[i] == t;
    assert(g.outputs_told(n)[i].x == g.outputs[o].x);
}

proof fn lemma_mapped_told(g: GateView, ws: Seq<WindowId>, c: int) -> (j: int)
    requires
        0 <= c < ws.len(),
        stage::place_of(g.stage.space, ws[c]) is Some,
    ensures
        0 <= j < requests::mapped_told(g, ws).len(),
        ({
            let p = stage::place_of(g.stage.space, ws[c])->0;
            let z = state::size_of(g.windows, ws[c]);
            requests::mapped_told(g, ws)[j] == requests::told(
                g.windows,
                ws[c],
                Rect { x: p.x, y: p.y, w: z.w, h: z.h },
            )
        }),
    decreases ws.len(),
{
    if c == ws.len() - 1 {
        requests::mapped_told(g, ws.drop_last()).len() as int
    } else {
        lemma_mapped_told(g, ws.drop_last(), c)
    }
}

proof fn lemma_pads_told(g: GateView, o: int, n: int, s: int, c: int) -> (j: int)
    requires
        0 <= s < n <= g.scratchpads.len(),
        g.scratchpads[s].visible,
        !g.scratchpads[s].hiding,
        g.scratchpads[s].output_idx == o,
        0 <= c < g.scratchpads[s].workspace.clients.len(),
        stage::place_of(g.stage.space, g.scratchpads[s].workspace.clients[c]) is Some,
    ensures
        0 <= j < g.pads_told(o, n).len(),
        ({
            let w = g.scratchpads[s].workspace.clients[c];
            let p = stage::place_of(g.stage.space, w)->0;
            let z = state::size_of(g.windows, w);
            g.pads_told(o, n)[j] == requests::told(
                g.windows,
                w,
                Rect { x: p.x, y: p.y, w: z.w, h: z.h },
            )
        }),
    decreases n,
{
    if s == n - 1 {
        let j = lemma_mapped_told(g, g.scratchpads[s].workspace.clients, c);
        g.pads_told(o, n - 1).len() + j
    } else {
        lemma_pads_told(g, o, n - 1, s, c)
    }
}

/// Tools are told of every window on the screen of a scratchpad in front, where
/// it stands and as large as it is.
pub proof fn law_scratchpad_windows_are_told(
    g: GateView,
    path: Seq<char>,
    a: Response,
    o: int,
    s: int,
    c: int,
)
    requires
        0 <= o < g.outputs.len(),
        g.outputs[o].fullscreen is None,
        0 <= s < g.scratchpads.len(),
        g.scratchpads[s].visible,
        !g.scratchpads[s].hiding,
        g.scratchpads[s].output_idx == o,
        0 <= c < g.scratchpads[s].workspace.clients.len(),
        stage::place_of(g.stage.space, g.scratchpads[s].workspace.clients[c]) is Some,
        g.answered(Request::GetWindowGeometries, path, a),
    ensures
        ({
            let w = g.scratchpads[s].workspace.clients[c];
            let p = stage::place_of(g.stage.space, w)->0;
            let z = state::size_of(g.windows, w);
            a matches Response::WindowGeometries { windows } && tells(
                g,
                windows@.map_values(|w: WindowGeometry| w@),
                w,
                Rect { x: p.x, y: p.y, w: z.w, h: z.h },
            )
        }),
{
    let n = g.outputs.len() as int;
    let j = lemma_pads_told(g, o, g.scratchpads.len() as int, s, c);
    let pads = g.pads_told(o, g.scratchpads.len() as int);
    let head = g.output_told(o).len() - pads.len();
    assert(g.output_told(o)[head + j] == pads[j]);
    lemma_all_outputs_told(g, n, o, head + j);
    let i = choose|i: int|
        0 <= i < g.outputs_told(n).len() && #[trigger] g.outputs_told(n)[i] == pads[j];
    assert(g.outputs_told(n)[i].x == pads[j].x);
}

} // verus!
