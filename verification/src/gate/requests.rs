//! Answering the tools.

use vstd::prelude::*;

use crate::gate::actions::Action;
use crate::gate::arrange::{window_info, window_size, window_sizes};
use crate::gate::config;
use crate::gate::config::{find_monitor, Config};
use crate::gate::layout;
use crate::gate::layout::{layout_workspace, ClientGeometry};
use crate::gate::stage;
use crate::gate::state;
use crate::gate::state::{
    Gate, GateView, OutputState, PendingScreenshot, ScratchpadState, ScreenshotView, WindowInfo,
};
use crate::gate::workspace::{WindowId, Workspace, WORKSPACE_COUNT};
use crate::geometry;
use crate::geometry::{max_i32, Rect, Size};
use crate::ipc::message::{
    OutputInfo, OutputInfoView, Request, Response, ThemeColors, WindowGeometry, WindowGeometryView,
};
use crate::text;
use crate::text::eq_str;

verus! {

// ---- Screenshots ------------------------------------------------------------

/// The file name of a screenshot that is taken at a time, given in nanoseconds
/// since the epoch: the seconds, the rest of the nanoseconds in nine digits,
/// and a number that no other screenshot of the session has.
pub open spec fn screenshot_name_of(time_ns: nat, number: nat) -> Seq<char> {
    "kara-screenshot-"@ + text::decimal(time_ns / 1_000_000_000) + "-"@ + text::padded_decimal(
        time_ns % 1_000_000_000,
        9,
    ) + "-"@ + text::decimal(number) + ".png"@
}

/// The file name of a screenshot.
pub fn screenshot_name(time_ns: u64, number: u64) -> (out: String)
    ensures
        out@ == screenshot_name_of(time_ns as nat, number as nat),
{
    let mut out: String = "kara-screenshot-".to_owned();
    text::push_decimal(&mut out, time_ns / 1_000_000_000);
    out.push_str("-");
    text::push_padded(&mut out, time_ns % 1_000_000_000, 9);
    out.push_str("-");
    text::push_decimal(&mut out, number);
    out.push_str(".png");
    out
}

// ---- The answers ------------------------------------------------------------

/// Whether a request is about what an output shows, so that there has to be
/// one.
pub open spec fn moves_focus(r: Request) -> bool {
    match r {
        Request::ViewWorkspace { index } => index < WORKSPACE_COUNT,
        Request::SendToWorkspace { index } => index < WORKSPACE_COUNT,
        Request::FocusNext => true,
        Request::FocusPrev => true,
        _ => false,
    }
}

/// Whether a request is about what an output shows.
pub fn needs_output(r: &Request) -> (b: bool)
    ensures
        b == moves_focus(*r),
{
    match r {
        Request::ViewWorkspace { index } => *index < WORKSPACE_COUNT,
        Request::SendToWorkspace { index } => *index < WORKSPACE_COUNT,
        Request::FocusNext => true,
        Request::FocusPrev => true,
        _ => false,
    }
}

/// The text of the answer to a request for an output that there is not.
pub open spec fn no_output_text(name: Seq<char>) -> Seq<char> {
    "no connected output named '"@ + name + "'"@
}

/// The visible ones of some geometries.
pub open spec fn visible_of(gs: Seq<ClientGeometry>) -> Seq<ClientGeometry>
    decreases gs.len(),
{
    if gs.len() == 0 {
        Seq::empty()
    } else if gs.last().visible {
        visible_of(gs.drop_last()).push(gs.last())
    } else {
        visible_of(gs.drop_last())
    }
}

/// A window at a place, as tools are told of it.
pub open spec fn told(ws: Seq<WindowInfo>, w: WindowId, r: Rect) -> WindowGeometryView {
    WindowGeometryView {
        app_id: state::app_of(ws, w),
        title: state::title_of(ws, w),
        x: r.x,
        y: r.y,
        w: r.w,
        h: r.h,
    }
}

/// The mapped ones of some windows, as tools are told of them.
pub open spec fn mapped_told(g: GateView, clients: Seq<WindowId>) -> Seq<WindowGeometryView>
    decreases clients.len(),
{
    if clients.len() == 0 {
        Seq::empty()
    } else {
        let rest = mapped_told(g, clients.drop_last());
        let w = clients.last();
        let size = state::size_of(g.windows, w);
        match stage::place_of(g.stage.space, w) {
            Some(p) => rest.push(
                told(g.windows, w, Rect { x: p.x, y: p.y, w: size.w, h: size.h }),
            ),
            None => rest,
        }
    }
}

impl GateView {
    /// The windows of the first `n` scratchpads that are in front on output
    /// `o`.
    pub open spec fn pads_told(self, o: int, n: int) -> Seq<WindowGeometryView>
        decreases n,
    {
        if n <= 0 {
            Seq::empty()
        } else {
            let sp = self.scratchpads[n - 1];
            if sp.visible && !sp.hiding && sp.output_idx == o {
                self.pads_told(o, n - 1) + mapped_told(self, sp.workspace.clients)
            } else {
                self.pads_told(o, n - 1)
            }
        }
    }

    /// The windows that can be seen on output `o`: the one that fills it, or
    /// those of the workspace that it shows and then those of its scratchpads.
    pub open spec fn output_told(self, o: int) -> Seq<WindowGeometryView> {
        let out = self.outputs[o];
        let ws = self.workspaces[o][self.effective_ws(o)];
        match out.fullscreen {
            Some(fs) => seq![
                told(self.windows, fs, Rect { x: out.x, y: out.y, w: out.size.w, h: out.size.h }),
            ],
            None => visible_of(
                layout::layout_of(
                    ws,
                    state::sizes_of(self.windows, ws.clients),
                    out.workarea,
                    self.config.general.border_px as int,
                ),
            ).map_values(|g: ClientGeometry| told(self.windows, g.window, g.rect))
                + self.pads_told(o, self.scratchpads.len() as int),
        }
    }

    /// The windows that can be seen on the first `n` outputs.
    pub open spec fn outputs_told(self, n: int) -> Seq<WindowGeometryView>
        decreases n,
    {
        if n <= 0 {
            Seq::empty()
        } else {
            self.outputs_told(n - 1) + self.output_told(n - 1)
        }
    }

    /// The outputs in the order in which tools are told of them: that of the
    /// settings where it is complete.
    pub open spec fn told_order(self) -> Seq<usize> {
        if self.order.len() == self.outputs.len() {
            self.order
        } else {
            Seq::new(self.outputs.len(), |i: int| i as usize)
        }
    }

    /// An output, as tools are told of it.
    pub open spec fn output_info(self, o: int) -> OutputInfoView {
        let out = self.outputs[o];
        OutputInfoView {
            name: out.name,
            width: out.size.w,
            height: out.size.h,
            x: out.x,
            y: out.y,
            primary: config::marked_primary(self.config.monitors@, out.name),
        }
    }

    /// What tools are told of the outputs. Without any, they are told of one
    /// that stands for the window of a development session.
    pub open spec fn output_infos(self) -> Seq<OutputInfoView> {
        if self.outputs.len() == 0 {
            let size = self.output_size();
            seq![
                OutputInfoView {
                    name: "winit"@,
                    width: size.w,
                    height: size.h,
                    x: 0,
                    y: 0,
                    primary: true,
                },
            ]
        } else {
            self.told_order().map_values(|o: usize| self.output_info(o as int))
        }
    }

    /// The focused window of the current workspace of the focused output.
    pub open spec fn current_window(self) -> Option<WindowId> {
        if self.focused_output < self.workspaces.len() && self.current_ws
            < self.workspaces[self.focused_output as int].len() {
            self.workspaces[self.focused_output as int][self.current_ws as int].focused_window()
        } else {
            None
        }
    }

    /// Which workspaces of the focused output hold windows.
    pub open spec fn occupied_list(self) -> Seq<bool> {
        if self.focused_output < self.workspaces.len() {
            self.workspaces[self.focused_output as int].map_values(
                |v: crate::gate::workspace::WorkspaceView| v.clients.len() > 0,
            )
        } else {
            Seq::empty()
        }
    }

    /// The first output at or after `o` with the name; the length where there
    /// is none.
    pub open spec fn output_named(self, name: Seq<char>, o: int) -> int
        decreases self.outputs.len() - o,
    {
        if o >= self.outputs.len() {
            self.outputs.len() as int
        } else if self.outputs[o].name == name {
            o
        } else {
            self.output_named(name, o + 1)
        }
    }

    /// The state with one more screenshot to take.
    pub open spec fn shooting(self, s: ScreenshotView) -> GateView {
        GateView { screenshots: self.screenshots.push(s), ..self }
    }

    /// The state after a request. `path` is where a screenshot goes.
    pub open spec fn requested(self, r: Request, path: Seq<char>) -> GateView {
        match r {
            Request::ViewWorkspace { index } => self.dispatched(Action::ViewWs(index)),
            Request::SendToWorkspace { index } => self.dispatched(Action::SendWs(index)),
            Request::FocusNext => self.dispatched(Action::FocusNext),
            Request::FocusPrev => self.dispatched(Action::FocusPrev),
            Request::KillClient => self.dispatched(Action::KillClient),
            Request::Spawn { command } => self.dispatched(Action::SpawnRaw(command)),
            Request::Reload => GateView { reload_requested: true, ..self },
            Request::ThemeChanged { theme_name } => GateView { reload_requested: true, ..self },
            Request::WallpaperChanged { path } => GateView {
                wallpaper_requested: Some(path@),
                ..self
            },
            Request::Screenshot => self.shooting(
                ScreenshotView { path, output_idx: None, region: None },
            ),
            Request::ScreenshotRegion { x, y, w, h } => self.shooting(
                ScreenshotView { path, output_idx: None, region: Some(Rect { x, y, w, h }) },
            ),
            Request::ScreenshotOutput { name } => {
                let o = self.output_named(name@, 0);
                if o < self.outputs.len() {
                    self.shooting(
                        ScreenshotView { path, output_idx: Some(o as usize), region: None },
                    )
                } else {
                    self
                }
            },
            Request::GetWorkspaces => self,
            Request::GetActiveWindow => self,
            Request::GetOutputs => self,
            Request::GetTheme => self,
            Request::GetWindowGeometries => self,
            Request::Subscribe => self,
            Request::Unsubscribe => self,
        }
    }

    /// Whether `a` is the answer to a request.
    pub open spec fn answered(self, r: Request, path: Seq<char>, a: Response) -> bool {
        match r {
            Request::GetWorkspaces => a matches Response::Workspaces { current, occupied } && current
                == self.current_ws && occupied@ == self.occupied_list(),
            Request::GetActiveWindow => a matches Response::ActiveWindow { title, app_id } && (
            match self.current_window() {
                Some(w) => title@ == state::title_of(self.windows, w) && app_id@ == state::app_of(
                    self.windows,
                    w,
                ),
                None => title@.len() == 0 && app_id@.len() == 0,
            }),
            Request::GetOutputs => a matches Response::Outputs { outputs } && outputs@.map_values(
                |o: OutputInfo| o@,
            ) == self.output_infos(),
            Request::GetTheme => a matches Response::Theme { colors } && theme_told(
                self.config,
                colors,
            ),
            Request::GetWindowGeometries => a matches Response::WindowGeometries { windows }
                && windows@.map_values(|w: WindowGeometry| w@) == self.outputs_told(
                self.outputs.len() as int,
            ),
            Request::Screenshot => a matches Response::ScreenshotDone { path: p } && p@ == path,
            Request::ScreenshotRegion { x, y, w, h } => a matches Response::ScreenshotDone {
                path: p,
            } && p@ == path,
            Request::ScreenshotOutput { name } => if self.output_named(name@, 0)
                < self.outputs.len() {
                a matches Response::ScreenshotDone { path: p } && p@ == path
            } else {
                a matches Response::Error { message } && message@ == no_output_text(name@)
            },
            Request::ViewWorkspace { index } => a is Done,
            Request::SendToWorkspace { index } => a is Done,
            Request::FocusNext => a is Done,
            Request::FocusPrev => a is Done,
            Request::KillClient => a is Done,
            Request::Reload => a is Done,
            Request::Spawn { command } => a is Done,
            Request::ThemeChanged { theme_name } => a is Done,
            Request::WallpaperChanged { path } => a is Done,
            Request::Subscribe => a is Done,
            Request::Unsubscribe => a is Done,
        }
    }
}

/// Whether `c` holds the colours and measures of the settings.
pub open spec fn theme_told(config: Config, c: ThemeColors) -> bool {
    &&& c.bg == config.theme.bg
    &&& c.surface == config.theme.surface
    &&& c.text == config.theme.text
    &&& c.text_muted == config.theme.text_muted
    &&& c.accent == config.theme.accent
    &&& c.accent_soft == config.theme.accent_soft
    &&& c.border == config.theme.border
    &&& c.bar_height == Some(config.bar.height as u16)
    &&& c.bar_background == Some(config.bar.background)
    &&& c.bar_background_alpha == Some(config.bar.background_alpha)
    &&& c.border_px == Some(geometry::max(config.general.border_px as int, 0) as i32 as u16)
    &&& c.border_radius == Some(geometry::max(config.general.border_radius as int, 0) as i32 as u16)
    &&& c.border_tile_path == config.general.border_tile
    &&& c.font_family == (if config.general.font@.len() == 0 {
        None
    } else {
        Some(config.general.font)
    })
}

impl Gate {
    fn tell_window(&self, w: WindowId, r: Rect) -> (out: WindowGeometry)
        ensures
            out@ == told(self@.windows, w, r),
    {
        let (app_id, title): (String, String) = self.names_of(w);
        let out: WindowGeometry = WindowGeometry { app_id, title, x: r.x, y: r.y, w: r.w, h: r.h };
        assert(out@ =~= told(self@.windows, w, r));
        out
    }

    fn names_of(&self, w: WindowId) -> (out: (String, String))
        ensures
            out.0@ == state::app_of(self@.windows, w),
            out.1@ == state::title_of(self@.windows, w),
    {
        match window_info(&self.windows, w) {
            Some(i) => (
                text::copy_str(&self.windows[i].app_id),
                text::copy_str(&self.windows[i].title),
            ),
            None => (String::new(), String::new()),
        }
    }

    fn tell_mapped(&self, clients: &Vec<WindowId>, out: &mut Vec<WindowGeometry>)
        ensures
            final(out)@.map_values(|w: WindowGeometry| w@) == old(out)@.map_values(
                |w: WindowGeometry| w@,
            ) + mapped_told(self@, clients@),
    {
        let ghost start = out@.map_values(|w: WindowGeometry| w@);
        let mut i: usize = 0;
        assert(clients@.take(0) =~= Seq::<WindowId>::empty());
        assert(start =~= start + mapped_told(self@, clients@.take(0)));
        while i < clients.len()
            invariant
                i <= clients.len(),
                out@.map_values(|w: WindowGeometry| w@) == start + mapped_told(
                    self@,
                    clients@.take(i as int),
                ),
            decreases clients.len() - i,
        {
            let w: WindowId = clients[i];
            let ghost before = out@;
            assert(clients@.take(i + 1).drop_last() =~= clients@.take(i as int));
            match self.stage.location(w) {
                Some(p) => {
                    let size: Size = window_size(&self.windows, w);
                    let g: WindowGeometry = self.tell_window(
                        w,
                        Rect { x: p.x, y: p.y, w: size.w, h: size.h },
                    );
                    out.push(g);
                    assert(out@.map_values(|x: WindowGeometry| x@) =~= before.map_values(
                        |x: WindowGeometry| x@,
                    ).push(g@));
                    assert(out@.map_values(|x: WindowGeometry| x@) =~= start + mapped_told(
                        self@,
                        clients@.take(i + 1),
                    ));
                },
                None => {},
            }
            i = i + 1;
        }
        assert(clients@.take(i as int) =~= clients@);
    }

    fn tell_layout(&self, o: usize, out: &mut Vec<WindowGeometry>)
        requires
            self@.wf(),
            o < self@.outputs.len(),
        ensures
            ({
                let ws = self@.workspaces[o as int][self@.effective_ws(o as int)];
                final(out)@.map_values(|w: WindowGeometry| w@) == old(out)@.map_values(
                    |w: WindowGeometry| w@,
                ) + visible_of(
                    layout::layout_of(
                        ws,
                        state::sizes_of(self@.windows, ws.clients),
                        self@.outputs[o as int].workarea,
                        self@.config.general.border_px as int,
                    ),
                ).map_values(|g: ClientGeometry| told(self@.windows, g.window, g.rect))
            }),
    {
        let k: usize = self.effective_ws(o);
        assert(self@.outputs[o as int] == self.outputs@[o as int]@);
        assert(state::output_ok(self@.outputs[o as int]));
        assert(self@.workspaces[o as int] == state::pool_view(self.workspaces@[o as int]@));
        assert(self@.workspaces[o as int].len() == WORKSPACE_COUNT);
        assert(self@.workspaces[o as int][k as int] == self.workspaces@[o as int]@[k as int]@);
        assert(state::ws_ok(self@.workspaces[o as int][k as int]));
        let ws: &Workspace = &self.workspaces[o][k];
        let asked: Vec<Size> = window_sizes(&self.windows, &ws.clients);
        let gs: Vec<ClientGeometry> = layout_workspace(
            ws,
            &asked,
            self.outputs[o].workarea,
            self.config.general.border_px,
        );
        let ghost start = out@.map_values(|w: WindowGeometry| w@);
        let mut i: usize = 0;
        assert(gs@.take(0) =~= Seq::<ClientGeometry>::empty());
        assert(start =~= start + visible_of(gs@.take(0)).map_values(
            |g: ClientGeometry| told(self@.windows, g.window, g.rect),
        ));
        while i < gs.len()
            invariant
                i <= gs.len(),
                out@.map_values(|w: WindowGeometry| w@) == start + visible_of(
                    gs@.take(i as int),
                ).map_values(|g: ClientGeometry| told(self@.windows, g.window, g.rect)),
            decreases gs.len() - i,
        {
            let ghost before = out@;
            assert(gs@.take(i + 1).drop_last() =~= gs@.take(i as int));
            if gs[i].visible {
                let g: WindowGeometry = self.tell_window(gs[i].window, gs[i].rect);
                out.push(g);
                assert(out@.map_values(|x: WindowGeometry| x@) =~= before.map_values(
                    |x: WindowGeometry| x@,
                ).push(g@));
                assert(out@.map_values(|x: WindowGeometry| x@) =~= start + visible_of(
                    gs@.take(i + 1),
                ).map_values(|g: ClientGeometry| told(self@.windows, g.window, g.rect)));
            }
            i = i + 1;
        }
        assert(gs@.take(i as int) =~= gs@);
    }

    fn tell_pads(&self, o: usize, out: &mut Vec<WindowGeometry>)
        ensures
            final(out)@.map_values(|w: WindowGeometry| w@) == old(out)@.map_values(
                |w: WindowGeometry| w@,
            ) + self@.pads_told(o as int, self@.scratchpads.len() as int),
    {
        let ghost start = out@.map_values(|w: WindowGeometry| w@);
        let mut s: usize = 0;
        assert(start =~= start + self@.pads_told(o as int, 0));
        while s < self.scratchpads.len()
            invariant
                s <= self.scratchpads.len(),
                out@.map_values(|w: WindowGeometry| w@) == start + self@.pads_told(
                    o as int,
                    s as int,
                ),
            decreases self.scratchpads.len() - s,
        {
            let sp: &ScratchpadState = &self.scratchpads[s];
            assert(self@.scratchpads[s as int] == self.scratchpads@[s as int]@);
            if sp.visible && !sp.hiding && sp.output_idx == o {
                self.tell_mapped(&sp.workspace.clients, out);
                assert(out@.map_values(|w: WindowGeometry| w@) =~= start + self@.pads_told(
                    o as int,
                    s + 1,
                ));
            }
            s = s + 1;
        }
    }

    /// The windows that can be seen, in the coordinates of the whole desktop.
    pub fn window_geometries(&self) -> (out: Vec<WindowGeometry>)
        requires
            self@.wf(),
        ensures
            out@.map_values(|w: WindowGeometry| w@) == self@.outputs_told(
                self@.outputs.len() as int,
            ),
    {
        let mut out: Vec<WindowGeometry> = Vec::new();
        let mut o: usize = 0;
        assert(out@.map_values(|w: WindowGeometry| w@) =~= self@.outputs_told(0));
        while o < self.outputs.len()
            invariant
                o <= self.outputs.len(),
                self@.wf(),
                out@.map_values(|w: WindowGeometry| w@) == self@.outputs_told(o as int),
            decreases self.outputs.len() - o,
        {
            let ghost before = out@;
            let ghost start = out@.map_values(|w: WindowGeometry| w@);
            assert(self@.outputs[o as int] == self.outputs@[o as int]@);
            match self.outputs[o].fullscreen_window {
                Some(fs) => {
                    let r: Rect = Rect {
                        x: self.outputs[o].x,
                        y: self.outputs[o].y,
                        w: self.outputs[o].size.w,
                        h: self.outputs[o].size.h,
                    };
                    let g: WindowGeometry = self.tell_window(fs, r);
                    out.push(g);
                    assert(out@.map_values(|w: WindowGeometry| w@) =~= start.push(g@));
                    assert(start.push(g@) =~= start + seq![g@]);
                },
                None => {
                    self.tell_layout(o, &mut out);
                    self.tell_pads(o, &mut out);
                },
            }
            assert(out@.map_values(|w: WindowGeometry| w@) =~= start + self@.output_told(o as int));
            o = o + 1;
        }
        out
    }

    fn tell_output(&self, o: usize) -> (out: OutputInfo)
        requires
            o < self@.outputs.len(),
        ensures
            out@ == self@.output_info(o as int),
    {
        let s: &OutputState = &self.outputs[o];
        assert(self@.outputs[o as int] == self.outputs@[o as int]@);
        let primary: bool = match find_monitor(&self.config.monitors, s.name.as_str()) {
            Some(i) => self.config.monitors[i].primary,
            None => false,
        };
        let out: OutputInfo = OutputInfo {
            name: text::copy_str(&s.name),
            width: s.size.w,
            height: s.size.h,
            x: s.x,
            y: s.y,
            primary,
        };
        assert(out@ =~= self@.output_info(o as int));
        out
    }

    /// What tools are told of the outputs.
    pub fn output_infos(&self) -> (out: Vec<OutputInfo>)
        requires
            self@.wf(),
        ensures
            out@.map_values(|o: OutputInfo| o@) == self@.output_infos(),
    {
        let mut out: Vec<OutputInfo> = Vec::new();
        if self.outputs.len() == 0 {
            let size: Size = self.output_size();
            let info: OutputInfo = OutputInfo {
                name: "winit".to_owned(),
                width: size.w,
                height: size.h,
                x: 0,
                y: 0,
                primary: true,
            };
            out.push(info);
            assert(out@.map_values(|o: OutputInfo| o@) =~= self@.output_infos());
            return out;
        }
        let ordered: bool = self.output_order.len() == self.outputs.len();
        let mut i: usize = 0;
        while i < self.outputs.len()
            invariant
                i <= self.outputs.len(),
                self@.wf(),
                self@.outputs.len() > 0,
                ordered == (self@.order.len() == self@.outputs.len()),
                out.len() == i,
                forall|k: int|
                    0 <= k < i ==> (#[trigger] out@[k])@ == self@.output_info(
                        self@.told_order()[k] as int,
                    ),
            decreases self.outputs.len() - i,
        {
            let o: usize = if ordered {
                assert(self@.order[i as int] < self@.outputs.len());
                self.output_order[i]
            } else {
                i
            };
            assert(o == self@.told_order()[i as int]);
            out.push(self.tell_output(o));
            i = i + 1;
        }
        assert(out@.map_values(|o: OutputInfo| o@) =~= self@.output_infos());
        out
    }

    fn tell_theme(&self) -> (c: ThemeColors)
        ensures
            theme_told(self@.config, c),
    {
        let g: &crate::gate::config::General = &self.config.general;
        let font_family: Option<String> = if g.font.as_str().is_empty() {
            None
        } else {
            Some(text::copy_str(&g.font))
        };
        ThemeColors {
            bg: self.config.theme.bg,
            surface: self.config.theme.surface,
            text: self.config.theme.text,
            text_muted: self.config.theme.text_muted,
            accent: self.config.theme.accent,
            accent_soft: self.config.theme.accent_soft,
            border: self.config.theme.border,
            bar_height: Some(self.config.bar.height as u16),
            bar_background: Some(self.config.bar.background),
            bar_background_alpha: Some(self.config.bar.background_alpha),
            border_px: Some(max_i32(g.border_px, 0) as u16),
            border_radius: Some(max_i32(g.border_radius, 0) as u16),
            border_tile_path: text::copy_opt(&g.border_tile),
            font_family,
        }
    }

    fn occupied_list(&self) -> (out: Vec<bool>)
        ensures
            out@ == self@.occupied_list(),
    {
        let mut out: Vec<bool> = Vec::new();
        if self.focused_output < self.workspaces.len() {
            let ghost o = self.focused_output as int;
            assert(self@.workspaces[o] == state::pool_view(self.workspaces@[o]@));
            let pool: &Vec<Workspace> = &self.workspaces[self.focused_output];
            let mut k: usize = 0;
            while k < pool.len()
                invariant
                    k <= pool.len(),
                    o == self.focused_output,
                    o < self.workspaces@.len(),
                    *pool == self.workspaces@[o],
                    self@.workspaces[o] == state::pool_view(pool@),
                    out.len() == k,
                    forall|j: int|
                        0 <= j < k ==> #[trigger] out@[j] == (self@.workspaces[o][j].clients.len()
                            > 0),
                decreases pool.len() - k,
            {
                assert(self@.workspaces[o][k as int] == pool@[k as int]@);
                out.push(pool[k].clients.len() > 0);
                k = k + 1;
            }
        }
        assert(out@ =~= self@.occupied_list());
        out
    }

    fn tell_active(&self) -> (a: Response)
        ensures
            self@.answered(Request::GetActiveWindow, Seq::empty(), a),
    {
        let o: usize = self.focused_output;
        if o < self.workspaces.len() {
            assert(self@.workspaces[o as int] == state::pool_view(self.workspaces@[o as int]@));
            if self.current_ws < self.workspaces[o].len() {
                assert(self@.workspaces[o as int][self.current_ws as int]
                    == self.workspaces@[o as int]@[self.current_ws as int]@);
                match self.workspaces[o][self.current_ws].focused() {
                    Some(w) => {
                        let (app_id, title): (String, String) = self.names_of(w);
                        return Response::ActiveWindow { title, app_id };
                    },
                    None => {},
                }
            }
        }
        Response::ActiveWindow { title: String::new(), app_id: String::new() }
    }

    fn find_output_named(&self, name: &str) -> (out: Option<usize>)
        ensures
            match out {
                Some(o) => o < self@.outputs.len() && o == self@.output_named(name@, 0),
                None => self@.output_named(name@, 0) == self@.outputs.len(),
            },
    {
        let mut o: usize = 0;
        while o < self.outputs.len()
            invariant
                o <= self.outputs.len(),
                self@.output_named(name@, 0) == self@.output_named(name@, o as int),
            decreases self.outputs.len() - o,
        {
            assert(self@.outputs[o as int] == self.outputs@[o as int]@);
            if eq_str(self.outputs[o].name.as_str(), name) {
                return Some(o);
            }
            o = o + 1;
        }
        None
    }

    fn shoot(&mut self, path: &str, output_idx: Option<usize>, region: Option<Rect>)
        requires
            old(self)@.wf(),
        ensures
            final(self)@ == old(self)@.shooting(
                ScreenshotView { path: path@, output_idx, region },
            ),
            final(self)@.wf(),
    {
        let s: PendingScreenshot = PendingScreenshot {
            path: path.to_owned(),
            output_idx,
            region,
        };
        let ghost v = s@;
        self.screenshot_queue.push(s);
        proof {
            assert(v =~= (ScreenshotView { path: path@, output_idx, region }));
            assert(self@.screenshots =~= old(self)@.screenshots.push(v));
            state::lemma_same_places(old(self)@, self@);
        }
    }

    fn request_wallpaper(&mut self, path: String)
        requires
            old(self)@.wf(),
        ensures
            final(self)@ == (GateView { wallpaper_requested: Some(path@), ..old(self)@ }),
            final(self)@.wf(),
    {
        self.wallpaper_requested = Some(path);
        proof {
            state::lemma_same_places(old(self)@, self@);
        }
    }

    /// Does what a tool asks, and answers. `path` is where a screenshot goes.
    pub fn handle_ipc_request(&mut self, request: Request, path: &str) -> (answer: Response)
        requires
            old(self)@.wf(),
            moves_focus(request) ==> old(self)@.outputs.len() > 0,
        ensures
            final(self)@ == old(self)@.requested(request, path@),
            final(self)@.wf(),
            old(self)@.answered(request, path@, answer),
    {
        match request {
            Request::GetWorkspaces => {
                Response::Workspaces { current: self.current_ws, occupied: self.occupied_list() }
            },
            Request::GetActiveWindow => {
                self.tell_active()
            },
            Request::GetOutputs => {
                Response::Outputs { outputs: self.output_infos() }
            },
            Request::GetTheme => {
                Response::Theme { colors: self.tell_theme() }
            },
            Request::ViewWorkspace { index } => {
                self.dispatch_action(Action::ViewWs(index));
                Response::Done
            },
            Request::SendToWorkspace { index } => {
                self.dispatch_action(Action::SendWs(index));
                Response::Done
            },
            Request::FocusNext => {
                self.dispatch_action(Action::FocusNext);
                Response::Done
            },
            Request::FocusPrev => {
                self.dispatch_action(Action::FocusPrev);
                Response::Done
            },
            Request::KillClient => {
                self.dispatch_action(Action::KillClient);
                Response::Done
            },
            Request::Reload => {
                self.request_reload();
                Response::Done
            },
            Request::Spawn { command } => {
                self.dispatch_action(Action::SpawnRaw(command));
                Response::Done
            },
            Request::ThemeChanged { theme_name } => {
                self.request_reload();
                Response::Done
            },
            Request::WallpaperChanged { path: wallpaper } => {
                self.request_wallpaper(wallpaper);
                Response::Done
            },
            Request::Screenshot => {
                self.shoot(path, None, None);
                Response::ScreenshotDone { path: path.to_owned() }
            },
            Request::ScreenshotRegion { x, y, w, h } => {
                self.shoot(path, None, Some(Rect { x, y, w, h }));
                Response::ScreenshotDone { path: path.to_owned() }
            },
            Request::ScreenshotOutput { name } => {
                match self.find_output_named(name.as_str()) {
                    Some(o) => {
                        self.shoot(path, Some(o), None);
                        Response::ScreenshotDone { path: path.to_owned() }
                    },
                    None => {
                        let mut message: String = "no connected output named '".to_owned();
                        message.push_str(name.as_str());
                        message.push_str("'");
                        Response::Error { message }
                    },
                }
            },
            Request::GetWindowGeometries => {
                Response::WindowGeometries { windows: self.window_geometries() }
            },
            Request::Subscribe => { Response::Done },
            Request::Unsubscribe => { Response::Done },
        }
    }
}

/// A question of a tool changes nothing.
pub proof fn law_queries_change_nothing(g: GateView, r: Request, path: Seq<char>)
    requires
        r is GetWorkspaces || r is GetActiveWindow || r is GetOutputs || r is GetTheme
            || r is GetWindowGeometries || r is Subscribe || r is Unsubscribe,
    ensures
        g.requested(r, path) == g,
{
}

/// A request for an output that there is not is answered with an error and
/// changes nothing.
pub proof fn law_unknown_output_refused(g: GateView, name: String, path: Seq<char>, a: Response)
    requires
        g.output_named(name@, 0) >= g.outputs.len(),
        g.answered(Request::ScreenshotOutput { name }, path, a),
    ensures
        a is Error,
        g.requested(Request::ScreenshotOutput { name }, path) == g,
{
}

/// Screenshots with different numbers have different names, whenever they are
/// taken.
pub proof fn law_screenshot_names_differ(t1: nat, n1: nat, t2: nat, n2: nat)
    requires
        n1 != n2,
    ensures
        screenshot_name_of(t1, n1) != screenshot_name_of(t2, n2),
{
    reveal_strlit("-");
    let p1 = "kara-screenshot-"@ + text::decimal(t1 / 1_000_000_000) + "-"@
        + text::padded_decimal(t1 % 1_000_000_000, 9);
    let p2 = "kara-screenshot-"@ + text::decimal(t2 / 1_000_000_000) + "-"@
        + text::padded_decimal(t2 % 1_000_000_000, 9);
    let tail = ".png"@;
    let a = text::decimal(n1);
    let b = text::decimal(n2);
    text::lemma_decimal(n1);
    text::lemma_decimal(n2);
    let x = p1 + "-"@ + a + tail;
    let y = p2 + "-"@ + b + tail;
    assert(x == screenshot_name_of(t1, n1));
    assert(y == screenshot_name_of(t2, n2));
    if x == y {
        lemma_number_ends(p1, a, p2, b, tail);
        assert(a =~= b);
        assert(false);
    }
}

proof fn lemma_number_ends(
    p1: Seq<char>,
    a: Seq<char>,
    p2: Seq<char>,
    b: Seq<char>,
    tail: Seq<char>,
)
    requires
        text::all_digits(a),
        text::all_digits(b),
        p1 + "-"@ + a + tail == p2 + "-"@ + b + tail,
    ensures
        a == b,
{
    reveal_strlit("-");
    let x = p1 + "-"@ + a + tail;
    let y = p2 + "-"@ + b + tail;
    let end = x.len() - tail.len();
    if a.len() < b.len() {
        let p = end - a.len() - 1;
        assert(x[p] == '-');
        assert(y[p] == b[b.len() - a.len() - 1]);
        assert(text::digit_value(b[b.len() - a.len() - 1]) >= 0);
    } else if b.len() < a.len() {
        let p = end - b.len() - 1;
        assert(y[p] == '-');
        assert(x[p] == a[a.len() - b.len() - 1]);
        assert(text::digit_value(a[a.len() - b.len() - 1]) >= 0);
    } else {
        assert(a =~= b) by {
            assert forall|i: int| 0 <= i < a.len() implies a[i] == b[i] by {
                assert(x[end - a.len() + i] == a[i]);
                assert(y[end - b.len() + i] == b[i]);
            }
        }
    }
}

} // verus!
