//! A picture of an output: what is drawn, in which order and where.

use vstd::prelude::*;

use crate::gate::config::ScratchpadConfig;
use crate::gate::stage::Placed;
use crate::gate::state;
use crate::gate::state::{Gate, GateView, OutputState, OutputView, ScratchpadState};
use crate::gate::workspace;
use crate::gate::workspace::{WindowId, Workspace};
use crate::geometry::Rect;

verus! {

// ---- Windows ----------------------------------------------------------------

/// What a window covers: a box that holds it and its popups, seen from its
/// place, and where in its picture the content begins.
#[derive(Clone, Copy, Debug, PartialEq, Eq, Structural)]
pub struct Extent {
    pub window: WindowId,
    pub bbox: Rect,
    pub origin_x: i32,
    pub origin_y: i32,
}

/// A window and where its picture is drawn, seen from the corner of the
/// output.
#[derive(Clone, Copy, Debug, PartialEq, Eq, Structural)]
pub struct DrawnWindow {
    pub window: WindowId,
    pub x: i64,
    pub y: i64,
}

/// Where a window stands in the picture, from the front to the back.
#[derive(Clone, Copy, Debug, PartialEq, Eq, Structural)]
pub enum Bucket {
    Scratchpad,
    FocusedFloat,
    Float,
    Tiled,
}

/// The extent at or after `i` of the window.
pub open spec fn extent_from(es: Seq<Extent>, w: WindowId, i: int) -> Option<Extent>
    decreases es.len() - i,
{
    if i >= es.len() {
        None
    } else if es[i].window == w {
        Some(es[i])
    } else {
        extent_from(es, w, i + 1)
    }
}

/// Whether a window at a place can be seen on an output.
pub open spec fn seen_on(p: Placed, e: Extent, o: OutputView) -> bool {
    &&& p.x + e.bbox.x < o.x + o.size.w
    &&& o.x < p.x + e.bbox.x + e.bbox.w
    &&& p.y + e.bbox.y < o.y + o.size.h
    &&& o.y < p.y + e.bbox.y + e.bbox.h
}

/// Where the picture of a window is drawn.
pub open spec fn drawn_at(p: Placed, e: Extent, o: OutputView) -> DrawnWindow {
    DrawnWindow {
        window: p.window,
        x: (p.x - e.origin_x - o.x) as i64,
        y: (p.y - e.origin_y - o.y) as i64,
    }
}

impl GateView {
    /// Whether the window floats in the workspace `k` of output `o`.
    pub open spec fn floats_in(self, o: int, k: int, w: WindowId) -> bool {
        &&& self.in_ws(o, k, w)
        &&& self.workspaces[o][k].floating[workspace::first_index(
            self.workspaces[o][k].clients,
            w,
        )]
    }

    /// Whether the window floats in some workspace.
    pub open spec fn floats(self, w: WindowId) -> bool {
        exists|o: int, k: int| #[trigger] self.floats_in(o, k, w)
    }

    /// Where the window stands in the picture.
    pub open spec fn bucket(self, w: WindowId) -> Bucket {
        if self.pad_window(w) {
            Bucket::Scratchpad
        } else if self.floats(w) {
            if self.keyboard_focus == Some(w) {
                Bucket::FocusedFloat
            } else {
                Bucket::Float
            }
        } else {
            Bucket::Tiled
        }
    }

    /// The windows among the first `n` mapped ones that can be seen on output
    /// `o` and stand in the bucket.
    pub open spec fn drawn(self, o: int, es: Seq<Extent>, b: Bucket, n: int) -> Seq<DrawnWindow>
        decreases n,
    {
        if n <= 0 {
            Seq::empty()
        } else {
            let before = self.drawn(o, es, b, n - 1);
            let p = self.stage.space[n - 1];
            match extent_from(es, p.window, 0) {
                Some(e) => if seen_on(p, e, self.outputs[o]) && self.bucket(p.window) == b {
                    before.push(drawn_at(p, e, self.outputs[o]))
                } else {
                    before
                },
                None => before,
            }
        }
    }

    /// How many of the first `n` mapped windows can be seen on output `o`.
    pub open spec fn seen_count(self, o: int, es: Seq<Extent>, n: int) -> int
        decreases n,
    {
        if n <= 0 {
            0
        } else {
            let p = self.stage.space[n - 1];
            self.seen_count(o, es, n - 1) + match extent_from(es, p.window, 0) {
                Some(e) => if seen_on(p, e, self.outputs[o]) {
                    1int
                } else {
                    0
                },
                None => 0,
            }
        }
    }
}

/// The windows in a picture.
#[derive(Debug)]
pub struct FrameWindows {
    pub scratchpad: Vec<DrawnWindow>,
    pub focused_floats: Vec<DrawnWindow>,
    pub floats: Vec<DrawnWindow>,
    pub tiled: Vec<DrawnWindow>,
}

fn find_extent(es: &Vec<Extent>, w: WindowId) -> (out: Option<Extent>)
    ensures
        out == extent_from(es@, w, 0),
{
    let mut i: usize = 0;
    while i < es.len()
        invariant
            i <= es.len(),
            extent_from(es@, w, 0) == extent_from(es@, w, i as int),
        decreases es.len() - i,
    {
        if es[i].window == w {
            return Some(es[i]);
        }
        i = i + 1;
    }
    None
}

fn can_be_seen(p: Placed, e: Extent, o: &OutputState) -> (r: bool)
    ensures
        r == seen_on(p, e, o@),
{
    let x: i64 = p.x as i64 + e.bbox.x as i64;
    let y: i64 = p.y as i64 + e.bbox.y as i64;
    x < o.x as i64 + o.size.w as i64 && (o.x as i64) < x + e.bbox.w as i64 && y < o.y as i64
        + o.size.h as i64 && (o.y as i64) < y + e.bbox.h as i64
}

impl Gate {
    fn is_floating_window(&self, w: WindowId) -> (r: bool)
        requires
            self@.wf(),
        ensures
            r == self@.floats(w),
    {
        let mut o: usize = 0;
        while o < self.workspaces.len()
            invariant
                o <= self.workspaces.len(),
                self@.wf(),
                forall|i: int, k: int| i < o ==> !#[trigger] self@.floats_in(i, k, w),
            decreases self.workspaces.len() - o,
        {
            assert(self@.workspaces[o as int] == state::pool_view(self.workspaces@[o as int]@));
            let mut k: usize = 0;
            while k < self.workspaces[o].len()
                invariant
                    o < self.workspaces.len(),
                    k <= self.workspaces@[o as int].len(),
                    self@.wf(),
                    self@.workspaces[o as int] == state::pool_view(self.workspaces@[o as int]@),
                    forall|j: int| j < k ==> !#[trigger] self@.floats_in(o as int, j, w),
                decreases self.workspaces@[o as int].len() - k,
            {
                let ws: &Workspace = &self.workspaces[o][k];
                assert(self@.workspaces[o as int][k as int]
                    == self.workspaces@[o as int]@[k as int]@);
                assert(state::ws_ok(self@.workspaces[o as int][k as int]));
                match workspace::position(&ws.clients, w) {
                    Some(i) => {
                        if ws.is_floating(i) {
                            assert(self@.floats_in(o as int, k as int, w));
                            return true;
                        }
                    },
                    None => {},
                }
                k = k + 1;
            }
            assert forall|j: int| !#[trigger] self@.floats_in(o as int, j, w) by {}
            o = o + 1;
        }
        false
    }

    /// Where the window stands in the picture.
    pub fn bucket_of(&self, w: WindowId) -> (b: Bucket)
        requires
            self@.wf(),
        ensures
            b == self@.bucket(w),
    {
        if self.is_scratchpad_window(w) {
            Bucket::Scratchpad
        } else if self.is_floating_window(w) {
            if self.keyboard_focus == Some(w) {
                Bucket::FocusedFloat
            } else {
                Bucket::Float
            }
        } else {
            Bucket::Tiled
        }
    }

    /// The windows in the picture of an output.
    pub fn frame_windows(&self, output_idx: usize, extents: &Vec<Extent>) -> (f: FrameWindows)
        requires
            self@.wf(),
            output_idx < self@.outputs.len(),
        ensures
            ({
                let o = output_idx as int;
                let n = self@.stage.space.len() as int;
                &&& f.scratchpad@ == self@.drawn(o, extents@, Bucket::Scratchpad, n)
                &&& f.focused_floats@ == self@.drawn(o, extents@, Bucket::FocusedFloat, n)
                &&& f.floats@ == self@.drawn(o, extents@, Bucket::Float, n)
                &&& f.tiled@ == self@.drawn(o, extents@, Bucket::Tiled, n)
            }),
    {
        let mut f: FrameWindows = FrameWindows {
            scratchpad: Vec::new(),
            focused_floats: Vec::new(),
            floats: Vec::new(),
            tiled: Vec::new(),
        };
        let ghost o = output_idx as int;
        let mut i: usize = 0;
        while i < self.stage.space.len()
            invariant
                i <= self.stage.space.len(),
                o == output_idx,
                output_idx < self@.outputs.len(),
                self@.wf(),
                f.scratchpad@ == self@.drawn(o, extents@, Bucket::Scratchpad, i as int),
                f.focused_floats@ == self@.drawn(o, extents@, Bucket::FocusedFloat, i as int),
                f.floats@ == self@.drawn(o, extents@, Bucket::Float, i as int),
                f.tiled@ == self@.drawn(o, extents@, Bucket::Tiled, i as int),
            decreases self.stage.space.len() - i,
        {
            let p: Placed = self.stage.space[i];
            assert(self@.outputs[o] == self.outputs@[o]@);
            match find_extent(extents, p.window) {
                Some(e) => {
                    let out: &OutputState = &self.outputs[output_idx];
                    if can_be_seen(p, e, out) {
                        let d: DrawnWindow = DrawnWindow {
                            window: p.window,
                            x: p.x as i64 - e.origin_x as i64 - out.x as i64,
                            y: p.y as i64 - e.origin_y as i64 - out.y as i64,
                        };
                        match self.bucket_of(p.window) {
                            Bucket::Scratchpad => {
                                f.scratchpad.push(d);
                            },
                            Bucket::FocusedFloat => {
                                f.focused_floats.push(d);
                            },
                            Bucket::Float => {
                                f.floats.push(d);
                            },
                            Bucket::Tiled => {
                                f.tiled.push(d);
                            },
                        }
                    }
                },
                None => {},
            }
            i = i + 1;
        }
        f
    }
}

proof fn lemma_every_window_drawn(g: GateView, o: int, es: Seq<Extent>, n: int)
    requires
        0 <= n <= g.stage.space.len(),
    ensures
        g.drawn(o, es, Bucket::Scratchpad, n).len() + g.drawn(
            o,
            es,
            Bucket::FocusedFloat,
            n,
        ).len() + g.drawn(o, es, Bucket::Float, n).len() + g.drawn(o, es, Bucket::Tiled, n).len()
            == g.seen_count(o, es, n),
    decreases n,
{
    if n > 0 {
        lemma_every_window_drawn(g, o, es, n - 1);
    }
}

/// Every mapped window that can be seen on an output is drawn exactly once.
pub proof fn law_every_window_drawn_once(g: GateView, o: int, es: Seq<Extent>)
    ensures
        g.drawn(o, es, Bucket::Scratchpad, g.stage.space.len() as int).len() + g.drawn(
            o,
            es,
            Bucket::FocusedFloat,
            g.stage.space.len() as int,
        ).len() + g.drawn(o, es, Bucket::Float, g.stage.space.len() as int).len() + g.drawn(
            o,
            es,
            Bucket::Tiled,
            g.stage.space.len() as int,
        ).len() == g.seen_count(o, es, g.stage.space.len() as int),
{
    lemma_every_window_drawn(g, o, es, g.stage.space.len() as int);
}

// ---- Scratchpads ------------------------------------------------------------

impl GateView {
    /// The settings of scratchpad `s` where it is visible on output `o`.
    pub open spec fn shown_pad(self, s: int, o: int) -> Option<ScratchpadConfig> {
        let sp = self.scratchpads[s];
        if sp.visible && sp.output_idx == o && sp.config_idx < self.config.scratchpads@.len() {
            Some(self.config.scratchpads@[sp.config_idx as int])
        } else {
            None
        }
    }

    /// Whether a visible scratchpad on output `o` wants what is behind it
    /// blurred.
    pub open spec fn wants_blur(self, o: int) -> bool {
        exists|s: int|
            0 <= s < self.scratchpads.len() && (#[trigger] self.shown_pad(s, o) matches Some(c)
                && c.blur)
    }

    /// The most blur passes that one of the first `n` scratchpads on output
    /// `o` wants.
    pub open spec fn most_passes(self, o: int, n: int) -> int
        decreases n,
    {
        if n <= 0 {
            0
        } else {
            let before = self.most_passes(o, n - 1);
            match self.shown_pad(n - 1, o) {
                Some(c) => if c.blur && c.blur_passes > before {
                    c.blur_passes as int
                } else {
                    before
                },
                None => before,
            }
        }
    }

    /// How much the first `n` scratchpads darken what is behind them on output
    /// `o`.
    pub open spec fn most_dim(self, o: int, n: int) -> int
        decreases n,
    {
        if n <= 0 {
            0
        } else {
            let before = self.most_dim(o, n - 1);
            match self.shown_pad(n - 1, o) {
                Some(c) => if c.dim_alpha > before {
                    c.dim_alpha as int
                } else {
                    before
                },
                None => before,
            }
        }
    }
}

impl Gate {
    fn shown_config(&self, s: usize, o: usize) -> (out: Option<usize>)
        requires
            s < self@.scratchpads.len(),
        ensures
            match out {
                Some(c) => c < self.config.scratchpads@.len() && self@.shown_pad(s as int, o as int)
                    == Some(self.config.scratchpads@[c as int]),
                None => self@.shown_pad(s as int, o as int) is None,
            },
    {
        assert(self@.scratchpads[s as int] == self.scratchpads@[s as int]@);
        let sp: &ScratchpadState = &self.scratchpads[s];
        if sp.visible && sp.output_idx == o && sp.config_idx < self.config.scratchpads.len() {
            Some(sp.config_idx)
        } else {
            None
        }
    }

    /// Whether a visible scratchpad on the output wants what is behind it
    /// blurred.
    pub fn scratchpad_wants_blur(&self, output_idx: usize) -> (r: bool)
        ensures
            r == self@.wants_blur(output_idx as int),
    {
        let mut s: usize = 0;
        while s < self.scratchpads.len()
            invariant
                s <= self.scratchpads.len(),
                forall|i: int|
                    0 <= i < s ==> !(#[trigger] self@.shown_pad(i, output_idx as int) matches Some(
                        c,
                    ) && c.blur),
            decreases self.scratchpads.len() - s,
        {
            match self.shown_config(s, output_idx) {
                Some(c) => {
                    if self.config.scratchpads[c].blur {
                        assert(self@.shown_pad(s as int, output_idx as int) matches Some(c)
                            && c.blur);
                        return true;
                    }
                },
                None => {},
            }
            s = s + 1;
        }
        false
    }

    /// The most blur passes that a visible scratchpad on the output wants.
    pub fn scratchpad_max_blur_passes(&self, output_idx: usize) -> (passes: u32)
        ensures
            passes == self@.most_passes(output_idx as int, self@.scratchpads.len() as int),
    {
        let mut best: u32 = 0;
        let mut s: usize = 0;
        while s < self.scratchpads.len()
            invariant
                s <= self.scratchpads.len(),
                best == self@.most_passes(output_idx as int, s as int),
            decreases self.scratchpads.len() - s,
        {
            match self.shown_config(s, output_idx) {
                Some(c) => {
                    let sc: &ScratchpadConfig = &self.config.scratchpads[c];
                    if sc.blur && sc.blur_passes > best {
                        best = sc.blur_passes;
                    }
                },
                None => {},
            }
            s = s + 1;
        }
        best
    }

    /// How much the visible scratchpads on the output darken what is behind
    /// them.
    pub fn scratchpad_dim_alpha(&self, output_idx: usize) -> (alpha: u8)
        ensures
            alpha == self@.most_dim(output_idx as int, self@.scratchpads.len() as int),
    {
        let mut best: u8 = 0;
        let mut s: usize = 0;
        while s < self.scratchpads.len()
            invariant
                s <= self.scratchpads.len(),
                best == self@.most_dim(output_idx as int, s as int),
            decreases self.scratchpads.len() - s,
        {
            match self.shown_config(s, output_idx) {
                Some(c) => {
                    let sc: &ScratchpadConfig = &self.config.scratchpads[c];
                    if sc.dim_alpha > best {
                        best = sc.dim_alpha;
                    }
                },
                None => {},
            }
            s = s + 1;
        }
        best
    }
}

/// Blur passes are owed only where a scratchpad wants blur.
pub proof fn law_passes_need_blur(g: GateView, o: int)
    ensures
        g.most_passes(o, g.scratchpads.len() as int) > 0 ==> g.wants_blur(o),
{
    lemma_passes_need_blur(g, o, g.scratchpads.len() as int);
}

proof fn lemma_passes_need_blur(g: GateView, o: int, n: int)
    requires
        0 <= n <= g.scratchpads.len(),
    ensures
        g.most_passes(o, n) > 0 ==> g.wants_blur(o),
    decreases n,
{
    if n > 0 {
        lemma_passes_need_blur(g, o, n - 1);
        if g.shown_pad(n - 1, o) matches Some(c) && c.blur {
            assert(g.wants_blur(o));
        }
    }
}

// ---- The picture ------------------------------------------------------------

/// A surface of a tool, such as the launcher.
#[derive(Clone, Copy, Debug, PartialEq, Eq, Structural)]
pub struct LayerInfo {
    /// Whether it stands above the windows.
    pub above: bool,
    /// Where it stands on its output; `None` before it has a place.
    pub geometry: Option<Rect>,
    /// Whether it is the theme picker.
    pub is_picker: bool,
}

/// A part of a picture.
#[derive(Clone, Copy, Debug, PartialEq, Eq, Structural)]
pub enum Part {
    Cursor,
    KeyOverlay,
    /// A surface of a tool, by its index.
    Layer(usize),
    /// The blurred wallpaper behind the theme picker, in global coordinates.
    PickerBlur(Rect),
    ScratchpadBorders,
    Window(DrawnWindow),
    /// Darkens everything behind it.
    Dim(u8),
    Bar,
    BarBlur,
    Borders,
    Wallpaper,
    /// The surface of the lock.
    LockSurface,
}

/// The surfaces of tools that stand above the windows and have a place, among
/// those at or after `i`, the last of them first.
pub open spec fn layer_parts(ls: Seq<LayerInfo>, i: int) -> Seq<Part>
    decreases ls.len() - i,
{
    if i >= ls.len() {
        Seq::empty()
    } else if ls[i].above && ls[i].geometry is Some {
        layer_parts(ls, i + 1).push(Part::Layer(i as usize))
    } else {
        layer_parts(ls, i + 1)
    }
}

/// The place of the first theme picker at or after `i`, seen from the corner
/// of the output.
pub open spec fn picker_from(ls: Seq<LayerInfo>, i: int) -> Option<Rect>
    decreases ls.len() - i,
{
    if i >= ls.len() {
        None
    } else if ls[i].above && ls[i].is_picker && ls[i].geometry is Some {
        ls[i].geometry
    } else {
        picker_from(ls, i + 1)
    }
}

/// Windows as parts of a picture.
pub open spec fn window_parts(ws: Seq<DrawnWindow>) -> Seq<Part> {
    ws.map_values(|d: DrawnWindow| Part::Window(d))
}

/// `part` where it is wanted.
pub open spec fn optional(on: bool, part: Part) -> Seq<Part> {
    if on {
        seq![part]
    } else {
        Seq::empty()
    }
}

impl GateView {
    /// Whether the picture hides the desktop: the session is locked, or the
    /// lock is on its way.
    pub open spec fn veiled(self) -> bool {
        self.locked || self.lock_pending_since is Some
    }

    /// The place of the theme picker in global coordinates, where what is
    /// behind it is blurred.
    pub open spec fn picker_rect(self, o: int, ls: Seq<LayerInfo>) -> Option<Rect> {
        match picker_from(ls, 0) {
            Some(r) => if self.config.bar.blur {
                Some(
                    Rect {
                        x: (r.x + self.outputs[o].x) as i32,
                        y: (r.y + self.outputs[o].y) as i32,
                        ..r
                    },
                )
            } else {
                None
            },
            None => None,
        }
    }

    /// What lies under the windows: the bar, the borders and the wallpaper. A
    /// window that fills the screen hides the bar and the borders.
    pub open spec fn ground_parts(self, o: int) -> Seq<Part> {
        let full = self.outputs[o].fullscreen is Some;
        optional(!full && self.config.bar.enabled, Part::Bar) + optional(
            !full && self.config.bar.enabled && self.config.bar.blur,
            Part::BarBlur,
        ) + optional(!full, Part::Borders) + seq![Part::Wallpaper]
    }

    /// What lies behind the scratchpads.
    pub open spec fn backdrop_parts(self, o: int, es: Seq<Extent>) -> Seq<Part> {
        let n = self.stage.space.len() as int;
        window_parts(self.drawn(o, es, Bucket::FocusedFloat, n)) + window_parts(
            self.drawn(o, es, Bucket::Float, n),
        ) + window_parts(self.drawn(o, es, Bucket::Tiled, n)) + self.ground_parts(o)
    }

    /// What lies before the backdrop.
    pub open spec fn front_parts(self, o: int, es: Seq<Extent>, ls: Seq<LayerInfo>) -> Seq<Part> {
        let n = self.stage.space.len() as int;
        let dim = self.most_dim(o, self.scratchpads.len() as int);
        seq![Part::Cursor] + optional(self.overlay_visible, Part::KeyOverlay) + layer_parts(ls, 0)
            + (match self.picker_rect(o, ls) {
            Some(r) => seq![Part::PickerBlur(r)],
            None => Seq::empty(),
        }) + optional(self.outputs[o].fullscreen is None, Part::ScratchpadBorders) + window_parts(
            self.drawn(o, es, Bucket::Scratchpad, n),
        ) + optional(dim > 0, Part::Dim(dim as u8))
    }

    /// The parts of the picture of output `o`, from the front to the back.
    /// Where the session is locked, it is the lock and nothing behind it; while
    /// the lock is on its way, it is the wallpaper.
    pub open spec fn picture(self, o: int, es: Seq<Extent>, ls: Seq<LayerInfo>) -> Seq<Part> {
        if self.locked {
            seq![Part::LockSurface]
        } else if self.veiled() {
            seq![Part::Wallpaper]
        } else {
            self.front_parts(o, es, ls) + self.backdrop_parts(o, es)
        }
    }
}

fn push_windows(parts: &mut Vec<Part>, ws: &Vec<DrawnWindow>)
    ensures
        final(parts)@ == old(parts)@ + window_parts(ws@),
{
    let ghost before = parts@;
    let mut i: usize = 0;
    assert(parts@ =~= before + window_parts(ws@.take(0)));
    while i < ws.len()
        invariant
            i <= ws.len(),
            parts@ == before + window_parts(ws@.take(i as int)),
        decreases ws.len() - i,
    {
        parts.push(Part::Window(ws[i]));
        i = i + 1;
        assert(parts@ =~= before + window_parts(ws@.take(i as int)));
    }
    assert(ws@.take(ws@.len() as int) =~= ws@);
}

fn push_if(parts: &mut Vec<Part>, on: bool, part: Part)
    ensures
        final(parts)@ == old(parts)@ + optional(on, part),
{
    if on {
        parts.push(part);
    }
    assert(parts@ =~= old(parts)@ + optional(on, part));
}

fn push_layers(parts: &mut Vec<Part>, layers: &Vec<LayerInfo>)
    ensures
        final(parts)@ == old(parts)@ + layer_parts(layers@, 0),
{
    let ghost before = parts@;
    let mut i: usize = layers.len();
    assert(parts@ =~= before + layer_parts(layers@, layers@.len() as int));
    while i > 0
        invariant
            i <= layers.len(),
            parts@ == before + layer_parts(layers@, i as int),
        decreases i,
    {
        i = i - 1;
        if layers[i].above && layers[i].geometry.is_some() {
            parts.push(Part::Layer(i));
        }
        assert(parts@ =~= before + layer_parts(layers@, i as int));
    }
}

fn find_picker(layers: &Vec<LayerInfo>) -> (out: Option<Rect>)
    ensures
        out == picker_from(layers@, 0),
        out matches Some(r) ==> exists|i: int|
            0 <= i < layers@.len() && (#[trigger] layers@[i]).geometry == Some(r),
{
    let mut i: usize = 0;
    while i < layers.len()
        invariant
            i <= layers.len(),
            picker_from(layers@, 0) == picker_from(layers@, i as int),
        decreases layers.len() - i,
    {
        let l: LayerInfo = layers[i];
        if l.above && l.is_picker && l.geometry.is_some() {
            assert(layers@[i as int].geometry == l.geometry);
            return l.geometry;
        }
        i = i + 1;
    }
    None
}

/// A picture: its parts from the front to the back, and how many of them lie
/// behind the scratchpads.
#[derive(Debug)]
pub struct Picture {
    pub parts: Vec<Part>,
    pub backdrop: usize,
}

impl Gate {
    fn push_front(
        &self,
        output_idx: usize,
        windows: &FrameWindows,
        layers: &Vec<LayerInfo>,
        parts: &mut Vec<Part>,
        extents: &Vec<Extent>,
    )
        requires
            self@.wf(),
            output_idx < self@.outputs.len(),
            windows.scratchpad@ == self@.drawn(
                output_idx as int,
                extents@,
                Bucket::Scratchpad,
                self@.stage.space.len() as int,
            ),
            forall|i: int|
                0 <= i < layers@.len() ==> ((#[trigger] layers@[i]).geometry matches Some(r)
                    ==> r.within(0x2000_0000)),
            old(parts)@ == Seq::<Part>::empty(),
        ensures
            final(parts)@ == self@.front_parts(output_idx as int, extents@, layers@),
    {
        assert(self@.outputs[output_idx as int] == self.outputs@[output_idx as int]@);
        assert(state::output_ok(self@.outputs[output_idx as int]));
        let out: &OutputState = &self.outputs[output_idx];
        parts.push(Part::Cursor);
        assert(parts@ =~= seq![Part::Cursor]);
        push_if(parts, self.keybind_overlay_visible, Part::KeyOverlay);
        push_layers(parts, layers);
        let ghost before = parts@;
        if self.config.bar.blur {
            match find_picker(layers) {
                Some(r) => {
                    let at: Rect = Rect { x: r.x + out.x, y: r.y + out.y, w: r.w, h: r.h };
                    parts.push(Part::PickerBlur(at));
                },
                None => {},
            }
        }
        assert(parts@ =~= before + (match self@.picker_rect(output_idx as int, layers@) {
            Some(r) => seq![Part::PickerBlur(r)],
            None => Seq::empty(),
        }));
        push_if(parts, out.fullscreen_window.is_none(), Part::ScratchpadBorders);
        push_windows(parts, &windows.scratchpad);
        let dim: u8 = self.scratchpad_dim_alpha(output_idx);
        push_if(parts, dim > 0, Part::Dim(dim));
    }

    fn push_ground(&self, output_idx: usize, parts: &mut Vec<Part>)
        requires
            output_idx < self@.outputs.len(),
        ensures
            final(parts)@ == old(parts)@ + self@.ground_parts(output_idx as int),
    {
        assert(self@.outputs[output_idx as int] == self.outputs@[output_idx as int]@);
        let full: bool = self.outputs[output_idx].fullscreen_window.is_some();
        let bar: bool = self.config.bar.enabled;
        let blur: bool = self.config.bar.blur;
        push_if(parts, !full && bar, Part::Bar);
        push_if(parts, !full && bar && blur, Part::BarBlur);
        push_if(parts, !full, Part::Borders);
        let ghost before = parts@;
        parts.push(Part::Wallpaper);
        assert(parts@ =~= before + seq![Part::Wallpaper]);
        assert(parts@ =~= old(parts)@ + self@.ground_parts(output_idx as int));
    }

    /// The picture of an output.
    pub fn compose(
        &self,
        output_idx: usize,
        extents: &Vec<Extent>,
        layers: &Vec<LayerInfo>,
    ) -> (picture: Picture)
        requires
            self@.wf(),
            output_idx < self@.outputs.len(),
            forall|i: int|
                0 <= i < layers@.len() ==> ((#[trigger] layers@[i]).geometry matches Some(r)
                    ==> r.within(0x2000_0000)),
        ensures
            picture.parts@ == self@.picture(output_idx as int, extents@, layers@),
            picture.backdrop == (if self@.locked {
                0
            } else if self@.veiled() {
                1
            } else {
                self@.backdrop_parts(output_idx as int, extents@).len()
            }),
    {
        let mut parts: Vec<Part> = Vec::new();
        assert(parts@ =~= Seq::<Part>::empty());
        if self.session_locked {
            parts.push(Part::LockSurface);
            assert(parts@ =~= self@.picture(output_idx as int, extents@, layers@));
            return Picture { parts, backdrop: 0 };
        }
        if self.lock_pending_since.is_some() {
            parts.push(Part::Wallpaper);
            assert(parts@ =~= self@.picture(output_idx as int, extents@, layers@));
            return Picture { parts, backdrop: 1 };
        }
        let windows: FrameWindows = self.frame_windows(output_idx, extents);
        self.push_front(output_idx, &windows, layers, &mut parts, extents);
        let front: usize = parts.len();
        let ghost head = parts@;
        push_windows(&mut parts, &windows.focused_floats);
        push_windows(&mut parts, &windows.floats);
        push_windows(&mut parts, &windows.tiled);
        self.push_ground(output_idx, &mut parts);
        assert(parts@ =~= head + self@.backdrop_parts(output_idx as int, extents@));
        let backdrop: usize = parts.len() - front;
        Picture { parts, backdrop }
    }
}

/// While the session is locked, or the lock is on its way, nothing of the
/// desktop is in the picture: no window, no bar, no surface of a tool. Once it
/// is locked, the wallpaper is not in it either.
pub proof fn law_lock_hides_the_desktop(
    g: GateView,
    o: int,
    es: Seq<Extent>,
    ls: Seq<LayerInfo>,
    i: int,
)
    requires
        g.veiled(),
        0 <= i < g.picture(o, es, ls).len(),
    ensures
        g.locked ==> g.picture(o, es, ls)[i] is LockSurface,
        !g.locked ==> g.picture(o, es, ls)[i] is Wallpaper,
{
}

/// The windows of a scratchpad lie before whatever darkens the rest, and every
/// other window lies behind it.
pub proof fn law_scratchpads_stay_bright(
    g: GateView,
    o: int,
    es: Seq<Extent>,
    ls: Seq<LayerInfo>,
    i: int,
    d: int,
)
    requires
        !g.veiled(),
        0 <= i < g.picture(o, es, ls).len(),
        0 <= d < g.picture(o, es, ls).len(),
        g.picture(o, es, ls)[d] is Dim,
        g.picture(o, es, ls)[i] is Window,
    ensures
        i < d <==> g.bucket(g.picture(o, es, ls)[i]->Window_0.window) == Bucket::Scratchpad,
{
    let n = g.stage.space.len() as int;
    let front = g.front_parts(o, es, ls);
    let back = g.backdrop_parts(o, es);
    let pads = g.drawn(o, es, Bucket::Scratchpad, n);
    let dim = g.most_dim(o, g.scratchpads.len() as int);
    let tail = optional(dim > 0, Part::Dim(dim as u8));
    let head = front.len() - tail.len() - pads.len();
    lemma_layer_parts(ls, 0);
    lemma_drawn_bucket(g, o, es, Bucket::Scratchpad, n);
    lemma_drawn_bucket(g, o, es, Bucket::FocusedFloat, n);
    lemma_drawn_bucket(g, o, es, Bucket::Float, n);
    lemma_drawn_bucket(g, o, es, Bucket::Tiled, n);
    lemma_no_dim(g, o, es);
    assert forall|k: int| 0 <= k < head implies !(front[k] is Window) && !(front[k] is Dim) by {
        lemma_head_parts(g, o, es, ls, k);
    }
    assert forall|k: int| head <= k < head + pads.len() implies front[k] == Part::Window(
        pads[k - head],
    ) by {}
    if d >= front.len() {
        assert(back[d - front.len()] is Dim);
        assert(false);
    }
    assert(d == front.len() - 1);
    if i >= front.len() {
        assert(g.picture(o, es, ls)[i] == back[i - front.len()]);
        lemma_back_bucket(g, o, es, i - front.len());
    } else {
        assert(g.picture(o, es, ls)[i] == front[i]);
        if i >= head && i < head + pads.len() {
            assert(front[i] == Part::Window(pads[i - head]));
        }
    }
}

pub proof fn lemma_layer_parts(ls: Seq<LayerInfo>, i: int)
    requires
        0 <= i <= ls.len(),
    ensures
        forall|k: int|
            0 <= k < layer_parts(ls, i).len() ==> #[trigger] layer_parts(ls, i)[k] is Layer,
    decreases ls.len() - i,
{
    if i < ls.len() {
        lemma_layer_parts(ls, i + 1);
    }
}

proof fn lemma_head_parts(g: GateView, o: int, es: Seq<Extent>, ls: Seq<LayerInfo>, k: int)
    requires
        0 <= k < g.front_parts(o, es, ls).len() - optional(
            g.most_dim(o, g.scratchpads.len() as int) > 0,
            Part::Dim(g.most_dim(o, g.scratchpads.len() as int) as u8),
        ).len() - g.drawn(o, es, Bucket::Scratchpad, g.stage.space.len() as int).len(),
    ensures
        !(g.front_parts(o, es, ls)[k] is Window),
        !(g.front_parts(o, es, ls)[k] is Dim),
{
    lemma_layer_parts(ls, 0);
    let a = seq![Part::Cursor] + optional(g.overlay_visible, Part::KeyOverlay);
    let l = layer_parts(ls, 0);
    if a.len() <= k < a.len() + l.len() {
        assert(g.front_parts(o, es, ls)[k] == l[k - a.len()]);
    }
}

pub proof fn lemma_drawn_bucket(g: GateView, o: int, es: Seq<Extent>, b: Bucket, n: int)
    requires
        0 <= n <= g.stage.space.len(),
    ensures
        forall|k: int|
            0 <= k < g.drawn(o, es, b, n).len() ==> g.bucket(
                (#[trigger] g.drawn(o, es, b, n)[k]).window,
            ) == b,
    decreases n,
{
    if n > 0 {
        lemma_drawn_bucket(g, o, es, b, n - 1);
    }
}

proof fn lemma_no_dim(g: GateView, o: int, es: Seq<Extent>)
    ensures
        forall|k: int|
            0 <= k < g.backdrop_parts(o, es).len() ==> !(#[trigger] g.backdrop_parts(o, es)[k]
                is Dim),
{
    let n = g.stage.space.len() as int;
    let a = window_parts(g.drawn(o, es, Bucket::FocusedFloat, n));
    let b = window_parts(g.drawn(o, es, Bucket::Float, n));
    let c = window_parts(g.drawn(o, es, Bucket::Tiled, n));
    let d = g.ground_parts(o);
    assert forall|k: int| 0 <= k < g.backdrop_parts(o, es).len() implies !(
    #[trigger] g.backdrop_parts(o, es)[k] is Dim) by {
        let p = g.backdrop_parts(o, es)[k];
        if k < a.len() {
            assert(p == a[k]);
        } else if k < a.len() + b.len() {
            assert(p == b[k - a.len()]);
        } else if k < a.len() + b.len() + c.len() {
            assert(p == c[k - a.len() - b.len()]);
        } else {
            assert(p == d[k - a.len() - b.len() - c.len()]);
        }
    }
}

proof fn lemma_back_bucket(g: GateView, o: int, es: Seq<Extent>, k: int)
    requires
        0 <= k < g.backdrop_parts(o, es).len(),
        g.backdrop_parts(o, es)[k] is Window,
    ensures
        g.bucket(g.backdrop_parts(o, es)[k]->Window_0.window) != Bucket::Scratchpad,
{
    let n = g.stage.space.len() as int;
    let da = g.drawn(o, es, Bucket::FocusedFloat, n);
    let db = g.drawn(o, es, Bucket::Float, n);
    let dc = g.drawn(o, es, Bucket::Tiled, n);
    lemma_drawn_bucket(g, o, es, Bucket::FocusedFloat, n);
    lemma_drawn_bucket(g, o, es, Bucket::Float, n);
    lemma_drawn_bucket(g, o, es, Bucket::Tiled, n);
    let p = g.backdrop_parts(o, es)[k];
    if k < da.len() {
        assert(p == Part::Window(da[k]));
    } else if k < da.len() + db.len() {
        assert(p == Part::Window(db[k - da.len()]));
    } else if k < da.len() + db.len() + dc.len() {
        assert(p == Part::Window(dc[k - da.len() - db.len()]));
    } else {
        assert(p == g.ground_parts(o)[k - da.len() - db.len() - dc.len()]);
    }
}

} // verus!
