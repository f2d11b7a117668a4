//! The borders around the windows: four strips each, which together form a
//! ring.

use vstd::prelude::*;

use crate::gate::config::{BarConfig, BarPosition};
use crate::gate::stage;
use crate::gate::stage::StageView;
use crate::gate::state;
use crate::gate::state::{Gate, GateView};
use crate::geometry::{Rect, Size};
use crate::pixels;
use crate::pixels::split_rgb;
use crate::text;

verus! {

// ---- The picture that the borders are tiled with ----------------------------

/// What becomes of the picture that the borders are tiled with.
#[derive(Debug)]
pub enum TileChange {
    Keep,
    Drop,
    /// Load this one.
    Load(String),
}

impl Gate {
    /// Compares the picture in hand with the one that the settings name. A new
    /// one has all borders drawn again.
    pub fn refresh_border_tile_cache(&mut self, have: &Option<String>) -> (change: TileChange)
        requires
            old(self)@.wf(),
        ensures
            ({
                let want = text::opt_view(old(self)@.config.general.border_tile);
                let had = text::opt_view(*have);
                match change {
                    TileChange::Keep => want == had && final(self)@ == old(self)@,
                    TileChange::Drop => want is None && had is Some && final(self)@ == old(self)@,
                    TileChange::Load(path) => {
                        &&& want == Some(path@)
                        &&& had != want
                        &&& final(self)@ == (GateView {
                            stage: StageView {
                                layout_dirty: true,
                                scratchpad_layout_dirty: true,
                                ..old(self)@.stage
                            },
                            ..old(self)@
                        })
                    },
                }
            }),
            final(self)@.wf(),
    {
        let same: bool = text::eq_opt_str(&self.config.general.border_tile, have);
        if same {
            return TileChange::Keep;
        }
        let path: Option<String> = text::copy_opt(&self.config.general.border_tile);
        match path {
            None => TileChange::Drop,
            Some(p) => {
                self.stage.layout_dirty = true;
                self.stage.scratchpad_layout_dirty = true;
                proof {
                    state::lemma_same_places(old(self)@, self@);
                }
                TileChange::Load(p)
            },
        }
    }
}

// ---- Strips -----------------------------------------------------------------

/// The pixels of the four strips of a border, each with its width and height.
#[derive(Debug)]
pub struct BorderStrips {
    pub top: (Vec<u8>, u32, u32),
    pub bottom: (Vec<u8>, u32, u32),
    pub left: (Vec<u8>, u32, u32),
    pub right: (Vec<u8>, u32, u32),
}

/// A strip: its size and its place in the ring, which is also where in the
/// tiles it begins. A strip without an extent is not drawn.
#[derive(Clone, Copy, Debug, PartialEq, Eq, Structural)]
pub struct StripPlan {
    pub x: u32,
    pub y: u32,
    pub w: u32,
    pub h: u32,
}

impl StripPlan {
    /// Whether a pixel of the ring is in the strip.
    pub open spec fn covers(self, px: int, py: int) -> bool {
        self.x <= px < self.x + self.w && self.y <= py < self.y + self.h
    }
}

/// The four strips of a border.
#[derive(Clone, Copy, Debug, PartialEq, Eq, Structural)]
pub struct RingPlan {
    pub top: StripPlan,
    pub bottom: StripPlan,
    pub left: StripPlan,
    pub right: StripPlan,
}

/// A strip without an extent.
pub open spec fn no_strip() -> StripPlan {
    StripPlan { x: 0, y: 0, w: 0, h: 0 }
}

/// The width or height of a border: at least one pixel.
pub open spec fn side_of(n: int) -> int {
    if n < 1 {
        1
    } else {
        n
    }
}

/// The strips of a border whose outer edge has the size.
pub open spec fn ring_of(size: Size, border_px: int) -> RingPlan {
    let w = side_of(size.w as int);
    let h = side_of(size.h as int);
    let bp = border_px;
    let mid = if h > 2 * bp { h - 2 * bp } else { 0 };
    if bp <= 0 {
        RingPlan { top: no_strip(), bottom: no_strip(), left: no_strip(), right: no_strip() }
    } else {
        RingPlan {
            top: StripPlan { x: 0, y: 0, w: w as u32, h: bp as u32 },
            bottom: StripPlan { x: 0, y: (h - bp) as u32, w: w as u32, h: bp as u32 },
            left: if mid > 0 {
                StripPlan { x: 0, y: bp as u32, w: bp as u32, h: mid as u32 }
            } else {
                no_strip()
            },
            right: if mid > 0 {
                StripPlan { x: (w - bp) as u32, y: bp as u32, w: bp as u32, h: mid as u32 }
            } else {
                no_strip()
            },
        }
    }
}

/// The strips of a border whose outer edge has the size.
pub fn plan_ring(size: Size, border_px: i32) -> (ring: RingPlan)
    requires
        0 < border_px ==> border_px <= size.w && border_px <= size.h,
    ensures
        ring == ring_of(size, border_px as int),
{
    let none: StripPlan = StripPlan { x: 0, y: 0, w: 0, h: 0 };
    if border_px <= 0 {
        return RingPlan { top: none, bottom: none, left: none, right: none };
    }
    let w: u32 = size.w as u32;
    let h: u32 = size.h as u32;
    let bp: u32 = border_px as u32;
    let top: StripPlan = StripPlan { x: 0, y: 0, w, h: bp };
    let bottom: StripPlan = StripPlan { x: 0, y: h - bp, w, h: bp };
    if h > 2 * bp {
        let mid: u32 = h - 2 * bp;
        RingPlan {
            top,
            bottom,
            left: StripPlan { x: 0, y: bp, w: bp, h: mid },
            right: StripPlan { x: w - bp, y: bp, w: bp, h: mid },
        }
    } else {
        RingPlan { top, bottom, left: none, right: none }
    }
}

/// The strips of a border cover exactly the pixels that are closer to the edge
/// than the border is wide, and each of them once.
pub proof fn law_strips_form_a_ring(size: Size, border_px: int, px: int, py: int)
    requires
        0 < border_px,
        2 * border_px <= size.w,
        2 * border_px <= size.h,
        0 <= px < size.w,
        0 <= py < size.h,
    ensures
        ({
            let r = ring_of(size, border_px);
            let ring = px < border_px || px >= size.w - border_px || py < border_px || py >= size.h
                - border_px;
            let hits = (if r.top.covers(px, py) { 1int } else { 0 }) + (if r.bottom.covers(px, py) {
                1int
            } else {
                0
            }) + (if r.left.covers(px, py) { 1int } else { 0 }) + (if r.right.covers(px, py) {
                1int
            } else {
                0
            });
            hits == (if ring { 1int } else { 0 })
        }),
{
}

/// The colours of a border: what it is filled with, and what is added to its
/// tiles where it is that of the focused window.
#[derive(Clone, Copy, Debug)]
pub struct BorderPaint {
    pub fill: (u8, u8, u8),
    pub glow: Option<(u8, u8, u8)>,
}

/// How strongly the colour of the focus is added to tiles, of 255.
pub const GLOW_ALPHA: u8 = 55;

/// The colours of a border.
pub fn border_paint(is_focused: bool, tiled: bool, accent: u32, border: u32) -> (p: BorderPaint)
    ensures
        (p.fill.0 as int, p.fill.1 as int, p.fill.2 as int) == pixels::rgb_of(
            if is_focused { accent as int } else { border as int },
        ),
        p.glow is Some <==> is_focused && tiled,
        p.glow matches Some(g) ==> (g.0 as int, g.1 as int, g.2 as int) == pixels::rgb_of(
            accent as int,
        ),
{
    let color: u32 = if is_focused {
        accent
    } else {
        border
    };
    BorderPaint {
        fill: split_rgb(color),
        glow: if is_focused && tiled {
            Some(split_rgb(accent))
        } else {
            None
        },
    }
}

// ---- Placing ----------------------------------------------------------------

/// Where the border with outer edge `rect` begins: around where window `j` of
/// the last layout is now, or where the layout has put it.
pub open spec fn border_origin(s: StageView, rect: Rect, j: int, border_px: int) -> (int, int) {
    if 0 <= j < s.base.len() {
        match stage::place_of(s.space, s.base[j].window) {
            Some(p) => (p.x - border_px, p.y - border_px),
            None => (rect.x as int, rect.y as int),
        }
    } else {
        (rect.x as int, rect.y as int)
    }
}

impl Gate {
    fn origin_of(&self, rect: Rect, j: usize) -> (p: (i64, i64))
        ensures
            (p.0 as int, p.1 as int) == border_origin(
                self@.stage,
                rect,
                j as int,
                self@.config.general.border_px as int,
            ),
    {
        if j < self.stage.base_positions.len() {
            let w: u16 = self.stage.base_positions[j].window;
            match self.stage.location(w) {
                Some(at) => {
                    let bp: i64 = self.config.general.border_px as i64;
                    return (at.x as i64 - bp, at.y as i64 - bp);
                },
                None => {},
            }
        }
        (rect.x as i64, rect.y as i64)
    }

    /// Where border `i` of the workspaces begins, seen from the corner of the
    /// output.
    pub fn border_place(&self, output_idx: usize, i: usize) -> (p: (i64, i64))
        requires
            output_idx < self@.outputs.len(),
            i < self@.stage.border_rects.len(),
        ensures
            ({
                let o = self@.outputs[output_idx as int];
                let at = border_origin(
                    self@.stage,
                    self@.stage.border_rects[i as int].rect,
                    i as int,
                    self@.config.general.border_px as int,
                );
                (p.0 as int, p.1 as int) == (at.0 - o.x, at.1 - o.y)
            }),
    {
        assert(self@.outputs[output_idx as int] == self.outputs@[output_idx as int]@);
        let at: (i64, i64) = self.origin_of(self.stage.border_rects[i].rect, i);
        let x: i32 = self.outputs[output_idx].x;
        let y: i32 = self.outputs[output_idx].y;
        (at.0 - x as i64, at.1 - y as i64)
    }

    /// Where border `i` of the scratchpads begins, seen from the corner of the
    /// output. Their windows come after those of the workspaces.
    pub fn scratchpad_border_place(&self, output_idx: usize, i: usize) -> (p: (i64, i64))
        requires
            output_idx < self@.outputs.len(),
            i < self@.stage.scratchpad_border_rects.len(),
        ensures
            ({
                let o = self@.outputs[output_idx as int];
                let at = border_origin(
                    self@.stage,
                    self@.stage.scratchpad_border_rects[i as int].rect,
                    self@.stage.border_rects.len() + i,
                    self@.config.general.border_px as int,
                );
                (p.0 as int, p.1 as int) == (at.0 - o.x, at.1 - o.y)
            }),
    {
        assert(self@.outputs[output_idx as int] == self.outputs@[output_idx as int]@);
        let rect: Rect = self.stage.scratchpad_border_rects[i].rect;
        let n: usize = self.stage.border_rects.len();
        assert(self@.stage.base.len() == self.stage.base_positions.len());
        let at: (i64, i64) = if i <= usize::MAX - n {
            self.origin_of(rect, n + i)
        } else {
            (rect.x as i64, rect.y as i64)
        };
        let x: i32 = self.outputs[output_idx].x;
        let y: i32 = self.outputs[output_idx].y;
        (at.0 - x as i64, at.1 - y as i64)
    }

    /// Notes that the borders of the workspaces have been drawn.
    pub fn borders_drawn(&mut self)
        requires
            old(self)@.wf(),
        ensures
            final(self)@ == (GateView {
                stage: StageView { layout_dirty: false, ..old(self)@.stage },
                ..old(self)@
            }),
            final(self)@.wf(),
    {
        self.stage.layout_dirty = false;
        proof {
            state::lemma_same_places(old(self)@, self@);
        }
    }

    /// Notes that the borders of the scratchpads have been drawn.
    pub fn scratchpad_borders_drawn(&mut self)
        requires
            old(self)@.wf(),
        ensures
            final(self)@ == (GateView {
                stage: StageView { scratchpad_layout_dirty: false, ..old(self)@.stage },
                ..old(self)@
            }),
            final(self)@.wf(),
    {
        self.stage.scratchpad_layout_dirty = false;
        proof {
            state::lemma_same_places(old(self)@, self@);
        }
    }

    /// Takes note that the bars are drawn again. Returns whether they have to
    /// be.
    pub fn take_bar_dirty(&mut self) -> (was: bool)
        requires
            old(self)@.wf(),
        ensures
            was == old(self)@.stage.bar_dirty,
            final(self)@ == (GateView {
                stage: StageView { bar_dirty: false, ..old(self)@.stage },
                ..old(self)@
            }),
            final(self)@.wf(),
    {
        let was: bool = self.stage.bar_dirty;
        self.stage.bar_dirty = false;
        proof {
            state::lemma_same_places(old(self)@, self@);
        }
        was
    }
}

#[derive(Clone, Copy, Debug, PartialEq, Eq, Structural)]
pub enum Side {
    Top,
    Bottom,
    Left,
    Right,
}

/// A strip and where it is drawn.
#[derive(Clone, Copy, Debug, PartialEq, Eq, Structural)]
pub struct PlacedStrip {
    pub side: Side,
    pub x: i64,
    pub y: i64,
}

/// Whether there is anything to draw.
pub open spec fn has_pixels(strip: (Vec<u8>, u32, u32)) -> bool {
    strip.0@.len() > 0 && strip.1 > 0 && strip.2 > 0
}

/// The strip where there is anything to draw.
pub open spec fn placed_if(strip: (Vec<u8>, u32, u32), side: Side, x: int, y: int) -> Seq<
    PlacedStrip,
> {
    if has_pixels(strip) {
        seq![PlacedStrip { side, x: x as i64, y: y as i64 }]
    } else {
        Seq::empty()
    }
}

/// The strips of a border that begins at a place.
pub open spec fn strips_at(s: BorderStrips, size: Size, border_px: int, x: int, y: int) -> Seq<
    PlacedStrip,
> {
    let bp = if border_px > 0 { border_px } else { 0 };
    placed_if(s.top, Side::Top, x, y) + placed_if(s.bottom, Side::Bottom, x, y + size.h - bp)
        + placed_if(s.left, Side::Left, x, y + bp) + placed_if(
        s.right,
        Side::Right,
        x + size.w - bp,
        y + bp,
    )
}

fn push_strip(
    out: &mut Vec<PlacedStrip>,
    strip: &(Vec<u8>, u32, u32),
    side: Side,
    x: i64,
    y: i64,
)
    ensures
        final(out)@ == old(out)@ + placed_if(*strip, side, x as int, y as int),
{
    if strip.0.len() > 0 && strip.1 > 0 && strip.2 > 0 {
        out.push(PlacedStrip { side, x, y });
    }
    assert(out@ =~= old(out)@ + placed_if(*strip, side, x as int, y as int));
}

/// The strips to draw of a border that begins at a place.
pub fn place_strips(
    strips: &BorderStrips,
    size: Size,
    border_px: i32,
    x: i64,
    y: i64,
) -> (out: Vec<PlacedStrip>)
    requires
        -0x4000_0000_0000 <= x <= 0x4000_0000_0000,
        -0x4000_0000_0000 <= y <= 0x4000_0000_0000,
    ensures
        out@ == strips_at(*strips, size, border_px as int, x as int, y as int),
{
    let bp: i64 = if border_px > 0 {
        border_px as i64
    } else {
        0
    };
    let mut out: Vec<PlacedStrip> = Vec::new();
    assert(out@ =~= Seq::<PlacedStrip>::empty());
    push_strip(&mut out, &strips.top, Side::Top, x, y);
    push_strip(&mut out, &strips.bottom, Side::Bottom, x, y + size.h as i64 - bp);
    push_strip(&mut out, &strips.left, Side::Left, x, y + bp);
    push_strip(&mut out, &strips.right, Side::Right, x + size.w as i64 - bp, y + bp);
    assert(out@ =~= strips_at(*strips, size, border_px as int, x as int, y as int));
    out
}

// ---- The bar ----------------------------------------------------------------

/// How far below the upper edge of an output the bar begins.
pub fn bar_top(bar: &BarConfig, output_h: i32) -> (y: i64)
    ensures
        y == (match bar.position {
            BarPosition::Top => 0,
            BarPosition::Bottom => output_h - bar.height,
        }),
{
    match bar.position {
        BarPosition::Top => 0,
        BarPosition::Bottom => output_h as i64 - bar.height as i64,
    }
}

/// Whether the bar and the area for windows fit together: they share no
/// pixel of the output and leave none over.
pub proof fn law_bar_beside_workarea(bar: BarConfig, x: i32, y: i32, size: Size, row: int)
    requires
        bar.enabled,
        0 <= bar.height <= size.h,
        size.h <= state::MAX_OUTPUT,
        -state::MAX_PLACE <= y <= state::MAX_PLACE,
        0 <= row < size.h,
    ensures
        ({
            let top = match bar.position {
                BarPosition::Top => 0int,
                BarPosition::Bottom => size.h - bar.height,
            };
            let a = crate::gate::desk::work_area(bar, x, y, size);
            (top <= row < top + bar.height) != (a.y <= y + row < a.y + a.h)
        }),
{
}

/// The strips of a border stand at its four edges: the upper one at its corner,
/// the lower one with its lower edge on that of the border, and those at the
/// sides between them, the right one with its right edge on that of the border.
pub proof fn law_strips_stand_at_the_edges(
    s: BorderStrips,
    size: Size,
    border_px: int,
    x: int,
    y: int,
    k: int,
)
    requires
        0 < border_px <= 0x1000_0000,
        -0x4000_0000 <= x <= 0x4000_0000,
        -0x4000_0000 <= y <= 0x4000_0000,
        0 <= k < strips_at(s, size, border_px, x, y).len(),
    ensures
        ({
            let p = strips_at(s, size, border_px, x, y)[k];
            &&& p.side == Side::Top ==> p.x == x && p.y == y
            &&& p.side == Side::Bottom ==> p.x == x && p.y + border_px == y + size.h
            &&& p.side == Side::Left ==> p.x == x && p.y - border_px == y
            &&& p.side == Side::Right ==> p.x + border_px == x + size.w && p.y - border_px == y
        }),
{
}

/// The border of a window that moves goes along with it, one border width
/// outside; without a window it stays where the layout has put it.
pub proof fn law_border_follows_its_window(s: StageView, rect: Rect, j: int, border_px: int)
    ensures
        0 <= j < s.base.len() && stage::place_of(s.space, s.base[j].window) is Some ==> {
            let p = stage::place_of(s.space, s.base[j].window)->0;
            let at = border_origin(s, rect, j, border_px);
            p.x - at.0 == border_px && p.y - at.1 == border_px
        },
        0 <= j < s.base.len() && stage::place_of(s.space, s.base[j].window) is None
            ==> border_origin(s, rect, j, border_px) == (rect.x as int, rect.y as int),
{
}

} // verus!
