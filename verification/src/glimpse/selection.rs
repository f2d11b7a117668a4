//! What the user selects with the pointer: a window, the screen, or a
//! rectangle that is drawn by dragging.
//!
//! The place of the pointer is given in units of 1/256 of a pixel, which is
//! how the display server gives it.

use vstd::prelude::*;

use crate::geometry;
use crate::geometry::Rect;
use crate::ipc::message::WindowGeometry;

verus! {

/// How many units make a pixel.
pub const UNITS: i64 = 256;

/// How far the pointer may be, in units.
pub const FAR: i64 = 0x40_0000_0000;

/// What is under the pointer.
#[derive(Clone, Copy, Debug, PartialEq, Eq, Structural)]
pub enum HoverTarget {
    /// No window: the screen as a whole.
    Fullscreen { x: i32, y: i32, w: i32, h: i32 },
    /// The window with this index.
    Window { index: usize, x: i32, y: i32, w: i32, h: i32 },
}

#[derive(Clone, Copy, Debug, PartialEq, Eq, Structural)]
pub enum Mode {
    Hover,
    Dragging { start_x: i64, start_y: i64 },
}

/// The selection and what it is made from.
#[derive(Clone, Copy, Debug)]
pub struct SelectionState {
    pub target: HoverTarget,
    pub mode: Mode,
    pub pointer_x: i64,
    pub pointer_y: i64,
    /// The screen as a whole.
    pub screen_x: i32,
    pub screen_y: i32,
    pub screen_w: i32,
    pub screen_h: i32,
}

/// The pixel of a number of units, without its fraction.
pub open spec fn pixel(units: int) -> int {
    geometry::quotient(units, UNITS as int)
}

fn to_pixel(units: i64) -> (p: i32)
    requires
        -FAR <= units <= FAR,
    ensures
        p == pixel(units as int),
{
    if units >= 0 {
        (units / UNITS) as i32
    } else {
        -((-units / UNITS) as i32)
    }
}

/// How far two numbers are apart.
pub open spec fn distance(a: int, b: int) -> int {
    if a < b {
        b - a
    } else {
        a - b
    }
}

/// Whether the window covers the pixel.
pub open spec fn covers(w: WindowGeometry, px: int, py: int) -> bool {
    w.x <= px < w.x + w.w && w.y <= py < w.y + w.h
}

/// The first window at or after `i` that covers the pixel; the number of
/// windows where none does.
pub open spec fn covering_from(ws: Seq<WindowGeometry>, px: int, py: int, i: int) -> int
    decreases ws.len() - i,
{
    if i >= ws.len() {
        ws.len() as int
    } else if covers(ws[i], px, py) {
        i
    } else {
        covering_from(ws, px, py, i + 1)
    }
}

impl SelectionState {
    /// Whether the places of the pointer fit the arithmetic.
    pub open spec fn wf(self) -> bool {
        &&& -FAR <= self.pointer_x <= FAR
        &&& -FAR <= self.pointer_y <= FAR
        &&& self.mode matches Mode::Dragging { start_x, start_y } ==> -FAR <= start_x <= FAR
            && -FAR <= start_y <= FAR
    }

    /// The screen as a whole.
    pub open spec fn screen(self) -> HoverTarget {
        HoverTarget::Fullscreen {
            x: self.screen_x,
            y: self.screen_y,
            w: self.screen_w,
            h: self.screen_h,
        }
    }

    /// What is under the pointer.
    pub open spec fn target_among(self, ws: Seq<WindowGeometry>) -> HoverTarget {
        let px = pixel(self.pointer_x as int);
        let py = pixel(self.pointer_y as int);
        let i = covering_from(ws, px, py, 0);
        if i < ws.len() {
            HoverTarget::Window { index: i as usize, x: ws[i].x, y: ws[i].y, w: ws[i].w, h: ws[i].h }
        } else {
            self.screen()
        }
    }

    /// The rectangle of what is under the pointer.
    pub open spec fn hovered(self) -> Rect {
        match self.target {
            HoverTarget::Window { x, y, w, h, .. } => Rect { x, y, w, h },
            HoverTarget::Fullscreen { x, y, w, h } => Rect { x, y, w, h },
        }
    }

    /// The rectangle between where dragging began and the pointer.
    pub open spec fn dragged(self, start_x: int, start_y: int) -> Rect {
        Rect {
            x: pixel(geometry::min(start_x, self.pointer_x as int)) as i32,
            y: pixel(geometry::min(start_y, self.pointer_y as int)) as i32,
            w: pixel(distance(self.pointer_x as int, start_x)) as i32,
            h: pixel(distance(self.pointer_y as int, start_y)) as i32,
        }
    }

    /// The rectangle to highlight.
    pub open spec fn highlighted(self) -> Rect {
        match self.mode {
            Mode::Dragging { start_x, start_y } => self.dragged(start_x as int, start_y as int),
            Mode::Hover => self.hovered(),
        }
    }

    /// Whether the pointer has moved so little that a press counts as a click.
    pub open spec fn clicked(self, start_x: int, start_y: int) -> bool {
        &&& distance(self.pointer_x as int, start_x) < 5 * UNITS
        &&& distance(self.pointer_y as int, start_y) < 5 * UNITS
    }

    /// The rectangle that is selected: after a click or none what is under the
    /// pointer, after dragging the rectangle that was drawn, which is at least
    /// one pixel wide and high.
    pub open spec fn selected(self) -> Rect {
        match self.mode {
            Mode::Dragging { start_x, start_y } => if self.clicked(
                start_x as int,
                start_y as int,
            ) {
                self.hovered()
            } else {
                let r = self.dragged(start_x as int, start_y as int);
                Rect {
                    w: geometry::max(r.w as int, 1) as i32,
                    h: geometry::max(r.h as int, 1) as i32,
                    ..r
                }
            },
            Mode::Hover => self.hovered(),
        }
    }

    pub fn new(screen_x: i32, screen_y: i32, screen_w: i32, screen_h: i32) -> (s: SelectionState)
        ensures
            s.wf(),
            s.target == s.screen(),
            s.mode == Mode::Hover,
            s.pointer_x == 0,
            s.pointer_y == 0,
            s.screen_x == screen_x,
            s.screen_y == screen_y,
            s.screen_w == screen_w,
            s.screen_h == screen_h,
    {
        SelectionState {
            target: HoverTarget::Fullscreen { x: screen_x, y: screen_y, w: screen_w, h: screen_h },
            mode: Mode::Hover,
            pointer_x: 0,
            pointer_y: 0,
            screen_x,
            screen_y,
            screen_w,
            screen_h,
        }
    }

    /// Looks what is under the pointer.
    pub fn update_hover(&mut self, windows: &Vec<WindowGeometry>)
        requires
            old(self).wf(),
        ensures
            final(self).wf(),
            *final(self) == (SelectionState {
                target: old(self).target_among(windows@),
                ..*old(self)
            }),
    {
        let px: i64 = to_pixel(self.pointer_x) as i64;
        let py: i64 = to_pixel(self.pointer_y) as i64;
        let mut i: usize = 0;
        while i < windows.len()
            invariant
                i <= windows.len(),
                *self == *old(self),
                self.wf(),
                px == pixel(self.pointer_x as int),
                py == pixel(self.pointer_y as int),
                covering_from(windows@, px as int, py as int, 0) == covering_from(
                    windows@,
                    px as int,
                    py as int,
                    i as int,
                ),
            decreases windows.len() - i,
        {
            let w: &WindowGeometry = &windows[i];
            if w.x as i64 <= px && px < w.x as i64 + w.w as i64 && w.y as i64 <= py && py
                < w.y as i64 + w.h as i64 {
                self.target = HoverTarget::Window { index: i, x: w.x, y: w.y, w: w.w, h: w.h };
                return;
            }
            i = i + 1;
        }
        self.target = HoverTarget::Fullscreen {
            x: self.screen_x,
            y: self.screen_y,
            w: self.screen_w,
            h: self.screen_h,
        };
    }

    /// The button goes down.
    pub fn start_press(&mut self)
        requires
            old(self).wf(),
        ensures
            final(self).wf(),
            *final(self) == (SelectionState {
                mode: Mode::Dragging {
                    start_x: old(self).pointer_x,
                    start_y: old(self).pointer_y,
                },
                ..*old(self)
            }),
    {
        self.mode = Mode::Dragging { start_x: self.pointer_x, start_y: self.pointer_y };
    }

    fn hover_rect(&self) -> (r: Rect)
        ensures
            r == self.hovered(),
    {
        match self.target {
            HoverTarget::Window { x, y, w, h, .. } => Rect { x, y, w, h },
            HoverTarget::Fullscreen { x, y, w, h } => Rect { x, y, w, h },
        }
    }

    fn drag_rect(&self, start_x: i64, start_y: i64) -> (r: Rect)
        requires
            self.wf(),
            -FAR <= start_x <= FAR,
            -FAR <= start_y <= FAR,
        ensures
            r == self.dragged(start_x as int, start_y as int),
    {
        let left: i64 = if start_x <= self.pointer_x {
            start_x
        } else {
            self.pointer_x
        };
        let top: i64 = if start_y <= self.pointer_y {
            start_y
        } else {
            self.pointer_y
        };
        let dx: i64 = if self.pointer_x < start_x {
            start_x - self.pointer_x
        } else {
            self.pointer_x - start_x
        };
        let dy: i64 = if self.pointer_y < start_y {
            start_y - self.pointer_y
        } else {
            self.pointer_y - start_y
        };
        Rect {
            x: to_pixel(left),
            y: to_pixel(top),
            w: (dx / UNITS) as i32,
            h: (dy / UNITS) as i32,
        }
    }

    /// The rectangle that is selected.
    pub fn end_press(&self) -> (r: Rect)
        requires
            self.wf(),
        ensures
            r == self.selected(),
    {
        match self.mode {
            Mode::Dragging { start_x, start_y } => {
                let dx: i64 = if self.pointer_x < start_x {
                    start_x - self.pointer_x
                } else {
                    self.pointer_x - start_x
                };
                let dy: i64 = if self.pointer_y < start_y {
                    start_y - self.pointer_y
                } else {
                    self.pointer_y - start_y
                };
                if dx < 5 * UNITS && dy < 5 * UNITS {
                    self.hover_rect()
                } else {
                    let r: Rect = self.drag_rect(start_x, start_y);
                    Rect {
                        x: r.x,
                        y: r.y,
                        w: geometry::max_i32(r.w, 1),
                        h: geometry::max_i32(r.h, 1),
                    }
                }
            },
            Mode::Hover => self.hover_rect(),
        }
    }

    /// The rectangle to highlight.
    pub fn highlight_rect(&self) -> (r: Rect)
        requires
            self.wf(),
        ensures
            r == self.highlighted(),
    {
        match self.mode {
            Mode::Dragging { start_x, start_y } => self.drag_rect(start_x, start_y),
            Mode::Hover => self.hover_rect(),
        }
    }
}

proof fn lemma_covering(ws: Seq<WindowGeometry>, px: int, py: int, i: int)
    requires
        0 <= i <= ws.len(),
    ensures
        i <= covering_from(ws, px, py, i) <= ws.len(),
        covering_from(ws, px, py, i) < ws.len() ==> covers(
            ws[covering_from(ws, px, py, i)],
            px,
            py,
        ),
    decreases ws.len() - i,
{
    if i < ws.len() && !covers(ws[i], px, py) {
        lemma_covering(ws, px, py, i + 1);
    }
}

/// A window that is picked by hovering is one that the pointer is on.
pub proof fn law_hovered_window_is_under_pointer(s: SelectionState, ws: Seq<WindowGeometry>)
    requires
        s.wf(),
        ws.len() <= usize::MAX,
        s.target_among(ws) is Window,
    ensures
        ({
            let i = s.target_among(ws)->index as int;
            0 <= i < ws.len() && covers(ws[i], pixel(s.pointer_x as int), pixel(s.pointer_y as int))
        }),
{
    lemma_covering(ws, pixel(s.pointer_x as int), pixel(s.pointer_y as int), 0);
}

/// It makes no difference from which corner a rectangle is dragged.
pub proof fn law_drag_direction(s: SelectionState, t: SelectionState)
    requires
        s.wf(),
        t.wf(),
        s.mode == (Mode::Dragging { start_x: t.pointer_x, start_y: t.pointer_y }),
        t.mode == (Mode::Dragging { start_x: s.pointer_x, start_y: s.pointer_y }),
        s.target == t.target,
    ensures
        s.selected() == t.selected(),
        s.highlighted() == t.highlighted(),
{
}

/// What is selected by dragging is what was highlighted, but for its being at
/// least one pixel wide and high.
pub proof fn law_selected_is_highlighted(s: SelectionState, start_x: i64, start_y: i64)
    requires
        s.wf(),
        s.mode == (Mode::Dragging { start_x, start_y }),
        !s.clicked(start_x as int, start_y as int),
    ensures
        s.selected().x == s.highlighted().x,
        s.selected().y == s.highlighted().y,
        s.selected().w == geometry::max(s.highlighted().w as int, 1),
        s.selected().h == geometry::max(s.highlighted().h as int, 1),
{
}

/// A rectangle that is dragged reaches from the pixel of one corner to that of
/// the other, and is never empty; a press that moves less than five pixels each
/// way is a click and selects what is under the pointer.
pub proof fn law_dragging_spans_a_rectangle(s: SelectionState, start_x: i64, start_y: i64)
    requires
        s.wf(),
        s.mode == (Mode::Dragging { start_x, start_y }),
        0 <= start_x <= 0x1000_0000,
        0 <= start_y <= 0x1000_0000,
        0 <= s.pointer_x <= 0x1000_0000,
        0 <= s.pointer_y <= 0x1000_0000,
    ensures
        ({
            let r = s.selected();
            let left = if start_x <= s.pointer_x { start_x } else { s.pointer_x };
            let right = if start_x <= s.pointer_x { s.pointer_x } else { start_x };
            let top = if start_y <= s.pointer_y { start_y } else { s.pointer_y };
            let bottom = if start_y <= s.pointer_y { s.pointer_y } else { start_y };
            let still = right - left < 5 * 256 && bottom - top < 5 * 256;
            &&& still ==> r == s.hovered()
            &&& !still ==> {
                &&& 256 * r.x <= left < 256 * (r.x + 1)
                &&& 256 * r.y <= top < 256 * (r.y + 1)
                &&& r.w >= 1 && r.h >= 1
                &&& right - left >= 256 ==> 256 * r.w <= right - left < 256 * (r.w + 1)
                &&& bottom - top >= 256 ==> 256 * r.h <= bottom - top < 256 * (r.h + 1)
                &&& right - left < 256 ==> r.w == 1
                &&& bottom - top < 256 ==> r.h == 1
            }
        }),
{
}

/// Of the windows under the pointer the first one is the target, with its own
/// rectangle; without one the whole screen is.
pub proof fn law_first_window_is_target(s: SelectionState, ws: Seq<WindowGeometry>, i: int)
    requires
        0 <= s.pointer_x,
        0 <= s.pointer_y,
        0 <= i <= ws.len() <= usize::MAX,
        ({
            let px = s.pointer_x as int / 256;
            let py = s.pointer_y as int / 256;
            &&& i < ws.len() ==> ws[i].x <= px < ws[i].x + ws[i].w && ws[i].y <= py < ws[i].y
                + ws[i].h
            &&& forall|j: int|
                0 <= j < i ==> !((#[trigger] ws[j]).x <= px < ws[j].x + ws[j].w && ws[j].y <= py
                    < ws[j].y + ws[j].h)
        }),
    ensures
        i < ws.len() ==> s.target_among(ws) == (HoverTarget::Window {
            index: i as usize,
            x: ws[i].x,
            y: ws[i].y,
            w: ws[i].w,
            h: ws[i].h,
        }),
        i == ws.len() ==> s.target_among(ws) == (HoverTarget::Fullscreen {
            x: s.screen_x,
            y: s.screen_y,
            w: s.screen_w,
            h: s.screen_h,
        }),
{
    lemma_first_covering(ws, s.pointer_x as int / 256, s.pointer_y as int / 256, 0, i);
}

proof fn lemma_first_covering(ws: Seq<WindowGeometry>, px: int, py: int, j: int, i: int)
    requires
        0 <= j <= i <= ws.len(),
        i < ws.len() ==> covers(ws[i], px, py),
        forall|k: int| j <= k < i ==> !covers(#[trigger] ws[k], px, py),
    ensures
        covering_from(ws, px, py, j) == i,
    decreases i - j,
{
    if j < i {
        lemma_first_covering(ws, px, py, j + 1, i);
    }
}

/// Without dragging, what is under the pointer is selected.
pub proof fn law_hover_selects_target(s: SelectionState)
    requires
        s.mode == Mode::Hover,
    ensures
        match s.target {
            HoverTarget::Window { index, x, y, w, h } => s.selected() == (Rect { x, y, w, h }),
            HoverTarget::Fullscreen { x, y, w, h } => s.selected() == (Rect { x, y, w, h }),
        },
{
}

} // verus!
