//! The darkened screen with the selection cut out of it.

use vstd::prelude::*;

use crate::geometry;
use crate::geometry::Rect;

verus! {

/// The part of a rectangle that is on a surface, seen from its corner; the
/// empty rectangle where there is none.
pub open spec fn clipped(r: Rect, ox: int, oy: int, lw: int, lh: int) -> Rect {
    let x0 = geometry::max(r.x as int, ox);
    let y0 = geometry::max(r.y as int, oy);
    let x1 = geometry::min(r.x + r.w, ox + lw);
    let y1 = geometry::min(r.y + r.h, oy + lh);
    if r.w <= 0 || r.h <= 0 || x1 <= x0 || y1 <= y0 {
        Rect { x: 0, y: 0, w: 0, h: 0 }
    } else {
        Rect { x: (x0 - ox) as i32, y: (y0 - oy) as i32, w: (x1 - x0) as i32, h: (y1 - y0) as i32 }
    }
}

/// The part of a rectangle that is on a surface of `lw` by `lh` pixels whose
/// corner is at (`ox`, `oy`), seen from that corner.
pub fn clip_global_to_local(rect: Rect, ox: i32, oy: i32, lw: i32, lh: i32) -> (r: Rect)
    ensures
        r == clipped(rect, ox as int, oy as int, lw as int, lh as int),
        0 <= r.x,
        0 <= r.y,
        0 <= r.w,
        0 <= r.h,
        0 <= lw ==> r.x + r.w <= lw,
        0 <= lh ==> r.y + r.h <= lh,
{
    let none: Rect = Rect { x: 0, y: 0, w: 0, h: 0 };
    if rect.w <= 0 || rect.h <= 0 {
        return none;
    }
    let x0: i32 = geometry::max_i32(rect.x, ox);
    let y0: i32 = geometry::max_i32(rect.y, oy);
    let rx: i64 = rect.x as i64 + rect.w as i64;
    let ry: i64 = rect.y as i64 + rect.h as i64;
    let sx: i64 = ox as i64 + lw as i64;
    let sy: i64 = oy as i64 + lh as i64;
    let x1: i64 = if rx < sx {
        rx
    } else {
        sx
    };
    let y1: i64 = if ry < sy {
        ry
    } else {
        sy
    };
    if x1 <= x0 as i64 || y1 <= y0 as i64 {
        return none;
    }
    Rect {
        x: (x0 as i64 - ox as i64) as i32,
        y: (y0 as i64 - oy as i64) as i32,
        w: (x1 - x0 as i64) as i32,
        h: (y1 - y0 as i64) as i32,
    }
}

/// A pixel is in the clipped rectangle exactly where it is on the surface and
/// in the rectangle.
pub proof fn law_clipping_keeps_pixels(r: Rect, ox: int, oy: int, lw: int, lh: int, px: int, py: int)
    requires
        lw <= i32::MAX,
        lh <= i32::MAX,
    ensures
        clipped(r, ox, oy, lw, lh).holds(px, py) <==> 0 <= px < lw && 0 <= py < lh && r.holds(
            ox + px,
            oy + py,
        ),
{
}

/// What of a rectangle is not on a surface leaves the empty rectangle at its
/// corner.
pub proof fn law_nothing_to_clip(r: Rect, ox: int, oy: int, lw: int, lh: int)
    requires
        forall|px: int, py: int|
            !(0 <= px < lw && 0 <= py < lh && #[trigger] r.holds(ox + px, oy + py)),
    ensures
        clipped(r, ox, oy, lw, lh) == (Rect { x: 0, y: 0, w: 0, h: 0 }),
{
    let x0 = geometry::max(r.x as int, ox);
    let y0 = geometry::max(r.y as int, oy);
    assert(!(0 <= x0 - ox < lw && 0 <= y0 - oy < lh && r.holds(ox + (x0 - ox), oy + (y0 - oy))));
}

/// What the overlay shows.
#[derive(Clone, Copy, Debug, PartialEq, Eq, Structural)]
pub enum OverlayView {
    /// There is no room.
    Nothing,
    /// All is selected: a gentle shade over everything.
    Shade,
    /// A dark screen with the selection cut out.
    Cut(Rect),
}

/// How far a selection of `len` pixels that begins at `at` reaches on a line of
/// `room` pixels. A negative length reaches to the end of the line.
pub open spec fn cut_len(at: int, len: int, room: int) -> int {
    let left = geometry::max(room - at, 0);
    if len < 0 {
        left
    } else {
        geometry::min(len, left)
    }
}

fn cut_length(at: i32, len: i32, room: i32) -> (r: i32)
    requires
        0 <= at,
        0 <= room,
    ensures
        r == cut_len(at as int, len as int, room as int),
{
    let left: i32 = geometry::max_i32(room - at, 0);
    if len < 0 {
        left
    } else {
        geometry::min_i32(len, left)
    }
}

/// What the overlay shows of a selection on a surface.
pub fn plan_overlay(width: u32, height: u32, highlight: Rect) -> (v: OverlayView)
    requires
        width <= i32::MAX,
        height <= i32::MAX,
    ensures
        v == (if width == 0 || height == 0 {
            OverlayView::Nothing
        } else if highlight.x <= 0 && highlight.y <= 0 && highlight.w >= width && highlight.h
            >= height {
            OverlayView::Shade
        } else {
            let x = geometry::max(highlight.x as int, 0);
            let y = geometry::max(highlight.y as int, 0);
            OverlayView::Cut(
                Rect {
                    x: x as i32,
                    y: y as i32,
                    w: cut_len(x, highlight.w as int, width as int) as i32,
                    h: cut_len(y, highlight.h as int, height as int) as i32,
                },
            )
        }),
{
    if width == 0 || height == 0 {
        return OverlayView::Nothing;
    }
    let w: i32 = width as i32;
    let h: i32 = height as i32;
    if highlight.x <= 0 && highlight.y <= 0 && highlight.w >= w && highlight.h >= h {
        return OverlayView::Shade;
    }
    let x: i32 = geometry::max_i32(highlight.x, 0);
    let y: i32 = geometry::max_i32(highlight.y, 0);
    OverlayView::Cut(
        Rect {
            x,
            y,
            w: cut_length(x, highlight.w, w),
            h: cut_length(y, highlight.h, h),
        },
    )
}

/// Whether byte `k` of a picture belongs to a pixel in the rectangle.
pub open spec fn in_hole(k: int, width: int, r: Rect) -> bool {
    r.holds((k / 4) % width, (k / 4) / width)
}

/// Makes the pixels of a rectangle of a picture fully transparent.
pub fn cut_hole(data: &mut Vec<u8>, width: u32, height: u32, r: Rect)
    requires
        0 < width,
        0 < height,
        old(data).len() == 4 * (width * height),
    ensures
        final(data).len() == old(data).len(),
        forall|k: int|
            0 <= k < old(data).len() ==> #[trigger] final(data)@[k] == (if in_hole(
                k,
                width as int,
                r,
            ) {
                0
            } else {
                old(data)@[k]
            }),
{
    let ghost s = data@;
    let w: usize = width as usize;
    let h: usize = height as usize;
    let mut y: usize = 0;
    assert(0 * w == 0) by (nonlinear_arith);
    while y < h
        invariant
            y <= h,
            w == width,
            h == height,
            0 < w,
            0 < h,
            data.len() == 4 * (w * h),
            s.len() == data.len(),
            forall|k: int|
                0 <= k < 4 * (y * w) ==> #[trigger] data@[k] == (if in_hole(k, w as int, r) {
                    0
                } else {
                    s[k]
                }),
            forall|k: int| 4 * (y * w) <= k < s.len() ==> #[trigger] data@[k] == s[k],
        decreases h - y,
    {
        proof {
            assert(y * w + w <= w * h) by (nonlinear_arith)
                requires
                    0 <= y < h,
                    0 < w,
            ;
            assert((y + 1) * w == y * w + w) by (nonlinear_arith);
            assert(0 <= y * w) by (nonlinear_arith);
        }
        let mut x: usize = 0;
        while x < w
            invariant
                x <= w,
                y < h,
                w == width,
                0 < w,
                0 < h,
                0 <= y * w,
                y * w + w <= w * h,
                data.len() == 4 * (w * h),
                s.len() == data.len(),
                forall|k: int|
                    0 <= k < 4 * (y * w + x) ==> #[trigger] data@[k] == (if in_hole(
                        k,
                        w as int,
                        r,
                    ) {
                        0
                    } else {
                        s[k]
                    }),
                forall|k: int| 4 * (y * w + x) <= k < s.len() ==> #[trigger] data@[k] == s[k],
            decreases w - x,
        {
            let base: usize = (y * w + x) * 4;
            proof {
                vstd::arithmetic::div_mod::lemma_fundamental_div_mod_converse(
                    y * w + x,
                    w as int,
                    y as int,
                    x as int,
                );
                assert forall|k: int| base <= k < base + 4 implies in_hole(k, w as int, r)
                    == r.holds(x as int, y as int) by {
                    assert(k / 4 == y * w + x);
                }
            }
            if r.x as i64 <= x as i64 && (x as i64) < r.x as i64 + r.w as i64 && r.y as i64
                <= y as i64 && (y as i64) < r.y as i64 + r.h as i64 {
                data.set(base, 0);
                data.set(base + 1, 0);
                data.set(base + 2, 0);
                data.set(base + 3, 0);
            }
            x = x + 1;
        }
        y = y + 1;
    }
    assert(y * w == w * h) by (nonlinear_arith)
        requires
            y == h,
    ;
}

/// A selection is cut off at the edge of the picture, and where it starts inside
/// it and ends inside it, it is shown as long as it is.
pub proof fn law_selection_ends_at_the_edge(at: int, len: int, room: int)
    requires
        0 <= at <= room,
        0 <= len,
    ensures
        at + len <= room ==> cut_len(at, len, room) == len,
        at + len > room ==> at + cut_len(at, len, room) == room,
{
}

} // verus!
