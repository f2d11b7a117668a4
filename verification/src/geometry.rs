//! Rectangles in whole pixels.

use vstd::prelude::*;

verus! {

/// A rectangle: its top left corner and its size.
#[derive(Clone, Copy, Debug, PartialEq, Eq, Structural)]
pub struct Rect {
    pub x: i32,
    pub y: i32,
    pub w: i32,
    pub h: i32,
}

/// A width and a height.
#[derive(Clone, Copy, Debug, PartialEq, Eq, Structural)]
pub struct Size {
    pub w: i32,
    pub h: i32,
}

/// Coordinates up to which sums and small multiples of them fit an `i32`.
pub const FAR: i32 = 0x0400_0000;

impl Rect {
    /// Whether every number of the rectangle lies between `-limit` and `limit`.
    pub open spec fn within(self, limit: int) -> bool {
        &&& -limit <= self.x <= limit
        &&& -limit <= self.y <= limit
        &&& -limit <= self.w <= limit
        &&& -limit <= self.h <= limit
    }

    /// Whether the point lies in the rectangle.
    pub open spec fn holds(self, px: int, py: int) -> bool {
        &&& self.x <= px < self.x + self.w
        &&& self.y <= py < self.y + self.h
    }

    /// Whether the rectangle lies in `outer`, edges allowed to touch.
    pub open spec fn inside(self, outer: Rect) -> bool {
        &&& outer.x <= self.x
        &&& outer.y <= self.y
        &&& self.x + self.w <= outer.x + outer.w
        &&& self.y + self.h <= outer.y + outer.h
    }

    /// Whether the two rectangles have no point in common.
    pub open spec fn apart(self, other: Rect) -> bool {
        forall|px: int, py: int| !(#[trigger] self.holds(px, py) && other.holds(px, py))
    }

    /// Whether the point lies in the rectangle.
    pub fn contains(self, px: i32, py: i32) -> (r: bool)
        ensures
            r == self.holds(px as int, py as int),
    {
        let dx: i64 = px as i64 - self.x as i64;
        let dy: i64 = py as i64 - self.y as i64;
        0 <= dx && dx < self.w as i64 && 0 <= dy && dy < self.h as i64
    }
}

/// The larger of two numbers.
pub open spec fn max(a: int, b: int) -> int {
    if a >= b {
        a
    } else {
        b
    }
}

/// The smaller of two numbers.
pub open spec fn min(a: int, b: int) -> int {
    if a <= b {
        a
    } else {
        b
    }
}

/// The larger of two numbers.
pub fn max_i32(a: i32, b: i32) -> (r: i32)
    ensures
        r == max(a as int, b as int),
{
    if a >= b {
        a
    } else {
        b
    }
}

/// The smaller of two numbers.
pub fn min_i32(a: i32, b: i32) -> (r: i32)
    ensures
        r == min(a as int, b as int),
{
    if a <= b {
        a
    } else {
        b
    }
}

/// The quotient rounded toward zero.
pub open spec fn quotient(a: int, b: int) -> int {
    if a >= 0 {
        a / b
    } else {
        -((-a) / b)
    }
}

/// Divides by a positive number, rounding toward zero.
pub fn divide(a: i32, b: i32) -> (r: i32)
    requires
        b > 0,
    ensures
        r == quotient(a as int, b as int),
        a >= 0 ==> 0 <= r <= a,
        a <= 0 ==> a <= r <= 0,
{
    let n: i64 = a as i64;
    let d: i64 = b as i64;
    let m: i64 = if n >= 0 {
        n
    } else {
        -n
    };
    let q: i64 = m / d;
    assert(0 <= q <= m) by (nonlinear_arith)
        requires
            q == m / d,
            d > 0,
            m >= 0,
    ;
    if n >= 0 {
        q as i32
    } else {
        (-q) as i32
    }
}

/// Half of a number, rounded toward zero.
pub fn half(a: i32) -> (r: i32)
    ensures
        r == quotient(a as int, 2),
        a >= 0 ==> 0 <= r <= a,
        a <= 0 ==> a <= r <= 0,
{
    divide(a, 2)
}

/// A rectangle shrunk by `px` on all sides, at least one pixel wide and high.
pub open spec fn inset(r: Rect, px: int) -> Rect {
    Rect {
        x: (r.x + px) as i32,
        y: (r.y + px) as i32,
        w: max(r.w - 2 * px, 1) as i32,
        h: max(r.h - 2 * px, 1) as i32,
    }
}

/// A rectangle grown by `px` on all sides, at least one pixel wide and high.
pub open spec fn outset(r: Rect, px: int) -> Rect {
    inset(r, -px)
}

/// Shrinks a rectangle by `px` on all sides.
pub fn inset_rect(r: Rect, px: i32) -> (out: Rect)
    requires
        r.within(FAR as int * 16),
        -FAR <= px <= FAR,
    ensures
        out == inset(r, px as int),
{
    Rect { x: r.x + px, y: r.y + px, w: max_i32(r.w - px * 2, 1), h: max_i32(r.h - px * 2, 1) }
}

/// Grows a rectangle by `px` on all sides, the inverse of `inset_rect`.
pub fn outset_rect(r: Rect, px: i32) -> (out: Rect)
    requires
        r.within(FAR as int * 16),
        -FAR <= px <= FAR,
    ensures
        out == outset(r, px as int),
{
    Rect { x: r.x - px, y: r.y - px, w: max_i32(r.w + px * 2, 1), h: max_i32(r.h + px * 2, 1) }
}

/// Growing undoes shrinking for a rectangle that leaves a pixel inside.
pub proof fn law_outset_undoes_inset(r: Rect, px: int)
    requires
        r.within(FAR as int * 16),
        0 <= px <= FAR,
        r.w > 2 * px,
        r.h > 2 * px,
    ensures
        outset(inset(r, px), px) == r,
{
}

} // verus!
