//! Pictures as rows of pixels of four bytes each: red, green, blue, alpha.

use vstd::arithmetic::div_mod::lemma_fundamental_div_mod_converse;
use vstd::prelude::*;

verus! {

// ---- Colours ----------------------------------------------------------------

/// The red, green and blue parts of a colour that is written `0xRRGGBB`.
pub open spec fn rgb_of(color: int) -> (int, int, int) {
    ((color / 0x1_0000) % 0x100, (color / 0x100) % 0x100, color % 0x100)
}

/// The red, green and blue parts of a colour.
pub fn split_rgb(color: u32) -> (out: (u8, u8, u8))
    ensures
        (out.0 as int, out.1 as int, out.2 as int) == rgb_of(color as int),
{
    (((color / 0x1_0000) % 0x100) as u8, ((color / 0x100) % 0x100) as u8, (color % 0x100) as u8)
}

/// A part of a pixel over which a colour is laid: `a` of 255 parts of the
/// colour, the rest of what was there.
pub open spec fn over(color: int, under: int, a: int) -> int {
    (color * a + under * (255 - a)) / 255
}

/// A part of a pixel over which a colour is laid.
pub fn blend_part(color: u8, under: u8, a: u8) -> (out: u8)
    ensures
        out == over(color as int, under as int, a as int),
{
    assert(0 <= color * a + under * (255 - a) <= 255 * 255) by (nonlinear_arith)
        requires
            0 <= color <= 255,
            0 <= under <= 255,
            0 <= a <= 255,
    ;
    assert(color * a <= 255 * 255 && under * (255 - a) <= 255 * 255 && 0 <= color * a && 0 <= under
        * (255 - a)) by (nonlinear_arith)
        requires
            0 <= color <= 255,
            0 <= under <= 255,
            0 <= a <= 255,
    ;
    ((color as u32 * a as u32 + under as u32 * (255 - a as u32)) / 255) as u8
}

/// A part of a pixel times its alpha, rounded down.
pub open spec fn faded(part: int, a: int) -> int {
    part * a / 255
}

/// The picture with every pixel's parts multiplied by its alpha, rounded
/// down. An incomplete last pixel stays.
pub open spec fn premultiplied(s: Seq<u8>) -> Seq<u8> {
    Seq::new(
        s.len(),
        |k: int|
            if k % 4 < 3 && (k / 4) * 4 + 3 < s.len() {
                faded(s[k] as int, s[(k / 4) * 4 + 3] as int) as u8
            } else {
                s[k]
            },
    )
}

fn fade(part: u8, a: u8) -> (out: u8)
    ensures
        out == faded(part as int, a as int),
{
    assert(0 <= part * a <= 255 * 255) by (nonlinear_arith)
        requires
            0 <= part <= 255,
            0 <= a <= 255,
    ;
    (part as u32 * a as u32 / 255) as u8
}

/// Multiplies the parts of every pixel by its alpha, rounding down.
pub fn premultiply(data: Vec<u8>) -> (out: Vec<u8>)
    ensures
        out@ == premultiplied(data@),
{
    let mut out: Vec<u8> = data;
    let ghost s = out@;
    let mut i: usize = 0;
    while i < out.len() && out.len() - i >= 4
        invariant
            i <= out.len(),
            i % 4 == 0,
            out@.len() == s.len(),
            forall|k: int| 0 <= k < i ==> #[trigger] out@[k] == premultiplied(s)[k],
            forall|k: int| i <= k < s.len() ==> #[trigger] out@[k] == s[k],
        decreases out.len() - i,
    {
        let a: u8 = out[i + 3];
        let r: u8 = fade(out[i], a);
        let g: u8 = fade(out[i + 1], a);
        let b: u8 = fade(out[i + 2], a);
        out.set(i, r);
        out.set(i + 1, g);
        out.set(i + 2, b);
        i = i + 4;
    }
    assert forall|k: int| i <= k < s.len() implies #[trigger] out@[k] == premultiplied(s)[k] by {
        assert((k / 4) * 4 + 3 >= s.len());
    }
    assert(out@ =~= premultiplied(s));
    out
}

/// The picture with every pixel's parts multiplied by its alpha, rounded to
/// the nearest.
pub open spec fn shaded(s: Seq<u8>) -> Seq<u8> {
    Seq::new(
        s.len(),
        |k: int|
            if k % 4 < 3 && (k / 4) * 4 + 3 < s.len() {
                ((2 * (s[k] * s[(k / 4) * 4 + 3]) + 255) / 510) as u8
            } else {
                s[k]
            },
    )
}

fn shade(part: u8, a: u8) -> (out: u8)
    ensures
        out == ((2 * (part * a) + 255) / 510) as u8,
{
    assert(0 <= part * a <= 255 * 255) by (nonlinear_arith)
        requires
            0 <= part <= 255,
            0 <= a <= 255,
    ;
    ((2 * (part as u32 * a as u32) + 255) / 510) as u8
}

/// Multiplies the parts of every pixel by its alpha, rounding to the nearest.
pub fn premultiply_nearest(data: Vec<u8>) -> (out: Vec<u8>)
    ensures
        out@ == shaded(data@),
{
    let mut out: Vec<u8> = data;
    let ghost s = out@;
    let mut i: usize = 0;
    while i < out.len() && out.len() - i >= 4
        invariant
            i <= out.len(),
            i % 4 == 0,
            out@.len() == s.len(),
            forall|k: int| 0 <= k < i ==> #[trigger] out@[k] == shaded(s)[k],
            forall|k: int| i <= k < s.len() ==> #[trigger] out@[k] == s[k],
        decreases out.len() - i,
    {
        let a: u8 = out[i + 3];
        let r: u8 = shade(out[i], a);
        let g: u8 = shade(out[i + 1], a);
        let b: u8 = shade(out[i + 2], a);
        out.set(i, r);
        out.set(i + 1, g);
        out.set(i + 2, b);
        i = i + 4;
    }
    assert forall|k: int| i <= k < s.len() implies #[trigger] out@[k] == shaded(s)[k] by {
        assert((k / 4) * 4 + 3 >= s.len());
    }
    assert(out@ =~= shaded(s));
    out
}

/// A fully opaque picture stays as it is.
pub proof fn law_opaque_pictures_stay(s: Seq<u8>)
    requires
        forall|k: int| 0 <= k < s.len() && k % 4 == 3 ==> #[trigger] s[k] == 255,
    ensures
        premultiplied(s) == s,
        shaded(s) == s,
{
    assert forall|k: int| 0 <= k < s.len() implies premultiplied(s)[k] == s[k] && shaded(s)[k]
        == s[k] by {
        let e = (k / 4) * 4 + 3;
        if k % 4 < 3 && e < s.len() {
            assert(s[e] == 255);
        }
    }
    assert(premultiplied(s) =~= s);
    assert(shaded(s) =~= s);
}

/// What is left of every part is at most the alpha, so that the colours can
/// be laid over others without overflow.
pub proof fn law_premultiplied_is_bounded(s: Seq<u8>, k: int)
    requires
        0 <= k < s.len(),
        (k / 4) * 4 + 3 < s.len(),
    ensures
        premultiplied(s)[k] <= premultiplied(s)[(k / 4) * 4 + 3],
        shaded(s)[k] <= shaded(s)[(k / 4) * 4 + 3],
{
    let e = (k / 4) * 4 + 3;
    assert(s[k] * s[e] <= 255 * s[e]) by (nonlinear_arith)
        requires
            0 <= s[k] <= 255,
            0 <= s[e] <= 255,
    ;
    assert(0 <= s[k] * s[e]) by (nonlinear_arith)
        requires
            0 <= s[k] <= 255,
            0 <= s[e] <= 255,
    ;
}

// ---- Exchanging colours -----------------------------------------------------

/// The picture with blue and red of every pixel exchanged.
pub open spec fn swapped(s: Seq<u8>) -> Seq<u8> {
    Seq::new(
        s.len(),
        |k: int|
            if (k / 4) * 4 + 3 >= s.len() {
                s[k]
            } else if k % 4 == 0 {
                s[k + 2]
            } else if k % 4 == 2 {
                s[k - 2]
            } else {
                s[k]
            },
    )
}

/// The picture with blue and red of every pixel exchanged.
pub fn swap_red_blue(bgra: &Vec<u8>) -> (out: Vec<u8>)
    ensures
        out@ == swapped(bgra@),
{
    let mut out: Vec<u8> = Vec::new();
    let mut i: usize = 0;
    while i < bgra.len()
        invariant
            i <= bgra.len(),
            out@.len() == i,
            forall|k: int| 0 <= k < i ==> #[trigger] out@[k] == swapped(bgra@)[k],
        decreases bgra.len() - i,
    {
        let c: usize = i % 4;
        let whole: bool = 3 - c < bgra.len() - i;
        let from: usize = if !whole {
            i
        } else if c == 0 {
            i + 2
        } else if c == 2 {
            i - 2
        } else {
            i
        };
        out.push(bgra[from]);
        i = i + 1;
    }
    assert(out@ =~= swapped(bgra@));
    out
}

/// Exchanging blue and red twice changes nothing.
pub proof fn law_swapping_twice(s: Seq<u8>)
    ensures
        swapped(swapped(s)) == s,
{
    assert(swapped(swapped(s)) =~= s);
}

// ---- Blurring ---------------------------------------------------------------

/// How far the blur reaches to each side.
pub const RADIUS: usize = 5;

/// How many pixels are averaged.
pub const REACH: usize = 11;

/// The place `d` steps along the reach of the blur around `x`, kept inside a
/// line of `n` pixels.
pub open spec fn reached(x: int, d: int, n: int) -> int {
    let p = if x + d < RADIUS { 0 } else { x + d - RADIUS };
    if p < n - 1 {
        p
    } else {
        n - 1
    }
}

/// The sum over the first `d` places in the reach of byte `k` in its row.
pub open spec fn row_sum(s: Seq<u8>, w: int, k: int, d: int) -> int
    decreases d,
{
    if d <= 0 {
        0
    } else {
        let x = (k / 4) % w;
        row_sum(s, w, k, d - 1) + s[k + 4 * (reached(x, d - 1, w) - x)]
    }
}

/// The sum over the first `d` places in the reach of byte `k` in its column.
pub open spec fn column_sum(s: Seq<u8>, w: int, h: int, k: int, d: int) -> int
    decreases d,
{
    if d <= 0 {
        0
    } else {
        let y = (k / 4) / w;
        column_sum(s, w, h, k, d - 1) + s[k + 4 * w * (reached(y, d - 1, h) - y)]
    }
}

/// The picture blurred along its rows.
pub open spec fn row_blurred(s: Seq<u8>, rest: Seq<u8>, w: int, h: int) -> Seq<u8> {
    Seq::new(
        rest.len(),
        |k: int|
            if k < 4 * (w * h) {
                (row_sum(s, w, k, REACH as int) / REACH as int) as u8
            } else {
                rest[k]
            },
    )
}

/// The picture blurred along its columns.
pub open spec fn column_blurred(s: Seq<u8>, rest: Seq<u8>, w: int, h: int) -> Seq<u8> {
    Seq::new(
        rest.len(),
        |k: int|
            if k < 4 * (w * h) {
                (column_sum(s, w, h, k, REACH as int) / REACH as int) as u8
            } else {
                rest[k]
            },
    )
}

/// The picture blurred along its rows and then along its columns: every pixel
/// is the average of those around it, the pixels at the edges counted again
/// for those beyond them.
pub open spec fn blurred(s: Seq<u8>, w: int, h: int) -> Seq<u8> {
    column_blurred(row_blurred(s, s, w, h), s, w, h)
}

proof fn lemma_place(w: int, h: int, x: int, y: int)
    requires
        0 <= x < w,
        0 <= y < h,
    ensures
        0 <= y * w,
        y * w + x < w * h,
        y * w + w <= w * h,
        (y * w + x) / w == y,
        (y * w + x) % w == x,
{
    assert(y * w + w <= w * h) by (nonlinear_arith)
        requires
            0 <= y < h,
            0 < w,
    ;
    assert(0 <= y * w) by (nonlinear_arith)
        requires
            0 <= y,
            0 < w,
    ;
    lemma_fundamental_div_mod_converse(y * w + x, w, y, x);
}

fn reach_place(x: usize, d: usize, n: usize) -> (r: usize)
    requires
        x < n,
        n <= usize::MAX / 4,
        d < REACH,
    ensures
        r == reached(x as int, d as int, n as int),
        r < n,
{
    let p: usize = if x + d < RADIUS {
        0
    } else {
        x + d - RADIUS
    };
    if p < n - 1 {
        p
    } else {
        n - 1
    }
}

fn sum_row(buf: &Vec<u8>, w: usize, h: usize, x: usize, y: usize, c: usize) -> (r: u32)
    requires
        x < w,
        y < h,
        c < 4,
        4 * (w * h) <= buf.len(),
    ensures
        r == row_sum(buf@, w as int, 4 * (y * w + x) + c, REACH as int),
        r <= 255 * REACH,
{
    proof {
        lemma_place(w as int, h as int, x as int, y as int);
    }
    let ghost k = 4 * (y * w + x) + c;
    assert(k / 4 == y * w + x);
    let row: usize = y * w;
    let mut r: u32 = 0;
    let mut d: usize = 0;
    while d < REACH
        invariant
            d <= REACH,
            x < w,
            c < 4,
            row == y * w,
            row + w <= w * h,
            4 * (w * h) <= buf.len(),
            k == 4 * (y * w + x) + c,
            (k / 4) % (w as int) == x,
            r == row_sum(buf@, w as int, k, d as int),
            r <= 255 * d,
        decreases REACH - d,
    {
        let sx: usize = reach_place(x, d, w);
        let i: usize = (row + sx) * 4 + c;
        assert(i == k + 4 * (sx - x));
        r = r + buf[i] as u32;
        d = d + 1;
    }
    r
}

fn sum_column(buf: &Vec<u8>, w: usize, h: usize, x: usize, y: usize, c: usize) -> (r: u32)
    requires
        x < w,
        y < h,
        c < 4,
        4 * (w * h) <= buf.len(),
    ensures
        r == column_sum(buf@, w as int, h as int, 4 * (y * w + x) + c, REACH as int),
        r <= 255 * REACH,
{
    proof {
        lemma_place(w as int, h as int, x as int, y as int);
        assert(h <= w * h) by (nonlinear_arith)
            requires
                0 < w,
                0 <= h,
        ;
    }
    let ghost k = 4 * (y * w + x) + c;
    assert(k / 4 == y * w + x);
    let mut r: u32 = 0;
    let mut d: usize = 0;
    while d < REACH
        invariant
            d <= REACH,
            x < w,
            y < h,
            c < 4,
            h <= w * h,
            4 * (w * h) <= buf.len(),
            k == 4 * (y * w + x) + c,
            (k / 4) / (w as int) == y,
            r == column_sum(buf@, w as int, h as int, k, d as int),
            r <= 255 * d,
        decreases REACH - d,
    {
        let sy: usize = reach_place(y, d, h);
        proof {
            lemma_place(w as int, h as int, x as int, sy as int);
            assert(4 * w * (sy - y) == 4 * (sy * w) - 4 * (y * w)) by (nonlinear_arith);
        }
        let i: usize = (sy * w + x) * 4 + c;
        assert(i == k + 4 * w * (sy - y));
        r = r + buf[i] as u32;
        d = d + 1;
    }
    r
}

fn blur_rows(buf: &Vec<u8>, w: usize, h: usize, out: &mut Vec<u8>)
    requires
        4 * (w * h) <= buf.len(),
        buf.len() == old(out).len(),
    ensures
        final(out)@ == row_blurred(buf@, old(out)@, w as int, h as int),
{
    let ghost rest = out@;
    let ghost want = row_blurred(buf@, rest, w as int, h as int);
    let mut y: usize = 0;
    proof {
        assert(0 * w == 0) by (nonlinear_arith);
    }
    while y < h
        invariant
            y <= h,
            4 * (w * h) <= buf.len(),
            buf.len() == out.len(),
            rest.len() == out.len(),
            want == row_blurred(buf@, rest, w as int, h as int),
            4 * (y * w) <= out.len(),
            forall|k: int| 0 <= k < 4 * (y * w) ==> #[trigger] out@[k] == want[k],
            forall|k: int| 4 * (y * w) <= k < out.len() ==> #[trigger] out@[k] == rest[k],
        decreases h - y,
    {
        let mut x: usize = 0;
        proof {
            assert(y * w + w <= w * h) by (nonlinear_arith)
                requires
                    0 <= y < h,
                    0 <= w,
            ;
            assert((y + 1) * w == y * w + w) by (nonlinear_arith);
            assert(0 <= y * w) by (nonlinear_arith);
        }
        while x < w
            invariant
                x <= w,
                y < h,
                4 * (w * h) <= buf.len(),
                buf.len() == out.len(),
                rest.len() == out.len(),
                y * w + w <= w * h,
                0 <= y * w,
                want == row_blurred(buf@, rest, w as int, h as int),
                forall|k: int| 0 <= k < 4 * (y * w + x) ==> #[trigger] out@[k] == want[k],
                forall|k: int| 4 * (y * w + x) <= k < out.len() ==> #[trigger] out@[k] == rest[k],
            decreases w - x,
        {
            let base: usize = (y * w + x) * 4;
            let mut c: usize = 0;
            while c < 4
                invariant
                    c <= 4,
                    x < w,
                    y < h,
                    base == 4 * (y * w + x),
                    4 * (w * h) <= buf.len(),
                    buf.len() == out.len(),
                    rest.len() == out.len(),
                    y * w + w <= w * h,
                    want == row_blurred(buf@, rest, w as int, h as int),
                    forall|k: int| 0 <= k < base + c ==> #[trigger] out@[k] == want[k],
                    forall|k: int| base + c <= k < out.len() ==> #[trigger] out@[k] == rest[k],
                decreases 4 - c,
            {
                let r: u32 = sum_row(buf, w, h, x, y, c);
                out.set(base + c, (r / REACH as u32) as u8);
                c = c + 1;
            }
            x = x + 1;
        }
        y = y + 1;
    }
    assert(y * w == w * h) by (nonlinear_arith)
        requires
            y == h,
    ;
    assert(out@ =~= want);
}

fn blur_columns(buf: &Vec<u8>, w: usize, h: usize, out: &mut Vec<u8>)
    requires
        4 * (w * h) <= buf.len(),
        buf.len() == old(out).len(),
    ensures
        final(out)@ == column_blurred(buf@, old(out)@, w as int, h as int),
{
    let ghost rest = out@;
    let ghost want = column_blurred(buf@, rest, w as int, h as int);
    let mut y: usize = 0;
    proof {
        assert(0 * w == 0) by (nonlinear_arith);
    }
    while y < h
        invariant
            y <= h,
            4 * (w * h) <= buf.len(),
            buf.len() == out.len(),
            rest.len() == out.len(),
            want == column_blurred(buf@, rest, w as int, h as int),
            4 * (y * w) <= out.len(),
            forall|k: int| 0 <= k < 4 * (y * w) ==> #[trigger] out@[k] == want[k],
            forall|k: int| 4 * (y * w) <= k < out.len() ==> #[trigger] out@[k] == rest[k],
        decreases h - y,
    {
        let mut x: usize = 0;
        proof {
            assert(y * w + w <= w * h) by (nonlinear_arith)
                requires
                    0 <= y < h,
                    0 <= w,
            ;
            assert((y + 1) * w == y * w + w) by (nonlinear_arith);
            assert(0 <= y * w) by (nonlinear_arith);
        }
        while x < w
            invariant
                x <= w,
                y < h,
                4 * (w * h) <= buf.len(),
                buf.len() == out.len(),
                rest.len() == out.len(),
                y * w + w <= w * h,
                0 <= y * w,
                want == column_blurred(buf@, rest, w as int, h as int),
                forall|k: int| 0 <= k < 4 * (y * w + x) ==> #[trigger] out@[k] == want[k],
                forall|k: int| 4 * (y * w + x) <= k < out.len() ==> #[trigger] out@[k] == rest[k],
            decreases w - x,
        {
            let base: usize = (y * w + x) * 4;
            let mut c: usize = 0;
            while c < 4
                invariant
                    c <= 4,
                    x < w,
                    y < h,
                    base == 4 * (y * w + x),
                    4 * (w * h) <= buf.len(),
                    buf.len() == out.len(),
                    rest.len() == out.len(),
                    y * w + w <= w * h,
                    want == column_blurred(buf@, rest, w as int, h as int),
                    forall|k: int| 0 <= k < base + c ==> #[trigger] out@[k] == want[k],
                    forall|k: int| base + c <= k < out.len() ==> #[trigger] out@[k] == rest[k],
                decreases 4 - c,
            {
                let r: u32 = sum_column(buf, w, h, x, y, c);
                out.set(base + c, (r / REACH as u32) as u8);
                c = c + 1;
            }
            x = x + 1;
        }
        y = y + 1;
    }
    assert(y * w == w * h) by (nonlinear_arith)
        requires
            y == h,
    ;
    assert(out@ =~= want);
}

/// Blurs a picture of `w` by `h` pixels. `scratch` holds the picture blurred
/// along its rows afterwards.
pub fn box_blur_rgba(buf: &mut Vec<u8>, w: usize, h: usize, scratch: &mut Vec<u8>)
    requires
        4 * (w * h) <= old(buf).len(),
        old(scratch).len() == old(buf).len(),
    ensures
        final(buf)@ == blurred(old(buf)@, w as int, h as int),
        final(scratch)@ == row_blurred(old(buf)@, old(scratch)@, w as int, h as int),
{
    let ghost s = buf@;
    let ghost t = scratch@;
    blur_rows(buf, w, h, scratch);
    blur_columns(scratch, w, h, buf);
    proof {
        let a = row_blurred(s, t, w as int, h as int);
        let b = row_blurred(s, s, w as int, h as int);
        assert forall|k: int| 0 <= k < 4 * (w * h) implies a[k] == b[k] by {}
        assert forall|k: int| 0 <= k < 4 * (w * h) implies column_blurred(
            a,
            s,
            w as int,
            h as int,
        )[k] == column_blurred(b, s, w as int, h as int)[k] by {
            lemma_same_columns(a, b, w as int, h as int, k, REACH as int);
        }
        assert(column_blurred(a, s, w as int, h as int) =~= blurred(s, w as int, h as int));
    }
}

proof fn lemma_same_columns(a: Seq<u8>, b: Seq<u8>, w: int, h: int, k: int, d: int)
    requires
        0 <= k < 4 * (w * h),
        0 <= w,
        0 <= h,
        0 <= d,
        4 * (w * h) <= a.len(),
        4 * (w * h) <= b.len(),
        forall|i: int| 0 <= i < 4 * (w * h) ==> #[trigger] a[i] == b[i],
    ensures
        column_sum(a, w, h, k, d) == column_sum(b, w, h, k, d),
    decreases d,
{
    if d > 0 {
        lemma_same_columns(a, b, w, h, k, d - 1);
        lemma_split(w, h, k);
        let x = (k / 4) % w;
        let y = (k / 4) / w;
        let sy = reached(y, d - 1, h);
        assert(0 <= sy < h);
        lemma_place(w, h, x, sy);
        assert(4 * w * (sy - y) == 4 * (sy * w) - 4 * (y * w)) by (nonlinear_arith);
        let i = k + 4 * w * (sy - y);
        assert(0 <= i < 4 * (w * h));
    }
}

/// A picture of a single colour stays as it is when it is blurred.
pub proof fn law_blur_keeps_flat_pictures(s: Seq<u8>, w: int, h: int, pixel: Seq<u8>)
    requires
        0 <= w,
        0 <= h,
        s.len() == 4 * (w * h),
        pixel.len() == 4,
        forall|k: int| 0 <= k < s.len() ==> #[trigger] s[k] == pixel[k % 4],
    ensures
        blurred(s, w, h) == s,
{
    let a = row_blurred(s, s, w, h);
    assert forall|k: int| 0 <= k < s.len() implies a[k] == s[k] by {
        lemma_flat_row(s, w, h, k, pixel, REACH as int);
    }
    assert(a =~= s);
    assert forall|k: int| 0 <= k < s.len() implies blurred(s, w, h)[k] == s[k] by {
        lemma_flat_column(s, w, h, k, pixel, REACH as int);
    }
    assert(blurred(s, w, h) =~= s);
}

/// The picture with its columns in reverse order.
pub open spec fn left_for_right(s: Seq<u8>, w: int) -> Seq<u8> {
    Seq::new(s.len(), |k: int| s[k + 4 * (w - 1 - 2 * ((k / 4) % w))])
}

/// The picture with its rows in reverse order.
pub open spec fn upside_down(s: Seq<u8>, w: int, h: int) -> Seq<u8> {
    Seq::new(s.len(), |k: int| s[k + 4 * w * (h - 1 - 2 * ((k / 4) / w))])
}

/// The byte in part `c` of the pixel at (`x`, `y`).
pub open spec fn byte_at(w: int, x: int, y: int, c: int) -> int {
    4 * (y * w + x) + c
}

proof fn lemma_byte_at(w: int, h: int, x: int, y: int, c: int)
    requires
        0 <= x < w,
        0 <= y < h,
        0 <= c < 4,
    ensures
        0 <= byte_at(w, x, y, c) < 4 * (w * h),
        (byte_at(w, x, y, c) / 4) % w == x,
        (byte_at(w, x, y, c) / 4) / w == y,
{
    lemma_place(w, h, x, y);
    assert(byte_at(w, x, y, c) / 4 == y * w + x);
}

proof fn lemma_mirrored_byte(s: Seq<u8>, w: int, h: int, x: int, y: int, c: int)
    requires
        0 <= x < w,
        0 <= y < h,
        0 <= c < 4,
        s.len() == 4 * (w * h),
    ensures
        left_for_right(s, w)[byte_at(w, x, y, c)] == s[byte_at(w, w - 1 - x, y, c)],
        upside_down(s, w, h)[byte_at(w, x, y, c)] == s[byte_at(w, x, h - 1 - y, c)],
{
    lemma_byte_at(w, h, x, y, c);
    assert(4 * w * (h - 1 - 2 * y) == 4 * ((h - 1 - y) * w) - 4 * (y * w)) by (nonlinear_arith);
}

/// Going along the reach from the other end meets the same places.
proof fn lemma_reach_mirrored(x: int, d: int, n: int)
    requires
        0 <= x < n,
        0 <= d < REACH,
    ensures
        0 <= reached(x, d, n) < n,
        reached(n - 1 - x, REACH - 1 - d, n) == n - 1 - reached(x, d, n),
{
}

proof fn lemma_row_term(s: Seq<u8>, w: int, h: int, x: int, y: int, c: int, d: int)
    requires
        0 <= x < w,
        0 <= y < h,
        0 <= c < 4,
        0 < d <= REACH,
    ensures
        row_sum(s, w, byte_at(w, x, y, c), d) == row_sum(s, w, byte_at(w, x, y, c), d - 1)
            + s[byte_at(w, reached(x, d - 1, w), y, c)],
{
    lemma_byte_at(w, h, x, y, c);
    assert(byte_at(w, reached(x, d - 1, w), y, c) == byte_at(w, x, y, c) + 4 * (reached(
        x,
        d - 1,
        w,
    ) - x));
}

proof fn lemma_column_term(s: Seq<u8>, w: int, h: int, x: int, y: int, c: int, d: int)
    requires
        0 <= x < w,
        0 <= y < h,
        0 <= c < 4,
        0 < d <= REACH,
    ensures
        column_sum(s, w, h, byte_at(w, x, y, c), d) == column_sum(
            s,
            w,
            h,
            byte_at(w, x, y, c),
            d - 1,
        ) + s[byte_at(w, x, reached(y, d - 1, h), c)],
{
    lemma_byte_at(w, h, x, y, c);
    let sy = reached(y, d - 1, h);
    assert(4 * w * (sy - y) == 4 * (sy * w) - 4 * (y * w)) by (nonlinear_arith);
    assert(byte_at(w, x, sy, c) == byte_at(w, x, y, c) + 4 * w * (sy - y));
}

/// The reach in the mirrored picture is the reach in the picture, gone along
/// from the other end.
proof fn lemma_rows_left_for_right(s: Seq<u8>, w: int, h: int, x: int, y: int, c: int, d: int)
    requires
        0 <= x < w,
        0 <= y < h,
        0 <= c < 4,
        0 <= d <= REACH,
        s.len() == 4 * (w * h),
    ensures
        row_sum(left_for_right(s, w), w, byte_at(w, x, y, c), d) + row_sum(
            s,
            w,
            byte_at(w, w - 1 - x, y, c),
            REACH - d,
        ) == row_sum(s, w, byte_at(w, w - 1 - x, y, c), REACH as int),
    decreases d,
{
    if d > 0 {
        lemma_rows_left_for_right(s, w, h, x, y, c, d - 1);
        lemma_row_term(left_for_right(s, w), w, h, x, y, c, d);
        lemma_row_term(s, w, h, w - 1 - x, y, c, REACH - d + 1);
        lemma_reach_mirrored(x, d - 1, w);
        lemma_mirrored_byte(s, w, h, reached(x, d - 1, w), y, c);
    }
}

proof fn lemma_columns_left_for_right(s: Seq<u8>, w: int, h: int, x: int, y: int, c: int, d: int)
    requires
        0 <= x < w,
        0 <= y < h,
        0 <= c < 4,
        0 <= d <= REACH,
        s.len() == 4 * (w * h),
    ensures
        column_sum(left_for_right(s, w), w, h, byte_at(w, x, y, c), d) == column_sum(
            s,
            w,
            h,
            byte_at(w, w - 1 - x, y, c),
            d,
        ),
    decreases d,
{
    if d > 0 {
        lemma_columns_left_for_right(s, w, h, x, y, c, d - 1);
        lemma_column_term(left_for_right(s, w), w, h, x, y, c, d);
        lemma_column_term(s, w, h, w - 1 - x, y, c, d);
        lemma_reach_mirrored(y, d - 1, h);
        lemma_mirrored_byte(s, w, h, x, reached(y, d - 1, h), c);
    }
}

proof fn lemma_rows_upside_down(s: Seq<u8>, w: int, h: int, x: int, y: int, c: int, d: int)
    requires
        0 <= x < w,
        0 <= y < h,
        0 <= c < 4,
        0 <= d <= REACH,
        s.len() == 4 * (w * h),
    ensures
        row_sum(upside_down(s, w, h), w, byte_at(w, x, y, c), d) == row_sum(
            s,
            w,
            byte_at(w, x, h - 1 - y, c),
            d,
        ),
    decreases d,
{
    if d > 0 {
        lemma_rows_upside_down(s, w, h, x, y, c, d - 1);
        lemma_row_term(upside_down(s, w, h), w, h, x, y, c, d);
        lemma_row_term(s, w, h, x, h - 1 - y, c, d);
        lemma_reach_mirrored(x, d - 1, w);
        lemma_mirrored_byte(s, w, h, reached(x, d - 1, w), y, c);
    }
}

proof fn lemma_columns_upside_down(s: Seq<u8>, w: int, h: int, x: int, y: int, c: int, d: int)
    requires
        0 <= x < w,
        0 <= y < h,
        0 <= c < 4,
        0 <= d <= REACH,
        s.len() == 4 * (w * h),
    ensures
        column_sum(upside_down(s, w, h), w, h, byte_at(w, x, y, c), d) + column_sum(
            s,
            w,
            h,
            byte_at(w, x, h - 1 - y, c),
            REACH - d,
        ) == column_sum(s, w, h, byte_at(w, x, h - 1 - y, c), REACH as int),
    decreases d,
{
    if d > 0 {
        lemma_columns_upside_down(s, w, h, x, y, c, d - 1);
        lemma_column_term(upside_down(s, w, h), w, h, x, y, c, d);
        lemma_column_term(s, w, h, x, h - 1 - y, c, REACH - d + 1);
        lemma_reach_mirrored(y, d - 1, h);
        lemma_mirrored_byte(s, w, h, x, reached(y, d - 1, h), c);
    }
}

/// Every byte of a picture is a part of one of its pixels.
proof fn lemma_byte_of(w: int, h: int, k: int) -> (p: (int, int, int))
    requires
        0 <= w,
        0 <= h,
        0 <= k < 4 * (w * h),
    ensures
        0 <= p.0 < w,
        0 <= p.1 < h,
        0 <= p.2 < 4,
        k == byte_at(w, p.0, p.1, p.2),
{
    lemma_split(w, h, k);
    ((k / 4) % w, (k / 4) / w, k % 4)
}

/// Blurring a mirrored picture mirrors the blurred one, whichever way it is
/// mirrored.
pub proof fn law_blur_keeps_mirrors(s: Seq<u8>, w: int, h: int)
    requires
        0 <= w,
        0 <= h,
        s.len() == 4 * (w * h),
    ensures
        blurred(left_for_right(s, w), w, h) == left_for_right(blurred(s, w, h), w),
        blurred(upside_down(s, w, h), w, h) == upside_down(blurred(s, w, h), w, h),
{
    let a = row_blurred(s, s, w, h);
    let m = left_for_right(s, w);
    let b = row_blurred(m, m, w, h);
    assert forall|k: int| 0 <= k < s.len() implies b[k] == left_for_right(a, w)[k] by {
        let (x, y, c) = lemma_byte_of(w, h, k);
        lemma_rows_left_for_right(s, w, h, x, y, c, REACH as int);
        lemma_mirrored_byte(a, w, h, x, y, c);
        lemma_byte_at(w, h, w - 1 - x, y, c);
    }
    assert(b =~= left_for_right(a, w));
    assert forall|k: int| 0 <= k < s.len() implies blurred(m, w, h)[k] == left_for_right(
        blurred(s, w, h),
        w,
    )[k] by {
        let (x, y, c) = lemma_byte_of(w, h, k);
        lemma_columns_left_for_right(a, w, h, x, y, c, REACH as int);
        lemma_mirrored_byte(blurred(s, w, h), w, h, x, y, c);
        lemma_byte_at(w, h, w - 1 - x, y, c);
    }
    assert(blurred(m, w, h) =~= left_for_right(blurred(s, w, h), w));
    let u = upside_down(s, w, h);
    let v = row_blurred(u, u, w, h);
    assert forall|k: int| 0 <= k < s.len() implies v[k] == upside_down(a, w, h)[k] by {
        let (x, y, c) = lemma_byte_of(w, h, k);
        lemma_rows_upside_down(s, w, h, x, y, c, REACH as int);
        lemma_mirrored_byte(a, w, h, x, y, c);
        lemma_byte_at(w, h, x, h - 1 - y, c);
    }
    assert(v =~= upside_down(a, w, h));
    assert forall|k: int| 0 <= k < s.len() implies blurred(u, w, h)[k] == upside_down(
        blurred(s, w, h),
        w,
        h,
    )[k] by {
        let (x, y, c) = lemma_byte_of(w, h, k);
        lemma_columns_upside_down(a, w, h, x, y, c, REACH as int);
        lemma_mirrored_byte(blurred(s, w, h), w, h, x, y, c);
        lemma_byte_at(w, h, x, h - 1 - y, c);
    }
    assert(blurred(u, w, h) =~= upside_down(blurred(s, w, h), w, h));
}

proof fn lemma_split(w: int, h: int, k: int)
    requires
        0 <= w,
        0 <= h,
        0 <= k < 4 * (w * h),
    ensures
        w > 0,
        h > 0,
        0 <= (k / 4) % w < w,
        0 <= (k / 4) / w < h,
        k / 4 == ((k / 4) / w) * w + (k / 4) % w,
{
    assert(w > 0 && h > 0) by (nonlinear_arith)
        requires
            0 <= k < 4 * (w * h),
            0 <= w,
            0 <= h,
    ;
    let p = k / 4;
    let y = p / w;
    let x = p % w;
    vstd::arithmetic::div_mod::lemma_fundamental_div_mod(p, w);
    assert(w * y == y * w) by (nonlinear_arith);
    vstd::arithmetic::div_mod::lemma_mod_bound(p, w);
    assert(0 <= y < h) by (nonlinear_arith)
        requires
            p == y * w + x,
            0 <= x < w,
            0 <= p < w * h,
            w > 0,
    ;
}

proof fn lemma_flat_row(s: Seq<u8>, w: int, h: int, k: int, pixel: Seq<u8>, d: int)
    requires
        0 <= w,
        0 <= h,
        s.len() == 4 * (w * h),
        0 <= k < s.len(),
        0 <= d,
        forall|i: int| 0 <= i < s.len() ==> #[trigger] s[i] == pixel[i % 4],
    ensures
        row_sum(s, w, k, d) == d * s[k],
    decreases d,
{
    if d > 0 {
        lemma_flat_row(s, w, h, k, pixel, d - 1);
        lemma_split(w, h, k);
        let x = (k / 4) % w;
        let y = (k / 4) / w;
        let sx = reached(x, d - 1, w);
        lemma_place(w, h, sx, y);
        let i = k + 4 * (sx - x);
        assert(0 <= i < s.len());
        assert(i % 4 == k % 4);
        assert(d * s[k] == (d - 1) * s[k] + s[k]) by (nonlinear_arith);
    } else {
        assert(0 * s[k] == 0) by (nonlinear_arith);
    }
}

proof fn lemma_flat_column(s: Seq<u8>, w: int, h: int, k: int, pixel: Seq<u8>, d: int)
    requires
        0 <= w,
        0 <= h,
        s.len() == 4 * (w * h),
        0 <= k < s.len(),
        0 <= d,
        forall|i: int| 0 <= i < s.len() ==> #[trigger] s[i] == pixel[i % 4],
    ensures
        column_sum(s, w, h, k, d) == d * s[k],
    decreases d,
{
    if d > 0 {
        lemma_flat_column(s, w, h, k, pixel, d - 1);
        lemma_split(w, h, k);
        let x = (k / 4) % w;
        let y = (k / 4) / w;
        let sy = reached(y, d - 1, h);
        lemma_place(w, h, x, sy);
        let i = k + 4 * w * (sy - y);
        assert(4 * w * (sy - y) == 4 * (sy * w) - 4 * (y * w)) by (nonlinear_arith);
        assert(0 <= i < s.len());
        assert(i == 4 * (k / 4 + sy * w - y * w) + k % 4);
        assert(i % 4 == k % 4);
        assert(d * s[k] == (d - 1) * s[k] + s[k]) by (nonlinear_arith);
    } else {
        assert(0 * s[k] == 0) by (nonlinear_arith);
    }
}

// ---- Cutting and stretching -------------------------------------------------

/// Where row `r` of a part that starts in column `x` and row `y` of a picture
/// begins. Rows beyond the last are the last.
pub open spec fn row_start(src_w: int, src_h: int, x: int, y: int, r: int) -> int {
    let row = if y + r < src_h - 1 { y + r } else { src_h - 1 };
    4 * (row * src_w + x)
}

/// The first `n` rows, each `w` pixels wide, of a part of a picture.
pub open spec fn cut(
    s: Seq<u8>,
    src_w: int,
    src_h: int,
    x: int,
    y: int,
    w: int,
    n: int,
) -> Seq<u8>
    decreases n,
{
    if n <= 0 {
        Seq::empty()
    } else {
        let at = row_start(src_w, src_h, x, y, n - 1);
        cut(s, src_w, src_h, x, y, w, n - 1) + s.subrange(at, at + 4 * w)
    }
}

/// Whether the part of the picture lies in it.
pub open spec fn cut_fits(
    len: int,
    src_w: int,
    src_h: int,
    x: int,
    y: int,
    w: int,
    h: int,
) -> bool {
    forall|r: int|
        0 <= r < h ==> 0 <= #[trigger] row_start(src_w, src_h, x, y, r) && row_start(
            src_w,
            src_h,
            x,
            y,
            r,
        ) + 4 * w <= len
}

/// Cuts a part of `w` by `h` pixels out of a picture.
pub fn crop_rows(
    rgba: &Vec<u8>,
    src_w: usize,
    src_h: usize,
    x: usize,
    y: usize,
    w: usize,
    h: usize,
) -> (out: Vec<u8>)
    requires
        src_h > 0,
        4 * (src_w * src_h) <= rgba.len(),
        y < src_h,
        h <= src_h,
        cut_fits(rgba.len() as int, src_w as int, src_h as int, x as int, y as int, w as int, h as int),
    ensures
        out@ == cut(rgba@, src_w as int, src_h as int, x as int, y as int, w as int, h as int),
        out@.len() == 4 * (w * h),
{
    let mut out: Vec<u8> = Vec::new();
    let mut r: usize = 0;
    assert(w * 0 == 0) by (nonlinear_arith);
    while r < h
        invariant
            r <= h,
            src_h > 0,
            4 * (src_w * src_h) <= rgba.len(),
            y < src_h,
            h <= src_h,
            cut_fits(
                rgba.len() as int,
                src_w as int,
                src_h as int,
                x as int,
                y as int,
                w as int,
                h as int,
            ),
            out@ == cut(rgba@, src_w as int, src_h as int, x as int, y as int, w as int, r as int),
            out@.len() == 4 * (w * r),
        decreases h - r,
    {
        let row: usize = if r < src_h - 1 - y {
            y + r
        } else {
            src_h - 1
        };
        let ghost at = row_start(src_w as int, src_h as int, x as int, y as int, r as int);
        assert(at == 4 * (row * src_w + x));
        proof {
            assert(0 <= row * src_w <= src_w * src_h) by (nonlinear_arith)
                requires
                    0 <= row < src_h,
                    0 <= src_w,
            ;
            assert(w * (r + 1) == w * r + w) by (nonlinear_arith);
        }
        let start: usize = (row * src_w + x) * 4;
        let ghost before = out@;
        let mut i: usize = 0;
        while i < 4 * w
            invariant
                i <= 4 * w,
                start == at,
                at + 4 * w <= rgba.len(),
                out@ == before + rgba@.subrange(at, at + i),
            decreases 4 * w - i,
        {
            out.push(rgba[start + i]);
            i = i + 1;
            assert(out@ =~= before + rgba@.subrange(at, at + i));
        }
        r = r + 1;
    }
    out
}

/// The picture blurred three times, which looks much like a bell-shaped blur.
pub open spec fn frosted(s: Seq<u8>, w: int, h: int) -> Seq<u8> {
    blurred(blurred(blurred(s, w, h), w, h), w, h)
}

/// Cuts a part out of a picture and blurs it three times.
pub fn frost(
    rgba: &Vec<u8>,
    src_w: usize,
    src_h: usize,
    x: usize,
    y: usize,
    w: usize,
    h: usize,
) -> (out: Vec<u8>)
    requires
        src_h > 0,
        4 * (src_w * src_h) <= rgba.len(),
        y < src_h,
        h <= src_h,
        cut_fits(rgba.len() as int, src_w as int, src_h as int, x as int, y as int, w as int, h as int),
    ensures
        out@ == frosted(
            cut(rgba@, src_w as int, src_h as int, x as int, y as int, w as int, h as int),
            w as int,
            h as int,
        ),
        out@.len() == 4 * (w * h),
{
    let mut buf: Vec<u8> = crop_rows(rgba, src_w, src_h, x, y, w, h);
    let mut scratch: Vec<u8> = Vec::new();
    while scratch.len() < buf.len()
        invariant
            scratch.len() <= buf.len(),
        decreases buf.len() - scratch.len(),
    {
        scratch.push(0);
    }
    box_blur_rgba(&mut buf, w, h, &mut scratch);
    box_blur_rgba(&mut buf, w, h, &mut scratch);
    box_blur_rgba(&mut buf, w, h, &mut scratch);
    buf
}

/// The index, kept below `n`.
pub open spec fn kept(i: int, n: int) -> int {
    if i < n {
        i
    } else {
        n - 1
    }
}

/// The first `n` pixels of a row that takes its pixels from row `py` of a
/// picture, from the columns that `cols` lists.
pub open spec fn sampled_row(s: Seq<u8>, w: int, cols: Seq<usize>, py: int, n: int) -> Seq<u8>
    decreases n,
{
    if n <= 0 {
        Seq::empty()
    } else {
        let at = 4 * (py * w + kept(cols[n - 1] as int, w));
        sampled_row(s, w, cols, py, n - 1) + s.subrange(at, at + 4)
    }
}

/// The first `n` rows of a picture that takes its rows and columns from
/// another one.
pub open spec fn sampled(
    s: Seq<u8>,
    w: int,
    h: int,
    cols: Seq<usize>,
    rows: Seq<usize>,
    n: int,
) -> Seq<u8>
    decreases n,
{
    if n <= 0 {
        Seq::empty()
    } else {
        sampled(s, w, h, cols, rows, n - 1) + sampled_row(
            s,
            w,
            cols,
            kept(rows[n - 1] as int, h),
            cols.len() as int,
        )
    }
}

/// Stretches a picture of `w` by `h` pixels: column `i` of the result is
/// column `cols[i]` of the picture, and the rows likewise; what lies beyond
/// the edge is the edge.
pub fn scale_nearest(
    buf: &Vec<u8>,
    w: usize,
    h: usize,
    cols: &Vec<usize>,
    rows: &Vec<usize>,
) -> (out: Vec<u8>)
    requires
        w > 0,
        h > 0,
        4 * (w * h) <= buf.len(),
    ensures
        out@ == sampled(buf@, w as int, h as int, cols@, rows@, rows@.len() as int),
{
    let mut out: Vec<u8> = Vec::new();
    let mut dy: usize = 0;
    while dy < rows.len()
        invariant
            dy <= rows.len(),
            w > 0,
            h > 0,
            4 * (w * h) <= buf.len(),
            out@ == sampled(buf@, w as int, h as int, cols@, rows@, dy as int),
        decreases rows.len() - dy,
    {
        let py: usize = if rows[dy] < h {
            rows[dy]
        } else {
            h - 1
        };
        let ghost before = out@;
        let mut dx: usize = 0;
        while dx < cols.len()
            invariant
                dx <= cols.len(),
                w > 0,
                py < h,
                4 * (w * h) <= buf.len(),
                out@ == before + sampled_row(buf@, w as int, cols@, py as int, dx as int),
            decreases cols.len() - dx,
        {
            let px: usize = if cols[dx] < w {
                cols[dx]
            } else {
                w - 1
            };
            proof {
                lemma_place(w as int, h as int, px as int, py as int);
            }
            let i: usize = (py * w + px) * 4;
            let ghost mid = out@;
            out.push(buf[i]);
            out.push(buf[i + 1]);
            out.push(buf[i + 2]);
            out.push(buf[i + 3]);
            dx = dx + 1;
            assert(out@ =~= mid + buf@.subrange(i as int, i + 4));
            assert(out@ =~= before + sampled_row(buf@, w as int, cols@, py as int, dx as int));
        }
        dy = dy + 1;
    }
    out
}

/// A colour is made of its red, green and blue parts.
pub proof fn law_parts_make_the_colour(color: int)
    requires
        0 <= color < 0x100_0000,
    ensures
        ({
            let (r, g, b) = rgb_of(color);
            &&& 0 <= r < 0x100 && 0 <= g < 0x100 && 0 <= b < 0x100
            &&& r * 0x1_0000 + g * 0x100 + b == color
        }),
{
}

/// A colour that is laid over another with full alpha replaces it, with none it
/// leaves it; otherwise the outcome lies between the two.
pub proof fn law_laying_over(color: int, under: int, a: int)
    requires
        0 <= color <= 255,
        0 <= under <= 255,
        0 <= a <= 255,
    ensures
        over(color, under, 255) == color,
        over(color, under, 0) == under,
        color <= under ==> color <= over(color, under, a) <= under,
        under <= color ==> under <= over(color, under, a) <= color,
{
    let v = color * a + under * (255 - a);
    assert(color * 0 + under * (255 - 0) == 255 * under) by (nonlinear_arith);
    assert(v == 255 * under + (color - under) * a) by (nonlinear_arith)
        requires
            v == color * a + under * (255 - a),
    ;
    assert(v == 255 * color + (under - color) * (255 - a)) by (nonlinear_arith)
        requires
            v == color * a + under * (255 - a),
    ;
    assert(color <= under ==> (color - under) * a <= 0 && 0 <= (under - color) * (255 - a))
        by (nonlinear_arith)
        requires
            0 <= a <= 255,
    ;
    assert(under <= color ==> 0 <= (color - under) * a && (under - color) * (255 - a) <= 0)
        by (nonlinear_arith)
        requires
            0 <= a <= 255,
    ;
}

/// Exchanging the colours exchanges the first and the third part of every
/// pixel; the second part and the alpha stay.
pub proof fn law_swapping_exchanges_red_and_blue(s: Seq<u8>, p: int)
    requires
        0 <= p,
        4 * p + 3 < s.len(),
    ensures
        swapped(s)[4 * p] == s[4 * p + 2],
        swapped(s)[4 * p + 1] == s[4 * p + 1],
        swapped(s)[4 * p + 2] == s[4 * p],
        swapped(s)[4 * p + 3] == s[4 * p + 3],
{
}

/// A part of a pixel is multiplied by its alpha as a share of 255, rounded down
/// or to the nearest; the alpha itself stays.
pub proof fn law_parts_are_multiplied_by_alpha(s: Seq<u8>, p: int, c: int)
    requires
        0 <= p,
        4 * p + 3 < s.len(),
        0 <= c < 3,
    ensures
        ({
            let v = s[4 * p + c] * s[4 * p + 3];
            let low = premultiplied(s)[4 * p + c];
            let near = shaded(s)[4 * p + c];
            &&& 255 * low <= v < 255 * low + 255
            &&& 2 * (255 * near) - 255 <= 2 * v < 2 * (255 * near) + 255
            &&& premultiplied(s)[4 * p + 3] == s[4 * p + 3]
            &&& shaded(s)[4 * p + 3] == s[4 * p + 3]
        }),
{
    let k = 4 * p + c;
    assert(k / 4 == p && k % 4 == c);
    assert(0 <= s[k] * s[4 * p + 3] <= 255 * 255) by (nonlinear_arith)
        requires
            0 <= s[k] <= 255,
            0 <= s[4 * p + 3] <= 255,
    ;
}

/// What is cut out of a picture shows the pixels that stand there: the one in
/// column `px` and row `py` of the part is the one as far from the corner of
/// the part in the picture.
pub proof fn law_cutting_keeps_pixels(
    s: Seq<u8>,
    src_w: int,
    src_h: int,
    x: int,
    y: int,
    w: int,
    n: int,
    px: int,
    py: int,
    c: int,
)
    requires
        0 <= x,
        0 <= y,
        x + w <= src_w,
        y + n <= src_h,
        s.len() >= 4 * (src_w * src_h),
        0 <= px < w,
        0 <= py < n,
        0 <= c < 4,
    ensures
        cut(s, src_w, src_h, x, y, w, n).len() == 4 * (n * w),
        cut(s, src_w, src_h, x, y, w, n)[4 * (py * w + px) + c] == s[4 * ((y + py) * src_w + x + px)
            + c],
    decreases n,
{
    let at = row_start(src_w, src_h, x, y, n - 1);
    let before = cut(s, src_w, src_h, x, y, w, n - 1);
    assert(at == 4 * ((y + n - 1) * src_w + x));
    assert(0 <= (y + n - 1) * src_w && (y + n - 1) * src_w + src_w <= src_w * src_h)
        by (nonlinear_arith)
        requires
            0 <= y,
            1 <= n,
            y + n <= src_h,
            0 <= src_w,
    ;
    lemma_cut_len(s, src_w, src_h, x, y, w, n - 1);
    assert(n * w == (n - 1) * w + w) by (nonlinear_arith);
    if py < n - 1 {
        law_cutting_keeps_pixels(s, src_w, src_h, x, y, w, n - 1, px, py, c);
        assert(0 <= py * w && py * w + w <= (n - 1) * w) by (nonlinear_arith)
            requires
                0 <= py < n - 1,
                0 < w,
        ;
    }
}

proof fn lemma_cut_len(s: Seq<u8>, src_w: int, src_h: int, x: int, y: int, w: int, n: int)
    requires
        0 <= n,
        0 <= x,
        0 <= y,
        0 <= w,
        x + w <= src_w,
        y + n <= src_h,
        s.len() >= 4 * (src_w * src_h),
    ensures
        cut(s, src_w, src_h, x, y, w, n).len() == 4 * (n * w),
    decreases n,
{
    if n > 0 {
        lemma_cut_len(s, src_w, src_h, x, y, w, n - 1);
        assert(0 <= (y + n - 1) * src_w && (y + n - 1) * src_w + src_w <= src_w * src_h)
            by (nonlinear_arith)
            requires
                0 <= y,
                1 <= n,
                y + n <= src_h,
                0 <= src_w,
        ;
        assert(n * w == (n - 1) * w + w) by (nonlinear_arith);
    } else {
        assert(0 * w == 0) by (nonlinear_arith);
    }
}

} // verus!
