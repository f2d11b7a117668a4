//! Where the windows of a workspace go.
//!
//! Borders are drawn outside a window. The layout keeps a margin of one border
//! inside the work area and makes the gap between tiles at least two borders
//! wide, so that a wide border never covers a window.

use vstd::prelude::*;

use crate::geometry;
use crate::geometry::{half, inset_rect, max_i32, min_i32, outset_rect, Rect, Size, FAR};
use crate::gate::workspace;
use crate::gate::workspace::{LayoutKind, WindowId, Workspace, WorkspaceView};
use crate::ratio;

verus! {

/// The widest gap, and twice the widest border, in pixels, up to which sums of
/// them and of far coordinates fit an `i32`.
pub const MAX_GAP: i32 = 0x80_0000;

/// How far the numbers of an area are off once borders and gaps are taken off.
pub const INNER: i32 = 0x0600_0000;

/// The place of one window.
#[derive(Clone, Copy, Debug, PartialEq, Eq)]
pub struct ClientGeometry {
    pub window: WindowId,
    /// Where the window goes.
    pub rect: Rect,
    /// The outer edge of the border, where there is a border.
    pub border_rect: Option<Rect>,
    pub visible: bool,
    pub is_focused: bool,
}

/// The border around a window at `r`.
pub open spec fn border_of(r: Rect, border_px: int) -> Option<Rect> {
    if border_px > 0 {
        Some(geometry::outset(r, border_px))
    } else {
        None
    }
}

/// The gap between tiles: at least two borders wide.
pub open spec fn gap_of(ws: WorkspaceView, border_px: int) -> int {
    geometry::max(ws.gap_px as int, border_px * 2)
}

/// The area that the tiles share: the work area without the border margin and
/// without the outer gap.
pub open spec fn tile_area(ws: WorkspaceView, area: Rect, border_px: int) -> Rect {
    let padded = geometry::inset(area, border_px);
    let gap = gap_of(ws, border_px);
    Rect {
        x: (padded.x + gap) as i32,
        y: (padded.y + gap) as i32,
        w: (padded.w - gap * 2) as i32,
        h: (padded.h - gap * 2) as i32,
    }
}

/// The height of each of `n` windows in one column.
pub open spec fn column_height(h: int, gap: int, n: int) -> int {
    geometry::quotient(h - gap * (n - 1), n)
}

/// The place of the window at `pos` of `count` tiled windows that share
/// `area`: the first `nmaster` stand in the master column, the rest in the
/// stack column to its right.
pub open spec fn tile_rect(
    area: Rect,
    gap: int,
    nmaster: int,
    mfact: nat,
    count: int,
    pos: int,
) -> Rect {
    let n = geometry::min(nmaster, count);
    let master_w = if count > n {
        ratio::scaled(area.w as int, mfact)
    } else {
        area.w as int
    };
    if count == 1 {
        area
    } else if pos < n {
        let h = column_height(area.h as int, gap, n);
        Rect {
            x: area.x,
            y: (area.y + (h + gap) * pos) as i32,
            w: master_w as i32,
            h: h as i32,
        }
    } else {
        let h = column_height(area.h as int, gap, count - n);
        Rect {
            x: (area.x + master_w + gap) as i32,
            y: (area.y + (h + gap) * (pos - n)) as i32,
            w: geometry::max(area.w - master_w - gap, 0) as i32,
            h: h as i32,
        }
    }
}

/// The geometry of the client at index `i` that goes to `rect`.
pub open spec fn placed(
    ws: WorkspaceView,
    i: int,
    rect: Rect,
    border_px: int,
    visible: bool,
    is_focused: bool,
) -> ClientGeometry {
    ClientGeometry {
        window: ws.clients[i],
        rect,
        border_rect: border_of(rect, border_px),
        visible,
        is_focused,
    }
}

/// The geometry of the tiled window at `pos` of `tiled`, the indices of the
/// tiled clients. In the monocle layout every window fills the area and only
/// the focused one is visible.
pub open spec fn tiled_geometry(
    ws: WorkspaceView,
    area: Rect,
    border_px: int,
    tiled: Seq<int>,
    pos: int,
) -> ClientGeometry {
    let inner = tile_area(ws, area, border_px);
    let i = tiled[pos];
    match ws.layout {
        LayoutKind::Tile => placed(
            ws,
            i,
            tile_rect(
                inner,
                gap_of(ws, border_px),
                ws.nmaster as int,
                ws.mfact as nat,
                tiled.len() as int,
                pos,
            ),
            border_px,
            true,
            ws.focused == Some(i as usize),
        ),
        LayoutKind::Monocle => placed(ws, i, inner, border_px, i == ws.cursor(), i == ws.cursor()),
    }
}

/// The size of a floating window: what it asked for, or 640 by 480, at most
/// 95 percent of the padded area.
pub open spec fn float_size(asked: int, default: int, available: int) -> int {
    let limit = ratio::scaled(available, ratio::NINETY_FIVE_HUNDREDTHS as nat);
    geometry::max(
        geometry::min(
            if asked > 1 {
                asked
            } else {
                default
            },
            limit,
        ),
        1,
    )
}

/// The place of a floating window: centred in the padded area.
pub open spec fn float_rect(padded: Rect, asked: Size) -> Rect {
    let w = float_size(asked.w as int, 640, padded.w as int);
    let h = float_size(asked.h as int, 480, padded.h as int);
    Rect {
        x: (padded.x + geometry::quotient(padded.w - w, 2)) as i32,
        y: (padded.y + geometry::quotient(padded.h - h, 2)) as i32,
        w: w as i32,
        h: h as i32,
    }
}

/// The geometry of the floating client at index `i`.
pub open spec fn float_geometry(
    ws: WorkspaceView,
    asked: Seq<Size>,
    area: Rect,
    border_px: int,
    i: int,
) -> ClientGeometry {
    placed(
        ws,
        i,
        float_rect(geometry::inset(area, border_px), asked[i]),
        border_px,
        true,
        ws.focused == Some(i as usize),
    )
}

/// The indices of the tiled clients.
pub open spec fn tiled_of(ws: WorkspaceView) -> Seq<int> {
    workspace::picked(ws.floating, false, ws.floating.len() as int)
}

/// The indices of the floating clients.
pub open spec fn floating_of(ws: WorkspaceView) -> Seq<int> {
    workspace::picked(ws.floating, true, ws.floating.len() as int)
}

/// The places of all windows of a workspace: first the tiled ones, then the
/// floating ones, each in the order of the clients.
pub open spec fn layout_of(
    ws: WorkspaceView,
    asked: Seq<Size>,
    area: Rect,
    border_px: int,
) -> Seq<ClientGeometry> {
    Seq::new(
        tiled_of(ws).len(),
        |pos: int| tiled_geometry(ws, area, border_px, tiled_of(ws), pos),
    ) + Seq::new(
        floating_of(ws).len(),
        |k: int| float_geometry(ws, asked, area, border_px, floating_of(ws)[k]),
    )
}

/// The bounds within which no sum of a layout overflows.
pub open spec fn fits(gap_px: int, area: Rect, border_px: int) -> bool {
    &&& -MAX_GAP <= gap_px <= MAX_GAP
    &&& -MAX_GAP <= 2 * border_px <= MAX_GAP
    &&& area.within(FAR as int)
}

fn border_rect(r: Rect, border_px: i32) -> (out: Option<Rect>)
    requires
        -MAX_GAP <= border_px <= MAX_GAP,
        r.within(FAR as int * 16),
    ensures
        out == border_of(r, border_px as int),
{
    if border_px > 0 {
        Some(outset_rect(r, border_px))
    } else {
        None
    }
}

/// Calculates the places of all windows of a workspace in `area`. `asked`
/// holds, for every client, the size that its window has asked for.
pub fn layout_workspace(ws: &Workspace, asked: &Vec<Size>, area: Rect, border_px: i32) -> (out: Vec<
    ClientGeometry,
>)
    requires
        ws@.wf(),
        asked.len() == ws.clients.len(),
        fits(ws.gap_px as int, area, border_px as int),
    ensures
        out@ == layout_of(ws@, asked@, area, border_px as int),
{
    let padded: Rect = inset_rect(area, border_px);
    let gap: i32 = max_i32(ws.gap_px, border_px * 2);
    let inner: Rect = Rect {
        x: padded.x + gap,
        y: padded.y + gap,
        w: padded.w - gap * 2,
        h: padded.h - gap * 2,
    };
    assert(inner == tile_area(ws@, area, border_px as int));
    let tiled: Vec<usize> = ws.tiled_indices();
    let ghost t = tiled_of(ws@);
    proof {
        workspace::lemma_picked(ws@.floating, false, ws@.floating.len() as int);
        workspace::lemma_window_count(ws@.clients);
        assert(t =~= tiled@.map_values(|k: usize| k as int));
        assert forall|k: int| 0 <= k < tiled.len() implies #[trigger] tiled@[k]
            < ws.clients.len() by {
            assert(t[k] == tiled@[k] as int);
        }
    }
    let mut out: Vec<ClientGeometry> = match ws.layout {
        LayoutKind::Tile => layout_tile_indexed(ws, &tiled, inner, gap, border_px),
        LayoutKind::Monocle => layout_monocle_indexed(ws, &tiled, inner, border_px),
    };
    let ghost head = Seq::new(t.len(), |pos: int| tiled_geometry(ws@, area, border_px as int, t, pos));
    assert(out@ =~= head) by {
        assert forall|pos: int| 0 <= pos < t.len() implies out@[pos] == head[pos] by {
            assert(t[pos] == tiled@[pos] as int);
        }
    }
    let max_w: i32 = ratio::scale(padded.w, ratio::NINETY_FIVE_HUNDREDTHS);
    let max_h: i32 = ratio::scale(padded.h, ratio::NINETY_FIVE_HUNDREDTHS);
    let mut i: usize = 0;
    let ghost n = ws@.floating.len() as int;
    assert(out@ =~= head + Seq::new(
        workspace::picked(ws@.floating, true, 0).len(),
        |k: int|
            float_geometry(
                ws@,
                asked@,
                area,
                border_px as int,
                workspace::picked(ws@.floating, true, 0)[k],
            ),
    ));
    while i < ws.clients.len()
        invariant
            i <= ws.clients.len(),
            ws@.wf(),
            asked.len() == ws.clients.len(),
            fits(ws.gap_px as int, area, border_px as int),
            padded == geometry::inset(area, border_px as int),
            max_w == ratio::scaled(padded.w as int, ratio::NINETY_FIVE_HUNDREDTHS as nat),
            max_h == ratio::scaled(padded.h as int, ratio::NINETY_FIVE_HUNDREDTHS as nat),
            0 <= max_w <= FAR * 4,
            0 <= max_h <= FAR * 4,
            out@ == head + Seq::new(
                workspace::picked(ws@.floating, true, i as int).len(),
                |k: int|
                    float_geometry(
                        ws@,
                        asked@,
                        area,
                        border_px as int,
                        workspace::picked(ws@.floating, true, i as int)[k],
                    ),
            ),
        decreases ws.clients.len() - i,
    {
        let ghost p0 = workspace::picked(ws@.floating, true, i as int);
        let ghost p1 = workspace::picked(ws@.floating, true, i + 1);
        let ghost f0 = Seq::new(
            p0.len(),
            |k: int| float_geometry(ws@, asked@, area, border_px as int, p0[k]),
        );
        let ghost f1 = Seq::new(
            p1.len(),
            |k: int| float_geometry(ws@, asked@, area, border_px as int, p1[k]),
        );
        if ws.is_floating(i) {
            let rect: Rect = float_place(padded, asked[i], max_w, max_h);
            let is_focused: bool = match ws.focused_idx {
                Some(f) => f == i,
                None => false,
            };
            let g: ClientGeometry = ClientGeometry {
                window: ws.clients[i],
                rect,
                border_rect: border_rect(rect, border_px),
                visible: true,
                is_focused,
            };
            out.push(g);
            assert(g == float_geometry(ws@, asked@, area, border_px as int, i as int));
            assert(f1 =~= f0.push(g));
            assert(head + f0.push(g) =~= (head + f0).push(g));
        } else {
            assert(p1 == p0);
        }
        i = i + 1;
    }
    out
}

fn float_place(padded: Rect, asked: Size, max_w: i32, max_h: i32) -> (r: Rect)
    requires
        padded.within(FAR as int * 2),
        padded.w >= 1,
        padded.h >= 1,
        max_w == ratio::scaled(padded.w as int, ratio::NINETY_FIVE_HUNDREDTHS as nat),
        max_h == ratio::scaled(padded.h as int, ratio::NINETY_FIVE_HUNDREDTHS as nat),
        0 <= max_w <= FAR * 4,
        0 <= max_h <= FAR * 4,
    ensures
        r == float_rect(padded, asked),
        r.within(FAR as int * 16),
{
    let rw: i32 = if asked.w > 1 {
        asked.w
    } else {
        640
    };
    let rh: i32 = if asked.h > 1 {
        asked.h
    } else {
        480
    };
    let fw: i32 = max_i32(min_i32(rw, max_w), 1);
    let fh: i32 = max_i32(min_i32(rh, max_h), 1);
    Rect {
        x: padded.x + half(padded.w - fw),
        y: padded.y + half(padded.h - fh),
        w: fw,
        h: fh,
    }
}

fn layout_tile_indexed(
    ws: &Workspace,
    indices: &Vec<usize>,
    area: Rect,
    gap: i32,
    border_px: i32,
) -> (out: Vec<ClientGeometry>)
    requires
        ws@.wf(),
        indices.len() <= 0x1_0000,
        forall|k: int| 0 <= k < indices.len() ==> #[trigger] indices@[k] < ws.clients.len(),
        -MAX_GAP <= gap <= MAX_GAP,
        -MAX_GAP <= border_px <= MAX_GAP,
        area.within(INNER as int),
    ensures
        out.len() == indices.len(),
        forall|pos: int|
            0 <= pos < indices.len() ==> #[trigger] out@[pos] == placed(
                ws@,
                indices@[pos] as int,
                tile_rect(
                    area,
                    gap as int,
                    ws.nmaster as int,
                    ws.mfact as nat,
                    indices.len() as int,
                    pos,
                ),
                border_px as int,
                true,
                ws@.focused == Some(indices@[pos]),
            ),
{
    let count: usize = indices.len();
    let mut out: Vec<ClientGeometry> = Vec::new();
    if count == 0 {
        return out;
    }
    let n: usize = if ws.nmaster < count {
        ws.nmaster
    } else {
        count
    };
    let master_w: i32 = if count > n {
        ratio::scale(area.w, ws.mfact)
    } else {
        area.w
    };
    let stack_w: i32 = max_i32(area.w - master_w - gap, 0);
    let master_h: i32 = column(area.h, gap, n);
    let stack_h: i32 = column(area.h, gap, count - n);
    let mut pos: usize = 0;
    while pos < count
        invariant
            pos <= count,
            count == indices.len(),
            count <= 0x1_0000,
            n == geometry::min(ws.nmaster as int, count as int),
            ws@.wf(),
            -MAX_GAP <= gap <= MAX_GAP,
            -MAX_GAP <= border_px <= MAX_GAP,
            area.within(INNER as int),
            master_w == (if count > n {
                ratio::scaled(area.w as int, ws.mfact as nat)
            } else {
                area.w as int
            }),
            -0x1000_0000 < master_w < 0x1000_0000,
            stack_w == geometry::max(area.w - master_w - gap, 0),
            n > 0 ==> master_h == column_height(area.h as int, gap as int, n as int),
            count - n > 0 ==> stack_h == column_height(area.h as int, gap as int, count - n),
            forall|k: int| 0 <= k < indices.len() ==> #[trigger] indices@[k] < ws.clients.len(),
            out.len() == pos,
            forall|k: int|
                0 <= k < pos ==> #[trigger] out@[k] == placed(
                    ws@,
                    indices@[k] as int,
                    tile_rect(
                        area,
                        gap as int,
                        ws.nmaster as int,
                        ws.mfact as nat,
                        indices.len() as int,
                        k,
                    ),
                    border_px as int,
                    true,
                    ws@.focused == Some(indices@[k]),
                ),
        decreases count - pos,
    {
        let rect: Rect = if count == 1 {
            area
        } else if pos < n {
            Rect {
                x: area.x,
                y: column_y(area, gap, n, master_h, pos),
                w: master_w,
                h: master_h,
            }
        } else {
            Rect {
                x: area.x + master_w + gap,
                y: column_y(area, gap, count - n, stack_h, pos - n),
                w: stack_w,
                h: stack_h,
            }
        };
        let i: usize = indices[pos];
        let is_focused: bool = match ws.focused_idx {
            Some(f) => f == i,
            None => false,
        };
        assert(rect == tile_rect(
            area,
            gap as int,
            ws.nmaster as int,
            ws.mfact as nat,
            count as int,
            pos as int,
        ));
        let g: ClientGeometry = ClientGeometry {
            window: ws.clients[i],
            rect,
            border_rect: border_rect(rect, border_px),
            visible: true,
            is_focused,
        };
        out.push(g);
        pos = pos + 1;
    }
    out
}

/// The height of each of `n` windows in one column.
fn column(h: i32, gap: i32, n: usize) -> (r: i32)
    requires
        n <= 0x1_0000,
        -MAX_GAP <= gap <= MAX_GAP,
        -INNER <= h <= INNER,
    ensures
        n > 0 ==> r == column_height(h as int, gap as int, n as int),
{
    if n == 0 {
        return h;
    }
    let m: i64 = n as i64;
    proof {
        lemma_column(h as int, gap as int, n as int, 0);
        assert(-0x80_0000 * 0x1_0000 <= gap * (m - 1) <= 0x80_0000 * 0x1_0000) by (nonlinear_arith)
            requires
                -0x80_0000 <= gap <= 0x80_0000,
                1 <= m <= 0x1_0000,
        ;
    }
    let rest: i64 = h as i64 - gap as i64 * (m - 1);
    if rest >= 0 {
        (rest / m) as i32
    } else {
        (-((-rest) / m)) as i32
    }
}

/// The top of the window at `k` in a column of `n`.
fn column_y(area: Rect, gap: i32, n: usize, h: i32, k: usize) -> (y: i32)
    requires
        0 <= k < n <= 0x1_0000,
        -MAX_GAP <= gap <= MAX_GAP,
        area.within(INNER as int),
        h == column_height(area.h as int, gap as int, n as int),
    ensures
        y == area.y + (h + gap) * k,
        -FAR * 16 <= y <= FAR * 16,
        -FAR * 16 <= h <= FAR * 16,
{
    proof {
        lemma_column(area.h as int, gap as int, n as int, k as int);
    }
    area.y + (h + gap) * (k as i32)
}

/// The windows of a column, with their gaps, reach about as far as the column
/// is high.
proof fn lemma_column(total: int, gap: int, n: int, k: int)
    requires
        0 <= k < n <= 0x1_0000,
        -MAX_GAP <= gap <= MAX_GAP,
        -INNER <= total <= INNER,
    ensures
        -0x0800_0000 <= (column_height(total, gap, n) + gap) * k <= 0x0800_0000,
        -0x0800_0000 <= column_height(total, gap, n) <= 0x0800_0000,
{
    let a = total - gap * (n - 1);
    let h = column_height(total, gap, n);
    let m = if a >= 0 {
        a
    } else {
        -a
    };
    let q = m / n;
    vstd::arithmetic::div_mod::lemma_fundamental_div_mod(m, n);
    assert(q * n == n * q) by (nonlinear_arith);
    assert((-q) * n == -(q * n)) by (nonlinear_arith);
    assert(-n < h * n - a < n);
    let pitch = h + gap;
    assert(pitch * n == h * n + gap * n) by (nonlinear_arith)
        requires
            pitch == h + gap,
    ;
    assert(gap * n == gap * (n - 1) + gap) by (nonlinear_arith);
    assert(-n < pitch * n - (total + gap) < n);
    assert(pitch >= 0 ==> 0 <= pitch * k <= pitch * n) by (nonlinear_arith)
        requires
            0 <= k < n,
    ;
    assert(pitch <= 0 ==> pitch * n <= pitch * k <= 0) by (nonlinear_arith)
        requires
            0 <= k < n,
    ;
    assert(pitch >= 0 ==> pitch <= pitch * n) by (nonlinear_arith)
        requires
            1 <= n,
    ;
    assert(pitch <= 0 ==> pitch * n <= pitch) by (nonlinear_arith)
        requires
            1 <= n,
    ;
}

fn layout_monocle_indexed(ws: &Workspace, indices: &Vec<usize>, area: Rect, border_px: i32) -> (out:
    Vec<ClientGeometry>)
    requires
        ws@.wf(),
        forall|k: int| 0 <= k < indices.len() ==> #[trigger] indices@[k] < ws.clients.len(),
        -MAX_GAP <= border_px <= MAX_GAP,
        area.within(INNER as int),
    ensures
        out.len() == indices.len(),
        forall|pos: int|
            0 <= pos < indices.len() ==> #[trigger] out@[pos] == placed(
                ws@,
                indices@[pos] as int,
                area,
                border_px as int,
                indices@[pos] == ws@.cursor(),
                indices@[pos] == ws@.cursor(),
            ),
{
    let mut out: Vec<ClientGeometry> = Vec::new();
    let cursor: usize = match ws.focused_idx {
        Some(i) => i,
        None => 0,
    };
    let border: Option<Rect> = border_rect(area, border_px);
    let mut pos: usize = 0;
    while pos < indices.len()
        invariant
            pos <= indices.len(),
            forall|k: int| 0 <= k < indices.len() ==> #[trigger] indices@[k] < ws.clients.len(),
            cursor == ws@.cursor(),
            border == border_of(area, border_px as int),
            out.len() == pos,
            forall|k: int|
                0 <= k < pos ==> #[trigger] out@[k] == placed(
                    ws@,
                    indices@[k] as int,
                    area,
                    border_px as int,
                    indices@[k] == ws@.cursor(),
                    indices@[k] == ws@.cursor(),
                ),
        decreases indices.len() - pos,
    {
        let i: usize = indices[pos];
        out.push(
            ClientGeometry {
                window: ws.clients[i],
                rect: area,
                border_rect: border,
                visible: i == cursor,
                is_focused: i == cursor,
            },
        );
        pos = pos + 1;
    }
    out
}

/// The place of the tiled window at `pos`.
pub open spec fn tile_at(ws: WorkspaceView, area: Rect, border_px: int, pos: int) -> Rect {
    tile_rect(
        tile_area(ws, area, border_px),
        gap_of(ws, border_px),
        ws.nmaster as int,
        ws.mfact as nat,
        tiled_of(ws).len() as int,
        pos,
    )
}

/// Whether the window at `pos` stands in the master column.
pub open spec fn in_master(ws: WorkspaceView, pos: int) -> bool {
    pos < ws.nmaster
}

proof fn lemma_rows(total: int, gap: int, n: int, k: int)
    requires
        0 <= k < n,
        0 <= gap,
        column_height(total, gap, n) >= 1,
    ensures
        0 <= (column_height(total, gap, n) + gap) * k,
        (column_height(total, gap, n) + gap) * k + column_height(total, gap, n) <= total,
{
    let h = column_height(total, gap, n);
    let a = total - gap * (n - 1);
    if a < 0 {
        assert((-a) / n >= 0) by (nonlinear_arith)
            requires
                a < 0,
                n > 0,
        ;
    }
    assert(h == a / n);
    assert(h * n <= a) by (nonlinear_arith)
        requires
            h == a / n,
            n > 0,
    ;
    assert(0 <= (h + gap) * k <= (h + gap) * (n - 1)) by (nonlinear_arith)
        requires
            0 <= k <= n - 1,
            h >= 1,
            gap >= 0,
    ;
    assert((h + gap) * (n - 1) + h == h * n + gap * (n - 1)) by (nonlinear_arith);
}

/// What a tile that is at least one pixel wide and high looks like, in
/// numbers that do not overflow.
proof fn lemma_tile(ws: WorkspaceView, area: Rect, border_px: int, pos: int)
    requires
        ws.wf(),
        fits(ws.gap_px as int, area, border_px),
        0 <= border_px,
        1 <= area.w,
        1 <= area.h,
        area.w < 0x100_0000 || ws.mfact <= ratio::NINETY_FIVE_HUNDREDTHS,
        0 <= pos < tiled_of(ws).len(),
        tile_at(ws, area, border_px, pos).w >= 1,
        tile_at(ws, area, border_px, pos).h >= 1,
    ensures
        ({
            let r = tile_at(ws, area, border_px, pos);
            let inner = tile_area(ws, area, border_px);
            let gap = gap_of(ws, border_px);
            let count = tiled_of(ws).len() as int;
            let n = geometry::min(ws.nmaster as int, count);
            let master_w = if count > n {
                ratio::scaled(inner.w as int, ws.mfact as nat)
            } else {
                inner.w as int
            };
            &&& r.inside(inner)
            &&& inner.x == area.x + border_px + gap
            &&& inner.y == area.y + border_px + gap
            &&& inner.w == area.w - 2 * border_px - 2 * gap
            &&& inner.h == area.h - 2 * border_px - 2 * gap
            &&& (count > 1 && in_master(ws, pos)) ==> {
                &&& r.x == inner.x
                &&& r.w == master_w
                &&& r.h == column_height(inner.h as int, gap, n)
                &&& r.y == inner.y + (r.h + gap) * pos
            }
            &&& (count > 1 && !in_master(ws, pos)) ==> {
                &&& r.x == inner.x + master_w + gap
                &&& r.h == column_height(inner.h as int, gap, count - n)
                &&& r.y == inner.y + (r.h + gap) * (pos - n)
            }
        }),
{
    let r = tile_at(ws, area, border_px, pos);
    let inner = tile_area(ws, area, border_px);
    let gap = gap_of(ws, border_px);
    let count = tiled_of(ws).len() as int;
    let n = geometry::min(ws.nmaster as int, count);
    workspace::lemma_picked(ws.floating, false, ws.floating.len() as int);
    workspace::lemma_window_count(ws.clients);
    if inner.w >= 0 {
        ratio::law_scaling_shrinks(inner.w as nat, ws.mfact as nat);
    } else {
        ratio::lemma_scaled_close((-inner.w) as nat, ws.mfact as nat);
        if -inner.w < 0x100_0000 {
            ratio::law_scaling_shrinks((-inner.w) as nat, ws.mfact as nat);
        }
    }
    if count > 1 {
        if pos < n {
            lemma_column(inner.h as int, gap, n, pos);
            lemma_rows(inner.h as int, gap, n, pos);
        } else {
            lemma_column(inner.h as int, gap, count - n, pos - n);
            lemma_rows(inner.h as int, gap, count - n, pos - n);
        }
    }
}

/// Every tile, with its border, lies in the work area.
pub proof fn law_tile_borders_inside(ws: WorkspaceView, area: Rect, border_px: int, pos: int)
    requires
        ws.wf(),
        fits(ws.gap_px as int, area, border_px),
        0 <= border_px,
        1 <= area.w,
        1 <= area.h,
        area.w < 0x100_0000 || ws.mfact <= ratio::NINETY_FIVE_HUNDREDTHS,
        0 <= pos < tiled_of(ws).len(),
        tile_at(ws, area, border_px, pos).w >= 1,
        tile_at(ws, area, border_px, pos).h >= 1,
    ensures
        tile_at(ws, area, border_px, pos).inside(area),
        geometry::outset(tile_at(ws, area, border_px, pos), border_px).inside(area),
{
    lemma_tile(ws, area, border_px, pos);
}

/// The borders of two tiles have no pixel in common, and the tiles themselves
/// are at least the gap apart.
pub proof fn law_tile_borders_apart(
    ws: WorkspaceView,
    area: Rect,
    border_px: int,
    pos: int,
    other: int,
)
    requires
        ws.wf(),
        fits(ws.gap_px as int, area, border_px),
        0 <= border_px,
        1 <= area.w,
        1 <= area.h,
        area.w < 0x100_0000 || ws.mfact <= ratio::NINETY_FIVE_HUNDREDTHS,
        0 <= pos < other < tiled_of(ws).len(),
        tile_at(ws, area, border_px, pos).w >= 1,
        tile_at(ws, area, border_px, pos).h >= 1,
        tile_at(ws, area, border_px, other).w >= 1,
        tile_at(ws, area, border_px, other).h >= 1,
    ensures
        geometry::outset(tile_at(ws, area, border_px, pos), border_px).apart(
            geometry::outset(tile_at(ws, area, border_px, other), border_px),
        ),
        ({
            let a = tile_at(ws, area, border_px, pos);
            let b = tile_at(ws, area, border_px, other);
            b.x >= a.x + a.w + gap_of(ws, border_px) || b.y >= a.y + a.h + gap_of(ws, border_px)
        }),
{
    lemma_tile(ws, area, border_px, pos);
    lemma_tile(ws, area, border_px, other);
    let a = tile_at(ws, area, border_px, pos);
    let b = tile_at(ws, area, border_px, other);
    let gap = gap_of(ws, border_px);
    if in_master(ws, pos) == in_master(ws, other) {
        let k = other - pos;
        assert((a.h + gap) * pos + (a.h + gap) * k == (a.h + gap) * other) by (nonlinear_arith)
            requires
                k == other - pos,
        ;
        let n = geometry::min(ws.nmaster as int, tiled_of(ws).len() as int);
        assert((a.h + gap) * (other - n) - (a.h + gap) * (pos - n) == (a.h + gap) * k)
            by (nonlinear_arith)
            requires
                k == other - pos,
        ;
        assert((a.h + gap) * k >= a.h + gap) by (nonlinear_arith)
            requires
                k >= 1,
                a.h + gap >= 0,
        ;
        assert(b.y >= a.y + a.h + gap);
    } else {
        assert(b.x >= a.x + a.w + gap);
    }
}

proof fn lemma_picked_apart(floating: Seq<bool>, floats: bool, n: int)
    requires
        0 <= n <= floating.len(),
    ensures
        forall|i: int, j: int|
            0 <= i < j < workspace::picked(floating, floats, n).len() ==> (
            #[trigger] workspace::picked(floating, floats, n)[i]) < (#[trigger] workspace::picked(
                floating,
                floats,
                n,
            )[j]),
        forall|k: int|
            0 <= k < n && floating[k] == floats ==> #[trigger] workspace::picked(
                floating,
                floats,
                n,
            ).contains(k),
    decreases n,
{
    if n > 0 {
        lemma_picked_apart(floating, floats, n - 1);
        workspace::lemma_picked(floating, floats, n - 1);
        let before = workspace::picked(floating, floats, n - 1);
        let out = workspace::picked(floating, floats, n);
        assert forall|k: int| 0 <= k < n && floating[k] == floats implies #[trigger] out.contains(
            k,
        ) by {
            if k < n - 1 {
                assert(before.contains(k));
                let i = choose|i: int| 0 <= i < before.len() && before[i] == k;
                assert(out[i] == k);
            } else {
                assert(out[out.len() - 1] == k);
            }
        }
    }
}

/// Every window of a workspace gets exactly one place, at most one of them has
/// the focus, and the border lies around the window, outside it, where there is
/// one.
pub proof fn law_every_window_has_a_place(
    ws: WorkspaceView,
    asked: Seq<Size>,
    area: Rect,
    border_px: int,
)
    requires
        ws.wf(),
    ensures
        ({
            let gs = layout_of(ws, asked, area, border_px);
            &&& forall|w: WindowId|
                #[trigger] ws.clients.contains(w) ==> exists|k: int|
                    0 <= k < gs.len() && (#[trigger] gs[k]).window == w
            &&& forall|k: int|
                0 <= k < gs.len() ==> ws.clients.contains((#[trigger] gs[k]).window)
                    && gs[k].border_rect == border_of(gs[k].rect, border_px)
            &&& forall|i: int, j: int|
                0 <= i < j < gs.len() ==> (#[trigger] gs[i]).window != (#[trigger] gs[j]).window
                    && !(gs[i].is_focused && gs[j].is_focused)
        }),
{
    let gs = layout_of(ws, asked, area, border_px);
    let n = ws.floating.len() as int;
    let t = tiled_of(ws);
    let f = floating_of(ws);
    workspace::lemma_picked(ws.floating, false, n);
    workspace::lemma_picked(ws.floating, true, n);
    lemma_picked_apart(ws.floating, false, n);
    lemma_picked_apart(ws.floating, true, n);
    workspace::lemma_window_count(ws.clients);
    assert forall|k: int| 0 <= k < gs.len() implies (#[trigger] gs[k]).window == ws.clients[if k
        < t.len() {
        t[k]
    } else {
        f[k - t.len()]
    }] && gs[k].border_rect == border_of(gs[k].rect, border_px) && (gs[k].is_focused
        ==> ws.cursor() == (if k < t.len() {
        t[k]
    } else {
        f[k - t.len()]
    })) by {
        if k < t.len() {
            assert(gs[k] == tiled_geometry(ws, area, border_px, t, k));
        } else {
            assert(gs[k] == float_geometry(ws, asked, area, border_px, f[k - t.len()]));
        }
    }
    assert forall|w: WindowId| #[trigger] ws.clients.contains(w) implies exists|k: int|
        0 <= k < gs.len() && (#[trigger] gs[k]).window == w by {
        let c = choose|c: int| 0 <= c < ws.clients.len() && ws.clients[c] == w;
        if ws.floating[c] {
            assert(f.contains(c));
            let i = choose|i: int| 0 <= i < f.len() && f[i] == c;
            assert(gs[t.len() + i].window == w);
        } else {
            assert(t.contains(c));
            let i = choose|i: int| 0 <= i < t.len() && t[i] == c;
            assert(gs[i].window == w);
        }
    }
}

/// A floating window, with its border, lies in the work area.
pub proof fn law_float_inside(ws: WorkspaceView, area: Rect, border_px: int, asked: Size)
    requires
        fits(ws.gap_px as int, area, border_px),
        0 <= border_px,
        2 * border_px < area.w,
        2 * border_px < area.h,
    ensures
        float_rect(geometry::inset(area, border_px), asked).inside(area),
        geometry::outset(float_rect(geometry::inset(area, border_px), asked), border_px).inside(
            area,
        ),
{
    let p = geometry::inset(area, border_px);
    ratio::law_scaling_shrinks(p.w as nat, ratio::NINETY_FIVE_HUNDREDTHS as nat);
    ratio::law_scaling_shrinks(p.h as nat, ratio::NINETY_FIVE_HUNDREDTHS as nat);
}

/// The client that gets the place at `k`.
proof fn lemma_place_at(
    ws: WorkspaceView,
    asked: Seq<Size>,
    area: Rect,
    border_px: int,
    k: int,
) -> (c: int)
    requires
        ws.wf(),
        0 <= k < layout_of(ws, asked, area, border_px).len(),
    ensures
        0 <= c < ws.clients.len(),
        layout_of(ws, asked, area, border_px)[k].window == ws.clients[c],
        k < tiled_of(ws).len() ==> c == tiled_of(ws)[k] && !ws.floating[c] && layout_of(
            ws,
            asked,
            area,
            border_px,
        )[k] == tiled_geometry(ws, area, border_px, tiled_of(ws), k),
        k >= tiled_of(ws).len() ==> c == floating_of(ws)[k - tiled_of(ws).len()] && ws.floating[c]
            && layout_of(ws, asked, area, border_px)[k] == float_geometry(
            ws,
            asked,
            area,
            border_px,
            c,
        ),
{
    let n = ws.floating.len() as int;
    workspace::lemma_picked(ws.floating, false, n);
    workspace::lemma_picked(ws.floating, true, n);
    workspace::lemma_window_count(ws.clients);
    let t = tiled_of(ws);
    let f = floating_of(ws);
    if k < t.len() {
        t[k]
    } else {
        f[k - t.len()]
    }
}

/// The tiled windows come before the floating ones, and within each kind the
/// windows keep the order of the workspace.
pub proof fn law_layout_keeps_order(
    ws: WorkspaceView,
    asked: Seq<Size>,
    area: Rect,
    border_px: int,
    p: int,
    q: int,
    a: int,
    b: int,
)
    requires
        ws.wf(),
        0 <= p < q < layout_of(ws, asked, area, border_px).len(),
        0 <= a < ws.clients.len(),
        0 <= b < ws.clients.len(),
        layout_of(ws, asked, area, border_px)[p].window == ws.clients[a],
        layout_of(ws, asked, area, border_px)[q].window == ws.clients[b],
    ensures
        ws.floating[a] ==> ws.floating[b],
        ws.floating[a] == ws.floating[b] ==> a < b,
        p < tiled_of(ws).len() <==> !ws.floating[a],
{
    let c = lemma_place_at(ws, asked, area, border_px, p);
    let d = lemma_place_at(ws, asked, area, border_px, q);
    workspace::lemma_window_count(ws.clients);
    let n = ws.floating.len() as int;
    lemma_picked_apart(ws.floating, false, n);
    lemma_picked_apart(ws.floating, true, n);
    assert(c == a && d == b);
}

/// There are as many tiles as windows that do not float, in their order.
pub proof fn law_tiles_are_the_rest(ws: WorkspaceView)
    requires
        ws.wf(),
    ensures
        forall|k: int|
            0 <= k < tiled_of(ws).len() ==> 0 <= #[trigger] tiled_of(ws)[k] < ws.clients.len()
                && !ws.floating[tiled_of(ws)[k]],
        forall|i: int, j: int|
            0 <= i < j < tiled_of(ws).len() ==> #[trigger] tiled_of(ws)[i] < #[trigger] tiled_of(
                ws,
            )[j],
        forall|c: int|
            0 <= c < ws.clients.len() && !ws.floating[c] ==> #[trigger] tiled_of(ws).contains(c),
        forall|c: int|
            0 <= c < ws.clients.len() && ws.floating[c] ==> #[trigger] floating_of(ws).contains(c),
{
    let n = ws.floating.len() as int;
    workspace::lemma_picked(ws.floating, false, n);
    lemma_picked_apart(ws.floating, false, n);
    lemma_picked_apart(ws.floating, true, n);
}

/// Just the focused window is marked as such. In the tile layout every window
/// is visible; in the monocle layout the focused one and those that float.
pub proof fn law_who_is_seen(
    ws: WorkspaceView,
    asked: Seq<Size>,
    area: Rect,
    border_px: int,
    k: int,
)
    requires
        ws.wf(),
        0 <= k < layout_of(ws, asked, area, border_px).len(),
    ensures
        ({
            let g = layout_of(ws, asked, area, border_px)[k];
            &&& g.is_focused <==> ws.focused_window() == Some(g.window)
            &&& g.visible <==> (ws.layout == LayoutKind::Tile || k >= tiled_of(ws).len()
                || ws.focused_window() == Some(g.window))
        }),
{
    let c = lemma_place_at(ws, asked, area, border_px, k);
    workspace::lemma_window_count(ws.clients);
}

/// A border is as wide as asked on all four sides of its window, and there is
/// none where its width is not positive.
pub proof fn law_border_goes_around(
    ws: WorkspaceView,
    asked: Seq<Size>,
    area: Rect,
    border_px: int,
    k: int,
)
    requires
        ws.wf(),
        fits(ws.gap_px as int, area, border_px),
        0 <= k < layout_of(ws, asked, area, border_px).len(),
        layout_of(ws, asked, area, border_px)[k].rect.within(FAR as int),
        1 <= layout_of(ws, asked, area, border_px)[k].rect.w,
        1 <= layout_of(ws, asked, area, border_px)[k].rect.h,
    ensures
        ({
            let g = layout_of(ws, asked, area, border_px)[k];
            let r = g.rect;
            &&& g.border_rect is Some <==> border_px > 0
            &&& border_px > 0 ==> {
                let o = g.border_rect->0;
                &&& r.x - o.x == border_px
                &&& r.y - o.y == border_px
                &&& (o.x + o.w) - (r.x + r.w) == border_px
                &&& (o.y + o.h) - (r.y + r.h) == border_px
            }
        }),
{
    let c = lemma_place_at(ws, asked, area, border_px, k);
}

/// In the monocle layout every tiled window fills the work area but for the
/// border and the gap around it, which is at least two borders wide. So does a
/// lone tiled window in the tile layout.
pub proof fn law_alone_fills_the_area(
    ws: WorkspaceView,
    asked: Seq<Size>,
    area: Rect,
    border_px: int,
    k: int,
)
    requires
        ws.wf(),
        fits(ws.gap_px as int, area, border_px),
        1 <= area.w,
        1 <= area.h,
        2 * border_px < area.w,
        2 * border_px < area.h,
        0 <= k < tiled_of(ws).len(),
        ws.layout == LayoutKind::Monocle || tiled_of(ws).len() == 1,
    ensures
        ({
            let r = layout_of(ws, asked, area, border_px)[k].rect;
            let gap = if ws.gap_px >= 2 * border_px {
                ws.gap_px as int
            } else {
                2 * border_px
            };
            &&& r.x - area.x == border_px + gap
            &&& r.y - area.y == border_px + gap
            &&& (area.x + area.w) - (r.x + r.w) == border_px + gap
            &&& (area.y + area.h) - (r.y + r.h) == border_px + gap
        }),
{
    let c = lemma_place_at(ws, asked, area, border_px, k);
}

/// The columns of the tile layout fill the width of the area between the outer
/// gaps. The first windows, as many as the workspace has masters, stand at its
/// left edge and take their share of it; the others start one gap to the right
/// of them and end at its right edge. Without a second column the first takes
/// it all.
pub proof fn law_columns_fill_the_width(
    ws: WorkspaceView,
    asked: Seq<Size>,
    area: Rect,
    border_px: int,
    k: int,
)
    requires
        ws.wf(),
        ws.layout == LayoutKind::Tile,
        fits(ws.gap_px as int, area, border_px),
        0 <= border_px,
        area.w < 0x100_0000,
        0 <= k < tiled_of(ws).len(),
        tiled_of(ws).len() > 1,
        ({
            let gap = if ws.gap_px >= 2 * border_px {
                ws.gap_px as int
            } else {
                2 * border_px
            };
            let width = area.w - 2 * border_px - 2 * gap;
            &&& 1 <= width
            &&& tiled_of(ws).len() > ws.nmaster ==> (gap + 3) * 0x1000_0000 <= width * (0x1000_0000
                - ws.mfact)
        }),
    ensures
        ({
            let r = layout_of(ws, asked, area, border_px)[k].rect;
            let gap = if ws.gap_px >= 2 * border_px {
                ws.gap_px as int
            } else {
                2 * border_px
            };
            let left = area.x + border_px + gap;
            let right = area.x + area.w - border_px - gap;
            let share = (right - left) * ws.mfact;
            &&& k < ws.nmaster ==> r.x == left
            &&& tiled_of(ws).len() <= ws.nmaster ==> r.x + r.w == right
            &&& k < ws.nmaster < tiled_of(ws).len() ==> {
                &&& share - 0x3000_0000 < r.w * 0x1000_0000 < share + 0x2000_0000
                &&& forall|j: int|
                    ws.nmaster <= j < tiled_of(ws).len() ==> (#[trigger] layout_of(
                        ws,
                        asked,
                        area,
                        border_px,
                    )[j]).rect.x == r.x + r.w + gap
            }
            &&& k >= ws.nmaster ==> {
                &&& r.x + r.w == right
                &&& share - 0x3000_0000 < (r.x - gap - left) * 0x1000_0000 < share + 0x2000_0000
            }
        }),
{
    let c = lemma_place_at(ws, asked, area, border_px, k);
    let inner = tile_area(ws, area, border_px);
    let gap = gap_of(ws, border_px);
    let w = inner.w as int;
    let m = ws.mfact as int;
    assert(2 * border_px < area.w && w == area.w - 2 * border_px - 2 * gap);
    ratio::law_scaled_is_a_share(w as nat, ws.mfact as nat);
    ratio::law_scaling_shrinks(w as nat, ws.mfact as nat);
    assert(w * (0x1000_0000 - m) == w * 0x1000_0000 - w * m) by (nonlinear_arith);
    assert forall|j: int| ws.nmaster <= j < tiled_of(ws).len() implies (#[trigger] layout_of(
        ws,
        asked,
        area,
        border_px,
    )[j]).rect.x == inner.x + ratio::scaled(w, ws.mfact as nat) + gap by {
        let d = lemma_place_at(ws, asked, area, border_px, j);
    }
}

/// The rows of a column of the tile layout fill its height: the first starts at
/// the top, all are equally high, each starts one gap below the one above, and
/// what is left below the last is less than a pixel for each row.
pub proof fn law_rows_fill_the_height(
    ws: WorkspaceView,
    asked: Seq<Size>,
    area: Rect,
    border_px: int,
    first: int,
    n: int,
    k: int,
)
    requires
        ws.wf(),
        ws.layout == LayoutKind::Tile,
        fits(ws.gap_px as int, area, border_px),
        0 <= border_px,
        2 * border_px < area.h,
        tiled_of(ws).len() > 1,
        0 <= k < n,
        (first == 0 && n == ws.nmaster && n <= tiled_of(ws).len()) || (first == 0 && n == tiled_of(
            ws,
        ).len() && n <= ws.nmaster) || (first == ws.nmaster && first + n == tiled_of(ws).len()),
        ({
            let gap = if ws.gap_px >= 2 * border_px {
                ws.gap_px as int
            } else {
                2 * border_px
            };
            n + gap * (n - 1) <= area.h - 2 * border_px - 2 * gap
        }),
    ensures
        ({
            let gs = layout_of(ws, asked, area, border_px);
            let gap = if ws.gap_px >= 2 * border_px {
                ws.gap_px as int
            } else {
                2 * border_px
            };
            let h = gs[first + k].rect.h;
            &&& h >= 1
            &&& k == 0 ==> gs[first + k].rect.y == area.y + border_px + gap
            &&& k > 0 ==> gs[first + k - 1].rect.h == h && gs[first + k].rect.y == gs[first + k
                - 1].rect.y + h + gap
            &&& k == n - 1 ==> 0 <= (area.y + area.h - border_px - gap) - (gs[first + k].rect.y + h)
                < n
        }),
{
    let inner = tile_area(ws, area, border_px);
    let gap = gap_of(ws, border_px);
    let total = inner.h as int;
    workspace::lemma_picked(ws.floating, false, ws.floating.len() as int);
    workspace::lemma_window_count(ws.clients);
    lemma_column(total, gap, n, k);
    let h = column_height(total, gap, n);
    let a = total - gap * (n - 1);
    vstd::arithmetic::div_mod::lemma_fundamental_div_mod(a, n);
    assert(h == a / n);
    assert(n * h == h * n) by (nonlinear_arith);
    assert(h >= 1) by (nonlinear_arith)
        requires
            h == a / n,
            a >= n,
            n >= 1,
    ;
    lemma_rows(total, gap, n, k);
    let c = lemma_place_at(ws, asked, area, border_px, first + k);
    assert((h + gap) * 0 == 0);
    if k > 0 {
        lemma_column(total, gap, n, k - 1);
        lemma_rows(total, gap, n, k - 1);
        let d = lemma_place_at(ws, asked, area, border_px, first + k - 1);
        assert((h + gap) * k == (h + gap) * (k - 1) + h + gap) by (nonlinear_arith);
    }
    assert((h + gap) * (n - 1) + h == h * n + gap * (n - 1)) by (nonlinear_arith);
}

/// A floating window is as large as it asked to be, or 640 by 480, but takes no
/// more than 95 percent of the work area within the border, and it stands in
/// the middle.
pub proof fn law_float_is_centred(
    ws: WorkspaceView,
    asked: Seq<Size>,
    area: Rect,
    border_px: int,
    k: int,
    c: int,
)
    requires
        ws.wf(),
        asked.len() == ws.clients.len(),
        fits(ws.gap_px as int, area, border_px),
        0 <= 2 * border_px < area.w < 0x100_0000,
        2 * border_px < area.h < 0x100_0000,
        0 <= c < ws.clients.len(),
        ws.floating[c],
        0 <= k < layout_of(ws, asked, area, border_px).len(),
        layout_of(ws, asked, area, border_px)[k].window == ws.clients[c],
    ensures
        ({
            let r = layout_of(ws, asked, area, border_px)[k].rect;
            let w = area.w - 2 * border_px;
            let h = area.h - 2 * border_px;
            let want_w = if asked[c].w > 1 {
                asked[c].w as int
            } else {
                640
            };
            let want_h = if asked[c].h > 1 {
                asked[c].h as int
            } else {
                480
            };
            &&& 1 <= r.w <= want_w
            &&& 1 <= r.h <= want_h
            &&& 100 * r.w <= 95 * w + 200
            &&& 100 * r.h <= 95 * h + 200
            &&& r.w < want_w ==> 100 * r.w > 95 * w - 400
            &&& r.h < want_h ==> 100 * r.h > 95 * h - 400
            &&& -1 <= (r.x - area.x) - ((area.x + area.w) - (r.x + r.w)) <= 1
            &&& -1 <= (r.y - area.y) - ((area.y + area.h) - (r.y + r.h)) <= 1
        }),
{
    let d = lemma_place_at(ws, asked, area, border_px, k);
    workspace::lemma_window_count(ws.clients);
    assert(d == c);
    let p = geometry::inset(area, border_px);
    let n = ratio::NINETY_FIVE_HUNDREDTHS as nat;
    ratio::law_scaled_is_a_share(p.w as nat, n);
    ratio::law_scaled_is_a_share(p.h as nat, n);
    ratio::law_scaling_shrinks(p.w as nat, n);
    ratio::law_scaling_shrinks(p.h as nat, n);
}

} // verus!
