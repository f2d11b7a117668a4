//! What holds of every picture of an output.

use vstd::prelude::*;

use crate::gate::frame;
use crate::gate::frame::{Bucket, Extent, LayerInfo, Part};
use crate::gate::state::GateView;
use crate::gate::workspace;
use crate::gate::workspace::WindowId;
use crate::geometry::Rect;

verus! {

// ---- The layers of a picture ------------------------------------------------

impl GateView {
    /// The parts of the picture of output `o` that share the layer `d`.
    spec fn segment(self, o: int, es: Seq<Extent>, ls: Seq<LayerInfo>, d: int) -> Seq<Part> {
        let n = self.stage.space.len() as int;
        let full = self.outputs[o].fullscreen is Some;
        let dim = self.most_dim(o, self.scratchpads.len() as int);
        let bar = self.config.bar.enabled;
        if d == 0 {
            seq![Part::Cursor]
        } else if d == 1 {
            frame::optional(self.overlay_visible, Part::KeyOverlay)
        } else if d == 2 {
            frame::layer_parts(ls, 0)
        } else if d == 3 {
            match self.picker_rect(o, ls) {
                Some(r) => seq![Part::PickerBlur(r)],
                None => Seq::empty(),
            }
        } else if d == 4 {
            frame::optional(!full, Part::ScratchpadBorders)
        } else if d == 5 {
            frame::window_parts(self.drawn(o, es, Bucket::Scratchpad, n))
        } else if d == 6 {
            frame::optional(dim > 0, Part::Dim(dim as u8))
        } else if d == 7 {
            frame::window_parts(self.drawn(o, es, Bucket::FocusedFloat, n))
        } else if d == 8 {
            frame::window_parts(self.drawn(o, es, Bucket::Float, n))
        } else if d == 9 {
            frame::window_parts(self.drawn(o, es, Bucket::Tiled, n))
        } else if d == 10 {
            frame::optional(!full && bar, Part::Bar)
        } else if d == 11 {
            frame::optional(!full && bar && self.config.bar.blur, Part::BarBlur)
        } else if d == 12 {
            frame::optional(!full, Part::Borders)
        } else {
            seq![Part::Wallpaper]
        }
    }

    /// The first `d` layers of the picture, one behind the other.
    spec fn stacked(self, o: int, es: Seq<Extent>, ls: Seq<LayerInfo>, d: int) -> Seq<Part>
        decreases d,
    {
        if d <= 0 {
            Seq::empty()
        } else {
            self.stacked(o, es, ls, d - 1) + self.segment(o, es, ls, d - 1)
        }
    }
}

proof fn lemma_picture_stacked(g: GateView, o: int, es: Seq<Extent>, ls: Seq<LayerInfo>)
    requires
        !g.veiled(),
    ensures
        g.picture(o, es, ls) == g.stacked(o, es, ls, 14),
        g.picture(o, es, ls).len() - g.backdrop_parts(o, es).len() == g.stacked(
            o,
            es,
            ls,
            7,
        ).len(),
{
    reveal_with_fuel(GateView::stacked, 15);
    assert(g.stacked(o, es, ls, 7) =~= g.front_parts(o, es, ls));
    assert(g.stacked(o, es, ls, 14) =~= g.front_parts(o, es, ls) + g.backdrop_parts(o, es));
}

proof fn lemma_stacked_grows(
    g: GateView,
    o: int,
    es: Seq<Extent>,
    ls: Seq<LayerInfo>,
    a: int,
    b: int,
)
    requires
        0 <= a <= b,
    ensures
        g.stacked(o, es, ls, a).len() <= g.stacked(o, es, ls, b).len(),
        forall|k: int|
            0 <= k < g.stacked(o, es, ls, a).len() ==> g.stacked(o, es, ls, b)[k]
                == #[trigger] g.stacked(o, es, ls, a)[k],
    decreases b,
{
    if a < b {
        lemma_stacked_grows(g, o, es, ls, a, b - 1);
    }
}

/// The layer of the part at `k`.
proof fn lemma_stacked_at(
    g: GateView,
    o: int,
    es: Seq<Extent>,
    ls: Seq<LayerInfo>,
    d: int,
    k: int,
) -> (e: int)
    requires
        0 <= k < g.stacked(o, es, ls, d).len(),
    ensures
        0 <= e < d,
        g.stacked(o, es, ls, e).len() <= k < g.stacked(o, es, ls, e + 1).len(),
        k - g.stacked(o, es, ls, e).len() < g.segment(o, es, ls, e).len(),
        g.stacked(o, es, ls, d)[k] == g.segment(o, es, ls, e)[k - g.stacked(o, es, ls, e).len()],
    decreases d,
{
    if k >= g.stacked(o, es, ls, d - 1).len() {
        d - 1
    } else {
        lemma_stacked_at(g, o, es, ls, d - 1, k)
    }
}

/// The part at `m` of layer `e` is in the picture.
proof fn lemma_stacked_has(
    g: GateView,
    o: int,
    es: Seq<Extent>,
    ls: Seq<LayerInfo>,
    e: int,
    m: int,
)
    requires
        !g.veiled(),
        0 <= e < 14,
        0 <= m < g.segment(o, es, ls, e).len(),
    ensures
        g.picture(o, es, ls).contains(g.segment(o, es, ls, e)[m]),
{
    lemma_picture_stacked(g, o, es, ls);
    lemma_stacked_grows(g, o, es, ls, e + 1, 14);
    let k = g.stacked(o, es, ls, e).len() + m;
    assert(g.stacked(o, es, ls, e + 1)[k] == g.segment(o, es, ls, e)[m]);
    assert(g.picture(o, es, ls)[k] == g.segment(o, es, ls, e)[m]);
}

/// The layer that a part of a picture belongs to.
spec fn layer_of(g: GateView, p: Part) -> int {
    match p {
        Part::Cursor => 0,
        Part::KeyOverlay => 1,
        Part::Layer(_) => 2,
        Part::PickerBlur(_) => 3,
        Part::ScratchpadBorders => 4,
        Part::Window(w) => match g.bucket(w.window) {
            Bucket::Scratchpad => 5,
            Bucket::FocusedFloat => 7,
            Bucket::Float => 8,
            Bucket::Tiled => 9,
        },
        Part::Dim(_) => 6,
        Part::Bar => 10,
        Part::BarBlur => 11,
        Part::Borders => 12,
        Part::Wallpaper => 13,
        Part::LockSurface => 14,
    }
}

proof fn lemma_segment_layer(
    g: GateView,
    o: int,
    es: Seq<Extent>,
    ls: Seq<LayerInfo>,
    e: int,
    m: int,
)
    requires
        0 <= e < 14,
        0 <= m < g.segment(o, es, ls, e).len(),
    ensures
        layer_of(g, g.segment(o, es, ls, e)[m]) == e,
{
    let n = g.stage.space.len() as int;
    frame::lemma_layer_parts(ls, 0);
    if e == 5 {
        frame::lemma_drawn_bucket(g, o, es, Bucket::Scratchpad, n);
    } else if e == 7 {
        frame::lemma_drawn_bucket(g, o, es, Bucket::FocusedFloat, n);
    } else if e == 8 {
        frame::lemma_drawn_bucket(g, o, es, Bucket::Float, n);
    } else if e == 9 {
        frame::lemma_drawn_bucket(g, o, es, Bucket::Tiled, n);
    }
}

/// The layer of a part decides where it stands.
proof fn lemma_part_at(g: GateView, o: int, es: Seq<Extent>, ls: Seq<LayerInfo>, k: int) -> (e: int)
    requires
        !g.veiled(),
        0 <= k < g.picture(o, es, ls).len(),
    ensures
        0 <= e < 14,
        e == layer_of(g, g.picture(o, es, ls)[k]),
        g.stacked(o, es, ls, e).len() <= k < g.stacked(o, es, ls, e + 1).len(),
        k - g.stacked(o, es, ls, e).len() < g.segment(o, es, ls, e).len(),
        g.picture(o, es, ls)[k] == g.segment(o, es, ls, e)[k - g.stacked(o, es, ls, e).len()],
{
    lemma_picture_stacked(g, o, es, ls);
    let e = lemma_stacked_at(g, o, es, ls, 14, k);
    lemma_segment_layer(g, o, es, ls, e, k - g.stacked(o, es, ls, e).len());
    e
}

// ---- The order of the parts -------------------------------------------------

/// From the front to the back a picture shows: the cursor, the help on keys,
/// the surfaces of tools, the blur behind the picker, the borders of the
/// scratchpads, their windows, what darkens the rest, the focused window if it
/// floats, the other floating windows, the tiled ones, the bar, the blur behind
/// it, the borders and the wallpaper. Only surfaces of tools and windows of one
/// kind come more than once.
pub proof fn law_front_to_back(
    g: GateView,
    o: int,
    es: Seq<Extent>,
    ls: Seq<LayerInfo>,
    i: int,
    j: int,
)
    requires
        !g.locked,
        g.lock_pending_since is None,
        0 <= i < j < g.picture(o, es, ls).len(),
    ensures
        ({
            let depth = |p: Part|
                match p {
                    Part::Cursor => 0int,
                    Part::KeyOverlay => 1,
                    Part::Layer(_) => 2,
                    Part::PickerBlur(_) => 3,
                    Part::ScratchpadBorders => 4,
                    Part::Window(w) => match g.bucket(w.window) {
                        Bucket::Scratchpad => 5,
                        Bucket::FocusedFloat => 7,
                        Bucket::Float => 8,
                        Bucket::Tiled => 9,
                    },
                    Part::Dim(_) => 6,
                    Part::Bar => 10,
                    Part::BarBlur => 11,
                    Part::Borders => 12,
                    Part::Wallpaper => 13,
                    Part::LockSurface => -1,
                };
            let a = g.picture(o, es, ls)[i];
            let b = g.picture(o, es, ls)[j];
            &&& 0 <= depth(a) <= depth(b)
            &&& depth(a) == depth(b) ==> (a is Layer && b is Layer) || (a is Window && b is Window)
        }),
{
    let a = lemma_part_at(g, o, es, ls, i);
    let b = lemma_part_at(g, o, es, ls, j);
    if a > b {
        lemma_stacked_grows(g, o, es, ls, b + 1, a);
        assert(false);
    }
}

/// The parts counted as the backdrop are those behind the scratchpads and what
/// they darken.
pub proof fn law_backdrop_is_behind(
    g: GateView,
    o: int,
    es: Seq<Extent>,
    ls: Seq<LayerInfo>,
    i: int,
)
    requires
        !g.locked,
        g.lock_pending_since is None,
        0 <= i < g.picture(o, es, ls).len(),
    ensures
        ({
            let p = g.picture(o, es, ls)[i];
            i >= g.picture(o, es, ls).len() - g.backdrop_parts(o, es).len() <==> (p is Bar
                || p is BarBlur || p is Borders || p is Wallpaper || (p matches Part::Window(w)
                && g.bucket(w.window) != Bucket::Scratchpad))
        }),
{
    lemma_picture_stacked(g, o, es, ls);
    let e = lemma_part_at(g, o, es, ls, i);
    if e < 7 {
        lemma_stacked_grows(g, o, es, ls, e + 1, 7);
    } else {
        lemma_stacked_grows(g, o, es, ls, 7, e);
    }
}

// ---- Which parts there are --------------------------------------------------

/// The cursor and the wallpaper are always in the picture. The help on keys is
/// in it while it is shown. A window that fills the screen leaves no borders
/// and no bar; otherwise the bar and its blur are there where they are switched
/// on. Nothing belongs to a lock.
pub proof fn law_which_parts(g: GateView, o: int, es: Seq<Extent>, ls: Seq<LayerInfo>)
    requires
        !g.locked,
        g.lock_pending_since is None,
    ensures
        ({
            let p = g.picture(o, es, ls);
            let full = g.outputs[o].fullscreen is Some;
            let bar = g.config.bar;
            &&& p.len() >= 2
            &&& p[0] == Part::Cursor
            &&& p.last() == Part::Wallpaper
            &&& p.contains(Part::KeyOverlay) <==> g.overlay_visible
            &&& p.contains(Part::ScratchpadBorders) <==> !full
            &&& p.contains(Part::Borders) <==> !full
            &&& p.contains(Part::Bar) <==> !full && bar.enabled
            &&& p.contains(Part::BarBlur) <==> !full && bar.enabled && bar.blur
            &&& !p.contains(Part::LockSurface)
        }),
{
    let p = g.picture(o, es, ls);
    lemma_picture_stacked(g, o, es, ls);
    reveal_with_fuel(GateView::stacked, 2);
    lemma_stacked_grows(g, o, es, ls, 1, 13);
    lemma_stacked_grows(g, o, es, ls, 1, 14);
    assert(g.stacked(o, es, ls, 1) =~= seq![Part::Cursor]);
    assert(g.stacked(o, es, ls, 1)[0] == Part::Cursor);
    assert(g.stacked(o, es, ls, 14) == g.stacked(o, es, ls, 13) + seq![Part::Wallpaper]);
    assert forall|k: int| 0 <= k < p.len() implies {
        let q = #[trigger] p[k];
        &&& q is KeyOverlay ==> g.overlay_visible
        &&& q is ScratchpadBorders || q is Borders || q is Bar || q is BarBlur
            ==> g.outputs[o].fullscreen is None
        &&& q is Bar || q is BarBlur ==> g.config.bar.enabled
        &&& q is BarBlur ==> g.config.bar.blur
        &&& !(q is LockSurface)
    } by {
        let e = lemma_part_at(g, o, es, ls, k);
    }
    if g.overlay_visible {
        lemma_stacked_has(g, o, es, ls, 1, 0);
    }
    if g.outputs[o].fullscreen is None {
        lemma_stacked_has(g, o, es, ls, 4, 0);
        lemma_stacked_has(g, o, es, ls, 12, 0);
        if g.config.bar.enabled {
            lemma_stacked_has(g, o, es, ls, 10, 0);
            if g.config.bar.blur {
                lemma_stacked_has(g, o, es, ls, 11, 0);
            }
        }
    }
}

proof fn lemma_layers(ls: Seq<LayerInfo>, i: int)
    requires
        0 <= i <= ls.len() <= usize::MAX,
    ensures
        ({
            let p = frame::layer_parts(ls, i);
            &&& forall|k: int|
                0 <= k < p.len() ==> (#[trigger] p[k] matches Part::Layer(x) && i <= x < ls.len()
                    && ls[x as int].above && ls[x as int].geometry is Some)
            &&& forall|a: int, b: int|
                0 <= a < b < p.len() ==> (#[trigger] p[a])->Layer_0 > (#[trigger] p[b])->Layer_0
            &&& forall|x: int|
                i <= x < ls.len() && ls[x].above && ls[x].geometry is Some
                    ==> #[trigger] p.contains(Part::Layer(x as usize))
        }),
    decreases ls.len() - i,
{
    if i < ls.len() {
        lemma_layers(ls, i + 1);
        let before = frame::layer_parts(ls, i + 1);
        let p = frame::layer_parts(ls, i);
        assert forall|x: int| i <= x < ls.len() && ls[x].above && ls[x].geometry is Some implies
            #[trigger] p.contains(Part::Layer(x as usize)) by {
            if x == i {
                assert(p[p.len() - 1] == Part::Layer(x as usize));
            } else {
                assert(before.contains(Part::Layer(x as usize)));
                let k = choose|k: int| 0 <= k < before.len() && before[k] == Part::Layer(x as usize);
                assert(p[k] == Part::Layer(x as usize));
            }
        }
    }
}

/// Of the surfaces of tools, those that stand above the windows and have a
/// place are in the picture; one that came later stands before one that came
/// earlier.
pub proof fn law_surfaces_of_tools(g: GateView, o: int, es: Seq<Extent>, ls: Seq<LayerInfo>)
    requires
        !g.locked,
        g.lock_pending_since is None,
        ls.len() <= usize::MAX,
    ensures
        ({
            let p = g.picture(o, es, ls);
            &&& forall|x: usize|
                #[trigger] p.contains(Part::Layer(x)) <==> x < ls.len() && ls[x as int].above
                    && ls[x as int].geometry is Some
            &&& forall|i: int, j: int|
                0 <= i < j < p.len() && (#[trigger] p[i]) is Layer && (#[trigger] p[j]) is Layer
                    ==> p[i]->Layer_0 > p[j]->Layer_0
        }),
{
    let p = g.picture(o, es, ls);
    lemma_layers(ls, 0);
    let l = frame::layer_parts(ls, 0);
    let start = g.stacked(o, es, ls, 2).len() as int;
    assert forall|k: int| 0 <= k < p.len() && #[trigger] p[k] is Layer implies start <= k < start
        + l.len() && p[k] == l[k - start] by {
        let e = lemma_part_at(g, o, es, ls, k);
        assert(e == 2);
    }
    assert forall|x: usize| x < ls.len() && ls[x as int].above && ls[x as int].geometry is Some
        implies #[trigger] p.contains(Part::Layer(x)) by {
        assert(l.contains(Part::Layer(x as int as usize)));
        let k = choose|k: int| 0 <= k < l.len() && l[k] == Part::Layer(x);
        lemma_stacked_has(g, o, es, ls, 2, k);
    }
}

proof fn lemma_picker_from(ls: Seq<LayerInfo>, i: int, x: int)
    requires
        0 <= i <= x < ls.len(),
        ls[x].above && ls[x].is_picker && ls[x].geometry is Some,
        forall|y: int|
            i <= y < x ==> !((#[trigger] ls[y]).above && ls[y].is_picker && ls[y].geometry is Some),
    ensures
        frame::picker_from(ls, i) == ls[x].geometry,
    decreases x - i,
{
    if i < x {
        lemma_picker_from(ls, i + 1, x);
    }
}

proof fn lemma_no_picker(ls: Seq<LayerInfo>, i: int)
    requires
        0 <= i <= ls.len(),
        forall|y: int|
            i <= y < ls.len() ==> !((#[trigger] ls[y]).above && ls[y].is_picker
                && ls[y].geometry is Some),
    ensures
        frame::picker_from(ls, i) is None,
    decreases ls.len() - i,
{
    if i < ls.len() {
        lemma_no_picker(ls, i + 1);
    }
}

/// The blur behind the theme picker lies where the first picker stands, seen
/// from the corner of the desk; it is drawn where blur is switched on.
pub proof fn law_picker_blur(g: GateView, o: int, es: Seq<Extent>, ls: Seq<LayerInfo>, x: int)
    requires
        !g.locked,
        g.lock_pending_since is None,
        0 <= x < ls.len(),
        ls[x].above && ls[x].is_picker && ls[x].geometry is Some,
        ls[x].geometry->0.within(0x2000_0000),
        -0x2000_0000 <= g.outputs[o].x <= 0x2000_0000,
        -0x2000_0000 <= g.outputs[o].y <= 0x2000_0000,
        forall|y: int|
            0 <= y < x ==> !((#[trigger] ls[y]).above && ls[y].is_picker && ls[y].geometry is Some),
    ensures
        forall|r: Rect| #[trigger]
            g.picture(o, es, ls).contains(Part::PickerBlur(r)) <==> {
                &&& g.config.bar.blur
                &&& r.x - g.outputs[o].x == ls[x].geometry->0.x
                &&& r.y - g.outputs[o].y == ls[x].geometry->0.y
                &&& r.w == ls[x].geometry->0.w
                &&& r.h == ls[x].geometry->0.h
            },
{
    lemma_picker_from(ls, 0, x);
    let p = g.picture(o, es, ls);
    assert forall|k: int| 0 <= k < p.len() && #[trigger] p[k] is PickerBlur implies g.picker_rect(
        o,
        ls,
    ) == Some(p[k]->PickerBlur_0) by {
        let e = lemma_part_at(g, o, es, ls, k);
    }
    if g.config.bar.blur {
        lemma_stacked_has(g, o, es, ls, 3, 0);
    }
}

/// Without a picker nothing is blurred for it.
pub proof fn law_no_picker_no_blur(
    g: GateView,
    o: int,
    es: Seq<Extent>,
    ls: Seq<LayerInfo>,
    k: int,
)
    requires
        !g.locked,
        g.lock_pending_since is None,
        forall|y: int|
            0 <= y < ls.len() ==> !((#[trigger] ls[y]).above && ls[y].is_picker
                && ls[y].geometry is Some),
        0 <= k < g.picture(o, es, ls).len(),
    ensures
        !(g.picture(o, es, ls)[k] is PickerBlur),
{
    lemma_no_picker(ls, 0);
    let e = lemma_part_at(g, o, es, ls, k);
}

// ---- Darkness and blur ------------------------------------------------------

proof fn lemma_most_dim(g: GateView, o: int, n: int)
    requires
        0 <= n <= g.scratchpads.len(),
    ensures
        0 <= g.most_dim(o, n) <= 255,
        forall|s: int|
            0 <= s < n && #[trigger] g.shown_pad(s, o) is Some ==> g.shown_pad(s, o)->0.dim_alpha
                <= g.most_dim(o, n),
        g.most_dim(o, n) > 0 ==> exists|s: int|
            0 <= s < n && #[trigger] g.shown_pad(s, o) is Some && g.shown_pad(s, o)->0.dim_alpha
                == g.most_dim(o, n),
    decreases n,
{
    if n > 0 {
        lemma_most_dim(g, o, n - 1);
        if g.shown_pad(n - 1, o) is Some && g.shown_pad(n - 1, o)->0.dim_alpha == g.most_dim(o, n) {
        } else if g.most_dim(o, n) > 0 {
            let s = choose|s: int|
                0 <= s < n - 1 && #[trigger] g.shown_pad(s, o) is Some && g.shown_pad(
                    s,
                    o,
                )->0.dim_alpha == g.most_dim(o, n - 1);
            assert(g.shown_pad(s, o) is Some);
        }
    }
}

/// What is behind the scratchpads is darkened as much as the visible
/// scratchpad of the output that wants most of it asks for; where none asks,
/// not at all.
pub proof fn law_darkest_wish(g: GateView, o: int, es: Seq<Extent>, ls: Seq<LayerInfo>, d: u8)
    requires
        !g.locked,
        g.lock_pending_since is None,
    ensures
        g.picture(o, es, ls).contains(Part::Dim(d)) ==> {
            &&& d > 0
            &&& exists|s: int|
                0 <= s < g.scratchpads.len() && (#[trigger] g.scratchpads[s]).visible
                    && g.scratchpads[s].output_idx == o && g.scratchpads[s].config_idx
                    < g.config.scratchpads@.len()
                    && g.config.scratchpads@[g.scratchpads[s].config_idx as int].dim_alpha == d
            &&& forall|s: int|
                0 <= s < g.scratchpads.len() && (#[trigger] g.scratchpads[s]).visible
                    && g.scratchpads[s].output_idx == o && g.scratchpads[s].config_idx
                    < g.config.scratchpads@.len()
                    ==> g.config.scratchpads@[g.scratchpads[s].config_idx as int].dim_alpha <= d
        },
        forall|s: int|
            0 <= s < g.scratchpads.len() && (#[trigger] g.scratchpads[s]).visible
                && g.scratchpads[s].output_idx == o && g.scratchpads[s].config_idx
                < g.config.scratchpads@.len()
                && g.config.scratchpads@[g.scratchpads[s].config_idx as int].dim_alpha > 0
                ==> exists|k: int|
                0 <= k < g.picture(o, es, ls).len() && #[trigger] g.picture(o, es, ls)[k] is Dim,
{
    let n = g.scratchpads.len() as int;
    let p = g.picture(o, es, ls);
    lemma_most_dim(g, o, n);
    if p.contains(Part::Dim(d)) {
        let k = choose|k: int| 0 <= k < p.len() && p[k] == Part::Dim(d);
        let e = lemma_part_at(g, o, es, ls, k);
        assert(d == g.most_dim(o, n) && d > 0);
        let s = choose|s: int|
            0 <= s < n && #[trigger] g.shown_pad(s, o) is Some && g.shown_pad(s, o)->0.dim_alpha
                == d;
        assert(g.scratchpads[s].visible);
        assert forall|s: int|
            0 <= s < g.scratchpads.len() && (#[trigger] g.scratchpads[s]).visible
                && g.scratchpads[s].output_idx == o && g.scratchpads[s].config_idx
                < g.config.scratchpads@.len() implies g.config.scratchpads@[g.scratchpads[s].config_idx as int].dim_alpha
            <= d by {
            assert(g.shown_pad(s, o) is Some);
        }
    }
    assert forall|s: int|
        0 <= s < g.scratchpads.len() && (#[trigger] g.scratchpads[s]).visible
            && g.scratchpads[s].output_idx == o && g.scratchpads[s].config_idx
            < g.config.scratchpads@.len()
            && g.config.scratchpads@[g.scratchpads[s].config_idx as int].dim_alpha
            > 0 implies exists|k: int| 0 <= k < p.len() && #[trigger] p[k] is Dim by {
        assert(g.shown_pad(s, o) is Some);
        lemma_stacked_has(g, o, es, ls, 6, 0);
        let q = g.segment(o, es, ls, 6)[0];
        let k = choose|k: int| 0 <= k < p.len() && p[k] == q;
        assert(p[k] is Dim);
    }
}

proof fn lemma_most_passes(g: GateView, o: int, n: int)
    requires
        0 <= n <= g.scratchpads.len(),
    ensures
        0 <= g.most_passes(o, n),
        forall|s: int|
            0 <= s < n && #[trigger] g.shown_pad(s, o) is Some && g.shown_pad(s, o)->0.blur
                ==> g.shown_pad(s, o)->0.blur_passes <= g.most_passes(o, n),
        g.most_passes(o, n) > 0 ==> exists|s: int|
            0 <= s < n && #[trigger] g.shown_pad(s, o) is Some && g.shown_pad(s, o)->0.blur
                && g.shown_pad(s, o)->0.blur_passes == g.most_passes(o, n),
    decreases n,
{
    if n > 0 {
        lemma_most_passes(g, o, n - 1);
        if g.shown_pad(n - 1, o) is Some && g.shown_pad(n - 1, o)->0.blur && g.shown_pad(
            n - 1,
            o,
        )->0.blur_passes == g.most_passes(o, n) {
        } else if g.most_passes(o, n) > 0 {
            let s = choose|s: int|
                0 <= s < n - 1 && #[trigger] g.shown_pad(s, o) is Some && g.shown_pad(s, o)->0.blur
                    && g.shown_pad(s, o)->0.blur_passes == g.most_passes(o, n - 1);
            assert(g.shown_pad(s, o) is Some);
        }
    }
}

/// What is behind the scratchpads is blurred as often as the visible scratchpad
/// of the output that wants most of it asks for, of those that want blur.
pub proof fn law_most_blurred_wish(g: GateView, o: int, s: int)
    requires
        0 <= s < g.scratchpads.len(),
        g.scratchpads[s].visible,
        g.scratchpads[s].output_idx == o,
        g.scratchpads[s].config_idx < g.config.scratchpads@.len(),
    ensures
        ({
            let c = g.config.scratchpads@[g.scratchpads[s].config_idx as int];
            let most = g.most_passes(o, g.scratchpads.len() as int);
            &&& c.blur ==> g.wants_blur(o) && c.blur_passes <= most
            &&& most > 0 ==> exists|t: int|
                0 <= t < g.scratchpads.len() && (#[trigger] g.scratchpads[t]).visible
                    && g.scratchpads[t].output_idx == o && g.scratchpads[t].config_idx
                    < g.config.scratchpads@.len()
                    && g.config.scratchpads@[g.scratchpads[t].config_idx as int].blur
                    && g.config.scratchpads@[g.scratchpads[t].config_idx as int].blur_passes == most
        }),
{
    let n = g.scratchpads.len() as int;
    lemma_most_passes(g, o, n);
    assert(g.shown_pad(s, o) is Some);
    let most = g.most_passes(o, n);
    if most > 0 {
        let t = choose|t: int|
            0 <= t < n && #[trigger] g.shown_pad(t, o) is Some && g.shown_pad(t, o)->0.blur
                && g.shown_pad(t, o)->0.blur_passes == most;
        assert(g.scratchpads[t].visible);
    }
}

// ---- The windows ------------------------------------------------------------

/// A window of a scratchpad stands in the foremost group; any other that floats
/// in its workspace stands before those that do not, the one with the keyboard
/// first.
pub proof fn law_groups_of_windows(g: GateView, w: WindowId)
    requires
        g.wf(),
    ensures
        ({
            let pad = exists|s: int|
                0 <= s < g.scratchpads.len() && #[trigger] g.scratchpads[s].workspace.clients.contains(
                    w,
                );
            let floats = exists|o: int, k: int, c: int|
                #![trigger g.workspaces[o][k].clients[c]]
                0 <= o < g.workspaces.len() && 0 <= k < g.workspaces[o].len() && 0 <= c
                    < g.workspaces[o][k].clients.len() && g.workspaces[o][k].clients[c] == w
                    && g.workspaces[o][k].floating[c];
            &&& g.bucket(w) == Bucket::Scratchpad <==> pad
            &&& g.bucket(w) == Bucket::FocusedFloat <==> !pad && floats && g.keyboard_focus == Some(
                w,
            )
            &&& g.bucket(w) == Bucket::Float <==> !pad && floats && g.keyboard_focus != Some(w)
            &&& g.bucket(w) == Bucket::Tiled <==> !pad && !floats
        }),
{
    if exists|s: int|
        0 <= s < g.scratchpads.len() && #[trigger] g.scratchpads[s].workspace.clients.contains(w) {
        let s = choose|s: int|
            0 <= s < g.scratchpads.len() && #[trigger] g.scratchpads[s].workspace.clients.contains(
                w,
            );
        assert(g.in_sp(s, w));
    } else {
        assert forall|s: int| !#[trigger] g.in_sp(s, w) by {}
    }
    if g.floats(w) {
        let (o, k) = choose|o: int, k: int| #[trigger] g.floats_in(o, k, w);
        let v = g.workspaces[o][k];
        workspace::lemma_first_from(v.clients, w, 0);
        let c = workspace::first_index(v.clients, w);
        assert(g.workspaces[o][k].clients[c] == w);
    }
    if exists|o: int, k: int, c: int|
        #![trigger g.workspaces[o][k].clients[c]]
        0 <= o < g.workspaces.len() && 0 <= k < g.workspaces[o].len() && 0 <= c
            < g.workspaces[o][k].clients.len() && g.workspaces[o][k].clients[c] == w
            && g.workspaces[o][k].floating[c] {
        let (o, k, c) = choose|o: int, k: int, c: int|
            #![trigger g.workspaces[o][k].clients[c]]
            0 <= o < g.workspaces.len() && 0 <= k < g.workspaces[o].len() && 0 <= c
                < g.workspaces[o][k].clients.len() && g.workspaces[o][k].clients[c] == w
                && g.workspaces[o][k].floating[c];
        let v = g.workspaces[o][k];
        assert(crate::gate::state::ws_ok(v));
        workspace::lemma_first_from(v.clients, w, 0);
        workspace::lemma_window_count(v.clients);
        assert(v.clients.contains(w));
        assert(workspace::first_index(v.clients, w) == c);
        assert(g.floats_in(o, k, w));
    }
}

proof fn lemma_extent(es: Seq<Extent>, w: WindowId, i: int, x: int)
    requires
        0 <= i <= x < es.len(),
        es[x].window == w,
        forall|y: int| i <= y < x ==> (#[trigger] es[y]).window != w,
    ensures
        frame::extent_from(es, w, i) == Some(es[x]),
    decreases x - i,
{
    if i < x {
        lemma_extent(es, w, i + 1, x);
    }
}

proof fn lemma_extent_at(es: Seq<Extent>, w: WindowId, i: int) -> (x: int)
    requires
        0 <= i,
        frame::extent_from(es, w, i) is Some,
    ensures
        i <= x < es.len(),
        es[x].window == w,
        frame::extent_from(es, w, i) == Some(es[x]),
    decreases es.len() - i,
{
    if es[i].window == w {
        i
    } else {
        lemma_extent_at(es, w, i + 1)
    }
}

/// The place of the window that is drawn at `a` of its group.
proof fn lemma_drawn_from(
    g: GateView,
    o: int,
    es: Seq<Extent>,
    b: Bucket,
    n: int,
    a: int,
) -> (m: int)
    requires
        0 <= n <= g.stage.space.len(),
        0 <= a < g.drawn(o, es, b, n).len(),
    ensures
        0 <= m < n,
        g.drawn(o, es, b, m).len() == a,
        ({
            let p = g.stage.space[m];
            &&& frame::extent_from(es, p.window, 0) is Some
            &&& frame::seen_on(p, frame::extent_from(es, p.window, 0)->0, g.outputs[o])
            &&& g.bucket(p.window) == b
            &&& g.drawn(o, es, b, n)[a] == frame::drawn_at(
                p,
                frame::extent_from(es, p.window, 0)->0,
                g.outputs[o],
            )
        }),
    decreases n,
{
    if a < g.drawn(o, es, b, n - 1).len() {
        lemma_drawn_from(g, o, es, b, n - 1, a)
    } else {
        n - 1
    }
}

proof fn lemma_drawn_grows(g: GateView, o: int, es: Seq<Extent>, b: Bucket, m: int, n: int)
    requires
        0 <= m <= n,
    ensures
        g.drawn(o, es, b, m).len() <= g.drawn(o, es, b, n).len(),
        forall|k: int|
            0 <= k < g.drawn(o, es, b, m).len() ==> g.drawn(o, es, b, n)[k] == #[trigger] g.drawn(
                o,
                es,
                b,
                m,
            )[k],
    decreases n,
{
    if m < n {
        lemma_drawn_grows(g, o, es, b, m, n - 1);
    }
}

/// The layer of a group of windows.
spec fn group_layer(b: Bucket) -> int {
    match b {
        Bucket::Scratchpad => 5,
        Bucket::FocusedFloat => 7,
        Bucket::Float => 8,
        Bucket::Tiled => 9,
    }
}

/// A window whose box shares a pixel with the output is in the picture: at its
/// place, less where its content begins, seen from the corner of the output.
pub proof fn law_seen_windows_are_drawn(
    g: GateView,
    o: int,
    es: Seq<Extent>,
    ls: Seq<LayerInfo>,
    m: int,
    x: int,
    px: int,
    py: int,
)
    requires
        !g.locked,
        g.lock_pending_since is None,
        0 <= m < g.stage.space.len(),
        0 <= x < es.len(),
        es[x].window == g.stage.space[m].window,
        forall|y: int| 0 <= y < x ==> (#[trigger] es[y]).window != es[x].window,
        ({
            let p = g.stage.space[m];
            let b = es[x].bbox;
            let out = g.outputs[o];
            &&& out.x <= px < out.x + out.size.w
            &&& out.y <= py < out.y + out.size.h
            &&& p.x + b.x <= px < p.x + b.x + b.w
            &&& p.y + b.y <= py < p.y + b.y + b.h
        }),
    ensures
        exists|i: int|
            0 <= i < g.picture(o, es, ls).len() && (#[trigger] g.picture(
                o,
                es,
                ls,
            )[i] matches Part::Window(d) && d.window == g.stage.space[m].window && d.x
                + g.outputs[o].x + es[x].origin_x == g.stage.space[m].x && d.y + g.outputs[o].y
                + es[x].origin_y == g.stage.space[m].y),
{
    let p = g.stage.space[m];
    let n = g.stage.space.len() as int;
    lemma_extent(es, p.window, 0, x);
    let b = g.bucket(p.window);
    lemma_drawn_grows(g, o, es, b, m + 1, n);
    let k = g.drawn(o, es, b, m).len() as int;
    let d = frame::drawn_at(p, es[x], g.outputs[o]);
    assert(g.drawn(o, es, b, m + 1)[k] == d);
    let e = group_layer(b);
    assert(g.segment(o, es, ls, e)[k] == Part::Window(d));
    lemma_stacked_has(g, o, es, ls, e, k);
    let i = choose|i: int|
        0 <= i < g.picture(o, es, ls).len() && g.picture(o, es, ls)[i] == Part::Window(d);
    assert(g.picture(o, es, ls)[i] is Window);
}

/// The place of the window part at `i`.
proof fn lemma_window_part(
    g: GateView,
    o: int,
    es: Seq<Extent>,
    ls: Seq<LayerInfo>,
    i: int,
) -> (m: int)
    requires
        !g.veiled(),
        0 <= i < g.picture(o, es, ls).len(),
        g.picture(o, es, ls)[i] is Window,
    ensures
        0 <= m < g.stage.space.len(),
        ({
            let p = g.stage.space[m];
            let b = g.bucket(p.window);
            let e = frame::extent_from(es, p.window, 0);
            &&& e is Some
            &&& frame::seen_on(p, e->0, g.outputs[o])
            &&& g.picture(o, es, ls)[i]->Window_0 == frame::drawn_at(p, e->0, g.outputs[o])
            &&& g.drawn(o, es, b, m).len() == i - g.stacked(o, es, ls, group_layer(b)).len()
        }),
{
    let n = g.stage.space.len() as int;
    let e = lemma_part_at(g, o, es, ls, i);
    let b = g.bucket(g.picture(o, es, ls)[i]->Window_0.window);
    lemma_drawn_from(g, o, es, b, n, i - g.stacked(o, es, ls, e).len())
}

/// Every window in the picture is one that stands on the desk and whose box
/// reaches into the output.
pub proof fn law_drawn_windows_are_seen(
    g: GateView,
    o: int,
    es: Seq<Extent>,
    ls: Seq<LayerInfo>,
    i: int,
)
    requires
        !g.locked,
        g.lock_pending_since is None,
        0 <= i < g.picture(o, es, ls).len(),
        g.picture(o, es, ls)[i] is Window,
    ensures
        exists|m: int, x: int|
            #![trigger g.stage.space[m], es[x]]
            {
                let p = g.stage.space[m];
                let b = es[x].bbox;
                let out = g.outputs[o];
                &&& 0 <= m < g.stage.space.len()
                &&& 0 <= x < es.len()
                &&& p.window == g.picture(o, es, ls)[i]->Window_0.window
                &&& es[x].window == p.window
                &&& p.x + b.x < out.x + out.size.w
                &&& out.x < p.x + b.x + b.w
                &&& p.y + b.y < out.y + out.size.h
                &&& out.y < p.y + b.y + b.h
            },
{
    let m = lemma_window_part(g, o, es, ls, i);
    let x = lemma_extent_at(es, g.stage.space[m].window, 0);
    assert(g.stage.space[m].window == es[x].window);
}

/// Windows of one group are drawn in the order in which they stand on the desk.
pub proof fn law_windows_keep_their_order(
    g: GateView,
    o: int,
    es: Seq<Extent>,
    ls: Seq<LayerInfo>,
    i: int,
    j: int,
    a: int,
    b: int,
)
    requires
        !g.locked,
        g.lock_pending_since is None,
        0 <= i < j < g.picture(o, es, ls).len(),
        g.picture(o, es, ls)[i] is Window,
        g.picture(o, es, ls)[j] is Window,
        0 <= a < g.stage.space.len(),
        0 <= b < g.stage.space.len(),
        g.stage.space[a].window == g.picture(o, es, ls)[i]->Window_0.window,
        g.stage.space[b].window == g.picture(o, es, ls)[j]->Window_0.window,
        g.bucket(g.stage.space[a].window) == g.bucket(g.stage.space[b].window),
        forall|m: int, n: int|
            0 <= m < n < g.stage.space.len() ==> (#[trigger] g.stage.space[m]).window != (
            #[trigger] g.stage.space[n]).window,
    ensures
        a < b,
{
    let m = lemma_window_part(g, o, es, ls, i);
    let n = lemma_window_part(g, o, es, ls, j);
    assert(m == a && n == b);
    let k = g.bucket(g.stage.space[a].window);
    if n <= m {
        lemma_drawn_grows(g, o, es, k, n, m);
    }
}

} // verus!
