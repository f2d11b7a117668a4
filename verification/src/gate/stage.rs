//! What is on the screen: which windows stand where, in what order, which of
//! them show themselves as active, and what has been asked of them.

use vstd::prelude::*;

use crate::gate::layout::ClientGeometry;
use crate::gate::workspace;
use crate::gate::workspace::WindowId;
use crate::geometry::{Rect, Size};

verus! {

/// A window and the place of its top left corner.
#[derive(Clone, Copy, Debug, PartialEq, Eq, Structural)]
pub struct Placed {
    pub window: WindowId,
    pub x: i32,
    pub y: i32,
}

/// The outer edge of a border, and whether it is that of the focused window.
#[derive(Clone, Copy, Debug, PartialEq, Eq, Structural)]
pub struct BorderRect {
    pub rect: Rect,
    pub is_focused: bool,
}

/// What a window is asked to do: take a size, where one is given, and know
/// that it is tiled.
#[derive(Clone, Copy, Debug, PartialEq, Eq)]
pub struct Configure {
    pub window: WindowId,
    pub size: Option<Size>,
    pub tiled: bool,
}

/// The windows on the screen and what belongs to them.
#[derive(Debug)]
pub struct Stage {
    /// The mapped windows, from the bottom to the top.
    pub space: Vec<Placed>,
    /// The windows that show themselves as active.
    pub activated: Vec<WindowId>,
    /// The configurations to send, in order.
    pub configures: Vec<Configure>,
    /// Where the last layout has put the windows.
    pub base_positions: Vec<Placed>,
    pub border_rects: Vec<BorderRect>,
    pub scratchpad_border_rects: Vec<BorderRect>,
    /// For every border, the animation that moves it.
    pub border_offsets: Vec<Option<usize>>,
    pub scratchpad_border_offsets: Vec<Option<usize>>,
    pub layout_dirty: bool,
    pub scratchpad_layout_dirty: bool,
    pub bar_dirty: bool,
}

/// The model of a stage.
#[verifier::ext_equal]
pub struct StageView {
    pub space: Seq<Placed>,
    pub activated: Seq<WindowId>,
    pub configures: Seq<Configure>,
    pub base: Seq<Placed>,
    pub border_rects: Seq<BorderRect>,
    pub scratchpad_border_rects: Seq<BorderRect>,
    pub border_offsets: Seq<Option<usize>>,
    pub scratchpad_border_offsets: Seq<Option<usize>>,
    pub layout_dirty: bool,
    pub scratchpad_layout_dirty: bool,
    pub bar_dirty: bool,
}

impl View for Stage {
    type V = StageView;

    open spec fn view(&self) -> StageView {
        StageView {
            space: self.space@,
            activated: self.activated@,
            configures: self.configures@,
            base: self.base_positions@,
            border_rects: self.border_rects@,
            scratchpad_border_rects: self.scratchpad_border_rects@,
            border_offsets: self.border_offsets@,
            scratchpad_border_offsets: self.scratchpad_border_offsets@,
            layout_dirty: self.layout_dirty,
            scratchpad_layout_dirty: self.scratchpad_layout_dirty,
            bar_dirty: self.bar_dirty,
        }
    }
}

/// The places of the windows that are not in `gone`, or are the excepted one.
pub open spec fn without(s: Seq<Placed>, gone: Seq<WindowId>, except: Option<WindowId>) -> Seq<
    Placed,
>
    decreases s.len(),
{
    if s.len() == 0 {
        Seq::empty()
    } else {
        let rest = without(s.drop_last(), gone, except);
        if gone.contains(s.last().window) && except != Some(s.last().window) {
            rest
        } else {
            rest.push(s.last())
        }
    }
}

/// The first place at or after `i` of the window; the length where there is
/// none.
pub open spec fn place_from(s: Seq<Placed>, w: WindowId, i: int) -> int
    decreases s.len() - i,
{
    if i >= s.len() {
        s.len() as int
    } else if s[i].window == w {
        i
    } else {
        place_from(s, w, i + 1)
    }
}

/// Where the window stands, if it is mapped.
pub open spec fn place_of(s: Seq<Placed>, w: WindowId) -> Option<Placed> {
    let i = place_from(s, w, 0);
    if i < s.len() {
        Some(s[i])
    } else {
        None
    }
}

/// The windows of `ws` that are not mapped.
pub open spec fn unmapped_of(ws: Seq<WindowId>, space: Seq<Placed>) -> Seq<WindowId>
    decreases ws.len(),
{
    if ws.len() == 0 {
        Seq::empty()
    } else {
        let rest = unmapped_of(ws.drop_last(), space);
        if place_of(space, ws.last()) is Some {
            rest
        } else {
            rest.push(ws.last())
        }
    }
}

/// The windows of `ws` that are not in `gone`.
pub open spec fn minus(ws: Seq<WindowId>, gone: Seq<WindowId>) -> Seq<WindowId>
    decreases ws.len(),
{
    if ws.len() == 0 {
        Seq::empty()
    } else {
        let rest = minus(ws.drop_last(), gone);
        if gone.contains(ws.last()) {
            rest
        } else {
            rest.push(ws.last())
        }
    }
}

impl StageView {
    /// An empty stage, to be drawn.
    pub open spec fn empty() -> StageView {
        StageView {
            space: Seq::empty(),
            activated: Seq::empty(),
            configures: Seq::empty(),
            base: Seq::empty(),
            border_rects: Seq::empty(),
            scratchpad_border_rects: Seq::empty(),
            border_offsets: Seq::empty(),
            scratchpad_border_offsets: Seq::empty(),
            layout_dirty: true,
            scratchpad_layout_dirty: false,
            bar_dirty: true,
        }
    }

    /// The stage with the window on top, at the given place.
    pub open spec fn mapped(self, p: Placed) -> StageView {
        StageView { space: without(self.space, seq![p.window], None).push(p), ..self }
    }

    /// The stage without the windows, except the given one.
    pub open spec fn unmapped(self, gone: Seq<WindowId>, except: Option<WindowId>) -> StageView {
        StageView { space: without(self.space, gone, except), ..self }
    }

    /// The stage with a mapped window on top and active, the other mapped
    /// windows inactive. Nothing changes where the window is not mapped.
    pub open spec fn raised(self, w: WindowId) -> StageView {
        match place_of(self.space, w) {
            Some(p) => StageView {
                activated: unmapped_of(self.activated, self.space).push(w),
                ..self.mapped(p)
            },
            None => self,
        }
    }

    /// The stage with one configuration more to send.
    pub open spec fn configured(self, c: Configure) -> StageView {
        StageView { configures: self.configures.push(c), ..self }
    }

    /// The stage after one window of a layout has been put in its place.
    pub open spec fn laid_one(self, g: ClientGeometry, scratchpad: bool) -> StageView {
        if !g.visible {
            self.unmapped(seq![g.window], None)
        } else {
            let p = Placed { window: g.window, x: g.rect.x, y: g.rect.y };
            let s = self.configured(
                Configure {
                    window: g.window,
                    size: Some(Size { w: g.rect.w, h: g.rect.h }),
                    tiled: true,
                },
            ).mapped(p);
            let s = StageView { base: s.base.push(p), ..s };
            match g.border_rect {
                Some(rect) => if scratchpad {
                    StageView {
                        scratchpad_border_rects: s.scratchpad_border_rects.push(
                            BorderRect { rect, is_focused: g.is_focused },
                        ),
                        ..s
                    }
                } else {
                    StageView {
                        border_rects: s.border_rects.push(
                            BorderRect { rect, is_focused: g.is_focused },
                        ),
                        ..s
                    }
                },
                None => s,
            }
        }
    }

    /// The stage after the windows of a layout have been put in their places,
    /// in order.
    pub open spec fn laid(self, gs: Seq<ClientGeometry>, scratchpad: bool) -> StageView
        decreases gs.len(),
    {
        if gs.len() == 0 {
            self
        } else {
            self.laid(gs.drop_last(), scratchpad).laid_one(gs.last(), scratchpad)
        }
    }

    /// The stage after the visible windows of a layout have been raised, in
    /// order.
    pub open spec fn raised_all(self, gs: Seq<ClientGeometry>) -> StageView
        decreases gs.len(),
    {
        if gs.len() == 0 {
            self
        } else {
            let s = self.raised_all(gs.drop_last());
            if gs.last().visible {
                s.raised(gs.last().window)
            } else {
                s
            }
        }
    }
}

impl Stage {
    pub fn new() -> (s: Stage)
        ensures
            s@ == StageView::empty(),
    {
        Stage {
            space: Vec::new(),
            activated: Vec::new(),
            configures: Vec::new(),
            base_positions: Vec::new(),
            border_rects: Vec::new(),
            scratchpad_border_rects: Vec::new(),
            border_offsets: Vec::new(),
            scratchpad_border_offsets: Vec::new(),
            layout_dirty: true,
            scratchpad_layout_dirty: false,
            bar_dirty: true,
        }
    }

    /// Where the window stands, if it is mapped.
    pub fn location(&self, w: WindowId) -> (out: Option<Placed>)
        ensures
            out == place_of(self@.space, w),
            out matches Some(p) ==> p.window == w,
    {
        let mut i: usize = 0;
        while i < self.space.len()
            invariant
                i <= self.space.len(),
                place_from(self@.space, w, 0) == place_from(self@.space, w, i as int),
            decreases self.space.len() - i,
        {
            if self.space[i].window == w {
                return Some(self.space[i]);
            }
            i = i + 1;
        }
        None
    }

    /// Takes windows from the screen, except the given one.
    pub fn unmap(&mut self, gone: &Vec<WindowId>, except: Option<WindowId>)
        ensures
            final(self)@ == old(self)@.unmapped(gone@, except),
    {
        let kept: Vec<Placed> = retain(&self.space, gone, except);
        self.space = kept;
    }

    /// Takes one window from the screen.
    pub fn unmap_one(&mut self, w: WindowId)
        ensures
            final(self)@ == old(self)@.unmapped(seq![w], None),
    {
        let mut gone: Vec<WindowId> = Vec::new();
        gone.push(w);
        assert(gone@ =~= seq![w]);
        self.unmap(&gone, None);
    }

    /// Puts a window on top, at the given place.
    pub fn map(&mut self, p: Placed)
        ensures
            final(self)@ == old(self)@.mapped(p),
    {
        self.unmap_one(p.window);
        self.space.push(p);
    }

    /// Puts a mapped window on top and makes it the only active one of the
    /// mapped windows.
    pub fn raise(&mut self, w: WindowId)
        ensures
            final(self)@ == old(self)@.raised(w),
    {
        match self.location(w) {
            Some(p) => {
                let mut kept: Vec<WindowId> = Vec::new();
                let mut i: usize = 0;
                assert(self@.activated.take(0) =~= Seq::<WindowId>::empty());
                while i < self.activated.len()
                    invariant
                        i <= self.activated.len(),
                        self@ == old(self)@,
                        kept@ == unmapped_of(self@.activated.take(i as int), self@.space),
                    decreases self.activated.len() - i,
                {
                    let a: WindowId = self.activated[i];
                    assert(self@.activated.take(i + 1).drop_last() =~= self@.activated.take(
                        i as int,
                    ));
                    if self.location(a).is_none() {
                        kept.push(a);
                    }
                    i = i + 1;
                }
                assert(self@.activated.take(i as int) =~= self@.activated);
                kept.push(w);
                self.activated = kept;
                self.map(p);
            },
            None => {},
        }
    }

    /// Makes windows inactive.
    pub fn deactivate(&mut self, gone: &Vec<WindowId>)
        ensures
            final(self)@ == (StageView {
                activated: minus(old(self)@.activated, gone@),
                ..old(self)@
            }),
    {
        let mut kept: Vec<WindowId> = Vec::new();
        let mut i: usize = 0;
        assert(self@.activated.take(0) =~= Seq::<WindowId>::empty());
        while i < self.activated.len()
            invariant
                i <= self.activated.len(),
                self@ == old(self)@,
                kept@ == minus(self@.activated.take(i as int), gone@),
            decreases self.activated.len() - i,
        {
            let a: WindowId = self.activated[i];
            assert(self@.activated.take(i + 1).drop_last() =~= self@.activated.take(i as int));
            if !workspace::holds(gone, a) {
                kept.push(a);
            }
            i = i + 1;
        }
        assert(self@.activated.take(i as int) =~= self@.activated);
        self.activated = kept;
    }

    /// Puts the windows of a layout in their places.
    pub fn lay(&mut self, gs: &Vec<ClientGeometry>, scratchpad: bool)
        ensures
            final(self)@ == old(self)@.laid(gs@, scratchpad),
    {
        let mut i: usize = 0;
        assert(gs@.take(0) =~= Seq::<ClientGeometry>::empty());
        while i < gs.len()
            invariant
                i <= gs.len(),
                self@ == old(self)@.laid(gs@.take(i as int), scratchpad),
            decreases gs.len() - i,
        {
            let g: ClientGeometry = gs[i];
            let ghost before = self@;
            assert(gs@.take(i + 1).drop_last() =~= gs@.take(i as int));
            if g.visible {
                let p: Placed = Placed { window: g.window, x: g.rect.x, y: g.rect.y };
                self.configures.push(
                    Configure {
                        window: g.window,
                        size: Some(Size { w: g.rect.w, h: g.rect.h }),
                        tiled: true,
                    },
                );
                self.map(p);
                self.base_positions.push(p);
                match g.border_rect {
                    Some(rect) => {
                        let b: BorderRect = BorderRect { rect, is_focused: g.is_focused };
                        if scratchpad {
                            self.scratchpad_border_rects.push(b);
                        } else {
                            self.border_rects.push(b);
                        }
                    },
                    None => {},
                }
            } else {
                self.unmap_one(g.window);
            }
            assert(self@ =~= before.laid_one(g, scratchpad));
            i = i + 1;
        }
        assert(gs@.take(i as int) =~= gs@);
    }

    /// Raises the visible windows of a layout, in order.
    pub fn raise_all(&mut self, gs: &Vec<ClientGeometry>)
        ensures
            final(self)@ == old(self)@.raised_all(gs@),
    {
        let mut i: usize = 0;
        assert(gs@.take(0) =~= Seq::<ClientGeometry>::empty());
        while i < gs.len()
            invariant
                i <= gs.len(),
                self@ == old(self)@.raised_all(gs@.take(i as int)),
            decreases gs.len() - i,
        {
            assert(gs@.take(i + 1).drop_last() =~= gs@.take(i as int));
            if gs[i].visible {
                self.raise(gs[i].window);
            }
            i = i + 1;
        }
        assert(gs@.take(i as int) =~= gs@);
    }

    /// Drops the places of windows that the last layout has given out.
    pub fn forget_places(&mut self, gone: &Vec<WindowId>)
        ensures
            final(self)@ == (StageView {
                base: without(old(self)@.base, gone@, None),
                ..old(self)@
            }),
    {
        let kept: Vec<Placed> = retain(&self.base_positions, gone, None);
        self.base_positions = kept;
    }
}

fn retain(s: &Vec<Placed>, gone: &Vec<WindowId>, except: Option<WindowId>) -> (out: Vec<Placed>)
    ensures
        out@ == without(s@, gone@, except),
{
    let mut out: Vec<Placed> = Vec::new();
    let mut i: usize = 0;
    assert(s@.take(0) =~= Seq::<Placed>::empty());
    while i < s.len()
        invariant
            i <= s.len(),
            out@ == without(s@.take(i as int), gone@, except),
        decreases s.len() - i,
    {
        let p: Placed = s[i];
        assert(s@.take(i + 1).drop_last() =~= s@.take(i as int));
        let excepted: bool = match except {
            Some(w) => w == p.window,
            None => false,
        };
        if excepted || !workspace::holds(gone, p.window) {
            out.push(p);
        }
        i = i + 1;
    }
    assert(s@.take(i as int) =~= s@);
    out
}

/// Whether no window is mapped twice.
pub open spec fn mapped_once(s: Seq<Placed>) -> bool {
    forall|i: int, j: int|
        0 <= i < j < s.len() ==> (#[trigger] s[i]).window != (#[trigger] s[j]).window
}

pub proof fn lemma_without(s: Seq<Placed>, gone: Seq<WindowId>, except: Option<WindowId>)
    ensures
        mapped_once(s) ==> mapped_once(without(s, gone, except)),
        forall|i: int|
            0 <= i < without(s, gone, except).len() ==> s.contains(
                #[trigger] without(s, gone, except)[i],
            ) && (except == Some(without(s, gone, except)[i].window) || !gone.contains(
                without(s, gone, except)[i].window,
            )),
        forall|p: Placed|
            s.contains(p) && (except == Some(p.window) || !gone.contains(p.window))
                ==> #[trigger] without(s, gone, except).contains(p),
    decreases s.len(),
{
    if s.len() > 0 {
        let t = s.drop_last();
        lemma_without(t, gone, except);
        let a = without(t, gone, except);
        let b = without(s, gone, except);
        assert forall|i: int| 0 <= i < b.len() implies s.contains(#[trigger] b[i]) && (except
            == Some(b[i].window) || !gone.contains(b[i].window)) by {
            if i < a.len() {
                assert(t.contains(a[i]));
                let k = choose|k: int| 0 <= k < t.len() && t[k] == a[i];
                assert(s[k] == b[i]);
            } else {
                assert(s[s.len() - 1] == b[i]);
            }
        }
        assert forall|p: Placed|
            s.contains(p) && (except == Some(p.window) || !gone.contains(
                p.window,
            )) implies #[trigger] b.contains(p) by {
            let k = choose|k: int| 0 <= k < s.len() && s[k] == p;
            if k < t.len() {
                assert(t[k] == p);
                assert(a.contains(p));
                let j = choose|j: int| 0 <= j < a.len() && a[j] == p;
                assert(b[j] == p);
            } else {
                assert(b[b.len() - 1] == p);
            }
        }
        if mapped_once(s) {
            assert(mapped_once(t)) by {
                assert forall|i: int, j: int| 0 <= i < j < t.len() implies (#[trigger] t[i]).window
                    != (#[trigger] t[j]).window by {
                    assert(s[i].window != s[j].window);
                }
            }
            assert forall|i: int, j: int| 0 <= i < j < b.len() implies (#[trigger] b[i]).window != (
            #[trigger] b[j]).window by {
                if j < a.len() {
                    assert(a[i].window != a[j].window);
                } else {
                    assert(t.contains(a[i]));
                    let k = choose|k: int| 0 <= k < t.len() && t[k] == a[i];
                    assert(s[k].window != s[s.len() - 1].window);
                }
            }
        }
    }
}

/// Mapping a window keeps every window mapped at most once, and puts this one
/// on top.
pub proof fn law_mapped_once(s: StageView, p: Placed)
    requires
        mapped_once(s.space),
    ensures
        mapped_once(s.mapped(p).space),
        s.mapped(p).space.last() == p,
        place_of(s.mapped(p).space, p.window) == Some(p),
{
    lemma_without(s.space, seq![p.window], None);
    let t = without(s.space, seq![p.window], None);
    let u = s.mapped(p).space;
    assert(seq![p.window][0] == p.window);
    assert forall|i: int| 0 <= i < t.len() implies (#[trigger] t[i]).window != p.window by {
        assert(seq![p.window].contains(p.window));
    }
    assert forall|i: int, j: int| 0 <= i < j < u.len() implies (#[trigger] u[i]).window != (
    #[trigger] u[j]).window by {
        if j < t.len() {
            assert(t[i].window != t[j].window);
        } else {
            assert(u[i] == t[i]);
        }
    }
    lemma_place_from(u, p.window, 0);
}

pub proof fn lemma_place_from(s: Seq<Placed>, w: WindowId, i: int)
    requires
        0 <= i <= s.len(),
    ensures
        i <= place_from(s, w, i) <= s.len(),
        place_from(s, w, i) < s.len() ==> s[place_from(s, w, i)].window == w,
        forall|k: int| i <= k < place_from(s, w, i) ==> (#[trigger] s[k]).window != w,
    decreases s.len() - i,
{
    if i < s.len() && s[i].window != w {
        lemma_place_from(s, w, i + 1);
    }
}

} // verus!
