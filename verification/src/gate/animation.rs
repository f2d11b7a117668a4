//! Window transitions: which windows move, from where to where, and when they
//! are done.
//!
//! Times are in nanoseconds, durations in milliseconds. How far a window has come along its way at a
//! given time is the business of the easing curve, which is drawn elsewhere.

use vstd::prelude::*;

use crate::gate::config::AnimationPreset;
use crate::gate::workspace::WindowId;
use crate::geometry;
use crate::geometry::{half, Rect};

verus! {

/// Which way a window slides.
#[derive(Clone, Copy, Debug, PartialEq, Eq, Structural)]
pub enum SlideDirection {
    /// Away from the centre of the area.
    Auto,
    /// From or toward the left edge.
    Left,
    /// From or toward the right edge.
    Right,
}

/// How far a window slides in with the bouncy preset, in pixels.
pub const SLIDE: i32 = 60;

/// A displacement in pixels.
#[derive(Clone, Copy, Debug, PartialEq, Eq, Structural)]
pub struct Offset {
    pub dx: i32,
    pub dy: i32,
}

/// The middle of a stretch.
pub open spec fn middle(at: i32, len: i32) -> int {
    at + geometry::quotient(len as int, 2)
}

/// Where a window starts when it comes in, relative to its place. Only the
/// bouncy preset moves windows; without a direction the window comes from the
/// side on which its centre lies.
pub open spec fn in_offset(
    preset: AnimationPreset,
    window: Rect,
    area: Rect,
    direction: SlideDirection,
) -> Offset {
    match preset {
        AnimationPreset::Swoosh => match direction {
            SlideDirection::Left => Offset { dx: (-60) as i32, dy: 0 },
            SlideDirection::Right => Offset { dx: 60, dy: 0 },
            SlideDirection::Auto => Offset {
                dx: if middle(window.x, window.w) < middle(area.x, area.w) {
                    (-60) as i32
                } else {
                    60
                },
                dy: if middle(window.y, window.h) < middle(area.y, area.h) {
                    (-30) as i32
                } else {
                    30
                },
            },
        },
        AnimationPreset::Clean => Offset { dx: 0, dy: 0 },
        AnimationPreset::Instant => Offset { dx: 0, dy: 0 },
    }
}

/// Where a window starts when it comes in, relative to its place.
pub fn compute_in_offset(
    preset: AnimationPreset,
    window: Rect,
    area: Rect,
    direction: SlideDirection,
) -> (out: Offset)
    ensures
        out == in_offset(preset, window, area, direction),
{
    match preset {
        AnimationPreset::Swoosh => match direction {
            SlideDirection::Left => Offset { dx: -SLIDE, dy: 0 },
            SlideDirection::Right => Offset { dx: SLIDE, dy: 0 },
            SlideDirection::Auto => {
                let cx: i64 = window.x as i64 + half(window.w) as i64;
                let cy: i64 = window.y as i64 + half(window.h) as i64;
                let acx: i64 = area.x as i64 + half(area.w) as i64;
                let acy: i64 = area.y as i64 + half(area.h) as i64;
                Offset {
                    dx: if cx < acx {
                        -SLIDE
                    } else {
                        SLIDE
                    },
                    dy: if cy < acy {
                        -(SLIDE / 2)
                    } else {
                        SLIDE / 2
                    },
                }
            },
        },
        AnimationPreset::Clean => Offset { dx: 0, dy: 0 },
        AnimationPreset::Instant => Offset { dx: 0, dy: 0 },
    }
}

/// A window on its way.
#[derive(Clone, Copy, Debug, PartialEq, Eq, Structural)]
pub struct ActiveAnimation {
    pub window: WindowId,
    pub start_ns: u64,
    pub duration_ms: u32,
    pub from_offset: Offset,
    pub to_offset: Offset,
    pub preset: AnimationPreset,
    /// Whether the window goes from the screen when the way is done.
    pub unmap_on_complete: bool,
}

/// Whether the way is done at `now`.
pub open spec fn done(a: ActiveAnimation, now: u64) -> bool {
    now - a.start_ns >= a.duration_ms * 1_000_000
}

/// The animations of other windows.
pub open spec fn others(s: Seq<ActiveAnimation>, w: WindowId) -> Seq<ActiveAnimation>
    decreases s.len(),
{
    if s.len() == 0 {
        Seq::empty()
    } else if s.last().window == w {
        others(s.drop_last(), w)
    } else {
        others(s.drop_last(), w).push(s.last())
    }
}

/// The animations that are still on their way at `now`.
pub open spec fn running(s: Seq<ActiveAnimation>, now: u64) -> Seq<ActiveAnimation>
    decreases s.len(),
{
    if s.len() == 0 {
        Seq::empty()
    } else if done(s.last(), now) {
        running(s.drop_last(), now)
    } else {
        running(s.drop_last(), now).push(s.last())
    }
}

/// The windows that leave the screen at `now`, in order.
pub open spec fn leaving(s: Seq<ActiveAnimation>, now: u64) -> Seq<WindowId>
    decreases s.len(),
{
    if s.len() == 0 {
        Seq::empty()
    } else if done(s.last(), now) && s.last().unmap_on_complete {
        leaving(s.drop_last(), now).push(s.last().window)
    } else {
        leaving(s.drop_last(), now)
    }
}

/// Whether the window is on its way.
pub open spec fn moving(s: Seq<ActiveAnimation>, w: WindowId) -> bool {
    exists|i: int| 0 <= i < s.len() && (#[trigger] s[i]).window == w
}

/// The first animation at or after `i` of the window; the length where there
/// is none.
pub open spec fn animation_from(s: Seq<ActiveAnimation>, w: WindowId, i: int) -> int
    decreases s.len() - i,
{
    if i >= s.len() {
        s.len() as int
    } else if s[i].window == w {
        i
    } else {
        animation_from(s, w, i + 1)
    }
}

/// The index of the animation of a window, where it has one.
pub open spec fn animation_of(s: Seq<ActiveAnimation>, w: WindowId) -> Option<usize> {
    let i = animation_from(s, w, 0);
    if i < s.len() {
        Some(i as usize)
    } else {
        None
    }
}

/// The animations after one has been started: any other of the same window is
/// gone. Nothing starts where motion is switched off.
pub open spec fn started(s: Seq<ActiveAnimation>, a: ActiveAnimation) -> Seq<ActiveAnimation> {
    if a.preset == AnimationPreset::Instant || a.duration_ms == 0 {
        s
    } else {
        others(s, a.window).push(a)
    }
}

#[derive(Debug)]
pub struct AnimationManager {
    pub active: Vec<ActiveAnimation>,
}

impl View for AnimationManager {
    type V = Seq<ActiveAnimation>;

    open spec fn view(&self) -> Seq<ActiveAnimation> {
        self.active@
    }
}

/// What a transition of a window is made from.
#[derive(Clone, Copy, Debug, PartialEq, Eq, Structural)]
pub struct Motion {
    pub window: WindowId,
    pub preset: AnimationPreset,
    pub duration_ms: u32,
    pub place: Rect,
    pub area: Rect,
    pub direction: SlideDirection,
}

impl Motion {
    /// The animation of a window that comes in.
    pub open spec fn coming(self, now: u64) -> ActiveAnimation {
        ActiveAnimation {
            window: self.window,
            start_ns: now,
            duration_ms: self.duration_ms,
            from_offset: in_offset(self.preset, self.place, self.area, self.direction),
            to_offset: Offset { dx: 0, dy: 0 },
            preset: self.preset,
            unmap_on_complete: false,
        }
    }

    /// The animation of a window that goes out.
    pub open spec fn going(self, now: u64, unmap: bool) -> ActiveAnimation {
        ActiveAnimation {
            window: self.window,
            start_ns: now,
            duration_ms: self.duration_ms,
            from_offset: Offset { dx: 0, dy: 0 },
            to_offset: in_offset(self.preset, self.place, self.area, self.direction),
            preset: self.preset,
            unmap_on_complete: unmap,
        }
    }
}

impl AnimationManager {
    pub fn new() -> (m: AnimationManager)
        ensures
            m@ == Seq::<ActiveAnimation>::empty(),
    {
        AnimationManager { active: Vec::new() }
    }

    /// Starts a window on its way in.
    pub fn animate_in(&mut self, m: Motion, now: u64)
        ensures
            final(self)@ == started(old(self)@, m.coming(now)),
    {
        if m.preset == AnimationPreset::Instant || m.duration_ms == 0 {
            return;
        }
        self.cancel(m.window);
        self.active.push(
            ActiveAnimation {
                window: m.window,
                start_ns: now,
                duration_ms: m.duration_ms,
                from_offset: compute_in_offset(m.preset, m.place, m.area, m.direction),
                to_offset: Offset { dx: 0, dy: 0 },
                preset: m.preset,
                unmap_on_complete: false,
            },
        );
    }

    /// Starts a window on its way out; it stays on the screen afterwards.
    pub fn animate_out_no_unmap(&mut self, m: Motion, now: u64)
        ensures
            final(self)@ == started(old(self)@, m.going(now, false)),
    {
        self.start_out(m, now, false);
    }

    /// Starts a window on its way out; it leaves the screen afterwards.
    pub fn animate_out(&mut self, m: Motion, now: u64)
        ensures
            final(self)@ == started(old(self)@, m.going(now, true)),
    {
        self.start_out(m, now, true);
    }

    fn start_out(&mut self, m: Motion, now: u64, unmap: bool)
        ensures
            final(self)@ == started(old(self)@, m.going(now, unmap)),
    {
        if m.preset == AnimationPreset::Instant || m.duration_ms == 0 {
            return;
        }
        self.cancel(m.window);
        self.active.push(
            ActiveAnimation {
                window: m.window,
                start_ns: now,
                duration_ms: m.duration_ms,
                from_offset: Offset { dx: 0, dy: 0 },
                to_offset: compute_in_offset(m.preset, m.place, m.area, m.direction),
                preset: m.preset,
                unmap_on_complete: unmap,
            },
        );
    }

    /// The index of the animation of a window, where it has one.
    pub fn offset_for(&self, window: WindowId) -> (out: Option<usize>)
        ensures
            out == animation_of(self@, window),
            out matches Some(i) ==> i < self@.len() && self@[i as int].window == window,
            out is Some <==> moving(self@, window),
    {
        let mut i: usize = 0;
        while i < self.active.len()
            invariant
                i <= self.active.len(),
                animation_from(self@, window, 0) == animation_from(self@, window, i as int),
                forall|k: int| 0 <= k < i ==> (#[trigger] self@[k]).window != window,
            decreases self.active.len() - i,
        {
            if self.active[i].window == window {
                assert(self@[i as int].window == window);
                return Some(i);
            }
            i = i + 1;
        }
        None
    }

    /// Drops the animations that are done and returns the windows that leave
    /// the screen.
    pub fn tick(&mut self, now: u64) -> (out: Vec<WindowId>)
        ensures
            final(self)@ == running(old(self)@, now),
            out@ == leaving(old(self)@, now),
    {
        let mut kept: Vec<ActiveAnimation> = Vec::new();
        let mut out: Vec<WindowId> = Vec::new();
        let mut i: usize = 0;
        assert(self@.take(0) =~= Seq::<ActiveAnimation>::empty());
        while i < self.active.len()
            invariant
                i <= self.active.len(),
                self@ == old(self)@,
                kept@ == running(self@.take(i as int), now),
                out@ == leaving(self@.take(i as int), now),
            decreases self.active.len() - i,
        {
            let a: ActiveAnimation = self.active[i];
            assert(self@.take(i + 1).drop_last() =~= self@.take(i as int));
            if now >= a.start_ns && now - a.start_ns >= a.duration_ms as u64 * 1_000_000 {
                if a.unmap_on_complete {
                    out.push(a.window);
                }
            } else {
                kept.push(a);
            }
            i = i + 1;
        }
        assert(self@.take(self@.len() as int) =~= self@);
        self.active = kept;
        out
    }

    /// Whether any window is on its way.
    pub fn has_active(&self) -> (r: bool)
        ensures
            r == (self@.len() > 0),
    {
        self.active.len() > 0
    }

    /// Drops all animations of a window.
    pub fn cancel(&mut self, window: WindowId)
        ensures
            final(self)@ == others(old(self)@, window),
    {
        let mut kept: Vec<ActiveAnimation> = Vec::new();
        let mut i: usize = 0;
        assert(self@.take(0) =~= Seq::<ActiveAnimation>::empty());
        while i < self.active.len()
            invariant
                i <= self.active.len(),
                self@ == old(self)@,
                kept@ == others(self@.take(i as int), window),
            decreases self.active.len() - i,
        {
            let a: ActiveAnimation = self.active[i];
            assert(self@.take(i + 1).drop_last() =~= self@.take(i as int));
            if a.window != window {
                kept.push(a);
            }
            i = i + 1;
        }
        assert(self@.take(self@.len() as int) =~= self@);
        self.active = kept;
    }
}

/// After a cancellation the window is on no way, and every other animation
/// is still there.
pub proof fn law_cancel(s: Seq<ActiveAnimation>, w: WindowId)
    ensures
        !moving(others(s, w), w),
        forall|a: ActiveAnimation| #[trigger]
            others(s, w).contains(a) <==> s.contains(a) && a.window != w,
    decreases s.len(),
{
    if s.len() > 0 {
        let t = s.drop_last();
        law_cancel(t, w);
        assert forall|a: ActiveAnimation| #[trigger] others(s, w).contains(a) <==> s.contains(a)
            && a.window != w by {
            if s.contains(a) && a.window != w {
                let i = choose|i: int| 0 <= i < s.len() && s[i] == a;
                if i < t.len() {
                    assert(t[i] == a);
                    assert(others(t, w).contains(a));
                    let k = choose|k: int| 0 <= k < others(t, w).len() && others(t, w)[k] == a;
                    assert(others(s, w)[k] == a);
                } else {
                    assert(others(s, w)[others(s, w).len() - 1] == a);
                }
            }
            if others(s, w).contains(a) {
                let k = choose|k: int| 0 <= k < others(s, w).len() && others(s, w)[k] == a;
                if k < others(t, w).len() {
                    assert(others(t, w)[k] == a);
                    assert(others(t, w).contains(a));
                    let i = choose|i: int| 0 <= i < t.len() && t[i] == a;
                    assert(s[i] == a);
                } else {
                    assert(s[s.len() - 1] == a);
                }
            }
        }
        assert forall|i: int| 0 <= i < others(s, w).len() implies (#[trigger] others(
            s,
            w,
        )[i]).window != w by {
            let a = others(s, w)[i];
            assert(others(s, w).contains(a));
        }
    }
}

/// A window that has been set on its way is on exactly that way, until it is
/// done.
pub proof fn law_one_way_per_window(s: Seq<ActiveAnimation>, a: ActiveAnimation)
    requires
        a.preset != AnimationPreset::Instant,
        a.duration_ms > 0,
    ensures
        moving(started(s, a), a.window),
        forall|i: int|
            0 <= i < started(s, a).len() && (#[trigger] started(s, a)[i]).window == a.window
                ==> started(s, a)[i] == a,
{
    law_cancel(s, a.window);
    let t = started(s, a);
    assert(t[t.len() - 1] == a);
    assert forall|i: int| 0 <= i < t.len() && (#[trigger] t[i]).window == a.window implies t[i]
        == a by {
        if i < t.len() - 1 {
            assert(others(s, a.window)[i] == t[i]);
        }
    }
}

/// A window that slides in comes from one fixed distance to the left or to the
/// right; without a direction from the side on which its middle lies, and half
/// as far from above or below. The other presets move nothing.
pub proof fn law_slides_come_from_a_side(window: Rect, area: Rect)
    requires
        0 <= window.w,
        0 <= window.h,
        0 <= area.w,
        0 <= area.h,
    ensures
        ({
            let left = in_offset(AnimationPreset::Swoosh, window, area, SlideDirection::Left);
            let right = in_offset(AnimationPreset::Swoosh, window, area, SlideDirection::Right);
            let auto = in_offset(AnimationPreset::Swoosh, window, area, SlideDirection::Auto);
            let x = window.x + window.w / 2;
            let y = window.y + window.h / 2;
            let ax = area.x + area.w / 2;
            let ay = area.y + area.h / 2;
            &&& left.dx == -60 && left.dy == 0
            &&& right.dx == 60 && right.dy == 0
            &&& x < ax ==> auto.dx == left.dx
            &&& x >= ax ==> auto.dx == right.dx
            &&& y < ay ==> auto.dy == -30
            &&& y >= ay ==> auto.dy == 30
        }),
        forall|d: SlideDirection|
            #![trigger in_offset(AnimationPreset::Clean, window, area, d)]
            in_offset(AnimationPreset::Clean, window, area, d) == (Offset { dx: 0, dy: 0 }),
        forall|d: SlideDirection|
            #![trigger in_offset(AnimationPreset::Instant, window, area, d)]
            in_offset(AnimationPreset::Instant, window, area, d) == (Offset { dx: 0, dy: 0 }),
{
}

/// A window that goes out takes the way of one that comes in, backward: what
/// comes in ends at its place and stays, what goes out starts there and leaves
/// the screen where that is asked.
pub proof fn law_out_is_in_backward(m: Motion, now: u64, unmap: bool)
    ensures
        m.coming(now).to_offset == (Offset { dx: 0, dy: 0 }),
        m.going(now, unmap).from_offset == (Offset { dx: 0, dy: 0 }),
        m.going(now, unmap).to_offset == m.coming(now).from_offset,
        m.coming(now).from_offset == in_offset(m.preset, m.place, m.area, m.direction),
        !m.coming(now).unmap_on_complete,
        m.going(now, unmap).unmap_on_complete == unmap,
        ({
            let a = m.coming(now);
            a.window == m.window && a.start_ns == now && a.duration_ms == m.duration_ms && a.preset
                == m.preset
        }),
        ({
            let a = m.going(now, unmap);
            a.window == m.window && a.start_ns == now && a.duration_ms == m.duration_ms && a.preset
                == m.preset
        }),
{
}

/// Starting a window on its way leaves the ways of the other windows alone;
/// nothing starts where motion is switched off.
pub proof fn law_starting_leaves_the_others(s: Seq<ActiveAnimation>, a: ActiveAnimation)
    ensures
        a.preset == AnimationPreset::Instant || a.duration_ms == 0 ==> started(s, a) == s,
        forall|b: ActiveAnimation|
            b.window != a.window ==> (#[trigger] started(s, a).contains(b) <==> s.contains(b)),
        a.preset != AnimationPreset::Instant && a.duration_ms > 0 ==> started(s, a).last() == a,
{
    law_cancel(s, a.window);
    let t = others(s, a.window);
    let u = t.push(a);
    assert forall|b: ActiveAnimation| b.window != a.window implies (#[trigger] u.contains(b)
        <==> t.contains(b)) by {
        if t.contains(b) {
            let i = choose|i: int| 0 <= i < t.len() && t[i] == b;
            assert(u[i] == b);
        }
        if u.contains(b) {
            let i = choose|i: int| 0 <= i < u.len() && u[i] == b;
            assert(t[i] == b);
        }
    }
}

/// What is on its way at a time is what has started less than its duration
/// ago.
pub proof fn law_ways_take_their_time(s: Seq<ActiveAnimation>, now: u64, a: ActiveAnimation)
    ensures
        running(s, now).contains(a) <==> s.contains(a) && now < a.start_ns + a.duration_ms
            * 1_000_000,
    decreases s.len(),
{
    if s.len() > 0 {
        let t = s.drop_last();
        law_ways_take_their_time(t, now, a);
        let p = running(t, now);
        let q = running(s, now);
        if p.contains(a) {
            let i = choose|i: int| 0 <= i < p.len() && p[i] == a;
            assert(q[i] == a);
        }
        if t.contains(a) {
            let i = choose|i: int| 0 <= i < t.len() && t[i] == a;
            assert(s[i] == a);
        }
        if q.len() > p.len() {
            assert(q[p.len() as int] == s.last());
        }
        assert(s[s.len() - 1] == s.last());
        if q.contains(a) {
            let i = choose|i: int| 0 <= i < q.len() && q[i] == a;
            if i < p.len() {
                assert(p[i] == a);
            }
        }
        if s.contains(a) {
            let i = choose|i: int| 0 <= i < s.len() && s[i] == a;
            if i < t.len() {
                assert(t[i] == a);
            }
        }
    }
}

/// The windows that leave the screen are those whose way out is over.
pub proof fn law_who_leaves(s: Seq<ActiveAnimation>, now: u64, w: WindowId)
    ensures
        leaving(s, now).contains(w) <==> exists|i: int|
            0 <= i < s.len() && (#[trigger] s[i]).window == w && s[i].unmap_on_complete && now
                >= s[i].start_ns + s[i].duration_ms * 1_000_000,
    decreases s.len(),
{
    if s.len() > 0 {
        let t = s.drop_last();
        law_who_leaves(t, now, w);
        let p = leaving(t, now);
        let q = leaving(s, now);
        if p.contains(w) {
            let i = choose|i: int| 0 <= i < p.len() && p[i] == w;
            assert(q[i] == w);
            let j = choose|j: int|
                0 <= j < t.len() && (#[trigger] t[j]).window == w && t[j].unmap_on_complete && now
                    >= t[j].start_ns + t[j].duration_ms * 1_000_000;
            assert(s[j] == t[j]);
        }
        if q.len() > p.len() {
            assert(q[p.len() as int] == s.last().window);
        }
        assert(s[s.len() - 1] == s.last());
        if q.contains(w) {
            let i = choose|i: int| 0 <= i < q.len() && q[i] == w;
            if i < p.len() {
                assert(p[i] == w);
            }
        }
        if exists|i: int|
            0 <= i < s.len() && (#[trigger] s[i]).window == w && s[i].unmap_on_complete && now
                >= s[i].start_ns + s[i].duration_ms * 1_000_000 {
            let i = choose|i: int|
                0 <= i < s.len() && (#[trigger] s[i]).window == w && s[i].unmap_on_complete && now
                    >= s[i].start_ns + s[i].duration_ms * 1_000_000;
            if i < t.len() {
                assert(t[i] == s[i]);
            }
        }
    }
}

} // verus!
