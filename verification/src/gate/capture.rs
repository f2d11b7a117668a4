//! Showing a picture: blurring its backdrop, taking screenshots of it, and
//! keeping track of what the hardware does with it.

use vstd::prelude::*;

use crate::gate::monitors::CrtcUse;
use crate::gate::state;
use crate::gate::state::{Gate, GateView, PendingScreenshot, ScreenshotView};
use crate::geometry::{Rect, Size};
use crate::pixels;
use crate::pixels::crop_rows;
use crate::text;

verus! {

// ---- Errors -----------------------------------------------------------------

/// The word for a truth value.
pub open spec fn bool_word(b: bool) -> Seq<char> {
    if b {
        "true"@
    } else {
        "false"@
    }
}

/// What is said of a failure that is the `count`th of its kind: the first and
/// every sixtieth one are spoken of.
pub open spec fn failure_text(
    count: int,
    path: Seq<char>,
    output: Seq<char>,
    is_evdi: bool,
    err: Seq<char>,
) -> Option<Seq<char>> {
    if count == 1 {
        Some(
            "first "@ + path + " failure on "@ + output + " (is_evdi="@ + bool_word(is_evdi)
                + "): "@ + err,
        )
    } else if count % 60 == 0 {
        Some(
            path + " failure #"@ + text::decimal(count as nat) + " on "@ + output + " (is_evdi="@
                + bool_word(is_evdi) + "): "@ + err,
        )
    } else {
        None
    }
}

fn push_bool(out: &mut String, b: bool)
    ensures
        final(out)@ == old(out)@ + bool_word(b),
{
    if b {
        out.push_str("true");
    } else {
        out.push_str("false");
    }
}

/// Counts a failure. Returns what is to be said of it, if anything is.
pub fn log_rate_limited_error(
    counter: &mut u64,
    path: &str,
    output_name: &str,
    is_evdi: bool,
    err: &str,
) -> (out: Option<String>)
    ensures
        *final(counter) == (if *old(counter) < u64::MAX {
            (*old(counter) + 1) as u64
        } else {
            u64::MAX
        }),
        text::opt_view(out) == failure_text(
            *final(counter) as int,
            path@,
            output_name@,
            is_evdi,
            err@,
        ),
{
    if *counter < u64::MAX {
        *counter = *counter + 1;
    }
    let count: u64 = *counter;
    if count == 1 {
        let mut out: String = "first ".to_owned();
        out.push_str(path);
        out.push_str(" failure on ");
        out.push_str(output_name);
        out.push_str(" (is_evdi=");
        push_bool(&mut out, is_evdi);
        out.push_str("): ");
        out.push_str(err);
        Some(out)
    } else if count % 60 == 0 {
        let mut out: String = path.to_owned();
        out.push_str(" failure #");
        text::push_decimal(&mut out, count);
        out.push_str(" on ");
        out.push_str(output_name);
        out.push_str(" (is_evdi=");
        push_bool(&mut out, is_evdi);
        out.push_str("): ");
        out.push_str(err);
        Some(out)
    } else {
        None
    }
}

/// How many of the first `n` failures something is said of.
pub open spec fn failures_told(
    n: nat,
    path: Seq<char>,
    output: Seq<char>,
    is_evdi: bool,
    err: Seq<char>,
) -> nat
    decreases n,
{
    if n == 0 {
        0
    } else {
        failures_told((n - 1) as nat, path, output, is_evdi, err) + (if failure_text(
            n as int,
            path,
            output,
            is_evdi,
            err,
        ) is Some {
            1nat
        } else {
            0
        })
    }
}

/// Something is said of the first failure and then of every sixtieth, however
/// many there are.
pub proof fn law_few_failures_are_told(
    n: nat,
    path: Seq<char>,
    output: Seq<char>,
    is_evdi: bool,
    err: Seq<char>,
)
    ensures
        failures_told(n, path, output, is_evdi, err) == (if n > 0 {
            1 + n / 60
        } else {
            0
        }),
    decreases n,
{
    if n > 0 {
        law_few_failures_are_told((n - 1) as nat, path, output, is_evdi, err);
    }
}

// ---- Blurring the backdrop --------------------------------------------------

/// Why a backdrop cannot be blurred.
#[derive(Clone, Copy, Debug, PartialEq, Eq, Structural)]
pub enum BlurError {
    MissingState,
    BadSize,
    BadLen,
}

impl BlurError {
    /// The name of the step that failed.
    pub fn phase(&self) -> (out: &'static str)
        ensures
            out@ == (match *self {
                BlurError::MissingState => "blur_missing_state"@,
                BlurError::BadSize => "blur_bad_size"@,
                BlurError::BadLen => "blur_bad_len"@,
            }),
    {
        match self {
            BlurError::MissingState => "blur_missing_state",
            BlurError::BadSize => "blur_bad_size",
            BlurError::BadLen => "blur_bad_len",
        }
    }
}

/// Which elements of a picture are replaced by their blurred picture, and how
/// many times it is blurred.
#[derive(Clone, Copy, Debug, PartialEq, Eq, Structural)]
pub struct BlurPlan {
    pub start: usize,
    pub passes: u32,
}

/// Plans the blurring of the last `backdrop_len` of the elements of a picture.
/// `size` is that of the room for it, where there is any.
pub fn plan_blur(
    size: Option<Size>,
    elements_len: usize,
    backdrop_len: usize,
    blur_passes: u32,
) -> (out: Result<BlurPlan, BlurError>)
    ensures
        match size {
            None => out == Err::<BlurPlan, BlurError>(BlurError::MissingState),
            Some(s) => if s.w <= 0 || s.h <= 0 {
                out == Err::<BlurPlan, BlurError>(BlurError::BadSize)
            } else if backdrop_len == 0 || backdrop_len > elements_len {
                out == Err::<BlurPlan, BlurError>(BlurError::BadLen)
            } else {
                out == Ok::<BlurPlan, BlurError>(
                    BlurPlan {
                        start: (elements_len - backdrop_len) as usize,
                        passes: if blur_passes < 1 {
                            1
                        } else if blur_passes > 5 {
                            5
                        } else {
                            blur_passes
                        },
                    },
                )
            },
        },
{
    let s: Size = match size {
        Some(s) => s,
        None => {
            return Err(BlurError::MissingState);
        },
    };
    if s.w <= 0 || s.h <= 0 {
        return Err(BlurError::BadSize);
    }
    if backdrop_len == 0 || backdrop_len > elements_len {
        return Err(BlurError::BadLen);
    }
    let passes: u32 = if blur_passes < 1 {
        1
    } else if blur_passes > 5 {
        5
    } else {
        blur_passes
    };
    Ok(BlurPlan { start: elements_len - backdrop_len, passes })
}

/// The blur passes for the wallpaper while the lock is on its way.
pub const LOCK_BLUR_PASSES: u32 = 3;

impl GateView {
    /// How many times the backdrop on output `o` is to be blurred: where there
    /// is room for it, and either a lock that is on its way or a scratchpad
    /// wants it. Nothing is blurred once the session is locked.
    pub open spec fn passes_due(self, o: int, has_room: bool) -> int {
        if !has_room || self.locked {
            0
        } else if self.veiled() {
            LOCK_BLUR_PASSES as int
        } else if self.wants_blur(o) {
            self.most_passes(o, self.scratchpads.len() as int)
        } else {
            0
        }
    }
}

impl Gate {
    /// How many times the backdrop of an output is to be blurred.
    pub fn backdrop_passes(&self, output_idx: usize, has_room: bool) -> (passes: u32)
        ensures
            passes == self@.passes_due(output_idx as int, has_room),
    {
        if !has_room || self.session_locked {
            0
        } else if self.lock_pending_since.is_some() {
            LOCK_BLUR_PASSES
        } else if self.scratchpad_wants_blur(output_idx) {
            self.scratchpad_max_blur_passes(output_idx)
        } else {
            0
        }
    }
}

/// Where the two halves of a blur pass read and write.
#[derive(Clone, Copy, Debug, PartialEq, Eq, Structural)]
pub enum BlurTarget {
    Backdrop,
    Scratch,
    /// The picture that is shown.
    Shown,
}

/// Where a pass writes, the second half of it: back where it came from, and
/// with the last pass what is shown.
pub fn blur_target(pass: u32, passes: u32) -> (t: BlurTarget)
    ensures
        t == (if pass + 1 == passes {
            BlurTarget::Shown
        } else {
            BlurTarget::Backdrop
        }),
{
    if passes > 0 && pass == passes - 1 {
        BlurTarget::Shown
    } else {
        BlurTarget::Backdrop
    }
}

// ---- Screenshots ------------------------------------------------------------

/// Whether a screenshot is one of output `o`.
pub open spec fn shows(s: ScreenshotView, o: usize, focused: usize) -> bool {
    match s.output_idx {
        Some(i) => i == o,
        None => o == focused,
    }
}

/// Those of the screenshots that are of output `o`, or those that are not.
pub open spec fn sorted_out(
    q: Seq<ScreenshotView>,
    o: usize,
    focused: usize,
    taken: bool,
) -> Seq<ScreenshotView>
    decreases q.len(),
{
    if q.len() == 0 {
        Seq::empty()
    } else {
        let before = sorted_out(q.drop_last(), o, focused, taken);
        if shows(q.last(), o, focused) == taken {
            before.push(q.last())
        } else {
            before
        }
    }
}

/// The models of the screenshots.
pub open spec fn shot_views(q: Seq<PendingScreenshot>) -> Seq<ScreenshotView> {
    q.map_values(|s: PendingScreenshot| s@)
}

fn shows_output(s: &PendingScreenshot, o: usize, focused: usize) -> (r: bool)
    ensures
        r == shows(s@, o, focused),
{
    match s.output_idx {
        Some(i) => i == o,
        None => o == focused,
    }
}

fn divide_queue(q: Vec<PendingScreenshot>, o: usize, focused: usize) -> (out: (
    Vec<PendingScreenshot>,
    Vec<PendingScreenshot>,
))
    ensures
        shot_views(out.0@) == sorted_out(shot_views(q@), o, focused, true),
        shot_views(out.1@) == sorted_out(shot_views(q@), o, focused, false),
{
    let ghost all = shot_views(q@);
    let mut rest: Vec<PendingScreenshot> = q;
    let mut taken: Vec<PendingScreenshot> = Vec::new();
    let mut left: Vec<PendingScreenshot> = Vec::new();
    let ghost mut done: int = 0;
    assert(all.take(0) =~= Seq::<ScreenshotView>::empty());
    assert(shot_views(taken@) =~= sorted_out(all.take(0), o, focused, true));
    assert(shot_views(left@) =~= sorted_out(all.take(0), o, focused, false));
    assert(shot_views(rest@) =~= all.skip(0));
    while rest.len() > 0
        invariant
            0 <= done <= all.len(),
            rest@.len() == all.len() - done,
            shot_views(rest@) == all.skip(done),
            shot_views(taken@) == sorted_out(all.take(done), o, focused, true),
            shot_views(left@) == sorted_out(all.take(done), o, focused, false),
        decreases rest.len(),
    {
        let ghost before = rest@;
        let ghost r0 = shot_views(before);
        let s: PendingScreenshot = rest.remove(0);
        assert(s@ == r0[0]);
        assert(s@ == all[done]);
        assert forall|i: int| 0 <= i < rest@.len() implies shot_views(rest@)[i] == all.skip(
            done + 1,
        )[i] by {
            assert(rest@[i] == before[i + 1]);
            assert(r0[i + 1] == all.skip(done)[i + 1]);
        }
        assert(shot_views(rest@) =~= all.skip(done + 1));
        assert(all.take(done + 1).drop_last() =~= all.take(done));
        assert(all.take(done + 1).last() == s@);
        if shows_output(&s, o, focused) {
            let ghost t0 = shot_views(taken@);
            taken.push(s);
            assert(shot_views(taken@) =~= t0.push(s@));
        } else {
            let ghost l0 = shot_views(left@);
            left.push(s);
            assert(shot_views(left@) =~= l0.push(s@));
        }
        proof {
            done = done + 1;
        }
    }
    assert(all.take(all.len() as int) =~= all);
    (taken, left)
}

impl Gate {
    /// Takes the screenshots of an output from the queue; those that name no
    /// output are of the focused one.
    pub fn take_screenshots(&mut self, output_idx: usize) -> (taken: Vec<PendingScreenshot>)
        requires
            old(self)@.wf(),
        ensures
            shot_views(taken@) == sorted_out(
                old(self)@.screenshots,
                output_idx,
                old(self)@.focused_output,
                true,
            ),
            final(self)@ == (GateView {
                screenshots: sorted_out(
                    old(self)@.screenshots,
                    output_idx,
                    old(self)@.focused_output,
                    false,
                ),
                ..old(self)@
            }),
            final(self)@.wf(),
    {
        let mut q: Vec<PendingScreenshot> = Vec::new();
        std::mem::swap(&mut q, &mut self.screenshot_queue);
        assert(shot_views(q@) =~= old(self)@.screenshots);
        let (taken, left): (Vec<PendingScreenshot>, Vec<PendingScreenshot>) = divide_queue(
            q,
            output_idx,
            self.focused_output,
        );
        self.screenshot_queue = left;
        proof {
            assert(self@.screenshots =~= shot_views(left@));
            state::lemma_same_places(old(self)@, self@);
        }
        taken
    }
}

/// Taking the screenshots of an output neither loses nor doubles one: each is
/// either taken or still in the queue.
pub proof fn law_no_screenshot_is_lost(
    q: Seq<ScreenshotView>,
    o: usize,
    focused: usize,
    s: ScreenshotView,
)
    ensures
        sorted_out(q, o, focused, true).to_multiset().count(s) + sorted_out(
            q,
            o,
            focused,
            false,
        ).to_multiset().count(s) == q.to_multiset().count(s),
    decreases q.len(),
{
    broadcast use vstd::seq_lib::group_to_multiset_ensures;

    if q.len() > 0 {
        law_no_screenshot_is_lost(q.drop_last(), o, focused, s);
        assert(q =~= q.drop_last().push(q.last()));
    } else {
        assert(sorted_out(q, o, focused, true) =~= q);
        assert(sorted_out(q, o, focused, false) =~= q);
    }
}

/// A screenshot of an output that is there is taken with the picture of that
/// output and with no other.
pub proof fn law_screenshot_of_one_output(s: ScreenshotView, focused: usize, a: usize, b: usize)
    requires
        shows(s, a, focused),
        shows(s, b, focused),
    ensures
        a == b,
{
}

/// The start of a region, kept inside a side of the picture; a start before
/// the picture counts as one at its end.
pub open spec fn region_start(at: int, side: int) -> int {
    if at < 0 || at > side {
        side
    } else {
        at
    }
}

/// The extent of a region, kept inside a side of the picture.
pub open spec fn region_extent(extent: int, start: int, side: int) -> int {
    if extent < 0 || extent > side - start {
        side - start
    } else {
        extent
    }
}

/// The part of a picture that a screenshot shows: the region, kept inside the
/// picture; all of it where no region is given or nothing of it is left.
pub open spec fn shot_area(region: Option<Rect>, w: int, h: int) -> (int, int, int, int) {
    match region {
        Some(r) => {
            let x = region_start(r.x as int, w);
            let y = region_start(r.y as int, h);
            let rw = region_extent(r.w as int, x, w);
            let rh = region_extent(r.h as int, y, h);
            if rw > 0 && rh > 0 {
                (x, y, rw, rh)
            } else {
                (0, 0, w, h)
            }
        },
        None => (0, 0, w, h),
    }
}

fn start_in(at: i32, side: u32) -> (r: u32)
    ensures
        r == region_start(at as int, side as int),
        r <= side,
{
    if at < 0 || at as u32 > side {
        side
    } else {
        at as u32
    }
}

fn extent_in(extent: i32, start: u32, side: u32) -> (r: u32)
    requires
        start <= side,
    ensures
        r == region_extent(extent as int, start as int, side as int),
        r <= side - start,
{
    if extent < 0 || extent as u32 > side - start {
        side - start
    } else {
        extent as u32
    }
}

/// The part of a picture that a screenshot shows, as column, row, width and
/// height.
pub fn screenshot_area(region: Option<Rect>, w: u32, h: u32) -> (a: (u32, u32, u32, u32))
    ensures
        (a.0 as int, a.1 as int, a.2 as int, a.3 as int) == shot_area(region, w as int, h as int),
        a.0 + a.2 <= w,
        a.1 + a.3 <= h,
{
    match region {
        Some(r) => {
            let x: u32 = start_in(r.x, w);
            let y: u32 = start_in(r.y, h);
            let rw: u32 = extent_in(r.w, x, w);
            let rh: u32 = extent_in(r.h, y, h);
            if rw > 0 && rh > 0 {
                (x, y, rw, rh)
            } else {
                (0, 0, w, h)
            }
        },
        None => (0, 0, w, h),
    }
}

/// A picture and its size.
#[derive(Debug)]
pub struct Shot {
    pub rgba: Vec<u8>,
    pub w: u32,
    pub h: u32,
}

/// Cuts the part that a screenshot shows out of the picture of an output.
pub fn crop_screenshot(rgba: Vec<u8>, w: u32, h: u32, region: Option<Rect>) -> (shot: Shot)
    requires
        rgba.len() == 4 * (w * h),
        0 < w <= 0x2_0000,
        0 < h <= 0x2_0000,
    ensures
        ({
            let (x, y, rw, rh) = shot_area(region, w as int, h as int);
            &&& shot.w == rw
            &&& shot.h == rh
            &&& shot.rgba@ == pixels::cut(rgba@, w as int, h as int, x, y, rw, rh)
        }),
{
    let (x, y, rw, rh): (u32, u32, u32, u32) = screenshot_area(region, w, h);
    proof {
        assert forall|r: int| 0 <= r < rh implies 0 <= #[trigger] pixels::row_start(
            w as int,
            h as int,
            x as int,
            y as int,
            r,
        ) && pixels::row_start(w as int, h as int, x as int, y as int, r) + 4 * rw <= rgba.len() by {
            let row = if y + r < h - 1 {
                y + r
            } else {
                h - 1
            };
            assert(row * w + w <= w * h) by (nonlinear_arith)
                requires
                    0 <= row < h,
                    0 < w,
            ;
            assert(0 <= row * w) by (nonlinear_arith)
                requires
                    0 <= row,
                    0 < w,
            ;
        }
    }
    let out: Vec<u8> = crop_rows(
        &rgba,
        w as usize,
        h as usize,
        x as usize,
        y as usize,
        rw as usize,
        rh as usize,
    );
    Shot { rgba: out, w: rw, h: rh }
}

/// A screenshot without a region shows the whole picture.
pub proof fn law_whole_screenshot(s: Seq<u8>, w: int, h: int)
    requires
        0 < w,
        0 < h,
        s.len() == 4 * (w * h),
    ensures
        pixels::cut(s, w, h, 0, 0, w, h) == s,
{
    lemma_first_rows(s, w, h, h);
    assert(s.take(4 * (h * w)) =~= s) by {
        assert(h * w == w * h) by (nonlinear_arith);
    }
}

proof fn lemma_first_rows(s: Seq<u8>, w: int, h: int, n: int)
    requires
        0 < w,
        0 <= n <= h,
        s.len() == 4 * (w * h),
    ensures
        pixels::cut(s, w, h, 0, 0, w, n) == s.take(4 * (n * w)),
        0 <= n * w <= w * h,
    decreases n,
{
    assert(0 <= n * w <= w * h) by (nonlinear_arith)
        requires
            0 <= n <= h,
            0 < w,
    ;
    if n > 0 {
        lemma_first_rows(s, w, h, n - 1);
        assert(n * w == (n - 1) * w + w) by (nonlinear_arith);
        let at = 4 * ((n - 1) * w);
        assert(pixels::row_start(w, h, 0, 0, n - 1) == at);
        assert(s.take(at) + s.subrange(at, at + 4 * w) =~= s.take(4 * (n * w)));
    } else {
        assert(0 * w == 0) by (nonlinear_arith);
        assert(s.take(0) =~= Seq::<u8>::empty());
    }
}

// ---- The hardware -----------------------------------------------------------

/// What is known of the pictures that an output shows.
#[derive(Clone, Copy, Debug, PartialEq, Eq, Structural)]
pub struct FrameState {
    pub node: u64,
    pub crtc: u32,
    /// Whether a picture waits to be shown.
    pub pending: bool,
    /// Whether nothing has been shown yet.
    pub first: bool,
}

impl FrameState {
    pub fn new(node: u64, crtc: u32) -> (f: FrameState)
        ensures
            f == (FrameState { node, crtc, pending: false, first: true }),
    {
        FrameState { node, crtc, pending: false, first: true }
    }

    /// Whether a picture is handed to the hardware: where something in it has
    /// changed, and in any case the first one.
    pub fn should_queue(&self, unchanged: bool) -> (r: bool)
        ensures
            r == (!unchanged || self.first),
    {
        !unchanged || self.first
    }

    /// A picture has been handed to the hardware.
    pub fn queued(&mut self)
        ensures
            *final(self) == (FrameState { pending: true, first: false, ..*old(self) }),
    {
        self.pending = true;
        self.first = false;
    }

    /// A scanout engine has shown its picture. Returns whether this output
    /// waited for that.
    pub fn shown(&mut self, at: CrtcUse) -> (mine: bool)
        ensures
            mine == (old(self).node == at.node && old(self).crtc == at.crtc && old(self).pending),
            *final(self) == (if mine {
                FrameState { pending: false, ..*old(self) }
            } else {
                *old(self)
            }),
    {
        let mine: bool = self.node == at.node && self.crtc == at.crtc && self.pending;
        if mine {
            self.pending = false;
        }
        mine
    }
}

/// A region that lies in the picture is shown as it is; a part that sticks out
/// to the right or below is cut off; without a region all of the picture is
/// shown.
pub proof fn law_region_is_cut_to_the_picture(r: Rect, w: int, h: int)
    requires
        0 < w,
        0 < h,
        0 <= r.x < w,
        0 <= r.y < h,
        1 <= r.w,
        1 <= r.h,
    ensures
        ({
            let (x, y, rw, rh) = shot_area(Some(r), w, h);
            &&& x == r.x
            &&& y == r.y
            &&& r.x + r.w <= w ==> rw == r.w
            &&& r.x + r.w > w ==> x + rw == w
            &&& r.y + r.h <= h ==> rh == r.h
            &&& r.y + r.h > h ==> y + rh == h
        }),
        shot_area(None, w, h) == (0int, 0int, w, h),
{
}

/// What lies behind is blurred while a lock is on its way and where a visible
/// scratchpad wants it, but not once the session is locked, and not without the
/// room to do it in.
pub proof fn law_when_the_backdrop_is_blurred(g: GateView, o: int, s: int)
    requires
        0 <= s < g.scratchpads.len(),
        g.scratchpads[s].visible,
        g.scratchpads[s].output_idx == o,
        g.scratchpads[s].config_idx < g.config.scratchpads@.len(),
        g.config.scratchpads@[g.scratchpads[s].config_idx as int].blur,
    ensures
        g.passes_due(o, false) == 0,
        g.locked ==> g.passes_due(o, true) == 0,
        !g.locked && g.lock_pending_since is Some ==> g.passes_due(o, true) == LOCK_BLUR_PASSES,
        !g.locked && g.lock_pending_since is None ==> g.passes_due(o, true)
            >= g.config.scratchpads@[g.scratchpads[s].config_idx as int].blur_passes,
{
    crate::gate::picture::law_most_blurred_wish(g, o, s);
}

/// A screenshot that names no output is of the focused one.
pub proof fn law_unnamed_screenshots_show_the_focus(s: ScreenshotView, o: usize, focused: usize)
    ensures
        s.output_idx is None ==> (shows(s, o, focused) <==> o == focused),
        s.output_idx is Some ==> (shows(s, o, focused) <==> s.output_idx == Some(o)),
{
}

} // verus!
