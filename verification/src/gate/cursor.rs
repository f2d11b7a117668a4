//! Pictures of the pointer, which may move.

use vstd::prelude::*;

use crate::gate::state;
use crate::gate::state::{Gate, OutputState};
use crate::text;

verus! {

/// A picture of the pointer.
#[derive(Debug)]
pub struct CursorFrame {
    pub pixels_rgba: Vec<u8>,
    pub width: u32,
    pub height: u32,
    /// The pixel that points.
    pub xhot: i32,
    pub yhot: i32,
    /// How long it is shown before the next one; 0 in a still pointer.
    pub delay_ms: u32,
}

#[verifier::ext_equal]
pub struct CursorFrameView {
    pub pixels_rgba: Seq<u8>,
    pub width: u32,
    pub height: u32,
    pub xhot: i32,
    pub yhot: i32,
    pub delay_ms: u32,
}

impl View for CursorFrame {
    type V = CursorFrameView;

    open spec fn view(&self) -> CursorFrameView {
        CursorFrameView {
            pixels_rgba: self.pixels_rgba@,
            width: self.width,
            height: self.height,
            xhot: self.xhot,
            yhot: self.yhot,
            delay_ms: self.delay_ms,
        }
    }
}

/// The models of the pictures.
pub open spec fn frame_views(fs: Seq<CursorFrame>) -> Seq<CursorFrameView> {
    fs.map_values(|f: CursorFrame| f@)
}

/// The pictures of a pointer.
#[derive(Debug)]
pub struct CursorCache {
    pub frames: Vec<CursorFrame>,
    /// When the first picture was shown, in nanoseconds.
    pub started_ns: u64,
    /// How long all pictures are shown together; 0 in a still pointer.
    pub total_cycle_ms: u32,
    /// The size of the pictures, as their file calls it.
    pub native_size: u32,
    /// The size in which they are shown.
    pub target_size: u32,
}

// ---- Which picture is shown -------------------------------------------------

/// How long the first `n` pictures are shown together.
pub open spec fn shown_until(fs: Seq<CursorFrame>, n: int) -> int
    decreases n,
{
    if n <= 0 {
        0
    } else {
        shown_until(fs, n - 1) + fs[n - 1].delay_ms
    }
}

/// The first picture at or after `i` that is still shown `ms` milliseconds
/// into the cycle; the last one where none is.
pub open spec fn shown_from(fs: Seq<CursorFrame>, ms: int, i: int) -> int
    decreases fs.len() - i,
{
    if i >= fs.len() {
        fs.len() - 1
    } else if ms < shown_until(fs, i + 1) {
        i
    } else {
        shown_from(fs, ms, i + 1)
    }
}

/// How many whole milliseconds lie between two times in nanoseconds.
pub open spec fn millis_between(start: int, now: int) -> int {
    if now > start {
        (now - start) / 1_000_000
    } else {
        0
    }
}

/// Whether the pointer moves.
pub open spec fn moves(c: CursorCache) -> bool {
    c.frames@.len() > 1 && c.total_cycle_ms > 0
}

/// The picture that is shown at a time.
pub open spec fn frame_at(c: CursorCache, now: int) -> int {
    if moves(c) {
        shown_from(c.frames@, millis_between(c.started_ns as int, now) % (c.total_cycle_ms as int), 0)
    } else {
        0
    }
}

impl CursorCache {
    /// Whether the pointer moves.
    pub fn is_animated(&self) -> (r: bool)
        ensures
            r == moves(*self),
    {
        self.frames.len() > 1 && self.total_cycle_ms > 0
    }

    /// The picture that is shown at a time, given in nanoseconds.
    pub fn current_frame_idx(&self, now: u64) -> (i: usize)
        ensures
            i == frame_at(*self, now as int),
            self.frames@.len() > 0 ==> i < self.frames@.len(),
    {
        if !self.is_animated() {
            return 0;
        }
        let gone: u64 = if now > self.started_ns {
            (now - self.started_ns) / 1_000_000
        } else {
            0
        };
        let ms: u64 = gone % self.total_cycle_ms as u64;
        let mut sum: u128 = 0;
        let mut i: usize = 0;
        while i < self.frames.len()
            invariant
                i <= self.frames.len(),
                self.frames@.len() > 1,
                sum == shown_until(self.frames@, i as int),
                sum <= i * 0xffff_ffff,
                frame_at(*self, now as int) == shown_from(self.frames@, ms as int, i as int),
            decreases self.frames.len() - i,
        {
            sum = sum + self.frames[i].delay_ms as u128;
            if (ms as u128) < sum {
                return i;
            }
            i = i + 1;
        }
        self.frames.len() - 1
    }
}

// ---- Cursor files -----------------------------------------------------------

/// The names under which a pointer is looked for in a theme, in order.
pub fn icon_names(icon_name: &str) -> (names: Vec<String>)
    ensures
        text::views(names@) == (if icon_name@ == "default"@ {
            seq!["default"@, "left_ptr"@]
        } else {
            seq![icon_name@, "default"@, "left_ptr"@]
        }),
{
    let mut names: Vec<String> = Vec::new();
    if !text::eq_str(icon_name, "default") {
        names.push(icon_name.to_owned());
    }
    names.push("default".to_owned());
    names.push("left_ptr".to_owned());
    proof {
        if icon_name@ == "default"@ {
            assert(text::views(names@) =~= seq!["default"@, "left_ptr"@]);
        } else {
            assert(text::views(names@) =~= seq![icon_name@, "default"@, "left_ptr"@]);
        }
    }
    names
}

/// An image in a cursor file.
#[derive(Debug)]
pub struct CursorImage {
    /// The size that the file calls it by.
    pub size: u32,
    pub width: u32,
    pub height: u32,
    pub xhot: u32,
    pub yhot: u32,
    pub delay: u32,
    pub pixels: Vec<u8>,
}

/// An image as plain values: its size, width, height, hot spot, delay and
/// pixels.
pub open spec fn image_parts(i: CursorImage) -> (u32, u32, u32, u32, u32, u32, Seq<u8>) {
    (i.size, i.width, i.height, i.xhot, i.yhot, i.delay, i.pixels@)
}

/// What `xcursor` reads from the bytes of a cursor file: of every image its
/// size, width, height, hot spot, delay and pixels.
pub uninterp spec fn cursor_file(data: Seq<u8>) -> Option<
    Seq<(u32, u32, u32, u32, u32, u32, Seq<u8>)>,
>;

/// Calls `xcursor::parser::parse_xcursor`. It reads the images of a cursor
/// file from its bytes, or gives `None` where they are not such a file. Every
/// image has between 1 and 32767 pixels on each side, its hot spot in it or
/// at its edge, and four bytes for each of its pixels.
#[verifier::external_body]
fn parse_xcursor(data: &Vec<u8>) -> (out: Option<Vec<CursorImage>>)
    ensures
        match out {
            Some(v) => cursor_file(data@) == Some(v@.map_values(|i: CursorImage| image_parts(i))),
            None => cursor_file(data@) is None,
        },
        out matches Some(v) ==> forall|i: int|
            0 <= i < v@.len() ==> {
                let img = #[trigger] v@[i];
                &&& 1 <= img.width <= 0x7fff
                &&& 1 <= img.height <= 0x7fff
                &&& img.xhot <= img.width
                &&& img.yhot <= img.height
                &&& img.pixels@.len() == 4 * (img.width * img.height)
            },
{
    let images = xcursor::parser::parse_xcursor(data.as_slice())?;
    let convert = |i: xcursor::parser::Image| CursorImage {
        size: i.size,
        width: i.width,
        height: i.height,
        xhot: i.xhot,
        yhot: i.yhot,
        delay: i.delay,
        pixels: i.pixels_rgba,
    };
    Some(images.into_iter().map(convert).collect())
}

/// The models of the images.
pub open spec fn image_views(v: Seq<CursorImage>) -> Seq<
    (u32, u32, u32, u32, u32, u32, Seq<u8>),
> {
    v.map_values(|i: CursorImage| image_parts(i))
}

/// A number of 32 bits, read with a sign.
pub open spec fn signed(n: int) -> int {
    if n < 0x8000_0000 {
        n
    } else {
        n - 0x1_0000_0000
    }
}

/// How far an image is from the size that is asked for.
pub open spec fn size_off(img: (u32, u32, u32, u32, u32, u32, Seq<u8>), size: int) -> int {
    let d = signed(img.0 as int) - signed(size);
    if d < 0 {
        -d
    } else {
        d
    }
}

/// Among the first `n` images, the first of those closest in size.
pub open spec fn closest(
    imgs: Seq<(u32, u32, u32, u32, u32, u32, Seq<u8>)>,
    size: int,
    n: int,
) -> int
    decreases n,
{
    if n <= 1 {
        0
    } else {
        let before = closest(imgs, size, n - 1);
        if size_off(imgs[n - 1], size) < size_off(imgs[before], size) {
            n - 1
        } else {
            before
        }
    }
}

/// The pictures among the first `n` images that have the size.
pub open spec fn frames_of_size(
    imgs: Seq<(u32, u32, u32, u32, u32, u32, Seq<u8>)>,
    native: u32,
    n: int,
) -> Seq<CursorFrameView>
    decreases n,
{
    if n <= 0 {
        Seq::empty()
    } else {
        let before = frames_of_size(imgs, native, n - 1);
        let i = imgs[n - 1];
        if i.0 == native {
            before.push(
                CursorFrameView {
                    pixels_rgba: i.6,
                    width: i.1,
                    height: i.2,
                    xhot: i.3 as i32,
                    yhot: i.4 as i32,
                    delay_ms: i.5,
                },
            )
        } else {
            before
        }
    }
}

/// How long the first `n` pictures are shown together, at most `u32::MAX`.
pub open spec fn cycle_of(fs: Seq<CursorFrameView>, n: int) -> int
    decreases n,
{
    if n <= 0 {
        0
    } else {
        let sum = cycle_of(fs, n - 1) + fs[n - 1].delay_ms;
        if sum > u32::MAX {
            u32::MAX as int
        } else {
            sum
        }
    }
}

/// The pictures of a pointer, given those that the file has of one size. A
/// single one is never followed by another, whatever its delay in the file.
pub open spec fn settled(fs: Seq<CursorFrameView>) -> Seq<CursorFrameView> {
    if fs.len() == 1 {
        seq![CursorFrameView { delay_ms: 0, ..fs[0] }]
    } else {
        fs
    }
}

/// The pointer that the images of a file stand for: all those of the size that
/// is closest to the one asked for.
pub open spec fn cursor_is(
    c: CursorCache,
    imgs: Seq<(u32, u32, u32, u32, u32, u32, Seq<u8>)>,
    size: u32,
    now: u64,
) -> bool {
    let native = imgs[closest(imgs, size as int, imgs.len() as int)].0;
    let fs = settled(frames_of_size(imgs, native, imgs.len() as int));
    &&& frame_views(c.frames@) == fs
    &&& c.total_cycle_ms == cycle_of(fs, fs.len() as int)
    &&& c.native_size == native
    &&& c.target_size == size
    &&& c.started_ns == now
}

fn sign(n: u32) -> (r: i64)
    ensures
        r == signed(n as int),
{
    if n < 0x8000_0000 {
        n as i64
    } else {
        n as i64 - 0x1_0000_0000
    }
}

fn distance(size: u32, wanted: u32) -> (d: i64)
    ensures
        d == (if signed(size as int) - signed(wanted as int) < 0 {
            signed(wanted as int) - signed(size as int)
        } else {
            signed(size as int) - signed(wanted as int)
        }),
{
    let d: i64 = sign(size) - sign(wanted);
    if d < 0 {
        -d
    } else {
        d
    }
}

fn closest_image(images: &Vec<CursorImage>, size: u32) -> (best: usize)
    requires
        images.len() > 0,
    ensures
        best < images.len(),
        best == closest(image_views(images@), size as int, images@.len() as int),
{
    let ghost imgs = image_views(images@);
    let mut best: usize = 0;
    let mut i: usize = 1;
    while i < images.len()
        invariant
            1 <= i <= images.len(),
            best < i,
            imgs == image_views(images@),
            best == closest(imgs, size as int, i as int),
        decreases images.len() - i,
    {
        assert(imgs[i as int] == image_parts(images@[i as int]));
        assert(imgs[best as int] == image_parts(images@[best as int]));
        if distance(images[i].size, size) < distance(images[best].size, size) {
            best = i;
        }
        i = i + 1;
    }
    best
}

proof fn lemma_closest(imgs: Seq<(u32, u32, u32, u32, u32, u32, Seq<u8>)>, size: int, n: int)
    requires
        1 <= n <= imgs.len(),
    ensures
        0 <= closest(imgs, size, n) < n,
        forall|k: int|
            0 <= k < n ==> size_off(imgs[closest(imgs, size, n)], size) <= size_off(
                #[trigger] imgs[k],
                size,
            ),
    decreases n,
{
    if n > 1 {
        lemma_closest(imgs, size, n - 1);
    }
}

proof fn lemma_some_frame(
    imgs: Seq<(u32, u32, u32, u32, u32, u32, Seq<u8>)>,
    native: u32,
    k: int,
    n: int,
)
    requires
        0 <= k < n <= imgs.len(),
        imgs[k].0 == native,
    ensures
        frames_of_size(imgs, native, n).len() > 0,
    decreases n,
{
    if k < n - 1 {
        lemma_some_frame(imgs, native, k, n - 1);
    }
}

/// A pointer of a single picture stands still, whatever delay its file gives.
pub proof fn law_single_picture_stands_still(
    c: CursorCache,
    imgs: Seq<(u32, u32, u32, u32, u32, u32, Seq<u8>)>,
    size: u32,
    now: u64,
)
    requires
        cursor_is(c, imgs, size, now),
        c.frames@.len() == 1,
    ensures
        c.frames@[0].delay_ms == 0,
        c.total_cycle_ms == 0,
{
    assert(frame_views(c.frames@)[0] == c.frames@[0]@);
    let fs = frame_views(c.frames@);
    assert(cycle_of(fs, 1) == cycle_of(fs, 0) + fs[0].delay_ms);
}

/// The pointer that the images of a file stand for; `None` where there are
/// none.
pub fn cursor_from_images(images: Vec<CursorImage>, size: u32, now: u64) -> (out: Option<
    CursorCache,
>)
    ensures
        match out {
            Some(c) => images@.len() > 0 && cursor_is(c, image_views(images@), size, now)
                && c.frames@.len() > 0,
            None => images@.len() == 0,
        },
{
    if images.len() == 0 {
        return None;
    }
    let ghost imgs = image_views(images@);
    let best: usize = closest_image(&images, size);
    let native: u32 = images[best].size;
    assert(imgs[best as int] == image_parts(images@[best as int]));
    let ghost fs = frames_of_size(imgs, native, imgs.len() as int);
    let mut rest: Vec<CursorImage> = images;
    let ghost all = rest@;
    let mut frames: Vec<CursorFrame> = Vec::new();
    let mut total: u32 = 0;
    let ghost mut done: int = 0;
    assert(frame_views(frames@) =~= frames_of_size(imgs, native, 0));
    while rest.len() > 0
        invariant
            0 <= done <= all.len(),
            rest@ == all.skip(done),
            imgs == image_views(all),
            frame_views(frames@) == frames_of_size(imgs, native, done),
            total == cycle_of(frame_views(frames@), frames@.len() as int),
        decreases rest.len(),
    {
        let img: CursorImage = rest.remove(0);
        assert(img == all[done]);
        assert(imgs[done] == image_parts(img));
        assert(rest@ =~= all.skip(done + 1));
        if img.size == native {
            let ghost before = frame_views(frames@);
            let f: CursorFrame = CursorFrame {
                pixels_rgba: img.pixels,
                width: img.width,
                height: img.height,
                xhot: img.xhot as i32,
                yhot: img.yhot as i32,
                delay_ms: img.delay,
            };
            total = total.saturating_add(img.delay);
            frames.push(f);
            assert(frame_views(frames@) =~= before.push(f@));
            proof {
                lemma_cycle_prefix(before, frame_views(frames@), before.len() as int);
            }
        }
        proof {
            done = done + 1;
        }
    }
    proof {
        assert(imgs.len() == all.len());
        lemma_some_frame(imgs, native, best as int, imgs.len() as int);
        assert(frame_views(frames@).len() == frames@.len());
        assert(frame_views(frames@) == fs);
    }
    if frames.len() == 1 {
        frames[0].delay_ms = 0;
        total = 0;
        assert(frame_views(frames@) =~= settled(fs));
        assert(cycle_of(settled(fs), 0) == 0);
    }
    Some(
        CursorCache {
            frames,
            started_ns: now,
            total_cycle_ms: total,
            native_size: native,
            target_size: size,
        },
    )
}

proof fn lemma_cycle_prefix(a: Seq<CursorFrameView>, b: Seq<CursorFrameView>, n: int)
    requires
        0 <= n <= a.len(),
        n <= b.len(),
        forall|i: int| 0 <= i < n ==> a[i] == b[i],
    ensures
        cycle_of(a, n) == cycle_of(b, n),
    decreases n,
{
    if n > 0 {
        lemma_cycle_prefix(a, b, n - 1);
    }
}

/// Reads a pointer from the bytes of a cursor file; `None` where they are not
/// such a file or it holds no image.
pub fn load_xcursor(data: &Vec<u8>, size: u32, now: u64) -> (out: Option<CursorCache>)
    ensures
        match out {
            Some(c) => cursor_file(data@) matches Some(imgs) && imgs.len() > 0 && cursor_is(
                c,
                imgs,
                size,
                now,
            ) && c.frames@.len() > 0,
            None => cursor_file(data@) is None || cursor_file(data@)->0.len() == 0,
        },
{
    match parse_xcursor(data) {
        Some(images) => {
            assert(image_views(images@) == images@.map_values(|i: CursorImage| image_parts(i)));
            cursor_from_images(images, size, now)
        },
        None => None,
    }
}

/// The pictures of a pointer all have the size that, of those in the file, is
/// closest to the one that is asked for.
pub proof fn law_closest_size_is_used(
    imgs: Seq<(u32, u32, u32, u32, u32, u32, Seq<u8>)>,
    size: u32,
    k: int,
)
    requires
        0 <= k < imgs.len(),
    ensures
        size_off(imgs[closest(imgs, size as int, imgs.len() as int)], size as int) <= size_off(
            imgs[k],
            size as int,
        ),
{
    lemma_closest(imgs, size as int, imgs.len() as int);
}

// ---- Showing the pointer ----------------------------------------------------

impl Gate {
    /// The picture of the pointer that an output shows: none where the pointer
    /// is on another output, and none of a still pointer that has rested. The
    /// place of the pointer is given in whole pixels.
    pub fn cursor_frame(
        &self,
        cache: &CursorCache,
        output_idx: usize,
        x: i32,
        y: i32,
    ) -> (out: Option<usize>)
        requires
            self@.wf(),
        ensures
            ({
                let on = output_idx < self@.outputs.len() && {
                    let o = self@.outputs[output_idx as int];
                    o.x <= x < o.x + o.size.w && o.y <= y < o.y + o.size.h
                };
                let idle = self@.now_ns - self@.cursor_last_moved > 1_000_000_000;
                out == (if on && cache.frames@.len() > 0 && (moves(*cache) || !idle) {
                    Some(frame_at(*cache, self@.now_ns as int) as usize)
                } else {
                    None
                })
            }),
    {
        if output_idx >= self.outputs.len() || cache.frames.len() == 0 {
            return None;
        }
        assert(self@.outputs[output_idx as int] == self.outputs@[output_idx as int]@);
        assert(state::output_ok(self@.outputs[output_idx as int]));
        let o: &OutputState = &self.outputs[output_idx];
        if !(o.x <= x && x < o.x + o.size.w && o.y <= y && y < o.y + o.size.h) {
            return None;
        }
        if !cache.is_animated() && self.cursor_is_idle() {
            return None;
        }
        Some(cache.current_frame_idx(self.now_ns))
    }
}

/// A pointer that moves shows the same pictures again after a whole cycle.
pub proof fn law_pointer_cycles(c: CursorCache, now: int, cycles: int)
    requires
        moves(c),
        now >= c.started_ns,
        cycles >= 0,
    ensures
        frame_at(c, now + cycles * (c.total_cycle_ms * 1_000_000)) == frame_at(c, now),
{
    let t = c.total_cycle_ms as int;
    let later = now + cycles * (t * 1_000_000);
    let a = now - c.started_ns;
    assert(cycles * (t * 1_000_000) == 1_000_000 * (cycles * t)) by (nonlinear_arith);
    assert(0 <= cycles * t) by (nonlinear_arith)
        requires
            0 <= cycles,
            0 <= t,
    ;
    assert((a + 1_000_000 * (cycles * t)) / 1_000_000 == a / 1_000_000 + cycles * t);
    assert(millis_between(c.started_ns as int, now) == a / 1_000_000);
    assert(millis_between(c.started_ns as int, later) == a / 1_000_000 + cycles * t);
    vstd::arithmetic::div_mod::lemma_mod_multiples_vanish(cycles, a / 1_000_000, t);
    assert(t * cycles == cycles * t) by (nonlinear_arith);
}

proof fn lemma_shown_grows(fs: Seq<CursorFrame>, a: int, b: int)
    requires
        0 <= a <= b,
    ensures
        shown_until(fs, a) <= shown_until(fs, b),
    decreases b,
{
    if a < b {
        lemma_shown_grows(fs, a, b - 1);
    }
}

proof fn lemma_shown_is(fs: Seq<CursorFrame>, ms: int, j: int, i: int)
    requires
        0 <= j <= i < fs.len(),
        shown_until(fs, i) <= ms < shown_until(fs, i + 1),
    ensures
        shown_from(fs, ms, j) == i,
    decreases i - j,
{
    if j < i {
        lemma_shown_grows(fs, j + 1, i);
        lemma_shown_is(fs, ms, j + 1, i);
    }
}

/// Of a pointer that moves, each picture is shown for its time after those
/// before it, and the round starts again when all have been shown.
pub proof fn law_pictures_take_turns(c: CursorCache, now: u64, i: int)
    requires
        c.frames@.len() > 1,
        c.total_cycle_ms > 0,
        now >= c.started_ns,
        0 <= i < c.frames@.len(),
        shown_until(c.frames@, i) <= ((now - c.started_ns) / 1_000_000) % (c.total_cycle_ms as int)
            < shown_until(c.frames@, i) + c.frames@[i].delay_ms,
    ensures
        frame_at(c, now as int) == i,
{
    let ms = ((now - c.started_ns) / 1_000_000) % (c.total_cycle_ms as int);
    lemma_shown_is(c.frames@, ms, 0, i);
}

} // verus!
