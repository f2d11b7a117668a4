//! The small pictures of the wallpapers in the picker.

use vstd::prelude::*;

use crate::gate::wallpaper;
use crate::gate::wallpaper::{file_kind, FileKind};
use crate::pixels;
use crate::pixels::{crop_rows, premultiply};
use crate::text::eq_str;

verus! {

/// Where a small picture is from.
#[derive(Clone, Copy, Debug, PartialEq, Eq, Structural)]
pub enum Source {
    /// There is no room for it.
    Nothing,
    /// The first picture of a video.
    Video,
    Still,
}

/// Where a small picture of a file is from, by the extension of its name.
pub fn thumb_source(extension: Option<&str>, target_w: u32, target_h: u32) -> (s: Source)
    ensures
        s == (if target_w == 0 || target_h == 0 {
            Source::Nothing
        } else if wallpaper::kind_of(
            match extension {
                Some(e) => Some(e@),
                None => None,
            },
        ) == FileKind::Video {
            Source::Video
        } else {
            Source::Still
        }),
{
    if target_w == 0 || target_h == 0 {
        return Source::Nothing;
    }
    match file_kind(extension) {
        FileKind::Video => Source::Video,
        _ => Source::Still,
    }
}

// ---- Scaling ----------------------------------------------------------------

/// What `image` makes of a picture of `w` by `h` pixels, red, green, blue and
/// alpha, when it is resized to `nw` by `nh` pixels with the triangle filter.
pub uninterp spec fn resized(rgba: Seq<u8>, w: u32, h: u32, nw: u32, nh: u32) -> Seq<u8>;

/// Whether pictures of these sizes can be held in memory while one is resized
/// to the other.
pub open spec fn sizes_fit(w: u32, h: u32, nw: u32, nh: u32) -> bool {
    &&& 1 <= w <= 0x1_0000
    &&& 1 <= h <= 0x1_0000
    &&& 1 <= nw <= 0x1_0000
    &&& 1 <= nh <= 0x1_0000
    &&& w * h <= 0x7ff_ffff
    &&& w * nh <= 0x7ff_ffff
    &&& nw * nh <= 0x7ff_ffff
}

/// Calls `image::DynamicImage::resize_exact` with the triangle filter on a
/// picture of 8 bits for each of red, green, blue and alpha. The result has
/// the new size, and a picture that has it already stays as it is. Which
/// colours come out otherwise has a name here and no more is said of it.
#[verifier::external_body]
fn resize_exact(rgba: &Vec<u8>, w: u32, h: u32, nw: u32, nh: u32) -> (out: Option<Vec<u8>>)
    requires
        sizes_fit(w, h, nw, nh),
        rgba@.len() == 4 * (w * h),
    ensures
        out is Some,
        out->0@ == resized(rgba@, w, h, nw, nh),
        out->0@.len() == 4 * (nw * nh),
        nw == w && nh == h ==> out->0@ == rgba@,
{
    let img = image::DynamicImage::ImageRgba8(image::RgbaImage::from_raw(w, h, rgba.clone())?);
    let small = img.resize_exact(nw, nh, image::imageops::FilterType::Triangle);
    Some(small.into_rgba8().into_raw())
}

/// The middle of a picture.
pub open spec fn middle(s: Seq<u8>, w: u32, h: u32, target_w: u32, target_h: u32) -> Seq<u8> {
    pixels::cut(
        s,
        w as int,
        h as int,
        (w - target_w) / 2,
        (h - target_h) / 2,
        target_w as int,
        target_h as int,
    )
}

/// Cuts the middle out of a picture.
pub fn crop_middle(rgba: &Vec<u8>, w: u32, h: u32, target_w: u32, target_h: u32) -> (out: Vec<u8>)
    requires
        1 <= target_w <= w <= 0x1_0000,
        1 <= target_h <= h <= 0x1_0000,
        rgba@.len() == 4 * (w * h),
    ensures
        out@ == middle(rgba@, w, h, target_w, target_h),
        out@.len() == 4 * (target_w * target_h),
{
    let x: u32 = (w - target_w) / 2;
    let y: u32 = (h - target_h) / 2;
    assert forall|r: int| 0 <= r < target_h implies 0 <= #[trigger] pixels::row_start(
        w as int,
        h as int,
        x as int,
        y as int,
        r,
    ) && pixels::row_start(w as int, h as int, x as int, y as int, r) + 4 * target_w
        <= rgba.len() by {
        let row = y + r;
        assert(0 <= row * w && row * w + w <= w * h) by (nonlinear_arith)
            requires
                0 <= row < h,
                0 <= w,
        ;
    }
    crop_rows(
        rgba,
        w as usize,
        h as usize,
        x as usize,
        y as usize,
        target_w as usize,
        target_h as usize,
    )
}

/// A size that is at least another.
pub open spec fn at_least(n: u32, least: u32) -> u32 {
    if n < least {
        least
    } else {
        n
    }
}

/// A picture that fills a place: resized to `rounded_w` by `rounded_h`, or to
/// the place where that is larger, of which the middle is kept. A picture
/// without an extent gives an empty one.
pub open spec fn covering(
    rgba: Seq<u8>,
    w: u32,
    h: u32,
    rounded_w: u32,
    rounded_h: u32,
    target_w: u32,
    target_h: u32,
) -> Seq<u8> {
    if w == 0 || h == 0 || target_w == 0 || target_h == 0 {
        Seq::new((4 * (at_least(target_w, 1) * at_least(target_h, 1))) as nat, |i: int| 0u8)
    } else {
        let sw = at_least(rounded_w, target_w);
        let sh = at_least(rounded_h, target_h);
        middle(resized(rgba, w, h, sw, sh), sw, sh, target_w, target_h)
    }
}

/// Whether a picture can be made to fill a place.
pub open spec fn cover_fits(
    w: u32,
    h: u32,
    rounded_w: u32,
    rounded_h: u32,
    target_w: u32,
    target_h: u32,
) -> bool {
    if w == 0 || h == 0 || target_w == 0 || target_h == 0 {
        4 * (at_least(target_w, 1) * at_least(target_h, 1)) <= 0x7fff_ffff
    } else {
        sizes_fit(w, h, at_least(rounded_w, target_w), at_least(rounded_h, target_h))
    }
}

fn larger(n: u32, least: u32) -> (r: u32)
    ensures
        r == at_least(n, least),
{
    if n < least {
        least
    } else {
        n
    }
}

/// Whether a picture can be made to fill a place.
pub fn can_cover(
    w: u32,
    h: u32,
    rounded_w: u32,
    rounded_h: u32,
    target_w: u32,
    target_h: u32,
) -> (r: bool)
    ensures
        r == cover_fits(w, h, rounded_w, rounded_h, target_w, target_h),
{
    if w == 0 || h == 0 || target_w == 0 || target_h == 0 {
        let a: u32 = larger(target_w, 1);
        let b: u32 = larger(target_h, 1);
        proof {
            lemma_product(a, b);
        }
        a as u64 * b as u64 <= 0x1fff_ffff
    } else {
        let sw: u32 = larger(rounded_w, target_w);
        let sh: u32 = larger(rounded_h, target_h);
        proof {
            lemma_product(w, h);
            lemma_product(w, sh);
            lemma_product(sw, sh);
        }
        w <= 0x1_0000 && h <= 0x1_0000 && sw <= 0x1_0000 && sh <= 0x1_0000 && w as u64 * h as u64
            <= 0x7ff_ffff && w as u64 * sh as u64 <= 0x7ff_ffff && sw as u64 * sh as u64
            <= 0x7ff_ffff
    }
}

proof fn lemma_product(a: u32, b: u32)
    ensures
        0 <= a * b <= u64::MAX,
{
    assert(0 <= a * b <= 0xffff_ffff * 0xffff_ffff) by (nonlinear_arith);
}

/// Makes a picture fill a place. `rounded_w` and `rounded_h` are its size at
/// the scale at which its shorter side fits.
pub fn scale_to_cover(
    rgba: &Vec<u8>,
    w: u32,
    h: u32,
    rounded_w: u32,
    rounded_h: u32,
    target_w: u32,
    target_h: u32,
) -> (out: Vec<u8>)
    requires
        rgba@.len() == 4 * (w * h),
        cover_fits(w, h, rounded_w, rounded_h, target_w, target_h),
    ensures
        out@ == covering(rgba@, w, h, rounded_w, rounded_h, target_w, target_h),
        target_w > 0 && target_h > 0 ==> out@.len() == 4 * (target_w * target_h),
{
    if w == 0 || h == 0 || target_w == 0 || target_h == 0 {
        let a: u32 = larger(target_w, 1);
        let b: u32 = larger(target_h, 1);
        proof {
            lemma_product(a, b);
        }
        let n: usize = 4 * (a as usize * b as usize);
        let mut out: Vec<u8> = Vec::new();
        while out.len() < n
            invariant
                out@.len() <= n,
                forall|i: int| 0 <= i < out@.len() ==> #[trigger] out@[i] == 0,
            decreases n - out.len(),
        {
            out.push(0);
        }
        assert(out@ =~= covering(rgba@, w, h, rounded_w, rounded_h, target_w, target_h));
        return out;
    }
    let sw: u32 = larger(rounded_w, target_w);
    let sh: u32 = larger(rounded_h, target_h);
    match resize_exact(rgba, w, h, sw, sh) {
        Some(r) => crop_middle(&r, sw, sh, target_w, target_h),
        None => Vec::new(),
    }
}

/// A small picture as it is drawn; `None` where there is no room for it.
pub fn decode_thumb(
    rgba: &Vec<u8>,
    w: u32,
    h: u32,
    rounded_w: u32,
    rounded_h: u32,
    target_w: u32,
    target_h: u32,
) -> (out: Option<Vec<u8>>)
    requires
        rgba@.len() == 4 * (w * h),
        cover_fits(w, h, rounded_w, rounded_h, target_w, target_h),
    ensures
        out is Some <==> target_w > 0 && target_h > 0,
        out matches Some(p) ==> p@ == pixels::premultiplied(
            covering(rgba@, w, h, rounded_w, rounded_h, target_w, target_h),
        ),
{
    if target_w == 0 || target_h == 0 {
        return None;
    }
    let covered: Vec<u8> = scale_to_cover(
        rgba,
        w,
        h,
        rounded_w,
        rounded_h,
        target_w,
        target_h,
    );
    Some(premultiply(covered))
}

// ---- Names in the cache -----------------------------------------------------

/// A digit of a hexadecimal number.
pub open spec fn hex_digit(d: int) -> char {
    if d < 10 {
        (d + '0' as int) as char
    } else {
        (d - 10 + 'a' as int) as char
    }
}

/// The last `n` digits of a hexadecimal number.
pub open spec fn hex(value: int, n: nat) -> Seq<char>
    decreases n,
{
    if n == 0 {
        Seq::empty()
    } else {
        hex(value / 16, (n - 1) as nat).push(hex_digit(value % 16))
    }
}

fn digit_char(d: u64) -> (c: char)
    requires
        d < 16,
    ensures
        c == hex_digit(d as int),
{
    if d < 10 {
        (d as u8 + 48) as char
    } else {
        (d as u8 - 10 + 97) as char
    }
}

fn push_hex(out: &mut String, value: u64, n: usize)
    ensures
        final(out)@ == old(out)@ + hex(value as int, n as nat),
    decreases n,
{
    if n > 0 {
        let ghost before = out@;
        push_hex(out, value / 16, n - 1);
        out.push(digit_char(value % 16));
        assert(out@ =~= before + hex(value as int, n as nat));
    } else {
        assert(out@ =~= out@ + hex(value as int, 0));
    }
}

/// The name of the file that keeps a small picture. `key` stands for the file
/// it was made from, its age and size, and the size of the picture.
pub fn disk_cache_name(key: u64) -> (name: String)
    ensures
        name@ == hex(key as int, 16) + ".png"@,
{
    let mut name: String = String::new();
    push_hex(&mut name, key, 16);
    name.push_str(".png");
    assert(name@ =~= hex(key as int, 16) + ".png"@);
    name
}

proof fn lemma_hex_digit(a: int, b: int)
    requires
        0 <= a < 16,
        0 <= b < 16,
        hex_digit(a) == hex_digit(b),
    ensures
        a == b,
{
}

proof fn lemma_hex(a: int, b: int, n: nat)
    requires
        0 <= a,
        0 <= b,
        a != b,
        a < vstd::arithmetic::power::pow(16, n),
        b < vstd::arithmetic::power::pow(16, n),
    ensures
        hex(a, n).len() == n,
        hex(b, n).len() == n,
        hex(a, n) != hex(b, n),
    decreases n,
{
    vstd::arithmetic::power::lemma_pow0(16);
    if n > 0 {
        let m = (n - 1) as nat;
        let p = vstd::arithmetic::power::pow(16, m);
        assert(vstd::arithmetic::power::pow(16, n) == 16 * p) by {
            reveal(vstd::arithmetic::power::pow);
        }
        lemma_hex_len(a / 16, m);
        lemma_hex_len(b / 16, m);
        if a / 16 != b / 16 {
            lemma_hex(a / 16, b / 16, m);
            assert(hex(a, n).drop_last() =~= hex(a / 16, m));
            assert(hex(b, n).drop_last() =~= hex(b / 16, m));
        } else {
            assert(a % 16 != b % 16);
            assert(hex(a, n).last() == hex_digit(a % 16));
            assert(hex(b, n).last() == hex_digit(b % 16));
            if hex_digit(a % 16) == hex_digit(b % 16) {
                lemma_hex_digit(a % 16, b % 16);
            }
        }
    }
}

proof fn lemma_hex_len(a: int, n: nat)
    ensures
        hex(a, n).len() == n,
    decreases n,
{
    if n > 0 {
        lemma_hex_len(a / 16, (n - 1) as nat);
    }
}

/// Different keys give different names.
pub proof fn law_names_differ(a: u64, b: u64)
    requires
        a != b,
    ensures
        hex(a as int, 16) + ".png"@ != hex(b as int, 16) + ".png"@,
{
    assert(vstd::arithmetic::power::pow(16, 16) == 0x1_0000_0000_0000_0000) by {
        reveal_with_fuel(vstd::arithmetic::power::pow, 17);
    }
    lemma_hex(a as int, b as int, 16);
    let x = hex(a as int, 16) + ".png"@;
    let y = hex(b as int, 16) + ".png"@;
    assert(x.take(16) =~= hex(a as int, 16));
    assert(y.take(16) =~= hex(b as int, 16));
}

// ---- The cache --------------------------------------------------------------

/// The small picture of a file; `None` where the file could not be read.
#[derive(Debug)]
pub struct Thumb {
    pub path: String,
    pub pixels: Option<Vec<u8>>,
}

/// The small pictures that have been made.
#[derive(Debug)]
pub struct ThumbCache {
    pub thumbs: Vec<Thumb>,
}

/// What the first `n` entries say of each path.
pub open spec fn contents(ts: Seq<Thumb>, n: int) -> Map<Seq<char>, Option<Seq<u8>>>
    decreases n,
{
    if n <= 0 {
        Map::empty()
    } else {
        contents(ts, n - 1).insert(
            ts[n - 1].path@,
            match ts[n - 1].pixels {
                Some(p) => Some(p@),
                None => None,
            },
        )
    }
}

impl View for ThumbCache {
    type V = Map<Seq<char>, Option<Seq<u8>>>;

    open spec fn view(&self) -> Map<Seq<char>, Option<Seq<u8>>> {
        contents(self.thumbs@, self.thumbs@.len() as int)
    }
}

proof fn lemma_contents_absent(ts: Seq<Thumb>, path: Seq<char>, n: int)
    requires
        0 <= n <= ts.len(),
        forall|k: int| 0 <= k < n ==> (#[trigger] ts[k]).path@ != path,
    ensures
        !contents(ts, n).dom().contains(path),
    decreases n,
{
    if n > 0 {
        lemma_contents_absent(ts, path, n - 1);
    }
}

proof fn lemma_contents_last(ts: Seq<Thumb>, at: int, n: int)
    requires
        0 <= at < n <= ts.len(),
        forall|k: int| at < k < n ==> (#[trigger] ts[k]).path@ != ts[at].path@,
    ensures
        contents(ts, n).dom().contains(ts[at].path@),
        contents(ts, n)[ts[at].path@] == (match ts[at].pixels {
            Some(p) => Some(p@),
            None => None,
        }),
    decreases n,
{
    if at < n - 1 {
        lemma_contents_last(ts, at, n - 1);
    }
}

proof fn lemma_contents_same(a: Seq<Thumb>, b: Seq<Thumb>, n: int)
    requires
        0 <= n <= a.len(),
        n <= b.len(),
        forall|k: int| 0 <= k < n ==> #[trigger] a[k] == b[k],
    ensures
        contents(a, n) == contents(b, n),
    decreases n,
{
    if n > 0 {
        lemma_contents_same(a, b, n - 1);
        assert(a[n - 1] == b[n - 1]);
    }
}

impl ThumbCache {
    /// A cache without pictures.
    pub fn new() -> (c: ThumbCache)
        ensures
            c@ == Map::<Seq<char>, Option<Seq<u8>>>::empty(),
    {
        ThumbCache { thumbs: Vec::new() }
    }

    fn find(&self, path: &str) -> (at: Option<usize>)
        ensures
            at matches Some(i) ==> i < self.thumbs@.len() && self.thumbs@[i as int].path@ == path@
                && self@.dom().contains(path@) && self@[path@] == (match self.thumbs@[i as int].pixels {
                Some(p) => Some(p@),
                None => None,
            }),
            at is None ==> !self@.dom().contains(path@),
    {
        let n: usize = self.thumbs.len();
        let mut i: usize = n;
        while i > 0
            invariant
                i <= n,
                n == self.thumbs@.len(),
                forall|k: int| i <= k < n ==> (#[trigger] self.thumbs@[k]).path@ != path@,
            decreases i,
        {
            i = i - 1;
            if eq_str(self.thumbs[i].path.as_str(), path) {
                proof {
                    lemma_contents_last(self.thumbs@, i as int, n as int);
                }
                return Some(i);
            }
        }
        proof {
            lemma_contents_absent(self.thumbs@, path@, n as int);
        }
        None
    }

    /// Whether a file has been tried.
    pub fn knows(&self, path: &str) -> (r: bool)
        ensures
            r == self@.dom().contains(path@),
    {
        self.find(path).is_some()
    }

    /// Remembers what was made of a file, unless it has been tried before.
    pub fn store(&mut self, path: String, pixels: Option<Vec<u8>>)
        ensures
            final(self)@ == (if old(self)@.dom().contains(path@) {
                old(self)@
            } else {
                old(self)@.insert(
                    path@,
                    match pixels {
                        Some(p) => Some(p@),
                        None => None,
                    },
                )
            }),
    {
        if self.knows(path.as_str()) {
            return ;
        }
        let ghost before = self.thumbs@;
        self.thumbs.push(Thumb { path, pixels });
        proof {
            lemma_contents_same(before, self.thumbs@, before.len() as int);
        }
    }

    /// The small picture of a file that has been tried and could be read.
    pub fn get(&self, path: &str) -> (out: Option<&Vec<u8>>)
        ensures
            out is Some <==> self@.dom().contains(path@) && self@[path@] is Some,
            out matches Some(p) ==> self@[path@] == Some(p@),
    {
        match self.find(path) {
            Some(i) => match &self.thumbs[i].pixels {
                Some(p) => Some(p),
                None => None,
            },
            None => None,
        }
    }
}

/// Of a picture that is larger than its place the middle is kept: as much is
/// cut off on the left as on the right, to a pixel, and above as below.
pub proof fn law_middle_is_kept(
    s: Seq<u8>,
    w: u32,
    h: u32,
    target_w: u32,
    target_h: u32,
    px: int,
    py: int,
    c: int,
)
    requires
        1 <= target_w <= w,
        1 <= target_h <= h,
        s.len() == 4 * (w * h),
        0 <= px < target_w,
        0 <= py < target_h,
        0 <= c < 4,
    ensures
        ({
            let left = (w - target_w) / 2;
            let top = (h - target_h) / 2;
            &&& middle(s, w, h, target_w, target_h)[4 * (py * target_w + px) + c] == s[4 * ((top + py)
                * w + left + px) + c]
            &&& 0 <= (w - target_w - left) - left <= 1
            &&& 0 <= (h - target_h - top) - top <= 1
        }),
{
    pixels::law_cutting_keeps_pixels(
        s,
        w as int,
        h as int,
        (w - target_w) / 2,
        (h - target_h) / 2,
        target_w as int,
        target_h as int,
        px,
        py,
        c,
    );
}

} // verus!
