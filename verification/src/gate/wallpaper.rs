//! The wallpaper: a picture, a series of pictures, or a video.

use vstd::prelude::*;

use crate::pixels;
use crate::pixels::{premultiply, swap_red_blue};
use crate::scan;
use crate::text::eq_str;

verus! {

/// How a wallpaper file is read.
#[derive(Clone, Copy, Debug, PartialEq, Eq, Structural)]
pub enum FileKind {
    Gif,
    Video,
    Still,
}

/// How a file is read, by the extension of its name.
pub open spec fn kind_of(extension: Option<Seq<char>>) -> FileKind {
    match extension {
        Some(e) => {
            let e = scan::ascii_lowercase(e);
            if e == "gif"@ {
                FileKind::Gif
            } else if e == "mp4"@ || e == "mkv"@ || e == "webm"@ || e == "mov"@ || e == "m4v"@ {
                FileKind::Video
            } else {
                FileKind::Still
            }
        },
        None => FileKind::Still,
    }
}

/// How a file is read, by the extension of its name.
pub fn file_kind(extension: Option<&str>) -> (kind: FileKind)
    ensures
        kind == kind_of(
            match extension {
                Some(e) => Some(e@),
                None => None,
            },
        ),
{
    match extension {
        Some(e) => {
            let low: String = scan::to_ascii_lowercase(e);
            let e: &str = low.as_str();
            if eq_str(e, "gif") {
                FileKind::Gif
            } else if eq_str(e, "mp4") || eq_str(e, "mkv") || eq_str(e, "webm") || eq_str(e, "mov")
                || eq_str(e, "m4v") {
                FileKind::Video
            } else {
                FileKind::Still
            }
        },
        None => FileKind::Still,
    }
}

/// How long a picture of a series is shown. A time below 20 milliseconds is
/// taken for a mistake.
pub fn frame_delay(delay_ns: u64) -> (d: u64)
    ensures
        d == (if delay_ns / 1_000_000 < 20 {
            100_000_000
        } else {
            delay_ns
        }),
{
    if delay_ns / 1_000_000 < 20 {
        100_000_000
    } else {
        delay_ns
    }
}

/// Takes the next picture of a series, and returns whether to go on. The series
/// ends before the first picture that cannot be decoded, which is given as
/// `None`.
pub fn take_frame(frames: &mut Vec<RawFrame>, next: Option<RawFrame>) -> (more: bool)
    ensures
        more == next is Some,
        final(frames)@ == (match next {
            Some(f) => old(frames)@.push(f),
            None => old(frames)@,
        }),
{
    match next {
        Some(f) => {
            frames.push(f);
            true
        },
        None => false,
    }
}

/// A picture with premultiplied alpha, and how long it is shown.
#[derive(Debug)]
pub struct Frame {
    pub rgba: Vec<u8>,
    pub delay_ns: u64,
}

#[derive(Debug)]
pub enum WallpaperKind {
    Frames {
        frames: Vec<Frame>,
        /// The picture that is shown.
        current: usize,
        /// Since when it is shown.
        started_ns: u64,
    },
    Video {
        /// The number of the last picture that has been shown.
        uploaded_serial: u64,
    },
}

/// A wallpaper.
#[derive(Debug)]
pub struct Wallpaper {
    pub kind: WallpaperKind,
    pub width: u32,
    pub height: u32,
    /// The pixels that are shown.
    pub last_pixels: Option<Vec<u8>>,
}

/// A picture of a series as it was read, and how long it is to be shown.
#[derive(Debug)]
pub struct RawFrame {
    pub rgba: Vec<u8>,
    pub delay_ns: u64,
    pub width: u32,
    pub height: u32,
}

/// A picture of a video: four bytes for each pixel, blue first.
#[derive(Debug)]
pub struct VideoFrame {
    pub bgra: Vec<u8>,
    pub width: u32,
    pub height: u32,
    pub serial: u64,
}

/// A year, in nanoseconds: how long a still picture is shown.
pub const YEAR_NS: u64 = 31_536_000_000_000_000;

fn copy_bytes(v: &Vec<u8>) -> (out: Vec<u8>)
    ensures
        out@ == v@,
{
    let mut out: Vec<u8> = Vec::new();
    let mut i: usize = 0;
    while i < v.len()
        invariant
            i <= v.len(),
            out@ == v@.take(i as int),
        decreases v.len() - i,
    {
        out.push(v[i]);
        i = i + 1;
        assert(out@ =~= v@.take(i as int));
    }
    assert(v@.take(v@.len() as int) =~= v@);
    out
}

/// The time between two times, none where the second is not later.
pub open spec fn elapsed(start: int, now: int) -> int {
    if now > start {
        now - start
    } else {
        0
    }
}

impl Wallpaper {
    /// Whether the picture that is shown is one of the series.
    pub open spec fn wf(self) -> bool {
        match self.kind {
            WallpaperKind::Frames { frames, current, .. } => current < frames@.len(),
            WallpaperKind::Video { .. } => true,
        }
    }

    /// Whether the next picture of the series is due.
    pub open spec fn due(self, now: int) -> bool {
        match self.kind {
            WallpaperKind::Frames { frames, current, started_ns } => frames@.len() > 1 && elapsed(
                started_ns as int,
                now,
            ) >= frames@[current as int].delay_ns,
            WallpaperKind::Video { .. } => false,
        }
    }

    /// A wallpaper of one picture.
    pub fn still(rgba: Vec<u8>, width: u32, height: u32, now: u64) -> (w: Wallpaper)
        ensures
            w.wf(),
            w.width == width,
            w.height == height,
            w.last_pixels matches Some(p) && p@ == pixels::premultiplied(rgba@),
            w.kind matches WallpaperKind::Frames { frames, current, started_ns } && frames@.len()
                == 1 && current == 0 && started_ns == now && frames@[0].rgba@
                == pixels::premultiplied(rgba@) && frames@[0].delay_ns == YEAR_NS,
    {
        let data: Vec<u8> = premultiply(rgba);
        let last_pixels: Option<Vec<u8>> = Some(copy_bytes(&data));
        let mut frames: Vec<Frame> = Vec::new();
        frames.push(Frame { rgba: data, delay_ns: YEAR_NS });
        Wallpaper {
            kind: WallpaperKind::Frames { frames, current: 0, started_ns: now },
            width,
            height,
            last_pixels,
        }
    }

    /// A wallpaper of a series of pictures; `None` where there are none. Its
    /// size is that of the first.
    pub fn series(raw: Vec<RawFrame>, now: u64) -> (out: Option<Wallpaper>)
        ensures
            out is None <==> raw@.len() == 0,
            out matches Some(w) ==> {
                &&& w.wf()
                &&& w.width == raw@[0].width
                &&& w.height == raw@[0].height
                &&& w.last_pixels matches Some(p) && p@ == pixels::premultiplied(raw@[0].rgba@)
                &&& w.kind matches WallpaperKind::Frames { frames, current, started_ns } && {
                    &&& current == 0
                    &&& started_ns == now
                    &&& frames@.len() == raw@.len()
                    &&& forall|i: int|
                        0 <= i < raw@.len() ==> (#[trigger] frames@[i]).rgba@
                            == pixels::premultiplied(raw@[i].rgba@) && frames@[i].delay_ns == (
                        if raw@[i].delay_ns / 1_000_000 < 20 {
                            100_000_000
                        } else {
                            raw@[i].delay_ns
                        })
                }
            },
    {
        if raw.len() == 0 {
            return None;
        }
        let width: u32 = raw[0].width;
        let height: u32 = raw[0].height;
        let mut rest: Vec<RawFrame> = raw;
        let ghost all = rest@;
        let mut frames: Vec<Frame> = Vec::new();
        while rest.len() > 0
            invariant
                frames@.len() + rest@.len() == all.len(),
                rest@ == all.skip(frames@.len() as int),
                forall|i: int|
                    0 <= i < frames@.len() ==> (#[trigger] frames@[i]).rgba@
                        == pixels::premultiplied(all[i].rgba@) && frames@[i].delay_ns == (
                    if all[i].delay_ns / 1_000_000 < 20 {
                        100_000_000
                    } else {
                        all[i].delay_ns
                    }),
            decreases rest.len(),
        {
            let ghost n = frames@.len() as int;
            let f: RawFrame = rest.remove(0);
            assert(f == all[n]);
            let delay_ns: u64 = frame_delay(f.delay_ns);
            frames.push(Frame { rgba: premultiply(f.rgba), delay_ns });
            assert(rest@ =~= all.skip(n + 1));
        }
        let last_pixels: Option<Vec<u8>> = Some(copy_bytes(&frames[0].rgba));
        Some(
            Wallpaper {
                kind: WallpaperKind::Frames { frames, current: 0, started_ns: now },
                width,
                height,
                last_pixels,
            },
        )
    }

    /// A wallpaper that is a video of a size.
    pub fn video(width: u32, height: u32) -> (w: Wallpaper)
        ensures
            w.wf(),
            w.width == width,
            w.height == height,
            w.last_pixels is None,
            w.kind == (WallpaperKind::Video { uploaded_serial: 0 }),
    {
        Wallpaper {
            kind: WallpaperKind::Video { uploaded_serial: 0 },
            width,
            height,
            last_pixels: None,
        }
    }

    /// The pixels that are shown, with their width and height.
    pub fn current_rgba(&self) -> (out: Option<(&Vec<u8>, u32, u32)>)
        requires
            self.wf(),
        ensures
            match self.kind {
                WallpaperKind::Frames { frames, current, .. } => out matches Some(p) && *p.0
                    == frames@[current as int].rgba && p.1 == self.width && p.2 == self.height,
                WallpaperKind::Video { .. } => match out {
                    Some(p) => self.last_pixels == Some(*p.0) && p.1 == self.width && p.2
                        == self.height,
                    None => self.last_pixels is None,
                },
            },
    {
        match &self.kind {
            WallpaperKind::Frames { frames, current, .. } => {
                Some((&frames[*current].rgba, self.width, self.height))
            },
            WallpaperKind::Video { .. } => {
                match &self.last_pixels {
                    Some(p) => Some((p, self.width, self.height)),
                    None => None,
                }
            },
        }
    }

    /// Goes on to the next picture where it is due. `pending` says whether a
    /// new picture of the video has come. Returns whether what is shown
    /// changes.
    pub fn tick(&mut self, now: u64, pending: bool) -> (changed: bool)
        requires
            old(self).wf(),
        ensures
            final(self).wf(),
            changed == (match old(self).kind {
                WallpaperKind::Frames { .. } => old(self).due(now as int),
                WallpaperKind::Video { .. } => pending,
            }),
            final(self).width == old(self).width,
            final(self).height == old(self).height,
            final(self).last_pixels == old(self).last_pixels,
            match old(self).kind {
                WallpaperKind::Frames { frames, current, started_ns } => final(self).kind
                    == (WallpaperKind::Frames {
                    frames,
                    current: if changed {
                        if current + 1 == frames@.len() {
                            0
                        } else {
                            (current + 1) as usize
                        }
                    } else {
                        current
                    },
                    started_ns: if changed {
                        now
                    } else {
                        started_ns
                    },
                }),
                WallpaperKind::Video { .. } => final(self).kind == old(self).kind,
            },
    {
        match &mut self.kind {
            WallpaperKind::Frames { frames, current, started_ns } => {
                if frames.len() <= 1 {
                    return false;
                }
                let gone: u64 = if now > *started_ns {
                    now - *started_ns
                } else {
                    0
                };
                if gone >= frames[*current].delay_ns {
                    let next: usize = if *current + 1 == frames.len() {
                        0
                    } else {
                        *current + 1
                    };
                    *current = next;
                    *started_ns = now;
                    true
                } else {
                    false
                }
            },
            WallpaperKind::Video { .. } => pending,
        }
    }

    /// How long it takes until the next picture is due, in nanoseconds; `None`
    /// of a still one.
    pub fn next_frame_due(&self, now: u64) -> (out: Option<u64>)
        requires
            self.wf(),
        ensures
            out == (match self.kind {
                WallpaperKind::Frames { frames, current, started_ns } => if frames@.len() > 1 {
                    let left = frames@[current as int].delay_ns - elapsed(
                        started_ns as int,
                        now as int,
                    );
                    Some(
                        if left > 0 {
                            left as u64
                        } else {
                            0
                        },
                    )
                } else {
                    None
                },
                WallpaperKind::Video { .. } => Some(16_000_000),
            }),
    {
        match &self.kind {
            WallpaperKind::Frames { frames, current, started_ns } => {
                if frames.len() <= 1 {
                    return None;
                }
                let gone: u64 = if now > *started_ns {
                    now - *started_ns
                } else {
                    0
                };
                let delay: u64 = frames[*current].delay_ns;
                if delay > gone {
                    Some(delay - gone)
                } else {
                    Some(0)
                }
            },
            WallpaperKind::Video { .. } => Some(16_000_000),
        }
    }

    /// Takes over a new picture of the video. Returns whether it is another
    /// one than the last.
    pub fn take_video_frame(&mut self, frame: &VideoFrame) -> (new: bool)
        requires
            old(self).wf(),
        ensures
            final(self).wf(),
            new == (old(self).kind matches WallpaperKind::Video { uploaded_serial }
                && frame.serial != uploaded_serial),
            !new ==> *final(self) == *old(self),
            new ==> {
                &&& final(self).kind == old(self).kind
                &&& final(self).width == frame.width
                &&& final(self).height == frame.height
                &&& final(self).last_pixels matches Some(p) && p@ == pixels::swapped(frame.bgra@)
            },
    {
        let new: bool = match &self.kind {
            WallpaperKind::Video { uploaded_serial } => frame.serial != *uploaded_serial,
            WallpaperKind::Frames { .. } => false,
        };
        if new {
            self.width = frame.width;
            self.height = frame.height;
            self.last_pixels = Some(swap_red_blue(&frame.bgra));
        }
        new
    }

    /// Notes that the picture with the number is shown now.
    pub fn uploaded(&mut self, serial: u64)
        requires
            old(self).wf(),
        ensures
            final(self).wf(),
            final(self).width == old(self).width,
            final(self).height == old(self).height,
            final(self).last_pixels == old(self).last_pixels,
            final(self).kind == (match old(self).kind {
                WallpaperKind::Video { .. } => WallpaperKind::Video { uploaded_serial: serial },
                WallpaperKind::Frames { .. } => old(self).kind,
            }),
    {
        match &mut self.kind {
            WallpaperKind::Video { uploaded_serial } => {
                *uploaded_serial = serial;
            },
            WallpaperKind::Frames { .. } => {},
        }
    }
}

/// When to look at the wallpaper again, in nanoseconds: when the next picture
/// is due, but not before 20 milliseconds have gone by; else after a quarter
/// of a second.
pub fn next_wake(due: Option<u64>) -> (ns: u64)
    ensures
        ns == (match due {
            Some(d) => if d > 20_000_000 {
                d
            } else {
                20_000_000
            },
            None => 250_000_000,
        }),
{
    match due {
        Some(d) => {
            if d > 20_000_000 {
                d
            } else {
                20_000_000
            }
        },
        None => 250_000_000,
    }
}

/// A series never pins the machine: every picture is shown for at least 20
/// milliseconds.
pub proof fn law_series_are_slow(raw: int)
    requires
        raw >= 0,
    ensures
        (if raw / 1_000_000 < 20 {
            100_000_000
        } else {
            raw
        }) >= 20_000_000,
{
}

/// Films and series of pictures are known by the extension of their file,
/// however it is written; everything else is one picture.
pub proof fn law_kinds_of_files(e: Seq<char>)
    ensures
        ({
            let low = scan::ascii_lowercase(e);
            let film = low == "mp4"@ || low == "mkv"@ || low == "webm"@ || low == "mov"@ || low
                == "m4v"@;
            &&& low == "gif"@ ==> kind_of(Some(e)) == FileKind::Gif
            &&& film ==> kind_of(Some(e)) == FileKind::Video
            &&& low != "gif"@ && !film ==> kind_of(Some(e)) == FileKind::Still
        }),
        kind_of(None) == FileKind::Still,
        forall|d: Seq<char>|
            scan::ascii_lowercase(d) == scan::ascii_lowercase(e) ==> #[trigger] kind_of(Some(d))
                == kind_of(Some(e)),
{
    reveal_strlit("gif");
    reveal_strlit("mp4");
    reveal_strlit("mkv");
    reveal_strlit("webm");
    reveal_strlit("mov");
    reveal_strlit("m4v");
    assert("gif"@[0] == 'g' && "mp4"@[0] == 'm' && "mkv"@[0] == 'm' && "webm"@[0] == 'w'
        && "mov"@[0] == 'm' && "m4v"@[0] == 'm');
}

} // verus!
