//! How long the programs wait for what others are about to give them.

use vstd::prelude::*;

verus! {

/// What to do while something is waited for.
#[derive(Clone, Copy, Debug, PartialEq, Eq, Structural)]
pub enum Wait {
    /// Go on.
    Ready,
    /// Look again after so many milliseconds.
    Sleep(u64),
    /// It does not come.
    GiveUp,
}

/// How long the first picture of a video is waited for, in nanoseconds.
pub const VIDEO_NS: u64 = 1_000_000_000;

/// How long the pieces of a screenshot are waited for, in nanoseconds.
pub const PIECES_NS: u64 = 1_500_000_000;

/// How often it is slept before the file of a screenshot is given up.
pub const FILE_TRIES: u32 = 50;

/// Waits for the first picture of a video. One that does not come within a
/// second is given up.
pub fn video_wait(there: bool, waited_ns: u64) -> (w: Wait)
    ensures
        w == (if there {
            Wait::Ready
        } else if waited_ns > VIDEO_NS {
            Wait::GiveUp
        } else {
            Wait::Sleep(10)
        }),
{
    if there {
        Wait::Ready
    } else if waited_ns > VIDEO_NS {
        Wait::GiveUp
    } else {
        Wait::Sleep(10)
    }
}

/// Waits for the pieces of a screenshot. After a second and a half it goes on
/// with those that there are.
pub fn pieces_wait(all_there: bool, waited_ns: u64) -> (w: Wait)
    ensures
        w == (if all_there || waited_ns >= PIECES_NS {
            Wait::Ready
        } else {
            Wait::Sleep(15)
        }),
{
    if all_there || waited_ns >= PIECES_NS {
        Wait::Ready
    } else {
        Wait::Sleep(15)
    }
}

/// Waits for the file of a screenshot, given how often it has been slept for
/// it. After fifty times it is given up.
pub fn file_wait(there: bool, tries: u32) -> (w: Wait)
    ensures
        w == (if there {
            Wait::Ready
        } else if tries >= FILE_TRIES {
            Wait::GiveUp
        } else {
            Wait::Sleep(20)
        }),
{
    if there {
        Wait::Ready
    } else if tries >= FILE_TRIES {
        Wait::GiveUp
    } else {
        Wait::Sleep(20)
    }
}

} // verus!
