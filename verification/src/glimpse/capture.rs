//! What a screenshot is put together from, and which old ones are thrown away.

use vstd::prelude::*;

use crate::geometry;
use crate::geometry::{max_i32, Rect, Size};
use crate::ipc::message::{OutputInfo, ThemeColors};
use crate::scan;
use crate::text;
use crate::text::eq_str;

verus! {

// ---- The command line -------------------------------------------------------

/// What the command line asks for.
#[derive(Debug)]
pub struct Options {
    /// Take everything at once instead of letting the user select.
    pub quick: bool,
    /// Where to save the screenshot as well.
    pub save_path: Option<String>,
}

/// Whether some argument is one of two words.
pub open spec fn asked(args: Seq<String>, a: Seq<char>, b: Seq<char>) -> bool {
    exists|i: int| 0 <= i < args.len() && ((#[trigger] args[i])@ == a || args[i]@ == b)
}

/// The first argument at or after `i` that asks for a file; the number of
/// arguments where there is none.
pub open spec fn output_from(args: Seq<String>, i: int) -> int
    decreases args.len() - i,
{
    if i >= args.len() {
        args.len() as int
    } else if args[i]@ == "-o"@ || args[i]@ == "--output"@ {
        i
    } else {
        output_from(args, i + 1)
    }
}

/// Reads the command line.
pub fn parse_args(args: &Vec<String>) -> (out: Options)
    ensures
        out.quick == asked(args@, "-q"@, "--quick"@),
        text::opt_view(out.save_path) == (if output_from(args@, 0) + 1 < args@.len() {
            Some(args@[output_from(args@, 0) + 1]@)
        } else {
            None
        }),
{
    let mut quick: bool = false;
    let mut i: usize = 0;
    while i < args.len()
        invariant
            i <= args.len(),
            quick == (exists|k: int|
                0 <= k < i && ((#[trigger] args@[k])@ == "-q"@ || args@[k]@ == "--quick"@)),
        decreases args.len() - i,
    {
        if eq_str(args[i].as_str(), "-q") || eq_str(args[i].as_str(), "--quick") {
            assert(args@[i as int]@ == "-q"@ || args@[i as int]@ == "--quick"@);
            quick = true;
        }
        i = i + 1;
    }
    let mut o: usize = 0;
    while o < args.len() && !(eq_str(args[o].as_str(), "-o") || eq_str(
        args[o].as_str(),
        "--output",
    ))
        invariant
            o <= args.len(),
            output_from(args@, 0) == output_from(args@, o as int),
        decreases args.len() - o,
    {
        o = o + 1;
    }
    let save_path: Option<String> = if o < args.len() && args.len() - o > 1 {
        Some(text::copy_str(&args[o + 1]))
    } else {
        None
    };
    Options { quick, save_path }
}

// ---- Old screenshots --------------------------------------------------------

/// A week, in seconds.
pub const WEEK_SECS: u64 = 604_800;

/// What stands between a prefix and a suffix of a text.
pub open spec fn between(s: Seq<char>, prefix: Seq<char>, suffix: Seq<char>) -> Option<Seq<char>> {
    if scan::occurs_at(s, prefix, 0) {
        let rest = s.skip(prefix.len() as int);
        if scan::occurs_at(rest, suffix, rest.len() - suffix.len()) {
            Some(rest.take(rest.len() - suffix.len()))
        } else {
            None
        }
    } else {
        None
    }
}

/// What stands before the first dash of a text, which is all of it where it
/// has none.
pub open spec fn before_dash(s: Seq<char>) -> Seq<char> {
    s.take(scan::find_from(s, '-', 0))
}

/// The time in the name of a screenshot, in seconds. More may follow it, after
/// a dash.
pub open spec fn name_time(name: Seq<char>) -> Option<u64> {
    match between(name, "kara-screenshot-"@, ".png"@) {
        Some(middle) => text::parsed_u64(before_dash(middle)),
        None => None,
    }
}

/// Whether the file with the name is a screenshot that is more than a week old.
pub open spec fn stale(name: Seq<char>, now_secs: int) -> bool {
    name_time(name) matches Some(t) && now_secs - t > WEEK_SECS
}

fn strip(s: &str, prefix: &str, suffix: &str) -> (out: Option<String>)
    ensures
        match out {
            Some(m) => between(s@, prefix@, suffix@) == Some(m@),
            None => between(s@, prefix@, suffix@) is None,
        },
{
    if !scan::starts_with(s, prefix) {
        return None;
    }
    let cs: Vec<char> = text::chars_of(s);
    let p: Vec<char> = text::chars_of(prefix);
    let q: Vec<char> = text::chars_of(suffix);
    let rest: String = text::string_of(&cs, p.len(), cs.len());
    assert(rest@ =~= s@.skip(prefix@.len() as int));
    if !scan::ends_with(rest.as_str(), suffix) {
        return None;
    }
    let mid: String = text::string_of(&cs, p.len(), cs.len() - q.len());
    assert(mid@ =~= rest@.take(rest@.len() - suffix@.len()));
    Some(mid)
}

/// Whether the file with the name is a screenshot that is more than a week
/// old.
pub fn is_stale(name: &str, now_secs: u64) -> (r: bool)
    ensures
        r == stale(name@, now_secs as int),
{
    match strip(name, "kara-screenshot-", ".png") {
        Some(middle) => {
            let cs: Vec<char> = text::chars_of(middle.as_str());
            let at: usize = scan::find_char(&cs, '-', 0);
            proof {
                scan::lemma_find_from(middle@, '-', 0);
            }
            let secs: String = text::string_of(&cs, 0, at);
            assert(secs@ =~= before_dash(middle@));
            match text::parse_u64(secs.as_str()) {
                Some(t) => now_secs > t && now_secs - t > WEEK_SECS,
                None => false,
            }
        },
        None => false,
    }
}

/// The name of a screenshot that is put together at a time.
pub open spec fn composed_name_of(secs: nat) -> Seq<char> {
    "kara-screenshot-"@ + text::decimal(secs) + ".png"@
}

/// The name of a screenshot that is put together at a time, in seconds.
pub fn composed_name(secs: u64) -> (out: String)
    ensures
        out@ == composed_name_of(secs as nat),
{
    let mut out: String = "kara-screenshot-".to_owned();
    text::push_decimal(&mut out, secs);
    out.push_str(".png");
    out
}

/// A screenshot that this tool has put together is thrown away when it is more
/// than a week old, and not before.
pub proof fn law_old_screenshots_go(secs: u64, now_secs: int)
    ensures
        name_time(composed_name_of(secs as nat)) == Some(secs),
        stale(composed_name_of(secs as nat), now_secs) <==> now_secs - secs > WEEK_SECS,
{
    let d = text::decimal(secs as nat);
    lemma_between("kara-screenshot-"@, d, ".png"@);
    text::lemma_decimal(secs as nat);
    lemma_digits_before_dash(d, Seq::empty());
    assert(d + Seq::<char>::empty() =~= d);
    text::law_decimal_reads_back(secs as nat);
}

/// A screenshot of the compositor is thrown away when it is more than a week
/// old, and not before: its name gives the second in which it was taken,
/// whatever follows.
pub proof fn law_old_captures_go(time_ns: u64, number: nat, now_secs: int)
    ensures
        name_time(crate::gate::requests::screenshot_name_of(time_ns as nat, number)) == Some(
            (time_ns / 1_000_000_000) as u64,
        ),
        stale(crate::gate::requests::screenshot_name_of(time_ns as nat, number), now_secs)
            <==> now_secs - time_ns / 1_000_000_000 > WEEK_SECS,
{
    reveal_strlit("-");
    let secs = (time_ns / 1_000_000_000) as nat;
    let p = "kara-screenshot-"@;
    let q = ".png"@;
    let d = text::decimal(secs);
    let tail = "-"@ + text::padded_decimal((time_ns % 1_000_000_000) as nat, 9) + "-"@
        + text::decimal(number);
    let name = crate::gate::requests::screenshot_name_of(time_ns as nat, number);
    assert(name =~= p + (d + tail) + q);
    lemma_between(p, d + tail, q);
    text::lemma_decimal(secs);
    lemma_digits_before_dash(d, tail);
    text::law_decimal_reads_back(secs);
}

proof fn lemma_between(prefix: Seq<char>, middle: Seq<char>, suffix: Seq<char>)
    ensures
        between(prefix + middle + suffix, prefix, suffix) == Some(middle),
{
    let s = prefix + middle + suffix;
    let rest = s.skip(prefix.len() as int);
    assert(rest =~= middle + suffix);
    assert(rest.take(rest.len() - suffix.len()) =~= middle);
    assert(scan::occurs_at(s, prefix, 0));
    assert forall|i: int| 0 <= i < suffix.len() implies #[trigger] rest[rest.len() - suffix.len()
        + i] == suffix[i] by {}
    assert(scan::occurs_at(rest, suffix, rest.len() - suffix.len()));
}

proof fn lemma_digits_before_dash(digits: Seq<char>, tail: Seq<char>)
    requires
        text::all_digits(digits),
        tail.len() == 0 || tail[0] == '-',
    ensures
        before_dash(digits + tail) == digits,
{
    let s = digits + tail;
    scan::lemma_find_from(s, '-', 0);
    let at = scan::find_from(s, '-', 0);
    if at < digits.len() {
        assert(s[at] == digits[at]);
        assert(text::digit_value(digits[at]) >= 0);
        assert(false);
    }
    if digits.len() < at {
        assert(s[digits.len() as int] == tail[0]);
        assert(false);
    }
    assert(s.take(at) =~= digits);
}

// ---- The desktop ------------------------------------------------------------

/// Whether the place and the size of an output fit pixel arithmetic.
pub open spec fn near(o: OutputInfo) -> bool {
    &&& -0x1000_0000 <= o.x <= 0x1000_0000
    &&& -0x1000_0000 <= o.y <= 0x1000_0000
    &&& 0 <= o.width <= 0x1000_0000
    &&& 0 <= o.height <= 0x1000_0000
}

/// Whether a rectangle encloses the outputs as tightly as can be, and is at
/// least one pixel wide and high.
pub open spec fn encloses(os: Seq<OutputInfo>, b: Rect) -> bool {
    &&& forall|i: int|
        0 <= i < os.len() ==> b.x <= (#[trigger] os[i]).x && b.y <= os[i].y && os[i].x
            + os[i].width <= b.x + b.w && os[i].y + os[i].height <= b.y + b.h
    &&& exists|i: int| 0 <= i < os.len() && (#[trigger] os[i]).x == b.x
    &&& exists|i: int| 0 <= i < os.len() && (#[trigger] os[i]).y == b.y
    &&& b.w >= 1
    &&& b.h >= 1
    &&& b.w == 1 || exists|i: int|
        0 <= i < os.len() && (#[trigger] os[i]).x + os[i].width == b.x + b.w
    &&& b.h == 1 || exists|i: int|
        0 <= i < os.len() && (#[trigger] os[i]).y + os[i].height == b.y + b.h
}

/// The rectangle that encloses all outputs; a common screen where there are
/// none.
pub fn desktop_bounds(outputs: &Vec<OutputInfo>) -> (b: Rect)
    requires
        forall|i: int| 0 <= i < outputs@.len() ==> near(#[trigger] outputs@[i]),
    ensures
        outputs@.len() == 0 ==> b == (Rect { x: 0, y: 0, w: 1920, h: 1080 }),
        outputs@.len() > 0 ==> encloses(outputs@, b),
{
    if outputs.len() == 0 {
        return Rect { x: 0, y: 0, w: 1920, h: 1080 };
    }
    assert(near(outputs@[0]));
    let mut min_x: i32 = outputs[0].x;
    let mut min_y: i32 = outputs[0].y;
    let mut max_x: i32 = outputs[0].x + outputs[0].width;
    let mut max_y: i32 = outputs[0].y + outputs[0].height;
    let ghost mut left: int = 0;
    let ghost mut top: int = 0;
    let ghost mut right: int = 0;
    let ghost mut bottom: int = 0;
    let mut i: usize = 1;
    while i < outputs.len()
        invariant
            1 <= i <= outputs.len(),
            forall|k: int| 0 <= k < outputs@.len() ==> near(#[trigger] outputs@[k]),
            0 <= left < i,
            0 <= top < i,
            0 <= right < i,
            0 <= bottom < i,
            min_x == outputs@[left].x,
            min_y == outputs@[top].y,
            max_x == outputs@[right].x + outputs@[right].width,
            max_y == outputs@[bottom].y + outputs@[bottom].height,
            forall|k: int|
                0 <= k < i ==> min_x <= (#[trigger] outputs@[k]).x && min_y <= outputs@[k].y
                    && outputs@[k].x + outputs@[k].width <= max_x && outputs@[k].y
                    + outputs@[k].height <= max_y,
        decreases outputs.len() - i,
    {
        let o: &OutputInfo = &outputs[i];
        assert(near(outputs@[i as int]));
        assert(near(outputs@[left]) && near(outputs@[top]) && near(outputs@[right]) && near(
            outputs@[bottom],
        ));
        if o.x < min_x {
            min_x = o.x;
            proof {
                left = i as int;
            }
        }
        if o.y < min_y {
            min_y = o.y;
            proof {
                top = i as int;
            }
        }
        if o.x + o.width > max_x {
            max_x = o.x + o.width;
            proof {
                right = i as int;
            }
        }
        if o.y + o.height > max_y {
            max_y = o.y + o.height;
            proof {
                bottom = i as int;
            }
        }
        i = i + 1;
    }
    assert(near(outputs@[left]) && near(outputs@[top]) && near(outputs@[right]) && near(
        outputs@[bottom],
    ));
    let b: Rect = Rect {
        x: min_x,
        y: min_y,
        w: max_i32(max_x - min_x, 1),
        h: max_i32(max_y - min_y, 1),
    };
    proof {
        assert(outputs@[left].x == b.x);
        assert(outputs@[top].y == b.y);
        assert(b.w == 1 || outputs@[right].x + outputs@[right].width == b.x + b.w);
        assert(b.h == 1 || outputs@[bottom].y + outputs@[bottom].height == b.y + b.h);
    }
    b
}

// ---- Pieces -----------------------------------------------------------------

/// The picture of one output as a piece of a screenshot: where its corner is
/// put.
#[derive(Debug)]
pub struct Piece {
    pub name: String,
    pub dx: i32,
    pub dy: i32,
}

/// Whether the rectangle and the output have a pixel in common.
pub open spec fn touches(r: Rect, o: OutputInfo) -> bool {
    &&& o.x < r.x + r.w
    &&& o.x + o.width > r.x
    &&& o.y < r.y + r.h
    &&& o.y + o.height > r.y
}

/// The outputs among the first `n` that the rectangle touches.
pub open spec fn touched(os: Seq<OutputInfo>, r: Rect, n: int) -> Seq<int>
    decreases n,
{
    if n <= 0 {
        Seq::empty()
    } else if touches(r, os[n - 1]) {
        touched(os, r, n - 1).push(n - 1)
    } else {
        touched(os, r, n - 1)
    }
}

/// Whether a piece is the picture of the output, put where it belongs in a
/// picture of the rectangle.
pub open spec fn piece_of(p: Piece, o: OutputInfo, r: Rect) -> bool {
    p.name@ == o.name@ && p.dx == o.x - r.x && p.dy == o.y - r.y
}

/// Whether a piece is that of the output with the index.
pub open spec fn piece_at(p: Piece, os: Seq<OutputInfo>, o: int, r: Rect) -> bool {
    0 <= o < os.len() && piece_of(p, os[o], r)
}

/// The pieces that a screenshot of a rectangle is put together from: one for
/// every output that the rectangle touches.
pub fn region_pieces(outputs: &Vec<OutputInfo>, r: Rect) -> (pieces: Vec<Piece>)
    requires
        forall|i: int| 0 <= i < outputs@.len() ==> near(#[trigger] outputs@[i]),
        r.within(0x1000_0000),
    ensures
        pieces@.len() == touched(outputs@, r, outputs@.len() as int).len(),
        forall|i: int|
            0 <= i < pieces@.len() ==> piece_at(
                #[trigger] pieces@[i],
                outputs@,
                touched(outputs@, r, outputs@.len() as int)[i],
                r,
            ),
{
    let mut pieces: Vec<Piece> = Vec::new();
    let mut i: usize = 0;
    while i < outputs.len()
        invariant
            i <= outputs.len(),
            r.within(0x1000_0000),
            forall|k: int| 0 <= k < outputs@.len() ==> near(#[trigger] outputs@[k]),
            pieces@.len() == touched(outputs@, r, i as int).len(),
            forall|k: int|
                0 <= k < pieces@.len() ==> piece_at(
                    #[trigger] pieces@[k],
                    outputs@,
                    touched(outputs@, r, i as int)[k],
                    r,
                ),
        decreases outputs.len() - i,
    {
        let o: &OutputInfo = &outputs[i];
        assert(near(outputs@[i as int]));
        let ghost before = pieces@;
        let ghost t = touched(outputs@, r, i as int);
        if o.x < r.x + r.w && o.x + o.width > r.x && o.y < r.y + r.h && o.y + o.height > r.y {
            pieces.push(Piece { name: text::copy_str(&o.name), dx: o.x - r.x, dy: o.y - r.y });
            assert(touched(outputs@, r, i + 1) == t.push(i as int));
            assert forall|k: int| 0 <= k < pieces@.len() implies piece_at(
                #[trigger] pieces@[k],
                outputs@,
                t.push(i as int)[k],
                r,
            ) by {
                if k < before.len() {
                    assert(pieces@[k] == before[k]);
                }
            }
        }
        i = i + 1;
    }
    pieces
}

/// Every pixel of the rectangle that some output shows is in the piece of that
/// output: nothing of the selection is left out.
pub proof fn law_pieces_cover_selection(os: Seq<OutputInfo>, r: Rect, o: int, px: int, py: int)
    requires
        0 <= o < os.len(),
        os[o].x <= px < os[o].x + os[o].width,
        os[o].y <= py < os[o].y + os[o].height,
        r.holds(px, py),
    ensures
        touched(os, r, os.len() as int).contains(o),
{
    lemma_touched(os, r, o, os.len() as int);
}

proof fn lemma_touched(os: Seq<OutputInfo>, r: Rect, o: int, n: int)
    requires
        0 <= o < n <= os.len(),
        touches(r, os[o]),
    ensures
        touched(os, r, n).contains(o),
    decreases n,
{
    let before = touched(os, r, n - 1);
    if o == n - 1 {
        assert(touched(os, r, n)[before.len() as int] == o);
    } else {
        lemma_touched(os, r, o, n - 1);
        let i = choose|i: int| 0 <= i < before.len() && before[i] == o;
        assert(touched(os, r, n)[i] == o);
    }
}

/// The size of the picture that the pieces are put into.
pub fn canvas_size(r: Rect) -> (s: Size)
    ensures
        s == (Size {
            w: geometry::max(r.w as int, 1) as i32,
            h: geometry::max(r.h as int, 1) as i32,
        }),
{
    Size { w: max_i32(r.w, 1), h: max_i32(r.h, 1) }
}

/// The colours where the compositor gives none.
pub fn default_theme() -> (c: ThemeColors)
    ensures
        c.bg == 0x111111,
        c.surface == 0x1b1b1b,
        c.text == 0xf2f2f2,
        c.text_muted == 0x5c5c5c,
        c.accent == 0x6bacac,
        c.accent_soft == 0x458588,
        c.border == 0x353535,
        c.border_px is None,
        c.border_radius is None,
        c.border_tile_path is None,
        c.bar_height is None,
        c.bar_background is None,
        c.bar_background_alpha is None,
        c.font_family is None,
{
    ThemeColors {
        bg: 0x111111,
        surface: 0x1b1b1b,
        text: 0xf2f2f2,
        text_muted: 0x5c5c5c,
        accent: 0x6bacac,
        accent_soft: 0x458588,
        border: 0x353535,
        border_px: None,
        border_radius: None,
        border_tile_path: None,
        bar_height: None,
        bar_background: None,
        bar_background_alpha: None,
        font_family: None,
    }
}

/// The file to save to is the argument behind the first one that asks for it.
pub proof fn law_file_follows_its_option(args: Seq<String>, i: int, j: int)
    requires
        0 <= j <= i < args.len(),
        args[i]@ == "-o"@ || args[i]@ == "--output"@,
        forall|k: int|
            j <= k < i ==> (#[trigger] args[k])@ != "-o"@ && args[k]@ != "--output"@,
    ensures
        output_from(args, j) == i,
    decreases i - j,
{
    if j < i {
        law_file_follows_its_option(args, i, j + 1);
    }
}

/// A screenshot of a rectangle is put together from just the outputs that share
/// a pixel with it, each where it stands seen from the corner of the rectangle.
pub proof fn law_pieces_touch_selection(os: Seq<OutputInfo>, r: Rect, n: int, k: int)
    requires
        0 <= n <= os.len(),
        0 <= k < touched(os, r, n).len(),
        r.w >= 1,
        r.h >= 1,
        forall|i: int| 0 <= i < os.len() ==> (#[trigger] os[i]).width >= 1 && os[i].height >= 1,
    ensures
        ({
            let o = touched(os, r, n)[k];
            let px = if os[o].x > r.x { os[o].x } else { r.x };
            let py = if os[o].y > r.y { os[o].y } else { r.y };
            &&& 0 <= o < n
            &&& r.holds(px as int, py as int)
            &&& os[o].x <= px < os[o].x + os[o].width
            &&& os[o].y <= py < os[o].y + os[o].height
        }),
    decreases n,
{
    if n > 0 && k < touched(os, r, n - 1).len() {
        law_pieces_touch_selection(os, r, n - 1, k);
    }
}

} // verus!
