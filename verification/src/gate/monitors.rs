//! Bringing up the monitors: which connectors are used, in which mode, how
//! the picture is turned and where the output stands.

use vstd::prelude::*;

use crate::gate::config;
use crate::gate::config::{find_monitor, MonitorConfig, Rotation};
use crate::gate::state::{MAX_OUTPUT, MAX_PLACE};
use crate::geometry::Size;
use crate::scan;
use crate::text;
use crate::text::eq_str;

verus! {

// ---- Graphics cards ---------------------------------------------------------

/// An entry of the list of connectors that the kernel keeps: its name, which
/// starts with that of the card, and what its status file holds.
#[derive(Debug)]
pub struct ConnectorEntry {
    pub name: String,
    pub status: Option<String>,
}

/// Whether the entry is a connector of the card with a monitor on it.
pub open spec fn entry_counts(e: ConnectorEntry, card: Seq<char>) -> bool {
    &&& scan::occurs_at(e.name@, card + "-"@, 0)
    &&& e.status matches Some(s) && scan::trimmed(s@) == "connected"@
}

/// How many of the first `n` entries are connectors of the card with a monitor
/// on them.
pub open spec fn entries_counted(es: Seq<ConnectorEntry>, card: Seq<char>, n: int) -> int
    decreases n,
{
    if n <= 0 {
        0
    } else {
        entries_counted(es, card, n - 1) + if entry_counts(es[n - 1], card) {
            1int
        } else {
            0
        }
    }
}

/// How many monitors are connected to the card.
pub fn count_connected(entries: &Vec<ConnectorEntry>, card: &str) -> (count: usize)
    ensures
        count == entries_counted(entries@, card@, entries@.len() as int),
{
    let mut prefix: String = card.to_owned();
    prefix.push_str("-");
    let mut count: usize = 0;
    let mut i: usize = 0;
    while i < entries.len()
        invariant
            i <= entries.len(),
            prefix@ == card@ + "-"@,
            count <= i,
            count == entries_counted(entries@, card@, i as int),
        decreases entries.len() - i,
    {
        let e: &ConnectorEntry = &entries[i];
        if scan::starts_with(e.name.as_str(), prefix.as_str()) {
            match &e.status {
                Some(s) => {
                    let status: String = scan::trim(s.as_str());
                    if eq_str(status.as_str(), "connected") {
                        count = count + 1;
                    }
                },
                None => {},
            }
        }
        i = i + 1;
    }
    count
}

/// A graphics card: whether it can render, how many monitors are connected to
/// it, and whether the system names it as the first.
#[derive(Clone, Copy, Debug, PartialEq, Eq, Structural)]
pub struct Card {
    pub renders: bool,
    pub connected: usize,
    pub hinted: bool,
}

/// Whether the card `a` is to be preferred to `b`: it has more monitors, or as
/// many and is named as the first where `b` is not.
pub open spec fn preferred_to(a: Card, b: Card) -> bool {
    a.connected > b.connected || a.connected == b.connected && a.hinted && !b.hinted
}

/// The card that renders for all: one that can, to which none that can is to
/// be preferred; the last of those. `None` where no card can render.
pub fn pick_card(cards: &Vec<Card>) -> (out: Option<usize>)
    ensures
        match out {
            Some(i) => {
                &&& i < cards.len()
                &&& cards@[i as int].renders
                &&& forall|k: int|
                    0 <= k < cards@.len() && (#[trigger] cards@[k]).renders ==> !preferred_to(
                        cards@[k],
                        cards@[i as int],
                    )
                &&& forall|k: int|
                    i < k < cards@.len() && (#[trigger] cards@[k]).renders ==> preferred_to(
                        cards@[i as int],
                        cards@[k],
                    )
            },
            None => forall|k: int| 0 <= k < cards@.len() ==> !(#[trigger] cards@[k]).renders,
        },
{
    let mut best: Option<usize> = None;
    let mut i: usize = 0;
    while i < cards.len()
        invariant
            i <= cards.len(),
            match best {
                Some(b) => {
                    &&& b < i
                    &&& cards@[b as int].renders
                    &&& forall|k: int|
                        0 <= k < i && (#[trigger] cards@[k]).renders ==> !preferred_to(
                            cards@[k],
                            cards@[b as int],
                        )
                    &&& forall|k: int|
                        b < k < i && (#[trigger] cards@[k]).renders ==> preferred_to(
                            cards@[b as int],
                            cards@[k],
                        )
                },
                None => forall|k: int| 0 <= k < i ==> !(#[trigger] cards@[k]).renders,
            },
        decreases cards.len() - i,
    {
        let c: Card = cards[i];
        if c.renders {
            match best {
                Some(b) => {
                    let d: Card = cards[b];
                    if !(d.connected > c.connected || d.connected == c.connected && d.hinted
                        && !c.hinted) {
                        best = Some(i);
                    }
                },
                None => {
                    best = Some(i);
                },
            }
        }
        i = i + 1;
    }
    best
}

// ---- Connectors -------------------------------------------------------------

#[derive(Clone, Copy, Debug, PartialEq, Eq, Structural)]
pub enum Interface {
    HdmiA,
    HdmiB,
    DisplayPort,
    EmbeddedDisplayPort,
    Vga,
    DviI,
    DviD,
    DviA,
    Lvds,
    Other,
}

/// The word for an interface in the name of a connector.
pub open spec fn interface_word(i: Interface) -> Seq<char> {
    match i {
        Interface::HdmiA => "HDMI-A"@,
        Interface::HdmiB => "HDMI-B"@,
        Interface::DisplayPort => "DP"@,
        Interface::EmbeddedDisplayPort => "eDP"@,
        Interface::Vga => "VGA"@,
        Interface::DviI => "DVI-I"@,
        Interface::DviD => "DVI-D"@,
        Interface::DviA => "DVI-A"@,
        Interface::Lvds => "LVDS"@,
        Interface::Other => "Unknown"@,
    }
}

/// The name of a connector, such as `DP-2`.
pub open spec fn connector_name(i: Interface, id: nat) -> Seq<char> {
    interface_word(i) + "-"@ + text::decimal(id)
}

/// The name of a connector.
pub fn format_connector_name(interface: Interface, id: u32) -> (name: String)
    ensures
        name@ == connector_name(interface, id as nat),
{
    let mut name: String = match interface {
        Interface::HdmiA => "HDMI-A".to_owned(),
        Interface::HdmiB => "HDMI-B".to_owned(),
        Interface::DisplayPort => "DP".to_owned(),
        Interface::EmbeddedDisplayPort => "eDP".to_owned(),
        Interface::Vga => "VGA".to_owned(),
        Interface::DviI => "DVI-I".to_owned(),
        Interface::DviD => "DVI-D".to_owned(),
        Interface::DviA => "DVI-A".to_owned(),
        Interface::Lvds => "LVDS".to_owned(),
        Interface::Other => "Unknown".to_owned(),
    };
    name.push_str("-");
    text::push_decimal(&mut name, id as u64);
    name
}

/// A mode of a monitor, in the orientation of the panel.
#[derive(Clone, Copy, Debug, PartialEq, Eq, Structural)]
pub struct VideoMode {
    pub w: u16,
    pub h: u16,
    /// Pictures per second.
    pub refresh: u32,
    /// Whether the monitor prefers it.
    pub preferred: bool,
}

/// A connector and what can be connected to it.
#[derive(Debug)]
pub struct Connector {
    pub interface: Interface,
    pub id: u32,
    pub connected: bool,
    pub modes: Vec<VideoMode>,
    /// For every encoder, the scanout engines that it can be fed from.
    pub encoders: Vec<Vec<u32>>,
}

impl Connector {
    pub open spec fn name(self) -> Seq<char> {
        connector_name(self.interface, self.id as nat)
    }

    /// Whether there is a picture to be shown on it.
    pub open spec fn usable(self) -> bool {
        self.connected && self.modes@.len() > 0
    }
}

/// Whether some of the settings switch the monitor off.
pub open spec fn switched_off(ms: Seq<MonitorConfig>, name: Seq<char>) -> bool {
    exists|i: int| 0 <= i < ms.len() && (#[trigger] ms[i]).name@ == name && !ms[i].enabled
}

fn is_switched_off(monitors: &Vec<MonitorConfig>, name: &str) -> (r: bool)
    ensures
        r == switched_off(monitors@, name@),
{
    let mut i: usize = 0;
    while i < monitors.len()
        invariant
            i <= monitors.len(),
            forall|k: int|
                0 <= k < i ==> !((#[trigger] monitors@[k]).name@ == name@ && !monitors@[k].enabled),
        decreases monitors.len() - i,
    {
        if eq_str(monitors[i].name.as_str(), name) && !monitors[i].enabled {
            assert(monitors@[i as int].name@ == name@);
            return true;
        }
        i = i + 1;
    }
    false
}

/// Whether all monitors are used although the settings switch them off: that
/// is so where nothing would be left to see.
pub fn force_enable_all(connectors: &Vec<Connector>, monitors: &Vec<MonitorConfig>) -> (r: bool)
    ensures
        r == (forall|i: int|
            0 <= i < connectors@.len() && (#[trigger] connectors@[i]).usable() ==> switched_off(
                monitors@,
                connectors@[i].name(),
            )),
{
    let mut i: usize = 0;
    while i < connectors.len()
        invariant
            i <= connectors.len(),
            forall|k: int|
                0 <= k < i && (#[trigger] connectors@[k]).usable() ==> switched_off(
                    monitors@,
                    connectors@[k].name(),
                ),
        decreases connectors.len() - i,
    {
        let c: &Connector = &connectors[i];
        if c.connected && c.modes.len() > 0 {
            let name: String = format_connector_name(c.interface, c.id);
            if !is_switched_off(monitors, name.as_str()) {
                assert(connectors@[i as int].usable());
                return false;
            }
        }
        i = i + 1;
    }
    true
}

// ---- Turning ----------------------------------------------------------------

/// How far the picture is turned clockwise.
#[derive(Clone, Copy, Debug, PartialEq, Eq, Structural)]
pub enum Turn {
    Normal,
    Quarter,
    Half,
    ThreeQuarters,
}

/// Whether turned pictures are first drawn upright and then turned as a
/// whole.
pub const ROTATION_TWO_PASS: bool = true;

/// Whether, if not that, every part is drawn turned.
pub const ROTATION_SMITHAY_NATIVE: bool = false;

/// What the settings ask for. A monitor that is turned to the left has its
/// upper edge on the left.
pub open spec fn turn_of(r: Rotation) -> Turn {
    match r {
        Rotation::Normal => Turn::Normal,
        Rotation::Left => Turn::ThreeQuarters,
        Rotation::Right => Turn::Quarter,
        Rotation::Flipped => Turn::Half,
    }
}

/// What the settings ask for.
pub fn config_rotation_transform(r: Rotation) -> (t: Turn)
    ensures
        t == turn_of(r),
{
    match r {
        Rotation::Normal => Turn::Normal,
        Rotation::Left => Turn::ThreeQuarters,
        Rotation::Right => Turn::Quarter,
        Rotation::Flipped => Turn::Half,
    }
}

/// How far the output is turned, and whether that takes two passes.
pub open spec fn resolved(r: Rotation) -> (Turn, bool) {
    let t = turn_of(r);
    if t == Turn::Normal {
        (Turn::Normal, false)
    } else if ROTATION_TWO_PASS {
        (t, true)
    } else if ROTATION_SMITHAY_NATIVE {
        (t, false)
    } else {
        (Turn::Normal, false)
    }
}

/// How far the output is turned, and whether that takes two passes.
pub fn resolve_rotation(r: Rotation) -> (out: (Turn, bool))
    ensures
        out == resolved(r),
{
    let t: Turn = config_rotation_transform(r);
    if t == Turn::Normal {
        (Turn::Normal, false)
    } else if ROTATION_TWO_PASS {
        (t, true)
    } else if ROTATION_SMITHAY_NATIVE {
        (t, false)
    } else {
        (Turn::Normal, false)
    }
}

/// Whether the width and the height change places.
pub open spec fn is_portrait(t: Turn) -> bool {
    t == Turn::Quarter || t == Turn::ThreeQuarters
}

// ---- Modes ------------------------------------------------------------------

/// Whether the mode has the size.
pub open spec fn sized(m: VideoMode, w: int, h: int) -> bool {
    m.w == w && m.h == h
}

/// Whether the mode is the one that is asked for.
pub open spec fn exact(m: VideoMode, w: int, h: int, refresh: Option<u32>) -> bool {
    sized(m, w, h) && (refresh matches Some(r) ==> m.refresh == r)
}

/// The first mode at or after `i` that is the one asked for; the number of
/// modes where there is none.
pub open spec fn exact_from(
    modes: Seq<VideoMode>,
    w: int,
    h: int,
    refresh: Option<u32>,
    i: int,
) -> int
    decreases modes.len() - i,
{
    if i >= modes.len() {
        modes.len() as int
    } else if exact(modes[i], w, h, refresh) {
        i
    } else {
        exact_from(modes, w, h, refresh, i + 1)
    }
}

/// Among the first `n` modes, the last of the fastest with the size.
pub open spec fn fastest(modes: Seq<VideoMode>, w: int, h: int, n: int) -> Option<int>
    decreases n,
{
    if n <= 0 {
        None
    } else {
        let before = fastest(modes, w, h, n - 1);
        if sized(modes[n - 1], w, h) && (before matches Some(b) ==> modes[n - 1].refresh
            >= modes[b].refresh) {
            Some(n - 1)
        } else {
            before
        }
    }
}

/// The first mode at or after `i` that the monitor prefers; the number of
/// modes where there is none.
pub open spec fn preferred_from(modes: Seq<VideoMode>, i: int) -> int
    decreases modes.len() - i,
{
    if i >= modes.len() {
        modes.len() as int
    } else if modes[i].preferred {
        i
    } else {
        preferred_from(modes, i + 1)
    }
}

/// The mode that the monitor prefers, else its first.
pub open spec fn fallback_mode(modes: Seq<VideoMode>) -> int {
    let p = preferred_from(modes, 0);
    if p < modes.len() {
        p
    } else {
        0
    }
}

/// The mode to use: the one that is asked for; else the fastest of that size;
/// else the one that the monitor prefers; else the first. The size that is
/// asked for is the one that the user sees.
pub open spec fn selected(
    modes: Seq<VideoMode>,
    requested: Option<(i32, i32)>,
    refresh: Option<u32>,
    portrait: bool,
) -> int {
    match requested {
        None => fallback_mode(modes),
        Some(r) => {
            let w = if portrait { r.1 as int } else { r.0 as int };
            let h = if portrait { r.0 as int } else { r.1 as int };
            let e = exact_from(modes, w, h, refresh, 0);
            if e < modes.len() {
                e
            } else {
                match fastest(modes, w, h, modes.len() as int) {
                    Some(i) => i,
                    None => fallback_mode(modes),
                }
            }
        },
    }
}

fn preferred_mode(modes: &Vec<VideoMode>) -> (i: usize)
    requires
        modes.len() > 0,
    ensures
        i == fallback_mode(modes@),
        i < modes.len(),
{
    let mut i: usize = 0;
    while i < modes.len()
        invariant
            i <= modes.len(),
            preferred_from(modes@, 0) == preferred_from(modes@, i as int),
        decreases modes.len() - i,
    {
        if modes[i].preferred {
            return i;
        }
        i = i + 1;
    }
    0
}

fn exact_mode(modes: &Vec<VideoMode>, w: i32, h: i32, refresh: Option<u32>) -> (out: Option<usize>)
    ensures
        match out {
            Some(i) => i < modes.len() && i == exact_from(modes@, w as int, h as int, refresh, 0),
            None => exact_from(modes@, w as int, h as int, refresh, 0) == modes@.len(),
        },
{
    let mut i: usize = 0;
    while i < modes.len()
        invariant
            i <= modes.len(),
            exact_from(modes@, w as int, h as int, refresh, 0) == exact_from(
                modes@,
                w as int,
                h as int,
                refresh,
                i as int,
            ),
        decreases modes.len() - i,
    {
        let m: VideoMode = modes[i];
        let fast: bool = match refresh {
            Some(r) => m.refresh == r,
            None => true,
        };
        if m.w as i32 == w && m.h as i32 == h && fast {
            return Some(i);
        }
        i = i + 1;
    }
    None
}

fn fastest_mode(modes: &Vec<VideoMode>, w: i32, h: i32) -> (out: Option<usize>)
    ensures
        match out {
            Some(i) => i < modes.len() && fastest(modes@, w as int, h as int, modes@.len() as int)
                == Some(i as int),
            None => fastest(modes@, w as int, h as int, modes@.len() as int) is None,
        },
{
    let mut best: Option<usize> = None;
    let mut i: usize = 0;
    while i < modes.len()
        invariant
            i <= modes.len(),
            match best {
                Some(b) => b < i && fastest(modes@, w as int, h as int, i as int) == Some(b as int),
                None => fastest(modes@, w as int, h as int, i as int) is None,
            },
        decreases modes.len() - i,
    {
        let m: VideoMode = modes[i];
        if m.w as i32 == w && m.h as i32 == h {
            match best {
                Some(b) => {
                    if m.refresh >= modes[b].refresh {
                        best = Some(i);
                    }
                },
                None => {
                    best = Some(i);
                },
            }
        }
        i = i + 1;
    }
    best
}

/// The mode to use.
pub fn select_mode(
    modes: &Vec<VideoMode>,
    requested: Option<(i32, i32)>,
    requested_refresh: Option<u32>,
    rotated_portrait: bool,
) -> (i: usize)
    requires
        modes.len() > 0,
    ensures
        i == selected(modes@, requested, requested_refresh, rotated_portrait),
        i < modes.len(),
{
    match requested {
        None => preferred_mode(modes),
        Some(r) => {
            let w: i32 = if rotated_portrait {
                r.1
            } else {
                r.0
            };
            let h: i32 = if rotated_portrait {
                r.0
            } else {
                r.1
            };
            match exact_mode(modes, w, h, requested_refresh) {
                Some(i) => i,
                None => {
                    match fastest_mode(modes, w, h) {
                        Some(i) => i,
                        None => preferred_mode(modes),
                    }
                },
            }
        },
    }
}

proof fn lemma_exact_from(modes: Seq<VideoMode>, w: int, h: int, refresh: Option<u32>, i: int)
    requires
        0 <= i <= modes.len(),
    ensures
        i <= exact_from(modes, w, h, refresh, i) <= modes.len(),
        exact_from(modes, w, h, refresh, i) < modes.len() ==> exact(
            modes[exact_from(modes, w, h, refresh, i)],
            w,
            h,
            refresh,
        ),
        forall|k: int|
            i <= k < exact_from(modes, w, h, refresh, i) ==> !exact(
                #[trigger] modes[k],
                w,
                h,
                refresh,
            ),
    decreases modes.len() - i,
{
    if i < modes.len() && !exact(modes[i], w, h, refresh) {
        lemma_exact_from(modes, w, h, refresh, i + 1);
    }
}

proof fn lemma_fastest(modes: Seq<VideoMode>, w: int, h: int, n: int)
    requires
        0 <= n <= modes.len(),
    ensures
        match fastest(modes, w, h, n) {
            Some(b) => 0 <= b < n && sized(modes[b], w, h) && forall|k: int|
                0 <= k < n && sized(#[trigger] modes[k], w, h) ==> modes[k].refresh
                    <= modes[b].refresh,
            None => forall|k: int| 0 <= k < n ==> !sized(#[trigger] modes[k], w, h),
        },
    decreases n,
{
    if n > 0 {
        lemma_fastest(modes, w, h, n - 1);
    }
}

/// Where the monitor has modes of the size that is asked for, one of them is
/// used: one with the refresh rate that is asked for, or, where none has it,
/// one with the highest.
pub proof fn law_requested_size_is_used(
    modes: Seq<VideoMode>,
    w: i32,
    h: i32,
    refresh: Option<u32>,
    portrait: bool,
    k: int,
)
    requires
        0 <= k < modes.len(),
        sized(modes[k], if portrait { h as int } else { w as int }, if portrait {
            w as int
        } else {
            h as int
        }),
    ensures
        ({
            let m = modes[selected(modes, Some((w, h)), refresh, portrait)];
            let (pw, ph) = if portrait {
                (h as int, w as int)
            } else {
                (w as int, h as int)
            };
            &&& 0 <= selected(modes, Some((w, h)), refresh, portrait) < modes.len()
            &&& sized(m, pw, ph)
            &&& (refresh matches Some(r) ==> m.refresh == r || forall|j: int|
                0 <= j < modes.len() && sized(#[trigger] modes[j], pw, ph) ==> modes[j].refresh
                    <= m.refresh && modes[j].refresh != r)
        }),
{
    let (pw, ph) = if portrait {
        (h as int, w as int)
    } else {
        (w as int, h as int)
    };
    lemma_exact_from(modes, pw, ph, refresh, 0);
    lemma_fastest(modes, pw, ph, modes.len() as int);
    let e = exact_from(modes, pw, ph, refresh, 0);
    if e == modes.len() {
        assert forall|j: int| 0 <= j < modes.len() implies !exact(
            #[trigger] modes[j],
            pw,
            ph,
            refresh,
        ) by {}
        assert(!exact(modes[k], pw, ph, refresh));
    }
}

// ---- Scanout engines --------------------------------------------------------

/// A scanout engine of a card that an output uses.
#[derive(Clone, Copy, Debug, PartialEq, Eq, Structural)]
pub struct CrtcUse {
    pub node: u64,
    pub crtc: u32,
}

/// The first of the engines at or after `i` that is free; the number of
/// engines where none is.
pub open spec fn free_from(cs: Seq<u32>, node: u64, used: Seq<CrtcUse>, i: int) -> int
    decreases cs.len() - i,
{
    if i >= cs.len() {
        cs.len() as int
    } else if !used.contains(CrtcUse { node, crtc: cs[i] }) {
        i
    } else {
        free_from(cs, node, used, i + 1)
    }
}

/// The first free engine, if there is one.
pub open spec fn free_crtc(cs: Seq<u32>, node: u64, used: Seq<CrtcUse>) -> Option<u32> {
    let i = free_from(cs, node, used, 0);
    if i < cs.len() {
        Some(cs[i])
    } else {
        None
    }
}

/// The first free engine of the encoders at or after `e`, else the first free
/// one of the card.
pub open spec fn crtc_from(
    encoders: Seq<Vec<u32>>,
    all: Seq<u32>,
    node: u64,
    used: Seq<CrtcUse>,
    e: int,
) -> Option<u32>
    decreases encoders.len() - e,
{
    if e >= encoders.len() {
        free_crtc(all, node, used)
    } else {
        match free_crtc(encoders[e]@, node, used) {
            Some(c) => Some(c),
            None => crtc_from(encoders, all, node, used, e + 1),
        }
    }
}

fn is_used(used: &Vec<CrtcUse>, u: CrtcUse) -> (r: bool)
    ensures
        r == used@.contains(u),
{
    let mut i: usize = 0;
    while i < used.len()
        invariant
            i <= used.len(),
            forall|k: int| 0 <= k < i ==> #[trigger] used@[k] != u,
        decreases used.len() - i,
    {
        if used[i] == u {
            return true;
        }
        i = i + 1;
    }
    false
}

fn first_free(cs: &Vec<u32>, node: u64, used: &Vec<CrtcUse>) -> (out: Option<u32>)
    ensures
        out == free_crtc(cs@, node, used@),
{
    let mut i: usize = 0;
    while i < cs.len()
        invariant
            i <= cs.len(),
            free_from(cs@, node, used@, 0) == free_from(cs@, node, used@, i as int),
        decreases cs.len() - i,
    {
        if !is_used(used, CrtcUse { node, crtc: cs[i] }) {
            return Some(cs[i]);
        }
        i = i + 1;
    }
    None
}

/// A free scanout engine for a connector: the first that one of its encoders
/// can be fed from, else any of the card.
pub fn find_crtc_for_connector(
    encoders: &Vec<Vec<u32>>,
    crtcs: &Vec<u32>,
    node: u64,
    used: &Vec<CrtcUse>,
) -> (out: Option<u32>)
    ensures
        out == crtc_from(encoders@, crtcs@, node, used@, 0),
{
    let mut e: usize = 0;
    while e < encoders.len()
        invariant
            e <= encoders.len(),
            crtc_from(encoders@, crtcs@, node, used@, 0) == crtc_from(
                encoders@,
                crtcs@,
                node,
                used@,
                e as int,
            ),
        decreases encoders.len() - e,
    {
        match first_free(&encoders[e], node, used) {
            Some(c) => {
                return Some(c);
            },
            None => {},
        }
        e = e + 1;
    }
    first_free(crtcs, node, used)
}

proof fn lemma_free_from(cs: Seq<u32>, node: u64, used: Seq<CrtcUse>, i: int)
    requires
        0 <= i <= cs.len(),
    ensures
        i <= free_from(cs, node, used, i) <= cs.len(),
        free_from(cs, node, used, i) < cs.len() ==> !used.contains(
            CrtcUse { node, crtc: cs[free_from(cs, node, used, i)] },
        ),
    decreases cs.len() - i,
{
    if i < cs.len() && used.contains(CrtcUse { node, crtc: cs[i] }) {
        lemma_free_from(cs, node, used, i + 1);
    }
}

proof fn lemma_crtc_from(
    encoders: Seq<Vec<u32>>,
    all: Seq<u32>,
    node: u64,
    used: Seq<CrtcUse>,
    e: int,
)
    requires
        0 <= e <= encoders.len(),
    ensures
        crtc_from(encoders, all, node, used, e) matches Some(c) ==> !used.contains(
            CrtcUse { node, crtc: c },
        ),
    decreases encoders.len() - e,
{
    if e < encoders.len() {
        lemma_free_from(encoders[e]@, node, used, 0);
        lemma_crtc_from(encoders, all, node, used, e + 1);
    } else {
        lemma_free_from(all, node, used, 0);
    }
}

// ---- Planning ---------------------------------------------------------------

/// How a connector is used.
#[derive(Debug)]
pub struct OutputPlan {
    pub name: String,
    pub mode: usize,
    pub crtc: u32,
    pub turn: Turn,
    pub two_pass: bool,
    /// The size of the panel.
    pub panel: Size,
    /// The size that the user sees.
    pub size: Size,
    pub x: i32,
    pub y: i32,
}

/// What has been given away so far: the scanout engines in use, and where the
/// next output stands for which the settings name no place.
#[derive(Debug)]
pub struct Planner {
    pub used: Vec<CrtcUse>,
    pub next_x: i32,
}

/// The settings of the monitor with the name.
pub open spec fn settings_of(ms: Seq<MonitorConfig>, name: Seq<char>) -> Option<MonitorConfig> {
    let i = config::monitor_from(ms, name, 0);
    if i < ms.len() {
        Some(ms[i])
    } else {
        None
    }
}

/// Whether the connector is passed over: no monitor is there, or the settings
/// switch it off and not all of them are to be used.
pub open spec fn passed_over(c: Connector, ms: Seq<MonitorConfig>, force: bool) -> bool {
    ||| !c.usable()
    ||| settings_of(ms, c.name()) matches Some(m) && !m.enabled && !force
}

/// How far the output of a connector is turned, and whether in two passes.
pub open spec fn turned(c: Connector, ms: Seq<MonitorConfig>) -> (Turn, bool) {
    match settings_of(ms, c.name()) {
        Some(m) => resolved(m.rotation),
        None => resolved(Rotation::Normal),
    }
}

/// The mode of the output of a connector.
pub open spec fn planned_mode(c: Connector, ms: Seq<MonitorConfig>) -> int {
    let portrait = is_portrait(turned(c, ms).0);
    match settings_of(ms, c.name()) {
        Some(m) => selected(c.modes@, m.resolution, m.refresh, portrait),
        None => selected(c.modes@, None, None, portrait),
    }
}

/// Where the output of a connector stands.
pub open spec fn planned_place(c: Connector, ms: Seq<MonitorConfig>, next_x: i32) -> (i32, i32) {
    match settings_of(ms, c.name()) {
        Some(m) => match m.position {
            Some(p) => p,
            None => (next_x, 0),
        },
        None => (next_x, 0),
    }
}

/// What the plan for a connector is, with the engine that it gets.
pub open spec fn plan_is(
    p: OutputPlan,
    c: Connector,
    ms: Seq<MonitorConfig>,
    next_x: i32,
    crtc: u32,
) -> bool {
    let mode = c.modes@[planned_mode(c, ms)];
    let (turn, two_pass) = turned(c, ms);
    let place = planned_place(c, ms, next_x);
    &&& p.name@ == c.name()
    &&& p.mode == planned_mode(c, ms)
    &&& p.crtc == crtc
    &&& p.turn == turn
    &&& p.two_pass == two_pass
    &&& p.panel == (Size { w: mode.w as i32, h: mode.h as i32 })
    &&& p.size == if is_portrait(turn) {
        Size { w: mode.h as i32, h: mode.w as i32 }
    } else {
        Size { w: mode.w as i32, h: mode.h as i32 }
    }
    &&& p.x == place.0
    &&& p.y == place.1
}

impl Planner {
    pub fn new() -> (p: Planner)
        ensures
            p.used@ == Seq::<CrtcUse>::empty(),
            p.next_x == 0,
    {
        Planner { used: Vec::new(), next_x: 0 }
    }

    /// Plans the output of a connector and takes the scanout engine for it;
    /// `None` where the connector is passed over or no engine is left.
    pub fn plan(
        &mut self,
        connector: &Connector,
        crtcs: &Vec<u32>,
        node: u64,
        monitors: &Vec<MonitorConfig>,
        force: bool,
    ) -> (out: Option<OutputPlan>)
        requires
            forall|i: int| 0 <= i < monitors@.len() ==> (#[trigger] monitors@[i]).fits(),
            -MAX_PLACE <= old(self).next_x <= MAX_PLACE,
        ensures
            final(self).next_x == old(self).next_x,
            out is None <==> passed_over(*connector, monitors@, force) || crtc_from(
                connector.encoders@,
                crtcs@,
                node,
                old(self).used@,
                0,
            ) is None,
            out is None ==> final(self).used@ == old(self).used@,
            out matches Some(p) ==> {
                &&& crtc_from(connector.encoders@, crtcs@, node, old(self).used@, 0) matches Some(
                    crtc,
                ) && plan_is(p, *connector, monitors@, old(self).next_x, crtc)
                &&& final(self).used@ == old(self).used@.push(CrtcUse { node, crtc: p.crtc })
                &&& p.mode < connector.modes@.len()
                &&& 0 <= p.size.w <= MAX_OUTPUT
                &&& 0 <= p.size.h <= MAX_OUTPUT
                &&& -MAX_PLACE <= p.x <= MAX_PLACE
                &&& -MAX_PLACE <= p.y <= MAX_PLACE
            },
    {
        if !connector.connected || connector.modes.len() == 0 {
            return None;
        }
        let name: String = format_connector_name(connector.interface, connector.id);
        let mut rotation: Rotation = Rotation::Normal;
        let mut resolution: Option<(i32, i32)> = None;
        let mut refresh: Option<u32> = None;
        let mut x: i32 = self.next_x;
        let mut y: i32 = 0;
        match find_monitor(monitors, name.as_str()) {
            Some(i) => {
                let m: &MonitorConfig = &monitors[i];
                assert(monitors@[i as int].fits());
                if !m.enabled && !force {
                    return None;
                }
                rotation = m.rotation;
                resolution = m.resolution;
                refresh = m.refresh;
                match m.position {
                    Some(p) => {
                        x = p.0;
                        y = p.1;
                    },
                    None => {},
                }
            },
            None => {},
        }
        let (turn, two_pass): (Turn, bool) = resolve_rotation(rotation);
        let portrait: bool = turn == Turn::Quarter || turn == Turn::ThreeQuarters;
        let mode: usize = select_mode(&connector.modes, resolution, refresh, portrait);
        let crtc: u32 = match find_crtc_for_connector(
            &connector.encoders,
            crtcs,
            node,
            &self.used,
        ) {
            Some(c) => c,
            None => {
                return None;
            },
        };
        self.used.push(CrtcUse { node, crtc });
        let m: VideoMode = connector.modes[mode];
        let panel: Size = Size { w: m.w as i32, h: m.h as i32 };
        let size: Size = if portrait {
            Size { w: panel.h, h: panel.w }
        } else {
            panel
        };
        Some(OutputPlan { name, mode, crtc, turn, two_pass, panel, size, x, y })
    }

    /// Notes that a planned output shows its picture: the next one without a
    /// place in the settings stands to its right.
    pub fn came_up(&mut self, plan: &OutputPlan)
        requires
            0 <= plan.panel.w <= MAX_OUTPUT,
            -MAX_PLACE <= old(self).next_x <= MAX_PLACE,
        ensures
            final(self).used@ == old(self).used@,
            final(self).next_x == old(self).next_x + plan.panel.w,
    {
        self.next_x = self.next_x + plan.panel.w;
    }
}

proof fn lemma_monitor_from(ms: Seq<MonitorConfig>, name: Seq<char>, i: int)
    requires
        0 <= i <= ms.len(),
    ensures
        i <= config::monitor_from(ms, name, i) <= ms.len(),
        config::monitor_from(ms, name, i) < ms.len() ==> ms[config::monitor_from(
            ms,
            name,
            i,
        )].name@ == name,
    decreases ms.len() - i,
{
    if i < ms.len() && ms[i].name@ != name {
        lemma_monitor_from(ms, name, i + 1);
    }
}

/// Where there is a monitor, there is one that is not passed over, whatever
/// the settings switch off.
pub proof fn law_some_monitor_is_used(cs: Seq<Connector>, ms: Seq<MonitorConfig>, k: int)
    requires
        0 <= k < cs.len(),
        cs[k].usable(),
    ensures
        ({
            let force = forall|i: int|
                0 <= i < cs.len() && (#[trigger] cs[i]).usable() ==> switched_off(ms, cs[i].name());
            exists|i: int| 0 <= i < cs.len() && !passed_over(#[trigger] cs[i], ms, force)
        }),
{
    let force = forall|i: int|
        0 <= i < cs.len() && (#[trigger] cs[i]).usable() ==> switched_off(ms, cs[i].name());
    if force {
        assert(!passed_over(cs[k], ms, force));
    } else {
        let i = choose|i: int|
            0 <= i < cs.len() && (#[trigger] cs[i]).usable() && !switched_off(ms, cs[i].name());
        lemma_monitor_from(ms, cs[i].name(), 0);
        assert(!passed_over(cs[i], ms, force));
    }
}

/// No two outputs get the same scanout engine: the engine of a new plan was
/// free before.
pub proof fn law_engines_are_not_shared(
    c: Connector,
    crtcs: Seq<u32>,
    node: u64,
    used: Seq<CrtcUse>,
    ms: Seq<MonitorConfig>,
    next_x: i32,
    p: OutputPlan,
)
    requires
        used.no_duplicates(),
        crtc_from(c.encoders@, crtcs, node, used, 0) matches Some(crtc) && plan_is(
            p,
            c,
            ms,
            next_x,
            crtc,
        ),
    ensures
        used.push(CrtcUse { node, crtc: p.crtc }).no_duplicates(),
{
    lemma_crtc_from(c.encoders@, crtcs, node, used, 0);
}

proof fn lemma_exact_at(
    modes: Seq<VideoMode>,
    w: int,
    h: int,
    refresh: Option<u32>,
    i: int,
)
    requires
        0 <= i <= modes.len(),
    ensures
        i <= exact_from(modes, w, h, refresh, i) <= modes.len(),
        exact_from(modes, w, h, refresh, i) < modes.len() ==> exact(
            modes[exact_from(modes, w, h, refresh, i)],
            w,
            h,
            refresh,
        ),
        forall|k: int|
            i <= k < exact_from(modes, w, h, refresh, i) ==> !exact(
                #[trigger] modes[k],
                w,
                h,
                refresh,
            ),
    decreases modes.len() - i,
{
    if i < modes.len() && !exact(modes[i], w, h, refresh) {
        lemma_exact_at(modes, w, h, refresh, i + 1);
    }
}

proof fn lemma_fastest_of(modes: Seq<VideoMode>, w: int, h: int, n: int)
    requires
        0 <= n <= modes.len(),
    ensures
        match fastest(modes, w, h, n) {
            Some(f) => {
                &&& 0 <= f < n
                &&& modes[f].w == w && modes[f].h == h
                &&& forall|k: int|
                    0 <= k < n && (#[trigger] modes[k]).w == w && modes[k].h == h
                        ==> modes[k].refresh <= modes[f].refresh
            },
            None => forall|k: int|
                0 <= k < n ==> !((#[trigger] modes[k]).w == w && modes[k].h == h),
        },
    decreases n,
{
    if n > 0 {
        lemma_fastest_of(modes, w, h, n - 1);
    }
}

proof fn lemma_preferred_at(modes: Seq<VideoMode>, i: int)
    requires
        0 <= i <= modes.len(),
    ensures
        i <= preferred_from(modes, i) <= modes.len(),
        preferred_from(modes, i) < modes.len() ==> modes[preferred_from(modes, i)].preferred,
        forall|k: int| i <= k < preferred_from(modes, i) ==> !(#[trigger] modes[k]).preferred,
    decreases modes.len() - i,
{
    if i < modes.len() && !modes[i].preferred {
        lemma_preferred_at(modes, i + 1);
    }
}

/// Of the modes of a monitor the one is used that has the size and the speed
/// asked for; where none has both, the fastest of that size; where none has the
/// size, or none is asked for, the one that the monitor prefers, or its first.
/// On a monitor that is turned by a quarter, width and height change places.
pub proof fn law_mode_is_the_best_there_is(
    modes: Seq<VideoMode>,
    w: i32,
    h: i32,
    refresh: Option<u32>,
    portrait: bool,
    k: int,
)
    requires
        0 <= k < modes.len(),
    ensures
        ({
            let s = selected(modes, Some((w, h)), refresh, portrait);
            let n = selected(modes, None, refresh, portrait);
            let fits = |m: VideoMode|
                if portrait {
                    m.w == h && m.h == w
                } else {
                    m.w == w && m.h == h
                };
            &&& 0 <= s < modes.len()
            &&& fits(modes[k]) ==> fits(modes[s])
            &&& fits(modes[k]) && (refresh matches Some(r) ==> modes[k].refresh == r) ==> (refresh
                matches Some(r) ==> modes[s].refresh == r) && s <= k
            &&& fits(modes[k]) && refresh is Some ==> modes[s].refresh == refresh->0
                || modes[k].refresh <= modes[s].refresh
            &&& !fits(modes[s]) ==> s == n
            &&& 0 <= n < modes.len()
            &&& modes[k].preferred ==> modes[n].preferred && n <= k
            &&& !modes[n].preferred ==> n == 0
        }),
{
    let (a, b) = if portrait {
        (h as int, w as int)
    } else {
        (w as int, h as int)
    };
    lemma_exact_at(modes, a, b, refresh, 0);
    lemma_fastest_of(modes, a, b, modes.len() as int);
    lemma_preferred_at(modes, 0);
}

/// The output of a connector shows the mode that was chosen for it, as the user
/// sees it: on a monitor that is turned by a quarter the width is the height of
/// the panel. It stands where the settings put it, or else to the right of the
/// outputs before it.
pub proof fn law_plan_follows_the_settings(
    p: OutputPlan,
    c: Connector,
    ms: Seq<MonitorConfig>,
    next_x: i32,
    crtc: u32,
    i: int,
)
    requires
        plan_is(p, c, ms, next_x, crtc),
        0 <= i < ms.len(),
        ms[i].name@ == c.name(),
        forall|j: int| 0 <= j < i ==> (#[trigger] ms[j]).name@ != c.name(),
    ensures
        ({
            let m = ms[i];
            let quarter = p.turn == Turn::Quarter || p.turn == Turn::ThreeQuarters;
            &&& m.position matches Some(at) ==> p.x == at.0 && p.y == at.1
            &&& m.position is None ==> p.x == next_x && p.y == 0
            &&& quarter ==> p.size.w == p.panel.h && p.size.h == p.panel.w
            &&& !quarter ==> p.size == p.panel
            &&& p.mode == selected(c.modes@, m.resolution, m.refresh, quarter)
            &&& p.panel.w == c.modes@[p.mode as int].w as i32
            &&& p.panel.h == c.modes@[p.mode as int].h as i32
            &&& p.turn != Turn::Normal ==> {
                &&& m.rotation == Rotation::Left ==> p.turn == Turn::ThreeQuarters
                &&& m.rotation == Rotation::Right ==> p.turn == Turn::Quarter
                &&& m.rotation == Rotation::Flipped ==> p.turn == Turn::Half
            }
            &&& m.rotation == Rotation::Normal ==> p.turn == Turn::Normal && !p.two_pass
        }),
{
    lemma_first_monitor(ms, c.name(), 0, i);
}

proof fn lemma_first_monitor(ms: Seq<MonitorConfig>, name: Seq<char>, j: int, i: int)
    requires
        0 <= j <= i < ms.len(),
        ms[i].name@ == name,
        forall|k: int| j <= k < i ==> (#[trigger] ms[k]).name@ != name,
    ensures
        config::monitor_from(ms, name, j) == i,
    decreases i - j,
{
    if j < i {
        lemma_first_monitor(ms, name, j + 1, i);
    }
}

/// A connector counts for a card where its name begins with that of the card
/// and a hyphen, and its status, but for space around it, says that a monitor is
/// connected; no other counts.
pub proof fn law_connected_monitors_are_counted(
    es: Seq<ConnectorEntry>,
    card: Seq<char>,
    e: ConnectorEntry,
)
    ensures
        entries_counted(es.push(e), card, (es.len() + 1) as int) == entries_counted(
            es,
            card,
            es.len() as int,
        ) + (if scan::occurs_at(e.name@, card + "-"@, 0) && e.status is Some && scan::trimmed(
            e.status->0@,
        ) == "connected"@ {
            1int
        } else {
            0
        }),
        entries_counted(es, card, 0) == 0,
{
    lemma_counted_prefix(es, e, card, es.len() as int);
}

proof fn lemma_counted_prefix(es: Seq<ConnectorEntry>, e: ConnectorEntry, card: Seq<char>, n: int)
    requires
        n <= es.len(),
    ensures
        entries_counted(es.push(e), card, n) == entries_counted(es, card, n),
    decreases n,
{
    if n > 0 {
        lemma_counted_prefix(es, e, card, n - 1);
    }
}

} // verus!
