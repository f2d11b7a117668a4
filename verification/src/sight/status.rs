//! The state of the machine that the bar shows: how often it is looked at,
//! and what the texts mean that the system gives.

use vstd::prelude::*;

use crate::geometry;
use crate::scan;
use crate::text;
use crate::text::eq_str;

verus! {

// ---- States -----------------------------------------------------------------

#[derive(Clone, Copy, Debug, PartialEq, Eq, Structural)]
pub struct VolumeState {
    pub valid: bool,
    pub muted: bool,
    pub percent: i32,
}

#[derive(Debug)]
pub struct NetworkState {
    pub valid: bool,
    pub connected: bool,
    pub wireless: bool,
    pub signal_percent: i32,
    pub ifname: String,
    pub ssid: String,
}

#[derive(Clone, Copy, Debug, PartialEq, Eq, Structural)]
pub struct BatteryState {
    pub valid: bool,
    pub charging: bool,
    pub full: bool,
    pub percent: i32,
}

#[derive(Clone, Copy, Debug, PartialEq, Eq, Structural)]
pub struct BrightnessState {
    pub valid: bool,
    pub percent: i32,
}

#[derive(Debug)]
pub struct MediaState {
    pub valid: bool,
    pub playing: bool,
    pub paused: bool,
    pub text: String,
}

#[derive(Clone, Copy, Debug, PartialEq, Eq, Structural)]
pub struct MemoryState {
    pub valid: bool,
    pub used_percent: i32,
    pub used_mb: i64,
    pub total_mb: i64,
}

#[derive(Clone, Copy, Debug, PartialEq, Eq, Structural)]
pub struct CpuState {
    pub valid: bool,
    pub usage_percent: i32,
}

/// How much work the machine has counted, and how much of it was idling.
#[derive(Clone, Copy, Debug, PartialEq, Eq, Structural)]
pub struct CpuSample {
    pub total: u64,
    pub idle: u64,
}

/// What has been read of the machine. Only what is due need be read.
#[derive(Debug)]
pub struct Readings {
    pub volume: VolumeState,
    pub network: NetworkState,
    pub battery: BatteryState,
    pub brightness: BrightnessState,
    pub media: MediaState,
    pub memory: MemoryState,
    /// The counts, where they could be read.
    pub cpu: Option<CpuSample>,
    /// The share of work since the last counts, in percent.
    pub cpu_usage: i32,
}

/// What is due to be read.
#[derive(Clone, Copy, Debug, PartialEq, Eq, Structural)]
pub struct Due {
    pub volume: bool,
    pub network: bool,
    pub battery: bool,
    pub brightness: bool,
    pub media: bool,
    pub memory: bool,
    pub cpu: bool,
}

/// The state of the machine as it was last read, and when that was, in
/// nanoseconds.
#[derive(Debug)]
pub struct StatusCache {
    pub volume: VolumeState,
    pub network: NetworkState,
    pub battery: BatteryState,
    pub brightness: BrightnessState,
    pub media: MediaState,
    pub memory: MemoryState,
    pub cpu: CpuState,
    pub last_volume: Option<u64>,
    pub last_network: Option<u64>,
    pub last_battery: Option<u64>,
    pub last_brightness: Option<u64>,
    pub last_media: Option<u64>,
    pub last_memory: Option<u64>,
    pub last_cpu: Option<u64>,
    pub prev_cpu: CpuSample,
}

/// Nothing is known of the network.
pub open spec fn no_network(n: NetworkState) -> bool {
    &&& !n.valid
    &&& !n.connected
    &&& !n.wireless
    &&& n.signal_percent == 0
    &&& n.ifname@ == Seq::<char>::empty()
    &&& n.ssid@ == Seq::<char>::empty()
}

/// Nothing is known of what is played.
pub open spec fn no_media(m: MediaState) -> bool {
    &&& !m.valid
    &&& !m.playing
    &&& !m.paused
    &&& m.text@ == Seq::<char>::empty()
}

fn empty_text() -> (s: String)
    ensures
        s@ == Seq::<char>::empty(),
{
    let s: String = String::new();
    assert(s@ =~= Seq::<char>::empty());
    s
}

/// Nothing is known of the network.
pub fn unknown_network() -> (n: NetworkState)
    ensures
        no_network(n),
{
    NetworkState {
        valid: false,
        connected: false,
        wireless: false,
        signal_percent: 0,
        ifname: empty_text(),
        ssid: empty_text(),
    }
}

/// Nothing is known of what is played.
pub fn unknown_media() -> (m: MediaState)
    ensures
        no_media(m),
{
    MediaState { valid: false, playing: false, paused: false, text: empty_text() }
}

// ---- Throttling -------------------------------------------------------------

/// Whether so many milliseconds have gone by since something was last read.
pub open spec fn stale(last: Option<u64>, now: u64, interval_ms: u64) -> bool {
    match last {
        None => true,
        Some(t) => (if now > t {
            (now - t) / 1_000_000
        } else {
            0
        }) >= interval_ms,
    }
}

impl StatusCache {
    /// What is due to be read.
    pub open spec fn due_at(self, force: bool, now: u64) -> Due {
        Due {
            volume: force || stale(self.last_volume, now, 500),
            network: force || stale(self.last_network, now, 2000),
            battery: force || stale(self.last_battery, now, 5000),
            brightness: force || stale(self.last_brightness, now, 1500),
            media: force || stale(self.last_media, now, 2000),
            memory: force || stale(self.last_memory, now, 1000),
            cpu: force || stale(self.last_cpu, now, 2000),
        }
    }

    /// A cache of which nothing has been read.
    pub fn new() -> (c: StatusCache)
        ensures
            c.volume == (VolumeState { valid: false, muted: false, percent: 0 }),
            no_network(c.network),
            c.battery == (BatteryState { valid: false, charging: false, full: false, percent: 0 }),
            c.brightness == (BrightnessState { valid: false, percent: 0 }),
            no_media(c.media),
            c.memory == (MemoryState { valid: false, used_percent: 0, used_mb: 0, total_mb: 0 }),
            c.cpu == (CpuState { valid: false, usage_percent: 0 }),
            c.last_volume is None,
            c.last_network is None,
            c.last_battery is None,
            c.last_brightness is None,
            c.last_media is None,
            c.last_memory is None,
            c.last_cpu is None,
            c.prev_cpu == (CpuSample { total: 0, idle: 0 }),
    {
        StatusCache {
            volume: VolumeState { valid: false, muted: false, percent: 0 },
            network: unknown_network(),
            battery: BatteryState { valid: false, charging: false, full: false, percent: 0 },
            brightness: BrightnessState { valid: false, percent: 0 },
            media: unknown_media(),
            memory: MemoryState { valid: false, used_percent: 0, used_mb: 0, total_mb: 0 },
            cpu: CpuState { valid: false, usage_percent: 0 },
            last_volume: None,
            last_network: None,
            last_battery: None,
            last_brightness: None,
            last_media: None,
            last_memory: None,
            last_cpu: None,
            prev_cpu: CpuSample { total: 0, idle: 0 },
        }
    }

    /// Whether so many milliseconds have gone by since something was last
    /// read.
    pub fn should_update(&self, last: &Option<u64>, now: u64, interval_ms: u64) -> (r: bool)
        ensures
            r == stale(*last, now, interval_ms),
    {
        match *last {
            None => true,
            Some(t) => {
                let gone: u64 = if now > t {
                    (now - t) / 1_000_000
                } else {
                    0
                };
                gone >= interval_ms
            },
        }
    }

    /// What is due to be read.
    pub fn due(&self, force: bool, now: u64) -> (d: Due)
        ensures
            d == self.due_at(force, now),
    {
        Due {
            volume: force || self.should_update(&self.last_volume, now, 500),
            network: force || self.should_update(&self.last_network, now, 2000),
            battery: force || self.should_update(&self.last_battery, now, 5000),
            brightness: force || self.should_update(&self.last_brightness, now, 1500),
            media: force || self.should_update(&self.last_media, now, 2000),
            memory: force || self.should_update(&self.last_memory, now, 1000),
            cpu: force || self.should_update(&self.last_cpu, now, 2000),
        }
    }

    /// Takes over what is due of what has been read.
    pub fn refresh(&mut self, force: bool, now: u64, read: Readings)
        ensures
            ({
                let due = old(self).due_at(force, now);
                let at = |d: bool, last: Option<u64>|
                    if d {
                        Some(now)
                    } else {
                        last
                    };
                &&& final(self).volume == (if due.volume {
                    read.volume
                } else {
                    old(self).volume
                })
                &&& final(self).last_volume == at(due.volume, old(self).last_volume)
                &&& final(self).network == (if due.network {
                    read.network
                } else {
                    old(self).network
                })
                &&& final(self).last_network == at(due.network, old(self).last_network)
                &&& final(self).battery == (if due.battery {
                    read.battery
                } else {
                    old(self).battery
                })
                &&& final(self).last_battery == at(due.battery, old(self).last_battery)
                &&& final(self).brightness == (if due.brightness {
                    read.brightness
                } else {
                    old(self).brightness
                })
                &&& final(self).last_brightness == at(due.brightness, old(self).last_brightness)
                &&& final(self).media == (if due.media {
                    read.media
                } else {
                    old(self).media
                })
                &&& final(self).last_media == at(due.media, old(self).last_media)
                &&& final(self).memory == (if due.memory {
                    read.memory
                } else {
                    old(self).memory
                })
                &&& final(self).last_memory == at(due.memory, old(self).last_memory)
                &&& final(self).cpu == (if due.cpu {
                    cpu_seen(old(self).prev_cpu, read.cpu, read.cpu_usage).0
                } else {
                    old(self).cpu
                })
                &&& final(self).prev_cpu == (if due.cpu {
                    cpu_seen(old(self).prev_cpu, read.cpu, read.cpu_usage).1
                } else {
                    old(self).prev_cpu
                })
                &&& final(self).last_cpu == at(due.cpu, old(self).last_cpu)
            }),
    {
        let due: Due = self.due(force, now);
        if due.volume {
            self.volume = read.volume;
            self.last_volume = Some(now);
        }
        if due.network {
            self.network = read.network;
            self.last_network = Some(now);
        }
        if due.battery {
            self.battery = read.battery;
            self.last_battery = Some(now);
        }
        if due.brightness {
            self.brightness = read.brightness;
            self.last_brightness = Some(now);
        }
        if due.media {
            self.media = read.media;
            self.last_media = Some(now);
        }
        if due.memory {
            self.memory = read.memory;
            self.last_memory = Some(now);
        }
        if due.cpu {
            let (cpu, prev): (CpuState, CpuSample) = see_cpu(
                self.prev_cpu,
                read.cpu,
                read.cpu_usage,
            );
            self.cpu = cpu;
            self.prev_cpu = prev;
            self.last_cpu = Some(now);
        }
    }
}

/// After everything has been read, nothing is due for half a second.
pub proof fn law_nothing_due_at_once(c: StatusCache, now: u64, later: u64)
    requires
        now <= later < now + 500_000_000,
        c.last_volume == Some(now),
        c.last_network == Some(now),
        c.last_battery == Some(now),
        c.last_brightness == Some(now),
        c.last_media == Some(now),
        c.last_memory == Some(now),
        c.last_cpu == Some(now),
    ensures
        c.due_at(false, later) == (Due {
            volume: false,
            network: false,
            battery: false,
            brightness: false,
            media: false,
            memory: false,
            cpu: false,
        }),
{
}

// ---- Work -------------------------------------------------------------------

/// The state of the processor and the counts to keep, from the counts before
/// and now. The first counts say nothing of the share of work.
pub open spec fn cpu_seen(prev: CpuSample, now: Option<CpuSample>, usage: i32) -> (
    CpuState,
    CpuSample,
) {
    match now {
        None => (CpuState { valid: false, usage_percent: 0 }, prev),
        Some(s) => {
            let percent = if prev.total > 0 && s.total > prev.total {
                usage
            } else {
                0
            };
            (
                CpuState {
                    valid: s.total > 0,
                    usage_percent: if percent < 0 {
                        0
                    } else if percent > 100 {
                        100
                    } else {
                        percent
                    },
                },
                s,
            )
        },
    }
}

fn see_cpu(prev: CpuSample, now: Option<CpuSample>, usage: i32) -> (out: (CpuState, CpuSample))
    ensures
        out == cpu_seen(prev, now, usage),
{
    match now {
        None => (CpuState { valid: false, usage_percent: 0 }, prev),
        Some(s) => {
            let percent: i32 = if prev.total > 0 && s.total > prev.total {
                usage
            } else {
                0
            };
            let kept: i32 = if percent < 0 {
                0
            } else if percent > 100 {
                100
            } else {
                percent
            };
            (CpuState { valid: s.total > 0, usage_percent: kept }, s)
        },
    }
}

/// The work and the total between two counts, where the share of work can be
/// told: not from the first counts, and not where nothing was counted.
pub fn cpu_delta(prev: CpuSample, now: CpuSample) -> (out: Option<(u64, u64)>)
    ensures
        out == (if prev.total > 0 && now.total > prev.total {
            let total = now.total - prev.total;
            let idle = if now.idle > prev.idle {
                now.idle - prev.idle
            } else {
                0
            };
            Some(
                (
                    (if idle < total {
                        total - idle
                    } else {
                        0
                    }) as u64,
                    total as u64,
                ),
            )
        } else {
            None
        }),
{
    if prev.total > 0 && now.total > prev.total {
        let total: u64 = now.total - prev.total;
        let idle: u64 = if now.idle > prev.idle {
            now.idle - prev.idle
        } else {
            0
        };
        let busy: u64 = if idle < total {
            total - idle
        } else {
            0
        };
        Some((busy, total))
    } else {
        None
    }
}

/// The numbers among the words.
pub open spec fn numbers_in(ws: Seq<Seq<char>>, n: int) -> Seq<u64>
    decreases n,
{
    if n <= 1 {
        Seq::empty()
    } else {
        match text::parsed_u64(ws[n - 1]) {
            Some(v) => numbers_in(ws, n - 1).push(v),
            None => numbers_in(ws, n - 1),
        }
    }
}

/// The sum of the first `n` numbers.
pub open spec fn sum_of(s: Seq<u64>, n: int) -> int
    decreases n,
{
    if n <= 0 {
        0
    } else {
        sum_of(s, n - 1) + s[n - 1]
    }
}

/// The counts in the first line of the kernel's statistics: after the word
/// `cpu`, at least four numbers, of which the fourth and the fifth were idling.
pub open spec fn counts_in(content: Seq<char>) -> Option<CpuSample> {
    let lines = scan::lines_of(content);
    if lines.len() == 0 || !scan::occurs_at(lines[0], "cpu "@, 0) {
        None
    } else {
        let ws = scan::words_from(lines[0], 0);
        let ns = numbers_in(ws, ws.len() as int);
        let total = sum_of(ns, ns.len() as int);
        if ns.len() < 4 || total > u64::MAX {
            None
        } else {
            Some(
                CpuSample {
                    total: total as u64,
                    idle: (ns[3] + if ns.len() > 4 {
                        ns[4]
                    } else {
                        0
                    }) as u64,
                },
            )
        }
    }
}

fn collect_numbers(ws: &Vec<String>) -> (out: Vec<u64>)
    ensures
        out@ == numbers_in(text::views(ws@), ws@.len() as int),
{
    let ghost vs = text::views(ws@);
    let mut out: Vec<u64> = Vec::new();
    if ws.len() == 0 {
        return out;
    }
    let mut i: usize = 1;
    assert(out@ =~= numbers_in(vs, 1));
    while i < ws.len()
        invariant
            1 <= i <= ws.len(),
            vs == text::views(ws@),
            out@ == numbers_in(vs, i as int),
        decreases ws.len() - i,
    {
        assert(vs[i as int] == ws@[i as int]@);
        match text::parse_u64(ws[i].as_str()) {
            Some(v) => {
                out.push(v);
            },
            None => {},
        }
        i = i + 1;
    }
    out
}

fn checked_sum(ns: &Vec<u64>) -> (out: Option<u64>)
    ensures
        out == (if sum_of(ns@, ns@.len() as int) <= u64::MAX {
            Some(sum_of(ns@, ns@.len() as int) as u64)
        } else {
            None
        }),
{
    let mut sum: u64 = 0;
    let mut i: usize = 0;
    while i < ns.len()
        invariant
            i <= ns.len(),
            sum == sum_of(ns@, i as int),
        decreases ns.len() - i,
    {
        if ns[i] > u64::MAX - sum {
            proof {
                lemma_sum_grows(ns@, i + 1, ns@.len() as int);
            }
            return None;
        }
        sum = sum + ns[i];
        i = i + 1;
    }
    Some(sum)
}

proof fn lemma_sum_grows(s: Seq<u64>, a: int, b: int)
    requires
        0 <= a <= b <= s.len(),
    ensures
        sum_of(s, a) <= sum_of(s, b),
    decreases b,
{
    if a < b {
        lemma_sum_grows(s, a, b - 1);
    }
}

/// The counts in the kernel's statistics.
pub fn cpu_sample(content: &str) -> (out: Option<CpuSample>)
    ensures
        out == counts_in(content@),
{
    let lines: Vec<String> = scan::lines(content);
    let ghost ls = scan::lines_of(content@);
    assert(ls.len() == lines@.len());
    if lines.len() == 0 {
        return None;
    }
    assert(ls[0] == lines@[0]@);
    if !scan::starts_with(lines[0].as_str(), "cpu ") {
        return None;
    }
    let ws: Vec<String> = scan::words(lines[0].as_str());
    let ghost vs = scan::words_from(ls[0], 0);
    assert(vs.len() == ws@.len());
    let ns: Vec<u64> = collect_numbers(&ws);
    if ns.len() < 4 {
        return None;
    }
    match checked_sum(&ns) {
        Some(total) => {
            proof {
                lemma_sum_grows(ns@, 4, ns@.len() as int);
                if ns@.len() > 4 {
                    lemma_sum_grows(ns@, 5, ns@.len() as int);
                    assert(sum_of(ns@, 5) == sum_of(ns@, 4) + ns@[4]);
                }
                assert(sum_of(ns@, 4) == sum_of(ns@, 3) + ns@[3]);
                lemma_sum_grows(ns@, 0, 3);
            }
            let wait: u64 = if ns.len() > 4 {
                ns[4]
            } else {
                0
            };
            Some(CpuSample { total, idle: ns[3] + wait })
        },
        None => None,
    }
}

// ---- Memory -----------------------------------------------------------------

/// The number at the start of a text; 0 where there is none.
pub open spec fn first_number(s: Seq<char>) -> i64 {
    let ws = scan::words_from(scan::trimmed(s), 0);
    if ws.len() > 0 {
        match text::parsed_i64(ws[0]) {
            Some(n) => n,
            None => 0,
        }
    } else {
        0
    }
}

/// The number at the start of a text; 0 where there is none.
pub fn parse_meminfo_value(s: &str) -> (n: i64)
    ensures
        n == first_number(s@),
{
    let t: String = scan::trim(s);
    let ws: Vec<String> = scan::words(t.as_str());
    let ghost vs = scan::words_from(scan::trimmed(s@), 0);
    assert(vs.len() == ws@.len());
    if ws.len() > 0 {
        assert(vs[0] == ws@[0]@);
        match text::parse_i64(ws[0].as_str()) {
            Some(n) => n,
            None => 0,
        }
    } else {
        0
    }
}

/// The total and the free memory in kilobytes after a line has been read.
pub open spec fn line_read(line: Seq<char>, total: i64, free: i64) -> (i64, i64) {
    match scan::after_prefix(line, "MemTotal:"@) {
        Some(rest) => (first_number(rest), free),
        None => match scan::after_prefix(line, "MemAvailable:"@) {
            Some(rest) => (total, first_number(rest)),
            None => (total, free),
        },
    }
}

/// The total and the free memory in kilobytes, read from the lines at and
/// after `i` until both are known.
pub open spec fn memory_from(lines: Seq<Seq<char>>, total: i64, free: i64, i: int) -> (i64, i64)
    decreases lines.len() - i,
{
    if i >= lines.len() {
        (total, free)
    } else {
        let (t, f) = line_read(lines[i], total, free);
        if t > 0 && f > 0 {
            (t, f)
        } else {
            memory_from(lines, t, f, i + 1)
        }
    }
}

fn read_line(line: &str, total: i64, free: i64) -> (out: (i64, i64))
    ensures
        out == line_read(line@, total, free),
{
    match scan::strip_prefix(line, "MemTotal:") {
        Some(rest) => (parse_meminfo_value(rest.as_str()), free),
        None => {
            match scan::strip_prefix(line, "MemAvailable:") {
                Some(rest) => (total, parse_meminfo_value(rest.as_str())),
                None => (total, free),
            }
        },
    }
}

/// The state of the memory, from its total and its free kilobytes.
pub open spec fn memory_of(total: i64, free: i64) -> MemoryState {
    if 0 < total {
        let used = total - free;
        MemoryState {
            valid: true,
            used_percent: geometry::quotient(used * 100, total as int) as i32,
            used_mb: geometry::quotient(used, 1024) as i64,
            total_mb: (total / 1024) as i64,
        }
    } else {
        MemoryState { valid: false, used_percent: 0, used_mb: 0, total_mb: 0 }
    }
}

fn quotient_of(a: i128, b: i64) -> (q: i128)
    requires
        0 < b,
        -0x100_0000_0000_0000_0000 <= a <= 0x100_0000_0000_0000_0000,
    ensures
        q == geometry::quotient(a as int, b as int),
{
    let b: i128 = b as i128;
    if a >= 0 {
        a / b
    } else {
        -((-a) / b)
    }
}

/// The state of the memory, as the kernel tells it.
pub fn memory_state(content: &str) -> (m: MemoryState)
    ensures
        ({
            let (total, free) = memory_from(scan::lines_of(content@), 0, 0, 0);
            m == memory_of(total, free)
        }),
{
    let lines: Vec<String> = scan::lines(content);
    let ghost ls = scan::lines_of(content@);
    let mut total: i64 = 0;
    let mut free: i64 = 0;
    let mut i: usize = 0;
    while i < lines.len() && !(total > 0 && free > 0)
        invariant
            i <= lines.len(),
            ls == text::views(lines@),
            memory_from(ls, 0, 0, 0) == (if total > 0 && free > 0 {
                (total, free)
            } else {
                memory_from(ls, total, free, i as int)
            }),
        decreases lines.len() - i,
    {
        assert(ls[i as int] == lines@[i as int]@);
        let (t, f): (i64, i64) = read_line(lines[i].as_str(), total, free);
        total = t;
        free = f;
        i = i + 1;
    }
    assert(ls.len() == lines@.len());
    if 0 < total {
        let used: i128 = total as i128 - free as i128;
        let percent: i128 = quotient_of(used * 100, total);
        MemoryState {
            valid: true,
            used_percent: percent as i32,
            used_mb: quotient_of(used, 1024) as i64,
            total_mb: total / 1024,
        }
    } else {
        MemoryState { valid: false, used_percent: 0, used_mb: 0, total_mb: 0 }
    }
}

/// Where there is no more free memory than there is memory, the share that is
/// used lies between 0 and 100 percent.
pub proof fn law_memory_share(total: i64, free: i64)
    requires
        0 < total,
        0 <= free <= total,
    ensures
        0 <= memory_of(total, free).used_percent <= 100,
        0 <= memory_of(total, free).used_mb <= memory_of(total, free).total_mb,
{
    let used = total - free;
    assert(0 <= (used * 100) / (total as int) <= 100) by (nonlinear_arith)
        requires
            0 <= used <= total,
            0 < total,
    ;
}

// ---- Volume -----------------------------------------------------------------

/// What the sound server says of the volume: the number, as a text, and
/// whether it is muted.
#[derive(Debug)]
pub struct VolumeText {
    pub number: String,
    pub muted: bool,
}

/// Reads what the sound server says, such as `Volume: 0.50 [MUTED]`.
pub fn volume_text(line: &str) -> (out: Option<VolumeText>)
    ensures
        match scan::after_prefix(scan::trimmed(line@), "Volume:"@) {
            Some(rest) => {
                let r = scan::trimmed(rest);
                let ws = scan::words_from(r, 0);
                &&& out matches Some(v)
                &&& v.muted == scan::has_part(r, "[MUTED]"@)
                &&& v.number@ == (if ws.len() > 0 {
                    ws[0]
                } else {
                    "0"@
                })
            },
            None => out is None,
        },
{
    let t: String = scan::trim(line);
    match scan::strip_prefix(t.as_str(), "Volume:") {
        Some(rest) => {
            let r: String = scan::trim(rest.as_str());
            let muted: bool = scan::contains_str(r.as_str(), "[MUTED]");
            let ws: Vec<String> = scan::words(r.as_str());
            let ghost vs = scan::words_from(r@, 0);
            assert(vs.len() == ws@.len());
            let number: String = if ws.len() > 0 {
                assert(vs[0] == ws@[0]@);
                text::copy_str(&ws[0])
            } else {
                "0".to_owned()
            };
            Some(VolumeText { number, muted })
        },
        None => None,
    }
}

/// The state of the volume, from what the sound server says and what its
/// number is in percent, where it is one.
pub fn volume_state(said: &Option<VolumeText>, percent: Option<i32>) -> (v: VolumeState)
    ensures
        v == (match *said {
            Some(t) => VolumeState {
                valid: percent is Some,
                muted: t.muted,
                percent: match percent {
                    Some(p) => p,
                    None => 0,
                },
            },
            None => VolumeState { valid: false, muted: false, percent: 0 },
        }),
{
    match said {
        Some(t) => {
            match percent {
                Some(p) => VolumeState { valid: true, muted: t.muted, percent: p },
                None => VolumeState { valid: false, muted: t.muted, percent: 0 },
            }
        },
        None => VolumeState { valid: false, muted: false, percent: 0 },
    }
}

// ---- Network ----------------------------------------------------------------

/// An interface to a network, and what the kernel says of it.
#[derive(Debug)]
pub struct Interface {
    pub name: String,
    pub operstate: String,
    pub carrier: String,
    pub wireless: bool,
}

/// Whether the interface leads nowhere outside the machine.
pub open spec fn virtual_name(n: Seq<char>) -> bool {
    ||| n == "lo"@
    ||| scan::occurs_at(n, "docker"@, 0)
    ||| scan::occurs_at(n, "veth"@, 0)
    ||| scan::occurs_at(n, "br-"@, 0)
    ||| scan::occurs_at(n, "tailscale"@, 0)
    ||| scan::occurs_at(n, "tun"@, 0)
}

/// Whether the interface is connected.
pub open spec fn is_up(i: Interface) -> bool {
    let c = scan::trimmed(i.carrier@);
    let o = scan::trimmed(i.operstate@);
    c == "1"@ || o == "up"@ || o == "unknown"@ || o == "dormant"@
}

/// The first interface at or after `i` that leads out of the machine and is
/// connected; the number of interfaces where there is none.
pub open spec fn up_from(is: Seq<Interface>, i: int) -> int
    decreases is.len() - i,
{
    if i >= is.len() {
        is.len() as int
    } else if !virtual_name(is[i].name@) && is_up(is[i]) {
        i
    } else {
        up_from(is, i + 1)
    }
}

fn is_virtual(n: &str) -> (r: bool)
    ensures
        r == virtual_name(n@),
{
    eq_str(n, "lo") || scan::starts_with(n, "docker") || scan::starts_with(n, "veth")
        || scan::starts_with(n, "br-") || scan::starts_with(n, "tailscale") || scan::starts_with(
        n,
        "tun",
    )
}

fn is_connected(i: &Interface) -> (r: bool)
    ensures
        r == is_up(*i),
{
    let c: String = scan::trim(i.carrier.as_str());
    let o: String = scan::trim(i.operstate.as_str());
    eq_str(c.as_str(), "1") || eq_str(o.as_str(), "up") || eq_str(o.as_str(), "unknown") || eq_str(
        o.as_str(),
        "dormant",
    )
}

/// The interface that is shown: the first that leads out of the machine and is
/// connected.
pub fn pick_interface(interfaces: &Vec<Interface>) -> (out: Option<usize>)
    ensures
        match out {
            Some(i) => i < interfaces.len() && i == up_from(interfaces@, 0),
            None => up_from(interfaces@, 0) == interfaces@.len(),
        },
{
    let mut i: usize = 0;
    while i < interfaces.len()
        invariant
            i <= interfaces.len(),
            up_from(interfaces@, 0) == up_from(interfaces@, i as int),
        decreases interfaces.len() - i,
    {
        if !is_virtual(interfaces[i].name.as_str()) && is_connected(&interfaces[i]) {
            return Some(i);
        }
        i = i + 1;
    }
    None
}

/// The state of the network, from the interface that is shown. The strength
/// and the name count only of one without wires.
pub fn network_state(shown: Option<&Interface>, signal: i32, ssid: &str) -> (n: NetworkState)
    ensures
        n.valid,
        match shown {
            Some(i) => {
                &&& n.connected
                &&& n.ifname@ == i.name@
                &&& n.wireless == i.wireless
                &&& n.signal_percent == (if i.wireless {
                    signal
                } else {
                    0
                })
                &&& n.ssid@ == (if i.wireless {
                    scan::trimmed(ssid@)
                } else {
                    Seq::<char>::empty()
                })
            },
            None => {
                &&& !n.connected
                &&& !n.wireless
                &&& n.signal_percent == 0
                &&& n.ifname@ == Seq::<char>::empty()
                &&& n.ssid@ == Seq::<char>::empty()
            },
        },
{
    match shown {
        Some(i) => NetworkState {
            valid: true,
            connected: true,
            wireless: i.wireless,
            signal_percent: if i.wireless {
                signal
            } else {
                0
            },
            ifname: text::copy_str(&i.name),
            ssid: if i.wireless {
                scan::trim(ssid)
            } else {
                empty_text()
            },
        },
        None => NetworkState {
            valid: true,
            connected: false,
            wireless: false,
            signal_percent: 0,
            ifname: empty_text(),
            ssid: empty_text(),
        },
    }
}

/// The end of `s` without the full stops at its end.
pub open spec fn without_dots(s: Seq<char>) -> Seq<char> {
    s.take(scan::char_end(s, '.', 0, s.len() as int))
}

/// The quality of the link in a line of the kernel's list of wireless links:
/// the third word, without full stops at its end.
pub open spec fn line_quality(line: Seq<char>, ifname: Seq<char>) -> Option<Seq<char>> {
    let t = scan::trimmed(line);
    let ws = scan::words_from(t, 0);
    if scan::occurs_at(t, ifname, 0) && ws.len() >= 3 {
        Some(without_dots(ws[2]))
    } else {
        None
    }
}

/// The quality in the first line at or after `i` that has one for the
/// interface.
pub open spec fn quality_from(lines: Seq<Seq<char>>, ifname: Seq<char>, i: int) -> Option<Seq<char>>
    decreases lines.len() - i,
{
    if i >= lines.len() {
        None
    } else {
        match line_quality(lines[i], ifname) {
            Some(q) => Some(q),
            None => quality_from(lines, ifname, i + 1),
        }
    }
}

fn trim_dots(s: &str) -> (out: String)
    ensures
        out@ == without_dots(s@),
{
    let cs: Vec<char> = text::chars_of(s);
    let mut b: usize = cs.len();
    while 0 < b && cs[b - 1] == '.'
        invariant
            cs@ == s@,
            b <= cs.len(),
            scan::char_end(s@, '.', 0, s@.len() as int) == scan::char_end(s@, '.', 0, b as int),
        decreases b,
    {
        b = b - 1;
    }
    let out: String = text::string_of(&cs, 0, b);
    assert(out@ =~= without_dots(s@));
    out
}

/// The quality of the link of an interface, as a text; `None` where the kernel
/// lists none.
pub fn wireless_quality(content: &str, ifname: &str) -> (out: Option<String>)
    ensures
        text::opt_view(out) == quality_from(scan::lines_of(content@), ifname@, 0),
{
    let lines: Vec<String> = scan::lines(content);
    let ghost ls = scan::lines_of(content@);
    let mut i: usize = 0;
    while i < lines.len()
        invariant
            i <= lines.len(),
            ls == text::views(lines@),
            ls == scan::lines_of(content@),
            quality_from(ls, ifname@, 0) == quality_from(ls, ifname@, i as int),
        decreases lines.len() - i,
    {
        assert(ls[i as int] == lines@[i as int]@);
        let t: String = scan::trim(lines[i].as_str());
        if scan::starts_with(t.as_str(), ifname) {
            let ws: Vec<String> = scan::words(t.as_str());
            let ghost vs = scan::words_from(t@, 0);
            assert(vs.len() == ws@.len());
            if ws.len() >= 3 {
                assert(vs[2] == ws@[2]@);
                return Some(trim_dots(ws[2].as_str()));
            }
        }
        i = i + 1;
    }
    assert(ls.len() == lines@.len());
    None
}

// ---- Battery, brightness, media ---------------------------------------------

/// A source of power, and what the kernel says of it.
#[derive(Debug)]
pub struct PowerSupply {
    pub kind: String,
    pub capacity: String,
    pub status: String,
}

/// The first battery at or after `i`; the number of sources where there is
/// none.
pub open spec fn battery_from(ps: Seq<PowerSupply>, i: int) -> int
    decreases ps.len() - i,
{
    if i >= ps.len() {
        ps.len() as int
    } else if scan::trimmed(ps[i].kind@) == "Battery"@ {
        i
    } else {
        battery_from(ps, i + 1)
    }
}

/// The state of the first battery.
pub fn battery_state(supplies: &Vec<PowerSupply>) -> (b: BatteryState)
    ensures
        ({
            let i = battery_from(supplies@, 0);
            b == (if i < supplies@.len() {
                let p = supplies@[i];
                BatteryState {
                    valid: true,
                    charging: scan::trimmed(p.status@) == "Charging"@,
                    full: scan::trimmed(p.status@) == "Full"@,
                    percent: match text::parsed_i32(scan::trimmed(p.capacity@)) {
                        Some(n) => n,
                        None => 0,
                    },
                }
            } else {
                BatteryState { valid: false, charging: false, full: false, percent: 0 }
            })
        }),
{
    let mut i: usize = 0;
    while i < supplies.len()
        invariant
            i <= supplies.len(),
            battery_from(supplies@, 0) == battery_from(supplies@, i as int),
        decreases supplies.len() - i,
    {
        let p: &PowerSupply = &supplies[i];
        let kind: String = scan::trim(p.kind.as_str());
        if eq_str(kind.as_str(), "Battery") {
            let status: String = scan::trim(p.status.as_str());
            let capacity: String = scan::trim(p.capacity.as_str());
            let percent: i32 = match text::parse_i32(capacity.as_str()) {
                Some(n) => n,
                None => 0,
            };
            return BatteryState {
                valid: true,
                charging: eq_str(status.as_str(), "Charging"),
                full: eq_str(status.as_str(), "Full"),
                percent,
            };
        }
        i = i + 1;
    }
    BatteryState { valid: false, charging: false, full: false, percent: 0 }
}

/// A light behind a screen, and what the kernel says of it.
#[derive(Debug)]
pub struct Backlight {
    pub brightness: String,
    pub max_brightness: String,
}

/// The number that the kernel gives; 0 where it gives none.
pub open spec fn given_number(s: Seq<char>) -> i64 {
    match text::parsed_i64(scan::trimmed(s)) {
        Some(n) => n,
        None => 0,
    }
}

/// The first light at or after `i` of which the full brightness is known; the
/// number of lights where there is none.
pub open spec fn light_from(ls: Seq<Backlight>, i: int) -> int
    decreases ls.len() - i,
{
    if i >= ls.len() {
        ls.len() as int
    } else if given_number(ls[i].max_brightness@) > 0 {
        i
    } else {
        light_from(ls, i + 1)
    }
}

fn number_in(s: &str) -> (n: i64)
    ensures
        n == given_number(s@),
{
    let t: String = scan::trim(s);
    match text::parse_i64(t.as_str()) {
        Some(n) => n,
        None => 0,
    }
}

/// The state of the first light of which the full brightness is known.
pub fn brightness_state(lights: &Vec<Backlight>) -> (b: BrightnessState)
    ensures
        ({
            let i = light_from(lights@, 0);
            let cur = given_number(lights@[i].brightness@);
            let max = given_number(lights@[i].max_brightness@);
            b == (if i < lights@.len() {
                BrightnessState {
                    valid: true,
                    percent: geometry::quotient(cur * 100, max as int) as i32,
                }
            } else {
                BrightnessState { valid: false, percent: 0 }
            })
        }),
{
    let mut i: usize = 0;
    while i < lights.len()
        invariant
            i <= lights.len(),
            light_from(lights@, 0) == light_from(lights@, i as int),
        decreases lights.len() - i,
    {
        let max: i64 = number_in(lights[i].max_brightness.as_str());
        if max > 0 {
            let cur: i64 = number_in(lights[i].brightness.as_str());
            let percent: i128 = quotient_of(cur as i128 * 100, max);
            return BrightnessState { valid: true, percent: percent as i32 };
        }
        i = i + 1;
    }
    BrightnessState { valid: false, percent: 0 }
}

/// What is played, from what the player says of its state and of the piece.
pub fn media_state(status: Option<&str>, meta: Option<&str>) -> (m: MediaState)
    ensures
        match status {
            Some(s) => {
                &&& m.valid
                &&& m.playing == (scan::trimmed(s@) == "Playing"@)
                &&& m.paused == (scan::trimmed(s@) == "Paused"@)
                &&& m.text@ == (match meta {
                    Some(t) => scan::trimmed(t@),
                    None => Seq::<char>::empty(),
                })
            },
            None => no_media(m),
        },
{
    match status {
        Some(s) => {
            let t: String = scan::trim(s);
            MediaState {
                valid: true,
                playing: eq_str(t.as_str(), "Playing"),
                paused: eq_str(t.as_str(), "Paused"),
                text: match meta {
                    Some(m) => scan::trim(m),
                    None => empty_text(),
                },
            }
        },
        None => unknown_media(),
    }
}

// ---- What holds of what is read ---------------------------------------------

/// The volume is read again after half a second, the memory after one, the
/// brightness after one and a half, the network, the media and the processor
/// after two, and the battery after five; all of it at once where that is asked.
pub proof fn law_how_often_things_are_read(c: StatusCache, now: u64, force: bool)
    ensures
        ({
            let d = c.due_at(force, now);
            let after = |last: Option<u64>, ms: int|
                force || last is None || now - last->0 >= ms * 1_000_000;
            &&& d.volume == after(c.last_volume, 500)
            &&& d.memory == after(c.last_memory, 1000)
            &&& d.brightness == after(c.last_brightness, 1500)
            &&& d.network == after(c.last_network, 2000)
            &&& d.media == after(c.last_media, 2000)
            &&& d.cpu == after(c.last_cpu, 2000)
            &&& d.battery == after(c.last_battery, 5000)
        }),
{
}

/// The share of work is what was measured, kept between none and all; nothing
/// is known from the first counts, and without counts the old ones are kept.
pub proof fn law_work_is_a_share(prev: CpuSample, now: CpuSample, usage: i32)
    ensures
        ({
            let (state, kept) = cpu_seen(prev, Some(now), usage);
            &&& 0 <= state.usage_percent <= 100
            &&& kept == now
            &&& state.valid <==> now.total > 0
            &&& prev.total == 0 || now.total <= prev.total ==> state.usage_percent == 0
            &&& 0 < prev.total < now.total && 0 <= usage <= 100 ==> state.usage_percent == usage
        }),
        !cpu_seen(prev, None, usage).0.valid,
        cpu_seen(prev, None, usage).1 == prev,
{
}

/// Memory is read from the two lines that name its total and what of it is
/// available, in whatever order they stand and whatever stands between them.
pub proof fn law_memory_lines_are_found(
    lines: Seq<Seq<char>>,
    t: int,
    f: int,
    total: Seq<char>,
    free: Seq<char>,
)
    requires
        0 <= t < lines.len(),
        0 <= f < lines.len(),
        t != f,
        scan::after_prefix(lines[t], "MemTotal:"@) == Some(total),
        scan::after_prefix(lines[f], "MemTotal:"@) is None,
        scan::after_prefix(lines[f], "MemAvailable:"@) == Some(free),
        first_number(total) > 0,
        first_number(free) > 0,
        forall|i: int|
            0 <= i < lines.len() && i != t && i != f ==> scan::after_prefix(
                #[trigger] lines[i],
                "MemTotal:"@,
            ) is None && scan::after_prefix(lines[i], "MemAvailable:"@) is None,
    ensures
        memory_from(lines, 0, 0, 0) == (first_number(total), first_number(free)),
{
    let a = if t < f {
        t
    } else {
        f
    };
    let b = if t < f {
        f
    } else {
        t
    };
    lemma_lines_skipped(lines, 0, 0, 0, a);
    let (x, y) = line_read(lines[a], 0, 0);
    lemma_lines_skipped(lines, x, y, a + 1, b);
}

proof fn lemma_lines_skipped(lines: Seq<Seq<char>>, total: i64, free: i64, i: int, j: int)
    requires
        0 <= i <= j < lines.len(),
        !(total > 0 && free > 0),
        forall|k: int|
            i <= k < j ==> scan::after_prefix(#[trigger] lines[k], "MemTotal:"@) is None
                && scan::after_prefix(lines[k], "MemAvailable:"@) is None,
    ensures
        memory_from(lines, total, free, i) == memory_from(lines, total, free, j),
    decreases j - i,
{
    if i < j {
        assert(line_read(lines[i], total, free) == (total, free));
        lemma_lines_skipped(lines, total, free, i + 1, j);
    }
}

/// The network is the first interface that leads out of the machine and is
/// connected; those of the machine itself are passed over.
pub proof fn law_first_link_counts(is: Seq<Interface>, i: int, j: int)
    requires
        0 <= j <= i < is.len(),
        !virtual_name(is[i].name@),
        is_up(is[i]),
        forall|k: int|
            j <= k < i ==> virtual_name((#[trigger] is[k]).name@) || !is_up(is[k]),
    ensures
        up_from(is, j) == i,
    decreases i - j,
{
    if j < i {
        law_first_link_counts(is, i, j + 1);
    }
}

/// An interface with a carrier is connected, and so is one whose state is up.
/// The loopback interface leads nowhere, nor do those of containers.
pub proof fn law_which_links_count(i: Interface)
    ensures
        scan::trimmed(i.carrier@) == "1"@ ==> is_up(i),
        scan::trimmed(i.operstate@) == "up"@ ==> is_up(i),
        scan::trimmed(i.operstate@) == "down"@ && scan::trimmed(i.carrier@) != "1"@ ==> !is_up(i),
        i.name@ == "lo"@ ==> virtual_name(i.name@),
        scan::occurs_at(i.name@, "docker"@, 0) ==> virtual_name(i.name@),
        scan::occurs_at(i.name@, "veth"@, 0) ==> virtual_name(i.name@),
        i.name@ == "eth0"@ ==> !virtual_name(i.name@),
        i.name@ == "wlan0"@ ==> !virtual_name(i.name@),
{
    reveal_strlit("down");
    reveal_strlit("up");
    reveal_strlit("unknown");
    reveal_strlit("dormant");
    reveal_strlit("lo");
    reveal_strlit("docker");
    reveal_strlit("veth");
    reveal_strlit("br-");
    reveal_strlit("tailscale");
    reveal_strlit("tun");
    reveal_strlit("eth0");
    reveal_strlit("wlan0");
    assert("down"@[0] == 'd' && "up"@[0] == 'u' && "unknown"@[0] == 'u');
    assert("down"@.len() != "dormant"@.len());
    assert("eth0"@[0] == 'e' && "wlan0"@[0] == 'w');
    assert("docker"@[0] == 'd' && "veth"@[0] == 'v' && "br-"@[0] == 'b' && "tailscale"@[0] == 't'
        && "tun"@[0] == 't' && "lo"@[0] == 'l');
    assert forall|n: Seq<char>, p: Seq<char>|
        #![trigger scan::occurs_at(n, p, 0)]
        n.len() > 0 && p.len() > 0 && scan::occurs_at(n, p, 0) implies n[0] == p[0] by {
        assert(n.subrange(0, p.len() as int)[0] == n[0]);
    }
}

/// The battery is the first source of power that says it is one.
pub proof fn law_first_battery_counts(ps: Seq<PowerSupply>, i: int, j: int)
    requires
        0 <= j <= i < ps.len(),
        scan::trimmed(ps[i].kind@) == "Battery"@,
        forall|k: int| j <= k < i ==> scan::trimmed((#[trigger] ps[k]).kind@) != "Battery"@,
    ensures
        battery_from(ps, j) == i,
    decreases i - j,
{
    if j < i {
        law_first_battery_counts(ps, i, j + 1);
    }
}

/// The light is the first whose full brightness is more than nothing.
pub proof fn law_first_light_counts(ls: Seq<Backlight>, i: int, j: int)
    requires
        0 <= j <= i < ls.len(),
        given_number(ls[i].max_brightness@) > 0,
        forall|k: int| j <= k < i ==> given_number((#[trigger] ls[k]).max_brightness@) <= 0,
    ensures
        light_from(ls, j) == i,
    decreases i - j,
{
    if j < i {
        law_first_light_counts(ls, i, j + 1);
    }
}

/// The counts of the processor are the sum of the numbers in its line, and of
/// them the fourth and the fifth, which count its idle time. A line with fewer
/// than four numbers says nothing.
pub proof fn law_idle_time_is_counted(content: Seq<char>)
    ensures
        ({
            let line = scan::lines_of(content)[0];
            let ws = scan::words_from(line, 0);
            let ns = numbers_in(ws, ws.len() as int);
            let total = sum_of(ns, ns.len() as int);
            &&& counts_in(content) matches Some(s) ==> {
                &&& scan::occurs_at(line, "cpu "@, 0)
                &&& ns.len() >= 4
                &&& s.total == total
                &&& ns.len() == 4 ==> s.idle == ns[3]
                &&& ns.len() > 4 ==> s.idle == ns[3] + ns[4]
            }
            &&& counts_in(content) is None <==> scan::lines_of(content).len() == 0
                || !scan::occurs_at(line, "cpu "@, 0) || ns.len() < 4 || total > u64::MAX
        }),
{
    if scan::lines_of(content).len() > 0 {
        let ws = scan::words_from(scan::lines_of(content)[0], 0);
        let ns = numbers_in(ws, ws.len() as int);
        lemma_sum_holds(ns, ns.len() as int);
    }
}

proof fn lemma_sum_holds(s: Seq<u64>, n: int)
    requires
        0 <= n <= s.len(),
    ensures
        0 <= sum_of(s, n),
        n > 3 ==> s[3] <= sum_of(s, n),
        n > 4 ==> s[3] + s[4] <= sum_of(s, n),
    decreases n,
{
    if n > 0 {
        lemma_sum_holds(s, n - 1);
    }
}

/// The sum grows with every number by that number.
pub proof fn law_sums_grow_by_each_number(s: Seq<u64>, v: u64)
    ensures
        sum_of(s.push(v), (s.len() + 1) as int) == sum_of(s, s.len() as int) + v,
        sum_of(s, 0) == 0,
{
    lemma_sum_prefix(s, v, s.len() as int);
}

proof fn lemma_sum_prefix(s: Seq<u64>, v: u64, n: int)
    requires
        n <= s.len(),
    ensures
        sum_of(s.push(v), n) == sum_of(s, n),
    decreases n,
{
    if n > 0 {
        lemma_sum_prefix(s, v, n - 1);
    }
}

/// The quality of a link is the third word of the first line that begins with
/// the name of its interface, without the full stops at its end.
pub proof fn law_quality_is_the_third_word(
    lines: Seq<Seq<char>>,
    name: Seq<char>,
    j: int,
    i: int,
)
    requires
        0 <= j <= i < lines.len(),
        ({
            let t = scan::trimmed(lines[i]);
            scan::occurs_at(t, name, 0) && scan::words_from(t, 0).len() >= 3
        }),
        forall|k: int|
            j <= k < i ==> !(scan::occurs_at(scan::trimmed(#[trigger] lines[k]), name, 0)
                && scan::words_from(scan::trimmed(lines[k]), 0).len() >= 3),
    ensures
        ({
            let word = scan::words_from(scan::trimmed(lines[i]), 0)[2];
            let q = quality_from(lines, name, j);
            &&& q is Some
            &&& q->0.len() <= word.len()
            &&& q->0 == word.take(q->0.len() as int)
            &&& forall|k: int| q->0.len() <= k < word.len() ==> #[trigger] word[k] == '.'
            &&& q->0.len() > 0 ==> q->0.last() != '.'
        }),
    decreases i - j,
{
    if j < i {
        law_quality_is_the_third_word(lines, name, j + 1, i);
    } else {
        let word = scan::words_from(scan::trimmed(lines[i]), 0)[2];
        scan::lemma_char_behind(word, '.', 0, word.len() as int);
    }
}

} // verus!
