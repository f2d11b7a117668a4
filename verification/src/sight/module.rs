//! The modules of the bar and the texts that they show.

use std::fmt::Write;

use vstd::prelude::*;

use crate::gate::config::Theme;
use crate::scan;
use crate::sight::status;
use crate::sight::status::{
    BatteryState, BrightnessState, CpuState, MediaState, MemoryState, NetworkState, StatusCache,
    VolumeState,
};
use crate::text;
use crate::text::eq_str;

verus! {

/// What a module shows.
#[derive(Debug)]
pub enum BarModuleKind {
    Workspaces,
    Clock,
    Volume,
    Network,
    Battery,
    Brightness,
    Media,
    Memory,
    Cpu,
    Title,
    Monitor,
    Sync,
    Weather,
    Status,
    /// What a command prints.
    Custom,
    /// What the command prints that a variable of the environment names.
    Script(String),
}

/// A text and its colour.
#[derive(Debug)]
pub struct ModuleContent {
    pub text: String,
    pub color: u32,
}

/// What the texts are made from.
#[derive(Debug)]
pub struct ModuleContext<'a> {
    pub theme: &'a Theme,
    pub icons: bool,
    pub colors: bool,
    pub status: &'a StatusCache,
    pub current_ws: usize,
    pub occupied_workspaces: [bool; 9],
    pub focused_title: String,
    pub monitor_id: usize,
    pub sync_enabled: bool,
    pub is_focused_monitor: bool,
}

/// A text and its colour, as a model.
#[verifier::ext_equal]
pub struct ContentView {
    pub text: Seq<char>,
    pub color: u32,
}

impl View for ModuleContent {
    type V = ContentView;

    open spec fn view(&self) -> ContentView {
        ContentView { text: self.text@, color: self.color }
    }
}

/// One text with pictures, another without.
pub open spec fn either(icons: bool, a: Seq<char>, b: Seq<char>) -> Seq<char> {
    if icons {
        a
    } else {
        b
    }
}

/// A share in percent after a word.
pub open spec fn share(word: Seq<char>, percent: i32) -> Seq<char> {
    word + " "@ + text::signed_decimal(percent as int) + "%"@
}

/// Nothing to show.
pub open spec fn nothing(color: u32) -> ContentView {
    ContentView { text: Seq::empty(), color }
}

// ---- The texts --------------------------------------------------------------

pub open spec fn volume_icon(st: VolumeState) -> Seq<char> {
    if st.muted {
        "\u{f075f}"@
    } else if st.percent >= 66 {
        "\u{f057e}"@
    } else if st.percent >= 33 {
        "\u{f0580}"@
    } else {
        "\u{f057f}"@
    }
}

pub open spec fn volume_shown(st: VolumeState, theme: Theme, icons: bool, colors: bool) -> ContentView {
    if !st.valid {
        ContentView {
            text: either(icons, "\u{f0581} audio"@, "audio"@),
            color: theme.text_muted,
        }
    } else {
        ContentView {
            text: if st.muted {
                either(icons, volume_icon(st) + " muted"@, "vol muted"@)
            } else {
                either(icons, share(volume_icon(st), st.percent), share("vol"@, st.percent))
            },
            color: if colors && st.muted {
                theme.text_muted
            } else {
                theme.text
            },
        }
    }
}

/// The strength of a wireless link, where it is known.
pub open spec fn signal_text(percent: i32) -> Seq<char> {
    if percent >= 0 {
        " "@ + text::signed_decimal(percent as int) + "%"@
    } else {
        Seq::empty()
    }
}

pub open spec fn network_shown(
    st: NetworkState,
    theme: Theme,
    icons: bool,
    colors: bool,
) -> ContentView {
    if !st.valid || !st.connected {
        ContentView {
            text: either(icons, "\u{f0a8e} offline"@, "offline"@),
            color: if colors {
                theme.text_muted
            } else {
                theme.text
            },
        }
    } else {
        ContentView {
            text: if st.wireless {
                if icons {
                    "\u{f05a9}"@ + signal_text(st.signal_percent)
                } else if st.ssid@.len() == 0 {
                    "wifi"@ + signal_text(st.signal_percent)
                } else {
                    st.ssid@ + signal_text(st.signal_percent)
                }
            } else {
                either(icons, "\u{f0200}"@, "eth"@)
            },
            color: if colors {
                theme.accent
            } else {
                theme.text
            },
        }
    }
}

pub open spec fn battery_icon(st: BatteryState) -> Seq<char> {
    if st.full || st.percent >= 95 {
        "\u{f0079}"@
    } else if st.charging {
        "\u{f0084}"@
    } else if st.percent >= 70 {
        "\u{f0082}"@
    } else if st.percent >= 40 {
        "\u{f007e}"@
    } else if st.percent >= 15 {
        "\u{f007a}"@
    } else {
        "\u{f008e}"@
    }
}

pub open spec fn battery_shown(
    st: BatteryState,
    theme: Theme,
    icons: bool,
    colors: bool,
) -> ContentView {
    if !st.valid {
        nothing(theme.text)
    } else {
        ContentView {
            text: either(icons, share(battery_icon(st), st.percent), share("bat"@, st.percent)),
            color: if !colors {
                theme.text
            } else if st.full {
                theme.accent
            } else if st.charging {
                theme.accent_soft
            } else if st.percent <= 15 {
                theme.accent
            } else {
                theme.text
            },
        }
    }
}

pub open spec fn brightness_shown(st: BrightnessState, theme: Theme, icons: bool) -> ContentView {
    if !st.valid {
        nothing(theme.text)
    } else {
        ContentView {
            text: either(icons, share("\u{f00df}"@, st.percent), share("bri"@, st.percent)),
            color: theme.text,
        }
    }
}

pub open spec fn media_icon(st: MediaState) -> Seq<char> {
    if st.playing {
        "\u{f040a}"@
    } else if st.paused {
        "\u{f03e4}"@
    } else {
        "\u{f04db}"@
    }
}

pub open spec fn media_shown(st: MediaState, theme: Theme, icons: bool, colors: bool) -> ContentView {
    if !st.valid || st.text@.len() == 0 {
        nothing(theme.text)
    } else {
        ContentView {
            text: either(icons, media_icon(st) + " "@ + st.text@, st.text@),
            color: if colors && st.playing {
                theme.accent
            } else {
                theme.text
            },
        }
    }
}

/// A share of something, with a warning colour from 90 percent on.
pub open spec fn load_shown(
    valid: bool,
    percent: i32,
    icon: Seq<char>,
    word: Seq<char>,
    theme: Theme,
    icons: bool,
    colors: bool,
) -> ContentView {
    if !valid {
        nothing(theme.text)
    } else {
        ContentView {
            text: either(icons, share(icon, percent), share(word, percent)),
            color: if colors && percent >= 90 {
                theme.accent
            } else {
                theme.text
            },
        }
    }
}

/// Whether a title, where it is too long, can be cut.
pub open spec fn title_ok(title: Seq<char>) -> bool {
    text::byte_len(title, title.len() as int) > 60 ==> text::prefix_chars(
        title,
        57,
        title.len() as int,
    ) is Some
}

/// A title, cut after 57 bytes where it takes more than 60.
pub open spec fn title_shown(title: Seq<char>) -> Seq<char> {
    if title.len() == 0 {
        "kara"@
    } else if text::byte_len(title, title.len() as int) > 60 {
        match text::prefix_chars(title, 57, title.len() as int) {
            Some(n) => title.take(n) + "..."@,
            None => title,
        }
    } else {
        title
    }
}

/// The number of the monitor, in brackets where it has the focus.
pub open spec fn monitor_number(n: nat, focused: bool) -> Seq<char> {
    if focused {
        "["@ + text::decimal(n) + "]"@
    } else {
        " "@ + text::decimal(n) + " "@
    }
}

pub open spec fn monitor_shown(
    id: int,
    focused: bool,
    sync: bool,
    theme: Theme,
    icons: bool,
    colors: bool,
) -> ContentView {
    let body = monitor_number((id + 1) as nat, focused);
    let head = either(icons, "\u{f0379}"@, "mon"@) + body;
    ContentView {
        text: if sync {
            head + either(icons, "\u{f0b38}"@, "sync"@)
        } else {
            head
        },
        color: if !colors {
            theme.text_muted
        } else if focused {
            theme.accent
        } else if sync {
            theme.accent_soft
        } else {
            theme.text_muted
        },
    }
}

/// The time, as it is written out, with a picture before it.
pub open spec fn clock_shown(written: Seq<char>, theme: Theme, icons: bool) -> ContentView {
    ContentView { text: either(icons, "\u{f0954} "@ + written, written), color: theme.text }
}

/// What a command has printed, where it has succeeded.
pub open spec fn printed(ran: Option<Seq<char>>, theme: Theme) -> ContentView {
    match ran {
        Some(out) => ContentView { text: scan::trimmed(out), color: theme.text },
        None => nothing(theme.text),
    }
}

/// What a module shows. `written` is the time as it is written out, and `ran`
/// what the command of the module has printed, where it has succeeded.
pub open spec fn shown(
    kind: BarModuleKind,
    c: ModuleContext,
    written: Seq<char>,
    ran: Option<Seq<char>>,
) -> ContentView {
    let theme = *c.theme;
    let st = *c.status;
    match kind {
        BarModuleKind::Workspaces => nothing(theme.text),
        BarModuleKind::Clock => clock_shown(written, theme, c.icons),
        BarModuleKind::Volume => volume_shown(st.volume, theme, c.icons, c.colors),
        BarModuleKind::Network => network_shown(st.network, theme, c.icons, c.colors),
        BarModuleKind::Battery => battery_shown(st.battery, theme, c.icons, c.colors),
        BarModuleKind::Brightness => brightness_shown(st.brightness, theme, c.icons),
        BarModuleKind::Media => media_shown(st.media, theme, c.icons, c.colors),
        BarModuleKind::Memory => load_shown(
            st.memory.valid,
            st.memory.used_percent,
            "\u{f035b}"@,
            "mem"@,
            theme,
            c.icons,
            c.colors,
        ),
        BarModuleKind::Cpu => load_shown(
            st.cpu.valid,
            st.cpu.usage_percent,
            "\u{f4bc}"@,
            "cpu"@,
            theme,
            c.icons,
            c.colors,
        ),
        BarModuleKind::Title => ContentView {
            text: title_shown(c.focused_title@),
            color: theme.text,
        },
        BarModuleKind::Monitor => monitor_shown(
            c.monitor_id as int,
            c.is_focused_monitor,
            c.sync_enabled,
            theme,
            c.icons,
            c.colors,
        ),
        BarModuleKind::Sync => monitor_shown(
            c.monitor_id as int,
            c.is_focused_monitor,
            c.sync_enabled,
            theme,
            c.icons,
            c.colors,
        ),
        BarModuleKind::Weather => nothing(theme.text),
        BarModuleKind::Status => nothing(theme.text),
        BarModuleKind::Custom => printed(ran, theme),
        BarModuleKind::Script(_) => printed(ran, theme),
    }
}

// ---- Building them ----------------------------------------------------------

fn empty_content(color: u32) -> (c: ModuleContent)
    ensures
        c@ == nothing(color),
{
    let text: String = String::new();
    assert(text@ =~= Seq::<char>::empty());
    ModuleContent { text, color }
}

fn pick(icons: bool, a: &str, b: &str) -> (out: String)
    ensures
        out@ == either(icons, a@, b@),
{
    if icons {
        a.to_owned()
    } else {
        b.to_owned()
    }
}

fn share_text(word: &str, percent: i32) -> (out: String)
    ensures
        out@ == share(word@, percent),
{
    let mut out: String = word.to_owned();
    out.push_str(" ");
    text::push_signed(&mut out, percent as i64);
    out.push_str("%");
    out
}

fn show_clock(written: &str, ctx: &ModuleContext) -> (c: ModuleContent)
    ensures
        c@ == clock_shown(written@, *ctx.theme, ctx.icons),
{
    let text: String = if ctx.icons {
        let mut t: String = "\u{f0954} ".to_owned();
        t.push_str(written);
        t
    } else {
        written.to_owned()
    };
    ModuleContent { text, color: ctx.theme.text }
}

fn build_volume(ctx: &ModuleContext) -> (c: ModuleContent)
    ensures
        c@ == volume_shown(ctx.status.volume, *ctx.theme, ctx.icons, ctx.colors),
{
    let st: VolumeState = ctx.status.volume;
    if !st.valid {
        return ModuleContent {
            text: pick(ctx.icons, "\u{f0581} audio", "audio"),
            color: ctx.theme.text_muted,
        };
    }
    let icon: &str = if st.muted {
        "\u{f075f}"
    } else if st.percent >= 66 {
        "\u{f057e}"
    } else if st.percent >= 33 {
        "\u{f0580}"
    } else {
        "\u{f057f}"
    };
    let text: String = if st.muted {
        if ctx.icons {
            let mut t: String = icon.to_owned();
            t.push_str(" muted");
            t
        } else {
            "vol muted".to_owned()
        }
    } else if ctx.icons {
        share_text(icon, st.percent)
    } else {
        share_text("vol", st.percent)
    };
    let color: u32 = if ctx.colors && st.muted {
        ctx.theme.text_muted
    } else {
        ctx.theme.text
    };
    ModuleContent { text, color }
}

fn signal_of(percent: i32) -> (out: String)
    ensures
        out@ == signal_text(percent),
{
    let mut out: String = String::new();
    assert(out@ =~= Seq::<char>::empty());
    if percent >= 0 {
        out.push_str(" ");
        text::push_signed(&mut out, percent as i64);
        out.push_str("%");
        assert(out@ =~= signal_text(percent));
    }
    out
}

fn build_network(ctx: &ModuleContext) -> (c: ModuleContent)
    ensures
        c@ == network_shown(ctx.status.network, *ctx.theme, ctx.icons, ctx.colors),
{
    let st: &NetworkState = &ctx.status.network;
    if !st.valid || !st.connected {
        return ModuleContent {
            text: pick(ctx.icons, "\u{f0a8e} offline", "offline"),
            color: if ctx.colors {
                ctx.theme.text_muted
            } else {
                ctx.theme.text
            },
        };
    }
    let text: String = if st.wireless {
        let signal: String = signal_of(st.signal_percent);
        let mut t: String = if ctx.icons {
            "\u{f05a9}".to_owned()
        } else if st.ssid.as_str().is_empty() {
            "wifi".to_owned()
        } else {
            text::copy_str(&st.ssid)
        };
        t.push_str(signal.as_str());
        t
    } else {
        pick(ctx.icons, "\u{f0200}", "eth")
    };
    let color: u32 = if ctx.colors {
        ctx.theme.accent
    } else {
        ctx.theme.text
    };
    ModuleContent { text, color }
}

fn build_battery(ctx: &ModuleContext) -> (c: ModuleContent)
    ensures
        c@ == battery_shown(ctx.status.battery, *ctx.theme, ctx.icons, ctx.colors),
{
    let st: BatteryState = ctx.status.battery;
    if !st.valid {
        return empty_content(ctx.theme.text);
    }
    let icon: &str = if st.full || st.percent >= 95 {
        "\u{f0079}"
    } else if st.charging {
        "\u{f0084}"
    } else if st.percent >= 70 {
        "\u{f0082}"
    } else if st.percent >= 40 {
        "\u{f007e}"
    } else if st.percent >= 15 {
        "\u{f007a}"
    } else {
        "\u{f008e}"
    };
    let text: String = if ctx.icons {
        share_text(icon, st.percent)
    } else {
        share_text("bat", st.percent)
    };
    let color: u32 = if !ctx.colors {
        ctx.theme.text
    } else if st.full {
        ctx.theme.accent
    } else if st.charging {
        ctx.theme.accent_soft
    } else if st.percent <= 15 {
        ctx.theme.accent
    } else {
        ctx.theme.text
    };
    ModuleContent { text, color }
}

fn build_brightness(ctx: &ModuleContext) -> (c: ModuleContent)
    ensures
        c@ == brightness_shown(ctx.status.brightness, *ctx.theme, ctx.icons),
{
    let st: BrightnessState = ctx.status.brightness;
    if !st.valid {
        return empty_content(ctx.theme.text);
    }
    let text: String = if ctx.icons {
        share_text("\u{f00df}", st.percent)
    } else {
        share_text("bri", st.percent)
    };
    ModuleContent { text, color: ctx.theme.text }
}

fn build_media(ctx: &ModuleContext) -> (c: ModuleContent)
    ensures
        c@ == media_shown(ctx.status.media, *ctx.theme, ctx.icons, ctx.colors),
{
    let st: &MediaState = &ctx.status.media;
    if !st.valid || st.text.as_str().is_empty() {
        return empty_content(ctx.theme.text);
    }
    let icon: &str = if st.playing {
        "\u{f040a}"
    } else if st.paused {
        "\u{f03e4}"
    } else {
        "\u{f04db}"
    };
    let text: String = if ctx.icons {
        let mut t: String = icon.to_owned();
        t.push_str(" ");
        t.push_str(st.text.as_str());
        t
    } else {
        text::copy_str(&st.text)
    };
    let color: u32 = if ctx.colors && st.playing {
        ctx.theme.accent
    } else {
        ctx.theme.text
    };
    ModuleContent { text, color }
}

fn build_load(valid: bool, percent: i32, icon: &str, word: &str, ctx: &ModuleContext) -> (c:
    ModuleContent)
    ensures
        c@ == load_shown(valid, percent, icon@, word@, *ctx.theme, ctx.icons, ctx.colors),
{
    if !valid {
        return empty_content(ctx.theme.text);
    }
    let text: String = if ctx.icons {
        share_text(icon, percent)
    } else {
        share_text(word, percent)
    };
    let color: u32 = if ctx.colors && percent >= 90 {
        ctx.theme.accent
    } else {
        ctx.theme.text
    };
    ModuleContent { text, color }
}

fn build_memory(ctx: &ModuleContext) -> (c: ModuleContent)
    ensures
        c@ == load_shown(
            ctx.status.memory.valid,
            ctx.status.memory.used_percent,
            "\u{f035b}"@,
            "mem"@,
            *ctx.theme,
            ctx.icons,
            ctx.colors,
        ),
{
    let st: MemoryState = ctx.status.memory;
    build_load(st.valid, st.used_percent, "\u{f035b}", "mem", ctx)
}

fn build_cpu(ctx: &ModuleContext) -> (c: ModuleContent)
    ensures
        c@ == load_shown(
            ctx.status.cpu.valid,
            ctx.status.cpu.usage_percent,
            "\u{f4bc}"@,
            "cpu"@,
            *ctx.theme,
            ctx.icons,
            ctx.colors,
        ),
{
    let st: CpuState = ctx.status.cpu;
    build_load(st.valid, st.usage_percent, "\u{f4bc}", "cpu", ctx)
}

/// Whether a title, where it is too long, can be cut.
pub fn title_fits(title: &str) -> (r: bool)
    ensures
        r == title_ok(title@),
{
    !text::longer_than(title, 60) || text::byte_prefix(title, 57).is_some()
}

fn build_title(ctx: &ModuleContext) -> (c: ModuleContent)
    requires
        title_ok(ctx.focused_title@),
    ensures
        c@ == (ContentView { text: title_shown(ctx.focused_title@), color: ctx.theme.text }),
{
    let title: &str = ctx.focused_title.as_str();
    let text: String = if title.is_empty() {
        "kara".to_owned()
    } else if text::longer_than(title, 60) {
        match text::byte_prefix(title, 57) {
            Some(mut head) => {
                head.push_str("...");
                head
            },
            None => text::copy_str(&ctx.focused_title),
        }
    } else {
        text::copy_str(&ctx.focused_title)
    };
    ModuleContent { text, color: ctx.theme.text }
}

fn build_monitor(ctx: &ModuleContext) -> (c: ModuleContent)
    requires
        ctx.monitor_id < usize::MAX,
    ensures
        c@ == monitor_shown(
            ctx.monitor_id as int,
            ctx.is_focused_monitor,
            ctx.sync_enabled,
            *ctx.theme,
            ctx.icons,
            ctx.colors,
        ),
{
    let mut body: String = if ctx.is_focused_monitor {
        "[".to_owned()
    } else {
        " ".to_owned()
    };
    text::push_decimal(&mut body, (ctx.monitor_id + 1) as u64);
    if ctx.is_focused_monitor {
        body.push_str("]");
    } else {
        body.push_str(" ");
    }
    assert(body@ =~= monitor_number((ctx.monitor_id + 1) as nat, ctx.is_focused_monitor));
    let mut text: String = pick(ctx.icons, "\u{f0379}", "mon");
    text.push_str(body.as_str());
    if ctx.sync_enabled {
        if ctx.icons {
            text.push_str("\u{f0b38}");
        } else {
            text.push_str("sync");
        }
    }
    let color: u32 = if !ctx.colors {
        ctx.theme.text_muted
    } else if ctx.is_focused_monitor {
        ctx.theme.accent
    } else if ctx.sync_enabled {
        ctx.theme.accent_soft
    } else {
        ctx.theme.text_muted
    };
    ModuleContent { text, color }
}

fn build_printed(ran: Option<&str>, ctx: &ModuleContext) -> (c: ModuleContent)
    ensures
        c@ == printed(
            match ran {
                Some(o) => Some(o@),
                None => None,
            },
            *ctx.theme,
        ),
{
    match ran {
        Some(out) => ModuleContent { text: scan::trim(out), color: ctx.theme.text },
        None => empty_content(ctx.theme.text),
    }
}

/// What a module shows. `written` is the time as it is written out, and `ran`
/// what the command of the module has printed, where it has succeeded.
pub fn build_module_text(
    kind: &BarModuleKind,
    ctx: &ModuleContext,
    written: &str,
    ran: Option<&str>,
) -> (c: ModuleContent)
    requires
        title_ok(ctx.focused_title@),
        ctx.monitor_id < usize::MAX,
    ensures
        c@ == shown(
            *kind,
            *ctx,
            written@,
            match ran {
                Some(o) => Some(o@),
                None => None,
            },
        ),
{
    match kind {
        BarModuleKind::Workspaces => empty_content(ctx.theme.text),
        BarModuleKind::Clock => show_clock(written, ctx),
        BarModuleKind::Volume => build_volume(ctx),
        BarModuleKind::Network => build_network(ctx),
        BarModuleKind::Battery => build_battery(ctx),
        BarModuleKind::Brightness => build_brightness(ctx),
        BarModuleKind::Media => build_media(ctx),
        BarModuleKind::Memory => build_memory(ctx),
        BarModuleKind::Cpu => build_cpu(ctx),
        BarModuleKind::Title => build_title(ctx),
        BarModuleKind::Monitor => build_monitor(ctx),
        BarModuleKind::Sync => build_monitor(ctx),
        BarModuleKind::Weather => empty_content(ctx.theme.text),
        BarModuleKind::Status => empty_content(ctx.theme.text),
        BarModuleKind::Custom => build_printed(ran, ctx),
        BarModuleKind::Script(_) => build_printed(ran, ctx),
    }
}

// ---- What they need from outside --------------------------------------------

/// How the clock writes the time: as the module asks for, else in the usual
/// way.
pub open spec fn time_format(arg: Option<Seq<char>>) -> Seq<char> {
    match arg {
        Some(a) => a,
        None => "%a %b %d \u{2022} %H:%M"@,
    }
}

/// How the clock writes the time.
pub fn clock_format(arg: Option<&str>) -> (out: String)
    ensures
        out@ == time_format(
            match arg {
                Some(a) => Some(a@),
                None => None,
            },
        ),
{
    match arg {
        Some(a) => a.to_owned(),
        None => "%a %b %d \u{2022} %H:%M".to_owned(),
    }
}

/// Whether `chrono` can write a time in a format: all that follows a percent
/// sign in it is known.
pub uninterp spec fn is_time_format(format: Seq<char>) -> bool;

/// `chrono::Local::now` and `DateTime::format`: the local time in a format.
/// Claimed is that it is written exactly where the format is one that `chrono`
/// knows, which the format alone decides, and that a format without a percent
/// sign is copied as it is. What is written otherwise depends on the clock and
/// the time zone of the machine, and is left unsaid.
#[verifier::external_body]
fn local_time(format: &str) -> (out: Option<String>)
    ensures
        out is Some == is_time_format(format@),
        !format@.contains('%') ==> out is Some,
        !format@.contains('%') ==> out->0@ == format@,
{
    let mut out: String = String::new();
    match write!(out, "{}", chrono::Local::now().format(format)) {
        Ok(()) => Some(out),
        Err(_) => None,
    }
}

/// What the clock shows now; `None` where the time cannot be written in the
/// format that the module asks for.
pub fn build_clock(arg: Option<&str>, ctx: &ModuleContext) -> (out: Option<ModuleContent>)
    ensures
        ({
            let format = time_format(
                match arg {
                    Some(a) => Some(a@),
                    None => None,
                },
            );
            &&& out is Some == is_time_format(format)
            &&& out matches Some(c) ==> exists|written: Seq<char>|
                c@ == #[trigger] clock_shown(written, *ctx.theme, ctx.icons) && (
                !format.contains('%') ==> written == format)
        }),
{
    let format: String = clock_format(arg);
    match local_time(format.as_str()) {
        Some(written) => {
            let c: ModuleContent = show_clock(written.as_str(), ctx);
            assert(c@ == clock_shown(written@, *ctx.theme, ctx.icons));
            Some(c)
        },
        None => None,
    }
}

/// A letter without accents as a capital.
pub open spec fn upper(c: char) -> char {
    if 'a' <= c && c <= 'z' {
        ((c as int) - 32) as char
    } else {
        c
    }
}

/// The text with its letters without accents as capitals.
pub open spec fn uppercase(s: Seq<char>) -> Seq<char> {
    s.map_values(|c: char| upper(c))
}

fn to_upper(c: char) -> (u: char)
    ensures
        u == upper(c),
{
    if 'a' <= c && c <= 'z' {
        ((c as u8) - 32) as char
    } else {
        c
    }
}

/// The variable of the environment that names the command of a module.
pub fn script_variable(name: &str) -> (out: String)
    ensures
        out@ == "KARA_"@ + uppercase(name@) + "_CMD"@,
{
    let cs: Vec<char> = text::chars_of(name);
    let mut up: String = String::new();
    assert(up@ =~= uppercase(cs@.take(0)));
    let mut i: usize = 0;
    while i < cs.len()
        invariant
            i <= cs.len(),
            up@ == uppercase(cs@.take(i as int)),
        decreases cs.len() - i,
    {
        up.push(to_upper(cs[i]));
        i = i + 1;
        assert(up@ =~= uppercase(cs@.take(i as int)));
    }
    assert(cs@.take(cs@.len() as int) =~= cs@);
    let mut out: String = "KARA_".to_owned();
    out.push_str(up.as_str());
    out.push_str("_CMD");
    out
}

/// The command that a module runs: what is asked for, where it is not empty.
pub fn command_of(asked: Option<&str>) -> (out: Option<String>)
    ensures
        text::opt_view(out) == (match asked {
            Some(c) => if c@.len() > 0 {
                Some(c@)
            } else {
                None
            },
            None => None,
        }),
{
    match asked {
        Some(c) => {
            if c.is_empty() {
                None
            } else {
                Some(c.to_owned())
            }
        },
        None => None,
    }
}

// ---- The volume graph -------------------------------------------------------

/// The size of the graph beside the volume.
#[derive(Clone, Copy, Debug, PartialEq, Eq, Structural)]
pub struct VolumeBarSize {
    pub width: u32,
    pub height: u32,
    pub radius: u32,
}

/// The size of the graph, by the first argument of the module; `None` where
/// there is to be none.
pub fn volume_bar_size(arg: Option<&str>) -> (out: Option<VolumeBarSize>)
    ensures
        out == (match arg {
            Some(a) => if a@ == "none"@ {
                None
            } else if a@ == "small"@ {
                Some(VolumeBarSize { width: 32, height: 4, radius: 2 })
            } else if a@ == "large"@ {
                Some(VolumeBarSize { width: 64, height: 8, radius: 4 })
            } else {
                Some(VolumeBarSize { width: 46, height: 6, radius: 3 })
            },
            None => Some(VolumeBarSize { width: 46, height: 6, radius: 3 }),
        }),
{
    match arg {
        Some(a) => {
            if eq_str(a, "none") {
                None
            } else if eq_str(a, "small") {
                Some(VolumeBarSize { width: 32, height: 4, radius: 2 })
            } else if eq_str(a, "large") {
                Some(VolumeBarSize { width: 64, height: 8, radius: 4 })
            } else {
                Some(VolumeBarSize { width: 46, height: 6, radius: 3 })
            }
        },
        None => Some(VolumeBarSize { width: 46, height: 6, radius: 3 }),
    }
}

/// How full the graph is, in percent.
pub fn volume_fill(v: &VolumeState) -> (percent: i32)
    ensures
        percent == (if !v.valid || v.muted || v.percent < 0 {
            0
        } else if v.percent > 100 {
            100
        } else {
            v.percent as int
        }),
{
    if !v.valid || v.muted || v.percent < 0 {
        0
    } else if v.percent > 100 {
        100
    } else {
        v.percent
    }
}

/// A part of a colour at a brightness in percent, rounded to the nearest and
/// at most 255.
pub open spec fn scaled_part(part: int, percent: int) -> int {
    let v = (2 * (part * percent) + 100) / 200;
    if v > 255 {
        255
    } else {
        v
    }
}

/// The brightness at which the colour of the graph is shown, in percent: four
/// tiers, the louder the brighter.
pub open spec fn tier(percent: int) -> int {
    if percent < 25 {
        55
    } else if percent < 60 {
        80
    } else if percent < 85 {
        100
    } else {
        125
    }
}

fn scale_part(part: u32, percent: u32) -> (v: u32)
    requires
        part <= 255,
        percent <= 125,
    ensures
        v == scaled_part(part as int, percent as int),
        v <= 255,
{
    assert(0 <= part * percent <= 255 * 125) by (nonlinear_arith)
        requires
            0 <= part <= 255,
            0 <= percent <= 125,
    ;
    let v: u32 = (2 * (part * percent) + 100) / 200;
    if v > 255 {
        255
    } else {
        v
    }
}

/// A colour at a brightness in percent.
pub fn scale_rgb(rgb: u32, percent: u32) -> (out: u32)
    requires
        percent <= 125,
    ensures
        out == scaled_part(((rgb / 0x1_0000) % 0x100) as int, percent as int) * 0x1_0000
            + scaled_part(((rgb / 0x100) % 0x100) as int, percent as int) * 0x100 + scaled_part(
            (rgb % 0x100) as int,
            percent as int,
        ),
{
    let r: u32 = scale_part((rgb / 0x1_0000) % 0x100, percent);
    let g: u32 = scale_part((rgb / 0x100) % 0x100, percent);
    let b: u32 = scale_part(rgb % 0x100, percent);
    r * 0x1_0000 + g * 0x100 + b
}

/// The colour of the graph at a volume in percent.
pub fn volume_tier_color(accent: u32, percent: i32) -> (out: u32)
    ensures
        out == scaled_part(((accent / 0x1_0000) % 0x100) as int, tier(percent as int)) * 0x1_0000
            + scaled_part(((accent / 0x100) % 0x100) as int, tier(percent as int)) * 0x100
            + scaled_part((accent % 0x100) as int, tier(percent as int)),
{
    let t: u32 = if percent < 25 {
        55
    } else if percent < 60 {
        80
    } else if percent < 85 {
        100
    } else {
        125
    };
    scale_rgb(accent, t)
}

/// The louder, the brighter: no part of the colour gets darker as the volume
/// rises.
pub proof fn law_louder_is_brighter(part: int, low: int, high: int)
    requires
        0 <= part <= 255,
        low <= high,
    ensures
        scaled_part(part, tier(low)) <= scaled_part(part, tier(high)),
{
    assert(part * tier(low) <= part * tier(high)) by (nonlinear_arith)
        requires
            0 <= part,
            tier(low) <= tier(high),
    ;
}

// ---- Workspaces -------------------------------------------------------------

/// Whether two texts are equal but for capitals among the letters without
/// accents.
pub open spec fn same_letters(a: Seq<char>, b: Seq<char>) -> bool {
    scan::ascii_lowercase(a) == scan::ascii_lowercase(b)
}

/// Whether the workspaces are shown as badges.
pub fn workspaces_is_badges(args: &Vec<String>) -> (r: bool)
    ensures
        r == (exists|i: int|
            0 <= i < args@.len() && (same_letters((#[trigger] args@[i])@, "badges"@)
                || same_letters(args@[i]@, "big"@))),
{
    let badges: String = scan::to_ascii_lowercase("badges");
    let big: String = scan::to_ascii_lowercase("big");
    let mut i: usize = 0;
    while i < args.len()
        invariant
            i <= args.len(),
            badges@ == scan::ascii_lowercase("badges"@),
            big@ == scan::ascii_lowercase("big"@),
            forall|k: int|
                0 <= k < i ==> !(same_letters((#[trigger] args@[k])@, "badges"@) || same_letters(
                    args@[k]@,
                    "big"@,
                )),
        decreases args.len() - i,
    {
        let low: String = scan::to_ascii_lowercase(args[i].as_str());
        if eq_str(low.as_str(), badges.as_str()) || eq_str(low.as_str(), big.as_str()) {
            assert(same_letters(args@[i as int]@, "badges"@) || same_letters(
                args@[i as int]@,
                "big"@,
            ));
            return true;
        }
        i = i + 1;
    }
    false
}

/// The workspaces among the first `n` that get a badge: those in use and the
/// one that is shown.
pub open spec fn badges_of(current: usize, occupied: Seq<bool>, n: int) -> Seq<usize>
    decreases n,
{
    if n <= 0 {
        Seq::empty()
    } else if n - 1 == current || occupied[n - 1] {
        badges_of(current, occupied, n - 1).push((n - 1) as usize)
    } else {
        badges_of(current, occupied, n - 1)
    }
}

/// The workspaces that get a badge.
pub fn visible_badges(current_ws: usize, occupied: &[bool; 9]) -> (out: Vec<usize>)
    ensures
        out@ == badges_of(current_ws, occupied@, 9),
{
    let mut out: Vec<usize> = Vec::new();
    let mut i: usize = 0;
    while i < 9
        invariant
            i <= 9,
            out@ == badges_of(current_ws, occupied@, i as int),
        decreases 9 - i,
    {
        if i == current_ws || occupied[i] {
            out.push(i);
        }
        i = i + 1;
    }
    out
}

/// The colour of the sign of a workspace.
pub fn workspace_color(is_current: bool, is_occupied: bool, theme: &Theme) -> (c: u32)
    ensures
        c == (if is_current {
            theme.accent
        } else if is_occupied {
            theme.border
        } else {
            theme.text_muted
        }),
{
    if is_current {
        theme.accent
    } else if is_occupied {
        theme.border
    } else {
        theme.text_muted
    }
}

// ---- What holds of what is shown --------------------------------------------

/// Without pictures a share is written as its word, its number and a percent
/// sign.
pub proof fn law_shares_are_written_out(
    c: ModuleContext,
    written: Seq<char>,
    ran: Option<Seq<char>>,
)
    requires
        !c.icons,
    ensures
        ({
            let st = *c.status;
            let text = |kind: BarModuleKind| shown(kind, c, written, ran).text;
            let number = |n: i32| text::signed_decimal(n as int) + "%"@;
            &&& st.volume.valid && !st.volume.muted ==> text(BarModuleKind::Volume) =~= "vol"@ + " "@
                + number(st.volume.percent)
            &&& st.volume.valid && st.volume.muted ==> text(BarModuleKind::Volume) == "vol muted"@
            &&& !st.volume.valid ==> text(BarModuleKind::Volume) == "audio"@
            &&& st.battery.valid ==> text(BarModuleKind::Battery) =~= "bat"@ + " "@ + number(
                st.battery.percent,
            )
            &&& st.brightness.valid ==> text(BarModuleKind::Brightness) =~= "bri"@ + " "@ + number(
                st.brightness.percent,
            )
            &&& st.memory.valid ==> text(BarModuleKind::Memory) =~= "mem"@ + " "@ + number(
                st.memory.used_percent,
            )
            &&& st.cpu.valid ==> text(BarModuleKind::Cpu) =~= "cpu"@ + " "@ + number(
                st.cpu.usage_percent,
            )
            &&& text(BarModuleKind::Clock) == written
            &&& st.media.valid ==> text(BarModuleKind::Media) =~= st.media.text@
        }),
{
    let st = *c.status;
    if st.media.valid && st.media.text@.len() == 0 {
        assert(st.media.text@ =~= Seq::<char>::empty());
    }
}

/// What is not known is not shown.
pub proof fn law_unknown_is_not_shown(c: ModuleContext, written: Seq<char>, ran: Option<Seq<char>>)
    ensures
        ({
            let st = *c.status;
            let len = |kind: BarModuleKind| shown(kind, c, written, ran).text.len();
            &&& !st.battery.valid ==> len(BarModuleKind::Battery) == 0
            &&& !st.brightness.valid ==> len(BarModuleKind::Brightness) == 0
            &&& !st.memory.valid ==> len(BarModuleKind::Memory) == 0
            &&& !st.cpu.valid ==> len(BarModuleKind::Cpu) == 0
            &&& !st.media.valid ==> len(BarModuleKind::Media) == 0
            &&& ran is None ==> len(BarModuleKind::Custom) == 0
        }),
{
}

/// The network is told as a cable, as the name of the wireless link, or as
/// offline; the strength of a link is told where it is known.
pub proof fn law_network_is_named(c: ModuleContext, written: Seq<char>, ran: Option<Seq<char>>)
    requires
        !c.icons,
    ensures
        ({
            let n = c.status.network;
            let text = shown(BarModuleKind::Network, c, written, ran).text;
            &&& !(n.valid && n.connected) ==> text == "offline"@
            &&& n.valid && n.connected && !n.wireless ==> text == "eth"@
            &&& n.valid && n.connected && n.wireless && n.ssid@.len() > 0 && n.signal_percent >= 0
                ==> text =~= n.ssid@ + " "@ + text::signed_decimal(n.signal_percent as int) + "%"@
            &&& n.valid && n.connected && n.wireless && n.ssid@.len() > 0 && n.signal_percent < 0
                ==> text =~= n.ssid@
            &&& n.valid && n.connected && n.wireless && n.ssid@.len() == 0 && n.signal_percent < 0
                ==> text =~= "wifi"@
        }),
{
}

/// In colour, a battery stands out when it is full or nearly empty, and memory
/// and processor when they are used to nine tenths; without colour nothing does.
pub proof fn law_warnings_stand_out(c: ModuleContext, written: Seq<char>, ran: Option<Seq<char>>)
    ensures
        ({
            let st = *c.status;
            let t = *c.theme;
            let color = |kind: BarModuleKind| shown(kind, c, written, ran).color;
            let b = st.battery;
            &&& b.valid ==> color(BarModuleKind::Battery) == (if !c.colors {
                t.text
            } else if b.full || (!b.charging && b.percent <= 15) {
                t.accent
            } else if b.charging {
                t.accent_soft
            } else {
                t.text
            })
            &&& st.memory.valid ==> color(BarModuleKind::Memory) == (if c.colors
                && st.memory.used_percent >= 90 {
                t.accent
            } else {
                t.text
            })
            &&& st.cpu.valid ==> color(BarModuleKind::Cpu) == (if c.colors && st.cpu.usage_percent
                >= 90 {
                t.accent
            } else {
                t.text
            })
            &&& st.volume.valid ==> color(BarModuleKind::Volume) == (if c.colors && st.volume.muted {
                t.text_muted
            } else {
                t.text
            })
            &&& st.media.valid && st.media.text@.len() > 0 ==> color(BarModuleKind::Media) == (
            if c.colors && st.media.playing {
                t.accent
            } else {
                t.text
            })
        }),
{
}

/// With pictures the loudspeaker has three waves from 66 percent on, two from 33
/// on and one below; it is crossed out where it is muted, whatever the volume.
pub proof fn law_louder_has_more_waves(a: VolumeState, b: VolumeState)
    requires
        !a.muted,
        !b.muted,
    ensures
        volume_icon(a) == volume_icon(b) <==> (a.percent >= 66) == (b.percent >= 66) && (a.percent
            >= 33) == (b.percent >= 33),
        a.percent >= 66 ==> volume_icon(a) == "\u{f057e}"@,
        a.percent < 33 ==> volume_icon(a) == "\u{f057f}"@,
        volume_icon(VolumeState { muted: true, ..a }) == volume_icon(VolumeState { muted: true, ..b }),
        volume_icon(VolumeState { muted: true, ..a }) != volume_icon(b),
{
    reveal_strlit("\u{f075f}");
    reveal_strlit("\u{f057e}");
    reveal_strlit("\u{f0580}");
    reveal_strlit("\u{f057f}");
    assert("\u{f075f}"@[0] != "\u{f057e}"@[0]);
    assert("\u{f075f}"@[0] != "\u{f0580}"@[0]);
    assert("\u{f075f}"@[0] != "\u{f057f}"@[0]);
    assert("\u{f057e}"@[0] != "\u{f0580}"@[0]);
    assert("\u{f057e}"@[0] != "\u{f057f}"@[0]);
    assert("\u{f0580}"@[0] != "\u{f057f}"@[0]);
}

/// A title that takes at most sixty bytes is shown as it is, and none as the
/// name of the desktop; a longer one is cut to its first 57 bytes, with three
/// dots behind.
pub proof fn law_long_titles_are_cut(title: Seq<char>, n: int)
    ensures
        title.len() == 0 ==> title_shown(title) == "kara"@,
        title.len() > 0 && text::byte_len(title, title.len() as int) <= 60 ==> title_shown(title)
            == title,
        text::byte_len(title, title.len() as int) > 60 && text::prefix_chars(
            title,
            57,
            title.len() as int,
        ) == Some(n) ==> title_shown(title) == title.take(n) + "..."@,
{
    if title.len() == 0 {
        assert(text::byte_len(title, 0) == 0);
    }
}

/// The monitor with the focus has its number, counted from one, in brackets;
/// where the outputs go together, that is told behind it.
pub proof fn law_monitor_is_numbered(c: ModuleContext, written: Seq<char>, ran: Option<Seq<char>>)
    requires
        !c.icons,
    ensures
        ({
            let text = shown(BarModuleKind::Monitor, c, written, ran).text;
            let n = text::decimal((c.monitor_id + 1) as nat);
            let head = "mon"@ + (if c.is_focused_monitor {
                "["@ + n + "]"@
            } else {
                " "@ + n + " "@
            });
            &&& !c.sync_enabled ==> text =~= head
            &&& c.sync_enabled ==> text =~= head + "sync"@
        }),
{
}

/// A workspace gets a badge where it is in use or in view, and none otherwise;
/// the badges stand in the order of the workspaces.
pub proof fn law_badges_for_used_workspaces(current: usize, occupied: Seq<bool>, n: int)
    requires
        0 <= n <= occupied.len() <= usize::MAX,
    ensures
        ({
            let b = badges_of(current, occupied, n);
            &&& forall|i: int, j: int| 0 <= i < j < b.len() ==> #[trigger] b[i] < #[trigger] b[j]
            &&& forall|k: int|
                0 <= k < b.len() ==> #[trigger] b[k] < n && (b[k] == current || occupied[b[k] as int])
            &&& forall|w: int|
                0 <= w < n && (w == current || occupied[w]) ==> #[trigger] b.contains(w as usize)
        }),
    decreases n,
{
    if n > 0 {
        law_badges_for_used_workspaces(current, occupied, n - 1);
        let a = badges_of(current, occupied, n - 1);
        let b = badges_of(current, occupied, n);
        assert forall|w: int| 0 <= w < n && (w == current || occupied[w]) implies #[trigger] b.contains(
            w as usize,
        ) by {
            if w < n - 1 {
                assert(a.contains(w as usize));
                let k = choose|k: int| 0 <= k < a.len() && a[k] == w as usize;
                assert(b[k] == w as usize);
            } else {
                assert(b[a.len() as int] == w as usize);
            }
        }
    }
}

/// A part of a colour at a brightness is that share of it, rounded to the
/// nearest, and full where that would be more.
pub proof fn law_brightness_is_a_share(part: int, percent: int)
    requires
        0 <= part <= 255,
        0 <= percent,
    ensures
        ({
            let v = scaled_part(part, percent);
            &&& 0 <= v <= 255
            &&& 2 * (100 * v) <= 2 * (part * percent) + 100
            &&& v < 255 ==> 2 * (part * percent) < 2 * (100 * v) + 100
        }),
        percent == 100 ==> scaled_part(part, percent) == part,
{
    assert(0 <= part * percent) by (nonlinear_arith)
        requires
            0 <= part,
            0 <= percent,
    ;
}

/// In the name of a variable the small letters without accents become capitals,
/// and nothing else changes.
pub proof fn law_capitals(s: Seq<char>, k: int)
    requires
        0 <= k < s.len(),
    ensures
        uppercase(s).len() == s.len(),
        'a' <= s[k] && s[k] <= 'z' ==> uppercase(s)[k] as int == s[k] as int - 32,
        !('a' <= s[k] && s[k] <= 'z') ==> uppercase(s)[k] == s[k],
{
}

/// The clock writes the time as its module asks, and else in the usual way.
pub proof fn law_clock_format(arg: Option<Seq<char>>)
    ensures
        arg matches Some(a) ==> time_format(arg) == a,
        arg is None ==> time_format(arg) == "%a %b %d \u{2022} %H:%M"@,
{
}

} // verus!
