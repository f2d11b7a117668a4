//! The settings that the compositor reads.

use vstd::prelude::*;

use crate::gate::layout;
use crate::ratio;
use crate::text;
use crate::text::eq_str;

verus! {

#[derive(Clone, Copy, Debug, PartialEq, Eq, Structural)]
pub enum AnimationPreset {
    Swoosh,
    Clean,
    Instant,
}

#[derive(Clone, Copy, Debug, PartialEq, Eq, Structural)]
pub enum BarPosition {
    Top,
    Bottom,
}

#[derive(Debug)]
pub struct General {
    pub gap_px: i32,
    pub border_px: i32,
    pub border_radius: i32,
    /// An image to tile the borders with.
    pub border_tile: Option<String>,
    /// The share of the master column, in units of 2^-28.
    pub default_mfact: u32,
    /// Whether all outputs show the same workspace number.
    pub sync_workspaces: bool,
    pub font: String,
    pub cursor_theme: Option<String>,
    pub cursor_size: i32,
}

#[derive(Debug)]
pub struct BarConfig {
    pub enabled: bool,
    pub height: i32,
    pub position: BarPosition,
    pub background: bool,
    pub background_alpha: u8,
    /// Whether the wallpaper is blurred behind it.
    pub blur: bool,
}

#[derive(Clone, Copy, Debug, PartialEq, Eq, Structural)]
pub struct Animations {
    pub preset: AnimationPreset,
    pub duration_ms: u32,
}

#[derive(Clone, Copy, Debug, PartialEq, Eq, Structural)]
pub struct Theme {
    pub bg: u32,
    pub surface: u32,
    pub text: u32,
    pub text_muted: u32,
    pub accent: u32,
    pub accent_soft: u32,
    pub border: u32,
}

/// A floating workspace that is shown and hidden on demand.
#[derive(Debug)]
pub struct ScratchpadConfig {
    pub name: String,
    pub width_pct: u32,
    pub height_pct: u32,
    /// The commands that fill it when it is first shown.
    pub autostart: Vec<String>,
    /// The applications whose windows it takes.
    pub captures: Vec<String>,
    pub dim_alpha: u8,
    pub blur: bool,
    pub blur_passes: u32,
}

/// Where the windows of an application go.
#[derive(Debug)]
pub enum Rule {
    Float { app_id: String },
    Workspace { workspace: usize, app_id: String },
}

/// A command line with a name.
#[derive(Debug)]
pub struct NamedCommand {
    pub name: String,
    pub line: String,
}

/// A command to run when the session starts, and where its window goes.
#[derive(Debug)]
pub struct AutostartEntry {
    pub command: String,
    pub app_id: Option<String>,
    /// The monitor, counted in the order of the settings.
    pub monitor: Option<usize>,
    pub workspace: Option<usize>,
    pub required_monitors: Vec<String>,
    pub forbidden_monitors: Vec<String>,
}

/// A change to the environment of the session.
#[derive(Debug)]
pub enum EnvDirective {
    Assign { key: String, value: String },
    Source { path: String },
}

#[derive(Clone, Copy, Debug, PartialEq, Eq, Structural)]
pub enum Rotation {
    Normal,
    Left,
    Right,
    Flipped,
}

/// What the settings say of a monitor.
#[derive(Debug)]
pub struct MonitorConfig {
    pub name: String,
    pub enabled: bool,
    pub primary: bool,
    /// The size that the user sees: of a turned monitor, the turned size.
    pub resolution: Option<(i32, i32)>,
    pub refresh: Option<u32>,
    pub position: Option<(i32, i32)>,
    pub rotation: Rotation,
}

impl MonitorConfig {
    /// Whether the place of the monitor fits pixel arithmetic.
    pub open spec fn fits(self) -> bool {
        match self.position {
            Some((x, y)) => -0x100_0000 <= x <= 0x100_0000 && -0x100_0000 <= y <= 0x100_0000,
            None => true,
        }
    }

    /// Whether the place of the monitor fits pixel arithmetic.
    pub fn is_near(&self) -> (r: bool)
        ensures
            r == self.fits(),
    {
        match self.position {
            Some((x, y)) => {
                -0x100_0000 <= x && x <= 0x100_0000 && -0x100_0000 <= y && y <= 0x100_0000
            },
            None => true,
        }
    }
}

/// Which modifier keys are held.
#[derive(Clone, Copy, Debug, PartialEq, Eq, Structural)]
pub struct ModMask {
    pub logo: bool,
    pub shift: bool,
    pub ctrl: bool,
    pub alt: bool,
}

/// What a key is bound to.
#[derive(Debug)]
pub enum BindAction {
    Spawn(String),
    Exec(String),
    Scratchpad(Option<String>),
    FocusNext,
    FocusPrev,
    FocusMonitorPrev,
    FocusMonitorNext,
    SendMonitorPrev,
    SendMonitorNext,
    DecreaseMfact,
    IncreaseMfact,
    ZoomMaster,
    Monocle,
    Fullscreen,
    ToggleFloat,
    ToggleSync,
    KillClient,
    Reload,
    Quit,
    ShowKeybinds,
    Lock,
    ViewWs(usize),
    SendWs(usize),
}

#[derive(Debug)]
pub struct BindConfig {
    pub mods: ModMask,
    pub keysym: u32,
    pub action: BindAction,
}

#[derive(Debug)]
pub struct Config {
    pub general: General,
    pub bar: BarConfig,
    pub animations: Animations,
    pub theme: Theme,
    pub scratchpads: Vec<ScratchpadConfig>,
    pub rules: Vec<Rule>,
    pub commands: Vec<NamedCommand>,
    pub autostart: Vec<AutostartEntry>,
    pub environment: Vec<EnvDirective>,
    pub monitors: Vec<MonitorConfig>,
    pub keybinds: Vec<BindConfig>,
}

/// The lowest and the highest bar, in pixels.
pub const MIN_BAR: i32 = -0x2_0000;

pub const MAX_BAR: i32 = 0x100_0000;

/// The largest share of an output that a scratchpad may ask for, in percent.
pub const MAX_PERCENT: u32 = 10_000;

impl Config {
    /// Whether the numbers of the settings are small enough for pixel
    /// arithmetic.
    pub open spec fn fits(self) -> bool {
        &&& -layout::MAX_GAP <= self.general.gap_px <= layout::MAX_GAP
        &&& -layout::MAX_GAP <= 2 * self.general.border_px <= layout::MAX_GAP
        &&& self.general.default_mfact <= ratio::ONE
        &&& MIN_BAR <= self.bar.height <= MAX_BAR
        &&& forall|i: int|
            0 <= i < self.scratchpads@.len() ==> (#[trigger] self.scratchpads@[i]).width_pct
                <= MAX_PERCENT && self.scratchpads@[i].height_pct <= MAX_PERCENT
        &&& forall|i: int| 0 <= i < self.monitors@.len() ==> (#[trigger] self.monitors@[i]).fits()
    }

    /// The settings with the synchronisation of workspaces turned over.
    pub open spec fn sync_toggled(self) -> Config {
        Config {
            general: General {
                sync_workspaces: !self.general.sync_workspaces,
                ..self.general
            },
            ..self
        }
    }

    /// Whether the numbers of the settings are small enough for pixel
    /// arithmetic.
    pub fn is_small(&self) -> (r: bool)
        ensures
            r == self.fits(),
    {
        let mut i: usize = 0;
        while i < self.scratchpads.len()
            invariant
                i <= self.scratchpads.len(),
                forall|k: int|
                    0 <= k < i ==> (#[trigger] self.scratchpads@[k]).width_pct <= MAX_PERCENT
                        && self.scratchpads@[k].height_pct <= MAX_PERCENT,
            decreases self.scratchpads.len() - i,
        {
            if self.scratchpads[i].width_pct > MAX_PERCENT || self.scratchpads[i].height_pct
                > MAX_PERCENT {
                assert(self.scratchpads@[i as int].width_pct > MAX_PERCENT
                    || self.scratchpads@[i as int].height_pct > MAX_PERCENT);
                return false;
            }
            i = i + 1;
        }
        let mut m: usize = 0;
        while m < self.monitors.len()
            invariant
                m <= self.monitors.len(),
                forall|k: int| 0 <= k < m ==> (#[trigger] self.monitors@[k]).fits(),
            decreases self.monitors.len() - m,
        {
            if !self.monitors[m].is_near() {
                assert(!self.monitors@[m as int].fits());
                return false;
            }
            m = m + 1;
        }
        let g: &General = &self.general;
        -layout::MAX_GAP <= g.gap_px && g.gap_px <= layout::MAX_GAP && -(layout::MAX_GAP / 2)
            <= g.border_px && g.border_px <= layout::MAX_GAP / 2 && g.default_mfact as u64
            <= ratio::ONE && MIN_BAR <= self.bar.height && self.bar.height <= MAX_BAR
    }
}

// ---- Looking things up ------------------------------------------------------

/// The command line of the first command with the name, from index `i` on.
pub open spec fn command_from(cs: Seq<NamedCommand>, name: Seq<char>, i: int) -> Option<Seq<char>>
    decreases cs.len() - i,
{
    if i >= cs.len() {
        None
    } else if cs[i].name@ == name {
        Some(cs[i].line@)
    } else {
        command_from(cs, name, i + 1)
    }
}

/// The command line with the name.
pub fn find_command(cs: &Vec<NamedCommand>, name: &str) -> (out: Option<String>)
    ensures
        text::opt_view(out) == command_from(cs@, name@, 0),
{
    let mut i: usize = 0;
    while i < cs.len()
        invariant
            i <= cs.len(),
            command_from(cs@, name@, 0) == command_from(cs@, name@, i as int),
        decreases cs.len() - i,
    {
        if eq_str(cs[i].name.as_str(), name) {
            return Some(text::copy_str(&cs[i].line));
        }
        i = i + 1;
    }
    None
}

/// Whether a rule lets the windows of the application float.
pub open spec fn floats(rule: Rule, app: Seq<char>) -> bool {
    match rule {
        Rule::Float { app_id } => app_id@ == app,
        Rule::Workspace { .. } => false,
    }
}

/// The workspace of the last of the first `n` rules that send the windows of
/// the application to one.
pub open spec fn ruled_workspace(rules: Seq<Rule>, app: Seq<char>, n: int) -> Option<usize>
    decreases n,
{
    if n <= 0 {
        None
    } else {
        match rules[n - 1] {
            Rule::Workspace { workspace, app_id } => if app_id@ == app {
                Some(workspace)
            } else {
                ruled_workspace(rules, app, n - 1)
            },
            Rule::Float { .. } => ruled_workspace(rules, app, n - 1),
        }
    }
}

/// What the rules say of an application: whether its windows float, where any
/// rule says so, and to which workspace they go, where the last rule counts.
pub open spec fn ruling(rules: Seq<Rule>, app: Seq<char>) -> (bool, Option<usize>) {
    (
        exists|i: int| 0 <= i < rules.len() && #[trigger] floats(rules[i], app),
        ruled_workspace(rules, app, rules.len() as int),
    )
}

/// What the rules say of an application.
pub fn apply_rules(rules: &Vec<Rule>, app: &str) -> (out: (bool, Option<usize>))
    ensures
        out == ruling(rules@, app@),
{
    let mut should_float: bool = false;
    let mut target: Option<usize> = None;
    let mut i: usize = 0;
    while i < rules.len()
        invariant
            i <= rules.len(),
            should_float == exists|k: int| 0 <= k < i && #[trigger] floats(rules@[k], app@),
            target == ruled_workspace(rules@, app@, i as int),
        decreases rules.len() - i,
    {
        let ghost was = should_float;
        match &rules[i] {
            Rule::Float { app_id } => {
                if eq_str(app_id.as_str(), app) {
                    should_float = true;
                    assert(floats(rules@[i as int], app@));
                }
            },
            Rule::Workspace { workspace, app_id } => {
                if eq_str(app_id.as_str(), app) {
                    target = Some(*workspace);
                }
            },
        }
        proof {
            if was {
                let k = choose|k: int| 0 <= k < i && #[trigger] floats(rules@[k], app@);
                assert(0 <= k < i + 1 && floats(rules@[k], app@));
            }
        }
        i = i + 1;
    }
    (should_float, target)
}

/// The first scratchpad at or after `i` that takes the windows of the
/// application.
pub open spec fn capture_from(sps: Seq<ScratchpadConfig>, app: Seq<char>, i: int) -> Option<usize>
    decreases sps.len() - i,
{
    if i >= sps.len() {
        None
    } else if text::views(sps[i].captures@).contains(app) {
        Some(i as usize)
    } else {
        capture_from(sps, app, i + 1)
    }
}

/// The first scratchpad that takes the windows of the application.
pub fn find_capture(sps: &Vec<ScratchpadConfig>, app: &str) -> (out: Option<usize>)
    ensures
        out == capture_from(sps@, app@, 0),
        out matches Some(i) ==> i < sps.len(),
{
    let mut i: usize = 0;
    while i < sps.len()
        invariant
            i <= sps.len(),
            capture_from(sps@, app@, 0) == capture_from(sps@, app@, i as int),
        decreases sps.len() - i,
    {
        if text::list_contains(&sps[i].captures, app) {
            return Some(i);
        }
        i = i + 1;
    }
    None
}

/// The first monitor at or after `i` with the name; the length where there is
/// none.
pub open spec fn monitor_from(ms: Seq<MonitorConfig>, name: Seq<char>, i: int) -> int
    decreases ms.len() - i,
{
    if i >= ms.len() {
        ms.len() as int
    } else if ms[i].name@ == name {
        i
    } else {
        monitor_from(ms, name, i + 1)
    }
}

/// The settings of the monitor with the name.
pub fn find_monitor(ms: &Vec<MonitorConfig>, name: &str) -> (out: Option<usize>)
    ensures
        match out {
            Some(i) => i < ms.len() && i == monitor_from(ms@, name@, 0),
            None => monitor_from(ms@, name@, 0) == ms@.len(),
        },
{
    let mut i: usize = 0;
    while i < ms.len()
        invariant
            i <= ms.len(),
            monitor_from(ms@, name@, 0) == monitor_from(ms@, name@, i as int),
        decreases ms.len() - i,
    {
        if eq_str(ms[i].name.as_str(), name) {
            return Some(i);
        }
        i = i + 1;
    }
    None
}

/// Whether the monitor is marked as the primary one.
pub open spec fn marked_primary(ms: Seq<MonitorConfig>, name: Seq<char>) -> bool {
    let i = monitor_from(ms, name, 0);
    i < ms.len() && ms[i].primary
}

} // verus!
