//! The list of key bindings that covers the screen on demand.

use vstd::prelude::*;

use crate::gate::actions::{Action, Keybind};
use crate::gate::config::{ModMask, Theme};
use crate::pixels;
use crate::pixels::split_rgb;
use crate::text;

verus! {

// ---- Names ------------------------------------------------------------------

/// The name under which a key is shown, given the name that the keyboard
/// library has for it.
pub open spec fn key_word(raw: Seq<char>) -> Seq<char> {
    if raw == "slash"@ {
        "/"@
    } else if raw == "backslash"@ {
        "\\"@
    } else if raw == "comma"@ {
        ","@
    } else if raw == "period"@ {
        "."@
    } else if raw == "semicolon"@ {
        ";"@
    } else if raw == "apostrophe"@ {
        "'"@
    } else if raw == "grave"@ {
        "`"@
    } else if raw == "minus"@ {
        "-"@
    } else if raw == "equal"@ {
        "="@
    } else if raw == "bracketleft"@ {
        "["@
    } else if raw == "bracketright"@ {
        "]"@
    } else if raw == "Return"@ {
        "Enter"@
    } else if raw == "space"@ {
        "Space"@
    } else if raw == "Escape"@ {
        "Esc"@
    } else if raw == "BackSpace"@ {
        "Backspace"@
    } else if raw == "Prior"@ {
        "PageUp"@
    } else if raw == "Next"@ {
        "PageDown"@
    } else {
        raw
    }
}

/// The name under which a key is shown.
pub fn pretty_key_name(raw: &str) -> (out: &str)
    ensures
        out@ == key_word(raw@),
{
    if text::eq_str(raw, "slash") {
        "/"
    } else if text::eq_str(raw, "backslash") {
        "\\"
    } else if text::eq_str(raw, "comma") {
        ","
    } else if text::eq_str(raw, "period") {
        "."
    } else if text::eq_str(raw, "semicolon") {
        ";"
    } else if text::eq_str(raw, "apostrophe") {
        "'"
    } else if text::eq_str(raw, "grave") {
        "`"
    } else if text::eq_str(raw, "minus") {
        "-"
    } else if text::eq_str(raw, "equal") {
        "="
    } else if text::eq_str(raw, "bracketleft") {
        "["
    } else if text::eq_str(raw, "bracketright") {
        "]"
    } else if text::eq_str(raw, "Return") {
        "Enter"
    } else if text::eq_str(raw, "space") {
        "Space"
    } else if text::eq_str(raw, "Escape") {
        "Esc"
    } else if text::eq_str(raw, "BackSpace") {
        "Backspace"
    } else if text::eq_str(raw, "Prior") {
        "PageUp"
    } else if text::eq_str(raw, "Next") {
        "PageDown"
    } else {
        raw
    }
}

/// `word` where the modifier is held.
pub open spec fn held(on: bool, word: Seq<char>) -> Seq<char> {
    if on {
        word
    } else {
        Seq::empty()
    }
}

/// A key with its modifiers, such as `mod+Shift+Enter`.
pub open spec fn combo_of(mods: ModMask, raw: Seq<char>) -> Seq<char> {
    held(mods.logo, "mod+"@) + held(mods.ctrl, "Ctrl+"@) + held(mods.alt, "Alt+"@) + held(
        mods.shift,
        "Shift+"@,
    ) + key_word(raw)
}

/// A key with its modifiers. `raw` is the name that the keyboard library has
/// for the key.
pub fn format_keybind_combo(bind: &Keybind, raw: &str) -> (out: String)
    ensures
        out@ == combo_of(bind.mods, raw@),
{
    let mut out: String = String::new();
    if bind.mods.logo {
        out.push_str("mod+");
    }
    assert(out@ =~= held(bind.mods.logo, "mod+"@));
    let ghost a = out@;
    if bind.mods.ctrl {
        out.push_str("Ctrl+");
    }
    assert(out@ =~= a + held(bind.mods.ctrl, "Ctrl+"@));
    let ghost b = out@;
    if bind.mods.alt {
        out.push_str("Alt+");
    }
    assert(out@ =~= b + held(bind.mods.alt, "Alt+"@));
    let ghost c = out@;
    if bind.mods.shift {
        out.push_str("Shift+");
    }
    assert(out@ =~= c + held(bind.mods.shift, "Shift+"@));
    out.push_str(pretty_key_name(raw));
    out
}

// ---- Labels -----------------------------------------------------------------

/// Whether the command line, where it is too long, can be cut.
pub open spec fn can_be_cut(cmd: Seq<char>) -> bool {
    text::byte_len(cmd, cmd.len() as int) > 28 ==> text::prefix_chars(cmd, 27, cmd.len() as int)
        is Some
}

/// A command line, cut after 27 bytes where it takes more than 28.
pub open spec fn shortened(cmd: Seq<char>) -> Seq<char> {
    if text::byte_len(cmd, cmd.len() as int) > 28 {
        match text::prefix_chars(cmd, 27, cmd.len() as int) {
            Some(n) => cmd.take(n) + "…"@,
            None => cmd,
        }
    } else {
        cmd
    }
}

/// Whether there is a label for the action.
pub open spec fn labelled(a: Action) -> bool {
    match a {
        Action::SpawnRaw(cmd) => can_be_cut(cmd@),
        Action::ViewWs(n) => n < usize::MAX,
        Action::SendWs(n) => n < usize::MAX,
        _ => true,
    }
}

/// What an action does, in words.
pub open spec fn label_of(a: Action) -> Seq<char> {
    match a {
        Action::Spawn(name) => "Launch: "@ + name@,
        Action::SpawnRaw(cmd) => "Run: "@ + shortened(cmd@),
        Action::KillClient => "Close window"@,
        Action::FocusNext => "Focus next window"@,
        Action::FocusPrev => "Focus previous window"@,
        Action::ZoomMaster => "Zoom / swap with master"@,
        Action::ToggleMonocle => "Toggle monocle layout"@,
        Action::ToggleFullscreen => "Toggle fullscreen"@,
        Action::ToggleFloat => "Toggle floating"@,
        Action::ToggleScratchpad(Some(name)) => "Toggle scratchpad: "@ + name@,
        Action::ToggleScratchpad(None) => "Toggle scratchpad"@,
        Action::DecreaseMfact => "Shrink master"@,
        Action::IncreaseMfact => "Grow master"@,
        Action::FocusMonitorNext => "Focus next monitor"@,
        Action::FocusMonitorPrev => "Focus previous monitor"@,
        Action::SendMonitorNext => "Move window to next monitor"@,
        Action::SendMonitorPrev => "Move window to previous monitor"@,
        Action::ToggleSync => "Toggle monitor sync"@,
        Action::ViewWs(n) => "View workspace "@ + text::decimal((n + 1) as nat),
        Action::SendWs(n) => "Move window to workspace "@ + text::decimal((n + 1) as nat),
        Action::ShowKeybinds => "Show keybinds (this menu)"@,
        Action::Reload => "Reload config"@,
        Action::Quit => "Quit kara"@,
        Action::Lock => "Lock session"@,
    }
}

/// Whether there is a label for the action.
pub fn has_label(action: &Action) -> (r: bool)
    ensures
        r == labelled(*action),
{
    match action {
        Action::SpawnRaw(cmd) => {
            !text::longer_than(cmd.as_str(), 28) || text::byte_prefix(cmd.as_str(), 27).is_some()
        },
        Action::ViewWs(n) => *n < usize::MAX,
        Action::SendWs(n) => *n < usize::MAX,
        _ => true,
    }
}

fn joined(head: &str, tail: &str) -> (out: String)
    ensures
        out@ == head@ + tail@,
{
    let mut out: String = head.to_owned();
    out.push_str(tail);
    out
}

fn numbered(head: &str, n: usize) -> (out: String)
    requires
        n < usize::MAX,
    ensures
        out@ == head@ + text::decimal((n + 1) as nat),
{
    let mut out: String = head.to_owned();
    text::push_decimal(&mut out, (n + 1) as u64);
    out
}

fn run_label(cmd: &str) -> (out: String)
    requires
        can_be_cut(cmd@),
    ensures
        out@ == "Run: "@ + shortened(cmd@),
{
    if text::longer_than(cmd, 28) {
        match text::byte_prefix(cmd, 27) {
            Some(mut head) => {
                head.push_str("…");
                joined("Run: ", head.as_str())
            },
            None => joined("Run: ", cmd),
        }
    } else {
        joined("Run: ", cmd)
    }
}

/// What an action does, in words.
pub fn format_action_label(action: &Action) -> (out: String)
    requires
        labelled(*action),
    ensures
        out@ == label_of(*action),
{
    match action {
        Action::Spawn(name) => joined("Launch: ", name.as_str()),
        Action::SpawnRaw(cmd) => run_label(cmd.as_str()),
        Action::KillClient => "Close window".to_owned(),
        Action::FocusNext => "Focus next window".to_owned(),
        Action::FocusPrev => "Focus previous window".to_owned(),
        Action::ZoomMaster => "Zoom / swap with master".to_owned(),
        Action::ToggleMonocle => "Toggle monocle layout".to_owned(),
        Action::ToggleFullscreen => "Toggle fullscreen".to_owned(),
        Action::ToggleFloat => "Toggle floating".to_owned(),
        Action::ToggleScratchpad(Some(name)) => joined("Toggle scratchpad: ", name.as_str()),
        Action::ToggleScratchpad(None) => "Toggle scratchpad".to_owned(),
        Action::DecreaseMfact => "Shrink master".to_owned(),
        Action::IncreaseMfact => "Grow master".to_owned(),
        Action::FocusMonitorNext => "Focus next monitor".to_owned(),
        Action::FocusMonitorPrev => "Focus previous monitor".to_owned(),
        Action::SendMonitorNext => "Move window to next monitor".to_owned(),
        Action::SendMonitorPrev => "Move window to previous monitor".to_owned(),
        Action::ToggleSync => "Toggle monitor sync".to_owned(),
        Action::ViewWs(n) => numbered("View workspace ", *n),
        Action::SendWs(n) => numbered("Move window to workspace ", *n),
        Action::ShowKeybinds => "Show keybinds (this menu)".to_owned(),
        Action::Reload => "Reload config".to_owned(),
        Action::Quit => "Quit kara".to_owned(),
        Action::Lock => "Lock session".to_owned(),
    }
}

// ---- Groups -----------------------------------------------------------------

/// The groups, in the order in which they are shown.
#[derive(Clone, Copy, Debug, PartialEq, Eq, Structural)]
pub enum Section {
    Windows,
    Workspaces,
    Scratchpads,
    Layout,
    Monitors,
    Launch,
    Session,
}

/// The group of an action.
pub open spec fn section_of(a: Action) -> Section {
    match a {
        Action::FocusNext => Section::Windows,
        Action::FocusPrev => Section::Windows,
        Action::KillClient => Section::Windows,
        Action::ToggleFloat => Section::Windows,
        Action::ToggleFullscreen => Section::Windows,
        Action::ViewWs(_) => Section::Workspaces,
        Action::SendWs(_) => Section::Workspaces,
        Action::ToggleScratchpad(_) => Section::Scratchpads,
        Action::ZoomMaster => Section::Layout,
        Action::ToggleMonocle => Section::Layout,
        Action::DecreaseMfact => Section::Layout,
        Action::IncreaseMfact => Section::Layout,
        Action::FocusMonitorNext => Section::Monitors,
        Action::FocusMonitorPrev => Section::Monitors,
        Action::SendMonitorNext => Section::Monitors,
        Action::SendMonitorPrev => Section::Monitors,
        Action::ToggleSync => Section::Monitors,
        Action::Spawn(_) => Section::Launch,
        Action::SpawnRaw(_) => Section::Launch,
        Action::ShowKeybinds => Section::Session,
        Action::Reload => Section::Session,
        Action::Quit => Section::Session,
        Action::Lock => Section::Session,
    }
}

fn find_section(a: &Action) -> (s: Section)
    ensures
        s == section_of(*a),
{
    match a {
        Action::FocusNext => Section::Windows,
        Action::FocusPrev => Section::Windows,
        Action::KillClient => Section::Windows,
        Action::ToggleFloat => Section::Windows,
        Action::ToggleFullscreen => Section::Windows,
        Action::ViewWs(_) => Section::Workspaces,
        Action::SendWs(_) => Section::Workspaces,
        Action::ToggleScratchpad(_) => Section::Scratchpads,
        Action::ZoomMaster => Section::Layout,
        Action::ToggleMonocle => Section::Layout,
        Action::DecreaseMfact => Section::Layout,
        Action::IncreaseMfact => Section::Layout,
        Action::FocusMonitorNext => Section::Monitors,
        Action::FocusMonitorPrev => Section::Monitors,
        Action::SendMonitorNext => Section::Monitors,
        Action::SendMonitorPrev => Section::Monitors,
        Action::ToggleSync => Section::Monitors,
        Action::Spawn(_) => Section::Launch,
        Action::SpawnRaw(_) => Section::Launch,
        Action::ShowKeybinds => Section::Session,
        Action::Reload => Section::Session,
        Action::Quit => Section::Session,
        Action::Lock => Section::Session,
    }
}

/// The title of a group.
pub open spec fn title_of(s: Section) -> Seq<char> {
    match s {
        Section::Windows => "Windows"@,
        Section::Workspaces => "Workspaces"@,
        Section::Scratchpads => "Scratchpads"@,
        Section::Layout => "Layout"@,
        Section::Monitors => "Monitors"@,
        Section::Launch => "Launch"@,
        Section::Session => "Session"@,
    }
}

fn section_title(s: Section) -> (out: String)
    ensures
        out@ == title_of(s),
{
    match s {
        Section::Windows => "Windows".to_owned(),
        Section::Workspaces => "Workspaces".to_owned(),
        Section::Scratchpads => "Scratchpads".to_owned(),
        Section::Layout => "Layout".to_owned(),
        Section::Monitors => "Monitors".to_owned(),
        Section::Launch => "Launch".to_owned(),
        Section::Session => "Session".to_owned(),
    }
}

/// A key and what it does.
#[derive(Debug)]
pub struct KeyEntry {
    pub combo: String,
    pub label: String,
}

/// A titled list of keys.
#[derive(Debug)]
pub struct KeyGroup {
    pub title: String,
    pub entries: Vec<KeyEntry>,
}

#[verifier::ext_equal]
pub struct EntryView {
    pub combo: Seq<char>,
    pub label: Seq<char>,
}

#[verifier::ext_equal]
pub struct GroupView {
    pub title: Seq<char>,
    pub entries: Seq<EntryView>,
}

impl View for KeyEntry {
    type V = EntryView;

    open spec fn view(&self) -> EntryView {
        EntryView { combo: self.combo@, label: self.label@ }
    }
}

/// The models of the entries.
pub open spec fn entry_views(es: Seq<KeyEntry>) -> Seq<EntryView> {
    es.map_values(|e: KeyEntry| e@)
}

impl View for KeyGroup {
    type V = GroupView;

    open spec fn view(&self) -> GroupView {
        GroupView { title: self.title@, entries: entry_views(self.entries@) }
    }
}

/// The models of the groups.
pub open spec fn group_views(gs: Seq<KeyGroup>) -> Seq<GroupView> {
    gs.map_values(|g: KeyGroup| g@)
}

/// The entries of a group among the first `n` bindings.
pub open spec fn entries_in(
    binds: Seq<Keybind>,
    names: Seq<Seq<char>>,
    s: Section,
    n: int,
) -> Seq<EntryView>
    decreases n,
{
    if n <= 0 {
        Seq::empty()
    } else {
        let before = entries_in(binds, names, s, n - 1);
        let b = binds[n - 1];
        if section_of(b.action) == s {
            before.push(
                EntryView { combo: combo_of(b.mods, names[n - 1]), label: label_of(b.action) },
            )
        } else {
            before
        }
    }
}

/// `before`, and the group where it is not empty.
pub open spec fn with_section(
    before: Seq<GroupView>,
    binds: Seq<Keybind>,
    names: Seq<Seq<char>>,
    s: Section,
) -> Seq<GroupView> {
    let entries = entries_in(binds, names, s, binds.len() as int);
    if entries.len() > 0 {
        before.push(GroupView { title: title_of(s), entries })
    } else {
        before
    }
}

/// The groups that are not empty, in order.
pub open spec fn groups_of(binds: Seq<Keybind>, names: Seq<Seq<char>>) -> Seq<GroupView> {
    let a = with_section(Seq::empty(), binds, names, Section::Windows);
    let b = with_section(a, binds, names, Section::Workspaces);
    let c = with_section(b, binds, names, Section::Scratchpads);
    let d = with_section(c, binds, names, Section::Layout);
    let e = with_section(d, binds, names, Section::Monitors);
    let f = with_section(e, binds, names, Section::Launch);
    with_section(f, binds, names, Section::Session)
}

fn collect_entries(keybinds: &Vec<Keybind>, key_names: &Vec<String>, s: Section) -> (out: Vec<
    KeyEntry,
>)
    requires
        keybinds.len() == key_names.len(),
        forall|i: int| 0 <= i < keybinds@.len() ==> labelled((#[trigger] keybinds@[i]).action),
    ensures
        entry_views(out@) == entries_in(
            keybinds@,
            text::views(key_names@),
            s,
            keybinds@.len() as int,
        ),
{
    let ghost names = text::views(key_names@);
    let mut out: Vec<KeyEntry> = Vec::new();
    let mut i: usize = 0;
    assert(entry_views(out@) =~= entries_in(keybinds@, names, s, 0));
    while i < keybinds.len()
        invariant
            i <= keybinds.len(),
            keybinds.len() == key_names.len(),
            names == text::views(key_names@),
            forall|i: int| 0 <= i < keybinds@.len() ==> labelled((#[trigger] keybinds@[i]).action),
            entry_views(out@) == entries_in(keybinds@, names, s, i as int),
        decreases keybinds.len() - i,
    {
        let b: &Keybind = &keybinds[i];
        assert(labelled(keybinds@[i as int].action));
        if find_section(&b.action) == s {
            let ghost before = entry_views(out@);
            let e: KeyEntry = KeyEntry {
                combo: format_keybind_combo(b, key_names[i].as_str()),
                label: format_action_label(&b.action),
            };
            assert(names[i as int] == key_names@[i as int]@);
            out.push(e);
            assert(entry_views(out@) =~= before.push(e@));
        }
        i = i + 1;
    }
    out
}

fn add_section(
    groups: &mut Vec<KeyGroup>,
    keybinds: &Vec<Keybind>,
    key_names: &Vec<String>,
    s: Section,
)
    requires
        keybinds.len() == key_names.len(),
        forall|i: int| 0 <= i < keybinds@.len() ==> labelled((#[trigger] keybinds@[i]).action),
    ensures
        group_views(final(groups)@) == with_section(
            group_views(old(groups)@),
            keybinds@,
            text::views(key_names@),
            s,
        ),
{
    let entries: Vec<KeyEntry> = collect_entries(keybinds, key_names, s);
    assert(entry_views(entries@).len() == entries@.len());
    if entries.len() > 0 {
        let ghost before = group_views(groups@);
        let g: KeyGroup = KeyGroup { title: section_title(s), entries };
        groups.push(g);
        assert(group_views(groups@) =~= before.push(g@));
    }
}

/// The bindings by groups. `key_names` are the names that the keyboard library
/// has for the keys.
pub fn build_keybind_groups(keybinds: &Vec<Keybind>, key_names: &Vec<String>) -> (groups: Vec<
    KeyGroup,
>)
    requires
        keybinds.len() == key_names.len(),
        forall|i: int| 0 <= i < keybinds@.len() ==> labelled((#[trigger] keybinds@[i]).action),
    ensures
        group_views(groups@) == groups_of(keybinds@, text::views(key_names@)),
{
    let mut groups: Vec<KeyGroup> = Vec::new();
    assert(group_views(groups@) =~= Seq::<GroupView>::empty());
    add_section(&mut groups, keybinds, key_names, Section::Windows);
    add_section(&mut groups, keybinds, key_names, Section::Workspaces);
    add_section(&mut groups, keybinds, key_names, Section::Scratchpads);
    add_section(&mut groups, keybinds, key_names, Section::Layout);
    add_section(&mut groups, keybinds, key_names, Section::Monitors);
    add_section(&mut groups, keybinds, key_names, Section::Launch);
    add_section(&mut groups, keybinds, key_names, Section::Session);
    groups
}

/// How many entries the first `n` groups have.
pub open spec fn entry_count(gs: Seq<GroupView>, n: int) -> int
    decreases n,
{
    if n <= 0 {
        0
    } else {
        entry_count(gs, n - 1) + gs[n - 1].entries.len()
    }
}

proof fn lemma_section_count(
    before: Seq<GroupView>,
    binds: Seq<Keybind>,
    names: Seq<Seq<char>>,
    s: Section,
)
    ensures
        ({
            let after = with_section(before, binds, names, s);
            entry_count(after, after.len() as int) == entry_count(before, before.len() as int)
                + entries_in(binds, names, s, binds.len() as int).len()
        }),
{
    let entries = entries_in(binds, names, s, binds.len() as int);
    if entries.len() > 0 {
        let after = before.push(GroupView { title: title_of(s), entries });
        lemma_same_count(before, after, before.len() as int);
    }
}

proof fn lemma_same_count(a: Seq<GroupView>, b: Seq<GroupView>, n: int)
    requires
        0 <= n <= a.len(),
        n <= b.len(),
        forall|i: int| 0 <= i < n ==> a[i] == b[i],
    ensures
        entry_count(a, n) == entry_count(b, n),
    decreases n,
{
    if n > 0 {
        lemma_same_count(a, b, n - 1);
    }
}

proof fn lemma_all_sections(binds: Seq<Keybind>, names: Seq<Seq<char>>, n: int)
    requires
        0 <= n <= binds.len(),
    ensures
        entries_in(binds, names, Section::Windows, n).len() + entries_in(
            binds,
            names,
            Section::Workspaces,
            n,
        ).len() + entries_in(binds, names, Section::Scratchpads, n).len() + entries_in(
            binds,
            names,
            Section::Layout,
            n,
        ).len() + entries_in(binds, names, Section::Monitors, n).len() + entries_in(
            binds,
            names,
            Section::Launch,
            n,
        ).len() + entries_in(binds, names, Section::Session, n).len() == n,
    decreases n,
{
    if n > 0 {
        lemma_all_sections(binds, names, n - 1);
    }
}

/// Every binding is in exactly one group.
pub proof fn law_every_binding_is_listed(binds: Seq<Keybind>, names: Seq<Seq<char>>)
    requires
        names.len() == binds.len(),
    ensures
        entry_count(groups_of(binds, names), groups_of(binds, names).len() as int) == binds.len(),
{
    lemma_all_sections(binds, names, binds.len() as int);
    let a = with_section(Seq::empty(), binds, names, Section::Windows);
    let b = with_section(a, binds, names, Section::Workspaces);
    let c = with_section(b, binds, names, Section::Scratchpads);
    let d = with_section(c, binds, names, Section::Layout);
    let e = with_section(d, binds, names, Section::Monitors);
    let f = with_section(e, binds, names, Section::Launch);
    lemma_section_count(Seq::empty(), binds, names, Section::Windows);
    lemma_section_count(a, binds, names, Section::Workspaces);
    lemma_section_count(b, binds, names, Section::Scratchpads);
    lemma_section_count(c, binds, names, Section::Layout);
    lemma_section_count(d, binds, names, Section::Monitors);
    lemma_section_count(e, binds, names, Section::Launch);
    lemma_section_count(f, binds, names, Section::Session);
}

// ---- Lines ------------------------------------------------------------------

#[derive(Clone, Copy, Debug, PartialEq, Eq, Structural)]
pub enum LineKind {
    Title,
    Subtitle,
    Section,
    Body,
}

/// A line of the list.
#[derive(Debug)]
pub struct Line {
    pub text: String,
    pub kind: LineKind,
}

#[verifier::ext_equal]
pub struct LineView {
    pub text: Seq<char>,
    pub kind: LineKind,
}

impl View for Line {
    type V = LineView;

    open spec fn view(&self) -> LineView {
        LineView { text: self.text@, kind: self.kind }
    }
}

/// The models of the lines.
pub open spec fn line_views(ls: Seq<Line>) -> Seq<LineView> {
    ls.map_values(|l: Line| l@)
}

/// An empty line.
pub open spec fn blank() -> LineView {
    LineView { text: Seq::empty(), kind: LineKind::Body }
}

/// The line of an entry: the key in a column of 22 characters, then what it
/// does.
pub open spec fn entry_line(e: EntryView) -> LineView {
    let gap = if e.combo.len() < 22 {
        (22 - e.combo.len()) as nat
    } else {
        0
    };
    LineView {
        text: e.combo + Seq::new(gap, |i: int| ' ') + " "@ + e.label,
        kind: LineKind::Body,
    }
}

/// The lines of the first `n` entries.
pub open spec fn entry_lines(es: Seq<EntryView>, n: int) -> Seq<LineView>
    decreases n,
{
    if n <= 0 {
        Seq::empty()
    } else {
        entry_lines(es, n - 1).push(entry_line(es[n - 1]))
    }
}

/// The lines of the first `n` groups, each with its title before it and an
/// empty line after it.
pub open spec fn group_lines(gs: Seq<GroupView>, n: int) -> Seq<LineView>
    decreases n,
{
    if n <= 0 {
        Seq::empty()
    } else {
        let g = gs[n - 1];
        (group_lines(gs, n - 1).push(LineView { text: g.title, kind: LineKind::Section })
            + entry_lines(g.entries, g.entries.len() as int)).push(blank())
    }
}

/// All lines of the list.
pub open spec fn lines_of(gs: Seq<GroupView>) -> Seq<LineView> {
    seq![
        LineView { text: "Keybinds"@, kind: LineKind::Title },
        LineView { text: "~/.config/kara/kara-gate.conf"@, kind: LineKind::Subtitle },
        blank(),
    ] + group_lines(gs, gs.len() as int)
}

fn push_line(lines: &mut Vec<Line>, text: String, kind: LineKind)
    ensures
        line_views(final(lines)@) == line_views(old(lines)@).push(LineView { text: text@, kind }),
{
    let ghost before = line_views(lines@);
    let l: Line = Line { text, kind };
    lines.push(l);
    assert(line_views(lines@) =~= before.push(l@));
}

fn entry_text(e: &KeyEntry) -> (out: String)
    ensures
        out@ == entry_line(e@).text,
{
    let mut out: String = text::copy_str(&e.combo);
    let cs: Vec<char> = text::chars_of(e.combo.as_str());
    let mut n: usize = cs.len();
    let ghost combo = e.combo@;
    assert(out@ =~= combo + Seq::new(0, |i: int| ' '));
    while n < 22
        invariant
            combo.len() <= n,
            n <= 22 || n == combo.len(),
            out@ == combo + Seq::new((n - combo.len()) as nat, |i: int| ' '),
        decreases 22 - n,
    {
        out.push(' ');
        n = n + 1;
        assert(out@ =~= combo + Seq::new((n - combo.len()) as nat, |i: int| ' '));
    }
    out.push_str(" ");
    out.push_str(e.label.as_str());
    out
}

fn push_group(lines: &mut Vec<Line>, g: &KeyGroup)
    ensures
        line_views(final(lines)@) == (line_views(old(lines)@).push(
            LineView { text: g@.title, kind: LineKind::Section },
        ) + entry_lines(g@.entries, g@.entries.len() as int)).push(blank()),
{
    push_line(lines, text::copy_str(&g.title), LineKind::Section);
    let ghost head = line_views(lines@);
    let mut i: usize = 0;
    assert(line_views(lines@) =~= head + entry_lines(g@.entries, 0));
    while i < g.entries.len()
        invariant
            i <= g.entries.len(),
            line_views(lines@) == head + entry_lines(g@.entries, i as int),
        decreases g.entries.len() - i,
    {
        let ghost before = line_views(lines@);
        assert(g@.entries[i as int] == g.entries@[i as int]@);
        push_line(lines, entry_text(&g.entries[i]), LineKind::Body);
        i = i + 1;
        assert(line_views(lines@) =~= head + entry_lines(g@.entries, i as int));
    }
    let empty: String = String::new();
    assert(empty@ =~= Seq::<char>::empty());
    push_line(lines, empty, LineKind::Body);
}

/// All lines of the list.
pub fn overlay_lines(groups: &Vec<KeyGroup>) -> (lines: Vec<Line>)
    ensures
        line_views(lines@) == lines_of(group_views(groups@)),
{
    let ghost gs = group_views(groups@);
    let mut lines: Vec<Line> = Vec::new();
    assert(line_views(lines@) =~= Seq::<LineView>::empty());
    push_line(&mut lines, "Keybinds".to_owned(), LineKind::Title);
    push_line(&mut lines, "~/.config/kara/kara-gate.conf".to_owned(), LineKind::Subtitle);
    let empty: String = String::new();
    assert(empty@ =~= Seq::<char>::empty());
    push_line(&mut lines, empty, LineKind::Body);
    let ghost head = line_views(lines@);
    assert(head =~= seq![
        LineView { text: "Keybinds"@, kind: LineKind::Title },
        LineView { text: "~/.config/kara/kara-gate.conf"@, kind: LineKind::Subtitle },
        blank(),
    ]);
    let mut i: usize = 0;
    assert(line_views(lines@) =~= head + group_lines(gs, 0));
    while i < groups.len()
        invariant
            i <= groups.len(),
            gs == group_views(groups@),
            line_views(lines@) == head + group_lines(gs, i as int),
        decreases groups.len() - i,
    {
        assert(gs[i as int] == groups@[i as int]@);
        push_group(&mut lines, &groups[i]);
        i = i + 1;
        assert(line_views(lines@) =~= head + group_lines(gs, i as int));
    }
    lines
}

// ---- Columns ----------------------------------------------------------------

/// The rows that the first `n` groups take: their entries, their titles and the
/// empty lines after them.
pub open spec fn rows_of(gs: Seq<GroupView>, n: int) -> int {
    entry_count(gs, n) + 2 * n
}

/// The first empty line at or after `i`; the number of lines where there is
/// none.
pub open spec fn blank_from(ls: Seq<LineView>, i: int) -> int
    decreases ls.len() - i,
{
    if i >= ls.len() {
        ls.len() as int
    } else if ls[i].text.len() == 0 {
        i
    } else {
        blank_from(ls, i + 1)
    }
}

/// How many lines stand in the first column: all, or where there are more rows
/// than fit, those up to the first empty line after as many as fit.
pub open spec fn first_column(gs: Seq<GroupView>, max_rows: int) -> int {
    let ls = lines_of(gs);
    if rows_of(gs, gs.len() as int) > max_rows {
        let b = blank_from(ls, max_rows);
        if b < ls.len() {
            b + 1
        } else {
            ls.len() as int
        }
    } else {
        ls.len() as int
    }
}

/// The lines of the list and how they are spread over the columns.
#[derive(Debug)]
pub struct OverlayPlan {
    pub lines: Vec<Line>,
    pub two_columns: bool,
    /// How many lines stand in the first column.
    pub split: usize,
}

fn exceeds(groups: &Vec<KeyGroup>, max_rows: usize) -> (r: bool)
    ensures
        r == (rows_of(group_views(groups@), groups@.len() as int) > max_rows),
{
    let ghost gs = group_views(groups@);
    let mut rows: u128 = 0;
    let mut i: usize = 0;
    while i < groups.len()
        invariant
            i <= groups.len(),
            gs == group_views(groups@),
            rows == rows_of(gs, i as int),
            rows <= i * (usize::MAX as int + 2),
            i * (usize::MAX as int + 2) <= usize::MAX as int * (usize::MAX as int + 2),
        decreases groups.len() - i,
    {
        assert(gs[i as int] == groups@[i as int]@);
        assert(gs[i as int].entries.len() == groups@[i as int].entries.len());
        assert((i + 1) * (usize::MAX as int + 2) == i * (usize::MAX as int + 2) + usize::MAX + 2)
            by (nonlinear_arith);
        assert((i + 1) * (usize::MAX as int + 2) <= usize::MAX as int * (usize::MAX as int + 2))
            by (nonlinear_arith)
            requires
                i + 1 <= usize::MAX,
        ;
        assert(usize::MAX as int * (usize::MAX as int + 2) <= u128::MAX) by (nonlinear_arith)
            requires
                usize::MAX <= 0xffff_ffff_ffff_ffff,
        ;
        rows = rows + groups[i].entries.len() as u128 + 2;
        i = i + 1;
    }
    rows > max_rows as u128
}

/// Lays out the list of keys for a screen on which `max_rows` rows fit.
pub fn plan_overlay(groups: &Vec<KeyGroup>, max_rows: usize) -> (plan: OverlayPlan)
    ensures
        line_views(plan.lines@) == lines_of(group_views(groups@)),
        plan.two_columns == (rows_of(group_views(groups@), groups@.len() as int) > max_rows),
        plan.split == first_column(group_views(groups@), max_rows as int),
        plan.split <= plan.lines@.len(),
{
    let ghost gs = group_views(groups@);
    let lines: Vec<Line> = overlay_lines(groups);
    let ghost ls = line_views(lines@);
    assert(ls.len() == lines@.len());
    let two_columns: bool = exceeds(groups, max_rows);
    let mut split: usize = lines.len();
    if two_columns && max_rows < lines.len() {
        let mut i: usize = max_rows;
        while i < lines.len() && !lines[i].text.as_str().is_empty()
            invariant
                max_rows <= i <= lines.len(),
                ls == line_views(lines@),
                ls.len() == lines@.len(),
                blank_from(ls, max_rows as int) == blank_from(ls, i as int),
            decreases lines.len() - i,
        {
            assert(ls[i as int] == lines@[i as int]@);
            i = i + 1;
        }
        if i < lines.len() {
            assert(ls[i as int] == lines@[i as int]@);
            split = i + 1;
        }
    }
    OverlayPlan { lines, two_columns, split }
}

/// The column and the row of a line.
pub open spec fn line_place(split: int, i: int) -> (int, int) {
    if i < split {
        (0, i)
    } else {
        (1, i - split)
    }
}

impl OverlayPlan {
    /// The column and the row of a line.
    pub fn place(&self, i: usize) -> (p: (usize, usize))
        ensures
            (p.0 as int, p.1 as int) == line_place(self.split as int, i as int),
    {
        if i < self.split {
            (0, i)
        } else {
            (1, i - self.split)
        }
    }
}

/// No two lines stand in the same place.
pub proof fn law_lines_apart(split: int, i: int, j: int)
    requires
        0 <= i < j,
        0 <= split,
    ensures
        line_place(split, i) != line_place(split, j),
{
}

/// The colour of a kind of line.
pub open spec fn kind_color(theme: Theme, kind: LineKind) -> u32 {
    match kind {
        LineKind::Title => theme.accent,
        LineKind::Subtitle => theme.text_muted,
        LineKind::Section => theme.accent,
        LineKind::Body => theme.text,
    }
}

/// The colour of a kind of line, as red, green and blue.
pub fn line_rgb(theme: &Theme, kind: LineKind) -> (out: (u8, u8, u8))
    ensures
        (out.0 as int, out.1 as int, out.2 as int) == pixels::rgb_of(
            kind_color(*theme, kind) as int,
        ),
{
    let color: u32 = match kind {
        LineKind::Title => theme.accent,
        LineKind::Subtitle => theme.text_muted,
        LineKind::Section => theme.accent,
        LineKind::Body => theme.text,
    };
    split_rgb(color)
}

/// A key is shown behind the modifiers that go with it, in the order of logo,
/// control, alt and shift; one that is held adds its word, and the others add
/// nothing.
pub proof fn law_modifiers_come_first(mods: ModMask, raw: Seq<char>)
    ensures
        mods.logo ==> combo_of(mods, raw) == "mod+"@ + combo_of(
            ModMask { logo: false, ..mods },
            raw,
        ),
        !mods.logo && mods.ctrl ==> combo_of(mods, raw) == "Ctrl+"@ + combo_of(
            ModMask { ctrl: false, ..mods },
            raw,
        ),
        !mods.logo && !mods.ctrl && mods.alt ==> combo_of(mods, raw) == "Alt+"@ + combo_of(
            ModMask { alt: false, ..mods },
            raw,
        ),
        !mods.logo && !mods.ctrl && !mods.alt && mods.shift ==> combo_of(mods, raw) == "Shift+"@
            + combo_of(ModMask { shift: false, ..mods }, raw),
        !mods.logo && !mods.ctrl && !mods.alt && !mods.shift ==> combo_of(mods, raw) == key_word(
            raw,
        ),
{
    let e = Seq::<char>::empty();
    let k = key_word(raw);
    let c = held(mods.ctrl, "Ctrl+"@);
    let a = held(mods.alt, "Alt+"@);
    let s = held(mods.shift, "Shift+"@);
    assert(mods.logo ==> combo_of(mods, raw) =~= "mod+"@ + combo_of(
        ModMask { logo: false, ..mods },
        raw,
    ));
    assert(!mods.logo && mods.ctrl ==> combo_of(mods, raw) =~= "Ctrl+"@ + combo_of(
        ModMask { ctrl: false, ..mods },
        raw,
    ));
    assert(!mods.logo && !mods.ctrl && mods.alt ==> combo_of(mods, raw) =~= "Alt+"@ + combo_of(
        ModMask { alt: false, ..mods },
        raw,
    ));
    assert(!mods.logo && !mods.ctrl && !mods.alt && mods.shift ==> combo_of(mods, raw) =~= "Shift+"@
        + combo_of(ModMask { shift: false, ..mods }, raw));
    assert(e + e + e + e + k =~= k);
}

/// What is about a workspace is told with its number, counted from one; what
/// starts something, with its name.
pub proof fn law_labels_name_their_object(k: usize, name: String)
    requires
        k < usize::MAX,
    ensures
        label_of(Action::ViewWs(k)) =~= "View workspace "@ + text::decimal((k + 1) as nat),
        label_of(Action::Spawn(name)) =~= "Launch: "@ + name@,
        label_of(Action::ToggleScratchpad(Some(name))) =~= "Toggle scratchpad: "@ + name@,
        text::byte_len(name@, name@.len() as int) <= 28 ==> label_of(Action::SpawnRaw(name))
            =~= "Run: "@ + name@,
{
}

proof fn lemma_entry_in(
    binds: Seq<Keybind>,
    names: Seq<Seq<char>>,
    s: Section,
    n: int,
    k: int,
)
    requires
        0 <= k < n <= binds.len(),
        section_of(binds[k].action) == s,
    ensures
        entries_in(binds, names, s, n).contains(
            EntryView { combo: combo_of(binds[k].mods, names[k]), label: label_of(binds[k].action) },
        ),
    decreases n,
{
    let e = EntryView {
        combo: combo_of(binds[k].mods, names[k]),
        label: label_of(binds[k].action),
    };
    let before = entries_in(binds, names, s, n - 1);
    let after = entries_in(binds, names, s, n);
    if k == n - 1 {
        assert(after[before.len() as int] == e);
    } else {
        lemma_entry_in(binds, names, s, n - 1, k);
        let j = choose|j: int| 0 <= j < before.len() && before[j] == e;
        assert(after[j] == e);
    }
}

proof fn lemma_section_kept(
    before: Seq<GroupView>,
    binds: Seq<Keybind>,
    names: Seq<Seq<char>>,
    s: Section,
    g: GroupView,
)
    ensures
        before.contains(g) ==> with_section(before, binds, names, s).contains(g),
        entries_in(binds, names, s, binds.len() as int).len() > 0 ==> with_section(
            before,
            binds,
            names,
            s,
        ).contains(
            GroupView {
                title: title_of(s),
                entries: entries_in(binds, names, s, binds.len() as int),
            },
        ),
{
    let after = with_section(before, binds, names, s);
    if before.contains(g) {
        let i = choose|i: int| 0 <= i < before.len() && before[i] == g;
        assert(after[i] == g);
    }
    if after.len() > before.len() {
        assert(after[before.len() as int].title == title_of(s));
    }
}

/// Every binding is listed under the title of what it is about, with its key
/// and with what it does.
pub proof fn law_bindings_under_their_titles(binds: Seq<Keybind>, names: Seq<Seq<char>>, k: int)
    requires
        names.len() == binds.len(),
        0 <= k < binds.len(),
    ensures
        ({
            let title = match binds[k].action {
                Action::FocusNext => "Windows"@,
                Action::FocusPrev => "Windows"@,
                Action::KillClient => "Windows"@,
                Action::ToggleFloat => "Windows"@,
                Action::ToggleFullscreen => "Windows"@,
                Action::ViewWs(_) => "Workspaces"@,
                Action::SendWs(_) => "Workspaces"@,
                Action::ToggleScratchpad(_) => "Scratchpads"@,
                Action::ZoomMaster => "Layout"@,
                Action::ToggleMonocle => "Layout"@,
                Action::DecreaseMfact => "Layout"@,
                Action::IncreaseMfact => "Layout"@,
                Action::FocusMonitorNext => "Monitors"@,
                Action::FocusMonitorPrev => "Monitors"@,
                Action::SendMonitorNext => "Monitors"@,
                Action::SendMonitorPrev => "Monitors"@,
                Action::ToggleSync => "Monitors"@,
                Action::Spawn(_) => "Launch"@,
                Action::SpawnRaw(_) => "Launch"@,
                _ => "Session"@,
            };
            exists|g: GroupView| #[trigger]
                groups_of(binds, names).contains(g) && g.title == title && g.entries.contains(
                    EntryView {
                        combo: combo_of(binds[k].mods, names[k]),
                        label: label_of(binds[k].action),
                    },
                )
        }),
{
    let s = section_of(binds[k].action);
    let n = binds.len() as int;
    lemma_entry_in(binds, names, s, n, k);
    let g = GroupView { title: title_of(s), entries: entries_in(binds, names, s, n) };
    let a = with_section(Seq::empty(), binds, names, Section::Windows);
    let b = with_section(a, binds, names, Section::Workspaces);
    let c = with_section(b, binds, names, Section::Scratchpads);
    let d = with_section(c, binds, names, Section::Layout);
    let e = with_section(d, binds, names, Section::Monitors);
    let f = with_section(e, binds, names, Section::Launch);
    lemma_section_kept(Seq::empty(), binds, names, Section::Windows, g);
    lemma_section_kept(a, binds, names, Section::Workspaces, g);
    lemma_section_kept(b, binds, names, Section::Scratchpads, g);
    lemma_section_kept(c, binds, names, Section::Layout, g);
    lemma_section_kept(d, binds, names, Section::Monitors, g);
    lemma_section_kept(e, binds, names, Section::Launch, g);
    lemma_section_kept(f, binds, names, Section::Session, g);
    assert(groups_of(binds, names).contains(g));
}

/// In its line a key stands at the left; what it does starts in column 23 or,
/// behind a longer key, one space after it.
pub proof fn law_labels_stand_in_a_column(e: EntryView)
    ensures
        ({
            let t = entry_line(e).text;
            let at = if e.combo.len() < 22 {
                23
            } else {
                e.combo.len() + 1
            };
            &&& t.take(e.combo.len() as int) == e.combo
            &&& t.skip(at as int) == e.label
            &&& forall|i: int| e.combo.len() <= i < at ==> #[trigger] t[i] == ' '
        }),
{
    reveal_strlit(" ");
    let t = entry_line(e).text;
    let at = if e.combo.len() < 22 {
        23
    } else {
        e.combo.len() + 1
    };
    assert(t.take(e.combo.len() as int) =~= e.combo);
    assert(t.skip(at as int) =~= e.label);
}

proof fn lemma_blank_at(ls: Seq<LineView>, i: int)
    requires
        0 <= i,
    ensures
        blank_from(ls, i) < ls.len() ==> i <= blank_from(ls, i) && ls[blank_from(
            ls,
            i,
        )].text.len() == 0,
    decreases ls.len() - i,
{
    if i < ls.len() && ls[i].text.len() > 0 {
        lemma_blank_at(ls, i + 1);
    }
}

/// The first column holds all lines, or it ends with an empty line after at
/// least as many lines as fit, so that no group is torn apart. Where everything
/// fits there is no second column.
pub proof fn law_groups_are_not_torn(gs: Seq<GroupView>, max_rows: int)
    requires
        0 <= max_rows,
    ensures
        ({
            let ls = lines_of(gs);
            let n = first_column(gs, max_rows);
            &&& n == ls.len() || (max_rows < n <= ls.len() && ls[n - 1].text.len() == 0)
            &&& entry_count(gs, gs.len() as int) + 2 * gs.len() <= max_rows ==> n == ls.len()
        }),
{
    lemma_blank_at(lines_of(gs), max_rows);
}

} // verus!
