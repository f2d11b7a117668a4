//! The theme picker: a row of themes, a row of variants and a grid of
//! wallpapers. Every step is previewed, and the preview is kept or given up on
//! leaving.

use vstd::prelude::*;
use vstd::arithmetic::div_mod::{lemma_fundamental_div_mod, lemma_fundamental_div_mod_converse};

use crate::summon::beautify_ipc::{Request, Response, ThemeEntry, VariantEntry, WallpaperEntry};
use crate::text;
use crate::text::{copy_opt, copy_str, eq_str};

verus! {

pub const WIDTH: u32 = 820;

pub const HEIGHT: u32 = 500;

pub const PADDING: i32 = 18;

pub const SECTION_LABEL_WIDTH: i32 = 90;

pub const CHIP_HEIGHT: i32 = 32;

pub const CHIP_GAP: i32 = 8;

pub const THUMB_WIDTH: u32 = 120;

pub const THUMB_HEIGHT: u32 = 68;

/// How many rows of wallpapers are shown at once.
pub const WALLPAPER_ROWS: usize = 3;

/// Where the content of a section begins.
pub const CONTENT_X: i64 = 108;

pub const THEME_ROW_Y: i32 = 18;

pub const FIRST_SEPARATOR_Y: i32 = 68;

pub const VARIANT_ROW_Y: i32 = 86;

pub const SECOND_SEPARATOR_Y: i32 = 136;

pub const WALLPAPER_ROW_Y: i32 = 154;

/// The most themes, variants or wallpapers that a list holds.
pub const MAX_LIST: usize = 0x3fff_ffff;

/// The section that the keys act on.
#[derive(Clone, Copy, Debug, PartialEq, Eq, Structural)]
pub enum Focus {
    Theme,
    Variant,
    Wallpaper,
}

impl Focus {
    /// The section below; the first one below the last.
    pub open spec fn after(self) -> Focus {
        match self {
            Focus::Theme => Focus::Variant,
            Focus::Variant => Focus::Wallpaper,
            Focus::Wallpaper => Focus::Theme,
        }
    }

    /// The section above; the last one above the first.
    pub open spec fn before(self) -> Focus {
        match self {
            Focus::Theme => Focus::Wallpaper,
            Focus::Variant => Focus::Theme,
            Focus::Wallpaper => Focus::Variant,
        }
    }

    /// The section below.
    pub fn next(self) -> (f: Focus)
        ensures
            f == self.after(),
    {
        match self {
            Focus::Theme => Focus::Variant,
            Focus::Variant => Focus::Wallpaper,
            Focus::Wallpaper => Focus::Theme,
        }
    }

    /// The section above.
    pub fn prev(self) -> (f: Focus)
        ensures
            f == self.before(),
    {
        match self {
            Focus::Theme => Focus::Wallpaper,
            Focus::Variant => Focus::Theme,
            Focus::Wallpaper => Focus::Variant,
        }
    }
}

/// The section above the one below is the same again, and the other way round.
pub proof fn law_focus_cycles(f: Focus)
    ensures
        f.after().before() == f,
        f.before().after() == f,
        f.after().after().after() == f,
{
}

/// A number counted round among `modulus` numbers.
pub fn wrap(value: isize, modulus: usize) -> (r: usize)
    requires
        modulus <= isize::MAX,
    ensures
        modulus == 0 ==> r == 0,
        modulus > 0 ==> r == value as int % modulus as int,
{
    if modulus == 0 {
        return 0;
    }
    if value >= 0 {
        value as usize % modulus
    } else {
        let below: usize = (-(value + 1)) as usize;
        let rest: usize = below % modulus;
        let ghost m = modulus as int;
        let ghost q = below as int / m;
        proof {
            lemma_fundamental_div_mod(below as int, m);
            assert(value == m * (-q - 1) + (m - 1 - rest)) by (nonlinear_arith)
                requires
                    below == m * q + rest,
                    below == -(value + 1),
            ;
            assert(value == (-q - 1) * m + (m - 1 - rest)) by (nonlinear_arith)
                requires
                    value == m * (-q - 1) + (m - 1 - rest),
            ;
            lemma_fundamental_div_mod_converse(value as int, m, -q - 1, m - 1 - rest);
        }
        modulus - 1 - rest
    }
}

// ---- Themes -----------------------------------------------------------------

/// A theme with its variants and wallpapers, which are asked for when the theme
/// is selected for the first time.
#[derive(Debug)]
pub struct ThemeGroup {
    pub entry: ThemeEntry,
    pub variants: Option<Vec<VariantEntry>>,
    pub default_variant: Option<String>,
    pub wallpapers: Option<Vec<WallpaperEntry>>,
}

#[verifier::ext_equal]
pub struct GroupView {
    pub entry: ThemeEntry,
    pub variants: Option<Seq<VariantEntry>>,
    pub default_variant: Option<String>,
    pub wallpapers: Option<Seq<WallpaperEntry>>,
}

impl View for ThemeGroup {
    type V = GroupView;

    open spec fn view(&self) -> GroupView {
        GroupView {
            entry: self.entry,
            variants: match self.variants {
                Some(v) => Some(v@),
                None => None,
            },
            default_variant: self.default_variant,
            wallpapers: match self.wallpapers {
                Some(w) => Some(w@),
                None => None,
            },
        }
    }
}

/// The models of the groups.
pub open spec fn group_views(gs: Seq<ThemeGroup>) -> Seq<GroupView> {
    gs.map_values(|g: ThemeGroup| g@)
}

/// Groups with the answer to a request for the variants of one of them. What
/// is there already stays; without an answer there are none.
pub open spec fn with_variants(gs: Seq<GroupView>, idx: int, reply: Option<Response>) -> Seq<
    GroupView,
> {
    if idx >= gs.len() || gs[idx].variants is Some {
        gs
    } else {
        match reply {
            Some(Response::Variants { default_variant, variants, .. }) => gs.update(
                idx,
                GroupView { default_variant, variants: Some(variants@), ..gs[idx] },
            ),
            _ => gs.update(idx, GroupView { variants: Some(Seq::empty()), ..gs[idx] }),
        }
    }
}

/// Groups with the answer to a request for the wallpapers of one of them.
pub open spec fn with_wallpapers(gs: Seq<GroupView>, idx: int, reply: Option<Response>) -> Seq<
    GroupView,
> {
    if idx >= gs.len() || gs[idx].wallpapers is Some {
        gs
    } else {
        match reply {
            Some(Response::Wallpapers { entries, .. }) => gs.update(
                idx,
                GroupView { wallpapers: Some(entries@), ..gs[idx] },
            ),
            _ => gs.update(idx, GroupView { wallpapers: Some(Seq::empty()), ..gs[idx] }),
        }
    }
}

/// The request for the variants of a theme, where they are not there yet.
pub fn variants_request(groups: &Vec<ThemeGroup>, idx: usize) -> (out: Option<Request>)
    ensures
        out is Some <==> idx < groups@.len() && groups@[idx as int].variants is None,
        out matches Some(r) ==> (r matches Request::ListVariants { theme } && theme
            == groups@[idx as int].entry.name),
{
    if idx < groups.len() && groups[idx].variants.is_none() {
        Some(Request::ListVariants { theme: copy_str(&groups[idx].entry.name) })
    } else {
        None
    }
}

/// The request for the wallpapers of a theme, where they are not there yet.
pub fn wallpapers_request(groups: &Vec<ThemeGroup>, idx: usize) -> (out: Option<Request>)
    ensures
        out is Some <==> idx < groups@.len() && groups@[idx as int].wallpapers is None,
        out matches Some(r) ==> (r matches Request::ListWallpapers { theme, variant } && theme
            == groups@[idx as int].entry.name && variant is None),
{
    if idx < groups.len() && groups[idx].wallpapers.is_none() {
        Some(
            Request::ListWallpapers {
                theme: copy_str(&groups[idx].entry.name),
                variant: None,
            },
        )
    } else {
        None
    }
}

/// Takes the answer to a request for the variants of a theme.
pub fn fetch_variants_for(groups: &mut Vec<ThemeGroup>, idx: usize, reply: Option<Response>)
    ensures
        group_views(final(groups)@) == with_variants(group_views(old(groups)@), idx as int, reply),
{
    let ghost before = group_views(groups@);
    if idx < groups.len() && groups[idx].variants.is_none() {
        assert(before[idx as int] == groups@[idx as int]@);
        match reply {
            Some(Response::Variants { default_variant, variants, .. }) => {
                groups[idx].default_variant = default_variant;
                groups[idx].variants = Some(variants);
            },
            _ => {
                groups[idx].variants = Some(Vec::new());
            },
        }
        assert(group_views(groups@) =~= before.update(idx as int, groups@[idx as int]@));
    } else if idx < groups.len() {
        assert(before[idx as int] == groups@[idx as int]@);
    }
}

/// Takes the answer to a request for the wallpapers of a theme.
pub fn fetch_wallpapers_for(groups: &mut Vec<ThemeGroup>, idx: usize, reply: Option<Response>)
    ensures
        group_views(final(groups)@) == with_wallpapers(
            group_views(old(groups)@),
            idx as int,
            reply,
        ),
{
    let ghost before = group_views(groups@);
    if idx < groups.len() && groups[idx].wallpapers.is_none() {
        assert(before[idx as int] == groups@[idx as int]@);
        match reply {
            Some(Response::Wallpapers { entries, .. }) => {
                groups[idx].wallpapers = Some(entries);
            },
            _ => {
                groups[idx].wallpapers = Some(Vec::new());
            },
        }
        assert(group_views(groups@) =~= before.update(idx as int, groups@[idx as int]@));
    } else if idx < groups.len() {
        assert(before[idx as int] == groups@[idx as int]@);
    }
}

/// A theme is asked for its variants and wallpapers only once: after an
/// answer, or without one, nothing more is taken.
pub proof fn law_asked_once(
    gs: Seq<GroupView>,
    idx: int,
    first: Option<Response>,
    second: Option<Response>,
)
    requires
        0 <= idx < gs.len(),
    ensures
        with_variants(with_variants(gs, idx, first), idx, second) == with_variants(gs, idx, first),
        with_wallpapers(with_wallpapers(gs, idx, first), idx, second) == with_wallpapers(
            gs,
            idx,
            first,
        ),
{
}

/// Why there is nothing to pick from.
#[derive(Debug)]
pub enum PickerError {
    NoThemes,
    Daemon { message: String },
    NotRunning,
}

impl PickerError {
    /// The exit code of the program.
    pub fn exit_code(&self) -> (code: i32)
        ensures
            code == (if *self is NoThemes {
                2i32
            } else {
                1
            }),
    {
        match self {
            PickerError::NoThemes => 2,
            _ => 1,
        }
    }
}

/// The themes, from the answer to a request for them.
pub fn themes_from(reply: Option<Response>) -> (out: Result<Vec<ThemeEntry>, PickerError>)
    ensures
        match reply {
            Some(Response::Themes { themes }) => if themes@.len() > 0 {
                out matches Ok(t) && t == themes
            } else {
                out matches Err(e) && e is NoThemes
            },
            Some(Response::Error { message }) => out matches Err(PickerError::Daemon { message: m })
                && m == message,
            _ => out matches Err(e) && e is NotRunning,
        },
{
    match reply {
        Some(Response::Themes { themes }) => if themes.len() > 0 {
            Ok(themes)
        } else {
            Err(PickerError::NoThemes)
        },
        Some(Response::Error { message }) => Err(PickerError::Daemon { message }),
        _ => Err(PickerError::NotRunning),
    }
}

/// The theme and the variant in use, from the answer to a request for them.
pub fn state_from(reply: Option<Response>) -> (out: (Option<String>, Option<String>))
    ensures
        out == (match reply {
            Some(Response::State { theme, variant, .. }) => (theme, variant),
            _ => (None::<String>, None::<String>),
        }),
{
    match reply {
        Some(Response::State { theme, variant, .. }) => (theme, variant),
        _ => (None, None),
    }
}

// ---- The picker -------------------------------------------------------------

#[derive(Clone, Copy, Debug, PartialEq, Eq, Structural)]
pub enum Key {
    Escape,
    Return,
    Tab,
    BackTab,
    Up,
    Down,
    Left,
    Right,
    Letter(char),
    Other,
}

/// What is to be done after a key.
#[derive(Clone, Copy, Debug, PartialEq, Eq, Structural)]
pub struct Step {
    /// The selection changed: what is missing of it is to be asked for, and it
    /// is to be previewed.
    pub preview: bool,
    pub redraw: bool,
}

/// The picker.
#[derive(Debug)]
pub struct Picker {
    pub exit: bool,
    pub first_configure: bool,
    pub width: u32,
    pub height: u32,
    pub groups: Vec<ThemeGroup>,
    pub theme_idx: usize,
    pub variant_idx: usize,
    pub wallpaper_idx: usize,
    pub focus: Focus,
    pub ctrl_held: bool,
    /// Whether the preview is kept on leaving.
    pub commit_on_exit: bool,
}

#[verifier::ext_equal]
pub struct PickerView {
    pub exit: bool,
    pub first_configure: bool,
    pub width: u32,
    pub height: u32,
    pub groups: Seq<GroupView>,
    pub theme_idx: int,
    pub variant_idx: int,
    pub wallpaper_idx: int,
    pub focus: Focus,
    pub ctrl_held: bool,
    pub commit_on_exit: bool,
}

impl View for Picker {
    type V = PickerView;

    open spec fn view(&self) -> PickerView {
        PickerView {
            exit: self.exit,
            first_configure: self.first_configure,
            width: self.width,
            height: self.height,
            groups: group_views(self.groups@),
            theme_idx: self.theme_idx as int,
            variant_idx: self.variant_idx as int,
            wallpaper_idx: self.wallpaper_idx as int,
            focus: self.focus,
            ctrl_held: self.ctrl_held,
            commit_on_exit: self.commit_on_exit,
        }
    }
}

/// Whether the lists of a theme are not too long.
pub open spec fn group_ok(g: GroupView) -> bool {
    &&& g.variants matches Some(v) ==> v.len() <= MAX_LIST
    &&& g.wallpapers matches Some(w) ==> w.len() <= MAX_LIST
}

/// How many columns of wallpapers fit in a width; at least one.
pub open spec fn columns(width: int) -> int {
    let n = (width - PADDING - SECTION_LABEL_WIDTH - PADDING + CHIP_GAP) / (THUMB_WIDTH + CHIP_GAP);
    if n < 1 {
        1
    } else {
        n
    }
}

impl PickerView {
    /// The variants of the selected theme.
    pub open spec fn variants(self) -> Seq<VariantEntry> {
        match self.groups[self.theme_idx].variants {
            Some(v) => v,
            None => Seq::empty(),
        }
    }

    /// The wallpapers of the selected theme.
    pub open spec fn wallpapers(self) -> Seq<WallpaperEntry> {
        match self.groups[self.theme_idx].wallpapers {
            Some(w) => w,
            None => Seq::empty(),
        }
    }

    /// Whether the state is sound: what is selected exists, or there is nothing
    /// to select from and the index is 0.
    pub open spec fn wf(self) -> bool {
        &&& 0 <= self.theme_idx < self.groups.len() <= MAX_LIST
        &&& 0 <= self.variant_idx
        &&& self.variant_idx < self.variants().len() || self.variant_idx == 0
        &&& 0 <= self.wallpaper_idx
        &&& self.wallpaper_idx < self.wallpapers().len() || self.wallpaper_idx == 0
        &&& forall|i: int| 0 <= i < self.groups.len() ==> group_ok(#[trigger] self.groups[i])
        &&& self.width <= 0x7fff_ffff
    }

    /// The selection moved along its section, counted round, and whether it is
    /// another one. Another theme begins with its first variant and wallpaper.
    pub open spec fn moved(self, delta: int) -> (PickerView, bool) {
        match self.focus {
            Focus::Theme => {
                let to = (self.theme_idx + delta) % (self.groups.len() as int);
                if to != self.theme_idx {
                    (
                        PickerView { theme_idx: to, variant_idx: 0, wallpaper_idx: 0, ..self },
                        true,
                    )
                } else {
                    (self, false)
                }
            },
            Focus::Variant => {
                let n = self.variants().len() as int;
                let to = (self.variant_idx + delta) % n;
                if n > 0 && to != self.variant_idx {
                    (PickerView { variant_idx: to, ..self }, true)
                } else {
                    (self, false)
                }
            },
            Focus::Wallpaper => {
                let n = self.wallpapers().len() as int;
                let to = (self.wallpaper_idx + delta) % n;
                if n > 0 && to != self.wallpaper_idx {
                    (PickerView { wallpaper_idx: to, ..self }, true)
                } else {
                    (self, false)
                }
            },
        }
    }

    /// The wallpaper some rows below the selected one, where there is one and it
    /// is another.
    pub open spec fn row_target(self, rows: int) -> Option<int> {
        let to = self.wallpaper_idx + rows * columns(self.width as int);
        if 0 <= to < self.wallpapers().len() && to != self.wallpaper_idx {
            Some(to)
        } else {
            None
        }
    }

    /// The selection moved between rows: inside the grid of wallpapers where
    /// that has another row, else to the next section.
    pub open spec fn stepped(self, down: bool) -> (PickerView, bool) {
        let rows: int = if down {
            1
        } else {
            -1
        };
        let other = PickerView {
            focus: if down {
                self.focus.after()
            } else {
                self.focus.before()
            },
            ..self
        };
        if self.focus == Focus::Wallpaper {
            match self.row_target(rows) {
                Some(to) => (PickerView { wallpaper_idx: to, ..self }, true),
                None => (other, false),
            }
        } else {
            (other, false)
        }
    }

    /// What a key does.
    pub open spec fn pressed(self, key: Key) -> (PickerView, Step) {
        if key == Key::Escape || (self.ctrl_held && key == Key::Letter('c')) {
            (PickerView { exit: true, ..self }, Step { preview: false, redraw: false })
        } else if key == Key::Return {
            (
                PickerView { exit: true, commit_on_exit: true, ..self },
                Step { preview: false, redraw: false },
            )
        } else if key == Key::Tab {
            (
                PickerView { focus: self.focus.after(), ..self },
                Step { preview: false, redraw: true },
            )
        } else if key == Key::BackTab {
            (
                PickerView { focus: self.focus.before(), ..self },
                Step { preview: false, redraw: true },
            )
        } else if key == Key::Down || key == Key::Letter('j') {
            let (to, preview) = self.stepped(true);
            (to, Step { preview, redraw: true })
        } else if key == Key::Up || key == Key::Letter('k') {
            let (to, preview) = self.stepped(false);
            (to, Step { preview, redraw: true })
        } else if key == Key::Left || key == Key::Letter('h') || (self.ctrl_held && key
            == Key::Letter('p')) {
            let (to, preview) = self.moved(-1);
            (to, Step { preview, redraw: true })
        } else if key == Key::Right || key == Key::Letter('l') || (self.ctrl_held && key
            == Key::Letter('n')) {
            let (to, preview) = self.moved(1);
            (to, Step { preview, redraw: true })
        } else {
            (self, Step { preview: false, redraw: false })
        }
    }
}

/// The index of a theme by its name, from `i` on; 0 where none has it.
pub open spec fn theme_index(themes: Seq<ThemeEntry>, name: Option<Seq<char>>, i: int) -> int
    decreases themes.len() - i,
{
    if i >= themes.len() || name is None {
        0
    } else if themes[i].name@ == name->0 {
        i
    } else {
        theme_index(themes, name, i + 1)
    }
}

/// The index of a variant by its name, from `i` on; 0 where none has it.
pub open spec fn variant_index(variants: Seq<VariantEntry>, name: Option<Seq<char>>, i: int) -> int
    decreases variants.len() - i,
{
    if i >= variants.len() || name is None {
        0
    } else if variants[i].name@ == name->0 {
        i
    } else {
        variant_index(variants, name, i + 1)
    }
}

/// Whether a list of an answer is not too long.
pub open spec fn reply_ok(reply: Option<Response>) -> bool {
    match reply {
        Some(Response::Variants { variants, .. }) => variants@.len() <= MAX_LIST,
        Some(Response::Wallpapers { entries, .. }) => entries@.len() <= MAX_LIST,
        _ => true,
    }
}

impl Picker {
    pub open spec fn wf(self) -> bool {
        self@.wf()
    }

    /// The picker with the theme in use selected, before anything is known of
    /// its variants and wallpapers.
    pub fn new(themes: Vec<ThemeEntry>, current: &Option<String>) -> (p: Picker)
        requires
            0 < themes.len() <= MAX_LIST,
        ensures
            p.wf(),
            p@ == (PickerView {
                exit: false,
                first_configure: true,
                width: WIDTH,
                height: HEIGHT,
                groups: themes@.map_values(
                    |entry: ThemeEntry|
                        GroupView {
                            entry,
                            variants: None,
                            default_variant: None,
                            wallpapers: None,
                        },
                ),
                theme_idx: theme_index(themes@, text::opt_view(*current), 0),
                variant_idx: 0,
                wallpaper_idx: 0,
                focus: Focus::Theme,
                ctrl_held: false,
                commit_on_exit: false,
            }),
    {
        let theme_idx: usize = match current {
            Some(name) => {
                let mut i: usize = 0;
                while i < themes.len() && !eq_str(themes[i].name.as_str(), name.as_str())
                    invariant
                        i <= themes.len(),
                        theme_index(themes@, Some(name@), 0) == theme_index(
                            themes@,
                            Some(name@),
                            i as int,
                        ),
                    decreases themes.len() - i,
                {
                    i = i + 1;
                }
                if i < themes.len() {
                    i
                } else {
                    0
                }
            },
            None => 0,
        };
        let ghost all = themes@;
        let ghost want = all.map_values(
            |entry: ThemeEntry|
                GroupView { entry, variants: None, default_variant: None, wallpapers: None },
        );
        let mut rest: Vec<ThemeEntry> = themes;
        let mut groups: Vec<ThemeGroup> = Vec::new();
        let ghost mut done: int = 0;
        assert(all.skip(0) =~= all);
        assert(group_views(groups@) =~= want.take(0));
        while rest.len() > 0
            invariant
                0 <= done <= all.len(),
                rest@ == all.skip(done),
                want == all.map_values(
                    |entry: ThemeEntry|
                        GroupView {
                            entry,
                            variants: None,
                            default_variant: None,
                            wallpapers: None,
                        },
                ),
                group_views(groups@) == want.take(done),
            decreases rest.len(),
        {
            let ghost before = group_views(groups@);
            let entry: ThemeEntry = rest.remove(0);
            assert(entry == all[done]);
            let g: ThemeGroup = ThemeGroup {
                entry,
                variants: None,
                default_variant: None,
                wallpapers: None,
            };
            groups.push(g);
            assert(group_views(groups@) =~= before.push(g@));
            assert(want.take(done + 1) =~= want.take(done).push(want[done]));
            assert(rest@ =~= all.skip(done + 1));
            proof {
                done = done + 1;
            }
        }
        assert(want.take(all.len() as int) =~= want);
        Picker {
            exit: false,
            first_configure: true,
            width: WIDTH,
            height: HEIGHT,
            groups,
            theme_idx,
            variant_idx: 0,
            wallpaper_idx: 0,
            focus: Focus::Theme,
            ctrl_held: false,
            commit_on_exit: false,
        }
    }

    /// What is to be asked for about the selected theme: its variants, then its
    /// wallpapers.
    pub fn missing(&self) -> (out: Option<Request>)
        requires
            self.wf(),
        ensures
            ({
                let g = self@.groups[self@.theme_idx];
                if g.variants is None {
                    out matches Some(Request::ListVariants { theme }) && theme == g.entry.name
                } else if g.wallpapers is None {
                    out matches Some(Request::ListWallpapers { theme, variant }) && theme
                        == g.entry.name && variant is None
                } else {
                    out is None
                }
            }),
    {
        assert(self@.groups[self@.theme_idx] == self.groups@[self.theme_idx as int]@);
        match variants_request(&self.groups, self.theme_idx) {
            Some(r) => Some(r),
            None => wallpapers_request(&self.groups, self.theme_idx),
        }
    }

    /// Takes the answer to what was asked for: the variants of the selected
    /// theme where they were missing, else its wallpapers.
    pub fn load(&mut self, reply: Option<Response>)
        requires
            old(self).wf(),
            reply_ok(reply),
        ensures
            final(self).wf(),
            ({
                let v = old(self)@;
                final(self)@ == (PickerView {
                    groups: if v.groups[v.theme_idx].variants is None {
                        with_variants(v.groups, v.theme_idx, reply)
                    } else {
                        with_wallpapers(v.groups, v.theme_idx, reply)
                    },
                    ..v
                })
            }),
    {
        let ghost v = self@;
        assert(v.groups[v.theme_idx] == self.groups@[self.theme_idx as int]@);
        if self.groups[self.theme_idx].variants.is_none() {
            fetch_variants_for(&mut self.groups, self.theme_idx, reply);
        } else {
            fetch_wallpapers_for(&mut self.groups, self.theme_idx, reply);
        }
        assert forall|i: int| 0 <= i < self@.groups.len() implies group_ok(
            #[trigger] self@.groups[i],
        ) by {
            assert(group_ok(v.groups[i]));
        }
    }

    /// Selects the variant in use, where the selected theme has it.
    pub fn select_variant(&mut self, current: &Option<String>)
        requires
            old(self).wf(),
        ensures
            final(self).wf(),
            final(self)@ == (PickerView {
                variant_idx: variant_index(
                    old(self)@.variants(),
                    text::opt_view(*current),
                    0,
                ),
                ..old(self)@
            }),
    {
        let ghost vs = self@.variants();
        assert(self@.groups[self@.theme_idx] == self.groups@[self.theme_idx as int]@);
        let mut at: usize = 0;
        match (&self.groups[self.theme_idx].variants, current) {
            (Some(list), Some(name)) => {
                let mut i: usize = 0;
                while i < list.len() && !eq_str(list[i].name.as_str(), name.as_str())
                    invariant
                        i <= list.len(),
                        list@ == vs,
                        variant_index(vs, Some(name@), 0) == variant_index(
                            vs,
                            Some(name@),
                            i as int,
                        ),
                    decreases list.len() - i,
                {
                    i = i + 1;
                }
                if i < list.len() {
                    at = i;
                }
            },
            _ => {},
        }
        self.variant_idx = at;
    }

    fn variant_count(&self) -> (n: usize)
        requires
            self.wf(),
        ensures
            n == self@.variants().len(),
            n <= MAX_LIST,
    {
        assert(self@.groups[self@.theme_idx] == self.groups@[self.theme_idx as int]@);
        assert(group_ok(self@.groups[self@.theme_idx]));
        match &self.groups[self.theme_idx].variants {
            Some(v) => v.len(),
            None => 0,
        }
    }

    fn wallpaper_count(&self) -> (n: usize)
        requires
            self.wf(),
        ensures
            n == self@.wallpapers().len(),
            n <= MAX_LIST,
    {
        assert(self@.groups[self@.theme_idx] == self.groups@[self.theme_idx as int]@);
        assert(group_ok(self@.groups[self@.theme_idx]));
        match &self.groups[self.theme_idx].wallpapers {
            Some(w) => w.len(),
            None => 0,
        }
    }

    /// How many columns of wallpapers fit.
    pub fn wallpaper_cols(&self) -> (n: usize)
        requires
            self.wf(),
        ensures
            n == columns(self.width as int),
            1 <= n <= 0x200_0000,
    {
        let room: i64 = self.width as i64 - 118;
        if room < 256 {
            1
        } else {
            (room / 128) as usize
        }
    }

    /// Moves the selection of a wallpaper by rows. Returns whether it is
    /// another one.
    pub fn move_wallpaper_row(&mut self, row_delta: isize) -> (changed: bool)
        requires
            old(self).wf(),
        ensures
            final(self).wf(),
            changed == (old(self)@.row_target(row_delta as int) is Some),
            final(self)@ == (match old(self)@.row_target(row_delta as int) {
                Some(to) => PickerView { wallpaper_idx: to, ..old(self)@ },
                None => old(self)@,
            }),
    {
        let n: usize = self.wallpaper_count();
        let cols: usize = self.wallpaper_cols();
        assert(-0x8000_0000_0000_0000 * 0x200_0000 <= row_delta * cols <= 0x8000_0000_0000_0000
            * 0x200_0000) by (nonlinear_arith)
            requires
                -0x8000_0000_0000_0000 <= row_delta <= 0x8000_0000_0000_0000,
                1 <= cols <= 0x200_0000,
        ;
        let to: i128 = self.wallpaper_idx as i128 + row_delta as i128 * cols as i128;
        if to < 0 || to >= n as i128 || to == self.wallpaper_idx as i128 {
            return false;
        }
        self.wallpaper_idx = to as usize;
        true
    }

    /// Moves the selection of the focused section. Returns whether it is
    /// another one.
    pub fn move_selection(&mut self, delta: isize) -> (changed: bool)
        requires
            old(self).wf(),
            -0x3fff_ffff <= delta <= 0x3fff_ffff,
        ensures
            final(self).wf(),
            (final(self)@, changed) == old(self)@.moved(delta as int),
    {
        match self.focus {
            Focus::Theme => {
                assert(self@.groups.len() == self.groups.len());
                let to: usize = wrap(self.theme_idx as isize + delta, self.groups.len());
                if to != self.theme_idx {
                    self.theme_idx = to;
                    self.variant_idx = 0;
                    self.wallpaper_idx = 0;
                    true
                } else {
                    false
                }
            },
            Focus::Variant => {
                let n: usize = self.variant_count();
                if n == 0 {
                    return false;
                }
                let to: usize = wrap(self.variant_idx as isize + delta, n);
                if to != self.variant_idx {
                    self.variant_idx = to;
                    true
                } else {
                    false
                }
            },
            Focus::Wallpaper => {
                let n: usize = self.wallpaper_count();
                if n == 0 {
                    return false;
                }
                let to: usize = wrap(self.wallpaper_idx as isize + delta, n);
                if to != self.wallpaper_idx {
                    self.wallpaper_idx = to;
                    true
                } else {
                    false
                }
            },
        }
    }

    /// The request that previews the selection.
    pub fn preview(&self) -> (out: Request)
        requires
            self.wf(),
        ensures
            out matches Request::ApplyPreview { theme, variant, wallpaper } && {
                &&& theme == Some(self@.groups[self@.theme_idx].entry.name)
                &&& variant == (if self@.variant_idx < self@.variants().len() {
                    Some(self@.variants()[self@.variant_idx].name)
                } else {
                    None
                })
                &&& wallpaper == (if self@.wallpaper_idx < self@.wallpapers().len() {
                    Some(self@.wallpapers()[self@.wallpaper_idx].path)
                } else {
                    None
                })
            },
    {
        assert(self@.groups[self@.theme_idx] == self.groups@[self.theme_idx as int]@);
        let g: &ThemeGroup = &self.groups[self.theme_idx];
        let variant: Option<String> = match &g.variants {
            Some(v) => if self.variant_idx < v.len() {
                Some(copy_str(&v[self.variant_idx].name))
            } else {
                None
            },
            None => None,
        };
        let wallpaper: Option<String> = match &g.wallpapers {
            Some(w) => if self.wallpaper_idx < w.len() {
                Some(copy_str(&w[self.wallpaper_idx].path))
            } else {
                None
            },
            None => None,
        };
        Request::ApplyPreview { theme: Some(copy_str(&g.entry.name)), variant, wallpaper }
    }

    /// The request on leaving: keeps the preview or gives it up.
    pub fn closing_request(&self) -> (out: Request)
        ensures
            self.commit_on_exit ==> out is CommitPreview,
            !self.commit_on_exit ==> out is CancelPreview,
    {
        if self.commit_on_exit {
            Request::CommitPreview
        } else {
            Request::CancelPreview
        }
    }

    fn step(&mut self, down: bool) -> (changed: bool)
        requires
            old(self).wf(),
        ensures
            final(self).wf(),
            (final(self)@, changed) == old(self)@.stepped(down),
    {
        let rows: isize = if down {
            1
        } else {
            -1
        };
        if self.focus == Focus::Wallpaper && self.move_wallpaper_row(rows) {
            true
        } else {
            self.focus = if down {
                self.focus.next()
            } else {
                self.focus.prev()
            };
            false
        }
    }

    /// What a key does.
    pub fn press_key(&mut self, key: Key) -> (step: Step)
        requires
            old(self).wf(),
        ensures
            final(self).wf(),
            (final(self)@, step) == old(self)@.pressed(key),
    {
        if key == Key::Escape || (self.ctrl_held && key == Key::Letter('c')) {
            self.exit = true;
            return Step { preview: false, redraw: false };
        }
        if key == Key::Return {
            self.commit_on_exit = true;
            self.exit = true;
            return Step { preview: false, redraw: false };
        }
        if key == Key::Tab {
            self.focus = self.focus.next();
            return Step { preview: false, redraw: true };
        }
        if key == Key::BackTab {
            self.focus = self.focus.prev();
            return Step { preview: false, redraw: true };
        }
        if key == Key::Down || key == Key::Letter('j') {
            let preview: bool = self.step(true);
            return Step { preview, redraw: true };
        }
        if key == Key::Up || key == Key::Letter('k') {
            let preview: bool = self.step(false);
            return Step { preview, redraw: true };
        }
        if key == Key::Left || key == Key::Letter('h') || (self.ctrl_held && key == Key::Letter(
            'p',
        )) {
            let preview: bool = self.move_selection(-1);
            return Step { preview, redraw: true };
        }
        if key == Key::Right || key == Key::Letter('l') || (self.ctrl_held && key == Key::Letter(
            'n',
        )) {
            let preview: bool = self.move_selection(1);
            return Step { preview, redraw: true };
        }
        Step { preview: false, redraw: false }
    }

    /// The compositor gave the surface a size. Returns whether it is to be
    /// drawn.
    pub fn configure(&mut self, width: u32, height: u32) -> (draw: bool)
        requires
            old(self).wf(),
            width <= 0x7fff_ffff,
        ensures
            final(self).wf(),
            draw == old(self).first_configure,
            final(self)@ == (PickerView {
                first_configure: false,
                width: if width > 0 && height > 0 {
                    width
                } else {
                    old(self).width
                },
                height: if width > 0 && height > 0 {
                    height
                } else {
                    old(self).height
                },
                ..old(self)@
            }),
    {
        if width > 0 && height > 0 {
            self.width = width;
            self.height = height;
        }
        let draw: bool = self.first_configure;
        self.first_configure = false;
        draw
    }
}

/// Moving there and back selects the same again, where the section keeps its
/// list: a variant or a wallpaper.
pub proof fn law_there_and_back(v: PickerView)
    requires
        v.wf(),
        v.focus != Focus::Theme,
    ensures
        v.moved(1).0.moved(-1).0 == v,
        v.moved(-1).0.moved(1).0 == v,
{
    if v.focus == Focus::Variant {
        let n = v.variants().len() as int;
        if n > 0 {
            lemma_round_trip(v.variant_idx, n);
        }
        assert(v.moved(1).0.moved(-1).0 =~= v);
        assert(v.moved(-1).0.moved(1).0 =~= v);
    } else {
        let n = v.wallpapers().len() as int;
        if n > 0 {
            lemma_round_trip(v.wallpaper_idx, n);
        }
        assert(v.moved(1).0.moved(-1).0 =~= v);
        assert(v.moved(-1).0.moved(1).0 =~= v);
    }
}

proof fn lemma_round_trip(x: int, n: int)
    requires
        0 <= x < n,
    ensures
        ((x + 1) % n + (-1)) % n == x,
        ((x + (-1)) % n + 1) % n == x,
{
    if x + 1 == n {
        lemma_fundamental_div_mod_converse(x + 1, n, 1, 0);
        lemma_fundamental_div_mod_converse(0 - 1, n, -1, n - 1);
    } else {
        lemma_fundamental_div_mod_converse(x + 1, n, 0, x + 1);
        lemma_fundamental_div_mod_converse(x, n, 0, x);
    }
    if x == 0 {
        lemma_fundamental_div_mod_converse(0 - 1, n, -1, n - 1);
        lemma_fundamental_div_mod_converse(n, n, 1, 0);
    } else {
        lemma_fundamental_div_mod_converse(x - 1, n, 0, x - 1);
        lemma_fundamental_div_mod_converse(x, n, 0, x);
    }
}

/// What is previewed is what is selected: a key that changes the selection
/// asks for a preview, and no other key does.
pub proof fn law_previews_follow_selection(v: PickerView, key: Key)
    requires
        v.wf(),
    ensures
        ({
            let (w, step) = v.pressed(key);
            step.preview <==> w.theme_idx != v.theme_idx || w.variant_idx != v.variant_idx
                || w.wallpaper_idx != v.wallpaper_idx
        }),
{
}

/// Only the return key keeps the preview.
pub proof fn law_only_return_commits(v: PickerView, key: Key)
    requires
        !v.commit_on_exit,
    ensures
        v.pressed(key).0.commit_on_exit <==> key == Key::Return,
{
}

// ---- What is shown ----------------------------------------------------------

/// A chip of a row.
#[derive(Clone, Copy, Debug, PartialEq, Eq, Structural)]
pub struct Chip {
    pub index: usize,
    pub x: i64,
    pub w: i64,
    pub selected: bool,
}

/// Where the chip behind the first `n` begins.
pub open spec fn chip_x(widths: Seq<u32>, n: int) -> int
    decreases n,
{
    if n <= 0 {
        CONTENT_X as int
    } else {
        chip_x(widths, n - 1) + widths[n - 1] + 20 + CHIP_GAP
    }
}

/// The chips among the first `n` that are drawn: none follows one that reaches
/// the edge.
pub open spec fn chips_of(widths: Seq<u32>, selected: int, right: int, n: int) -> Seq<Chip>
    decreases n,
{
    if n <= 0 {
        Seq::empty()
    } else {
        let before = chips_of(widths, selected, right, n - 1);
        if before.len() < n - 1 || (n > 1 && chip_x(widths, n - 1) > right) {
            before
        } else {
            before.push(
                Chip {
                    index: (n - 1) as usize,
                    x: chip_x(widths, n - 1) as i64,
                    w: (widths[n - 1] + 20) as i64,
                    selected: n - 1 == selected,
                },
            )
        }
    }
}

proof fn lemma_chips_stop(widths: Seq<u32>, selected: int, right: int, a: int, b: int)
    requires
        0 <= a < b,
        chips_of(widths, selected, right, a).len() <= a,
        a > 0 && chip_x(widths, a) > right,
    ensures
        chips_of(widths, selected, right, b) == chips_of(widths, selected, right, a),
    decreases b,
{
    if a + 1 < b {
        lemma_chips_stop(widths, selected, right, a, b - 1);
    }
}

/// The chips of a row. `widths` are the widths of their texts.
pub fn chip_row(widths: &Vec<u32>, selected: usize, width: u32) -> (out: Vec<Chip>)
    requires
        widths.len() <= MAX_LIST,
    ensures
        out@ == chips_of(widths@, selected as int, width - PADDING, widths@.len() as int),
{
    let right: i64 = width as i64 - PADDING as i64;
    let mut out: Vec<Chip> = Vec::new();
    let mut x: i64 = CONTENT_X;
    let mut i: usize = 0;
    while i < widths.len() && (i == 0 || x <= right)
        invariant
            i <= widths.len() <= MAX_LIST,
            right == width - PADDING,
            x == chip_x(widths@, i as int),
            0 <= x <= CONTENT_X + i * 0x1_0000_0020,
            out@.len() == i,
            out@ == chips_of(widths@, selected as int, right as int, i as int),
        decreases widths.len() - i,
    {
        let w: i64 = widths[i] as i64 + 20;
        out.push(Chip { index: i, x, w, selected: i == selected });
        x = x + w + CHIP_GAP as i64;
        i = i + 1;
    }
    proof {
        if i < widths@.len() {
            lemma_chips_stop(
                widths@,
                selected as int,
                right as int,
                i as int,
                widths@.len() as int,
            );
        }
    }
    out
}

/// A wallpaper of the grid.
#[derive(Clone, Copy, Debug, PartialEq, Eq, Structural)]
pub struct Tile {
    pub index: usize,
    pub x: i64,
    pub y: i64,
    pub selected: bool,
}

/// How many rows `n` wallpapers take.
pub open spec fn row_count(n: int, cols: int) -> int {
    if n % cols == 0 {
        n / cols
    } else {
        n / cols + 1
    }
}

/// The first row of the grid that is shown: such that the selected one is
/// shown, and no row stays empty.
pub open spec fn first_row(n: int, selected: int, cols: int) -> int {
    let rows = row_count(n, cols);
    let row = selected / cols;
    if rows <= WALLPAPER_ROWS || row < WALLPAPER_ROWS {
        0
    } else if row + 1 >= rows {
        rows - WALLPAPER_ROWS
    } else {
        row + 1 - WALLPAPER_ROWS
    }
}

/// How many wallpapers are shown.
pub open spec fn shown_tiles(n: int, selected: int, cols: int) -> int {
    let left = n - first_row(n, selected, cols) * cols;
    if left < WALLPAPER_ROWS * cols {
        left
    } else {
        WALLPAPER_ROWS * cols
    }
}

/// The wallpapers that are shown.
pub open spec fn tiles_of(n: int, selected: int, cols: int) -> Seq<Tile> {
    let from = first_row(n, selected, cols) * cols;
    Seq::new(
        shown_tiles(n, selected, cols) as nat,
        |k: int|
            Tile {
                index: (from + k) as usize,
                x: (CONTENT_X + (k % cols) * 128) as i64,
                y: (WALLPAPER_ROW_Y + (k / cols) * 76) as i64,
                selected: from + k == selected,
            },
    )
}

proof fn lemma_rows(n: int, selected: int, cols: int)
    requires
        0 <= selected < n,
        1 <= cols,
    ensures
        0 <= first_row(n, selected, cols),
        first_row(n, selected, cols) <= selected / cols < first_row(n, selected, cols)
            + WALLPAPER_ROWS,
        first_row(n, selected, cols) * cols <= selected < first_row(n, selected, cols) * cols
            + WALLPAPER_ROWS * cols,
        first_row(n, selected, cols) * cols <= n,
{
    let rows = row_count(n, cols);
    let row = selected / cols;
    let first = first_row(n, selected, cols);
    lemma_fundamental_div_mod(n, cols);
    lemma_fundamental_div_mod(selected, cols);
    assert(0 <= selected % cols < cols && 0 <= n % cols < cols) by (nonlinear_arith)
        requires
            1 <= cols,
    ;
    assert(0 <= row) by (nonlinear_arith)
        requires
            row == selected / cols,
            0 <= selected,
            1 <= cols,
    ;
    assert(row < rows) by (nonlinear_arith)
        requires
            selected == cols * row + selected % cols,
            n == cols * (n / cols) + n % cols,
            selected < n,
            0 <= selected % cols,
            0 <= n % cols < cols,
            1 <= cols,
            rows == (if n % cols == 0 {
                n / cols
            } else {
                n / cols + 1
            }),
    ;
    assert(first * cols <= cols * row) by (nonlinear_arith)
        requires
            first <= row,
            1 <= cols,
    ;
    assert(cols * row + cols <= first * cols + 3 * cols) by (nonlinear_arith)
        requires
            row + 1 <= first + 3,
            1 <= cols,
    ;
}

/// The selected wallpaper is always among those that are shown, and no other
/// one is marked.
pub proof fn law_selected_tile_is_shown(n: int, selected: int, cols: int, k: int)
    requires
        0 <= selected < n <= usize::MAX,
        1 <= cols,
        0 <= k < tiles_of(n, selected, cols).len(),
    ensures
        selected - first_row(n, selected, cols) * cols < tiles_of(n, selected, cols).len(),
        tiles_of(n, selected, cols)[k].selected <==> k == selected - first_row(n, selected, cols)
            * cols,
{
    lemma_rows(n, selected, cols);
}

impl Picker {
    /// The wallpapers that are shown.
    pub fn tiles(&self) -> (out: Vec<Tile>)
        requires
            self.wf(),
        ensures
            out@ == (if self@.wallpapers().len() == 0 {
                Seq::empty()
            } else {
                tiles_of(
                    self@.wallpapers().len() as int,
                    self@.wallpaper_idx,
                    columns(self.width as int),
                )
            }),
    {
        let mut out: Vec<Tile> = Vec::new();
        let n: usize = self.wallpaper_count();
        if n == 0 {
            return out;
        }
        let selected: usize = self.wallpaper_idx;
        let cols: usize = self.wallpaper_cols();
        let rows: usize = if n % cols == 0 {
            n / cols
        } else {
            n / cols + 1
        };
        let row: usize = selected / cols;
        proof {
            lemma_rows(n as int, selected as int, cols as int);
        }
        let first: usize = if rows <= WALLPAPER_ROWS || row < WALLPAPER_ROWS {
            0
        } else if row + 1 >= rows {
            rows - WALLPAPER_ROWS
        } else {
            row + 1 - WALLPAPER_ROWS
        };
        let from: usize = first * cols;
        let count: usize = if n - from < WALLPAPER_ROWS * cols {
            n - from
        } else {
            WALLPAPER_ROWS * cols
        };
        let ghost want = tiles_of(n as int, selected as int, cols as int);
        assert(want.len() == count);
        assert(want.take(0) =~= out@);
        let mut k: usize = 0;
        while k < count
            invariant
                k <= count,
                count <= WALLPAPER_ROWS * cols,
                1 <= cols <= 0x200_0000,
                from + count <= n <= MAX_LIST,
                from == first_row(n as int, selected as int, cols as int) * cols,
                want == tiles_of(n as int, selected as int, cols as int),
                want.len() == count,
                out@ == want.take(k as int),
            decreases count - k,
        {
            let col: usize = k % cols;
            let line: usize = k / cols;
            assert(line <= 3) by (nonlinear_arith)
                requires
                    line == k / cols,
                    k < 3 * cols,
                    1 <= cols,
            ;
            let t: Tile = Tile {
                index: from + k,
                x: CONTENT_X + col as i64 * 128,
                y: WALLPAPER_ROW_Y as i64 + line as i64 * 76,
                selected: from + k == selected,
            };
            out.push(t);
            assert(want[k as int] == t);
            assert(want.take(k + 1) =~= want.take(k as int).push(t));
            k = k + 1;
        }
        assert(want.take(count as int) =~= want);
        out
    }
}

/// The name that is shown of a theme or a variant.
pub fn shown_name(name: &String, display_name: &Option<String>) -> (out: String)
    ensures
        out == (match *display_name {
            Some(d) => d,
            None => *name,
        }),
{
    match copy_opt(display_name) {
        Some(d) => d,
        None => copy_str(name),
    }
}

/// The sections are, from above, the themes, their variants and their
/// wallpapers; below the last comes the first.
pub proof fn law_sections_in_order()
    ensures
        Focus::Theme.after() == Focus::Variant,
        Focus::Variant.after() == Focus::Wallpaper,
        Focus::Wallpaper.after() == Focus::Theme,
        forall|f: Focus| (#[trigger] f.after()).before() == f,
{
}

/// The keys for left and right select the neighbour in the section that has the
/// focus, around its ends, and ask for its preview; another theme starts with
/// its first variant and its first wallpaper. Nothing else changes.
pub proof fn law_sideways_selects_neighbour(v: PickerView, right: bool)
    requires
        v.wf(),
    ensures
        ({
            let (to, step) = v.pressed(
                if right {
                    Key::Right
                } else {
                    Key::Left
                },
            );
            let d: int = if right {
                1
            } else {
                -1
            };
            let n = match v.focus {
                Focus::Theme => v.groups.len() as int,
                Focus::Variant => v.variants().len() as int,
                Focus::Wallpaper => v.wallpapers().len() as int,
            };
            &&& step.redraw
            &&& step.preview <==> n > 1
            &&& n <= 1 ==> to == v
            &&& n > 1 && v.focus == Focus::Theme ==> to == (PickerView {
                theme_idx: (v.theme_idx + d + n) % n,
                variant_idx: 0,
                wallpaper_idx: 0,
                ..v
            })
            &&& n > 1 && v.focus == Focus::Variant ==> to == (PickerView {
                variant_idx: (v.variant_idx + d + n) % n,
                ..v
            })
            &&& n > 1 && v.focus == Focus::Wallpaper ==> to == (PickerView {
                wallpaper_idx: (v.wallpaper_idx + d + n) % n,
                ..v
            })
        }),
{
    let d: int = if right {
        1
    } else {
        -1
    };
    let (n, i) = match v.focus {
        Focus::Theme => (v.groups.len() as int, v.theme_idx),
        Focus::Variant => (v.variants().len() as int, v.variant_idx),
        Focus::Wallpaper => (v.wallpapers().len() as int, v.wallpaper_idx),
    };
    if n > 0 {
        vstd::arithmetic::div_mod::lemma_mod_add_multiples_vanish(i + d, n);
        if n == 1 {
            vstd::arithmetic::div_mod::lemma_mod_bound(i + d, 1);
        } else if 0 <= i + d < n {
            vstd::arithmetic::div_mod::lemma_small_mod((i + d) as nat, n as nat);
        } else if i + d == n {
            vstd::arithmetic::div_mod::lemma_mod_self_0(n);
        } else {
            vstd::arithmetic::div_mod::lemma_small_mod((n - 1) as nat, n as nat);
        }
    }
}

/// In the grid of wallpapers the keys for down and up select the one a row
/// below or above, where there is one; elsewhere, and at the ends of the grid,
/// they go to the next section or the one before, and select nothing else.
pub proof fn law_up_and_down(v: PickerView, down: bool)
    requires
        v.wf(),
    ensures
        ({
            let (to, step) = v.pressed(
                if down {
                    Key::Down
                } else {
                    Key::Up
                },
            );
            let c = columns(v.width as int);
            let i = if down {
                v.wallpaper_idx + c
            } else {
                v.wallpaper_idx - c
            };
            let inside = v.focus == Focus::Wallpaper && 0 <= i < v.wallpapers().len();
            &&& c >= 1
            &&& step.redraw
            &&& step.preview <==> inside
            &&& inside ==> to == (PickerView { wallpaper_idx: i, ..v })
            &&& !inside && down ==> to.focus == v.focus.after()
            &&& !inside && !down ==> to.focus == v.focus.before()
            &&& !inside ==> to == (PickerView { focus: to.focus, ..v })
        }),
{
    let c = columns(v.width as int);
    assert(1 * c == c && -1 * c == -c) by (nonlinear_arith);
}

/// Escape leaves without choosing, return chooses; the tabulator goes on to the
/// next section, and back where it is reversed. None of them selects anything.
pub proof fn law_plain_keys(v: PickerView)
    ensures
        v.pressed(Key::Escape).0 == (PickerView { exit: true, ..v }),
        v.pressed(Key::Return).0 == (PickerView { exit: true, commit_on_exit: true, ..v }),
        v.pressed(Key::Tab).0 == (PickerView { focus: v.focus.after(), ..v }),
        v.pressed(Key::BackTab).0 == (PickerView { focus: v.focus.before(), ..v }),
        !v.pressed(Key::Tab).1.preview && v.pressed(Key::Tab).1.redraw,
        !v.pressed(Key::Escape).1.preview && !v.pressed(Key::Return).1.preview,
{
}

/// The letters of the editor stand for the arrows.
pub proof fn law_letters_are_arrows(v: PickerView)
    requires
        !v.ctrl_held,
    ensures
        v.pressed(Key::Letter('h')) == v.pressed(Key::Left),
        v.pressed(Key::Letter('j')) == v.pressed(Key::Down),
        v.pressed(Key::Letter('k')) == v.pressed(Key::Up),
        v.pressed(Key::Letter('l')) == v.pressed(Key::Right),
{
}

/// As many columns of wallpapers are shown as fit beside the labels, with the
/// gap between them; one more would not fit.
pub proof fn law_columns_fit(width: int)
    requires
        width <= 0x7fff_ffff,
        columns(width) > 1,
    ensures
        ({
            let n = columns(width);
            let room = width - PADDING - SECTION_LABEL_WIDTH - PADDING;
            &&& n * THUMB_WIDTH + (n - 1) * CHIP_GAP <= room
            &&& (n + 1) * THUMB_WIDTH + n * CHIP_GAP > room
        }),
{
}

/// The theme in use is the first one with its name, and the first of all where
/// none has it.
pub proof fn law_theme_in_use_is_selected(themes: Seq<ThemeEntry>, name: Seq<char>, i: int, k: int)
    requires
        0 <= k <= i < themes.len(),
        themes[i].name@ == name,
        forall|j: int| k <= j < i ==> (#[trigger] themes[j]).name@ != name,
    ensures
        theme_index(themes, Some(name), k) == i,
        theme_index(themes, None, k) == 0,
    decreases i - k,
{
    if k < i {
        law_theme_in_use_is_selected(themes, name, i, k + 1);
    }
}

proof fn lemma_chips(widths: Seq<u32>, selected: int, right: int, n: int)
    requires
        0 <= n <= widths.len() <= MAX_LIST,
    ensures
        ({
            let cs = chips_of(widths, selected, right, n);
            &&& cs.len() <= n
            &&& n > 0 ==> cs.len() > 0
            &&& forall|k: int|
                0 <= k < cs.len() ==> (#[trigger] cs[k]) == (Chip {
                    index: k as usize,
                    x: chip_x(widths, k) as i64,
                    w: (widths[k] + 20) as i64,
                    selected: k == selected,
                }) && (k > 0 ==> chip_x(widths, k) <= right)
            &&& cs.len() < n ==> chip_x(widths, cs.len() as int) > right
        }),
    decreases n,
{
    if n > 0 {
        lemma_chips(widths, selected, right, n - 1);
        let before = chips_of(widths, selected, right, n - 1);
        let cs = chips_of(widths, selected, right, n);
        assert forall|k: int| 0 <= k < cs.len() implies (#[trigger] cs[k]) == (Chip {
            index: k as usize,
            x: chip_x(widths, k) as i64,
            w: (widths[k] + 20) as i64,
            selected: k == selected,
        }) && (k > 0 ==> chip_x(widths, k) <= right) by {
            if k < before.len() {
                assert(cs[k] == before[k]);
            }
        }
    }
}

proof fn lemma_chip_x(widths: Seq<u32>, n: int)
    requires
        0 <= n,
    ensures
        0 <= chip_x(widths, n) <= CONTENT_X + n * 0x2_0000_0000,
    decreases n,
{
    if n > 0 {
        lemma_chip_x(widths, n - 1);
    }
}

/// Chips stand in a row from the left edge of the content, each as wide as its
/// text and a margin, with a gap between them. Those that would start beyond the
/// right edge are left out; the selected one is marked.
pub proof fn law_chips_in_a_row(widths: Seq<u32>, selected: int, right: int, k: int)
    requires
        widths.len() <= MAX_LIST,
        0 <= k < chips_of(widths, selected, right, widths.len() as int).len(),
    ensures
        ({
            let cs = chips_of(widths, selected, right, widths.len() as int);
            &&& cs[0].x == CONTENT_X
            &&& cs[k].index == k
            &&& cs[k].w == widths[k] + 20
            &&& cs[k].selected <==> k == selected
            &&& k > 0 ==> cs[k].x == cs[k - 1].x + cs[k - 1].w + CHIP_GAP && cs[k].x <= right
            &&& k + 1 == cs.len() && cs.len() < widths.len() ==> cs[k].x + cs[k].w + CHIP_GAP > right
        }),
{
    lemma_chips(widths, selected, right, widths.len() as int);
    lemma_chip_x(widths, k);
    if k > 0 {
        lemma_chip_x(widths, k - 1);
    }
}

/// The variant in use is the first one with its name, and the first of all
/// where none is given.
pub proof fn law_variant_in_use_is_selected(vs: Seq<VariantEntry>, name: Seq<char>, i: int, k: int)
    requires
        0 <= k <= i < vs.len(),
        vs[i].name@ == name,
        forall|j: int| k <= j < i ==> (#[trigger] vs[j]).name@ != name,
    ensures
        variant_index(vs, Some(name), k) == i,
        variant_index(vs, None, k) == 0,
    decreases i - k,
{
    if k < i {
        law_variant_in_use_is_selected(vs, name, i, k + 1);
    }
}

/// The wallpapers stand in a grid: as many in a row as there are columns, evenly
/// apart, and the rows one below the other. They are shown in order.
pub proof fn law_wallpapers_in_a_grid(n: int, selected: int, cols: int, k: int)
    requires
        0 <= selected < n <= MAX_LIST,
        1 <= cols <= 0x100_0000,
        0 <= k < tiles_of(n, selected, cols).len(),
        k < 0x100_0000,
    ensures
        ({
            let ts = tiles_of(n, selected, cols);
            &&& ts[0].x == CONTENT_X && ts[0].y == WALLPAPER_ROW_Y
            &&& ts[k].selected <==> first_row(n, selected, cols) * cols + k == selected
            &&& k > 0 && k % cols != 0 ==> ts[k].x == ts[k - 1].x + 128 && ts[k].y == ts[k - 1].y
            &&& k > 0 && k % cols == 0 ==> ts[k].x == CONTENT_X && ts[k].y == ts[k - 1].y + 76
        }),
{
    lemma_fundamental_div_mod(k, cols);
    lemma_fundamental_div_mod(k - 1, cols);
    let q = k / cols;
    let r = k % cols;
    assert(0 <= r < cols && 0 <= q <= k) by (nonlinear_arith)
        requires
            q == k / cols,
            r == k % cols,
            0 <= k,
            1 <= cols,
    ;
    assert(0int / cols == 0 && 0int % cols == 0) by (nonlinear_arith)
        requires
            1 <= cols,
    ;
    if k > 0 {
        if r != 0 {
            assert(k - 1 == cols * q + (r - 1));
            vstd::arithmetic::div_mod::lemma_fundamental_div_mod_converse(k - 1, cols, q, r - 1);
        } else {
            assert(k - 1 == (q - 1) * cols + (cols - 1)) by (nonlinear_arith)
                requires
                    k == cols * q + r,
                    r == 0,
            ;
            vstd::arithmetic::div_mod::lemma_fundamental_div_mod_converse(
                k - 1,
                cols,
                q - 1,
                cols - 1,
            );
            assert(q >= 1) by (nonlinear_arith)
                requires
                    k == cols * q + r,
                    r == 0,
                    k > 0,
                    1 <= cols,
            ;
        }
    }
}

} // verus!
