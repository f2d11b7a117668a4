//! The launcher: what is typed, what is found and what is chosen.

use vstd::prelude::*;

use crate::scan;
use crate::summon::desktop;
use crate::summon::desktop::{DesktopEntry, EntryView};
use crate::summon::filter;
use crate::summon::filter::is_command;
use crate::text;
use crate::text::copy_str;

verus! {

pub const WIDTH: u32 = 600;

pub const HEIGHT: u32 = 420;

pub const PADDING: i32 = 16;

pub const SEARCH_HEIGHT: i32 = 44;

pub const ITEM_HEIGHT: i32 = 36;

/// The most results that are shown at once.
pub const MAX_VISIBLE: usize = 10;

/// Where the line under the search field is.
pub const SEPARATOR_Y: i32 = 68;

/// Where the first result is.
pub const LIST_Y: i32 = 76;

#[derive(Clone, Copy, Debug, PartialEq, Eq, Structural)]
pub enum Key {
    Escape,
    Return,
    Backspace,
    Up,
    Down,
    Tab,
    Other,
}

/// The launcher.
#[derive(Debug)]
pub struct Launcher {
    pub exit: bool,
    pub first_configure: bool,
    pub width: u32,
    pub height: u32,
    pub entries: Vec<DesktopEntry>,
    pub query: String,
    /// The entries that the query finds.
    pub filtered: Vec<usize>,
    pub selected: usize,
    /// The first result that is shown.
    pub scroll_offset: usize,
    /// What is to be started on leaving.
    pub launch_command: Option<String>,
}

#[verifier::ext_equal]
pub struct LauncherView {
    pub exit: bool,
    pub first_configure: bool,
    pub width: u32,
    pub height: u32,
    pub entries: Seq<EntryView>,
    pub query: Seq<char>,
    pub filtered: Seq<usize>,
    pub selected: int,
    pub scroll_offset: int,
    pub launch_command: Option<Seq<char>>,
}

impl View for Launcher {
    type V = LauncherView;

    open spec fn view(&self) -> LauncherView {
        LauncherView {
            exit: self.exit,
            first_configure: self.first_configure,
            width: self.width,
            height: self.height,
            entries: desktop::entry_views(self.entries@),
            query: self.query@,
            filtered: self.filtered@,
            selected: self.selected as int,
            scroll_offset: self.scroll_offset as int,
            launch_command: text::opt_view(self.launch_command),
        }
    }
}

impl LauncherView {
    /// Whether the query itself is offered as a command.
    pub open spec fn offers_query(self) -> bool {
        self.query.len() > 0 && (filter::looks_like_command(self.query) || self.filtered.len()
            == 0)
    }

    /// How many rows can be selected.
    pub open spec fn row_count(self) -> int {
        self.filtered.len() + (if self.offers_query() {
            1int
        } else {
            0
        })
    }

    /// Whether the state is sound: the results are those of the query, and the
    /// selected row is one of those that are shown.
    pub open spec fn wf(self) -> bool {
        &&& self.filtered == filter::filtered(self.entries, self.query)
        &&& 0 <= self.scroll_offset <= self.selected
        &&& self.selected < self.scroll_offset + MAX_VISIBLE
        &&& self.selected < self.row_count() || self.selected == 0
    }

    /// What the selected row starts.
    pub open spec fn chosen(self) -> Option<Seq<char>> {
        if self.selected < self.filtered.len() {
            Some(self.entries[self.filtered[self.selected] as int].command)
        } else if self.offers_query() {
            Some(self.query)
        } else {
            None
        }
    }

    /// With another query.
    pub open spec fn searching(self, query: Seq<char>) -> LauncherView {
        LauncherView {
            query,
            filtered: filter::filtered(self.entries, query),
            selected: 0,
            scroll_offset: 0,
            ..self
        }
    }

    /// One row up.
    pub open spec fn moved_up(self) -> LauncherView {
        if self.selected > 0 {
            LauncherView {
                selected: self.selected - 1,
                scroll_offset: if self.selected - 1 < self.scroll_offset {
                    self.selected - 1
                } else {
                    self.scroll_offset
                },
                ..self
            }
        } else {
            self
        }
    }

    /// One row down.
    pub open spec fn moved_down(self) -> LauncherView {
        if self.selected + 1 < self.row_count() {
            LauncherView {
                selected: self.selected + 1,
                scroll_offset: if self.selected + 1 >= self.scroll_offset + MAX_VISIBLE {
                    self.selected + 1 - (MAX_VISIBLE - 1)
                } else {
                    self.scroll_offset
                },
                ..self
            }
        } else {
            self
        }
    }

    /// What a key does. `typed` is the text that it stands for.
    pub open spec fn pressed(self, key: Key, typed: Option<Seq<char>>) -> LauncherView {
        match key {
            Key::Escape => LauncherView { exit: true, ..self },
            Key::Return => LauncherView { exit: true, launch_command: self.chosen(), ..self },
            Key::Backspace => self.searching(
                if self.query.len() > 0 {
                    self.query.drop_last()
                } else {
                    self.query
                },
            ),
            Key::Up => self.moved_up(),
            Key::Down => self.moved_down(),
            Key::Tab => self.moved_down(),
            Key::Other => match typed {
                Some(t) => if is_typed(t) {
                    self.searching(self.query + t)
                } else {
                    self
                },
                None => self,
            },
        }
    }
}

/// Whether a text can be typed: it is not empty and holds no control code.
pub open spec fn is_typed(t: Seq<char>) -> bool {
    t.len() > 0 && !(exists|i: int| 0 <= i < t.len() && scan::is_control(#[trigger] t[i]))
}

/// Whether a key asks for the picture to be drawn again.
pub open spec fn redraws(key: Key, typed: Option<Seq<char>>) -> bool {
    match key {
        Key::Escape | Key::Return => false,
        Key::Backspace | Key::Up | Key::Down | Key::Tab => true,
        Key::Other => typed matches Some(t) && is_typed(t),
    }
}

/// Every result of a query is one of the entries.
pub proof fn law_results_are_entries(es: Seq<EntryView>, query: Seq<char>)
    requires
        es.len() <= usize::MAX,
    ensures
        forall|k: int|
            0 <= k < filter::filtered(es, query).len() ==> #[trigger] filter::filtered(es, query)[k]
                < es.len(),
{
    let out = filter::filtered(es, query);
    let names = filter::lower_names(es);
    let commands = filter::lower_commands(es);
    filter::law_matches_by_rank(names, commands, text::lowercase(query));
    assert forall|k: int| 0 <= k < out.len() implies #[trigger] out[k] < es.len() by {
        assert(out.contains(out[k]));
    }
}

impl Launcher {
    pub open spec fn wf(self) -> bool {
        self@.wf()
    }

    /// The launcher before anything has been typed.
    pub fn new(entries: Vec<DesktopEntry>) -> (l: Launcher)
        ensures
            l.wf(),
            l@ == (LauncherView {
                exit: false,
                first_configure: true,
                width: WIDTH,
                height: HEIGHT,
                entries: desktop::entry_views(entries@),
                query: Seq::empty(),
                filtered: filter::all_indices(entries@.len()),
                selected: 0,
                scroll_offset: 0,
                launch_command: None,
            }),
    {
        let query: String = String::new();
        let filtered: Vec<usize> = filter::filter(&entries, query.as_str());
        Launcher {
            exit: false,
            first_configure: true,
            width: WIDTH,
            height: HEIGHT,
            entries,
            query,
            filtered,
            selected: 0,
            scroll_offset: 0,
            launch_command: None,
        }
    }

    /// Searches for what the query finds.
    pub fn update_filter(&mut self)
        ensures
            final(self)@ == old(self)@.searching(old(self)@.query),
            final(self).wf(),
    {
        self.filtered = filter::filter(&self.entries, self.query.as_str());
        self.selected = 0;
        self.scroll_offset = 0;
    }

    /// Whether the query itself is offered as a command.
    pub fn shows_fallback(&self) -> (r: bool)
        ensures
            r == self@.offers_query(),
    {
        !self.query.as_str().is_empty() && (is_command(self.query.as_str()) || self.filtered.len()
            == 0)
    }

    /// What the selected row starts.
    pub fn selected_command(&self) -> (out: Option<String>)
        requires
            self.wf(),
        ensures
            text::opt_view(out) == self@.chosen(),
    {
        if self.selected < self.filtered.len() {
            assert(self@.entries.len() == self.entries.len());
            proof {
                law_results_are_entries(self@.entries, self@.query);
            }
            let i: usize = self.filtered[self.selected];
            assert(self@.entries[i as int] == self.entries@[i as int]@);
            Some(copy_str(&self.entries[i].command))
        } else if self.shows_fallback() {
            Some(copy_str(&self.query))
        } else {
            None
        }
    }

    fn erase(&mut self)
        ensures
            final(self)@ == (LauncherView {
                query: if old(self)@.query.len() > 0 {
                    old(self)@.query.drop_last()
                } else {
                    old(self)@.query
                },
                ..old(self)@
            }),
    {
        let cs: Vec<char> = text::chars_of(self.query.as_str());
        if cs.len() > 0 {
            self.query = text::string_of(&cs, 0, cs.len() - 1);
            assert(self.query@ =~= old(self).query@.drop_last());
        }
    }

    fn move_up(&mut self)
        requires
            old(self).wf(),
        ensures
            final(self)@ == old(self)@.moved_up(),
            final(self).wf(),
    {
        if self.selected > 0 {
            self.selected = self.selected - 1;
            if self.selected < self.scroll_offset {
                self.scroll_offset = self.selected;
            }
        }
    }

    fn move_down(&mut self)
        requires
            old(self).wf(),
        ensures
            final(self)@ == old(self)@.moved_down(),
            final(self).wf(),
    {
        let more: bool = if self.shows_fallback() {
            self.selected < self.filtered.len()
        } else {
            self.selected < self.filtered.len() && self.filtered.len() - self.selected > 1
        };
        if more {
            self.selected = self.selected + 1;
            if self.selected - self.scroll_offset >= MAX_VISIBLE {
                self.scroll_offset = self.selected - (MAX_VISIBLE - 1);
            }
        }
    }

    /// What a key does. `typed` is the text that it stands for. Returns whether
    /// the picture is to be drawn again.
    pub fn press_key(&mut self, key: Key, typed: &Option<String>) -> (redraw: bool)
        requires
            old(self).wf(),
        ensures
            final(self)@ == old(self)@.pressed(key, text::opt_view(*typed)),
            final(self).wf(),
            redraw == redraws(key, text::opt_view(*typed)),
    {
        match key {
            Key::Escape => {
                self.exit = true;
                false
            },
            Key::Return => {
                self.launch_command = self.selected_command();
                self.exit = true;
                false
            },
            Key::Backspace => {
                self.erase();
                self.update_filter();
                true
            },
            Key::Up => {
                self.move_up();
                true
            },
            Key::Down | Key::Tab => {
                self.move_down();
                true
            },
            Key::Other => match typed {
                Some(t) => {
                    if !t.as_str().is_empty() && !scan::has_control(t.as_str()) {
                        self.query.push_str(t.as_str());
                        self.update_filter();
                        true
                    } else {
                        false
                    }
                },
                None => false,
            },
        }
    }

    /// The compositor gave the surface a size. Returns whether it is to be
    /// drawn.
    pub fn configure(&mut self, width: u32, height: u32) -> (draw: bool)
        ensures
            draw == old(self).first_configure,
            final(self)@ == (LauncherView {
                first_configure: false,
                width: if width > 0 && height > 0 {
                    width
                } else {
                    old(self).width
                },
                height: if width > 0 && height > 0 {
                    height
                } else {
                    old(self).height
                },
                ..old(self)@
            }),
    {
        if width > 0 && height > 0 {
            self.width = width;
            self.height = height;
        }
        let draw: bool = self.first_configure;
        self.first_configure = false;
        draw
    }
}

// ---- What is shown ----------------------------------------------------------

/// A result that is shown.
#[derive(Clone, Copy, Debug, PartialEq, Eq, Structural)]
pub struct Row {
    pub entry: usize,
    pub y: i32,
    pub selected: bool,
}

/// The row that offers the query.
#[derive(Debug)]
pub struct FallbackRow {
    pub text: String,
    pub y: i32,
    pub selected: bool,
}

/// How many results are shown.
pub open spec fn shown_count(v: LauncherView) -> int {
    if v.filtered.len() <= v.scroll_offset {
        0
    } else if v.filtered.len() - v.scroll_offset < MAX_VISIBLE {
        v.filtered.len() - v.scroll_offset
    } else {
        MAX_VISIBLE as int
    }
}

/// The results that are shown.
pub open spec fn rows_of(v: LauncherView) -> Seq<Row> {
    Seq::new(
        shown_count(v) as nat,
        |i: int|
            Row {
                entry: v.filtered[v.scroll_offset + i],
                y: (LIST_Y + i * ITEM_HEIGHT) as i32,
                selected: v.scroll_offset + i == v.selected,
            },
    )
}

/// Where the row that offers the query is.
pub open spec fn fallback_y(v: LauncherView) -> int {
    let n = if v.filtered.len() < MAX_VISIBLE {
        v.filtered.len() as int
    } else {
        MAX_VISIBLE as int
    };
    LIST_Y + n * ITEM_HEIGHT
}

impl Launcher {
    /// The results that are shown.
    pub fn rows(&self) -> (out: Vec<Row>)
        requires
            self.wf(),
        ensures
            out@ == rows_of(self@),
    {
        let mut out: Vec<Row> = Vec::new();
        let mut i: usize = 0;
        assert(rows_of(self@).take(0) =~= out@);
        while i < MAX_VISIBLE && self.scroll_offset < self.filtered.len() && i < self.filtered.len()
            - self.scroll_offset
            invariant
                i <= MAX_VISIBLE,
                i <= shown_count(self@),
                out@ == rows_of(self@).take(i as int),
            decreases MAX_VISIBLE - i,
        {
            let r: Row = Row {
                entry: self.filtered[self.scroll_offset + i],
                y: LIST_Y + i as i32 * ITEM_HEIGHT,
                selected: self.scroll_offset + i == self.selected,
            };
            out.push(r);
            assert(rows_of(self@)[i as int] == r);
            assert(rows_of(self@).take(i + 1) =~= rows_of(self@).take(i as int).push(r));
            i = i + 1;
        }
        assert(rows_of(self@).take(i as int) =~= rows_of(self@));
        out
    }

    /// The row that offers the query, where it does.
    pub fn fallback_row(&self) -> (out: Option<FallbackRow>)
        ensures
            out is Some <==> self@.offers_query(),
            out matches Some(r) ==> {
                &&& r.text@ == "Run: "@ + self.query@
                &&& r.y == fallback_y(self@)
                &&& r.selected == (self.selected >= self.filtered.len())
            },
    {
        if !self.shows_fallback() {
            return None;
        }
        let n: usize = if self.filtered.len() < MAX_VISIBLE {
            self.filtered.len()
        } else {
            MAX_VISIBLE
        };
        let mut text: String = String::new();
        text.push_str("Run: ");
        text.push_str(self.query.as_str());
        assert(text@ =~= "Run: "@ + self.query@);
        Some(
            FallbackRow {
                text,
                y: LIST_Y + n as i32 * ITEM_HEIGHT,
                selected: self.selected >= self.filtered.len(),
            },
        )
    }
}

/// Whether a comment, where it is too long, can be cut.
pub open spec fn comment_ok(c: Seq<char>) -> bool {
    text::byte_len(c, c.len() as int) > 40 ==> text::prefix_chars(c, 37, c.len() as int) is Some
}

/// Whether a comment, where it is too long, can be cut.
pub fn comment_fits(comment: &str) -> (r: bool)
    ensures
        r == comment_ok(comment@),
{
    !text::longer_than(comment, 40) || text::byte_prefix(comment, 37).is_some()
}

/// A comment as it is shown: at most 40 bytes long.
pub fn short_comment(comment: &str) -> (out: String)
    requires
        comment_ok(comment@),
    ensures
        out@ == (if text::byte_len(comment@, comment@.len() as int) > 40 {
            comment@.take(text::prefix_chars(comment@, 37, comment@.len() as int)->0) + "..."@
        } else {
            comment@
        }),
{
    if text::longer_than(comment, 40) {
        match text::byte_prefix(comment, 37) {
            Some(mut head) => {
                head.push_str("...");
                head
            },
            None => comment.to_owned(),
        }
    } else {
        comment.to_owned()
    }
}

// ---- What holds of every launcher -------------------------------------------

/// The selected result is always among those that are shown, and no other row
/// is marked.
pub proof fn law_selection_is_shown(v: LauncherView, i: int)
    requires
        v.wf(),
        v.selected < v.filtered.len(),
        0 <= i < rows_of(v).len(),
    ensures
        v.selected - v.scroll_offset < rows_of(v).len(),
        rows_of(v)[i].selected <==> i == v.selected - v.scroll_offset,
{
}

/// Where there is a row below, going down and up again selects the same row.
pub proof fn law_down_and_up(v: LauncherView)
    requires
        v.wf(),
        v.selected + 1 < v.row_count(),
    ensures
        v.moved_down().moved_up().selected == v.selected,
{
}

/// Taking back what was typed finds what was found before.
pub proof fn law_typing_taken_back(v: LauncherView, c: char)
    requires
        v.wf(),
        !scan::is_control(c),
    ensures
        ({
            let w = v.pressed(Key::Other, Some(seq![c])).pressed(Key::Backspace, None);
            w.query == v.query && w.filtered == v.filtered
        }),
{
    let t = seq![c];
    assert(is_typed(t));
    assert((v.query + t).drop_last() =~= v.query);
}

/// What is started is the command of an entry or the query itself.
pub proof fn law_choice(v: LauncherView)
    requires
        v.wf(),
        v.entries.len() <= usize::MAX,
        v.chosen() is Some,
    ensures
        v.chosen()->0 == v.query || exists|i: int|
            0 <= i < v.entries.len() && v.chosen()->0 == (#[trigger] v.entries[i]).command,
{
    if v.selected < v.filtered.len() {
        law_results_are_entries(v.entries, v.query);
        assert(v.filtered[v.selected] < v.entries.len());
    }
}

/// Return starts what the selected row stands for: the command of its entry, or
/// the query where the row offers it. Escape starts nothing. Both leave.
pub proof fn law_return_starts_the_selected(v: LauncherView, typed: Option<Seq<char>>)
    ensures
        ({
            let r = v.pressed(Key::Return, typed);
            &&& r == (LauncherView { exit: true, launch_command: r.launch_command, ..v })
            &&& v.selected < v.filtered.len() ==> r.launch_command == Some(
                v.entries[v.filtered[v.selected] as int].command,
            )
            &&& v.selected >= v.filtered.len() && v.query.len() > 0 && v.filtered.len() == 0
                ==> r.launch_command == Some(v.query)
            &&& v.selected >= v.filtered.len() && v.query.len() == 0 ==> r.launch_command is None
        }),
        v.pressed(Key::Escape, typed) == (LauncherView { exit: true, ..v }),
{
}

/// The keys for up and down, and the tabulator as down, select the neighbouring
/// row, and stop at the ends. What was searched stays.
pub proof fn law_arrows_select_neighbour(v: LauncherView, typed: Option<Seq<char>>)
    requires
        v.wf(),
    ensures
        ({
            let up = v.pressed(Key::Up, typed);
            let down = v.pressed(Key::Down, typed);
            let rows = v.filtered.len() + (if v.query.len() > 0 && (filter::looks_like_command(
                v.query,
            ) || v.filtered.len() == 0) {
                1int
            } else {
                0
            });
            &&& v.selected > 0 ==> up.selected == v.selected - 1
            &&& v.selected == 0 ==> up == v
            &&& v.selected + 1 < rows ==> down.selected == v.selected + 1
            &&& v.selected + 1 >= rows ==> down == v
            &&& v.pressed(Key::Tab, typed) == down
            &&& up == (LauncherView {
                selected: up.selected,
                scroll_offset: up.scroll_offset,
                ..v
            })
            &&& down == (LauncherView {
                selected: down.selected,
                scroll_offset: down.scroll_offset,
                ..v
            })
            &&& up.scroll_offset <= up.selected < up.scroll_offset + MAX_VISIBLE
            &&& down.scroll_offset <= down.selected < down.scroll_offset + MAX_VISIBLE
        }),
{
}

/// What is typed goes behind the query, and the results are searched anew, with
/// the first one selected. Control codes are not typed.
pub proof fn law_typing_searches(v: LauncherView, t: Seq<char>)
    ensures
        ({
            let w = v.pressed(Key::Other, Some(t));
            let plain = t.len() > 0 && forall|i: int|
                0 <= i < t.len() ==> !scan::is_control(#[trigger] t[i]);
            &&& plain ==> w.query == v.query + t && w.filtered == filter::filtered(
                v.entries,
                v.query + t,
            ) && w.selected == 0 && w.scroll_offset == 0
            &&& !plain ==> w == v
            &&& w.entries == v.entries && w.exit == v.exit && w.launch_command == v.launch_command
        }),
        v.pressed(Key::Other, None) == v,
{
}

/// The rows show consecutive results from the first one in view on, one below
/// the other at even distance.
pub proof fn law_rows_in_a_column(v: LauncherView, i: int)
    requires
        v.wf(),
        0 <= i < rows_of(v).len(),
    ensures
        rows_of(v).len() <= MAX_VISIBLE,
        rows_of(v)[i].entry == v.filtered[v.scroll_offset + i],
        rows_of(v)[0].y == LIST_Y,
        i > 0 ==> rows_of(v)[i].y == rows_of(v)[i - 1].y + ITEM_HEIGHT,
        rows_of(v).len() == MAX_VISIBLE || v.scroll_offset + rows_of(v).len() == v.filtered.len(),
{
}

/// The row that offers the query stands below the results that are shown.
pub proof fn law_query_stands_below_results(v: LauncherView, i: int)
    requires
        v.wf(),
        v.scroll_offset == 0,
        0 <= i < rows_of(v).len(),
    ensures
        fallback_y(v) >= rows_of(v)[i].y + ITEM_HEIGHT,
        i + 1 == rows_of(v).len() ==> fallback_y(v) == rows_of(v)[i].y + ITEM_HEIGHT,
{
}

} // verus!
