//! A workspace: an ordered list of windows, which of them float, and which of
//! them has the focus.

use vstd::prelude::*;

use crate::ratio;

verus! {

/// A window, by the slot it occupies in the table of windows.
pub type WindowId = u16;

/// How many workspaces every output has.
pub const WORKSPACE_COUNT: usize = 9;

#[derive(Clone, Copy, Debug, PartialEq, Eq, Structural)]
pub enum LayoutKind {
    Tile,
    Monocle,
}

#[derive(Debug)]
pub struct Workspace {
    pub id: usize,
    pub layout: LayoutKind,
    /// The share of the master column, in units of 2^-28.
    pub mfact: u32,
    pub nmaster: usize,
    pub gap_px: i32,
    pub clients: Vec<WindowId>,
    /// Whether the client at the same index floats.
    pub floating: Vec<bool>,
    pub focused_idx: Option<usize>,
    pub last_focused_idx: Option<usize>,
}

/// The model of a workspace.
#[verifier::ext_equal]
pub struct WorkspaceView {
    pub id: usize,
    pub layout: LayoutKind,
    pub mfact: u32,
    pub nmaster: usize,
    pub gap_px: i32,
    pub clients: Seq<WindowId>,
    pub floating: Seq<bool>,
    pub focused: Option<usize>,
    pub last_focused: Option<usize>,
}

impl View for Workspace {
    type V = WorkspaceView;

    open spec fn view(&self) -> WorkspaceView {
        WorkspaceView {
            id: self.id,
            layout: self.layout,
            mfact: self.mfact,
            nmaster: self.nmaster,
            gap_px: self.gap_px,
            clients: self.clients@,
            floating: self.floating@,
            focused: self.focused_idx,
            last_focused: self.last_focused_idx,
        }
    }
}

/// The first index at or after `i` that holds the window; the length where
/// there is none.
pub open spec fn first_from(s: Seq<WindowId>, w: WindowId, i: int) -> int
    decreases s.len() - i,
{
    if i >= s.len() {
        s.len() as int
    } else if s[i] == w {
        i
    } else {
        first_from(s, w, i + 1)
    }
}

/// The first index that holds the window.
pub open spec fn first_index(s: Seq<WindowId>, w: WindowId) -> int {
    first_from(s, w, 0)
}

pub proof fn lemma_first_from(s: Seq<WindowId>, w: WindowId, i: int)
    requires
        0 <= i <= s.len(),
    ensures
        i <= first_from(s, w, i) <= s.len(),
        first_from(s, w, i) < s.len() ==> s[first_from(s, w, i)] == w,
        forall|k: int| i <= k < first_from(s, w, i) ==> s[k] != w,
    decreases s.len() - i,
{
    if i < s.len() && s[i] != w {
        lemma_first_from(s, w, i + 1);
    }
}

/// The first index that holds the window.
pub fn position(s: &Vec<WindowId>, w: WindowId) -> (out: Option<usize>)
    ensures
        match out {
            Some(i) => i < s.len() && i == first_index(s@, w) && s@[i as int] == w,
            None => first_index(s@, w) == s@.len() && !s@.contains(w),
        },
{
    let mut i: usize = 0;
    while i < s.len()
        invariant
            i <= s.len(),
            first_index(s@, w) == first_from(s@, w, i as int),
            forall|k: int| 0 <= k < i ==> s@[k] != w,
        decreases s.len() - i,
    {
        if s[i] == w {
            return Some(i);
        }
        i = i + 1;
    }
    None
}

/// Whether the list holds the window.
pub fn holds(s: &Vec<WindowId>, w: WindowId) -> (r: bool)
    ensures
        r == s@.contains(w),
{
    position(s, w).is_some()
}

/// An index into a list after the element at `pos` has left it.
pub open spec fn shifted(i: Option<usize>, pos: int) -> Option<usize> {
    match i {
        Some(k) => if k == pos {
            None
        } else if k > pos {
            Some((k - 1) as usize)
        } else {
            Some(k)
        },
        None => None,
    }
}

impl WorkspaceView {
    /// What holds of every workspace: the flags stand beside the clients, the
    /// indices lie in the list, and some client has the focus unless there is
    /// none.
    pub open spec fn wf(self) -> bool {
        &&& self.floating.len() == self.clients.len()
        &&& self.focused matches Some(i) ==> i < self.clients.len()
        &&& self.last_focused matches Some(i) ==> i < self.clients.len()
        &&& self.focused is None <==> self.clients.len() == 0
        &&& self.mfact <= ratio::ONE
        &&& self.clients.no_duplicates()
    }

    /// The window that has the focus.
    pub open spec fn focused_window(self) -> Option<WindowId> {
        match self.focused {
            Some(i) => if i < self.clients.len() {
                Some(self.clients[i as int])
            } else {
                None
            },
            None => None,
        }
    }

    /// A workspace without windows.
    pub open spec fn empty(id: usize, gap_px: i32, mfact: u32) -> WorkspaceView {
        WorkspaceView {
            id,
            layout: LayoutKind::Tile,
            mfact,
            nmaster: 1,
            gap_px,
            clients: Seq::empty(),
            floating: Seq::empty(),
            focused: None,
            last_focused: None,
        }
    }

    /// The workspace with one more window, which gets the focus.
    pub open spec fn added(self, w: WindowId, floats: bool) -> WorkspaceView {
        WorkspaceView {
            clients: self.clients.push(w),
            floating: self.floating.push(floats),
            focused: Some(self.clients.len() as usize),
            last_focused: if self.focused is Some {
                self.focused
            } else {
                self.last_focused
            },
            ..self
        }
    }

    /// Which index gets the focus when the focused window at `pos` leaves: the
    /// one that had it before, else the neighbour.
    pub open spec fn fallback(self, pos: int) -> Option<usize> {
        if self.last_focused is Some && self.last_focused->0 != pos && self.last_focused->0
            < self.clients.len() {
            shifted(self.last_focused, pos)
        } else if self.clients.len() > 1 {
            Some(
                if pos < self.clients.len() - 1 {
                    pos as usize
                } else {
                    (self.clients.len() - 2) as usize
                },
            )
        } else {
            None
        }
    }

    /// The workspace without the window, where it holds it.
    pub open spec fn removed(self, w: WindowId) -> WorkspaceView {
        let pos = first_index(self.clients, w);
        if pos >= self.clients.len() {
            self
        } else {
            let had_focus = self.focused == Some(pos as usize);
            WorkspaceView {
                clients: self.clients.remove(pos),
                floating: self.floating.remove(pos),
                focused: if had_focus {
                    self.fallback(pos)
                } else {
                    shifted(self.focused, pos)
                },
                last_focused: if had_focus {
                    None
                } else {
                    shifted(self.last_focused, pos)
                },
                ..self
            }
        }
    }

    /// The workspace with the focus at index `i`, the former focus remembered.
    pub open spec fn refocused(self, i: int) -> WorkspaceView {
        WorkspaceView { focused: Some(i as usize), last_focused: self.focused, ..self }
    }

    /// The index that `focus_next` and `focus_prev` start from.
    pub open spec fn cursor(self) -> int {
        match self.focused {
            Some(i) => i as int,
            None => 0,
        }
    }

    /// The workspace with the focus on the next window, around the end.
    pub open spec fn next(self) -> WorkspaceView {
        if self.clients.len() == 0 {
            self
        } else {
            self.refocused(
                if self.cursor() + 1 < self.clients.len() {
                    self.cursor() + 1
                } else {
                    0
                },
            )
        }
    }

    /// The workspace with the focus on the previous window, around the start.
    pub open spec fn prev(self) -> WorkspaceView {
        if self.clients.len() == 0 {
            self
        } else {
            self.refocused(
                if self.cursor() == 0 {
                    self.clients.len() - 1
                } else {
                    self.cursor() - 1
                },
            )
        }
    }

    /// The workspace with the focused window in the master place.
    pub open spec fn zoomed(self) -> WorkspaceView {
        match self.focused {
            Some(i) => if i > 0 && self.clients.len() >= 2 {
                let clients = self.clients.update(0, self.clients[i as int]).update(
                    i as int,
                    self.clients[0],
                );
                let floating = self.floating.update(0, self.floating[i as int]).update(
                    i as int,
                    self.floating[0],
                );
                WorkspaceView { clients, floating, ..self.refocused(0) }
            } else {
                self
            },
            None => self,
        }
    }

    /// The workspace with the other layout.
    pub open spec fn flipped(self) -> WorkspaceView {
        WorkspaceView {
            layout: match self.layout {
                LayoutKind::Tile => LayoutKind::Monocle,
                LayoutKind::Monocle => LayoutKind::Tile,
            },
            ..self
        }
    }

    /// The workspace with the master share one step larger or smaller.
    pub open spec fn split_moved(self, up: bool) -> WorkspaceView {
        WorkspaceView { mfact: ratio::adjusted(self.mfact as nat, up) as u32, ..self }
    }

    /// The workspace with the focused window floating, or tiled again.
    pub open spec fn float_toggled(self) -> WorkspaceView {
        match self.focused {
            Some(i) => if i < self.floating.len() {
                WorkspaceView {
                    floating: self.floating.update(i as int, !self.floating[i as int]),
                    ..self
                }
            } else {
                self
            },
            None => self,
        }
    }
}

/// The indices below `n` whose flag equals `floats`, in order.
pub open spec fn picked(floating: Seq<bool>, floats: bool, n: int) -> Seq<int>
    decreases n,
{
    if n <= 0 {
        Seq::empty()
    } else if floating[n - 1] == floats {
        picked(floating, floats, n - 1).push(n - 1)
    } else {
        picked(floating, floats, n - 1)
    }
}

pub proof fn lemma_picked(floating: Seq<bool>, floats: bool, n: int)
    requires
        0 <= n <= floating.len(),
    ensures
        picked(floating, floats, n).len() <= n,
        forall|k: int|
            0 <= k < picked(floating, floats, n).len() ==> 0 <= #[trigger] picked(
                floating,
                floats,
                n,
            )[k] < n && floating[picked(floating, floats, n)[k]] == floats,
    decreases n,
{
    if n > 0 {
        lemma_picked(floating, floats, n - 1);
    }
}

impl Workspace {
    /// A workspace without windows, in the tiled layout.
    pub fn new(id: usize) -> (ws: Workspace)
        ensures
            ws@ == WorkspaceView::empty(id, 8, ratio::HALF),
            ws@.wf(),
    {
        Workspace {
            id,
            layout: LayoutKind::Tile,
            mfact: ratio::HALF,
            nmaster: 1,
            gap_px: 8,
            clients: Vec::new(),
            floating: Vec::new(),
            focused_idx: None,
            last_focused_idx: None,
        }
    }

    /// The window that has the focus.
    pub fn focused(&self) -> (out: Option<WindowId>)
        ensures
            out == self@.focused_window(),
    {
        match self.focused_idx {
            Some(i) => if i < self.clients.len() {
                Some(self.clients[i])
            } else {
                None
            },
            None => None,
        }
    }

    /// Whether the client at index `i` floats.
    pub fn is_floating(&self, i: usize) -> (r: bool)
        ensures
            r == (i < self@.floating.len() && self@.floating[i as int]),
    {
        i < self.floating.len() && self.floating[i]
    }

    /// The indices of the tiled clients, in order.
    pub fn tiled_indices(&self) -> (out: Vec<usize>)
        ensures
            out@.map_values(|i: usize| i as int) == picked(
                self@.floating,
                false,
                self@.floating.len() as int,
            ),
    {
        let mut out: Vec<usize> = Vec::new();
        let mut i: usize = 0;
        assert(out@.map_values(|k: usize| k as int) =~= picked(self@.floating, false, 0));
        while i < self.floating.len()
            invariant
                i <= self.floating.len(),
                out@.map_values(|k: usize| k as int) == picked(self@.floating, false, i as int),
            decreases self.floating.len() - i,
        {
            if !self.floating[i] {
                let ghost before = out@;
                out.push(i);
                assert(out@.map_values(|k: usize| k as int) =~= before.map_values(
                    |k: usize| k as int,
                ).push(i as int));
            }
            i = i + 1;
        }
        out
    }

    /// Adds a tiled window and gives it the focus.
    pub fn add_client(&mut self, window: WindowId)
        requires
            old(self)@.wf(),
            !old(self)@.clients.contains(window),
        ensures
            final(self)@ == old(self)@.added(window, false),
            final(self)@.wf(),
    {
        self.add_client_floating(window, false);
    }

    /// Adds a window, tiled or floating, and gives it the focus.
    pub fn add_client_floating(&mut self, window: WindowId, floats: bool)
        requires
            old(self)@.wf(),
            !old(self)@.clients.contains(window),
        ensures
            final(self)@ == old(self)@.added(window, floats),
            final(self)@.wf(),
    {
        let idx: usize = self.clients.len();
        self.clients.push(window);
        self.floating.push(floats);
        if self.focused_idx.is_some() {
            self.last_focused_idx = self.focused_idx;
        }
        self.focused_idx = Some(idx);
        assert(self@.clients.no_duplicates());
    }

    /// Removes a window, where the workspace holds it, and returns whether it
    /// had the focus. The focus then goes to the window that had it before,
    /// else to the neighbour.
    pub fn remove_client(&mut self, window: WindowId) -> (had_focus: bool)
        requires
            old(self)@.wf(),
        ensures
            final(self)@ == old(self)@.removed(window),
            final(self)@.wf(),
            !final(self)@.clients.contains(window),
            had_focus == (old(self)@.focused_window() == Some(window)),
    {
        let pos: usize = match position(&self.clients, window) {
            Some(p) => p,
            None => {
                return false;
            },
        };
        proof {
            lemma_first_from(self@.clients, window, 0);
            lemma_removed_wf(self@, window);
        }
        let had_focus: bool = match self.focused_idx {
            Some(i) => i == pos,
            None => false,
        };
        let count: usize = self.clients.len();
        if had_focus {
            let mut next: Option<usize> = None;
            match self.last_focused_idx {
                Some(i) => {
                    if i != pos && i < count {
                        next = Some(
                            if i > pos {
                                i - 1
                            } else {
                                i
                            },
                        );
                    }
                },
                None => {},
            }
            if next.is_none() && count > 1 {
                next = Some(
                    if pos < count - 1 {
                        pos
                    } else {
                        count - 2
                    },
                );
            }
            self.focused_idx = next;
            self.last_focused_idx = None;
        } else {
            self.focused_idx = shift(self.focused_idx, pos);
            self.last_focused_idx = shift(self.last_focused_idx, pos);
        }
        let _ = self.clients.remove(pos);
        let _ = self.floating.remove(pos);
        had_focus
    }

    /// Moves the focus to the next window, around the end.
    pub fn focus_next(&mut self)
        requires
            old(self)@.wf(),
        ensures
            final(self)@ == old(self)@.next(),
            final(self)@.wf(),
    {
        let n: usize = self.clients.len();
        if n == 0 {
            return;
        }
        let cur: usize = match self.focused_idx {
            Some(i) => i,
            None => 0,
        };
        let next: usize = if cur + 1 < n {
            cur + 1
        } else {
            0
        };
        self.last_focused_idx = self.focused_idx;
        self.focused_idx = Some(next);
    }

    /// Moves the focus to the previous window, around the start.
    pub fn focus_prev(&mut self)
        requires
            old(self)@.wf(),
        ensures
            final(self)@ == old(self)@.prev(),
            final(self)@.wf(),
    {
        let n: usize = self.clients.len();
        if n == 0 {
            return;
        }
        let cur: usize = match self.focused_idx {
            Some(i) => i,
            None => 0,
        };
        let prev: usize = if cur == 0 {
            n - 1
        } else {
            cur - 1
        };
        self.last_focused_idx = self.focused_idx;
        self.focused_idx = Some(prev);
    }

    /// Exchanges the focused window with the first and focuses that place.
    pub fn zoom_master(&mut self)
        requires
            old(self)@.wf(),
        ensures
            final(self)@ == old(self)@.zoomed(),
            final(self)@.wf(),
    {
        if self.clients.len() < 2 {
            return;
        }
        let cur: usize = match self.focused_idx {
            Some(i) => i,
            None => 0,
        };
        if cur == 0 {
            return;
        }
        let first: WindowId = self.clients[0];
        let focused: WindowId = self.clients[cur];
        self.clients.set(0, focused);
        self.clients.set(cur, first);
        let first_floats: bool = self.floating[0];
        let focused_floats: bool = self.floating[cur];
        self.floating.set(0, focused_floats);
        self.floating.set(cur, first_floats);
        self.last_focused_idx = self.focused_idx;
        self.focused_idx = Some(0);
    }

    /// Changes between the tiled and the monocle layout.
    pub fn toggle_layout(&mut self)
        ensures
            final(self)@ == old(self)@.flipped(),
            old(self)@.wf() ==> final(self)@.wf(),
    {
        self.layout = match self.layout {
            LayoutKind::Tile => LayoutKind::Monocle,
            LayoutKind::Monocle => LayoutKind::Tile,
        };
    }

    /// Makes the master share one step of 0.05 larger or smaller, within 0.05
    /// and 0.95.
    pub fn adjust_mfact(&mut self, up: bool)
        requires
            old(self)@.wf(),
        ensures
            final(self)@ == old(self)@.split_moved(up),
            final(self)@.wf(),
    {
        self.mfact = ratio::adjust(self.mfact, up);
    }

    /// Lets the focused window float, or tiles it again.
    pub fn toggle_focused_floating(&mut self)
        requires
            old(self)@.wf(),
        ensures
            final(self)@ == old(self)@.float_toggled(),
            final(self)@.wf(),
    {
        match self.focused_idx {
            Some(i) => {
                let floats: bool = self.floating[i];
                self.floating.set(i, !floats);
            },
            None => {},
        }
    }

    /// Whether the workspace has no window.
    pub fn is_empty(&self) -> (r: bool)
        ensures
            r == (self@.clients.len() == 0),
    {
        self.clients.len() == 0
    }
}

fn shift(i: Option<usize>, pos: usize) -> (out: Option<usize>)
    ensures
        out == shifted(i, pos as int),
{
    match i {
        Some(k) => if k == pos {
            None
        } else if k > pos {
            Some(k - 1)
        } else {
            Some(k)
        },
        None => None,
    }
}

/// Removing a window keeps a workspace well formed and leaves no copy of it.
pub proof fn lemma_removed_wf(v: WorkspaceView, w: WindowId)
    requires
        v.wf(),
    ensures
        v.removed(w).wf(),
        !v.removed(w).clients.contains(w),
        forall|u: WindowId|
            #![trigger v.removed(w).clients.contains(u)]
            v.removed(w).clients.contains(u) <==> v.clients.contains(u) && u != w,
        v.clients.contains(w) <==> first_index(v.clients, w) < v.clients.len(),
        v.removed(w).clients.len() <= v.clients.len(),
{
    lemma_first_from(v.clients, w, 0);
    let pos = first_index(v.clients, w);
    let c = v.removed(w).clients;
    if pos < v.clients.len() {
        assert forall|u: WindowId| #[trigger] c.contains(u) implies v.clients.contains(u) && u
            != w by {
            let k = choose|k: int| 0 <= k < c.len() && c[k] == u;
            let j = if k < pos {
                k
            } else {
                k + 1
            };
            assert(v.clients[j] == u);
        }
        assert forall|u: WindowId| v.clients.contains(u) && u != w implies #[trigger] c.contains(
            u,
        ) by {
            let j = choose|j: int| 0 <= j < v.clients.len() && v.clients[j] == u;
            let k = if j < pos {
                j
            } else {
                j - 1
            };
            assert(c[k] == u);
        }
        assert(c.no_duplicates());
    } else {
        assert(!v.clients.contains(w));
    }
}

/// There are at most 65536 windows.
pub proof fn lemma_window_count(s: Seq<WindowId>)
    requires
        s.no_duplicates(),
    ensures
        s.len() <= 0x1_0000,
{
    let t = s.map_values(|w: WindowId| w as int);
    assert(t.no_duplicates());
    t.unique_seq_to_set();
    let all = vstd::set_lib::set_int_range(0, 0x1_0000);
    vstd::set_lib::lemma_int_range(0, 0x1_0000);
    assert(t.to_set().subset_of(all)) by {
        assert forall|x: int| t.to_set().contains(x) implies all.contains(x) by {
            let i = choose|i: int| 0 <= i < t.len() && t[i] == x;
            assert(t[i] == s[i] as int);
        }
    }
    vstd::set_lib::lemma_len_subset(t.to_set(), all);
}

/// Stepping to the next window and back restores the focus.
pub proof fn law_focus_next_prev(v: WorkspaceView)
    requires
        v.wf(),
    ensures
        v.next().prev().focused == v.focused,
        v.prev().next().focused == v.focused,
        v.next().clients == v.clients,
        v.prev().clients == v.clients,
{
    lemma_window_count(v.clients);
}

/// Adding a window and removing it again restores the windows, their flags
/// and the focus.
pub proof fn law_add_remove(v: WorkspaceView, w: WindowId, floats: bool)
    requires
        v.wf(),
        !v.clients.contains(w),
    ensures
        v.added(w, floats).removed(w).clients == v.clients,
        v.added(w, floats).removed(w).floating == v.floating,
        v.added(w, floats).removed(w).focused == v.focused,
{
    let a = v.added(w, floats);
    lemma_first_from(a.clients, w, 0);
    let pos = first_index(a.clients, w);
    assert(a.clients[v.clients.len() as int] == w);
    if pos < v.clients.len() {
        assert(v.clients[pos] == w);
    }
    assert(a.clients.remove(pos) =~= v.clients);
    assert(a.floating.remove(pos) =~= v.floating);
}

/// Changing the layout twice changes nothing.
pub proof fn law_toggle_layout_twice(v: WorkspaceView)
    ensures
        v.flipped().flipped() == v,
{
}

/// Changing twice whether the focused window floats changes nothing.
pub proof fn law_toggle_float_twice(v: WorkspaceView)
    ensures
        v.float_toggled().float_toggled() == v,
{
    assert(v.float_toggled().float_toggled() =~= v);
}

/// Zooming keeps the windows, and the focused window stays focused, in the
/// first place.
pub proof fn law_zoom_keeps_windows(v: WorkspaceView)
    requires
        v.wf(),
    ensures
        v.zoomed().clients.to_multiset() == v.clients.to_multiset(),
        v.zoomed().focused_window() == v.focused_window(),
        v.clients.len() > 0 ==> v.zoomed().focused == Some(0usize),
{
    if v.focused is Some && v.focused->0 > 0 {
        let i = v.focused->0 as int;
        let a = v.clients;
        let m = a.update(0, a[i]);
        let z = m.update(i, a[0]);
        broadcast use vstd::seq_lib::group_to_multiset_ensures;

        assert(a.to_multiset().insert(a[i]).remove(a[0]).insert(a[0]).remove(a[i])
            =~= a.to_multiset());
        vstd::seq_lib::to_multiset_update(a, 0, a[i]);
        vstd::seq_lib::to_multiset_update(m, i, a[0]);
    }
}

/// A window that comes is the last of the list and has the focus; the one that
/// had it before is remembered, and nothing else changes.
pub proof fn law_new_window_gets_focus(v: WorkspaceView, w: WindowId, floats: bool)
    requires
        v.wf(),
        !v.clients.contains(w),
    ensures
        ({
            let a = v.added(w, floats);
            let n = v.clients.len() as int;
            &&& a.focused_window() == Some(w)
            &&& a.clients.len() == n + 1
            &&& a.clients[n] == w
            &&& a.floating[n] == floats
            &&& forall|i: int|
                0 <= i < n ==> #[trigger] a.clients[i] == v.clients[i] && a.floating[i]
                    == v.floating[i]
            &&& n > 0 ==> a.last_focused is Some && a.clients[a.last_focused->0 as int]
                == v.focused_window()->0
            &&& (a.id, a.layout, a.mfact, a.nmaster, a.gap_px) == (
                v.id,
                v.layout,
                v.mfact,
                v.nmaster,
                v.gap_px,
            )
        }),
{
    lemma_window_count(v.clients);
}

/// A window that leaves takes only itself away: the others keep their order and
/// whether they float. One that did not have the focus leaves it where it was.
pub proof fn law_removal_keeps_the_rest(v: WorkspaceView, w: WindowId, p: int)
    requires
        v.wf(),
        0 <= p < v.clients.len(),
        v.clients[p] == w,
    ensures
        ({
            let r = v.removed(w);
            &&& r.clients.len() == v.clients.len() - 1
            &&& forall|i: int|
                0 <= i < p ==> #[trigger] r.clients[i] == v.clients[i] && r.floating[i]
                    == v.floating[i]
            &&& forall|i: int|
                p <= i < r.clients.len() ==> #[trigger] r.clients[i] == v.clients[i + 1]
                    && r.floating[i] == v.floating[i + 1]
            &&& v.focused_window() != Some(w) ==> r.focused_window() == v.focused_window()
            &&& (r.id, r.layout, r.mfact, r.nmaster, r.gap_px) == (
                v.id,
                v.layout,
                v.mfact,
                v.nmaster,
                v.gap_px,
            )
        }),
{
    lemma_first_from(v.clients, w, 0);
    lemma_window_count(v.clients);
    assert(first_index(v.clients, w) == p);
}

/// When the focused window leaves, the focus goes back to the one that had it
/// before; where that is not known, to the window that takes its place in the
/// list, or to the last one. The window before that is forgotten.
pub proof fn law_focus_falls_back(v: WorkspaceView, w: WindowId, p: int)
    requires
        v.wf(),
        0 <= p < v.clients.len(),
        v.clients[p] == w,
        v.focused == Some(p as usize),
    ensures
        ({
            let r = v.removed(w);
            &&& v.last_focused is Some && v.last_focused != v.focused ==> r.focused_window()
                == Some(v.clients[v.last_focused->0 as int])
            &&& v.last_focused is None || v.last_focused == v.focused ==> r.focused_window() == (
            if v.clients.len() == 1 {
                None
            } else if p + 1 < v.clients.len() {
                Some(v.clients[p + 1])
            } else {
                Some(v.clients[p - 1])
            })
            &&& r.last_focused is None
        }),
{
    lemma_first_from(v.clients, w, 0);
    lemma_window_count(v.clients);
    assert(first_index(v.clients, w) == p);
}

/// When a window without the focus leaves, the one that had the focus before is
/// still remembered, unless it is the one that leaves.
pub proof fn law_memory_survives(v: WorkspaceView, w: WindowId, p: int)
    requires
        v.wf(),
        0 <= p < v.clients.len(),
        v.clients[p] == w,
        v.focused != Some(p as usize),
    ensures
        ({
            let r = v.removed(w);
            &&& v.last_focused is None || v.last_focused == Some(p as usize)
                ==> r.last_focused is None
            &&& v.last_focused is Some && v.last_focused != Some(p as usize)
                ==> r.last_focused is Some && r.clients[r.last_focused->0 as int]
                == v.clients[v.last_focused->0 as int]
        }),
{
    lemma_first_from(v.clients, w, 0);
    lemma_window_count(v.clients);
    assert(first_index(v.clients, w) == p);
}

/// A window that is not there cannot leave.
pub proof fn law_nothing_to_remove(v: WorkspaceView, w: WindowId)
    requires
        !v.clients.contains(w),
    ensures
        v.removed(w) == v,
{
    lemma_first_from(v.clients, w, 0);
}

/// The focus goes on by one place in the list, around its ends, and where it
/// was is remembered; nothing else changes.
pub proof fn law_focus_goes_round(v: WorkspaceView, i: int)
    requires
        v.wf(),
        0 <= i < v.clients.len(),
        v.focused == Some(i as usize),
    ensures
        ({
            let n = v.clients.len() as int;
            &&& v.next() == (WorkspaceView {
                focused: Some(((i + 1) % n) as usize),
                last_focused: Some(i as usize),
                ..v
            })
            &&& v.prev() == (WorkspaceView {
                focused: Some(((i + n - 1) % n) as usize),
                last_focused: Some(i as usize),
                ..v
            })
        }),
{
    lemma_window_count(v.clients);
    let n = v.clients.len() as int;
    if i + 1 < n {
        vstd::arithmetic::div_mod::lemma_small_mod((i + 1) as nat, n as nat);
    } else {
        vstd::arithmetic::div_mod::lemma_mod_self_0(n);
    }
    if i > 0 {
        vstd::arithmetic::div_mod::lemma_mod_add_multiples_vanish(i - 1, n);
        vstd::arithmetic::div_mod::lemma_small_mod((i - 1) as nat, n as nat);
    } else {
        vstd::arithmetic::div_mod::lemma_small_mod((n - 1) as nat, n as nat);
    }
}

/// Zooming exchanges the focused window with the first one: every other window
/// stays in its place, and every window floats as it did.
pub proof fn law_zoom_exchanges_two(v: WorkspaceView, i: int)
    requires
        v.wf(),
        0 <= i < v.clients.len(),
        v.focused == Some(i as usize),
    ensures
        ({
            let z = v.zoomed();
            &&& z.clients.len() == v.clients.len()
            &&& z.floating.len() == v.floating.len()
            &&& z.clients[0] == v.clients[i] && z.floating[0] == v.floating[i]
            &&& z.clients[i] == v.clients[0] && z.floating[i] == v.floating[0]
            &&& forall|k: int|
                0 < k < v.clients.len() && k != i ==> #[trigger] z.clients[k] == v.clients[k]
                    && z.floating[k] == v.floating[k]
            &&& i > 0 ==> z.last_focused == Some(i as usize)
            &&& (z.id, z.layout, z.mfact, z.nmaster, z.gap_px) == (
                v.id,
                v.layout,
                v.mfact,
                v.nmaster,
                v.gap_px,
            )
        }),
{
    lemma_window_count(v.clients);
}

/// Letting the focused window float, or tiling it again, changes just that.
pub proof fn law_float_changes_one(v: WorkspaceView, i: int)
    requires
        v.wf(),
        0 <= i < v.clients.len(),
        v.focused == Some(i as usize),
    ensures
        v.float_toggled().floating.len() == v.floating.len(),
        v.float_toggled().floating[i] == !v.floating[i],
        forall|k: int|
            0 <= k < v.floating.len() && k != i ==> #[trigger] v.float_toggled().floating[k]
                == v.floating[k],
        v.float_toggled() == (WorkspaceView { floating: v.float_toggled().floating, ..v }),
{
    lemma_window_count(v.clients);
}

/// Changing the layout gives the other one and changes nothing else.
pub proof fn law_layout_changes(v: WorkspaceView)
    ensures
        v.flipped().layout != v.layout,
        v.flipped() == (WorkspaceView { layout: v.flipped().layout, ..v }),
{
}

/// Moving the split changes just the share of the master column: by a twentieth
/// of the whole, but for the last bits of single precision, and never below 0.05
/// nor above 0.95.
pub proof fn law_split_moves_by_a_twentieth(v: WorkspaceView, up: bool)
    requires
        v.wf(),
    ensures
        ({
            let m = v.split_moved(up).mfact as int;
            let to = if up {
                20 * v.mfact + 0x1000_0000
            } else {
                20 * v.mfact - 0x1000_0000
            };
            &&& v.split_moved(up) == (WorkspaceView { mfact: m as u32, ..v })
            &&& 0x1000_0000 <= 20 * m + 20
            &&& 20 * m <= 19 * 0x1000_0000 + 400
            &&& 0x1000_0000 + 400 <= to <= 19 * 0x1000_0000 - 400 ==> -400 <= 20 * m - to <= 400
            &&& to < 0x1000_0000 - 400 ==> 20 * m <= 0x1000_0000 + 400
            &&& to > 19 * 0x1000_0000 + 400 ==> 20 * m >= 19 * 0x1000_0000 - 400
        }),
{
    ratio::lemma_adjusted(v.mfact as nat, up);
}

} // verus!
