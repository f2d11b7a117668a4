//! Getting ready: putting the outputs in order and choosing the first state.

use vstd::prelude::*;

use crate::gate::config::MonitorConfig;
use crate::gate::outputs;
use crate::gate::outputs::find_named;
use crate::gate::stage::StageView;
use crate::gate::state;
use crate::gate::state::{Gate, GateView, OutputState, OutputView};
use crate::gate::workspace::{WindowId, Workspace, WORKSPACE_COUNT};

verus! {

/// Whether output `a` stands before output `b`: further to the left, or as far
/// and higher up, or in the same place and with the lower index.
pub open spec fn stands_before(os: Seq<OutputView>, a: int, b: int) -> bool {
    ||| os[a].x < os[b].x
    ||| os[a].x == os[b].x && os[a].y < os[b].y
    ||| os[a].x == os[b].x && os[a].y == os[b].y && a < b
}

/// Whether `ranks` lists all outputs by where they stand.
pub open spec fn ranked(os: Seq<OutputView>, ranks: Seq<usize>) -> bool {
    &&& ranks.len() == os.len()
    &&& forall|i: int| 0 <= i < ranks.len() ==> #[trigger] ranks[i] < os.len()
    &&& forall|i: int, j: int|
        0 <= i < j < ranks.len() ==> stands_before(
            os,
            #[trigger] ranks[i] as int,
            #[trigger] ranks[j] as int,
        )
}

impl GateView {
    /// The state with the outputs, and their workspaces with them, in another
    /// order.
    pub open spec fn reordered(self, ranks: Seq<usize>) -> GateView {
        (GateView {
            outputs: Seq::new(ranks.len(), |i: int| self.outputs[ranks[i] as int]),
            workspaces: Seq::new(ranks.len(), |i: int| self.workspaces[ranks[i] as int]),
            ..self
        }).bounded()
    }

    /// The first output at the left edge, at or after `o`.
    pub open spec fn leftmost_from(self, o: int) -> int
        decreases self.outputs.len() - o,
    {
        if o >= self.outputs.len() {
            self.outputs.len() as int
        } else if self.outputs[o].x == 0 {
            o
        } else {
            self.leftmost_from(o + 1)
        }
    }

    /// The output that has the focus at first: the one that the settings mark
    /// as primary, else the first at the left edge, else the first.
    pub open spec fn primary_output(self) -> int {
        let m = primary_from(self.config.monitors@, 0);
        let named = if m < self.config.monitors@.len() {
            outputs::name_from(self.names(), self.config.monitors@[m].name@, 0)
        } else {
            self.outputs.len() as int
        };
        if named < self.outputs.len() {
            named
        } else if self.leftmost_from(0) < self.outputs.len() {
            self.leftmost_from(0)
        } else {
            0
        }
    }

    /// The state in which the session starts: every output shows a workspace
    /// of its own number.
    pub open spec fn started(self) -> GateView {
        GateView {
            focused_output: self.primary_output() as usize,
            outputs: Seq::new(
                self.outputs.len(),
                |o: int|
                    OutputView {
                        current_ws: (o % (WORKSPACE_COUNT as int)) as usize,
                        ..self.outputs[o]
                    },
            ),
            ..self
        }
    }

    /// The state after the lock has been waited for: where it has not come
    /// within five seconds, it is waited for no longer.
    pub open spec fn lock_awaited(self) -> GateView {
        match self.lock_pending_since {
            Some(t) => if !self.locked && self.now_ns - t > 5_000_000_000 {
                GateView {
                    lock_pending_since: None,
                    stage: StageView { layout_dirty: true, bar_dirty: true, ..self.stage },
                    ..self
                }
            } else {
                self
            },
            None => self,
        }
    }
}

/// The first monitor at or after `i` that is marked as primary and not
/// switched off; the number of monitors where there is none.
pub open spec fn primary_from(ms: Seq<MonitorConfig>, i: int) -> int
    decreases ms.len() - i,
{
    if i >= ms.len() {
        ms.len() as int
    } else if ms[i].primary && ms[i].enabled {
        i
    } else {
        primary_from(ms, i + 1)
    }
}

/// The models of the outputs.
pub open spec fn output_views(os: Seq<OutputState>) -> Seq<OutputView> {
    os.map_values(|o: OutputState| o@)
}

fn comes_before(a: &OutputState, b: &OutputState) -> (r: bool)
    ensures
        r == (a.x < b.x || a.x == b.x && a.y < b.y),
{
    a.x < b.x || a.x == b.x && a.y < b.y
}

fn first_place(rest: &Vec<OutputState>, Ghost(os): Ghost<Seq<OutputView>>, ids: &Vec<usize>) -> (m:
    usize)
    requires
        rest.len() > 0,
        rest.len() == ids.len(),
        forall|i: int| 0 <= i < ids@.len() ==> #[trigger] ids@[i] < os.len(),
        forall|i: int|
            0 <= i < ids@.len() ==> (#[trigger] rest@[i])@ == os[ids@[i] as int],
        forall|i: int, j: int| 0 <= i < j < ids@.len() ==> #[trigger] ids@[i] < #[trigger] ids@[j],
    ensures
        m < rest.len(),
        forall|j: int|
            0 <= j < ids@.len() && j != m ==> stands_before(
                os,
                ids@[m as int] as int,
                #[trigger] ids@[j] as int,
            ),
{
    let mut m: usize = 0;
    let mut i: usize = 1;
    while i < rest.len()
        invariant
            rest.len() == ids.len(),
            m < i <= rest.len(),
            forall|i: int| 0 <= i < ids@.len() ==> #[trigger] ids@[i] < os.len(),
            forall|i: int| 0 <= i < ids@.len() ==> (#[trigger] rest@[i])@ == os[ids@[i] as int],
            forall|i: int, j: int|
                0 <= i < j < ids@.len() ==> #[trigger] ids@[i] < #[trigger] ids@[j],
            forall|j: int|
                0 <= j < i && j != m ==> stands_before(
                    os,
                    ids@[m as int] as int,
                    #[trigger] ids@[j] as int,
                ),
        decreases rest.len() - i,
    {
        assert(rest@[i as int]@ == os[ids@[i as int] as int]);
        assert(rest@[m as int]@ == os[ids@[m as int] as int]);
        assert(ids@[m as int] < ids@[i as int]);
        if comes_before(&rest[i], &rest[m]) {
            m = i;
        }
        i = i + 1;
    }
    m
}

fn sort_pools(outputs: Vec<OutputState>, pools: Vec<Vec<Workspace>>) -> (out: (
    Vec<OutputState>,
    Vec<Vec<Workspace>>,
    Vec<usize>,
))
    requires
        outputs.len() == pools.len(),
    ensures
        ranked(output_views(outputs@), out.2@),
        out.0@.len() == outputs@.len(),
        out.1@.len() == outputs@.len(),
        forall|i: int|
            0 <= i < out.2@.len() ==> (#[trigger] out.0@[i])@ == outputs@[out.2@[i] as int]@,
        forall|i: int| 0 <= i < out.2@.len() ==> #[trigger] out.1@[i] == pools@[out.2@[i] as int],
{
    let ghost os = output_views(outputs@);
    let ghost all = outputs@;
    let ghost every = pools@;
    let mut rest: Vec<OutputState> = outputs;
    let mut rest_pools: Vec<Vec<Workspace>> = pools;
    let mut ids: Vec<usize> = Vec::new();
    let mut i: usize = 0;
    while i < rest.len()
        invariant
            i <= rest.len(),
            ids@.len() == i,
            forall|k: int| 0 <= k < i ==> #[trigger] ids@[k] == k,
        decreases rest.len() - i,
    {
        ids.push(i);
        i = i + 1;
    }
    let mut sorted: Vec<OutputState> = Vec::new();
    let mut sorted_pools: Vec<Vec<Workspace>> = Vec::new();
    let mut ranks: Vec<usize> = Vec::new();
    while rest.len() > 0
        invariant
            os == output_views(all),
            all.len() == every.len(),
            rest@.len() == ids@.len(),
            rest_pools@.len() == ids@.len(),
            ranks@.len() + ids@.len() == all.len(),
            sorted@.len() == ranks@.len(),
            sorted_pools@.len() == ranks@.len(),
            forall|i: int| 0 <= i < ids@.len() ==> #[trigger] ids@[i] < os.len(),
            forall|i: int|
                0 <= i < ids@.len() ==> (#[trigger] rest@[i])@ == all[ids@[i] as int]@,
            forall|i: int|
                0 <= i < ids@.len() ==> #[trigger] rest_pools@[i] == every[ids@[i] as int],
            forall|i: int, j: int|
                0 <= i < j < ids@.len() ==> #[trigger] ids@[i] < #[trigger] ids@[j],
            forall|i: int| 0 <= i < ranks@.len() ==> #[trigger] ranks@[i] < os.len(),
            forall|i: int|
                0 <= i < ranks@.len() ==> (#[trigger] sorted@[i])@ == all[ranks@[i] as int]@,
            forall|i: int|
                0 <= i < ranks@.len() ==> #[trigger] sorted_pools@[i] == every[ranks@[i] as int],
            forall|i: int, j: int|
                0 <= i < j < ranks@.len() ==> stands_before(
                    os,
                    #[trigger] ranks@[i] as int,
                    #[trigger] ranks@[j] as int,
                ),
            forall|i: int, j: int|
                0 <= i < ranks@.len() && 0 <= j < ids@.len() ==> stands_before(
                    os,
                    #[trigger] ranks@[i] as int,
                    #[trigger] ids@[j] as int,
                ),
        decreases rest.len(),
    {
        let m: usize = first_place(&rest, Ghost(os), &ids);
        let ghost ids0 = ids@;
        let o: OutputState = rest.remove(m);
        let pool: Vec<Workspace> = rest_pools.remove(m);
        let id: usize = ids.remove(m);
        assert(forall|j: int|
            0 <= j < ids@.len() ==> #[trigger] ids@[j] == ids0[if j < m { j } else { j + 1 }]);
        sorted.push(o);
        sorted_pools.push(pool);
        ranks.push(id);
    }
    (sorted, sorted_pools, ranks)
}

proof fn lemma_reordered(g: GateView, h: GateView, ranks: Seq<usize>)
    requires
        g.wf(),
        ranked(g.outputs, ranks),
        h == (GateView {
            outputs: Seq::new(ranks.len(), |i: int| g.outputs[ranks[i] as int]),
            workspaces: Seq::new(ranks.len(), |i: int| g.workspaces[ranks[i] as int]),
            ..g
        }),
    ensures
        h.wf(),
{
    reveal(GateView::owned_once);
    assert forall|o: int| 0 <= o < h.workspaces.len() implies (#[trigger] h.workspaces[o]).len()
        == WORKSPACE_COUNT by {
        assert(g.workspaces[ranks[o] as int].len() == WORKSPACE_COUNT);
    }
    assert forall|o: int, k: int|
        0 <= o < h.workspaces.len() && 0 <= k < WORKSPACE_COUNT implies state::ws_ok(
        #[trigger] h.workspaces[o][k],
    ) by {
        assert(state::ws_ok(g.workspaces[ranks[o] as int][k]));
    }
    assert forall|o: int| 0 <= o < h.outputs.len() implies state::output_ok(
        #[trigger] h.outputs[o],
    ) by {
        assert(state::output_ok(g.outputs[ranks[o] as int]));
    }
    assert forall|s: int| 0 <= s < h.scratchpads.len() implies state::ws_ok(
        (#[trigger] h.scratchpads[s]).workspace,
    ) by {
        assert(state::ws_ok(g.scratchpads[s].workspace));
    }
    assert forall|o: int, k: int, w: WindowId| #[trigger] h.in_ws(o, k, w) implies g.in_ws(
        ranks[o] as int,
        k,
        w,
    ) by {}
    assert forall|s: int, w: WindowId| #[trigger] h.in_sp(s, w) implies g.in_sp(s, w) by {}
    assert forall|o1: int, k1: int, o2: int, k2: int, w: WindowId|
        #![trigger h.in_ws(o1, k1, w), h.in_ws(o2, k2, w)]
        h.in_ws(o1, k1, w) && h.in_ws(o2, k2, w) implies o1 == o2 && k1 == k2 by {
        assert(g.in_ws(ranks[o1] as int, k1, w) && g.in_ws(ranks[o2] as int, k2, w));
        assert(ranks[o1] == ranks[o2]);
    }
    assert forall|o: int, k: int, s: int, w: WindowId|
        #![trigger h.in_ws(o, k, w), h.in_sp(s, w)]
        !(h.in_ws(o, k, w) && h.in_sp(s, w)) by {
        if h.in_ws(o, k, w) && h.in_sp(s, w) {
            assert(g.in_ws(ranks[o] as int, k, w) && g.in_sp(s, w));
        }
    }
    assert forall|o: int, k: int, w: WindowId|
        #![trigger h.in_ws(o, k, w)]
        h.in_ws(o, k, w) implies !h.outside(w) by {
        assert(g.in_ws(ranks[o] as int, k, w));
    }
}

impl Gate {
    /// Puts the outputs in the order in which they stand, their workspaces
    /// with them. Returns the old index of every output.
    pub fn sort_outputs(&mut self) -> (ranks: Vec<usize>)
        requires
            old(self)@.wf(),
        ensures
            ranked(old(self)@.outputs, ranks@),
            final(self)@ == old(self)@.reordered(ranks@),
            final(self)@.wf(),
    {
        let ghost g = self@;
        let mut outputs: Vec<OutputState> = Vec::new();
        let mut pools: Vec<Vec<Workspace>> = Vec::new();
        std::mem::swap(&mut outputs, &mut self.outputs);
        std::mem::swap(&mut pools, &mut self.workspaces);
        assert(output_views(outputs@) =~= g.outputs);
        assert(state::pools_view(pools@) =~= g.workspaces);
        assert(pools@.len() == g.workspaces.len());
        let (sorted, sorted_pools, ranks): (Vec<OutputState>, Vec<Vec<Workspace>>, Vec<usize>) =
            sort_pools(outputs, pools);
        self.outputs = sorted;
        self.workspaces = sorted_pools;
        proof {
            let h = GateView {
                outputs: Seq::new(ranks@.len(), |i: int| g.outputs[ranks@[i] as int]),
                workspaces: Seq::new(ranks@.len(), |i: int| g.workspaces[ranks@[i] as int]),
                ..g
            };
            assert forall|i: int| 0 <= i < ranks@.len() implies #[trigger] self@.workspaces[i]
                == g.workspaces[ranks@[i] as int] by {
                assert(self.workspaces@[i] == pools@[ranks@[i] as int]);
            }
            assert(self@.outputs =~= h.outputs);
            assert(self@.workspaces =~= h.workspaces);
            assert(self@ =~= h);
            lemma_reordered(g, self@, ranks@);
        }
        self.refresh_output_geometry();
        ranks
    }

    /// The output that has the focus at first.
    pub fn find_primary_output(&self) -> (o: usize)
        ensures
            o == self@.primary_output(),
            self@.outputs.len() > 0 ==> o < self@.outputs.len(),
    {
        assert(outputs::names_of(self.outputs@) =~= self@.names());
        let monitors: &Vec<MonitorConfig> = &self.config.monitors;
        let mut i: usize = 0;
        while i < monitors.len() && !(monitors[i].primary && monitors[i].enabled)
            invariant
                i <= monitors.len(),
                primary_from(monitors@, 0) == primary_from(monitors@, i as int),
            decreases monitors.len() - i,
        {
            i = i + 1;
        }
        if i < monitors.len() {
            match find_named(&self.outputs, monitors[i].name.as_str()) {
                Some(o) => {
                    return o;
                },
                None => {},
            }
        }
        let ghost left = self@.leftmost_from(0);
        assert(self@.primary_output() == (if left < self@.outputs.len() {
            left
        } else {
            0
        }));
        let mut o: usize = 0;
        while o < self.outputs.len()
            invariant
                o <= self.outputs.len(),
                left == self@.leftmost_from(o as int),
                self@.primary_output() == (if left < self@.outputs.len() {
                    left
                } else {
                    0
                }),
            decreases self.outputs.len() - o,
        {
            assert(self@.outputs[o as int] == self.outputs@[o as int]@);
            if self.outputs[o].x == 0 {
                return o;
            }
            o = o + 1;
        }
        0
    }

    fn show_numbers(&mut self)
        requires
            old(self)@.wf(),
        ensures
            final(self)@ == (GateView { outputs: old(self)@.started().outputs, ..old(self)@ }),
            final(self)@.wf(),
    {
        let ghost g = self@;
        let mut o: usize = 0;
        while o < self.outputs.len()
            invariant
                o <= self.outputs.len(),
                self.outputs@.len() == g.outputs.len(),
                self@ == (GateView { outputs: self@.outputs, ..g }),
                forall|i: int|
                    0 <= i < o ==> #[trigger] self@.outputs[i] == g.started().outputs[i],
                forall|i: int|
                    o <= i < self@.outputs.len() ==> #[trigger] self@.outputs[i] == g.outputs[i],
            decreases self.outputs.len() - o,
        {
            let ghost before = self@;
            self.outputs[o].current_ws = o % WORKSPACE_COUNT;
            proof {
                assert(before.outputs[o as int] == g.outputs[o as int]);
                assert(self@.outputs[o as int] == self.outputs@[o as int]@);
                assert(self@.outputs[o as int] =~= g.started().outputs[o as int]);
                assert forall|i: int| 0 <= i < before.outputs.len() && i != o implies
                    self@.outputs[i] == before.outputs[i] by {
                    assert(self@.outputs[i] == self.outputs@[i]@);
                }
                assert(self@.outputs =~= before.outputs.update(
                    o as int,
                    g.started().outputs[o as int],
                ));
                assert(self.outputs@.len() == self@.outputs.len());
                assert(self@ =~= (GateView { outputs: self@.outputs, ..g }));
            }
            o = o + 1;
        }
        proof {
            assert(self@.outputs =~= g.started().outputs);
            assert forall|o: int| 0 <= o < self@.outputs.len() implies state::output_ok(
                #[trigger] self@.outputs[o],
            ) by {
                assert(state::output_ok(g.outputs[o]));
            }
            state::lemma_same_places(g, self@);
        }
    }

    /// Chooses the state in which the session starts.
    pub fn begin(&mut self)
        requires
            old(self)@.wf(),
        ensures
            final(self)@ == old(self)@.started(),
            final(self)@.wf(),
    {
        let primary: usize = self.find_primary_output();
        self.show_numbers();
        self.focused_output = primary;
        proof {
            state::lemma_same_places(old(self)@, self@);
        }
    }

    /// The middle of the focused output, in half pixels: where the pointer is
    /// at first.
    pub fn pointer_start(&self) -> (p: Option<(i64, i64)>)
        requires
            self@.wf(),
        ensures
            p == (if self@.focused_output < self@.outputs.len() {
                let o = self@.outputs[self@.focused_output as int];
                Some(((2 * o.x + o.size.w) as i64, (2 * o.y + o.size.h) as i64))
            } else {
                None
            }),
    {
        if self.focused_output < self.outputs.len() {
            assert(self@.outputs[self.focused_output as int]
                == self.outputs@[self.focused_output as int]@);
            assert(state::output_ok(self@.outputs[self.focused_output as int]));
            let o: &OutputState = &self.outputs[self.focused_output];
            Some((2 * o.x as i64 + o.size.w as i64, 2 * o.y as i64 + o.size.h as i64))
        } else {
            None
        }
    }

    /// Gives up waiting for the lock where it has not come.
    pub fn check_lock(&mut self)
        requires
            old(self)@.wf(),
        ensures
            final(self)@ == old(self)@.lock_awaited(),
            final(self)@.wf(),
    {
        match self.lock_pending_since {
            Some(t) => {
                if !self.session_locked && self.now_ns > t && self.now_ns - t > 5_000_000_000 {
                    self.lock_pending_since = None;
                    self.stage.bar_dirty = true;
                    self.stage.layout_dirty = true;
                }
            },
            None => {},
        }
        proof {
            state::lemma_same_places(old(self)@, self@);
        }
    }

    /// The lock has taken over the screen.
    pub fn lock_acquired(&mut self)
        requires
            old(self)@.wf(),
        ensures
            final(self)@ == (GateView {
                locked: true,
                lock_pending_since: None,
                ..old(self)@
            }),
            final(self)@.wf(),
    {
        self.session_locked = true;
        self.lock_pending_since = None;
        proof {
            state::lemma_same_places(old(self)@, self@);
        }
    }

    /// The lock has given the screen back.
    pub fn lock_released(&mut self)
        requires
            old(self)@.wf(),
        ensures
            final(self)@ == (GateView {
                locked: false,
                stage: StageView { layout_dirty: true, bar_dirty: true, ..old(self)@.stage },
                ..old(self)@
            }),
            final(self)@.wf(),
    {
        self.session_locked = false;
        self.stage.bar_dirty = true;
        self.stage.layout_dirty = true;
        proof {
            state::lemma_same_places(old(self)@, self@);
        }
    }
}

/// At the start no two of up to nine outputs show the same workspace number.
pub proof fn law_own_workspace_at_start(g: GateView, a: int, b: int)
    requires
        g.outputs.len() <= WORKSPACE_COUNT,
        0 <= a < b < g.outputs.len(),
    ensures
        g.started().outputs[a].current_ws != g.started().outputs[b].current_ws,
{
}

/// Putting the outputs in the order in which they stand leaves them there: a
/// second time changes nothing.
pub proof fn law_sorting_twice(g: GateView, ranks: Seq<usize>, again: Seq<usize>)
    requires
        g.wf(),
        ranked(g.outputs, ranks),
        ranked(g.reordered(ranks).outputs, again),
    ensures
        g.reordered(ranks).reordered(again) == g.reordered(ranks),
{
    let h = g.reordered(ranks);
    assert forall|a: int, b: int| 0 <= a < b < h.outputs.len() implies #[trigger] stands_before(
        h.outputs,
        a,
        b,
    ) by {
        assert(stands_before(g.outputs, ranks[a] as int, ranks[b] as int));
    }
    assert forall|i: int| 0 <= i < again.len() implies again[i] == i by {
        lemma_identity(h.outputs, again, i);
    }
    assert(h.reordered(again).outputs =~= h.outputs);
    assert(h.reordered(again).workspaces =~= h.workspaces);
    assert(h.reordered(again) =~= h);
}

proof fn lemma_identity(os: Seq<OutputView>, again: Seq<usize>, i: int)
    requires
        ranked(os, again),
        forall|a: int, b: int| 0 <= a < b < os.len() ==> #[trigger] stands_before(os, a, b),
        0 <= i < again.len(),
    ensures
        again[i] == i,
{
    assert forall|a: int, b: int| 0 <= a < b < again.len() implies #[trigger] again[a]
        < #[trigger] again[b] by {
        let x = again[a] as int;
        let y = again[b] as int;
        assert(stands_before(os, x, y));
        if y < x {
            assert(stands_before(os, y, x));
        }
    }
    lemma_rising(again, i);
    lemma_falling(again, i);
}

proof fn lemma_rising(s: Seq<usize>, i: int)
    requires
        forall|a: int, b: int| 0 <= a < b < s.len() ==> #[trigger] s[a] < #[trigger] s[b],
        0 <= i < s.len(),
    ensures
        s[i] >= i,
    decreases i,
{
    if i > 0 {
        lemma_rising(s, i - 1);
        assert(s[i - 1] < s[i]);
    }
}

proof fn lemma_falling(s: Seq<usize>, i: int)
    requires
        forall|a: int, b: int| 0 <= a < b < s.len() ==> #[trigger] s[a] < #[trigger] s[b],
        forall|a: int| 0 <= a < s.len() ==> #[trigger] s[a] < s.len(),
        0 <= i < s.len(),
    ensures
        s[i] <= i,
    decreases s.len() - i,
{
    if i < s.len() - 1 {
        lemma_falling(s, i + 1);
        assert(s[i] < s[i + 1]);
    } else {
        assert(s[i] < s.len());
    }
}

/// The focus goes at first to the output that the settings mark as primary; a
/// monitor that they switch off does not count.
pub proof fn law_primary_output_has_the_focus(g: GateView, m: int, o: int)
    requires
        0 <= m < g.config.monitors@.len(),
        g.config.monitors@[m].primary && g.config.monitors@[m].enabled,
        forall|i: int|
            0 <= i < m ==> !((#[trigger] g.config.monitors@[i]).primary
                && g.config.monitors@[i].enabled),
        0 <= o < g.outputs.len() <= usize::MAX,
        g.outputs[o].name == g.config.monitors@[m].name@,
        forall|p: int|
            0 <= p < o ==> (#[trigger] g.outputs[p]).name != g.config.monitors@[m].name@,
    ensures
        g.started().focused_output == o,
{
    lemma_first_primary(g.config.monitors@, 0, m);
    lemma_first_name(g, g.config.monitors@[m].name@, 0, o);
}

proof fn lemma_first_primary(ms: Seq<MonitorConfig>, i: int, m: int)
    requires
        0 <= i <= m < ms.len(),
        ms[m].primary && ms[m].enabled,
        forall|k: int| i <= k < m ==> !((#[trigger] ms[k]).primary && ms[k].enabled),
    ensures
        primary_from(ms, i) == m,
    decreases m - i,
{
    if i < m {
        lemma_first_primary(ms, i + 1, m);
    }
}

proof fn lemma_first_name(g: GateView, name: Seq<char>, i: int, o: int)
    requires
        0 <= i <= o < g.outputs.len(),
        g.outputs[o].name == name,
        forall|p: int| i <= p < o ==> (#[trigger] g.outputs[p]).name != name,
    ensures
        outputs::name_from(g.names(), name, i) == o,
    decreases o - i,
{
    assert(g.names()[i] == g.outputs[i].name);
    if i < o {
        lemma_first_name(g, name, i + 1, o);
    }
}

/// Without a primary monitor the focus goes at first to the first output at the
/// left edge of the desk.
pub proof fn law_left_output_has_the_focus(g: GateView, o: int)
    requires
        forall|i: int|
            0 <= i < g.config.monitors@.len() ==> !((#[trigger] g.config.monitors@[i]).primary
                && g.config.monitors@[i].enabled),
        0 <= o < g.outputs.len() <= usize::MAX,
        g.outputs[o].x == 0,
        forall|p: int| 0 <= p < o ==> (#[trigger] g.outputs[p]).x != 0,
    ensures
        g.started().focused_output == o,
{
    lemma_no_primary(g.config.monitors@, 0);
    lemma_first_left(g, 0, o);
}

proof fn lemma_no_primary(ms: Seq<MonitorConfig>, i: int)
    requires
        0 <= i <= ms.len(),
        forall|k: int| 0 <= k < ms.len() ==> !((#[trigger] ms[k]).primary && ms[k].enabled),
    ensures
        primary_from(ms, i) == ms.len(),
    decreases ms.len() - i,
{
    if i < ms.len() {
        lemma_no_primary(ms, i + 1);
    }
}

proof fn lemma_first_left(g: GateView, i: int, o: int)
    requires
        0 <= i <= o < g.outputs.len(),
        g.outputs[o].x == 0,
        forall|p: int| i <= p < o ==> (#[trigger] g.outputs[p]).x != 0,
    ensures
        g.leftmost_from(i) == o,
    decreases o - i,
{
    if i < o {
        lemma_first_left(g, i + 1, o);
    }
}

/// Sorting puts the outputs from the left to the right, and from above where
/// they start at the same column; every output keeps its workspaces.
pub proof fn law_outputs_stand_in_order(g: GateView, ranks: Seq<usize>, a: int, b: int)
    requires
        ranked(g.outputs, ranks),
        0 <= a < b < ranks.len(),
    ensures
        ({
            let h = g.reordered(ranks);
            &&& h.outputs.len() == g.outputs.len()
            &&& h.outputs[a].x < h.outputs[b].x || (h.outputs[a].x == h.outputs[b].x
                && h.outputs[a].y <= h.outputs[b].y)
            &&& h.outputs[a] == g.outputs[ranks[a] as int]
            &&& h.workspaces[a] == g.workspaces[ranks[a] as int]
        }),
{
    assert(stands_before(g.outputs, ranks[a] as int, ranks[b] as int));
}

/// A lock that has not come five seconds after it was asked for is waited for no
/// longer, and the desktop is drawn again; before that nothing changes.
pub proof fn law_lock_is_waited_for(g: GateView, since: u64)
    requires
        !g.locked,
        g.lock_pending_since == Some(since),
    ensures
        ({
            let h = g.lock_awaited();
            let late = g.now_ns > since + 5_000_000_000;
            &&& late ==> h.lock_pending_since is None && h.stage.layout_dirty && h.stage.bar_dirty
            &&& !late ==> h == g
            &&& h.workspaces == g.workspaces && h.outputs == g.outputs && !h.locked
        }),
{
}

} // verus!
