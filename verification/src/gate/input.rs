//! Keys and the pointer.

use vstd::prelude::*;

use crate::gate::actions;
use crate::gate::actions::{Action, Keybind};
use crate::gate::config::{BindAction, BindConfig, ModMask};
use crate::gate::stage::StageView;
use crate::gate::state;
use crate::gate::state::{Gate, GateView, OutputState, OutputView};
use crate::text;

verus! {

impl ModMask {
    /// Whether exactly these modifiers are held.
    pub fn matches(&self, mods: &ModMask) -> (r: bool)
        ensures
            r == (*self == *mods),
    {
        self.logo == mods.logo && self.shift == mods.shift && self.ctrl == mods.ctrl && self.alt
            == mods.alt
    }
}

/// The action that a binding in the settings stands for.
pub open spec fn action_of(b: BindAction) -> Action {
    match b {
        BindAction::Spawn(name) => Action::Spawn(name),
        BindAction::Exec(cmd) => Action::SpawnRaw(cmd),
        BindAction::Scratchpad(name) => Action::ToggleScratchpad(name),
        BindAction::FocusNext => Action::FocusNext,
        BindAction::FocusPrev => Action::FocusPrev,
        BindAction::FocusMonitorPrev => Action::FocusMonitorPrev,
        BindAction::FocusMonitorNext => Action::FocusMonitorNext,
        BindAction::SendMonitorPrev => Action::SendMonitorPrev,
        BindAction::SendMonitorNext => Action::SendMonitorNext,
        BindAction::DecreaseMfact => Action::DecreaseMfact,
        BindAction::IncreaseMfact => Action::IncreaseMfact,
        BindAction::ZoomMaster => Action::ZoomMaster,
        BindAction::Monocle => Action::ToggleMonocle,
        BindAction::Fullscreen => Action::ToggleFullscreen,
        BindAction::ToggleFloat => Action::ToggleFloat,
        BindAction::ToggleSync => Action::ToggleSync,
        BindAction::KillClient => Action::KillClient,
        BindAction::Reload => Action::Reload,
        BindAction::Quit => Action::Quit,
        BindAction::ShowKeybinds => Action::ShowKeybinds,
        BindAction::Lock => Action::Lock,
        BindAction::ViewWs(k) => Action::ViewWs(k),
        BindAction::SendWs(k) => Action::SendWs(k),
    }
}

/// The binding that an entry of the settings stands for.
pub open spec fn bind_of(b: BindConfig) -> Keybind {
    Keybind { mods: b.mods, sym: b.keysym, action: action_of(b.action) }
}

/// The bindings that the settings stand for, in order.
pub open spec fn binds_of(bs: Seq<BindConfig>) -> Seq<Keybind> {
    bs.map_values(|b: BindConfig| bind_of(b))
}

fn convert_action(action: &BindAction) -> (out: Action)
    ensures
        out == action_of(*action),
{
    match action {
        BindAction::Spawn(name) => Action::Spawn(text::copy_str(name)),
        BindAction::Exec(cmd) => Action::SpawnRaw(text::copy_str(cmd)),
        BindAction::Scratchpad(name) => Action::ToggleScratchpad(text::copy_opt(name)),
        BindAction::FocusNext => Action::FocusNext,
        BindAction::FocusPrev => Action::FocusPrev,
        BindAction::FocusMonitorPrev => Action::FocusMonitorPrev,
        BindAction::FocusMonitorNext => Action::FocusMonitorNext,
        BindAction::SendMonitorPrev => Action::SendMonitorPrev,
        BindAction::SendMonitorNext => Action::SendMonitorNext,
        BindAction::DecreaseMfact => Action::DecreaseMfact,
        BindAction::IncreaseMfact => Action::IncreaseMfact,
        BindAction::ZoomMaster => Action::ZoomMaster,
        BindAction::Monocle => Action::ToggleMonocle,
        BindAction::Fullscreen => Action::ToggleFullscreen,
        BindAction::ToggleFloat => Action::ToggleFloat,
        BindAction::ToggleSync => Action::ToggleSync,
        BindAction::KillClient => Action::KillClient,
        BindAction::Reload => Action::Reload,
        BindAction::Quit => Action::Quit,
        BindAction::ShowKeybinds => Action::ShowKeybinds,
        BindAction::Lock => Action::Lock,
        BindAction::ViewWs(k) => Action::ViewWs(*k),
        BindAction::SendWs(k) => Action::SendWs(*k),
    }
}

/// Takes the bindings from the settings.
pub fn keybinds_from_config(binds: &Vec<BindConfig>) -> (out: Vec<Keybind>)
    ensures
        out@ == binds_of(binds@),
{
    let mut out: Vec<Keybind> = Vec::new();
    let mut i: usize = 0;
    while i < binds.len()
        invariant
            i <= binds.len(),
            out@ == binds_of(binds@.take(i as int)),
        decreases binds.len() - i,
    {
        let b: &BindConfig = &binds[i];
        out.push(Keybind { mods: b.mods, sym: b.keysym, action: convert_action(&b.action) });
        i = i + 1;
        assert(binds@.take(i as int) =~= binds@.take(i - 1).push(binds@[i - 1]));
        assert(out@ =~= binds_of(binds@.take(i as int)));
    }
    assert(binds@.take(i as int) =~= binds@);
    out
}

/// A copy of an action.
pub fn copy_action(a: &Action) -> (out: Action)
    ensures
        out == *a,
{
    match a {
        Action::Spawn(name) => Action::Spawn(text::copy_str(name)),
        Action::SpawnRaw(cmd) => Action::SpawnRaw(text::copy_str(cmd)),
        Action::KillClient => Action::KillClient,
        Action::FocusNext => Action::FocusNext,
        Action::FocusPrev => Action::FocusPrev,
        Action::ZoomMaster => Action::ZoomMaster,
        Action::ToggleMonocle => Action::ToggleMonocle,
        Action::ToggleFullscreen => Action::ToggleFullscreen,
        Action::ToggleFloat => Action::ToggleFloat,
        Action::ToggleScratchpad(name) => Action::ToggleScratchpad(text::copy_opt(name)),
        Action::DecreaseMfact => Action::DecreaseMfact,
        Action::IncreaseMfact => Action::IncreaseMfact,
        Action::FocusMonitorNext => Action::FocusMonitorNext,
        Action::FocusMonitorPrev => Action::FocusMonitorPrev,
        Action::SendMonitorNext => Action::SendMonitorNext,
        Action::SendMonitorPrev => Action::SendMonitorPrev,
        Action::ToggleSync => Action::ToggleSync,
        Action::ViewWs(k) => Action::ViewWs(*k),
        Action::SendWs(k) => Action::SendWs(*k),
        Action::ShowKeybinds => Action::ShowKeybinds,
        Action::Reload => Action::Reload,
        Action::Quit => Action::Quit,
        Action::Lock => Action::Lock,
    }
}

// ---- Keys -------------------------------------------------------------------

/// Whether a binding is for one of the key symbols, with these modifiers.
pub open spec fn bound_to(b: Keybind, syms: Seq<u32>, mods: ModMask) -> bool {
    syms.contains(b.sym) && b.mods == mods
}

/// The first binding at or after `i` for one of the key symbols with these
/// modifiers; the length where there is none.
pub open spec fn bind_from(bs: Seq<Keybind>, syms: Seq<u32>, mods: ModMask, i: int) -> int
    decreases bs.len() - i,
{
    if i >= bs.len() {
        bs.len() as int
    } else if bound_to(bs[i], syms, mods) {
        i
    } else {
        bind_from(bs, syms, mods, i + 1)
    }
}

impl GateView {
    /// The binding that a key event sets off. None does while the session is
    /// locked or a layer surface holds the keyboard for itself.
    pub open spec fn key_bound(self, syms: Seq<u32>, mods: ModMask, pressed: bool) -> Option<int> {
        let i = bind_from(self.keybinds, syms, mods, 0);
        if pressed && !self.exclusive_layer && !self.locked && i < self.keybinds.len() {
            Some(i)
        } else {
            None
        }
    }

    /// The state after a key event. A key that is bound does what it is bound
    /// to; any other key closes the list of bindings.
    pub open spec fn key_handled(self, syms: Seq<u32>, mods: ModMask, pressed: bool) -> GateView {
        match self.key_bound(syms, mods, pressed) {
            Some(i) => self.dispatched(self.keybinds[i].action),
            None => if pressed && self.overlay_visible {
                GateView {
                    overlay_visible: false,
                    stage: StageView { layout_dirty: true, ..self.stage },
                    ..self
                }
            } else {
                self
            },
        }
    }
}

fn holds_sym(syms: &Vec<u32>, sym: u32) -> (r: bool)
    ensures
        r == syms@.contains(sym),
{
    let mut i: usize = 0;
    while i < syms.len()
        invariant
            i <= syms.len(),
            forall|k: int| 0 <= k < i ==> syms@[k] != sym,
        decreases syms.len() - i,
    {
        if syms[i] == sym {
            assert(syms@[i as int] == sym);
            return true;
        }
        i = i + 1;
    }
    false
}

impl Gate {
    /// The binding that a key event sets off.
    pub fn find_bind(&self, syms: &Vec<u32>, mods: ModMask, pressed: bool) -> (out: Option<usize>)
        ensures
            match out {
                Some(i) => i < self@.keybinds.len() && self@.key_bound(syms@, mods, pressed)
                    == Some(i as int),
                None => self@.key_bound(syms@, mods, pressed) is None,
            },
    {
        if !pressed || self.exclusive_layer || self.session_locked {
            return None;
        }
        let mut i: usize = 0;
        while i < self.keybinds.len()
            invariant
                i <= self.keybinds.len(),
                pressed,
                !self@.exclusive_layer,
                !self@.locked,
                bind_from(self@.keybinds, syms@, mods, 0) == bind_from(
                    self@.keybinds,
                    syms@,
                    mods,
                    i as int,
                ),
            decreases self.keybinds.len() - i,
        {
            if holds_sym(syms, self.keybinds[i].sym) && self.keybinds[i].mods.matches(&mods) {
                return Some(i);
            }
            i = i + 1;
        }
        None
    }

    /// Handles a key event, given by the symbols of the key, and returns
    /// whether the key was bound, so that no window gets to see it.
    pub fn handle_keyboard(&mut self, syms: &Vec<u32>, mods: ModMask, pressed: bool) -> (bound: bool)
        requires
            old(self)@.wf(),
            old(self)@.key_bound(syms@, mods, pressed) matches Some(i)
                && old(self)@.keybinds[i].action.needs_output() ==> old(self)@.outputs.len() > 0,
        ensures
            final(self)@ == old(self)@.key_handled(syms@, mods, pressed),
            final(self)@.wf(),
            bound == old(self)@.key_bound(syms@, mods, pressed) is Some,
    {
        match self.find_bind(syms, mods, pressed) {
            Some(i) => {
                let action: Action = copy_action(&self.keybinds[i].action);
                self.dispatch_action(action);
                return true;
            },
            None => {},
        }
        if pressed && self.keybind_overlay_visible {
            self.keybind_overlay_visible = false;
            self.stage.layout_dirty = true;
            proof {
                state::lemma_same_places(old(self)@, self@);
            }
        }
        false
    }
}

/// While the session is locked, or a layer surface holds the keyboard for
/// itself, no key sets anything off.
pub proof fn law_locked_keys(g: GateView, syms: Seq<u32>, mods: ModMask, pressed: bool)
    requires
        g.locked || g.exclusive_layer,
    ensures
        g.key_bound(syms, mods, pressed) is None,
        state::same_desk(
            g,
            GateView { overlay_visible: g.overlay_visible, ..g.key_handled(syms, mods, pressed) },
        ),
{
}

// ---- The pointer ------------------------------------------------------------

/// Where the pointer goes. The coordinates are whole pixels; the pointer keeps
/// its fraction of a pixel where it is free.
#[derive(Clone, Copy, Debug, PartialEq, Eq)]
pub enum PointerTarget {
    /// Where it wants to go.
    Free,
    /// To this point.
    At { x: i32, y: i32 },
    /// Into this rectangle, by the shortest way along each axis.
    Within { left: i32, right: i32, top: i32, bottom: i32 },
    /// To this column of another output, as far down as it was on the
    /// output `from`.
    Cross { from: usize, to: usize, x: i32 },
}

/// Whether the pixel lies on the output.
pub open spec fn on_output(o: OutputView, x: int, y: int) -> bool {
    &&& o.x <= x < o.x + o.size.w
    &&& o.y <= y < o.y + o.size.h
}

/// The first output at or after `i` that holds the pixel; the length where
/// there is none.
pub open spec fn output_from(os: Seq<OutputView>, x: int, y: int, i: int) -> int
    decreases os.len() - i,
{
    if i >= os.len() {
        os.len() as int
    } else if on_output(os[i], x, y) {
        i
    } else {
        output_from(os, x, y, i + 1)
    }
}

/// The output that the pointer is on: where it was, else where it goes.
pub open spec fn pointer_output(os: Seq<OutputView>, was: (i64, i64), goes: (i64, i64)) -> int {
    let a = output_from(os, was.0 as int, was.1 as int, 0);
    if a < os.len() {
        a
    } else {
        output_from(os, goes.0 as int, goes.1 as int, 0)
    }
}

/// The output `step` places after `o` in the order, where there is one.
pub open spec fn neighbour_in(order: Seq<usize>, o: usize, step: int) -> Option<usize> {
    let rank = actions::rank_from(order, o, 0);
    if rank < order.len() && 0 <= rank + step < order.len() {
        Some(order[rank + step])
    } else {
        None
    }
}

/// Where the pointer goes when it was at the pixel `was` and wants to go to
/// the pixel `goes`. Leaving an output to the right leads to the left edge of
/// the next output in the order, leaving it to the left to the right edge of
/// the previous one; there is no way around the ends, and none up or down.
pub open spec fn pointer_target(
    os: Seq<OutputView>,
    order: Seq<usize>,
    was: (i64, i64),
    goes: (i64, i64),
) -> PointerTarget {
    let cur = pointer_output(os, was, goes);
    if os.len() == 0 {
        PointerTarget::Free
    } else if cur >= os.len() {
        let first = if order.len() > 0 {
            order[0] as int
        } else {
            0
        };
        PointerTarget::At { x: os[first].x, y: os[first].y }
    } else {
        let o = os[cur];
        let left = o.x;
        let right = (o.x + o.size.w - 1) as i32;
        let top = o.y;
        let bottom = (o.y + o.size.h - 1) as i32;
        if on_output(o, goes.0 as int, goes.1 as int) {
            PointerTarget::Free
        } else if goes.0 > right {
            match neighbour_in(order, cur as usize, 1) {
                Some(n) => PointerTarget::Cross { from: cur as usize, to: n, x: os[n as int].x },
                None => PointerTarget::Within { left: right, right, top, bottom },
            }
        } else if goes.0 < left {
            match neighbour_in(order, cur as usize, -1) {
                Some(n) => PointerTarget::Cross {
                    from: cur as usize,
                    to: n,
                    x: (os[n as int].x + os[n as int].size.w - 1) as i32,
                },
                None => PointerTarget::Within { left, right: left, top, bottom },
            }
        } else {
            PointerTarget::Within { left, right, top, bottom }
        }
    }
}

fn find_output(os: &Vec<OutputState>, x: i64, y: i64) -> (out: Option<usize>)
    ensures
        match out {
            Some(i) => i < os.len() && i == output_from(
                os@.map_values(|o: OutputState| o@),
                x as int,
                y as int,
                0,
            ),
            None => output_from(os@.map_values(|o: OutputState| o@), x as int, y as int, 0)
                == os@.len(),
        },
{
    let ghost view = os@.map_values(|o: OutputState| o@);
    let mut i: usize = 0;
    while i < os.len()
        invariant
            i <= os.len(),
            view == os@.map_values(|o: OutputState| o@),
            output_from(view, x as int, y as int, 0) == output_from(
                view,
                x as int,
                y as int,
                i as int,
            ),
        decreases os.len() - i,
    {
        let o: &OutputState = &os[i];
        assert(view[i as int] == os@[i as int]@);
        if o.x as i64 <= x && x < o.x as i64 + o.size.w as i64 && o.y as i64 <= y && y < o.y as i64
            + o.size.h as i64 {
            return Some(i);
        }
        i = i + 1;
    }
    None
}

fn rank_of(order: &Vec<usize>, o: usize) -> (out: Option<usize>)
    ensures
        match out {
            Some(i) => i < order.len() && i == actions::rank_from(order@, o, 0),
            None => actions::rank_from(order@, o, 0) == order@.len(),
        },
{
    let mut i: usize = 0;
    while i < order.len()
        invariant
            i <= order.len(),
            actions::rank_from(order@, o, 0) == actions::rank_from(order@, o, i as int),
        decreases order.len() - i,
    {
        if order[i] == o {
            return Some(i);
        }
        i = i + 1;
    }
    None
}

/// Where the pointer goes, so that it always stays on an output. The points
/// are given by the pixels that they lie in.
pub fn clamp_to_outputs(
    outputs: &Vec<OutputState>,
    order: &Vec<usize>,
    was: (i64, i64),
    goes: (i64, i64),
) -> (t: PointerTarget)
    requires
        forall|i: int| 0 <= i < order@.len() ==> #[trigger] order@[i] < outputs.len(),
        forall|i: int| 0 <= i < outputs.len() ==> state::output_ok((#[trigger] outputs@[i])@),
    ensures
        t == pointer_target(outputs@.map_values(|o: OutputState| o@), order@, was, goes),
{
    let ghost view = outputs@.map_values(|o: OutputState| o@);
    if outputs.len() == 0 {
        return PointerTarget::Free;
    }
    let cur: usize = match find_output(outputs, was.0, was.1) {
        Some(i) => i,
        None => match find_output(outputs, goes.0, goes.1) {
            Some(i) => i,
            None => {
                let first: usize = if order.len() > 0 {
                    order[0]
                } else {
                    0
                };
                assert(view[first as int] == outputs@[first as int]@);
                return PointerTarget::At { x: outputs[first].x, y: outputs[first].y };
            },
        },
    };
    let o: &OutputState = &outputs[cur];
    assert(view[cur as int] == outputs@[cur as int]@);
    assert(state::output_ok(outputs@[cur as int]@));
    let left: i32 = o.x;
    let right: i32 = o.x + o.size.w - 1;
    let top: i32 = o.y;
    let bottom: i32 = o.y + o.size.h - 1;
    let (gx, gy): (i64, i64) = goes;
    if left as i64 <= gx && gx <= right as i64 && top as i64 <= gy && gy <= bottom as i64 {
        return PointerTarget::Free;
    }
    let rank: Option<usize> = rank_of(order, cur);
    if gx > right as i64 {
        match rank {
            Some(r) => {
                if r + 1 < order.len() {
                    let n: usize = order[r + 1];
                    assert(view[n as int] == outputs@[n as int]@);
                    return PointerTarget::Cross { from: cur, to: n, x: outputs[n].x };
                }
            },
            None => {},
        }
        return PointerTarget::Within { left: right, right, top, bottom };
    }
    if gx < left as i64 {
        match rank {
            Some(r) => {
                if r > 0 {
                    let n: usize = order[r - 1];
                    assert(view[n as int] == outputs@[n as int]@);
                    assert(state::output_ok(outputs@[n as int]@));
                    return PointerTarget::Cross {
                        from: cur,
                        to: n,
                        x: outputs[n].x + outputs[n].size.w - 1,
                    };
                }
            },
            None => {},
        }
        return PointerTarget::Within { left, right: left, top, bottom };
    }
    PointerTarget::Within { left, right, top, bottom }
}

/// Whether every pixel of the rectangle lies on the output.
pub open spec fn spans(o: OutputView, left: int, right: int, top: int, bottom: int) -> bool {
    &&& o.x <= left <= right < o.x + o.size.w
    &&& o.y <= top <= bottom < o.y + o.size.h
}

/// Whether some output holds the pixel.
pub open spec fn on_some_output(os: Seq<OutputView>, x: int, y: int) -> bool {
    exists|i: int| 0 <= i < os.len() && #[trigger] on_output(os[i], x, y)
}

/// Whether every pixel of the rectangle lies on one and the same output.
pub open spec fn spanned(os: Seq<OutputView>, left: int, right: int, top: int, bottom: int) -> bool {
    exists|i: int| 0 <= i < os.len() && #[trigger] spans(os[i], left, right, top, bottom)
}

/// Whether a pointer that is sent to the target lands on an output.
pub open spec fn lands(os: Seq<OutputView>, t: PointerTarget, goes: (i64, i64)) -> bool {
    match t {
        PointerTarget::Free => on_some_output(os, goes.0 as int, goes.1 as int),
        PointerTarget::At { x, y } => on_some_output(os, x as int, y as int),
        PointerTarget::Within { left, right, top, bottom } => spanned(
            os,
            left as int,
            right as int,
            top as int,
            bottom as int,
        ),
        PointerTarget::Cross { from, to, x } => {
            &&& from < os.len()
            &&& to < os.len()
            &&& os[to as int].x <= x < os[to as int].x + os[to as int].size.w
        },
    }
}

/// A pointer that is on an output and does not leave it goes where it wants;
/// wherever it goes, it lands on an output.
pub proof fn law_pointer_stays_on_outputs(
    os: Seq<OutputView>,
    order: Seq<usize>,
    was: (i64, i64),
    goes: (i64, i64),
)
    requires
        0 < os.len() <= usize::MAX,
        forall|i: int| 0 <= i < order.len() ==> #[trigger] order[i] < os.len(),
        forall|i: int|
            0 <= i < os.len() ==> state::output_ok(#[trigger] os[i]) && os[i].size.w >= 1
                && os[i].size.h >= 1,
    ensures
        lands(os, pointer_target(os, order, was, goes), goes),
{
    lemma_output_from(os, was.0 as int, was.1 as int, 0);
    lemma_output_from(os, goes.0 as int, goes.1 as int, 0);
    let cur = pointer_output(os, was, goes);
    if cur >= os.len() {
        let first = if order.len() > 0 {
            order[0] as int
        } else {
            0
        };
        if order.len() > 0 {
            assert(order[0] < os.len());
        }
        assert(on_output(os[first], os[first].x as int, os[first].y as int));
        assert(on_some_output(os, os[first].x as int, os[first].y as int));
    } else {
        let o = os[cur];
        assert(state::output_ok(o));
        lemma_rank(order, cur as usize, 0);
        let rank = actions::rank_from(order, cur as usize, 0);
        if rank < order.len() {
            if rank + 1 < order.len() {
                assert(order[rank + 1] < os.len());
                assert(state::output_ok(os[order[rank + 1] as int]));
            }
            if rank > 0 {
                assert(order[rank - 1] < os.len());
                assert(state::output_ok(os[order[rank - 1] as int]));
            }
        }
        match pointer_target(os, order, was, goes) {
            PointerTarget::Within { left, right, top, bottom } => {
                assert(spans(os[cur], left as int, right as int, top as int, bottom as int));
            },
            PointerTarget::Free => {
                assert(on_output(os[cur], goes.0 as int, goes.1 as int));
            },
            PointerTarget::Cross { from, to, x } => {
                assert(to < os.len());
                assert(state::output_ok(os[to as int]));
            },
            PointerTarget::At { x, y } => {},
        }
    }
}

proof fn lemma_output_from(os: Seq<OutputView>, x: int, y: int, i: int)
    requires
        0 <= i <= os.len(),
    ensures
        i <= output_from(os, x, y, i) <= os.len(),
        output_from(os, x, y, i) < os.len() ==> on_output(os[output_from(os, x, y, i)], x, y),
    decreases os.len() - i,
{
    if i < os.len() && !on_output(os[i], x, y) {
        lemma_output_from(os, x, y, i + 1);
    }
}

proof fn lemma_rank(order: Seq<usize>, x: usize, i: int)
    requires
        0 <= i <= order.len(),
    ensures
        i <= actions::rank_from(order, x, i) <= order.len(),
    decreases order.len() - i,
{
    if i < order.len() && order[i] != x {
        lemma_rank(order, x, i + 1);
    }
}

/// Who may get a pointer event.
#[derive(Clone, Copy, Debug, PartialEq, Eq)]
pub enum PointerRoute {
    /// The lock surface of this output, and nobody else.
    Lock { output: usize },
    /// Nobody.
    Nobody,
    /// The layer surfaces and windows under the pointer.
    Desktop,
}

impl GateView {
    /// Who may get a pointer event at the pixel: while the session is locked
    /// the lock surface of the output under the pointer, never the desktop.
    pub open spec fn pointer_route(self, x: int, y: int) -> PointerRoute {
        if self.locked {
            let o = output_from(self.outputs, x, y, 0);
            if o < self.outputs.len() {
                PointerRoute::Lock { output: o as usize }
            } else {
                PointerRoute::Nobody
            }
        } else {
            PointerRoute::Desktop
        }
    }
}

/// What becomes of one axis of a scroll event.
#[derive(Clone, Copy, Debug, PartialEq, Eq, Structural)]
pub enum AxisStep {
    Skip,
    Stop,
    Move,
}

/// What becomes of one axis of a scroll event: no amount means that the axis
/// did not move, and a zero amount from a finger that the finger was lifted.
pub fn axis_step(amount: bool, zero: bool, is_finger: bool) -> (s: AxisStep)
    ensures
        s == (if !amount {
            AxisStep::Skip
        } else if zero && is_finger {
            AxisStep::Stop
        } else {
            AxisStep::Move
        }),
{
    if !amount {
        AxisStep::Skip
    } else if zero && is_finger {
        AxisStep::Stop
    } else {
        AxisStep::Move
    }
}

impl Gate {
    /// Who may get a pointer event at the pixel.
    pub fn surface_under_pointer(&self, x: i64, y: i64) -> (r: PointerRoute)
        ensures
            r == self@.pointer_route(x as int, y as int),
    {
        if self.session_locked {
            match find_output(&self.outputs, x, y) {
                Some(output) => PointerRoute::Lock { output },
                None => PointerRoute::Nobody,
            }
        } else {
            PointerRoute::Desktop
        }
    }

    /// The output that holds the pixel, else the focused one.
    pub fn output_for_point(&self, x: i32, y: i32) -> (o: usize)
        ensures
            o == (if output_from(self@.outputs, x as int, y as int, 0) < self@.outputs.len() {
                output_from(self@.outputs, x as int, y as int, 0)
            } else {
                self.focused_output as int
            }),
    {
        match find_output(&self.outputs, x as i64, y as i64) {
            Some(o) => o,
            None => self.focused_output,
        }
    }
}

/// A pointer that leaves an output to the right comes in at the left edge of
/// the next output on the desk, and one that leaves it to the left at the right
/// edge of the one before; at the ends of the desk it stays at the edge. Up and
/// down it stays on its output.
pub proof fn law_pointer_crosses_sideways(
    os: Seq<OutputView>,
    order: Seq<usize>,
    was: (i64, i64),
    goes: (i64, i64),
    cur: int,
    p: int,
)
    requires
        0 <= cur < os.len() <= usize::MAX,
        state::output_ok(os[cur]),
        os[cur].x <= was.0 < os[cur].x + os[cur].size.w,
        os[cur].y <= was.1 < os[cur].y + os[cur].size.h,
        forall|i: int|
            0 <= i < cur ==> !((#[trigger] os[i]).x <= was.0 < os[i].x + os[i].size.w && os[i].y
                <= was.1 < os[i].y + os[i].size.h),
        0 <= p < order.len(),
        order[p] == cur,
        forall|q: int| 0 <= q < p ==> #[trigger] order[q] != cur,
        forall|q: int|
            0 <= q < order.len() ==> #[trigger] order[q] < os.len() && state::output_ok(
                os[order[q] as int],
            ),
    ensures
        ({
            let t = pointer_target(os, order, was, goes);
            let o = os[cur];
            let end = o.x + o.size.w - 1;
            &&& goes.0 > end && p + 1 < order.len() ==> (t matches PointerTarget::Cross { from, to, x }
                && from == cur && to == order[p + 1] && x == os[order[p + 1] as int].x)
            &&& goes.0 < o.x && p > 0 ==> (t matches PointerTarget::Cross { from, to, x } && from
                == cur && to == order[p - 1] && x == os[order[p - 1] as int].x + os[order[p
                - 1] as int].size.w - 1)
            &&& goes.0 > end && p + 1 == order.len() ==> (t matches PointerTarget::Within {
                left,
                right,
                top,
                bottom,
            } && left == end && right == end)
            &&& goes.0 < o.x && p == 0 ==> (t matches PointerTarget::Within {
                left,
                right,
                top,
                bottom,
            } && left == o.x && right == o.x)
            &&& o.x <= goes.0 <= end && !(o.y <= goes.1 < o.y + o.size.h) ==> (t
                matches PointerTarget::Within { left, right, top, bottom } && left == o.x && right
                == end && top == o.y && bottom == o.y + o.size.h - 1)
            &&& o.x <= goes.0 <= end && o.y <= goes.1 < o.y + o.size.h ==> t is Free
        }),
{
    lemma_first_output(os, was.0 as int, was.1 as int, 0, cur);
    lemma_rank_is(order, cur as usize, 0, p);
    if p + 1 < order.len() {
        assert(order[p + 1] < os.len());
    }
    if p > 0 {
        assert(order[p - 1] < os.len());
        assert(state::output_ok(os[order[p - 1] as int]));
    }
}

proof fn lemma_first_output(os: Seq<OutputView>, x: int, y: int, i: int, cur: int)
    requires
        0 <= i <= cur < os.len(),
        on_output(os[cur], x, y),
        forall|j: int| i <= j < cur ==> !on_output(#[trigger] os[j], x, y),
    ensures
        output_from(os, x, y, i) == cur,
    decreases cur - i,
{
    if i < cur {
        lemma_first_output(os, x, y, i + 1, cur);
    }
}

proof fn lemma_rank_is(order: Seq<usize>, x: usize, i: int, p: int)
    requires
        0 <= i <= p < order.len(),
        order[p] == x,
        forall|q: int| i <= q < p ==> #[trigger] order[q] != x,
    ensures
        actions::rank_from(order, x, i) == p,
    decreases p - i,
{
    if i < p {
        lemma_rank_is(order, x, i + 1, p);
    }
}

/// While the session is locked the desktop gets no pointer event: what happens
/// over an output goes to the lock there, and the rest to nobody.
pub proof fn law_lock_takes_the_pointer(g: GateView, x: int, y: int, o: int)
    requires
        0 <= o < g.outputs.len() <= usize::MAX,
        g.outputs[o].x <= x < g.outputs[o].x + g.outputs[o].size.w,
        g.outputs[o].y <= y < g.outputs[o].y + g.outputs[o].size.h,
        forall|i: int|
            0 <= i < o ==> !((#[trigger] g.outputs[i]).x <= x < g.outputs[i].x
                + g.outputs[i].size.w && g.outputs[i].y <= y < g.outputs[i].y + g.outputs[i].size.h),
    ensures
        g.locked ==> g.pointer_route(x, y) == (PointerRoute::Lock { output: o as usize }),
        !g.locked ==> g.pointer_route(x, y) == PointerRoute::Desktop,
{
    lemma_first_output(g.outputs, x, y, 0, o);
}

} // verus!
