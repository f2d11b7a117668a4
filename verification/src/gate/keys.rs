//! What a key press does to the desk, for everything that a key can be bound
//! to.

use vstd::prelude::*;

use crate::gate::actions;
use crate::gate::actions::WsChange;
use crate::gate::animation::SlideDirection;
use crate::gate::config;
use crate::gate::config::{AnimationPreset, BindAction, BindConfig, General, ModMask};
use crate::gate::input;
use crate::gate::laws;
use crate::gate::stage;
use crate::gate::stage::StageView;
use crate::gate::state;
use crate::gate::state::{GateView, OutputView, PendingSend, ScratchpadView};
use crate::gate::workspace;
use crate::gate::workspace::{WindowId, WorkspaceView, WORKSPACE_COUNT};
use crate::text;

verus! {

// ---- Which binding ----------------------------------------------------------

/// Whether the entry `i` of the settings answers a key press: it is the first
/// that names one of the symbols of the key, with just the modifiers that are
/// held, and nothing keeps the keyboard from it.
pub open spec fn answers(
    g: GateView,
    binds: Seq<BindConfig>,
    syms: Seq<u32>,
    mods: ModMask,
    i: int,
) -> bool {
    &&& g.keybinds == input::binds_of(binds)
    &&& 0 <= i < binds.len()
    &&& syms.contains(binds[i].keysym)
    &&& binds[i].mods == mods
    &&& forall|j: int|
        0 <= j < i ==> !(syms.contains((#[trigger] binds[j]).keysym) && binds[j].mods == mods)
    &&& !g.locked
    &&& !g.exclusive_layer
}

proof fn lemma_bind_at(g: GateView, binds: Seq<BindConfig>, syms: Seq<u32>, mods: ModMask, i: int, j: int)
    requires
        answers(g, binds, syms, mods, i),
        0 <= j <= i,
    ensures
        input::bind_from(g.keybinds, syms, mods, j) == i,
    decreases i - j,
{
    assert(g.keybinds[j] == input::bind_of(binds[j]));
    if j < i {
        lemma_bind_at(g, binds, syms, mods, i, j + 1);
    }
}

/// The key does what its entry stands for.
pub proof fn lemma_answer(g: GateView, binds: Seq<BindConfig>, syms: Seq<u32>, mods: ModMask, i: int)
    requires
        answers(g, binds, syms, mods, i),
    ensures
        g.key_handled(syms, mods, true) == g.dispatched(input::action_of(binds[i].action)),
{
    lemma_bind_at(g, binds, syms, mods, i, 0);
    assert(g.keybinds[i] == input::bind_of(binds[i]));
}

/// Different bindings stand for different actions.
pub proof fn law_bindings_differ(a: BindAction, b: BindAction)
    requires
        input::action_of(a) == input::action_of(b),
    ensures
        a == b,
{
}

/// A key that no entry names, or that is released, or that comes while the
/// session is locked, changes nothing but this: a press closes the help on
/// keys.
pub proof fn law_other_keys_do_nothing(
    g: GateView,
    binds: Seq<BindConfig>,
    syms: Seq<u32>,
    mods: ModMask,
    pressed: bool,
)
    requires
        g.keybinds == input::binds_of(binds),
        !pressed || g.locked || g.exclusive_layer || forall|j: int|
            0 <= j < binds.len() ==> !(syms.contains((#[trigger] binds[j]).keysym) && binds[j].mods
                == mods),
    ensures
        ({
            let h = g.key_handled(syms, mods, pressed);
            &&& h.overlay_visible == (g.overlay_visible && !pressed)
            &&& h == (GateView { overlay_visible: h.overlay_visible, stage: h.stage, ..g })
            &&& h.stage == (StageView {
                layout_dirty: g.stage.layout_dirty || (pressed && g.overlay_visible),
                ..g.stage
            })
        }),
{
    if pressed && !g.locked && !g.exclusive_layer {
        lemma_unbound(g, binds, syms, mods, 0);
    }
}

proof fn lemma_unbound(g: GateView, binds: Seq<BindConfig>, syms: Seq<u32>, mods: ModMask, j: int)
    requires
        g.keybinds == input::binds_of(binds),
        0 <= j <= binds.len(),
        forall|j: int|
            0 <= j < binds.len() ==> !(syms.contains((#[trigger] binds[j]).keysym) && binds[j].mods
                == mods),
    ensures
        input::bind_from(g.keybinds, syms, mods, j) == g.keybinds.len(),
    decreases binds.len() - j,
{
    if j < binds.len() {
        assert(g.keybinds[j] == input::bind_of(binds[j]));
        lemma_unbound(g, binds, syms, mods, j + 1);
    }
}

// ---- What is in front -------------------------------------------------------

/// Whether `s` is the scratchpad that covers the focused output: the first
/// that is visible there; `None` where there is none.
pub open spec fn covering(g: GateView, s: Option<int>) -> bool {
    match s {
        Some(s) => {
            &&& 0 <= s < g.scratchpads.len() <= usize::MAX
            &&& g.scratchpads[s].visible
            &&& g.scratchpads[s].output_idx == g.focused_output
            &&& forall|t: int|
                0 <= t < s ==> !((#[trigger] g.scratchpads[t]).visible
                    && g.scratchpads[t].output_idx == g.focused_output)
        },
        None => forall|t: int|
            0 <= t < g.scratchpads.len() ==> !((#[trigger] g.scratchpads[t]).visible
                && g.scratchpads[t].output_idx == g.focused_output),
    }
}

/// The number of the workspace that an output shows.
pub open spec fn shown(g: GateView, o: int) -> int {
    if g.config.general.sync_workspaces {
        g.current_ws as int
    } else {
        g.outputs[o].current_ws as int
    }
}

/// The workspace that has the focus: that of the covering scratchpad, else the
/// one which the focused output shows.
pub open spec fn front(g: GateView, s: Option<int>) -> WorkspaceView {
    match s {
        Some(s) => g.scratchpads[s].workspace,
        None => g.workspaces[g.focused_output as int][shown(g, g.focused_output as int)],
    }
}

/// Whether two states differ at most in what is on the screen, in who gets the
/// key presses, and in the workspace that has the focus.
pub open spec fn only_front(g: GateView, h: GateView, s: Option<int>) -> bool {
    match s {
        Some(s) => h == (GateView {
            stage: h.stage,
            keyboard_focus: h.keyboard_focus,
            scratchpads: g.scratchpads.update(
                s,
                ScratchpadView { workspace: h.scratchpads[s].workspace, ..g.scratchpads[s] },
            ),
            ..g
        }),
        None => {
            let o = g.focused_output as int;
            let k = shown(g, o);
            h == (GateView {
                stage: h.stage,
                keyboard_focus: h.keyboard_focus,
                workspaces: g.workspaces.update(o, g.workspaces[o].update(k, h.workspaces[o][k])),
                ..g
            })
        },
    }
}

proof fn lemma_cover_from(g: GateView, s: Option<int>, t: int)
    requires
        covering(g, s),
        0 <= t,
        s matches Some(s) ==> t <= s,
    ensures
        g.active_from(t) == (match s {
            Some(s) => Some(s as usize),
            None => None,
        }),
    decreases g.scratchpads.len() - t,
{
    if t < g.scratchpads.len() && s != Some(t) {
        lemma_cover_from(g, s, t + 1);
    }
}

pub proof fn lemma_cover(g: GateView, s: Option<int>)
    requires
        covering(g, s),
    ensures
        g.active_scratchpad() == (match s {
            Some(s) => Some(s as usize),
            None => None,
        }),
{
    lemma_cover_from(g, s, 0);
}

/// The focused window of the state is that of the workspace in front.
proof fn lemma_focused(g: GateView, s: Option<int>)
    requires
        g.wf(),
        g.outputs.len() > 0,
        covering(g, s),
    ensures
        g.focused_window() == front(g, s).focused_window(),
        state::ws_ok(front(g, s)),
        s is None ==> front(g, s) == g.front_ws(),
{
    lemma_cover(g, s);
    let o = g.focused_output as int;
    assert(state::output_ok(g.outputs[o]));
    assert(g.workspaces[o].len() == WORKSPACE_COUNT);
}

proof fn lemma_front_changed(g: GateView, s: Option<int>, c: WsChange)
    requires
        g.wf(),
        g.outputs.len() > 0,
        covering(g, s),
    ensures
        ({
            let h = g.front_changed(c).relaid();
            &&& only_front(g, h, s)
            &&& front(h, s) == c.applied(front(g, s))
            &&& !g.exclusive_layer ==> h.keyboard_focus == front(h, s).focused_window()
        }),
        ({
            let h = g.front_changed(c).front_laid();
            &&& only_front(g, h, s)
            &&& front(h, s) == c.applied(front(g, s))
            &&& h.keyboard_focus == g.keyboard_focus
        }),
{
    reveal(GateView::front_changed);
    reveal(GateView::relaid);
    reveal(GateView::front_laid);
    reveal(GateView::focus_applied);
    reveal(GateView::laid_out);
    reveal(GateView::scratchpad_laid);
    lemma_cover(g, s);
    lemma_focused(g, s);
    let m = g.front_changed(c);
    assert(covering(m, s)) by {
        match s {
            Some(s) => {
                assert forall|t: int| 0 <= t < s implies !((#[trigger] m.scratchpads[t]).visible
                    && m.scratchpads[t].output_idx == m.focused_output) by {
                    assert(m.scratchpads[t] == g.scratchpads[t]);
                }
            },
            None => {
                assert(m.scratchpads == g.scratchpads);
            },
        }
    }
    lemma_cover(m, s);
    let o = g.focused_output as int;
    let k = shown(g, o);
    assert(state::output_ok(g.outputs[o]));
    assert(g.workspaces[o].len() == WORKSPACE_COUNT);
    match s {
        Some(s) => {
            laws::lemma_scratchpad_frame(m, s);
            let l = m.scratchpad_laid(s);
            laws::lemma_settled_frame(l);
            assert(covering(l, Some(s))) by {
                assert(l.scratchpads == m.scratchpads);
            }
            lemma_cover(l, Some(s));
        },
        None => {
            laws::lemma_settled_frame(m);
            let l = m.laid_out();
            laws::lemma_settled_frame(l);
            assert(covering(l, None::<int>)) by {
                assert(l.scratchpads == m.scratchpads);
            }
            lemma_cover(l, None::<int>);
            assert(m.workspaces[o][k] == c.applied(g.workspaces[o][k]));
        },
    }
}

// ---- Changes of the workspace in front --------------------------------------

/// The keys for the next and the previous window move the focus one place on
/// or back in the workspace in front, around its ends, and the key presses go
/// there. Nothing else changes.
pub proof fn law_key_moves_focus(
    g: GateView,
    binds: Seq<BindConfig>,
    syms: Seq<u32>,
    mods: ModMask,
    i: int,
    s: Option<int>,
    c: int,
    step: int,
)
    requires
        g.wf(),
        g.outputs.len() > 0,
        answers(g, binds, syms, mods, i),
        (binds[i].action is FocusNext && step == 1) || (binds[i].action is FocusPrev && step == -1),
        covering(g, s),
        0 <= c < front(g, s).clients.len(),
        front(g, s).focused == Some(c as usize),
    ensures
        ({
            let h = g.key_handled(syms, mods, true);
            let v = front(g, s);
            let n = v.clients.len() as int;
            &&& only_front(g, h, s)
            &&& front(h, s) == (WorkspaceView {
                focused: Some(((c + step + n) % n) as usize),
                last_focused: Some(c as usize),
                ..v
            })
            &&& h.keyboard_focus == Some(v.clients[(c + step + n) % n])
        }),
{
    lemma_answer(g, binds, syms, mods, i);
    lemma_focused(g, s);
    let v = front(g, s);
    let n = v.clients.len() as int;
    workspace::law_focus_goes_round(v, c);
    workspace::lemma_window_count(v.clients);
    lemma_front_changed(g, s, WsChange::FocusNext);
    lemma_front_changed(g, s, WsChange::FocusPrev);
    vstd::arithmetic::div_mod::lemma_mod_add_multiples_vanish(c + 1, n);
    vstd::arithmetic::div_mod::lemma_mod_bound(c + step + n, n);
}

/// The key for zooming exchanges the focused window with the first one of the
/// workspace in front; every window floats as it did.
pub proof fn law_key_zooms(
    g: GateView,
    binds: Seq<BindConfig>,
    syms: Seq<u32>,
    mods: ModMask,
    i: int,
    s: Option<int>,
    c: int,
)
    requires
        g.wf(),
        g.outputs.len() > 0,
        answers(g, binds, syms, mods, i),
        binds[i].action is ZoomMaster,
        covering(g, s),
        0 <= c < front(g, s).clients.len(),
        front(g, s).focused == Some(c as usize),
    ensures
        ({
            let h = g.key_handled(syms, mods, true);
            let v = front(g, s);
            let z = front(h, s);
            &&& only_front(g, h, s)
            &&& z.clients == v.clients.update(0, v.clients[c]).update(c, v.clients[0])
            &&& z.floating == v.floating.update(0, v.floating[c]).update(c, v.floating[0])
            &&& (z.layout, z.mfact, z.nmaster, z.gap_px, z.id) == (
                v.layout,
                v.mfact,
                v.nmaster,
                v.gap_px,
                v.id,
            )
            &&& h.keyboard_focus == z.focused_window()
        }),
{
    lemma_answer(g, binds, syms, mods, i);
    lemma_focused(g, s);
    let v = front(g, s);
    workspace::law_zoom_exchanges_two(v, c);
    lemma_front_changed(g, s, WsChange::Zoom);
    let z = v.zoomed();
    assert(z.clients =~= v.clients.update(0, v.clients[c]).update(c, v.clients[0]));
    assert(z.floating =~= v.floating.update(0, v.floating[c]).update(c, v.floating[0])) by {
        assert forall|k: int| 0 <= k < v.floating.len() implies z.floating[k] == v.floating.update(
            0,
            v.floating[c],
        ).update(c, v.floating[0])[k] by {
            if k != 0 && k != c {
                assert(z.clients[k] == v.clients[k]);
            }
        }
    }
}

/// The key for floating lets the focused window of the workspace in front
/// float, or tiles it again, and changes nothing else.
pub proof fn law_key_floats(
    g: GateView,
    binds: Seq<BindConfig>,
    syms: Seq<u32>,
    mods: ModMask,
    i: int,
    s: Option<int>,
    c: int,
)
    requires
        g.wf(),
        g.outputs.len() > 0,
        answers(g, binds, syms, mods, i),
        binds[i].action is ToggleFloat,
        covering(g, s),
        0 <= c < front(g, s).clients.len(),
        front(g, s).focused == Some(c as usize),
    ensures
        ({
            let h = g.key_handled(syms, mods, true);
            let v = front(g, s);
            &&& only_front(g, h, s)
            &&& front(h, s) == (WorkspaceView {
                floating: v.floating.update(c, !v.floating[c]),
                ..v
            })
            &&& h.keyboard_focus == Some(v.clients[c])
        }),
{
    lemma_answer(g, binds, syms, mods, i);
    lemma_focused(g, s);
    let v = front(g, s);
    workspace::law_float_changes_one(v, c);
    lemma_front_changed(g, s, WsChange::ToggleFloat);
    assert(v.float_toggled().floating =~= v.floating.update(c, !v.floating[c]));
}

/// The key for the monocle layout gives the workspace in front the other layout
/// and changes nothing else.
pub proof fn law_key_changes_layout(
    g: GateView,
    binds: Seq<BindConfig>,
    syms: Seq<u32>,
    mods: ModMask,
    i: int,
    s: Option<int>,
)
    requires
        g.wf(),
        g.outputs.len() > 0,
        answers(g, binds, syms, mods, i),
        binds[i].action is Monocle,
        covering(g, s),
    ensures
        ({
            let h = g.key_handled(syms, mods, true);
            &&& only_front(g, h, s)
            &&& front(h, s).layout != front(g, s).layout
            &&& front(h, s) == (WorkspaceView { layout: front(h, s).layout, ..front(g, s) })
        }),
{
    lemma_answer(g, binds, syms, mods, i);
    lemma_front_changed(g, s, WsChange::FlipLayout);
}

/// The keys for the split make the master column of the workspace in front
/// wider or narrower and change nothing else.
pub proof fn law_key_moves_split(
    g: GateView,
    binds: Seq<BindConfig>,
    syms: Seq<u32>,
    mods: ModMask,
    i: int,
    s: Option<int>,
)
    requires
        g.wf(),
        g.outputs.len() > 0,
        answers(g, binds, syms, mods, i),
        binds[i].action is IncreaseMfact || binds[i].action is DecreaseMfact,
        covering(g, s),
        0x1000_0000 <= 20 * front(g, s).mfact <= 19 * 0x1000_0000,
    ensures
        ({
            let h = g.key_handled(syms, mods, true);
            let before = 20 * front(g, s).mfact;
            let after = 20 * front(h, s).mfact;
            &&& only_front(g, h, s)
            &&& front(h, s) == (WorkspaceView { mfact: front(h, s).mfact, ..front(g, s) })
            &&& binds[i].action is IncreaseMfact && before <= 18 * 0x1000_0000 - 400
                ==> 0x1000_0000 - 400 <= after - before <= 0x1000_0000 + 400
            &&& binds[i].action is DecreaseMfact && before >= 2 * 0x1000_0000 + 400
                ==> 0x1000_0000 - 400 <= before - after <= 0x1000_0000 + 400
            &&& 0x1000_0000 <= after + 20
            &&& after <= 19 * 0x1000_0000 + 400
        }),
{
    lemma_answer(g, binds, syms, mods, i);
    lemma_focused(g, s);
    let v = front(g, s);
    workspace::law_split_moves_by_a_twentieth(v, true);
    workspace::law_split_moves_by_a_twentieth(v, false);
    lemma_front_changed(g, s, WsChange::MoveSplit { up: true });
    lemma_front_changed(g, s, WsChange::MoveSplit { up: false });
}

// ---- Windows ----------------------------------------------------------------

/// The key for closing asks the focused window of the workspace in front to
/// close; the window stays where it is until it does.
pub proof fn law_key_closes(
    g: GateView,
    binds: Seq<BindConfig>,
    syms: Seq<u32>,
    mods: ModMask,
    i: int,
    s: Option<int>,
)
    requires
        g.wf(),
        g.outputs.len() > 0,
        answers(g, binds, syms, mods, i),
        binds[i].action is KillClient,
        covering(g, s),
    ensures
        ({
            let h = g.key_handled(syms, mods, true);
            &&& h == (GateView { closes: h.closes, ..g })
            &&& front(g, s).focused_window() matches Some(w) ==> h.closes == g.closes.push(w)
            &&& front(g, s).focused_window() is None ==> h.closes == g.closes
        }),
{
    lemma_answer(g, binds, syms, mods, i);
    lemma_focused(g, s);
    reveal(GateView::killing);
}

/// The key for fullscreen makes the focused window fill the focused output, or
/// ends that. Under a scratchpad, or without a window, it does nothing.
pub proof fn law_key_fills_the_screen(
    g: GateView,
    binds: Seq<BindConfig>,
    syms: Seq<u32>,
    mods: ModMask,
    i: int,
    s: Option<int>,
)
    requires
        g.wf(),
        g.outputs.len() > 0,
        answers(g, binds, syms, mods, i),
        binds[i].action is Fullscreen,
        covering(g, s),
    ensures
        ({
            let h = g.key_handled(syms, mods, true);
            let o = g.focused_output as int;
            let fs = h.outputs[o].fullscreen;
            &&& s is Some ==> h == g
            &&& s is None ==> fs == (if g.outputs[o].fullscreen is Some {
                None
            } else {
                front(g, s).focused_window()
            })
            &&& h == (GateView {
                stage: h.stage,
                keyboard_focus: h.keyboard_focus,
                outputs: g.outputs.update(o, OutputView { fullscreen: fs, ..g.outputs[o] }),
                ..g
            })
        }),
{
    lemma_answer(g, binds, syms, mods, i);
    lemma_focused(g, s);
    lemma_cover(g, s);
    reveal(GateView::fullscreen_toggled);
    let o = g.focused_output as int;
    assert(g.outputs =~= g.outputs.update(o, g.outputs[o]));
    laws::lemma_settled_frame(g.with_fullscreen(None));
    match front(g, s).focused_window() {
        Some(w) => {
            laws::lemma_settled_frame(g.with_fullscreen(Some(w)));
        },
        None => {},
    }
}

/// The key for another workspace brings that one into view on the focused
/// output, or on all of them where they go together, and remembers the one
/// before. It moves no window.
pub proof fn law_key_shows_workspace(
    g: GateView,
    binds: Seq<BindConfig>,
    syms: Seq<u32>,
    mods: ModMask,
    i: int,
    k: usize,
)
    requires
        g.wf(),
        g.outputs.len() > 0,
        answers(g, binds, syms, mods, i),
        binds[i].action == BindAction::ViewWs(k),
    ensures
        ({
            let h = g.key_handled(syms, mods, true);
            let o = g.focused_output as int;
            let sync = g.config.general.sync_workspaces;
            &&& k < WORKSPACE_COUNT ==> shown(h, o) == k
            &&& k >= WORKSPACE_COUNT || shown(g, o) == k ==> h == g
            &&& k < WORKSPACE_COUNT && shown(g, o) != k ==> {
                &&& h.previous_ws == shown(g, o)
                &&& h.current_ws == k
                &&& forall|p: int|
                    0 <= p < g.outputs.len() ==> (#[trigger] h.outputs[p]) == (OutputView {
                        current_ws: if sync || p == o {
                            k
                        } else {
                            g.outputs[p].current_ws
                        },
                        ..g.outputs[p]
                    })
                &&& h.outputs.len() == g.outputs.len()
                &&& h == (GateView {
                    stage: h.stage,
                    keyboard_focus: h.keyboard_focus,
                    animations: h.animations,
                    outputs: h.outputs,
                    previous_ws: h.previous_ws,
                    current_ws: h.current_ws,
                    ..g
                })
            }
        }),
{
    lemma_answer(g, binds, syms, mods, i);
    reveal(GateView::viewed);
    laws::lemma_settled_frame(g.viewing(k));
}

/// Whether windows go to other workspaces at once, without being seen to move.
pub open spec fn moves_at_once(g: GateView, w: WindowId) -> bool {
    ||| g.config.animations.preset == AnimationPreset::Instant
    ||| g.config.animations.duration_ms == 0
    ||| forall|m: int|
        0 <= m < g.stage.space.len() ==> (#[trigger] g.stage.space[m]).window != w
}

/// The key for sending takes the focused window of the workspace in view to
/// another workspace of the same output, where it is the last window and has
/// the focus. What the outputs show does not change. A window that is seen to
/// move is marked as on its way instead.
pub proof fn law_key_sends_window(
    g: GateView,
    binds: Seq<BindConfig>,
    syms: Seq<u32>,
    mods: ModMask,
    i: int,
    k: usize,
    c: int,
)
    requires
        g.wf(),
        g.outputs.len() > 0,
        answers(g, binds, syms, mods, i),
        binds[i].action == BindAction::SendWs(k),
        k < WORKSPACE_COUNT,
        k != shown(g, g.focused_output as int),
        ({
            let v = front(g, None);
            0 <= c < v.clients.len() && v.focused == Some(c as usize)
        }),
    ensures
        ({
            let h = g.key_handled(syms, mods, true);
            let o = g.focused_output as int;
            let from = shown(g, o);
            let v = g.workspaces[o][from];
            let to = g.workspaces[o][k as int];
            let w = v.clients[c];
            &&& h.outputs == g.outputs
            &&& h.current_ws == g.current_ws
            &&& shown(h, o) == from
            &&& h.focused_output == g.focused_output
            &&& h.scratchpads == g.scratchpads
            &&& moves_at_once(g, w) ==> {
                &&& h.workspaces[o][from].clients == v.clients.remove(c)
                &&& h.workspaces[o][from].floating == v.floating.remove(c)
                &&& h.workspaces[o][k as int].clients == to.clients.push(w)
                &&& h.workspaces[o][k as int].floating == to.floating.push(false)
                &&& h.workspaces[o][k as int].focused_window() == Some(w)
                &&& h.pending_sends == g.pending_sends
                &&& forall|a: int, b: int|
                    0 <= a < g.workspaces.len() && 0 <= b < WORKSPACE_COUNT && !(a == o && (b
                        == from || b == k)) ==> #[trigger] h.workspaces[a][b] == g.workspaces[a][b]
            }
            &&& !moves_at_once(g, w) ==> h.workspaces == g.workspaces && h.pending_sends
                == g.pending_sends.push(
                PendingSend { window: w, output: g.focused_output, workspace: k },
            )
        }),
{
    lemma_answer(g, binds, syms, mods, i);
    reveal(GateView::sent);
    let o = g.focused_output as int;
    let from = shown(g, o);
    assert(g.workspaces[o].len() == WORKSPACE_COUNT);
    assert(state::output_ok(g.outputs[o]));
    assert(state::ws_ok(g.workspaces[o][from]));
    assert(state::ws_ok(g.workspaces[o][k as int]));
    let v = g.workspaces[o][from];
    let to = g.workspaces[o][k as int];
    let w = v.clients[c];
    stage::lemma_place_from(g.stage.space, w, 0);
    let at = stage::place_from(g.stage.space, w, 0);
    assert(moves_at_once(g, w) <==> (!g.motion_on() || at >= g.stage.space.len())) by {
        if at < g.stage.space.len() {
            assert(g.stage.space[at].window == w);
        }
    }
    let m = g.moved(w, o, from, o, k as int);
    laws::lemma_settled_frame(m);
    workspace::lemma_first_from(v.clients, w, 0);
    workspace::lemma_window_count(v.clients);
    workspace::lemma_window_count(to.clients);
    assert(workspace::first_index(v.clients, w) == c);
    assert(m.workspaces[o][k as int] == to.added(w, false));
    assert(m.workspaces[o][from] == v.removed(w));
}

// ---- Outputs ----------------------------------------------------------------

proof fn lemma_rank(order: Seq<usize>, x: usize, i: int, p: int)
    requires
        0 <= i <= p < order.len(),
        order[p] == x,
        forall|q: int| i <= q < p ==> #[trigger] order[q] != x,
    ensures
        actions::rank_from(order, x, i) == p,
    decreases p - i,
{
    if i < p {
        lemma_rank(order, x, i + 1, p);
    }
}

/// The keys for the monitors move the focus to the next output on the desk, or
/// the previous one, around the ends. No window moves and no view changes.
pub proof fn law_key_focuses_monitor(
    g: GateView,
    binds: Seq<BindConfig>,
    syms: Seq<u32>,
    mods: ModMask,
    i: int,
    p: int,
    step: int,
)
    requires
        g.wf(),
        g.outputs.len() > 1,
        answers(g, binds, syms, mods, i),
        (binds[i].action is FocusMonitorNext && step == 1) || (binds[i].action is FocusMonitorPrev
            && step == -1),
        0 <= p < g.order.len(),
        g.order[p] == g.focused_output,
        forall|q: int| 0 <= q < p ==> #[trigger] g.order[q] != g.focused_output,
    ensures
        ({
            let h = g.key_handled(syms, mods, true);
            let n = g.order.len() as int;
            &&& h.focused_output == g.order[(p + step + n) % n]
            &&& h == (GateView {
                stage: h.stage,
                keyboard_focus: h.keyboard_focus,
                focused_output: h.focused_output,
                ..g
            })
        }),
{
    lemma_answer(g, binds, syms, mods, i);
    reveal(GateView::monitor_focused);
    lemma_rank(g.order, g.focused_output, 0, p);
    let n = g.order.len() as int;
    vstd::arithmetic::div_mod::lemma_mod_add_multiples_vanish(p + step, n);
    let to = g.order[(p + step) % n];
    laws::lemma_settled_frame((GateView { focused_output: to, ..g }).bar_marked());
}

/// The keys for sending to a monitor take the focused window of the workspace
/// in view to the one that the next output on the desk shows, or the previous
/// one; it is the last window there and has the focus, which follows it.
pub proof fn law_key_sends_to_monitor(
    g: GateView,
    binds: Seq<BindConfig>,
    syms: Seq<u32>,
    mods: ModMask,
    i: int,
    p: int,
    step: int,
    c: int,
)
    requires
        g.wf(),
        g.outputs.len() > 1,
        answers(g, binds, syms, mods, i),
        (binds[i].action is SendMonitorNext && step == 1) || (binds[i].action is SendMonitorPrev
            && step == -1),
        0 <= p < g.order.len(),
        g.order[p] == g.focused_output,
        forall|q: int| 0 <= q < p ==> #[trigger] g.order[q] != g.focused_output,
        g.order[(p + step + g.order.len()) % (g.order.len() as int)] != g.focused_output,
        ({
            let v = front(g, None);
            0 <= c < v.clients.len() && v.focused == Some(c as usize)
        }),
    ensures
        ({
            let h = g.key_handled(syms, mods, true);
            let n = g.order.len() as int;
            let o = g.focused_output as int;
            let to = g.order[(p + step + n) % n] as int;
            let v = front(g, None);
            let target = g.workspaces[to][shown(g, to)];
            let w = v.clients[c];
            &&& h.focused_output == to
            &&& h.outputs == g.outputs
            &&& h.scratchpads == g.scratchpads
            &&& h.workspaces[o][shown(g, o)].clients == v.clients.remove(c)
            &&& h.workspaces[o][shown(g, o)].floating == v.floating.remove(c)
            &&& h.workspaces[to][shown(g, to)].clients == target.clients.push(w)
            &&& h.workspaces[to][shown(g, to)].floating == target.floating.push(false)
            &&& h.workspaces[to][shown(g, to)].focused_window() == Some(w)
            &&& forall|a: int, b: int|
                0 <= a < g.workspaces.len() && 0 <= b < WORKSPACE_COUNT && !(a == o && b == shown(
                    g,
                    o,
                )) && !(a == to && b == shown(g, to)) ==> #[trigger] h.workspaces[a][b]
                    == g.workspaces[a][b]
        }),
{
    lemma_answer(g, binds, syms, mods, i);
    reveal(GateView::monitor_sent);
    lemma_rank(g.order, g.focused_output, 0, p);
    let n = g.order.len() as int;
    vstd::arithmetic::div_mod::lemma_mod_add_multiples_vanish(p + step, n);
    vstd::arithmetic::div_mod::lemma_mod_bound(p + step + n, n);
    let to = g.order[(p + step + n) % n];
    let o = g.focused_output as int;
    let v = front(g, None);
    let w = v.clients[c];
    assert(to < g.outputs.len());
    assert(g.workspaces[o].len() == WORKSPACE_COUNT);
    assert(g.workspaces[to as int].len() == WORKSPACE_COUNT);
    assert(state::output_ok(g.outputs[o]));
    assert(state::output_ok(g.outputs[to as int]));
    assert(state::ws_ok(g.workspaces[o][shown(g, o)]));
    let target = g.workspaces[to as int][shown(g, to as int)];
    assert(state::ws_ok(target));
    let m = (GateView {
        focused_output: to,
        ..g.moved(w, o, shown(g, o), to as int, shown(g, to as int))
    }).bar_marked();
    laws::lemma_settled_frame(m);
    workspace::lemma_first_from(v.clients, w, 0);
    workspace::lemma_window_count(v.clients);
    workspace::lemma_window_count(target.clients);
    assert(workspace::first_index(v.clients, w) == c);
    assert(m.workspaces[to as int][shown(g, to as int)] == target.added(w, false));
    assert(m.workspaces[o][shown(g, o)] == v.removed(w));
}

/// The key for synchronisation turns it over. When it comes on, all outputs
/// show the workspace of the focused one. No window moves.
pub proof fn law_key_synchronises(
    g: GateView,
    binds: Seq<BindConfig>,
    syms: Seq<u32>,
    mods: ModMask,
    i: int,
)
    requires
        g.wf(),
        g.outputs.len() > 0,
        answers(g, binds, syms, mods, i),
        binds[i].action is ToggleSync,
    ensures
        ({
            let h = g.key_handled(syms, mods, true);
            let on = !g.config.general.sync_workspaces;
            let k = g.outputs[g.focused_output as int].current_ws;
            &&& h.config.general == (General { sync_workspaces: on, ..g.config.general })
            &&& h.workspaces == g.workspaces
            &&& h.scratchpads == g.scratchpads
            &&& h.focused_output == g.focused_output
            &&& h.outputs.len() == g.outputs.len()
            &&& on ==> h.current_ws == k
            &&& !on ==> h.current_ws == g.current_ws && h.outputs == g.outputs
            &&& on ==> forall|p: int|
                0 <= p < g.outputs.len() ==> (#[trigger] h.outputs[p]) == (OutputView {
                    current_ws: k,
                    ..g.outputs[p]
                })
        }),
{
    lemma_answer(g, binds, syms, mods, i);
    reveal(GateView::sync_toggled);
    let config = g.config.sync_toggled();
    let k = g.outputs[g.focused_output as int].current_ws;
    laws::lemma_settled_frame(
        GateView { config, current_ws: k, outputs: g.outputs_at(k), ..g },
    );
    laws::lemma_settled_frame(GateView { config, ..g });
}

// ---- Programs and the session -----------------------------------------------

proof fn lemma_command(cs: Seq<config::NamedCommand>, name: Seq<char>, i: int, c: int)
    requires
        0 <= i <= c < cs.len(),
        cs[c].name@ == name,
        forall|d: int| i <= d < c ==> (#[trigger] cs[d]).name@ != name,
    ensures
        config::command_from(cs, name, i) == Some(cs[c].line@),
    decreases c - i,
{
    if i < c {
        lemma_command(cs, name, i + 1, c);
    }
}

/// A key for a named command runs the first command with that name; a key for
/// a command line runs that line. Nothing else changes.
pub proof fn law_key_runs_command(
    g: GateView,
    binds: Seq<BindConfig>,
    syms: Seq<u32>,
    mods: ModMask,
    i: int,
    c: int,
)
    requires
        answers(g, binds, syms, mods, i),
        match binds[i].action {
            BindAction::Exec(line) => line@.len() > 0,
            BindAction::Spawn(name) => {
                &&& 0 <= c < g.config.commands@.len()
                &&& g.config.commands@[c].name@ == name@
                &&& g.config.commands@[c].line@.len() > 0
                &&& forall|d: int|
                    0 <= d < c ==> (#[trigger] g.config.commands@[d]).name@ != name@
            },
            _ => false,
        },
    ensures
        g.key_handled(syms, mods, true) == (GateView {
            spawns: g.spawns.push(
                match binds[i].action {
                    BindAction::Exec(line) => line@,
                    _ => g.config.commands@[c].line@,
                },
            ),
            ..g
        }),
{
    lemma_answer(g, binds, syms, mods, i);
    match binds[i].action {
        BindAction::Spawn(name) => {
            lemma_command(g.config.commands@, name@, 0, c);
        },
        _ => {},
    }
}

/// The keys for help, for reading the settings again, for leaving and for the
/// lock do just that. A lock that is on its way is on its way since now, its
/// program is started, and the screen is drawn again.
pub proof fn law_key_for_the_session(
    g: GateView,
    binds: Seq<BindConfig>,
    syms: Seq<u32>,
    mods: ModMask,
    i: int,
)
    requires
        answers(g, binds, syms, mods, i),
    ensures
        ({
            let h = g.key_handled(syms, mods, true);
            &&& binds[i].action is ShowKeybinds ==> h == (GateView {
                overlay_visible: !g.overlay_visible,
                stage: StageView { layout_dirty: true, ..g.stage },
                ..g
            })
            &&& binds[i].action is Reload ==> h == (GateView { reload_requested: true, ..g })
            &&& binds[i].action is Quit ==> h == (GateView { running: false, ..g })
            &&& binds[i].action is Lock ==> h == (GateView {
                lock_pending_since: Some(g.now_ns),
                spawns: g.spawns.push("kara-veil"@),
                stage: StageView { layout_dirty: true, bar_dirty: true, ..g.stage },
                ..g
            })
        }),
{
    lemma_answer(g, binds, syms, mods, i);
    reveal(GateView::locking);
    reveal_strlit("kara-veil");
}

// ---- Scratchpads ------------------------------------------------------------

/// Whether `s` is the first scratchpad whose settings have the name.
pub open spec fn pad_called(g: GateView, name: Seq<char>, s: int) -> bool {
    &&& 0 <= s < g.scratchpads.len() <= usize::MAX
    &&& g.scratchpads[s].config_idx < g.config.scratchpads@.len()
    &&& g.config.scratchpads@[g.scratchpads[s].config_idx as int].name@ == name
    &&& forall|t: int|
        0 <= t < s ==> !((#[trigger] g.scratchpads[t]).config_idx < g.config.scratchpads@.len()
            && g.config.scratchpads@[g.scratchpads[t].config_idx as int].name@ == name)
}

proof fn lemma_pad_called(g: GateView, name: Seq<char>, s: int, t: int)
    requires
        pad_called(g, name, s),
        0 <= t <= s,
    ensures
        g.scratchpad_named(name, t) == Some(s as usize),
    decreases s - t,
{
    if t < s {
        lemma_pad_called(g, name, s, t + 1);
    }
}

/// The key for a scratchpad hides the one with its name where it is visible on
/// the focused output, and otherwise shows it there. One that comes into view
/// takes the place of any other on that output. The key without a name is for
/// the scratchpad called main. No window changes its workspace, and no view
/// changes.
pub proof fn law_key_toggles_scratchpad(
    g: GateView,
    binds: Seq<BindConfig>,
    syms: Seq<u32>,
    mods: ModMask,
    i: int,
    s: int,
)
    requires
        g.wf(),
        answers(g, binds, syms, mods, i),
        match binds[i].action {
            BindAction::Scratchpad(Some(name)) => pad_called(g, name@, s),
            BindAction::Scratchpad(None) => pad_called(g, "main"@, s),
            _ => false,
        },
    ensures
        ({
            let h = g.key_handled(syms, mods, true);
            let here = g.scratchpads[s].visible && g.scratchpads[s].output_idx == g.focused_output;
            &&& h.scratchpads.len() == g.scratchpads.len()
            &&& h.scratchpads[s].visible == !here
            &&& !here ==> h.scratchpads[s].output_idx == g.focused_output && h.focused_scratchpad
                == Some(s as usize)
            &&& here ==> h.scratchpads[s].output_idx == g.scratchpads[s].output_idx
                && h.focused_scratchpad != Some(s as usize)
            &&& forall|t: int|
                0 <= t < g.scratchpads.len() ==> (#[trigger] h.scratchpads[t]).workspace
                    == g.scratchpads[t].workspace && h.scratchpads[t].config_idx
                    == g.scratchpads[t].config_idx && (t != s ==> h.scratchpads[t].output_idx
                    == g.scratchpads[t].output_idx)
            &&& forall|t: int|
                0 <= t < g.scratchpads.len() && t != s ==> (#[trigger] h.scratchpads[t]).visible
                    == (g.scratchpads[t].visible && !(!g.scratchpads[s].visible
                    && g.scratchpads[t].output_idx == g.focused_output))
            &&& h.workspaces == g.workspaces
            &&& h.outputs == g.outputs
            &&& h.focused_output == g.focused_output
            &&& h.current_ws == g.current_ws
        }),
{
    lemma_answer(g, binds, syms, mods, i);
    reveal(GateView::pad_toggled);
    let name = match binds[i].action {
        BindAction::Scratchpad(Some(name)) => name@,
        _ => "main"@,
    };
    lemma_pad_called(g, name, s, 0);
    let n = g.scratchpads.len() as int;
    // Moved from another output.
    let a = g.pad_shown(s);
    laws::lemma_settled_frame(a);
    laws::lemma_scratchpad_frame(a.laid_out(), s);
    laws::lemma_settled_frame(a.laid_out().scratchpad_laid(s));
    // Hidden.
    laws::lemma_settled_frame(g.pad_hidden(s).pad_borders_cleared());
    // Shown.
    laws::lemma_way_cleared(g, s, n);
    lemma_way_keeps(g, s, n);
    let cleared = g.way_cleared(s, n);
    let ready = if g.blocked(s) {
        cleared.pad_borders_cleared()
    } else {
        cleared
    };
    let shown0 = ready.pad_started(s).pad_shown(s);
    laws::lemma_settled_frame(shown0);
    laws::lemma_scratchpad_frame(shown0.laid_out(), s);
    let l = shown0.laid_out().scratchpad_laid(s);
    laws::lemma_settled_frame(
        l.animated_in(l.scratchpads[s].workspace.clients, SlideDirection::Auto),
    );
}

proof fn lemma_way_keeps(g: GateView, keep: int, n: int)
    ensures
        ({
            let h = g.way_cleared(keep, n);
            &&& h.workspaces == g.workspaces
            &&& h.outputs == g.outputs
            &&& h.current_ws == g.current_ws
            &&& h.spawns == g.spawns
        }),
    decreases n,
{
    if n > 0 {
        lemma_way_keeps(g, keep, n - 1);
    }
}

/// The first time that a scratchpad is shown, its commands are queued and the
/// first of them runs; later nothing runs.
pub proof fn law_scratchpad_starts_once(
    g: GateView,
    binds: Seq<BindConfig>,
    syms: Seq<u32>,
    mods: ModMask,
    i: int,
    s: int,
)
    requires
        g.wf(),
        answers(g, binds, syms, mods, i),
        binds[i].action matches BindAction::Scratchpad(Some(name)) && pad_called(g, name@, s),
        !g.scratchpads[s].visible,
        s < g.config.scratchpads@.len(),
    ensures
        ({
            let h = g.key_handled(syms, mods, true);
            let cmds = g.config.scratchpads@[s].autostart@;
            &&& h.scratchpads[s].started
            &&& g.scratchpads[s].started ==> h.spawns == g.spawns
                && h.scratchpads[s].autostart_remaining == g.scratchpads[s].autostart_remaining
            &&& !g.scratchpads[s].started && cmds.len() > 0 && cmds[0]@.len() > 0 ==> h.spawns
                == g.spawns.push(cmds[0]@) && h.scratchpads[s].autostart_remaining.len()
                == cmds.len() && forall|k: int|
                0 <= k < cmds.len() ==> (#[trigger] h.scratchpads[s].autostart_remaining[k])
                    == cmds[k]@
            &&& !g.scratchpads[s].started && cmds.len() == 0 ==> h.spawns == g.spawns
        }),
{
    lemma_answer(g, binds, syms, mods, i);
    let name = binds[i].action->Scratchpad_0->0@;
    lemma_pad_called(g, name, s, 0);
    lemma_started(g, name, s);
    let cmds = g.config.scratchpads@[s].autostart@;
    assert(text::views(cmds).len() == cmds.len());
    assert forall|k: int| 0 <= k < cmds.len() implies #[trigger] text::views(cmds)[k]
        == cmds[k]@ by {}
}

/// What is left of a scratchpad that comes into view once it has been laid out.
proof fn lemma_started(g: GateView, name: Seq<char>, s: int)
    requires
        g.scratchpad_named(name, 0) == Some(s as usize),
        0 <= s < g.scratchpads.len() <= usize::MAX,
        !g.scratchpads[s].visible,
        s < g.config.scratchpads@.len(),
    ensures
        ({
            let h = g.pad_toggled(name);
            let cmds = text::views(g.config.scratchpads@[s].autostart@);
            &&& g.scratchpads[s].started ==> h.spawns == g.spawns
            &&& !g.scratchpads[s].started && cmds.len() == 0 ==> h.spawns == g.spawns
            &&& !g.scratchpads[s].started && cmds.len() > 0 ==> h.spawns == actions::spawned(
                g.spawns,
                cmds[0],
            )
            &&& h.scratchpads[s].started
            &&& h.scratchpads[s].autostart_remaining == (if g.scratchpads[s].started || cmds.len()
                == 0 {
                g.scratchpads[s].autostart_remaining
            } else {
                cmds
            })
        }),
{
    reveal(GateView::pad_toggled);
    let n = g.scratchpads.len() as int;
    laws::lemma_way_cleared(g, s, n);
    lemma_way_keeps(g, s, n);
    let cleared = g.way_cleared(s, n);
    let ready = if g.blocked(s) {
        cleared.pad_borders_cleared()
    } else {
        cleared
    };
    let begun = ready.pad_started(s).pad_shown(s);
    laws::lemma_settled_frame(begun);
    laws::lemma_scratchpad_frame(begun.laid_out(), s);
    let l = begun.laid_out().scratchpad_laid(s);
    let m = l.animated_in(l.scratchpads[s].workspace.clients, SlideDirection::Auto);
    laws::lemma_settled_frame(m);
    assert(g.pad_toggled(name) == m.focus_applied());
    assert(m.scratchpads == begun.scratchpads);
    assert(m.spawns == begun.spawns);
    assert(ready.scratchpads[s] == g.scratchpads[s]);
}

// ---- What is seen to move ---------------------------------------------------

/// Whether the settings let windows be seen to slide.
pub open spec fn slides(g: GateView) -> bool {
    g.config.animations.preset == AnimationPreset::Swoosh && g.config.animations.duration_ms > 0
}

proof fn lemma_coming_in(g: GateView, ws: Seq<WindowId>, direction: SlideDirection, c: int) -> (i: int)
    requires
        slides(g),
        ws.no_duplicates(),
        0 <= c < ws.len(),
        stage::place_of(g.stage.space, ws[c]) is Some,
        direction != SlideDirection::Auto,
    ensures
        ({
            let s = g.coming_in(ws, direction);
            &&& 0 <= i < s.len()
            &&& s[i].window == ws[c]
            &&& s[i].start_ns == g.now_ns
            &&& s[i].to_offset.dx == 0 && s[i].to_offset.dy == 0
            &&& s[i].from_offset.dx == (if direction == SlideDirection::Right {
                60int
            } else {
                -60
            })
            &&& !s[i].unmap_on_complete
        }),
    decreases ws.len(),
{
    let t = ws.drop_last();
    let rest = g.coming_in(t, direction);
    let s = g.coming_in(ws, direction);
    if c == ws.len() - 1 {
        let p = stage::place_of(g.stage.space, ws[c])->0;
        stage::lemma_place_from(g.stage.space, ws[c], 0);
        let a = g.motion(p, direction).coming(g.now_ns);
        assert(s == crate::gate::animation::started(rest, a));
        s.len() - 1
    } else {
        assert(t.no_duplicates()) by {
            assert forall|a: int, b: int| 0 <= a < t.len() && 0 <= b < t.len() && a != b implies t[a]
                != t[b] by {
                assert(ws[a] != ws[b]);
            }
        }
        let j = lemma_coming_in(g, t, direction, c);
        match stage::place_of(g.stage.space, ws.last()) {
            Some(p) => {
                stage::lemma_place_from(g.stage.space, ws.last(), 0);
                let a = g.motion(p, direction).coming(g.now_ns);
                let x = rest[j];
                assert(ws[c] != ws[ws.len() - 1]);
                assert(rest.contains(x));
                crate::gate::animation::law_starting_leaves_the_others(rest, a);
                assert(s.contains(x));
                choose|i: int| 0 <= i < s.len() && s[i] == x
            },
            None => j,
        }
    }
}

/// The windows of a workspace that comes into view slide in from the side on
/// which it lies: from the right for one with a higher number, else from the
/// left.
pub proof fn law_view_slides_from_its_side(
    g: GateView,
    binds: Seq<BindConfig>,
    syms: Seq<u32>,
    mods: ModMask,
    i: int,
    k: usize,
    c: int,
)
    requires
        g.wf(),
        g.outputs.len() > 0,
        slides(g),
        answers(g, binds, syms, mods, i),
        binds[i].action == BindAction::ViewWs(k),
        k < WORKSPACE_COUNT,
        k != shown(g, g.focused_output as int),
        ({
            let w = g.workspaces[g.focused_output as int][k as int].clients[c];
            &&& 0 <= c < g.workspaces[g.focused_output as int][k as int].clients.len()
            &&& stage::place_of(g.key_handled(syms, mods, true).stage.space, w) is Some
        }),
    ensures
        ({
            let h = g.key_handled(syms, mods, true);
            let w = g.workspaces[g.focused_output as int][k as int].clients[c];
            exists|j: int|
                0 <= j < h.animations.len() && (#[trigger] h.animations[j]).window == w
                    && h.animations[j].start_ns == g.now_ns && h.animations[j].to_offset.dx == 0
                    && h.animations[j].from_offset.dx == (if k > shown(
                    g,
                    g.focused_output as int,
                ) {
                    60int
                } else {
                    -60
                })
        }),
{
    lemma_answer(g, binds, syms, mods, i);
    reveal(GateView::viewed);
    let o = g.focused_output as int;
    let v = g.viewing(k);
    laws::lemma_settled_frame(v);
    let m = v.settled();
    assert(g.workspaces[o].len() == WORKSPACE_COUNT);
    assert(state::ws_ok(g.workspaces[o][k as int]));
    assert(m.front_ws() == g.workspaces[o][k as int]);
    let j = lemma_coming_in(m, m.front_ws().clients, g.toward(k as int), c);
    assert(g.key_handled(syms, mods, true).animations[j].window
        == g.workspaces[o][k as int].clients[c]);
}

/// A window that is sent to another workspace and seen to move slides out to the
/// side on which that workspace lies, and leaves the screen at the end.
pub proof fn law_sent_window_slides_to_its_side(
    g: GateView,
    binds: Seq<BindConfig>,
    syms: Seq<u32>,
    mods: ModMask,
    i: int,
    k: usize,
    c: int,
)
    requires
        g.wf(),
        g.outputs.len() > 0,
        slides(g),
        answers(g, binds, syms, mods, i),
        binds[i].action == BindAction::SendWs(k),
        k < WORKSPACE_COUNT,
        k != shown(g, g.focused_output as int),
        ({
            let v = front(g, None);
            &&& 0 <= c < v.clients.len() && v.focused == Some(c as usize)
            &&& stage::place_of(g.stage.space, v.clients[c]) is Some
        }),
    ensures
        ({
            let h = g.key_handled(syms, mods, true);
            let a = h.animations.last();
            &&& h.animations.len() > 0
            &&& a.window == front(g, None).clients[c]
            &&& a.start_ns == g.now_ns
            &&& a.from_offset.dx == 0 && a.from_offset.dy == 0
            &&& a.to_offset.dx == (if k > shown(g, g.focused_output as int) {
                60int
            } else {
                -60
            })
            &&& a.unmap_on_complete
            &&& h.stage == g.stage
        }),
{
    lemma_answer(g, binds, syms, mods, i);
    reveal(GateView::sent);
    let o = g.focused_output as int;
    assert(g.workspaces[o].len() == WORKSPACE_COUNT);
    assert(state::output_ok(g.outputs[o]));
    assert(state::ws_ok(g.workspaces[o][shown(g, o)]));
    workspace::lemma_window_count(front(g, None).clients);
    let w = front(g, None).clients[c];
    assert(g.front_ws().focused_window() == Some(w));
    stage::lemma_place_from(g.stage.space, w, 0);
    assert(g.motion_on());
    let p = stage::place_of(g.stage.space, w)->0;
    let a = g.motion(p, g.toward(k as int)).going(g.now_ns, true);
    assert(g.key_handled(syms, mods, true).animations == crate::gate::animation::started(
        g.animations,
        a,
    ));
}

} // verus!
