//! A selection in progress: the surfaces that it is shown on, and what the
//! keys and the pointer do.

use vstd::prelude::*;

use crate::geometry::Rect;
use crate::glimpse::overlay;
use crate::glimpse::overlay::clip_global_to_local;
use crate::glimpse::selection;
use crate::glimpse::selection::{SelectionState, UNITS};
use crate::ipc::message::WindowGeometry;

verus! {

/// A surface that covers an output.
#[derive(Clone, Copy, Debug, PartialEq, Eq, Structural)]
pub struct Surface {
    pub width: u32,
    pub height: u32,
    /// Where its corner is on the desktop.
    pub origin_x: i32,
    pub origin_y: i32,
    pub configured: bool,
    /// What was highlighted when it was last drawn; `None` before that.
    pub last_highlight: Option<Rect>,
}

#[derive(Clone, Copy, Debug, PartialEq, Eq, Structural)]
pub enum Key {
    Escape,
    Return,
    Other,
}

/// What is to be drawn after an event.
#[derive(Clone, Copy, Debug, PartialEq, Eq, Structural)]
pub enum Redraw {
    Nothing,
    One(usize),
    All,
}

/// The button with which is selected.
pub const LEFT_BUTTON: u32 = 0x110;

/// The button with which is given up.
pub const RIGHT_BUTTON: u32 = 0x111;

/// A selection in progress.
#[derive(Debug)]
pub struct Session {
    pub exit: bool,
    pub confirmed: bool,
    pub first_configure: bool,
    pub surfaces: Vec<Surface>,
    /// The surface that the pointer is on.
    pub pointer_surface: Option<usize>,
    pub windows: Vec<WindowGeometry>,
    pub selection: SelectionState,
}

/// Whether a surface fits pixel arithmetic.
pub open spec fn surface_ok(s: Surface) -> bool {
    &&& s.width <= 0x4000_0000
    &&& s.height <= 0x4000_0000
    &&& -0x1000_0000 <= s.origin_x <= 0x1000_0000
    &&& -0x1000_0000 <= s.origin_y <= 0x1000_0000
}

/// Whether all surfaces have a size.
pub open spec fn all_configured(ss: Seq<Surface>) -> bool {
    forall|i: int| 0 <= i < ss.len() ==> (#[trigger] ss[i]).configured
}

impl Session {
    pub open spec fn wf(self) -> bool {
        &&& self.selection.wf()
        &&& forall|i: int| 0 <= i < self.surfaces@.len() ==> surface_ok(#[trigger] self.surfaces@[i])
        &&& self.pointer_surface matches Some(i) ==> i < self.surfaces@.len()
    }

    /// The session before anything has happened.
    pub fn new(surfaces: Vec<Surface>, windows: Vec<WindowGeometry>, desktop: Rect) -> (s: Session)
        requires
            forall|i: int| 0 <= i < surfaces@.len() ==> surface_ok(#[trigger] surfaces@[i]),
            -0x1000_0000 <= desktop.x <= 0x1000_0000,
            -0x1000_0000 <= desktop.y <= 0x1000_0000,
        ensures
            s.wf(),
            !s.exit,
            !s.confirmed,
            s.first_configure,
            s.surfaces@ == surfaces@,
            s.pointer_surface is None,
            s.windows == windows,
            s.selection.target == s.selection.screen(),
            s.selection.mode == selection::Mode::Hover,
            s.selection.pointer_x == desktop.x * UNITS,
            s.selection.pointer_y == desktop.y * UNITS,
            s.selection.screen_x == desktop.x,
            s.selection.screen_y == desktop.y,
            s.selection.screen_w == desktop.w,
            s.selection.screen_h == desktop.h,
    {
        let mut sel: SelectionState = SelectionState::new(
            desktop.x,
            desktop.y,
            desktop.w,
            desktop.h,
        );
        sel.pointer_x = desktop.x as i64 * UNITS;
        sel.pointer_y = desktop.y as i64 * UNITS;
        Session {
            exit: false,
            confirmed: false,
            first_configure: true,
            surfaces,
            pointer_surface: None,
            windows,
            selection: sel,
        }
    }

    fn is_ready(&self) -> (r: bool)
        ensures
            r == all_configured(self.surfaces@),
    {
        let mut i: usize = 0;
        while i < self.surfaces.len()
            invariant
                i <= self.surfaces.len(),
                forall|k: int| 0 <= k < i ==> (#[trigger] self.surfaces@[k]).configured,
            decreases self.surfaces.len() - i,
        {
            if !self.surfaces[i].configured {
                assert(!self.surfaces@[i as int].configured);
                return false;
            }
            i = i + 1;
        }
        true
    }

    /// A surface gets its size. With the last of them everything is drawn for
    /// the first time.
    pub fn configure(&mut self, idx: usize, w: u32, h: u32) -> (redraw: Redraw)
        requires
            old(self).wf(),
            idx < old(self).surfaces@.len(),
            w <= 0x4000_0000,
            h <= 0x4000_0000,
        ensures
            final(self).wf(),
            final(self).surfaces@ == (if w > 0 && h > 0 {
                old(self).surfaces@.update(
                    idx as int,
                    Surface {
                        width: w,
                        height: h,
                        configured: true,
                        ..old(self).surfaces@[idx as int]
                    },
                )
            } else {
                old(self).surfaces@
            }),
            ({
                let first = old(self).first_configure && all_configured(final(self).surfaces@);
                &&& final(self).first_configure == (old(self).first_configure && !first)
                &&& redraw == (if first {
                    Redraw::All
                } else if !old(self).first_configure {
                    Redraw::One(idx)
                } else {
                    Redraw::Nothing
                })
                &&& final(self).selection == (if first {
                    SelectionState {
                        target: old(self).selection.target_among(old(self).windows@),
                        ..old(self).selection
                    }
                } else {
                    old(self).selection
                })
            }),
            final(self).exit == old(self).exit,
            final(self).confirmed == old(self).confirmed,
            final(self).windows == old(self).windows,
            final(self).pointer_surface == old(self).pointer_surface,
    {
        if w > 0 && h > 0 {
            let mut s: Surface = self.surfaces[idx];
            assert(surface_ok(self.surfaces@[idx as int]));
            s.width = w;
            s.height = h;
            s.configured = true;
            self.surfaces.set(idx, s);
        }
        let ready: bool = self.is_ready();
        if self.first_configure && ready {
            self.first_configure = false;
            self.selection.update_hover(&self.windows);
            Redraw::All
        } else if !self.first_configure {
            Redraw::One(idx)
        } else {
            Redraw::Nothing
        }
    }

    /// What to draw on a surface: the highlighted rectangle seen from its
    /// corner. `None` where it has no size yet or nothing has changed.
    pub fn draw(&mut self, idx: usize) -> (out: Option<Rect>)
        requires
            old(self).wf(),
            idx < old(self).surfaces@.len(),
        ensures
            final(self).wf(),
            ({
                let s = old(self).surfaces@[idx as int];
                let local = overlay::clipped(
                    old(self).selection.highlighted(),
                    s.origin_x as int,
                    s.origin_y as int,
                    s.width as int,
                    s.height as int,
                );
                if s.configured && s.width > 0 && s.height > 0 && s.last_highlight != Some(local) {
                    &&& out == Some(local)
                    &&& final(self).surfaces@ == old(self).surfaces@.update(
                        idx as int,
                        Surface { last_highlight: Some(local), ..s },
                    )
                } else {
                    &&& out is None
                    &&& final(self).surfaces@ == old(self).surfaces@
                }
            }),
            final(self).exit == old(self).exit,
            final(self).confirmed == old(self).confirmed,
            final(self).first_configure == old(self).first_configure,
            final(self).pointer_surface == old(self).pointer_surface,
            final(self).windows == old(self).windows,
            final(self).selection == old(self).selection,
            out matches Some(r) ==> 0 <= r.w && 0 <= r.h,
    {
        let mut s: Surface = self.surfaces[idx];
        assert(surface_ok(self.surfaces@[idx as int]));
        if !s.configured || s.width == 0 || s.height == 0 {
            return None;
        }
        let global: Rect = self.selection.highlight_rect();
        let local: Rect = clip_global_to_local(
            global,
            s.origin_x,
            s.origin_y,
            s.width as i32,
            s.height as i32,
        );
        match s.last_highlight {
            Some(r) => {
                if r == local {
                    return None;
                }
            },
            None => {},
        }
        s.last_highlight = Some(local);
        self.surfaces.set(idx, s);
        Some(local)
    }

    /// The pointer moves on a surface, or onto it where `enters`. Its place is
    /// given in units, seen from the corner of the surface. Where the surface
    /// is not known, the one counts that it was last on.
    pub fn pointer_at(&mut self, surface: Option<usize>, enters: bool, lx: i64, ly: i64) -> (redraw:
        Redraw)
        requires
            old(self).wf(),
            surface matches Some(i) ==> i < old(self).surfaces@.len(),
            -0x10_0000_0000 <= lx <= 0x10_0000_0000,
            -0x10_0000_0000 <= ly <= 0x10_0000_0000,
        ensures
            final(self).wf(),
            final(self).pointer_surface == (if enters {
                surface
            } else {
                old(self).pointer_surface
            }),
            ({
                let at = if enters || surface is Some {
                    surface
                } else {
                    old(self).pointer_surface
                };
                match at {
                    Some(i) => {
                        let s = old(self).surfaces@[i as int];
                        let moved = SelectionState {
                            pointer_x: (lx + s.origin_x * UNITS) as i64,
                            pointer_y: (ly + s.origin_y * UNITS) as i64,
                            ..old(self).selection
                        };
                        &&& redraw == Redraw::All
                        &&& final(self).selection == (SelectionState {
                            target: moved.target_among(old(self).windows@),
                            ..moved
                        })
                    },
                    None => redraw == Redraw::Nothing && final(self).selection
                        == old(self).selection,
                }
            }),
            final(self).surfaces@ == old(self).surfaces@,
            final(self).exit == old(self).exit,
            final(self).confirmed == old(self).confirmed,
            final(self).first_configure == old(self).first_configure,
            final(self).windows == old(self).windows,
    {
        let at: Option<usize> = match surface {
            Some(i) => Some(i),
            None => {
                if enters {
                    None
                } else {
                    self.pointer_surface
                }
            },
        };
        if enters {
            self.pointer_surface = surface;
        }
        match at {
            Some(i) => {
                assert(surface_ok(self.surfaces@[i as int]));
                self.selection.pointer_x = lx + self.surfaces[i].origin_x as i64 * UNITS;
                self.selection.pointer_y = ly + self.surfaces[i].origin_y as i64 * UNITS;
                self.selection.update_hover(&self.windows);
                Redraw::All
            },
            None => Redraw::Nothing,
        }
    }

    /// The pointer leaves the surfaces.
    pub fn pointer_left(&mut self)
        requires
            old(self).wf(),
        ensures
            final(self).wf(),
            *final(self) == (Session { pointer_surface: None, ..*old(self) }),
    {
        self.pointer_surface = None;
    }

    /// A button goes down or up.
    pub fn button(&mut self, button: u32, pressed: bool)
        requires
            old(self).wf(),
        ensures
            final(self).wf(),
            *final(self) == (if pressed && button == LEFT_BUTTON {
                Session {
                    selection: SelectionState {
                        mode: selection::Mode::Dragging {
                            start_x: old(self).selection.pointer_x,
                            start_y: old(self).selection.pointer_y,
                        },
                        ..old(self).selection
                    },
                    ..*old(self)
                }
            } else if !pressed && button == LEFT_BUTTON {
                Session { confirmed: true, exit: true, ..*old(self) }
            } else if !pressed && button == RIGHT_BUTTON {
                Session { exit: true, ..*old(self) }
            } else {
                *old(self)
            }),
    {
        if pressed {
            if button == LEFT_BUTTON {
                self.selection.start_press();
            }
        } else if button == LEFT_BUTTON {
            self.confirmed = true;
            self.exit = true;
        } else if button == RIGHT_BUTTON {
            self.exit = true;
        }
    }

    /// A key goes down.
    pub fn key(&mut self, key: Key)
        requires
            old(self).wf(),
        ensures
            final(self).wf(),
            *final(self) == (match key {
                Key::Escape => Session { exit: true, ..*old(self) },
                Key::Return => Session { confirmed: true, exit: true, ..*old(self) },
                Key::Other => *old(self),
            }),
    {
        match key {
            Key::Escape => {
                self.exit = true;
            },
            Key::Return => {
                self.confirmed = true;
                self.exit = true;
            },
            Key::Other => {},
        }
    }
}

} // verus!
