use vstd::prelude::*;

use crate::frame::FrameRecord;
use crate::table::{AggEntry, AggTable, sort_by_id, spec_record};

verus! {

/// How long each redraw holds the screen before the next one may be issued,
/// in microseconds: about sixty redraws per second.
pub const RENDER_INTERVAL_MICROS: u64 = 16666;

/// A keyboard key, reduced to what the dashboard reacts to.
pub enum KeySym {
    Up,
    Down,
    Esc,
    Printable(char),
    Other,
}

/// One keyboard event as handed in by the input source: the key, whether the
/// control modifier was held, and whether this is a press (as opposed to a
/// release or a repeat).
pub struct KeyInput {
    pub sym: KeySym,
    pub ctrl: bool,
    pub press: bool,
}

/// What one keyboard event asks the dashboard to do.
#[derive(PartialEq, Eq, Structural)]
pub enum Action {
    Quit,
    TogglePause,
    ScrollUp,
    ScrollDown,
    SortByKey,
    Clear,
    NoOp,
}

/// The control action a keyboard event maps to. Only presses act; releases
/// and repeats, and keys outside the table below, do nothing.
pub open spec fn spec_action(k: KeyInput) -> Action {
    if !k.press {
        Action::NoOp
    } else {
        match k.sym {
            KeySym::Up => Action::ScrollUp,
            KeySym::Down => Action::ScrollDown,
            KeySym::Esc => Action::Quit,
            KeySym::Printable(c) => {
                if c == 'q' || (k.ctrl && (c == 'c' || c == 'C')) {
                    Action::Quit
                } else if c == 'p' || c == 'P' || c == ' ' {
                    Action::TogglePause
                } else if c == 's' || c == 'S' {
                    Action::SortByKey
                } else if c == 'c' || c == 'C' {
                    Action::Clear
                } else {
                    Action::NoOp
                }
            },
            KeySym::Other => Action::NoOp,
        }
    }
}

pub fn action_for(k: &KeyInput) -> (a: Action)
    ensures
        a == spec_action(*k),
{
    if !k.press {
        return Action::NoOp;
    }
    match k.sym {
        KeySym::Up => Action::ScrollUp,
        KeySym::Down => Action::ScrollDown,
        KeySym::Esc => Action::Quit,
        KeySym::Printable(c) => {
            if c == 'q' || (k.ctrl && (c == 'c' || c == 'C')) {
                Action::Quit
            } else if c == 'p' || c == 'P' || c == ' ' {
                Action::TogglePause
            } else if c == 's' || c == 'S' {
                Action::SortByKey
            } else if c == 'c' || c == 'C' {
                Action::Clear
            } else {
                Action::NoOp
            }
        },
        KeySym::Other => Action::NoOp,
    }
}

/// One frame-source event: either a decoded frame or a transport failure
/// (which the dashboard only notes and otherwise ignores).
pub enum FrameEvent {
    Received(FrameRecord),
    TransportFailure,
}

/// The mathematical image of the dashboard state.
pub struct CoreModel {
    pub running: bool,
    pub paused: bool,
    pub scroll_offset: u16,
    pub entries: Seq<((u32, usize), AggEntry)>,
}

/// The dashboard state that the event loop owns: the liveness and pause
/// flags, the scroll position, and the aggregation table.
pub struct AppCore {
    pub running: bool,
    pub paused: bool,
    pub scroll_offset: u16,
    pub table: AggTable,
}

impl View for AppCore {
    type V = CoreModel;

    open spec fn view(&self) -> CoreModel {
        CoreModel {
            running: self.running,
            paused: self.paused,
            scroll_offset: self.scroll_offset,
            entries: self.table@,
        }
    }
}

/// The state after one control action has been applied.
pub open spec fn spec_apply(m: CoreModel, a: Action) -> CoreModel {
    match a {
        Action::Quit => CoreModel { running: false, ..m },
        Action::TogglePause => CoreModel { paused: !m.paused, ..m },
        Action::ScrollUp => CoreModel {
            scroll_offset: if m.scroll_offset > 0 {
                (m.scroll_offset - 1) as u16
            } else {
                0
            },
            ..m
        },
        Action::ScrollDown => CoreModel {
            scroll_offset: if m.scroll_offset < u16::MAX {
                (m.scroll_offset + 1) as u16
            } else {
                u16::MAX
            },
            ..m
        },
        Action::SortByKey => CoreModel { entries: sort_by_id(m.entries), ..m },
        Action::Clear => CoreModel {
            scroll_offset: 0,
            entries: Seq::<((u32, usize), AggEntry)>::empty(),
            ..m
        },
        Action::NoOp => m,
    }
}

/// The state after one frame-source event. A failure changes nothing; a
/// received frame changes nothing while the dashboard is paused, and is
/// folded into the table otherwise.
pub open spec fn spec_step_frame(m: CoreModel, ev: FrameEvent, now_micros: u64) -> CoreModel {
    match ev {
        FrameEvent::Received(f) => {
            if m.paused {
                m
            } else {
                CoreModel { entries: spec_record(m.entries, f, now_micros), ..m }
            }
        },
        FrameEvent::TransportFailure => m,
    }
}

/// A redraw is due when none has happened yet, or when at least the render
/// interval has elapsed since the previous one.
pub open spec fn spec_should_redraw(last_render: Option<u64>, now_micros: u64, interval: u64) -> bool {
    match last_render {
        None => true,
        Some(l) => crate::table::sat_sub64(now_micros, l) >= interval,
    }
}

pub fn should_redraw(last_render: Option<u64>, now_micros: u64, interval: u64) -> (r: bool)
    ensures
        r == spec_should_redraw(last_render, now_micros, interval),
{
    match last_render {
        None => true,
        Some(l) => {
            let elapsed: u64 = if now_micros >= l {
                now_micros - l
            } else {
                0
            };
            elapsed >= interval
        },
    }
}

impl AppCore {
    /// A fresh dashboard: not yet running, not paused, unscrolled, with an
    /// empty table.
    pub fn new() -> (c: AppCore)
        ensures
            c@ == (CoreModel {
                running: false,
                paused: false,
                scroll_offset: 0,
                entries: Seq::<((u32, usize), AggEntry)>::empty(),
            }),
    {
        AppCore { running: false, paused: false, scroll_offset: 0, table: AggTable::new() }
    }

    /// Enter the event loop: the dashboard is live until a quit action.
    pub fn start(&mut self)
        ensures
            final(self)@ == (CoreModel { running: true, ..old(self)@ }),
    {
        self.running = true;
    }

    /// Leave the event loop.
    pub fn quit(&mut self)
        ensures
            final(self)@ == (CoreModel { running: false, ..old(self)@ }),
    {
        self.running = false;
    }

    /// Apply the control action of one keyboard event, per the action table:
    /// quit, pause toggle, scroll step, stable re-sort by identifier, or a
    /// full clear; anything else is a no-op. Returns the action so that the
    /// caller can reset its clock on a clear.
    pub fn handle_key(&mut self, key: KeyInput) -> (a: Action)
        ensures
            a == spec_action(key),
            final(self)@ == spec_apply(old(self)@, spec_action(key)),
    {
        let a = action_for(&key);
        match a {
            Action::Quit => self.running = false,
            Action::TogglePause => self.paused = !self.paused,
            Action::ScrollUp => {
                if self.scroll_offset > 0 {
                    self.scroll_offset = self.scroll_offset - 1;
                }
            },
            Action::ScrollDown => {
                if self.scroll_offset < u16::MAX {
                    self.scroll_offset = self.scroll_offset + 1;
                }
            },
            Action::SortByKey => self.table.sort_by_identifier(),
            Action::Clear => {
                self.table.clear();
                self.scroll_offset = 0;
            },
            Action::NoOp => {},
        }
        a
    }

    /// Clamp the stored scroll offset down — never up — to the largest offset
    /// that the current line count and viewport height allow.
    pub fn clamp_scroll(&mut self, total_lines: usize, viewport_height: u16)
        ensures
            final(self)@ == (CoreModel {
                scroll_offset: if old(self).scroll_offset as int <= crate::render::spec_max_scroll(
                    total_lines as int,
                    viewport_height as int,
                ) {
                    old(self).scroll_offset
                } else {
                    crate::render::spec_max_scroll(
                        total_lines as int,
                        viewport_height as int,
                    ) as u16
                },
                ..old(self)@
            }),
    {
        let m = crate::render::max_scroll(total_lines, viewport_height);
        if self.scroll_offset > m {
            self.scroll_offset = m;
        }
    }

    /// Dispatch one frame-source event: a received frame is recorded unless
    /// the dashboard is paused (a frame arriving during a pause is dropped,
    /// never counted later); a transport failure is ignored. View state is
    /// never touched.
    pub fn handle_frame_event(&mut self, ev: FrameEvent, now_micros: u64)
        ensures
            final(self)@ == spec_step_frame(old(self)@, ev, now_micros),
    {
        match ev {
            FrameEvent::Received(f) => {
                if !self.paused {
                    self.table.record(f, now_micros);
                }
            },
            FrameEvent::TransportFailure => {},
        }
    }
}

} // verus!
