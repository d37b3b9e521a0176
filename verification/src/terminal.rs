//! Terminal events, the queue a subscriber reads them from, and how a
//! terminal decides to stop on Ctrl-C.
use vstd::prelude::*;
use std::collections::VecDeque;
use crate::event::{KeyCode, KeyEventKind, KeyModifiers, MouseEventKind};
use crate::event;

verus! {

/// An event fired when a key is pressed.
#[derive(Clone, Copy, Debug, PartialEq, Eq, Structural)]
pub struct KeyEvent {
    /// A code indicating the key that was pressed.
    pub code: KeyCode,
    /// The modifiers that were active when the key was pressed.
    pub modifiers: KeyModifiers,
    /// Whether the key was pressed or released.
    pub kind: KeyEventKind,
}

impl KeyEvent {
    /// Creates a new `KeyEvent` with no modifiers.
    pub fn new(kind: KeyEventKind, code: KeyCode) -> (r: KeyEvent)
        ensures
            r.code == code,
            r.kind == kind,
            r.modifiers.spec_bits() == 0,
    {
        KeyEvent { code, modifiers: KeyModifiers::empty(), kind }
    }
}

/// An event fired when the mouse is moved, clicked, scrolled, etc. in
/// fullscreen mode.
#[derive(Clone, Copy, Debug, PartialEq, Eq, Structural)]
pub struct FullscreenMouseEvent {
    /// The modifiers that were active when the event occurred.
    pub modifiers: KeyModifiers,
    /// The column that the event occurred on.
    pub column: u16,
    /// The row that the event occurred on.
    pub row: u16,
    /// The kind of mouse event.
    pub kind: MouseEventKind,
}

impl FullscreenMouseEvent {
    /// Creates a new `FullscreenMouseEvent` with no modifiers.
    pub fn new(kind: MouseEventKind, column: u16, row: u16) -> (r: FullscreenMouseEvent)
        ensures
            r.kind == kind,
            r.column == column,
            r.row == row,
            r.modifiers.spec_bits() == 0,
    {
        FullscreenMouseEvent { modifiers: KeyModifiers::empty(), column, row, kind }
    }
}

/// An event fired by the terminal.
#[derive(Debug)]
pub enum TerminalEvent {
    /// A key event, fired when a key is pressed.
    Key(KeyEvent),
    /// A mouse event, fired when the mouse is moved, clicked, scrolled, etc.
    /// in fullscreen mode.
    FullscreenMouse(FullscreenMouseEvent),
    /// A resize event, fired when the terminal is resized.
    Resize(u16, u16),
    /// A bracketed paste: the pasted text, delivered in one chunk.
    Paste(String),
}

/// A queue of terminal events, read by one subscriber in the order they
/// were delivered.
pub struct TerminalEvents {
    pending: VecDeque<TerminalEvent>,
}

impl TerminalEvents {
    /// The events not yet read, oldest first.
    pub closed spec fn pending_v(&self) -> Seq<TerminalEvent> {
        self.pending@
    }

    /// An empty queue.
    pub fn new() -> (r: TerminalEvents)
        ensures
            r.pending_v() == Seq::<TerminalEvent>::empty(),
    {
        TerminalEvents { pending: VecDeque::new() }
    }

    /// Delivers an event to the queue.
    pub fn push_back(&mut self, event: TerminalEvent)
        ensures
            final(self).pending_v() == old(self).pending_v().push(event),
    {
        self.pending.push_back(event);
    }

    /// Reads the oldest event not yet read, if any.
    pub fn next_event(&mut self) -> (r: Option<TerminalEvent>)
        ensures
            old(self).pending_v().len() == 0 ==> r is None && final(self).pending_v() == old(self).pending_v(),
            old(self).pending_v().len() > 0 ==> r == Some(old(self).pending_v()[0])
                && final(self).pending_v() == old(self).pending_v().drop_first(),
    {
        self.pending.pop_front()
    }
}

/// Whether an event is Ctrl-C: a press of the `c` key with exactly the
/// control modifier.
pub open spec fn is_ctrl_c(event: TerminalEvent) -> bool {
    event matches TerminalEvent::Key(k) && k.code == KeyCode::Char('c') && k.kind == KeyEventKind::Press
        && k.modifiers.spec_bits() == event::CONTROL_BIT
}

/// What a terminal does with the events it receives: whether Ctrl-C was
/// received, and whether it is ignored.
pub struct CtrlCState {
    received: bool,
    ignore: bool,
}

impl CtrlCState {
    /// Whether Ctrl-C was received.
    pub closed spec fn received_v(&self) -> bool {
        self.received
    }

    /// Whether Ctrl-C is ignored.
    pub closed spec fn ignore_v(&self) -> bool {
        self.ignore
    }

    /// A terminal that has received no Ctrl-C and does not ignore it.
    pub fn new() -> (r: CtrlCState)
        ensures
            !r.received_v(),
            !r.ignore_v(),
    {
        CtrlCState { received: false, ignore: false }
    }

    /// From now on Ctrl-C is passed on like any other event.
    pub fn ignore_ctrl_c(&mut self)
        ensures
            final(self).ignore_v(),
            final(self).received_v() == old(self).received_v(),
    {
        self.ignore = true;
    }

    /// Whether Ctrl-C was received.
    pub fn received_ctrl_c(&self) -> (r: bool)
        ensures
            r == self.received_v(),
    {
        self.received
    }

    /// Takes in an event: returns `true` where the terminal stops waiting
    /// (Ctrl-C was received, now or before, and is not ignored), and `false`
    /// where the event is passed on to the subscribers.
    pub fn on_event(&mut self, event: &TerminalEvent) -> (stop: bool)
        ensures
            final(self).ignore_v() == old(self).ignore_v(),
            old(self).ignore_v() ==> !stop && final(self).received_v() == old(self).received_v(),
            !old(self).ignore_v() ==> final(self).received_v() == (old(self).received_v() || is_ctrl_c(*event))
                && stop == final(self).received_v(),
    {
        if !self.ignore {
            let ctrl_c = match event {
                TerminalEvent::Key(k) => {
                    let c = match k.code {
                        KeyCode::Char(ch) => ch == 'c',
                        _ => false,
                    };
                    let press = match k.kind {
                        KeyEventKind::Press => true,
                        _ => false,
                    };
                    c && press && k.modifiers.bits() == event::CONTROL_BIT
                },
                _ => false,
            };
            if ctrl_c {
                self.received = true;
            }
            if self.received {
                return true;
            }
        }
        false
    }
}

/// The 16-bit signed value with the bits of `v` (what `v as i16` gives).
pub open spec fn as_i16(v: u16) -> int {
    if v < 0x8000 {
        v as int
    } else {
        v - 0x10000
    }
}

/// Where a screen position (read as signed 16-bit values) falls in a
/// component whose top left corner is at (`x`, `y`) and whose size is `w` by
/// `h`: the column and row relative to the component, where it is inside.
pub open spec fn local_position(column: u16, row: u16, x: i16, y: i16, w: u16, h: u16) -> Option<(int, int)> {
    let c = as_i16(column);
    let r = as_i16(row);
    if r >= y && c >= x && r - y < h && c - x < w {
        Some((c - x, r - y))
    } else {
        None
    }
}

/// The event a listener receives: every event where it listens everywhere;
/// where it listens within a component, mouse events inside the component
/// with their position made relative to it, and no mouse events outside it
/// (other events are not positioned, and are all received).
pub open spec fn delivered(event: TerminalEvent, in_component: bool, x: i16, y: i16, w: u16, h: u16) -> Option<TerminalEvent> {
    if !in_component {
        Some(event)
    } else {
        match event {
            TerminalEvent::FullscreenMouse(m) => match local_position(m.column, m.row, x, y, w, h) {
                Some(p) => Some(TerminalEvent::FullscreenMouse(FullscreenMouseEvent { column: p.0 as u16, row: p.1 as u16, ..m })),
                None => None,
            },
            _ => Some(event),
        }
    }
}

/// Whether making a mouse position relative to a component at (`x`, `y`)
/// stays within `i16` (the subtraction is made only where the position is
/// not above or left of the component).
pub open spec fn relative_position_fits(event: TerminalEvent, in_component: bool, x: i16, y: i16) -> bool {
    in_component ==> match event {
        TerminalEvent::FullscreenMouse(m) => as_i16(m.row) >= y && as_i16(m.column) >= x ==> as_i16(m.row) - y <= i16::MAX
            && as_i16(m.column) - x <= i16::MAX,
        _ => true,
    }
}

fn signed(v: u16) -> (r: i32)
    ensures
        r == as_i16(v),
{
    if v < 0x8000 {
        v as i32
    } else {
        v as i32 - 0x10000
    }
}

/// The event a listener receives (see [`delivered`]): all events where
/// `in_component` is false; otherwise mouse events only inside the component
/// at `location` of the given size, at positions relative to it.
pub fn deliver_event(event: TerminalEvent, in_component: bool, location: (i16, i16), size: (u16, u16)) -> (r: Option<TerminalEvent>)
    requires
        relative_position_fits(event, in_component, location.0, location.1),
    ensures
        r == delivered(event, in_component, location.0, location.1, size.0, size.1),
{
    if !in_component {
        return Some(event);
    }
    match event {
        TerminalEvent::FullscreenMouse(m) => {
            let r = signed(m.row);
            let c = signed(m.column);
            if r >= location.1 as i32 && c >= location.0 as i32 {
                let row = (r - location.1 as i32) as u16;
                let column = (c - location.0 as i32) as u16;
                if row < size.1 && column < size.0 {
                    return Some(TerminalEvent::FullscreenMouse(FullscreenMouseEvent { row, column, ..m }));
                }
            }
            None
        },
        other => Some(other),
    }
}

/// A listener within a component receives mouse events only inside the
/// component, at positions relative to it: the position received plus the
/// component's corner is where the event happened.
pub proof fn lemma_local_mouse_events_inside(m: FullscreenMouseEvent, x: i16, y: i16, w: u16, h: u16)
    requires
        delivered(TerminalEvent::FullscreenMouse(m), true, x, y, w, h) is Some,
    ensures
        ({
            let d = delivered(TerminalEvent::FullscreenMouse(m), true, x, y, w, h)->0;
            &&& d matches TerminalEvent::FullscreenMouse(l)
            &&& l.column < w && l.row < h
            &&& l.column + x == as_i16(m.column) && l.row + y == as_i16(m.row)
            &&& l.kind == m.kind && l.modifiers == m.modifiers
        }),
{
}

/// The terminal size a component tracks, after an event: the new size for a
/// resize, the same size otherwise.
pub fn size_after_event(size: (u16, u16), event: &TerminalEvent) -> (r: (u16, u16))
    ensures
        r == match *event {
            TerminalEvent::Resize(w, h) => (w, h),
            _ => size,
        },
{
    match event {
        TerminalEvent::Resize(w, h) => (*w, *h),
        _ => size,
    }
}

} // verus!
