//! What a button does with terminal events, and what a checkbox shows and
//! reports.
use vstd::prelude::*;
use crate::event::{KeyCode, KeyEventKind, MouseEventKind};
use crate::terminal::TerminalEvent;

verus! {

/// Whether an event activates a button: a mouse button pressed over it, or,
/// where it has focus, Enter or the space bar pressed or repeated.
pub open spec fn activates(event: TerminalEvent, has_focus: bool) -> bool {
    match event {
        TerminalEvent::FullscreenMouse(m) => m.kind is Down,
        TerminalEvent::Key(k) => has_focus && k.kind != KeyEventKind::Release && (k.code == KeyCode::Enter
            || k.code == KeyCode::Char(' ')),
        _ => false,
    }
}

/// Whether an event activates a button (see [`activates`]).
pub fn button_activates(event: &TerminalEvent, has_focus: bool) -> (r: bool)
    ensures
        r == activates(*event, has_focus),
{
    match event {
        TerminalEvent::FullscreenMouse(m) => match m.kind {
            MouseEventKind::Down(_) => true,
            _ => false,
        },
        TerminalEvent::Key(k) => {
            let released = match k.kind {
                KeyEventKind::Release => true,
                _ => false,
            };
            let key = match k.code {
                KeyCode::Enter => true,
                KeyCode::Char(c) => c == ' ',
                _ => false,
            };
            has_focus && !released && key
        },
        _ => false,
    }
}

/// What a checkbox shows: its box, whether the box is shown inverted (to
/// mark focus without relying on color), and whether a space separates the
/// box from a label.
pub struct CheckboxLook {
    /// `"[x]"` when checked, `"[ ]"` when not.
    pub mark: String,
    /// Whether the box is shown inverted: where the checkbox has focus.
    pub invert: bool,
    /// Whether a space follows the box: where there is a label.
    pub separator: bool,
}

/// The box of a checkbox.
pub open spec fn mark_of(checked: bool) -> Seq<char> {
    if checked {
        seq!['[', 'x', ']']
    } else {
        seq!['[', ' ', ']']
    }
}

/// What a checkbox shows.
pub fn checkbox_look(checked: bool, has_focus: bool, has_label: bool) -> (r: CheckboxLook)
    ensures
        r.mark@ == mark_of(checked),
        r.invert == has_focus,
        r.separator == has_label,
{
    let mut mark = String::new();
    crate::chars::push_char(&mut mark, '[');
    crate::chars::push_char(&mut mark, if checked { 'x' } else { ' ' });
    crate::chars::push_char(&mut mark, ']');
    assert(mark@ =~= mark_of(checked));
    CheckboxLook { mark, invert: has_focus, separator: has_label }
}

/// What a checkbox reports for an event: the opposite of its state, where
/// the event activates it, and nothing otherwise.
pub fn checkbox_change(checked: bool, has_focus: bool, event: &TerminalEvent) -> (r: Option<bool>)
    ensures
        r == (if activates(*event, has_focus) { Some(!checked) } else { None::<bool> }),
{
    if button_activates(event, has_focus) {
        Some(!checked)
    } else {
        None
    }
}

} // verus!
