use crossterm::event as ct;
use iocraft::event::{KeyCode, KeyModifiers, MediaKeyCode, ModifierKeyCode};

#[test]
fn key_modifier_bits_match_crossterm() {
    assert_eq!(KeyModifiers::SHIFT().bits(), ct::KeyModifiers::SHIFT.bits());
    assert_eq!(
        KeyModifiers::CONTROL().bits(),
        ct::KeyModifiers::CONTROL.bits()
    );
    assert_eq!(KeyModifiers::ALT().bits(), ct::KeyModifiers::ALT.bits());
    assert_eq!(KeyModifiers::SUPER().bits(), ct::KeyModifiers::SUPER.bits());
    assert_eq!(KeyModifiers::HYPER().bits(), ct::KeyModifiers::HYPER.bits());
    assert_eq!(KeyModifiers::META().bits(), ct::KeyModifiers::META.bits());
}

#[test]
fn modifier_sets() {
    let m = KeyModifiers::CONTROL().union(KeyModifiers::SHIFT());
    assert!(m.contains(KeyModifiers::CONTROL()));
    assert!(m.contains(KeyModifiers::SHIFT()));
    assert!(!m.contains(KeyModifiers::ALT()));
    assert!(m.intersects(KeyModifiers::CONTROL().union(KeyModifiers::ALT())));
    assert!(!m.intersects(KeyModifiers::ALT()));
    assert!(KeyModifiers::empty().is_empty());
    assert_eq!(KeyModifiers::NONE().bits(), 0);
    assert_eq!(m.difference(KeyModifiers::SHIFT()).bits(), 2);
    assert_eq!(KeyModifiers::from_bits(0x40), None);
    assert_eq!(KeyModifiers::from_bits(3).map(|m| m.bits()), Some(3));
    assert_eq!(KeyModifiers::all().bits(), 0x3f);
}

#[test]
fn key_names() {
    assert_eq!(KeyCode::Backspace.to_string(), "Backspace");
    assert_eq!(KeyCode::Delete.to_string(), "Del");
    assert_eq!(KeyCode::PageUp.to_string(), "Page Up");
    assert_eq!(KeyCode::F(12).to_string(), "F12");
    assert_eq!(KeyCode::Char(' ').to_string(), "Space");
    assert_eq!(KeyCode::Char('x').to_string(), "x");
    assert_eq!(KeyCode::Media(MediaKeyCode::PlayPause).to_string(), "Play/Pause");
    assert_eq!(KeyCode::Modifier(ModifierKeyCode::LeftControl).to_string(), "Left Ctrl");
    assert_eq!(KeyCode::KeypadBegin.to_string(), "Begin");
}

#[test]
fn modifier_names_join_with_plus() {
    assert_eq!(KeyModifiers::empty().to_string(), "");
    assert_eq!(KeyModifiers::SHIFT().to_string(), "Shift");
    let m = KeyModifiers::CONTROL().union(KeyModifiers::SHIFT()).union(KeyModifiers::META());
    assert_eq!(m.to_string(), "Shift+Control+Meta");
    assert_eq!(KeyModifiers::all().to_string(), "Shift+Control+Alt+Super+Hyper+Meta");
}

#[test]
fn event_display_matches_crossterm() {
    let codes = [
        (KeyCode::Backspace, ct::KeyCode::Backspace),
        (KeyCode::Enter, ct::KeyCode::Enter),
        (KeyCode::Delete, ct::KeyCode::Delete),
        (KeyCode::F(12), ct::KeyCode::F(12)),
        (KeyCode::Char(' '), ct::KeyCode::Char(' ')),
        (KeyCode::Char('q'), ct::KeyCode::Char('q')),
        (KeyCode::PageUp, ct::KeyCode::PageUp),
        (KeyCode::Media(MediaKeyCode::PlayPause), ct::KeyCode::Media(ct::MediaKeyCode::PlayPause)),
        (KeyCode::Modifier(ModifierKeyCode::LeftSuper), ct::KeyCode::Modifier(ct::ModifierKeyCode::LeftSuper)),
    ];
    for (ours, code) in codes {
        assert_eq!(ours.to_string(), code.to_string(), "display mismatch for {code:?}");
    }
    let modifiers = ct::KeyModifiers::SHIFT | ct::KeyModifiers::CONTROL | ct::KeyModifiers::ALT;
    assert_eq!(KeyModifiers::from_bits_retain(modifiers.bits()).to_string(), modifiers.to_string());
}
