use iocraft::button::{button_activates, checkbox_change, checkbox_look};
use iocraft::event::{KeyCode, KeyEventKind, KeyModifiers, MouseEventKind};
use iocraft::layout::{child_clip_rect, Borders, ComponentRectTracker, Rect, Display, FlexDirection, LayoutStyle, Modal, Overflow};
use iocraft::multimap::{reconcile, AppendOnlyMultimap};
use iocraft::terminal::{CtrlCState, FullscreenMouseEvent, KeyEvent, TerminalEvent, TerminalEvents};

#[test]
fn multimap_recycles_in_insertion_order() {
    let mut m = AppendOnlyMultimap::new();
    m.push_back(1, "a");
    m.push_back(2, "b");
    m.push_back(1, "c");
    let mut m = m.into_remove_only();
    assert_eq!(m.iter(), vec![&"a", &"b", &"c"]);
    assert_eq!(m.pop_front(&1), Some("a"));
    assert_eq!(m.pop_front(&1), Some("c"));
    assert_eq!(m.pop_front(&1), None);
    assert_eq!(m.pop_front(&3), None);
    assert_eq!(m.iter(), vec![&"b"]);
}

#[test]
fn layout_sides_fall_back_to_all_sides() {
    let mut s = LayoutStyle::default();
    s.padding = Some(2);
    s.padding_left = Some(5);
    s.margin_top = Some(1);
    s.overflow = Some(Overflow::Hidden);
    s.overflow_y = Some(Overflow::Scroll);
    s.flex_direction = FlexDirection::Column;
    let r = s.resolve();
    assert_eq!((r.padding_top, r.padding_right, r.padding_bottom, r.padding_left), (2, 2, 2, 5));
    assert_eq!((r.margin_top, r.margin_right, r.margin_bottom, r.margin_left), (1, 0, 0, 0));
    assert_eq!((r.overflow_x, r.overflow_y), (Overflow::Hidden, Overflow::Scroll));
    assert_eq!(r.display, Display::Flex);
    assert_eq!(r.flex_direction, FlexDirection::Column);
    assert_eq!(LayoutStyle::default().resolve().overflow_x, Overflow::Visible);
}

#[test]
fn modal_shows_children_only_while_open() {
    let mut m = Modal::new();
    let (style, children) = m.update(true, &LayoutStyle::default());
    assert_eq!(style.display, Display::Flex);
    assert!(children);
    let (style, children) = m.update(false, &LayoutStyle::default());
    assert_eq!(style.display, Display::Hidden);
    assert!(!children);
}

#[test]
fn ctrl_c_stops_waiting_unless_ignored() {
    let mut ctrl_c = KeyEvent::new(KeyEventKind::Press, KeyCode::Char('c'));
    ctrl_c.modifiers = KeyModifiers::CONTROL();
    let plain_c = TerminalEvent::Key(KeyEvent::new(KeyEventKind::Press, KeyCode::Char('c')));
    let mut st = CtrlCState::new();
    assert!(!st.on_event(&plain_c));
    assert!(!st.on_event(&TerminalEvent::Resize(10, 10)));
    assert!(st.on_event(&TerminalEvent::Key(ctrl_c)));
    assert!(st.received_ctrl_c());
    assert!(st.on_event(&plain_c));

    let mut st = CtrlCState::new();
    st.ignore_ctrl_c();
    assert!(!st.on_event(&TerminalEvent::Key(ctrl_c)));
    assert!(!st.received_ctrl_c());
}

#[test]
fn terminal_events_are_read_in_order() {
    let mut q = TerminalEvents::new();
    assert!(q.next_event().is_none());
    q.push_back(TerminalEvent::Resize(1, 2));
    q.push_back(TerminalEvent::Paste("hi".to_string()));
    q.push_back(TerminalEvent::FullscreenMouse(FullscreenMouseEvent::new(MouseEventKind::Moved, 3, 4)));
    assert!(matches!(q.next_event(), Some(TerminalEvent::Resize(1, 2))));
    assert!(matches!(q.next_event(), Some(TerminalEvent::Paste(s)) if s == "hi"));
    match q.next_event() {
        Some(TerminalEvent::FullscreenMouse(m)) => {
            assert_eq!((m.column, m.row, m.kind), (3, 4, MouseEventKind::Moved));
            assert!(m.modifiers.is_empty());
        }
        _ => panic!("expected a mouse event"),
    }
    assert!(q.next_event().is_none());
}

fn key(code: KeyCode, kind: KeyEventKind) -> TerminalEvent {
    TerminalEvent::Key(KeyEvent::new(kind, code))
}

#[test]
fn button_activation() {
    let click = TerminalEvent::FullscreenMouse(FullscreenMouseEvent::new(
        MouseEventKind::Down(iocraft::event::MouseButton::Left),
        1,
        1,
    ));
    assert!(button_activates(&click, false));
    assert!(button_activates(&key(KeyCode::Enter, KeyEventKind::Press), true));
    assert!(button_activates(&key(KeyCode::Char(' '), KeyEventKind::Repeat), true));
    assert!(!button_activates(&key(KeyCode::Enter, KeyEventKind::Release), true));
    assert!(!button_activates(&key(KeyCode::Enter, KeyEventKind::Press), false));
    assert!(!button_activates(&key(KeyCode::Char('a'), KeyEventKind::Press), true));
    assert!(!button_activates(&TerminalEvent::Resize(1, 1), true));
}

#[test]
fn checkbox_shows_focus_without_color() {
    let look = checkbox_look(true, true, false);
    assert_eq!(look.mark, "[x]");
    assert!(look.invert);
    assert!(!look.separator);
    let look = checkbox_look(false, false, true);
    assert_eq!(look.mark, "[ ]");
    assert!(!look.invert);
    assert!(look.separator);
    assert_eq!(checkbox_change(false, true, &key(KeyCode::Enter, KeyEventKind::Press)), Some(true));
    assert_eq!(checkbox_change(true, false, &key(KeyCode::Enter, KeyEventKind::Press)), None);
}

fn mouse_at(column: u16, row: u16) -> TerminalEvent {
    TerminalEvent::FullscreenMouse(FullscreenMouseEvent::new(MouseEventKind::Moved, column, row))
}

#[test]
fn local_events_are_made_relative_and_filtered() {
    match iocraft::terminal::deliver_event(mouse_at(5, 3), true, (2, 1), (4, 4)) {
        Some(TerminalEvent::FullscreenMouse(m)) => {
            assert_eq!((m.column, m.row), (3, 2));
        }
        _ => panic!("expected a mouse event inside the component"),
    }
    assert!(iocraft::terminal::deliver_event(mouse_at(6, 3), true, (2, 1), (4, 4)).is_none());
    assert!(iocraft::terminal::deliver_event(mouse_at(1, 3), true, (2, 1), (4, 4)).is_none());
    match iocraft::terminal::deliver_event(mouse_at(6, 3), false, (2, 1), (4, 4)) {
        Some(TerminalEvent::FullscreenMouse(m)) => assert_eq!((m.column, m.row), (6, 3)),
        _ => panic!("expected the event unchanged"),
    }
    assert!(matches!(
        iocraft::terminal::deliver_event(TerminalEvent::Resize(3, 4), true, (2, 1), (1, 1)),
        Some(TerminalEvent::Resize(3, 4))
    ));
}

#[test]
fn children_are_clipped_inside_borders() {
    let clip = Rect { left: 0, right: 20, top: 0, bottom: 10 };
    let border = Borders { left: 1, right: 1, top: 1, bottom: 1 };
    let r = child_clip_rect(clip, Overflow::Hidden, Overflow::Visible, (2, 3), (8, 4), border);
    assert_eq!(r, Rect { left: 3, right: 9, top: 0, bottom: 10 });
    let r = child_clip_rect(clip, Overflow::Hidden, Overflow::Hidden, (-5, 3), (8, 4), border);
    assert_eq!(r, Rect { left: 0, right: 2, top: 4, bottom: 6 });
    let r = child_clip_rect(clip, Overflow::Visible, Overflow::Visible, (2, 3), (8, 4), border);
    assert_eq!(r, clip);
}

#[test]
fn shows_focus_without_relying_on_color() {
    let look = checkbox_look(false, true, true);
    assert!(look.invert);
    assert!(!checkbox_look(false, false, true).invert);
}

#[test]
fn component_rect_tracks_changes() {
    let mut t = ComponentRectTracker::new();
    assert!(t.rect.is_none());
    t.on_draw((2, 3), (4, 5));
    assert_eq!(t.rect, Some(Rect { left: 2, right: 6, top: 3, bottom: 8 }));
    assert!(t.is_changed);
    t.on_draw((2, 3), (4, 5));
    assert!(!t.is_changed);
    t.on_draw((2, 4), (4, 5));
    assert!(t.is_changed);
}

#[test]
fn terminal_size_follows_resizes() {
    let size = iocraft::terminal::size_after_event((80, 24), &TerminalEvent::Resize(100, 40));
    assert_eq!(size, (100, 40));
    let size = iocraft::terminal::size_after_event(size, &TerminalEvent::Paste("x".to_string()));
    assert_eq!(size, (100, 40));
}

#[test]
fn multimap_values_change_in_place() {
    let mut m = AppendOnlyMultimap::new();
    m.push_back(7, 1);
    m.push_back(8, 2);
    m.push_back(7, 3);
    let mut m = m.into_remove_only();
    assert_eq!(m.pop_front(&8), Some(2));
    for i in 0..m.slot_count() {
        if let Some(v) = m.slot_mut(i) {
            *v *= 10;
        }
    }
    assert_eq!(m.iter(), vec![&10, &30]);
    assert_eq!(m.pop_front(&7), Some(10));
    assert_eq!(m.pop_front(&7), Some(30));
    assert_eq!(m.pop_front(&7), None);
}

#[test]
fn children_keep_components_of_their_key_and_type() {
    let mut used = AppendOnlyMultimap::new();
    used.push_back(1, (10, "a"));
    used.push_back(1, (20, "b"));
    used.push_back(2, (10, "c"));
    let mut prev = used.into_remove_only();
    let kept = reconcile(&mut prev, &[(1, 10), (1, 10), (2, 30), (3, 10)]);
    assert_eq!(kept, vec![Some("a"), None, None, None]);
    assert!(prev.iter().is_empty());

    let mut used = AppendOnlyMultimap::new();
    used.push_back(1, (10, "a"));
    used.push_back(1, (20, "b"));
    used.push_back(2, (10, "c"));
    let mut prev = used.into_remove_only();
    let kept = reconcile(&mut prev, &[(2, 10)]);
    assert_eq!(kept, vec![Some("c")]);
    let left: Vec<(u64, &str)> = prev.iter().into_iter().copied().collect();
    assert_eq!(left, vec![(10, "a"), (20, "b")]);
}
