use iocraft::canvas::{Canvas, OutputEnv};
use iocraft::event::{KeyCode, KeyEventKind, MouseEventKind};
use iocraft::scroll_view::{
    clamp_offset, draw_scrollbar, max_offset, scroll_delta, thumb, ScrollState, ScrollViewHandle, ScrollViewState,
};
use iocraft::terminal::{FullscreenMouseEvent, KeyEvent, TerminalEvent};

fn key(code: KeyCode) -> TerminalEvent {
    TerminalEvent::Key(KeyEvent::new(KeyEventKind::Press, code))
}

#[test]
fn offsets_are_limited_to_the_content() {
    assert_eq!(max_offset(20, 5), 15);
    assert_eq!(max_offset(3, 5), 0);
    assert_eq!(clamp_offset(-3, 20, 5), 0);
    assert_eq!(clamp_offset(100, 20, 5), 15);
    assert_eq!(clamp_offset(7, 20, 5), 7);
}

#[test]
fn handle_controls_the_scroll_view() {
    let mut h = ScrollViewHandle::new();
    h.scroll_to_bottom();
    assert_eq!(h.scroll_offset(), 0);
    assert_eq!(h.content_height(), 0);
    let mut h = ScrollViewHandle {
        inner: Some(ScrollState { scroll_offset: 0, content_height: 20, viewport_height: 5 }),
    };
    h.scroll_to_bottom();
    assert_eq!(h.scroll_offset(), 15);
    h.scroll_by(-4);
    assert_eq!(h.scroll_offset(), 11);
    h.scroll_by(100);
    assert_eq!(h.scroll_offset(), 15);
    h.scroll_to(-1);
    assert_eq!(h.scroll_offset(), 0);
    h.scroll_to(9);
    h.scroll_to_top();
    assert_eq!(h.scroll_offset(), 0);
    assert_eq!(h.viewport_height(), 5);
}

#[test]
fn keys_and_wheel_scroll() {
    assert_eq!(scroll_delta(&key(KeyCode::Down), 5, 3), Some(1));
    assert_eq!(scroll_delta(&key(KeyCode::PageUp), 5, 3), Some(-5));
    assert_eq!(scroll_delta(&key(KeyCode::PageDown), 0, 3), Some(1));
    assert_eq!(scroll_delta(&key(KeyCode::Home), 5, 3), Some(i32::MIN / 2));
    assert_eq!(scroll_delta(&key(KeyCode::Char('x')), 5, 3), None);
    let wheel = TerminalEvent::FullscreenMouse(FullscreenMouseEvent::new(MouseEventKind::ScrollDown, 0, 0));
    assert_eq!(scroll_delta(&wheel, 5, 3), Some(3));
    let released = TerminalEvent::Key(KeyEvent::new(KeyEventKind::Release, KeyCode::Down));
    assert_eq!(scroll_delta(&released, 5, 3), None);

    let mut st = ScrollViewState::new();
    st.on_event(&key(KeyCode::Down), 20, 5, 3, false);
    assert_eq!(st.scroll_offset, 1);
    st.on_event(&key(KeyCode::End), 20, 5, 3, false);
    assert_eq!(st.scroll_offset, 15);
    st.on_event(&key(KeyCode::Home), 20, 5, 3, false);
    assert_eq!(st.scroll_offset, 0);
}

#[test]
fn auto_scroll_pins_to_the_bottom_until_scrolled_up() {
    let mut st = ScrollViewState::new();
    let l = st.layout(20, 5, true, None);
    assert!(l.pinned_to_bottom);
    assert!(l.show_scrollbar);
    assert_eq!(l.effective_offset, 15);
    st.scroll_offset = 15;
    st.on_event(&key(KeyCode::Up), 20, 5, 3, true);
    assert!(st.user_scrolled_up);
    let l = st.layout(20, 5, true, Some(false));
    assert!(!l.pinned_to_bottom);
    assert!(!l.show_scrollbar);
    assert_eq!(l.effective_offset, 14);
    st.on_event(&key(KeyCode::End), 20, 5, 3, true);
    assert!(!st.user_scrolled_up);
}

#[test]
fn scrollbar_thumb_tracks_the_offset() {
    assert_eq!(thumb(5, 20, 0), Some((0, 1)));
    assert_eq!(thumb(5, 20, 15), Some((4, 1)));
    assert_eq!(thumb(10, 20, 10), Some((5, 5)));
    assert_eq!(thumb(5, 5, 0), None);
    assert_eq!(thumb(0, 5, 0), None);

    let mut canvas = Canvas::new(1, 5);
    draw_scrollbar(&mut canvas.subview_mut(0, 0, 0, 0, 1, 5), 5, 20, 15, None, None);
    assert_eq!(canvas.to_string(OutputEnv::default()), "│\n│\n│\n│\n┃\n");
}

#[test]
fn scrolling_stays_in_range() {
    for o in [-100, -1, 0, 3, 15, 16, 1000] {
        let c = clamp_offset(o, 20, 5);
        assert!((0..=15).contains(&c));
        assert_eq!(clamp_offset(c, 20, 5), c);
    }
    let mut h = ScrollViewHandle {
        inner: Some(ScrollState { scroll_offset: 4, content_height: 20, viewport_height: 5 }),
    };
    h.scroll_by(3);
    h.scroll_by(-3);
    assert_eq!(h.scroll_offset(), 4);
}
