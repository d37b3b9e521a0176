use iocraft::event::{KeyCode, KeyEventKind, KeyModifiers};
use iocraft::terminal::{KeyEvent, TerminalEvent};
use iocraft::text_input::{
    max_text_width, new_cursor_offset, update_cursor_offset, NewCursorOffsetHint, TextBuffer, TextInputKeys,
};

#[test]
fn test_text_buffer_cursor_movement() {
    let buffer = TextBuffer::new("foo\nbar baz", 10);
    assert_eq!(buffer.left_of_offset(2), 1);
    assert_eq!(buffer.right_of_offset(2), 3);
    assert_eq!(buffer.above_offset(2, None), 2);
    assert_eq!(buffer.below_offset(2, None), 6);
    assert_eq!(buffer.below_offset(2, Some(5)), 9);
    assert_eq!(buffer.above_offset(5, None), 1);
    assert_eq!(buffer.below_offset(5, None), 5);
    assert_eq!(buffer.above_offset(5, Some(6)), 3);
}

#[test]
fn test_test_buffer_row_column_for_offset() {
    assert_eq!(TextBuffer::new("一二!", 10).row_column_for_offset(7), (0, 5));

    assert_eq!(
        TextBuffer::new("foo bar bazqux", 10).row_column_for_offset(9),
        (1, 1)
    );

    assert_eq!(
        TextBuffer::new("1234512345", 10).row_column_for_offset(10),
        (0, 10)
    );

    assert_eq!(
        TextBuffer::new("12345123451", 10).row_column_for_offset(11),
        (1, 1)
    );

    assert_eq!(
        TextBuffer::new("asd asd asd", 10).row_column_for_offset(11),
        (1, 3)
    );

    assert_eq!(
        TextBuffer::new("12345123 5 ", 10).row_column_for_offset(11),
        (0, 11)
    );

    assert_eq!(TextBuffer::new("asd\n", 10).row_column_for_offset(4), (1, 0));
}

#[test]
fn test_new_cursor_offset() {
    assert_eq!(new_cursor_offset("", 0, "foo", NewCursorOffsetHint::Plain), 3);
    assert_eq!(new_cursor_offset("foo", 3, "foobar", NewCursorOffsetHint::Plain), 6);
    assert_eq!(new_cursor_offset("foobar", 3, "foobar", NewCursorOffsetHint::Plain), 3);
    assert_eq!(new_cursor_offset("foobar", 3, "fooar", NewCursorOffsetHint::Plain), 3);
    assert_eq!(
        new_cursor_offset("foobar", 3, "fooasdbar", NewCursorOffsetHint::Plain),
        6
    );
    assert_eq!(new_cursor_offset("a\n", 0, "\n", NewCursorOffsetHint::Plain), 0);
    assert_eq!(
        new_cursor_offset(
            "asddasd\nasdasd",
            3,
            "asdasd\nasdasd",
            NewCursorOffsetHint::Backspace
        ),
        2
    );
    assert_eq!(
        new_cursor_offset(
            "asddasd\nasdasd",
            3,
            "asdasd\nasdasd",
            NewCursorOffsetHint::Deletion
        ),
        3
    );
}

#[test]
fn right_then_left_returns_to_the_same_offset() {
    let buffer = TextBuffer::new("a一b", 10);
    for offset in [0usize, 1, 4] {
        assert_eq!(buffer.left_of_offset(buffer.right_of_offset(offset)), offset);
    }
    assert_eq!(buffer.right_of_offset(1), 4);
    assert_eq!(buffer.right_of_offset(5), 5);
    assert_eq!(buffer.left_of_offset(0), 0);
}

#[test]
fn buffer_lines_follow_the_wrapping() {
    let buffer = TextBuffer::new("foo bar bazqux", 10);
    assert_eq!(buffer.lines(), vec!["foo bar ", "bazqux"]);
    assert_eq!(buffer.offset_for_closest_column_in_row(1, 3), 11);
    assert_eq!(buffer.offset_for_closest_column_in_row(1, 20), 14);
}

fn key(code: KeyCode) -> TerminalEvent {
    TerminalEvent::Key(KeyEvent::new(KeyEventKind::Press, code))
}

#[test]
fn typing_and_backspace_edit_the_value() {
    let buffer = TextBuffer::new("", 10);
    let mut keys = TextInputKeys {
        value: String::new(),
        edit_offset: 0,
        cursor_offset: 0,
        hint: NewCursorOffsetHint::Plain,
        col_preference: None,
    };
    assert_eq!(keys.handle_event(&buffer, true, false, &key(KeyCode::Char('a'))), Some("a".to_string()));
    assert_eq!(keys.handle_event(&buffer, true, false, &key(KeyCode::Char('一'))), Some("a一".to_string()));
    assert_eq!(keys.edit_offset, 4);
    assert_eq!(keys.handle_event(&buffer, true, false, &key(KeyCode::Backspace)), Some("a".to_string()));
    assert_eq!(keys.edit_offset, 1);
    assert_eq!(keys.hint, NewCursorOffsetHint::Backspace);
    // Enter only edits a multiline input.
    assert_eq!(keys.handle_event(&buffer, true, false, &key(KeyCode::Enter)), None);
    assert_eq!(keys.handle_event(&buffer, true, true, &key(KeyCode::Enter)), Some("a\n".to_string()));
    // Released keys, keys with control, and input without focus are ignored.
    let released = TerminalEvent::Key(KeyEvent::new(KeyEventKind::Release, KeyCode::Char('x')));
    assert_eq!(keys.handle_event(&buffer, true, false, &released), None);
    let mut ctrl = KeyEvent::new(KeyEventKind::Press, KeyCode::Char('x'));
    ctrl.modifiers = KeyModifiers::CONTROL();
    assert_eq!(keys.handle_event(&buffer, true, false, &TerminalEvent::Key(ctrl)), None);
    assert_eq!(keys.handle_event(&buffer, false, false, &key(KeyCode::Char('x'))), None);
    assert_eq!(keys.value, "a\n");
}

#[test]
fn arrow_keys_move_the_cursor() {
    let buffer = TextBuffer::new("foo\nbar baz", 10);
    let mut keys = TextInputKeys {
        value: "foo\nbar baz".to_string(),
        edit_offset: 0,
        cursor_offset: 2,
        hint: NewCursorOffsetHint::Plain,
        col_preference: None,
    };
    keys.handle_event(&buffer, true, true, &key(KeyCode::Down));
    assert_eq!(keys.cursor_offset, 6);
    assert_eq!(keys.col_preference, Some(2));
    keys.handle_event(&buffer, true, true, &key(KeyCode::Up));
    assert_eq!(keys.cursor_offset, 2);
    keys.handle_event(&buffer, true, true, &key(KeyCode::Right));
    assert_eq!(keys.cursor_offset, 3);
    assert_eq!(keys.col_preference, None);
    keys.handle_event(&buffer, true, true, &key(KeyCode::Left));
    assert_eq!(keys.cursor_offset, 2);
}

#[test]
fn cursor_view_scrolls_to_keep_the_cursor_visible() {
    let buffer = TextBuffer::new("abcdefghijklmnop", 65535);
    let v = buffer.cursor_view(12, false, 5, 1, 0, 0);
    assert_eq!((v.row, v.col), (0, 12));
    assert_eq!((v.scroll_row, v.scroll_col), (0, 8));
    let v = buffer.cursor_view(2, false, 5, 1, 0, 8);
    assert_eq!(v.scroll_col, 2);
    let v = buffer.cursor_view(2, false, 0, 0, 3, 3);
    assert_eq!((v.scroll_row, v.scroll_col), (3, 3));
}

#[test]
fn render_updates_the_cursor_offset() {
    assert_eq!(max_text_width(true, 10), 9);
    assert_eq!(max_text_width(true, 0), 0);
    assert_eq!(max_text_width(false, 10), u16::MAX);
    assert_eq!(update_cursor_offset("foo", "foox", 3, NewCursorOffsetHint::Plain, None), 4);
    assert_eq!(update_cursor_offset("foo", "foo", 1, NewCursorOffsetHint::Plain, Some(10)), 3);
    assert_eq!(update_cursor_offset("foo", "foo", 1, NewCursorOffsetHint::Plain, Some(2)), 2);
    assert_eq!(update_cursor_offset("foo", "foo", 10, NewCursorOffsetHint::Plain, Some(10)), 10);
}
