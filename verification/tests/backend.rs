use crossterm::{cursor, terminal, QueueableCommand};
use iocraft::backend::{BackendState, TermOp};
use iocraft::canvas::{Canvas, OutputEnv};
use iocraft::color::Color;
use iocraft::output::passthrough_text;
use iocraft::style::{CanvasTextStyle, Weight};

fn canvas(rows: &[&str]) -> Canvas {
    let mut c = Canvas::new(10, rows.len());
    for (y, r) in rows.iter().enumerate() {
        c.subview_mut(0, 0, 0, 0, 10, rows.len()).set_text(0, y as isize, r, CanvasTextStyle::default());
    }
    c
}

#[test]
fn first_write_is_whole() {
    let mut st = BackendState::new(false, Some((80, 24)));
    let mut ops = Vec::new();
    st.write_canvas(None, &canvas(&["a", "b"]), &mut ops);
    assert_eq!(ops, vec![TermOp::WriteCanvas]);
    assert_eq!(st.prev_canvas_height, 2);
}

#[test]
fn inline_rewrites_only_changed_rows() {
    let mut st = BackendState::new(false, Some((80, 24)));
    st.prev_canvas_height = 3;
    let prev = canvas(&["a", "b", "c"]);
    let cur = canvas(&["a", "x", "c"]);
    let mut ops = Vec::new();
    st.write_canvas(Some(&prev), &cur, &mut ops);
    assert_eq!(
        ops,
        vec![TermOp::MoveToPreviousLine(1), TermOp::WriteRow(1), TermOp::MoveToNextLine(1)]
    );

    let mut ops = Vec::new();
    st.write_canvas(Some(&cur), &cur, &mut ops);
    assert!(ops.is_empty());
}

#[test]
fn inline_growth_adds_lines() {
    let mut st = BackendState::new(false, None);
    st.prev_canvas_height = 1;
    let prev = canvas(&["a"]);
    let cur = canvas(&["a", "b", "c"]);
    let mut ops = Vec::new();
    st.write_canvas(Some(&prev), &cur, &mut ops);
    assert_eq!(
        ops,
        vec![TermOp::WriteCrLf, TermOp::WriteRow(1), TermOp::WriteCrLf, TermOp::WriteRow(2)]
    );
    assert_eq!(st.prev_canvas_height, 3);
}

#[test]
fn inline_shrink_clears_rows() {
    let mut st = BackendState::new(false, None);
    st.prev_canvas_height = 2;
    let prev = canvas(&["a", "b"]);
    let cur = canvas(&["a"]);
    let mut ops = Vec::new();
    st.write_canvas(Some(&prev), &cur, &mut ops);
    assert_eq!(
        ops,
        vec![TermOp::MoveToColumn(0), TermOp::ClearCurrentLine, TermOp::MoveToPreviousLine(1)]
    );
}

#[test]
fn change_scrolled_off_screen_rewrites_everything() {
    let mut st = BackendState::new(false, Some((80, 2)));
    st.prev_canvas_height = 5;
    let prev = canvas(&["a", "b", "c", "d", "e"]);
    let cur = canvas(&["z", "b", "c", "d", "e"]);
    let mut ops = Vec::new();
    st.write_canvas(Some(&prev), &cur, &mut ops);
    assert_eq!(
        ops,
        vec![TermOp::ClearAll, TermOp::ClearPurge, TermOp::MoveTo(0, 0), TermOp::WriteCanvas]
    );
}

#[test]
fn clearing() {
    let mut st = BackendState::new(false, None);
    let mut ops = Vec::new();
    st.clear_canvas(&mut ops);
    assert!(ops.is_empty());
    st.prev_canvas_height = 3;
    st.clear_canvas(&mut ops);
    assert_eq!(ops, vec![TermOp::MoveToPreviousLine(2), TermOp::ClearFromCursorDown]);
    st.prev_canvas_height = 1;
    let mut ops = Vec::new();
    st.clear_canvas(&mut ops);
    assert_eq!(ops, vec![TermOp::MoveToColumn(0), TermOp::ClearFromCursorDown]);
}

#[test]
fn fullscreen_positions_rows_absolutely() {
    let mut st = BackendState::new(true, Some((80, 24)));
    let mut ops = Vec::new();
    let prev = canvas(&["a", "b", "c"]);
    st.write_canvas(None, &prev, &mut ops);
    assert_eq!(ops, vec![TermOp::MoveTo(0, 0), TermOp::WriteCanvas]);

    // The size at the last write was not recorded: the screen is redrawn.
    let mut ops = Vec::new();
    st.write_canvas(Some(&prev), &prev, &mut ops);
    assert_eq!(ops, vec![TermOp::MoveTo(0, 0), TermOp::ClearFromCursorDown, TermOp::WriteCanvas]);
    assert_eq!(st.prev_size_on_write, Some((80, 24)));

    let cur = canvas(&["a", "x", "c"]);
    let mut ops = Vec::new();
    st.write_canvas(Some(&prev), &cur, &mut ops);
    assert_eq!(ops, vec![TermOp::MoveTo(0, 1), TermOp::WriteRow(1), TermOp::MoveTo(0, 2)]);
}

fn ansi(canvas: &Canvas) -> Vec<u8> {
    let mut s = String::new();
    canvas.write_ansi_without_final_newline(&mut s, OutputEnv::default());
    s.into_bytes()
}

/// Performs the planned commands as crossterm writes them.
fn perform(out: &mut Vec<u8>, ops: &[TermOp], canvas: Option<&Canvas>) {
    for op in ops {
        match *op {
            TermOp::MoveTo(x, y) => {
                out.queue(cursor::MoveTo(x, y)).unwrap();
            }
            TermOp::MoveToColumn(x) => {
                out.queue(cursor::MoveToColumn(x)).unwrap();
            }
            TermOp::MoveToPreviousLine(n) => {
                out.queue(cursor::MoveToPreviousLine(n)).unwrap();
            }
            TermOp::MoveToNextLine(n) => {
                out.queue(cursor::MoveToNextLine(n)).unwrap();
            }
            TermOp::ClearFromCursorDown => {
                out.queue(terminal::Clear(terminal::ClearType::FromCursorDown)).unwrap();
            }
            TermOp::ClearAll => {
                out.queue(terminal::Clear(terminal::ClearType::All)).unwrap();
            }
            TermOp::ClearPurge => {
                out.queue(terminal::Clear(terminal::ClearType::Purge)).unwrap();
            }
            TermOp::ClearCurrentLine => {
                out.queue(terminal::Clear(terminal::ClearType::CurrentLine)).unwrap();
            }
            TermOp::WriteCrLf => out.extend_from_slice(b"\r\n"),
            TermOp::WriteCanvas => out.extend(ansi(canvas.unwrap())),
            TermOp::WriteRow(y) => {
                let mut s = String::new();
                canvas.unwrap().write_ansi_row_without_newline(y, &mut s, OutputEnv::default());
                out.extend(s.bytes());
            }
        }
    }
}

struct TestTerm {
    st: BackendState,
    out: Vec<u8>,
}

impl TestTerm {
    fn write_canvas(&mut self, prev: Option<&Canvas>, canvas: &Canvas) {
        let mut ops = Vec::new();
        self.st.write_canvas(prev, canvas, &mut ops);
        perform(&mut self.out, &ops, Some(canvas));
    }

    fn clear_canvas(&mut self) {
        let mut ops = Vec::new();
        self.st.clear_canvas(&mut ops);
        perform(&mut self.out, &ops, None);
    }
}

fn new_fullscreen_term(prev_canvas_top_row: u16, prev_canvas_height: u16) -> TestTerm {
    TestTerm {
        st: BackendState { fullscreen: true, prev_canvas_top_row, prev_canvas_height, prev_size_on_write: None, size: None },
        out: Vec::new(),
    }
}

fn new_inline_term_with_size(prev_canvas_height: u16, term_size: (u16, u16)) -> TestTerm {
    TestTerm {
        st: BackendState {
            fullscreen: false,
            prev_canvas_top_row: 0,
            prev_canvas_height,
            prev_size_on_write: None,
            size: Some(term_size),
        },
        out: Vec::new(),
    }
}

fn new_inline_term(prev_canvas_height: u16) -> TestTerm {
    new_inline_term_with_size(prev_canvas_height, (10, 10))
}

fn vt(cols: usize, rows: usize, bytes: Vec<u8>) -> avt::Terminal {
    let mut t = avt::Terminal::new(cols, rows).unwrap();
    let s = String::from_utf8(bytes).unwrap();
    t.feed(s.as_str());
    t
}

fn line(t: &avt::Terminal, n: usize) -> String {
    t.screen().line(n).unwrap().text()
}

fn clear_inline(prev_canvas_height: u16) -> Vec<u8> {
    let mut term = new_inline_term_with_size(prev_canvas_height, (u16::MAX, u16::MAX));
    term.clear_canvas();
    term.out
}

fn render_canvases_to_vt(canvases: &[&Canvas], cols: usize, rows: usize) -> avt::Terminal {
    let mut buf = Vec::new();
    for (i, canvas) in canvases.iter().enumerate() {
        if i > 0 {
            buf.extend(clear_inline(canvases[i - 1].height() as u16));
        }
        buf.extend(ansi(canvas));
    }
    vt(cols, rows, buf)
}

fn render_canvas_to_vt(canvas: &Canvas, cols: usize, rows: usize) -> avt::Terminal {
    render_canvases_to_vt(&[canvas], cols, rows)
}

fn text_canvas(width: usize, height: usize, rows: &[(isize, &str)], style: CanvasTextStyle) -> Canvas {
    let mut c = Canvas::new(width, height);
    for (y, t) in rows {
        c.subview_mut(0, 0, 0, 0, width, height).set_text(0, *y, t, style);
    }
    c
}

fn numbered(height: usize) -> Canvas {
    let mut c = Canvas::new(10, height);
    for i in 0..height {
        c.subview_mut(0, 0, 0, 0, 10, height)
            .set_text(0, i as isize, &format!("row{i}"), CanvasTextStyle::default());
    }
    c
}

fn inline_diff_vt(prev: &Canvas, next: &Canvas, term_size: (u16, u16)) -> (Vec<u8>, avt::Terminal) {
    let mut term = new_inline_term_with_size(prev.height() as u16, term_size);
    term.write_canvas(Some(prev), next);
    let diff = term.out.clone();
    let mut setup = ansi(prev);
    setup.extend_from_slice(&diff);
    (diff, vt(term_size.0 as usize, term_size.1 as usize, setup))
}

#[test]
fn test_print_above_translates_newlines_in_raw_mode() {
    let mut written = passthrough_text("line1\r\nline2\nline3\rline4", true);
    written.push_str("\r\n");
    assert_eq!(written, "line1\r\nline2\r\nline3\rline4\r\n");
}

#[test]
fn test_inline_rewrite_single_line_cursor() {
    let d = CanvasTextStyle::default();
    let canvas = text_canvas(10, 1, &[(0, "hello")], d);
    let t = render_canvas_to_vt(&canvas, 10, 5);
    assert_eq!(line(&t, 0), "hello     ");
    assert_eq!(t.cursor().row, 0, "cursor should stay on the first row");

    let canvas2 = text_canvas(10, 1, &[(0, "world")], d);
    let t = render_canvases_to_vt(&[&canvas, &canvas2], 10, 5);
    assert_eq!(line(&t, 0), "world     ");
    assert_eq!(t.cursor().row, 0);
}

#[test]
fn test_inline_rewrite_multi_line_cursor() {
    let d = CanvasTextStyle::default();
    let canvas = text_canvas(10, 3, &[(0, "line1"), (2, "line3")], d);
    let t = render_canvas_to_vt(&canvas, 10, 5);
    assert_eq!(line(&t, 0), "line1     ");
    assert_eq!(line(&t, 1), "          ");
    assert_eq!(line(&t, 2), "line3     ");
    assert_eq!(t.cursor().row, 2, "cursor should be on the last content row");

    let canvas2 = text_canvas(10, 2, &[(0, "new1"), (1, "new2")], d);
    let t = render_canvases_to_vt(&[&canvas, &canvas2], 10, 5);
    assert_eq!(line(&t, 0), "new1      ");
    assert_eq!(line(&t, 1), "new2      ");
    assert_eq!(line(&t, 2), "          ", "old line 3 should be cleared");
    assert_eq!(t.cursor().row, 1);
}

#[test]
fn test_inline_rewrite_no_extra_blank_line() {
    let d = CanvasTextStyle::default();
    let canvas = text_canvas(10, 2, &[(0, "first"), (1, "second")], d);
    let t = render_canvas_to_vt(&canvas, 10, 5);
    assert_eq!(line(&t, 0), "first     ");
    assert_eq!(line(&t, 1), "second    ");
    assert_eq!(t.cursor().row, 1, "cursor stays on last content row");

    let canvas2 = text_canvas(10, 2, &[(0, "third"), (1, "fourth")], d);
    let t = render_canvases_to_vt(&[&canvas, &canvas2], 10, 5);
    assert_eq!(line(&t, 0), "third     ");
    assert_eq!(line(&t, 1), "fourth    ");
    assert_eq!(t.cursor().row, 1);
}

#[test]
fn test_fullscreen_diff_preserves_origin() {
    let d = CanvasTextStyle::default();
    let prev = text_canvas(10, 2, &[(0, "first"), (1, "second")], d);
    let next = text_canvas(10, 2, &[(0, "first"), (1, "changed")], d);
    let mut term = new_fullscreen_term(1, prev.height() as u16);
    term.write_canvas(Some(&prev), &next);

    let mut setup = Vec::new();
    setup.extend_from_slice(b"log\r\n");
    setup.extend(ansi(&prev));
    setup.extend_from_slice(&term.out);
    let t = vt(10, 5, setup);
    assert_eq!(line(&t, 0), "log       ");
    assert_eq!(line(&t, 1), "first     ");
    assert_eq!(line(&t, 2), "changed   ");
    assert_eq!(t.cursor().row, 2, "cursor should stay on the canvas bottom");
}

#[test]
fn test_fullscreen_clear_preserves_output_above() {
    let d = CanvasTextStyle::default();
    let canvas = text_canvas(10, 2, &[(0, "first"), (1, "second")], d);
    let mut term = new_fullscreen_term(1, canvas.height() as u16);
    term.clear_canvas();

    let mut setup = Vec::new();
    setup.extend_from_slice(b"log\r\n");
    setup.extend(ansi(&canvas));
    setup.extend_from_slice(b"\r\ntail");
    setup.queue(cursor::MoveTo(0, 0)).unwrap();
    setup.extend_from_slice(&term.out);
    let t = vt(10, 5, setup);
    assert_eq!(line(&t, 0), "log       ");
    assert_eq!(line(&t, 1), "          ");
    assert_eq!(line(&t, 2), "          ");
    assert_eq!(line(&t, 3), "          ");
}

#[test]
fn test_inline_diff_unchanged_row_skipped() {
    let d = CanvasTextStyle::default();
    let prev = text_canvas(10, 2, &[(0, "first"), (1, "second")], d);
    let next = text_canvas(10, 2, &[(0, "first"), (1, "changed")], d);
    let mut term = new_inline_term(prev.height() as u16);
    term.write_canvas(Some(&prev), &next);
    let mut setup = ansi(&prev);
    setup.extend_from_slice(&term.out);
    let t = vt(10, 5, setup);
    assert_eq!(line(&t, 0), "first     ");
    assert_eq!(line(&t, 1), "changed   ");
    assert_eq!(t.cursor().row, 1);
}

#[test]
fn test_inline_diff_shrinking() {
    let d = CanvasTextStyle::default();
    let prev = text_canvas(10, 3, &[(0, "aaa"), (1, "bbb"), (2, "ccc")], d);
    let next = text_canvas(10, 2, &[(0, "aaa"), (1, "ddd")], d);
    let mut term = new_inline_term(prev.height() as u16);
    term.write_canvas(Some(&prev), &next);
    let mut setup = ansi(&prev);
    setup.extend_from_slice(&term.out);
    let t = vt(10, 5, setup);
    assert_eq!(line(&t, 0), "aaa       ");
    assert_eq!(line(&t, 1), "ddd       ");
    assert_eq!(line(&t, 2), "          ", "old row 2 should be cleared");
    assert_eq!(t.cursor().row, 1, "cursor on last row of new canvas");
}

#[test]
fn test_inline_diff_growing() {
    let d = CanvasTextStyle::default();
    let prev = text_canvas(10, 2, &[(0, "aaa"), (1, "bbb")], d);
    let next = text_canvas(10, 3, &[(0, "aaa"), (1, "bbb"), (2, "ccc")], d);
    let mut term = new_inline_term(prev.height() as u16);
    term.write_canvas(Some(&prev), &next);
    let mut setup = ansi(&prev);
    setup.extend_from_slice(&term.out);
    let t = vt(10, 5, setup);
    assert_eq!(line(&t, 0), "aaa       ");
    assert_eq!(line(&t, 1), "bbb       ");
    assert_eq!(line(&t, 2), "ccc       ");
    assert_eq!(t.cursor().row, 2, "cursor on last row of new canvas");
}

#[test]
fn test_inline_diff_non_adjacent_rows_forward() {
    let style = CanvasTextStyle::default();
    let prev = numbered(5);
    let mut next = numbered(5);
    next.subview_mut(0, 0, 0, 0, 10, 5).set_text(0, 1, "AAA1", style);
    next.subview_mut(0, 0, 0, 0, 10, 5).set_text(0, 3, "BBB3", style);
    let (_diff, t) = inline_diff_vt(&prev, &next, (10, 10));
    assert_eq!(line(&t, 0), "row0      ");
    assert_eq!(line(&t, 1), "AAA1      ");
    assert_eq!(line(&t, 2), "row2      ");
    assert_eq!(line(&t, 3), "BBB3      ");
    assert_eq!(line(&t, 4), "row4      ");
}

#[test]
fn test_inline_diff_growing_at_bottom_of_screen() {
    let style = CanvasTextStyle::default();
    let prev = text_canvas(10, 1, &[(0, "hello")], style);
    let next = text_canvas(10, 2, &[(0, "hello"), (1, "world")], style);
    let mut term = new_inline_term(prev.height() as u16);
    term.write_canvas(Some(&prev), &next);

    let mut setup = Vec::new();
    let vt_rows = 5;
    for i in 0..vt_rows - 1 {
        setup.extend_from_slice(format!("line{i}\r\n").as_bytes());
    }
    setup.extend(ansi(&prev));
    setup.extend_from_slice(&term.out);
    let t = vt(10, vt_rows, setup);
    assert_eq!(line(&t, vt_rows - 2), "hello     ");
    assert_eq!(line(&t, vt_rows - 1), "world     ");
    assert_eq!(t.cursor().row, vt_rows - 1, "cursor on last row of new canvas");
}

#[test]
fn test_inline_diff_identical_canvas_is_noop() {
    let canvas = text_canvas(10, 2, &[(0, "hello"), (1, "world")], CanvasTextStyle::default());
    let mut term = new_inline_term(canvas.height() as u16);
    term.write_canvas(Some(&canvas), &canvas);
    assert!(term.out.is_empty(), "identical canvas should produce no output");
}

#[test]
fn test_fullscreen_diff_identical_canvas_is_noop() {
    let canvas = text_canvas(10, 2, &[(0, "hello"), (1, "world")], CanvasTextStyle::default());
    let mut term = new_fullscreen_term(0, canvas.height() as u16);
    term.write_canvas(Some(&canvas), &canvas);
    let s = String::from_utf8(term.out.clone()).unwrap();
    assert!(
        !s.contains("hello") && !s.contains("world"),
        "identical canvas should not rewrite any row content"
    );
}

#[test]
fn test_inline_diff_styled_text_preserved() {
    let mut bold_style = CanvasTextStyle::default();
    bold_style.weight = Weight::Bold;
    bold_style.color = Some(Color::Red);
    let mut prev = text_canvas(10, 2, &[(0, "hello")], bold_style);
    prev.subview_mut(0, 0, 0, 0, 10, 2).set_text(0, 1, "old", CanvasTextStyle::default());
    let next = text_canvas(10, 2, &[(0, "hello"), (1, "new")], bold_style);
    let mut term = new_inline_term(prev.height() as u16);
    term.write_canvas(Some(&prev), &next);
    let mut setup = ansi(&prev);
    setup.extend_from_slice(&term.out);
    let t = vt(10, 5, setup);

    let row0 = t.screen().line(0).unwrap();
    assert_eq!(row0.text(), "hello     ");
    assert!(row0.cells()[0].pen().is_bold());
    assert!(row0.cells()[0].pen().foreground().is_some());

    let row1 = t.screen().line(1).unwrap();
    assert_eq!(row1.text(), "new       ");
    assert!(row1.cells()[0].pen().is_bold());
    assert!(row1.cells()[0].pen().foreground().is_some());
}

#[test]
fn test_fullscreen_diff_styled_text_preserved() {
    let mut underline_style = CanvasTextStyle::default();
    underline_style.underline = true;
    underline_style.color = Some(Color::Green);
    let mut prev = text_canvas(10, 2, &[(0, "keep")], underline_style);
    prev.subview_mut(0, 0, 0, 0, 10, 2).set_text(0, 1, "old", CanvasTextStyle::default());
    let next = text_canvas(10, 2, &[(0, "keep"), (1, "new")], underline_style);
    let mut term = new_fullscreen_term(0, prev.height() as u16);
    term.write_canvas(Some(&prev), &next);
    let mut setup = ansi(&prev);
    setup.extend_from_slice(&term.out);
    let t = vt(10, 5, setup);

    let row0 = t.screen().line(0).unwrap();
    assert_eq!(row0.text(), "keep      ");
    assert!(row0.cells()[0].pen().is_underline());

    let row1 = t.screen().line(1).unwrap();
    assert_eq!(row1.text(), "new       ");
    assert!(row1.cells()[0].pen().is_underline());
    assert!(row1.cells()[0].pen().foreground().is_some());
}

#[test]
fn test_inline_diff_at_terminal_height_boundary() {
    let d = CanvasTextStyle::default();
    let prev = text_canvas(10, 5, &[(0, "aaa"), (4, "bbb")], d);
    let next = text_canvas(10, 5, &[(0, "aaa"), (4, "ccc")], d);
    let (_diff, t) = inline_diff_vt(&prev, &next, (10, 5));
    assert_eq!(line(&t, 0), "aaa       ");
    assert_eq!(line(&t, 4), "ccc       ");
}

#[test]
fn test_inline_diff_tall_canvas_visible_change() {
    let style = CanvasTextStyle::default();
    let prev = numbered(8);
    let mut next = Canvas::new(10, 8);
    for i in 0..7 {
        next.subview_mut(0, 0, 0, 0, 10, 8).set_text(0, i, &format!("row{i}"), style);
    }
    next.subview_mut(0, 0, 0, 0, 10, 8).set_text(0, 7, "CHANGED", style);
    let (diff, t) = inline_diff_vt(&prev, &next, (10, 5));
    let diff_str = String::from_utf8_lossy(&diff);
    assert!(!diff_str.contains("\x1b[2J"), "expected row-level diff, not full clear; got: {diff_str:?}");
    assert_eq!(line(&t, 0), "row3      ");
    assert_eq!(line(&t, 4), "CHANGED   ");
}

#[test]
fn test_inline_diff_tall_canvas_offscreen_change() {
    let style = CanvasTextStyle::default();
    let prev = numbered(8);
    let mut next = numbered(8);
    next.subview_mut(0, 0, 0, 0, 10, 8).set_text(0, 1, "OFFSCR", style);
    let (diff, t) = inline_diff_vt(&prev, &next, (10, 5));
    let diff_str = String::from_utf8_lossy(&diff);
    assert!(diff_str.contains("\x1b[2J"), "expected full clear fallback; got: {diff_str:?}");
    assert_eq!(line(&t, 0), "row3      ");
    assert_eq!(line(&t, 4), "row7      ");
}

#[test]
fn test_inline_diff_sequential_updates() {
    let style = CanvasTextStyle::default();
    let c1 = text_canvas(10, 2, &[(0, "aaa"), (1, "bbb")], style);
    let c2 = text_canvas(10, 2, &[(0, "aaa"), (1, "ccc")], style);
    let c3 = text_canvas(10, 3, &[(0, "xxx"), (1, "ccc"), (2, "ddd")], style);
    let mut term = new_inline_term(c1.height() as u16);
    term.write_canvas(Some(&c1), &c2);
    term.write_canvas(Some(&c2), &c3);
    let mut setup = ansi(&c1);
    setup.extend_from_slice(&term.out);
    let t = vt(10, 6, setup);
    assert_eq!(line(&t, 0), "xxx       ");
    assert_eq!(line(&t, 1), "ccc       ");
    assert_eq!(line(&t, 2), "ddd       ");
    assert_eq!(t.cursor().row, 2, "cursor on last row of final canvas");
}

#[test]
fn test_fullscreen_diff_sequential_updates() {
    let style = CanvasTextStyle::default();
    let c1 = text_canvas(10, 2, &[(0, "aaa"), (1, "bbb")], style);
    let c2 = text_canvas(10, 2, &[(0, "aaa"), (1, "ccc")], style);
    let c3 = text_canvas(10, 3, &[(0, "xxx"), (1, "ccc"), (2, "ddd")], style);
    let mut term = new_fullscreen_term(0, c1.height() as u16);
    term.write_canvas(Some(&c1), &c2);
    term.write_canvas(Some(&c2), &c3);
    let mut setup = ansi(&c1);
    setup.extend_from_slice(&term.out);
    let t = vt(10, 6, setup);
    assert_eq!(line(&t, 0), "xxx       ");
    assert_eq!(line(&t, 1), "ccc       ");
    assert_eq!(line(&t, 2), "ddd       ");
    assert_eq!(t.cursor().row, 2, "cursor on last row of final canvas");
}

fn make_fullscreen_diff_canvases(changed_row: usize) -> (Canvas, Canvas) {
    let style = CanvasTextStyle::default();
    let width = 10;
    let height = 5;
    let build = |highlight: bool| {
        let mut c = Canvas::new(width, height);
        let mut sv = c.subview_mut(0, 0, 0, 0, width, height);
        for y in 0..4u32 {
            sv.set_text(0, y as isize, &format!("row{y}"), style);
        }
        sv.set_text(0, 4, "FOOTER", style);
        sv.set_background_color(0, 4, width, 1, Color::Green);
        if highlight {
            sv.set_background_color(0, changed_row as isize, 1, 1, Color::Yellow);
        }
        c
    };
    (build(false), build(true))
}

#[test]
fn test_fullscreen_diff_zero_top_row_renders_correctly() {
    let (prev, next) = make_fullscreen_diff_canvases(2);
    let width = prev.width();
    let height = prev.height();
    let mut term = new_fullscreen_term(0, height as u16);
    term.write_canvas(Some(&prev), &next);
    let mut setup = ansi(&prev);
    setup.extend_from_slice(&term.out);
    let t = vt(width, height + 2, setup);
    assert_eq!(line(&t, 0), "row0      ");
    assert_eq!(line(&t, 1), "row1      ");
    assert_eq!(line(&t, 2), "row2      ");
    assert_eq!(line(&t, 3), "row3      ");
    assert_eq!(line(&t, 4), "FOOTER    ", "every row must appear at its correct terminal position");
}

#[test]
fn test_fullscreen_diff_nonzero_top_row_offsets_changed_rows() {
    let (prev, next) = make_fullscreen_diff_canvases(1);
    let width = prev.width();
    let height = prev.height();
    let mut term = new_fullscreen_term(2, height as u16);
    term.write_canvas(Some(&prev), &next);
    let mut setup = ansi(&prev);
    setup.extend_from_slice(&term.out);
    let t = vt(width, height + 4, setup);
    assert_eq!(
        line(&t, 3),
        "row1      ",
        "row 1's diff landed at terminal line 3 (offset 2+1) instead of line 1"
    );
}

#[test]
fn test_fullscreen_initial_write_sets_zero_top_row() {
    let (initial, next) = make_fullscreen_diff_canvases(2);
    let width = initial.width();
    let height = initial.height();
    let mut term = new_fullscreen_term(99, 0);
    term.write_canvas(None, &initial);
    assert_eq!(term.st.prev_canvas_top_row, 0, "initial fullscreen write must anchor prev_canvas_top_row at 0");
    term.write_canvas(Some(&initial), &next);
    let t = vt(width, height + 2, term.out.clone());
    assert_eq!(line(&t, 0), "row0      ");
    assert_eq!(line(&t, 1), "row1      ");
    assert_eq!(line(&t, 2), "row2      ");
    assert_eq!(line(&t, 3), "row3      ");
    assert_eq!(line(&t, 4), "FOOTER    ");
}
