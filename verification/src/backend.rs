//! How a terminal backend updates the screen: which terminal commands it
//! sends to clear the last canvas or to replace it with a new one, row by
//! row where only some rows changed; and the text written above a canvas.
use vstd::prelude::*;
use crate::canvas::{Canvas, CellView};
use crate::canvas;

verus! {

/// A terminal command.
#[derive(Clone, Copy, Debug, PartialEq, Eq, Structural)]
pub enum TermOp {
    /// Moves the cursor to a column and row.
    MoveTo(u16, u16),
    /// Moves the cursor to a column of its row.
    MoveToColumn(u16),
    /// Moves the cursor up by some lines, to the first column.
    MoveToPreviousLine(u16),
    /// Moves the cursor down by some lines, to the first column.
    MoveToNextLine(u16),
    /// Clears from the cursor to the end of the screen.
    ClearFromCursorDown,
    /// Clears the whole screen.
    ClearAll,
    /// Clears the scrollback.
    ClearPurge,
    /// Clears the cursor's line.
    ClearCurrentLine,
    /// Writes `"\r\n"`.
    WriteCrLf,
    /// Writes the new canvas, without a final newline.
    WriteCanvas,
    /// Writes one row of the new canvas, without a newline.
    WriteRow(usize),
}

/// What a backend remembers between writes.
#[derive(Clone, Copy, Debug)]
pub struct BackendState {
    /// Whether the canvas fills the screen.
    pub fullscreen: bool,
    /// The screen row the last canvas starts at (in fullscreen mode).
    pub prev_canvas_top_row: u16,
    /// The height of the last canvas written.
    pub prev_canvas_height: u16,
    /// The terminal size at the last write.
    pub prev_size_on_write: Option<(u16, u16)>,
    /// The terminal size, where it is known.
    pub size: Option<(u16, u16)>,
}

/// The commands that clear the last canvas: none where there is none; in
/// fullscreen mode, clearing from its top row down; where it was as tall as
/// the screen, clearing the whole screen and scrollback; otherwise moving
/// up to its first line and clearing down from there.
pub open spec fn clear_ops(st: BackendState) -> Seq<TermOp> {
    if st.prev_canvas_height == 0 {
        Seq::empty()
    } else if st.fullscreen {
        seq![TermOp::MoveTo(0, st.prev_canvas_top_row), TermOp::ClearFromCursorDown]
    } else if st.size matches Some(sz) && st.prev_canvas_height >= sz.1 {
        seq![TermOp::ClearAll, TermOp::ClearPurge, TermOp::MoveTo(0, 0)]
    } else if st.prev_canvas_height - 1 == 0 {
        seq![TermOp::MoveToColumn(0), TermOp::ClearFromCursorDown]
    } else {
        seq![TermOp::MoveToPreviousLine((st.prev_canvas_height - 1) as u16), TermOp::ClearFromCursorDown]
    }
}

/// Whether row `y` differs between two canvases (or is missing from one).
pub open spec fn row_differs(prev: Seq<Seq<CellView>>, cur: Seq<Seq<CellView>>, y: int) -> bool {
    !(y < prev.len() && y < cur.len() && prev[y] == cur[y])
}

/// `a - b`, or 0 where that is negative.
pub open spec fn sat_sub(a: int, b: int) -> int {
    if a > b {
        a - b
    } else {
        0
    }
}

/// The larger of two integers.
pub open spec fn imax(a: int, b: int) -> int {
    if a > b {
        a
    } else {
        b
    }
}

/// The commands that move the cursor from line `c` to line `y` of an inline
/// canvas whose previous version had `prev_h` lines: up, or down over lines
/// that exist, and with new lines past the last one.
pub open spec fn inline_move(c: int, y: int, prev_h: int) -> Seq<TermOp> {
    if y < c {
        seq![TermOp::MoveToPreviousLine((c - y) as u16)]
    } else if y > c {
        let last = imax(sat_sub(prev_h, 1), c);
        if y <= last {
            seq![TermOp::MoveToNextLine((y - c) as u16)]
        } else {
            let m = sat_sub(last, c);
            (if m > 0 {
                seq![TermOp::MoveToNextLine(m as u16)]
            } else {
                Seq::empty()
            }) + Seq::new((y - last) as nat, |_i: int| TermOp::WriteCrLf)
        }
    } else {
        seq![TermOp::MoveToColumn(0)]
    }
}

/// The commands that update an inline canvas from row `y` on, with the
/// cursor on line `c`: each changed row is reached and rewritten (or
/// cleared, past the new canvas); the result is the commands and the line
/// the cursor ends on, or nothing where a changed row has scrolled off the
/// screen (and the canvas has to be written anew).
pub open spec fn inline_rows(
    prev: Seq<Seq<CellView>>,
    cur: Seq<Seq<CellView>>,
    size: Option<(u16, u16)>,
    y: int,
    c: int,
) -> Option<(Seq<TermOp>, int)>
    decreases imax(prev.len() as int, cur.len() as int) - y,
{
    if y >= imax(prev.len() as int, cur.len() as int) {
        Some((Seq::empty(), c))
    } else if !row_differs(prev, cur, y) {
        inline_rows(prev, cur, size, y + 1, c)
    } else if size matches Some(sz) && y < sat_sub(prev.len() as int, sz.1 as int) {
        None
    } else {
        let ops = inline_move(c, y, prev.len() as int) + seq![
            if y < cur.len() {
                TermOp::WriteRow(y as usize)
            } else {
                TermOp::ClearCurrentLine
            },
        ];
        match inline_rows(prev, cur, size, y + 1, y) {
            Some((rest, c2)) => Some((ops + rest, c2)),
            None => None,
        }
    }
}

/// The commands that move the cursor from line `c` to line `target`.
pub open spec fn reposition(c: int, target: int) -> Seq<TermOp> {
    if target > c {
        seq![TermOp::MoveToNextLine((target - c) as u16)]
    } else if target < c {
        seq![TermOp::MoveToPreviousLine((c - target) as u16)]
    } else {
        Seq::empty()
    }
}

/// The commands that update a fullscreen canvas from row `y` on: each
/// changed row is reached by its screen position and rewritten (or cleared,
/// past the new canvas).
pub open spec fn fullscreen_rows(prev: Seq<Seq<CellView>>, cur: Seq<Seq<CellView>>, top: u16, y: int) -> Seq<TermOp>
    decreases imax(prev.len() as int, cur.len() as int) - y,
{
    if y >= imax(prev.len() as int, cur.len() as int) {
        Seq::empty()
    } else {
        let here = if row_differs(prev, cur, y) {
            seq![
                TermOp::MoveTo(0, (top + (y as u16)) as u16),
                if y < cur.len() {
                    TermOp::WriteRow(y as usize)
                } else {
                    TermOp::ClearCurrentLine
                },
            ]
        } else {
            Seq::empty()
        };
        here + fullscreen_rows(prev, cur, top, y + 1)
    }
}

/// Where the cursor ends, starting on line `c`, after commands that move it
/// relatively.
pub open spec fn cursor_after(ops: Seq<TermOp>, c: int) -> int
    decreases ops.len(),
{
    if ops.len() == 0 {
        c
    } else {
        let c1 = match ops[0] {
            TermOp::MoveToPreviousLine(n) => c - n,
            TermOp::MoveToNextLine(n) => c + n,
            TermOp::WriteCrLf => c + 1,
            TermOp::MoveTo(_, row) => row as int,
            _ => c,
        };
        cursor_after(ops.drop_first(), c1)
    }
}

/// Commands run one after another move the cursor as their parts do.
proof fn lemma_cursor_after_concat(a: Seq<TermOp>, b: Seq<TermOp>, c: int)
    ensures
        cursor_after(a + b, c) == cursor_after(b, cursor_after(a, c)),
    decreases a.len(),
{
    if a.len() > 0 {
        assert((a + b).drop_first() =~= a.drop_first() + b);
        let c1 = match a[0] {
            TermOp::MoveToPreviousLine(n) => c - n,
            TermOp::MoveToNextLine(n) => c + n,
            TermOp::WriteCrLf => c + 1,
            TermOp::MoveTo(_, row) => row as int,
            _ => c,
        };
        lemma_cursor_after_concat(a.drop_first(), b, c1);
    } else {
        assert(a + b =~= b);
    }
}

/// A run of line breaks moves the cursor down by as many lines.
proof fn lemma_cursor_after_crlfs(n: nat, c: int)
    ensures
        cursor_after(Seq::new(n, |_i: int| TermOp::WriteCrLf), c) == c + n,
    decreases n,
{
    if n > 0 {
        let s = Seq::new(n, |_i: int| TermOp::WriteCrLf);
        assert(s.drop_first() =~= Seq::new((n - 1) as nat, |_i: int| TermOp::WriteCrLf));
        lemma_cursor_after_crlfs((n - 1) as nat, c + 1);
    }
}

/// Moving the cursor between lines of a canvas no taller than a `u16` can
/// count puts it on the line it was moved to.
proof fn lemma_inline_move_lands(c: int, y: int, prev_h: int)
    requires
        0 <= c <= u16::MAX,
        0 <= y <= u16::MAX,
        0 <= prev_h <= u16::MAX + 1,
    ensures
        cursor_after(inline_move(c, y, prev_h), c) == y,
{
    reveal_with_fuel(cursor_after, 2);
    if y > c {
        let last = imax(sat_sub(prev_h, 1), c);
        if y > last {
            let m = sat_sub(last, c);
            let pre: Seq<TermOp> = if m > 0 {
                seq![TermOp::MoveToNextLine(m as u16)]
            } else {
                Seq::empty()
            };
            lemma_cursor_after_concat(pre, Seq::new((y - last) as nat, |_i: int| TermOp::WriteCrLf), c);
            if m > 0 {
                assert(pre.drop_first() =~= Seq::<TermOp>::empty());
            }
            lemma_cursor_after_crlfs((y - last) as nat, last);
        } else {
            let s = seq![TermOp::MoveToNextLine((y - c) as u16)];
            assert(s.drop_first() =~= Seq::<TermOp>::empty());
        }
    } else if y < c {
        let s = seq![TermOp::MoveToPreviousLine((c - y) as u16)];
        assert(s.drop_first() =~= Seq::<TermOp>::empty());
    } else {
        let s = seq![TermOp::MoveToColumn(0)];
        assert(s.drop_first() =~= Seq::<TermOp>::empty());
    }
}

/// Rewriting the changed rows of an inline canvas ends with the cursor on
/// the line the commands say.
proof fn lemma_inline_rows_cursor(prev: Seq<Seq<CellView>>, cur: Seq<Seq<CellView>>, size: Option<(u16, u16)>, y: int, c: int)
    requires
        0 <= y,
        0 <= c <= u16::MAX,
        prev.len() <= u16::MAX,
        cur.len() <= u16::MAX,
    ensures
        inline_rows(prev, cur, size, y, c) matches Some((ops, c2)) ==> cursor_after(ops, c) == c2 && 0 <= c2
            <= u16::MAX,
    decreases imax(prev.len() as int, cur.len() as int) - y,
{
    reveal_with_fuel(cursor_after, 2);
    if y < imax(prev.len() as int, cur.len() as int) {
        if !row_differs(prev, cur, y) {
            lemma_inline_rows_cursor(prev, cur, size, y + 1, c);
        } else if !(size matches Some(sz) && y < sat_sub(prev.len() as int, sz.1 as int)) {
            lemma_inline_rows_cursor(prev, cur, size, y + 1, y);
            lemma_inline_move_lands(c, y, prev.len() as int);
            let w = seq![
                if y < cur.len() {
                    TermOp::WriteRow(y as usize)
                } else {
                    TermOp::ClearCurrentLine
                },
            ];
            assert(w.drop_first() =~= Seq::<TermOp>::empty());
            lemma_cursor_after_concat(inline_move(c, y, prev.len() as int), w, c);
            match inline_rows(prev, cur, size, y + 1, y) {
                Some((rest, c2)) => {
                    lemma_cursor_after_concat(inline_move(c, y, prev.len() as int) + w, rest, c);
                },
                None => {},
            }
        }
    }
}

/// The commands that replace the last canvas (`prev`, if any) with a new
/// one, and the backend's state after: see [`BackendState::write_canvas`].
pub open spec fn write_plan(
    st: BackendState,
    prev: Option<Seq<Seq<CellView>>>,
    cur: Seq<Seq<CellView>>,
) -> (Seq<TermOp>, BackendState) {
    let new_h = cur.len() as u16;
    match prev {
        None => (
            (if st.fullscreen {
                seq![TermOp::MoveTo(0, 0)]
            } else {
                Seq::empty()
            }) + seq![TermOp::WriteCanvas],
            BackendState {
                prev_canvas_top_row: if st.fullscreen {
                    0
                } else {
                    st.prev_canvas_top_row
                },
                prev_canvas_height: new_h,
                ..st
            },
        ),
        Some(p) => if st.fullscreen {
            if st.prev_size_on_write != st.size {
                (
                    clear_ops(st) + seq![TermOp::WriteCanvas],
                    BackendState { prev_canvas_height: new_h, prev_size_on_write: st.size, ..st },
                )
            } else {
                (
                    fullscreen_rows(p, cur, st.prev_canvas_top_row, 0) + (if cur.len() > 0 {
                        seq![TermOp::MoveTo(0, (st.prev_canvas_top_row + new_h - 1) as u16)]
                    } else {
                        Seq::empty()
                    }),
                    BackendState { prev_canvas_height: new_h, ..st },
                )
            }
        } else {
            let st1 = BackendState { prev_size_on_write: st.size, ..st };
            match inline_rows(p, cur, st.size, 0, sat_sub(p.len() as int, 1)) {
                None => (clear_ops(st1) + seq![TermOp::WriteCanvas], BackendState { prev_canvas_height: new_h, ..st1 }),
                Some((ops, c)) => (
                    ops + reposition(c, sat_sub(cur.len() as int, 1)),
                    BackendState { prev_canvas_height: new_h, ..st1 },
                ),
            }
        },
    }
}

/// Whether two sizes are the same.
fn same_size(a: Option<(u16, u16)>, b: Option<(u16, u16)>) -> (r: bool)
    ensures
        r == (a == b),
{
    match (a, b) {
        (None, None) => true,
        (Some(x), Some(y)) => x.0 == y.0 && x.1 == y.1,
        _ => false,
    }
}

/// Appends a run of commands.
fn push_ops(out: &mut Vec<TermOp>, ops: &Vec<TermOp>)
    ensures
        final(out)@ == old(out)@ + ops@,
{
    let mut i: usize = 0;
    let ghost o = out@;
    while i < ops.len()
        invariant
            i <= ops@.len(),
            out@ == o + ops@.take(i as int),
        decreases ops@.len() - i,
    {
        out.push(ops[i]);
        i += 1;
        assert(ops@.take(i as int) =~= ops@.take(i - 1).push(ops@[i - 1]));
    }
    assert(ops@.take(ops@.len() as int) =~= ops@);
}

impl BackendState {
    /// A backend that has written nothing.
    pub fn new(fullscreen: bool, size: Option<(u16, u16)>) -> (r: BackendState)
        ensures
            r == (BackendState {
                fullscreen,
                prev_canvas_top_row: 0,
                prev_canvas_height: 0,
                prev_size_on_write: None,
                size,
            }),
    {
        BackendState { fullscreen, prev_canvas_top_row: 0, prev_canvas_height: 0, prev_size_on_write: None, size }
    }

    /// Appends the commands that clear the last canvas, as [`clear_ops`]
    /// lists.
    pub fn clear_canvas(&self, out: &mut Vec<TermOp>)
        ensures
            final(out)@ == old(out)@ + clear_ops(*self),
    {
        let ghost o = out@;
        if self.prev_canvas_height == 0 {
            assert(out@ =~= o + clear_ops(*self));
            return;
        }
        if self.fullscreen {
            out.push(TermOp::MoveTo(0, self.prev_canvas_top_row));
            out.push(TermOp::ClearFromCursorDown);
            assert(out@ =~= o + clear_ops(*self));
            return;
        }
        if let Some(sz) = self.size {
            if self.prev_canvas_height >= sz.1 {
                out.push(TermOp::ClearAll);
                out.push(TermOp::ClearPurge);
                out.push(TermOp::MoveTo(0, 0));
                assert(out@ =~= o + clear_ops(*self));
                return;
            }
        }
        let lines_to_rewind = self.prev_canvas_height - 1;
        if lines_to_rewind == 0 {
            out.push(TermOp::MoveToColumn(0));
        } else {
            out.push(TermOp::MoveToPreviousLine(lines_to_rewind));
        }
        out.push(TermOp::ClearFromCursorDown);
        assert(out@ =~= o + clear_ops(*self));
    }

    /// Appends the commands that replace the last canvas with `canvas`, as
    /// [`write_plan`] lists, and updates the state. Without a last canvas,
    /// the canvas is written whole. In fullscreen mode, a change of terminal
    /// size clears the screen and writes the canvas whole; otherwise each
    /// changed row is rewritten at its screen row. Inline, each changed row
    /// is reached with relative moves and rewritten, unless one has scrolled
    /// off the screen, in which case the canvas is cleared and written whole;
    /// the cursor ends on the new canvas's last line.
    pub fn write_canvas(&mut self, prev: Option<&Canvas>, canvas: &Canvas, out: &mut Vec<TermOp>)
        requires
            canvas.rows().len() <= u16::MAX,
            prev matches Some(p) ==> p.rows().len() <= u16::MAX,
            old(self).fullscreen && prev is Some && old(self).prev_size_on_write == old(self).size ==> old(self).prev_canvas_top_row
                + imax(prev->0.rows().len() as int, canvas.rows().len() as int) <= u16::MAX + 1 && (canvas.rows().len() > 0
                ==> old(self).prev_canvas_top_row + canvas.rows().len() <= u16::MAX),
        ensures
            ({
                let plan = write_plan(
                    *old(self),
                    match prev {
                        Some(p) => Some(p.rows()),
                        None => None,
                    },
                    canvas.rows(),
                );
                final(out)@ == old(out)@ + plan.0 && *final(self) == plan.1
            }),
    {
        let new_h = canvas.height();
        let p = match prev {
            None => {
                let ghost o = out@;
                if self.fullscreen {
                    self.prev_canvas_top_row = 0;
                    out.push(TermOp::MoveTo(0, 0));
                }
                self.prev_canvas_height = new_h as u16;
                out.push(TermOp::WriteCanvas);
                assert(out@ =~= o + write_plan(*old(self), None, canvas.rows()).0);
                return;
            },
            Some(p) => p,
        };
        if self.fullscreen {
            self.write_fullscreen(p, canvas, out);
        } else {
            self.write_inline(p, canvas, out);
        }
    }

    /// The fullscreen part of [`BackendState::write_canvas`].
    fn write_fullscreen(&mut self, prev: &Canvas, canvas: &Canvas, out: &mut Vec<TermOp>)
        requires
            old(self).fullscreen,
            canvas.rows().len() <= u16::MAX,
            prev.rows().len() <= u16::MAX,
            old(self).prev_size_on_write == old(self).size ==> old(self).prev_canvas_top_row + imax(
                prev.rows().len() as int,
                canvas.rows().len() as int,
            ) <= u16::MAX + 1 && (canvas.rows().len() > 0 ==> old(self).prev_canvas_top_row + canvas.rows().len() <= u16::MAX),
        ensures
            ({
                let plan = write_plan(*old(self), Some(prev.rows()), canvas.rows());
                final(out)@ == old(out)@ + plan.0 && *final(self) == plan.1
            }),
    {
        let ghost o = out@;
        let new_h = canvas.height();
        if !same_size(self.prev_size_on_write, self.size) {
            self.clear_canvas(out);
            self.prev_canvas_height = new_h as u16;
            self.prev_size_on_write = self.size;
            out.push(TermOp::WriteCanvas);
            assert(out@ =~= o + write_plan(*old(self), Some(prev.rows()), canvas.rows()).0);
            return;
        }
        let top = self.prev_canvas_top_row;
        let prev_h = prev.height();
        let max_h = if prev_h > new_h { prev_h } else { new_h };
        let mut y: usize = 0;
        let ghost all = fullscreen_rows(prev.rows(), canvas.rows(), top, 0);
        assert(out@ + fullscreen_rows(prev.rows(), canvas.rows(), top, 0) =~= o + all);
        while y < max_h
            invariant
                y <= max_h,
                max_h == imax(prev.rows().len() as int, canvas.rows().len() as int),
                new_h == canvas.rows().len(),
                top + max_h <= u16::MAX + 1,
                all == fullscreen_rows(prev.rows(), canvas.rows(), top, 0),
                o + all == out@ + fullscreen_rows(prev.rows(), canvas.rows(), top, y as int),
            decreases max_h - y,
        {
            let ghost before = out@;
            if !prev.row_eq(canvas, y) {
                out.push(TermOp::MoveTo(0, top + y as u16));
                if y < new_h {
                    out.push(TermOp::WriteRow(y));
                } else {
                    out.push(TermOp::ClearCurrentLine);
                }
            }
            let ghost here = if row_differs(prev.rows(), canvas.rows(), y as int) {
                seq![
                    TermOp::MoveTo(0, (top + (y as u16)) as u16),
                    if y < canvas.rows().len() {
                        TermOp::WriteRow(y as usize)
                    } else {
                        TermOp::ClearCurrentLine
                    },
                ]
            } else {
                Seq::empty()
            };
            assert(out@ =~= before + here);
            assert(fullscreen_rows(prev.rows(), canvas.rows(), top, y as int) == here + fullscreen_rows(prev.rows(), canvas.rows(), top, y + 1));
            y += 1;
            assert(o + all =~= out@ + fullscreen_rows(prev.rows(), canvas.rows(), top, y as int));
        }
        assert(fullscreen_rows(prev.rows(), canvas.rows(), top, y as int) =~= Seq::<TermOp>::empty());
        let ghost mid = out@;
        if new_h > 0 {
            out.push(TermOp::MoveTo(0, top + new_h as u16 - 1));
        }
        self.prev_canvas_height = new_h as u16;
        assert(out@ =~= o + write_plan(*old(self), Some(prev.rows()), canvas.rows()).0);
    }

    /// The inline part of [`BackendState::write_canvas`].
    #[verifier::rlimit(40)]
    fn write_inline(&mut self, prev: &Canvas, canvas: &Canvas, out: &mut Vec<TermOp>)
        requires
            !old(self).fullscreen,
            canvas.rows().len() <= u16::MAX,
            prev.rows().len() <= u16::MAX,
        ensures
            ({
                let plan = write_plan(*old(self), Some(prev.rows()), canvas.rows());
                final(out)@ == old(out)@ + plan.0 && *final(self) == plan.1
            }),
    {
        let ghost o = out@;
        self.prev_size_on_write = self.size;
        let prev_h = prev.height();
        let new_h = canvas.height();
        let max_h = if prev_h > new_h { prev_h } else { new_h };
        let mut current_y: usize = if prev_h > 0 { prev_h - 1 } else { 0 };
        let ghost pr = prev.rows();
        let ghost cr = canvas.rows();
        let ghost c0 = current_y as int;
        let mut ops: Vec<TermOp> = Vec::new();
        let mut y: usize = 0;
        while y < max_h
            invariant
                y <= max_h,
                max_h == imax(pr.len() as int, cr.len() as int),
                prev_h == pr.len(),
                new_h == cr.len(),
                pr == prev.rows(),
                cr == canvas.rows(),
                max_h <= u16::MAX,
                current_y <= u16::MAX,
                c0 == sat_sub(pr.len() as int, 1),
                out@ == o,
                o == old(out)@,
                !old(self).fullscreen,
                *self == (BackendState { prev_size_on_write: old(self).size, ..*old(self) }),
                match inline_rows(pr, cr, self.size, 0, c0) {
                    Some((all, c)) => match inline_rows(pr, cr, self.size, y as int, current_y as int) {
                        Some((rest, c2)) => all == ops@ + rest && c == c2,
                        None => false,
                    },
                    None => inline_rows(pr, cr, self.size, y as int, current_y as int) is None,
                },
            decreases max_h - y,
        {
            if prev.row_eq(canvas, y) {
                assert(inline_rows(pr, cr, self.size, y as int, current_y as int) == inline_rows(pr, cr, self.size, y + 1, current_y as int));
                y += 1;
                continue;
            }
            if let Some(sz) = self.size {
                let term_h = sz.1 as usize;
                let visible_start = if prev_h > term_h { prev_h - term_h } else { 0 };
                if y < visible_start {
                    assert(inline_rows(pr, cr, self.size, y as int, current_y as int) is None);
                    assert(inline_rows(pr, cr, self.size, 0, c0) is None);
                    let ghost st1 = *self;
                    self.clear_canvas(out);
                    self.prev_canvas_height = new_h as u16;
                    out.push(TermOp::WriteCanvas);
                    assert(out@ =~= o + (clear_ops(st1) + seq![TermOp::WriteCanvas]));
                    assert(out@ =~= o + write_plan(*old(self), Some(pr), cr).0);
                    return;
                }
            }
            let ghost before = ops@;
            let ghost cy = current_y as int;
            let ghost yy = y as int;
            if y < current_y {
                ops.push(TermOp::MoveToPreviousLine((current_y - y) as u16));
            } else if y > current_y {
                let last_existing_line = if prev_h > 0 && prev_h - 1 > current_y { prev_h - 1 } else { current_y };
                if y <= last_existing_line {
                    ops.push(TermOp::MoveToNextLine((y - current_y) as u16));
                } else {
                    let move_to_last = last_existing_line - current_y;
                    if move_to_last > 0 {
                        ops.push(TermOp::MoveToNextLine(move_to_last as u16));
                    }
                    let ghost mid = ops@;
                    let new_lines = y - last_existing_line;
                    let mut k: usize = 0;
                    while k < new_lines
                        invariant
                            k <= new_lines,
                            ops@ == mid + Seq::new(k as nat, |_i: int| TermOp::WriteCrLf),
                        decreases new_lines - k,
                    {
                        ops.push(TermOp::WriteCrLf);
                        k += 1;
                        assert(ops@ =~= mid + Seq::new(k as nat, |_i: int| TermOp::WriteCrLf));
                    }
                }
            } else {
                ops.push(TermOp::MoveToColumn(0));
            }
            assert(ops@ =~= before + inline_move(cy, yy, pr.len() as int));
            let ghost w = seq![
                if yy < cr.len() {
                    TermOp::WriteRow(yy as usize)
                } else {
                    TermOp::ClearCurrentLine
                },
            ];
            if y < new_h {
                ops.push(TermOp::WriteRow(y));
            } else {
                ops.push(TermOp::ClearCurrentLine);
            }
            assert(ops@ =~= before + (inline_move(cy, yy, pr.len() as int) + w));
            current_y = y;
            y += 1;
            proof {
                match inline_rows(pr, cr, self.size, yy + 1, yy) {
                    Some((rest, c2)) => {
                        assert(inline_rows(pr, cr, self.size, yy, cy) == Some(((inline_move(cy, yy, pr.len() as int) + w) + rest, c2)));
                        assert(before + ((inline_move(cy, yy, pr.len() as int) + w) + rest) =~= ops@ + rest);
                    },
                    None => {
                        assert(inline_rows(pr, cr, self.size, yy, cy) is None);
                    },
                }
            }
        }
        assert(inline_rows(pr, cr, self.size, y as int, current_y as int) == Some((Seq::<TermOp>::empty(), current_y as int)));
        let target_y = if new_h > 0 { new_h - 1 } else { 0 };
        if target_y > current_y {
            ops.push(TermOp::MoveToNextLine((target_y - current_y) as u16));
        } else if target_y < current_y {
            ops.push(TermOp::MoveToPreviousLine((current_y - target_y) as u16));
        }
        let ghost final_ops = ops@;
        self.prev_canvas_height = new_h as u16;
        assert(ops@ =~= write_plan(*old(self), Some(pr), cr).0) by {
            assert(final_ops =~= ops@);
        }
        push_ops(out, &ops);
    }
}


/// Every row the commands rewrite is one that changed.
pub open spec fn rewrites_only_changed(ops: Seq<TermOp>, prev: Seq<Seq<CellView>>, cur: Seq<Seq<CellView>>) -> bool {
    forall|i: int| 0 <= i < ops.len() ==> (#[trigger] ops[i] matches TermOp::WriteRow(y) ==> row_differs(prev, cur, y as int))
}

/// Cursor moves write no rows.
proof fn lemma_inline_move_no_rows(c: int, y: int, prev_h: int)
    ensures
        forall|i: int| 0 <= i < inline_move(c, y, prev_h).len() ==> !(#[trigger] inline_move(c, y, prev_h)[i] is WriteRow),
{
}

/// The inline commands rewrite only rows that changed.
proof fn lemma_inline_rows_changed(prev: Seq<Seq<CellView>>, cur: Seq<Seq<CellView>>, size: Option<(u16, u16)>, y: int, c: int)
    requires
        0 <= y,
        cur.len() <= usize::MAX,
    ensures
        inline_rows(prev, cur, size, y, c) matches Some((ops, c2)) ==> rewrites_only_changed(ops, prev, cur),
    decreases imax(prev.len() as int, cur.len() as int) - y,
{
    if y < imax(prev.len() as int, cur.len() as int) {
        if !row_differs(prev, cur, y) {
            lemma_inline_rows_changed(prev, cur, size, y + 1, c);
        } else if !(size matches Some(sz) && y < sat_sub(prev.len() as int, sz.1 as int)) {
            lemma_inline_rows_changed(prev, cur, size, y + 1, y);
            lemma_inline_move_no_rows(c, y, prev.len() as int);
            let m = inline_move(c, y, prev.len() as int);
            let w = seq![
                if y < cur.len() {
                    TermOp::WriteRow(y as usize)
                } else {
                    TermOp::ClearCurrentLine
                },
            ];
            match inline_rows(prev, cur, size, y + 1, y) {
                Some((rest, c2)) => {
                    let ops = (m + w) + rest;
                    assert forall|i: int| 0 <= i < ops.len() implies (#[trigger] ops[i] matches TermOp::WriteRow(r)
                        ==> row_differs(prev, cur, r as int)) by {
                        if i < m.len() {
                            assert(ops[i] == m[i]);
                        } else if i == m.len() {
                            assert(ops[i] == w[0]);
                        } else {
                            assert(ops[i] == rest[i - m.len() - 1]);
                        }
                    }
                },
                None => {},
            }
        }
    }
}

/// The fullscreen commands rewrite only rows that changed.
proof fn lemma_fullscreen_rows_changed(prev: Seq<Seq<CellView>>, cur: Seq<Seq<CellView>>, top: u16, y: int)
    requires
        0 <= y,
        cur.len() <= usize::MAX,
    ensures
        rewrites_only_changed(fullscreen_rows(prev, cur, top, y), prev, cur),
    decreases imax(prev.len() as int, cur.len() as int) - y,
{
    if y < imax(prev.len() as int, cur.len() as int) {
        lemma_fullscreen_rows_changed(prev, cur, top, y + 1);
        let ops = fullscreen_rows(prev, cur, top, y);
        let rest = fullscreen_rows(prev, cur, top, y + 1);
        let here = if row_differs(prev, cur, y) {
            seq![
                TermOp::MoveTo(0, (top + (y as u16)) as u16),
                if y < cur.len() {
                    TermOp::WriteRow(y as usize)
                } else {
                    TermOp::ClearCurrentLine
                },
            ]
        } else {
            Seq::empty()
        };
        assert(ops == here + rest);
        assert forall|i: int| 0 <= i < ops.len() implies (#[trigger] ops[i] matches TermOp::WriteRow(r) ==> row_differs(
            prev,
            cur,
            r as int,
        )) by {
            if i < here.len() {
                assert(ops[i] == here[i]);
            } else {
                assert(ops[i] == rest[i - here.len()]);
            }
        }
    }
}

/// Updating a canvas rewrites only rows that changed: where the last canvas
/// is known and the update is row by row (not a whole rewrite), every row
/// written differs from the last canvas's row (or is new).
pub proof fn lemma_write_rewrites_only_changed(st: BackendState, prev: Seq<Seq<CellView>>, cur: Seq<Seq<CellView>>)
    requires
        cur.len() <= u16::MAX,
        prev.len() <= u16::MAX,
    ensures
        rewrites_only_changed(write_plan(st, Some(prev), cur).0, prev, cur),
{
    let plan = write_plan(st, Some(prev), cur).0;
    if st.fullscreen {
        if st.prev_size_on_write != st.size {
            let c = clear_ops(st);
            assert forall|i: int| 0 <= i < plan.len() implies !(#[trigger] plan[i] is WriteRow) by {
                if i < c.len() {
                    assert(plan[i] == c[i]);
                }
            }
        } else {
            lemma_fullscreen_rows_changed(prev, cur, st.prev_canvas_top_row, 0);
            let f = fullscreen_rows(prev, cur, st.prev_canvas_top_row, 0);
            assert forall|i: int| 0 <= i < plan.len() implies (#[trigger] plan[i] matches TermOp::WriteRow(r)
                ==> row_differs(prev, cur, r as int)) by {
                if i < f.len() {
                    assert(plan[i] == f[i]);
                }
            }
        }
    } else {
        let st1 = BackendState { prev_size_on_write: st.size, ..st };
        lemma_inline_rows_changed(prev, cur, st.size, 0, sat_sub(prev.len() as int, 1));
        match inline_rows(prev, cur, st.size, 0, sat_sub(prev.len() as int, 1)) {
            None => {
                let c = clear_ops(st1);
                assert forall|i: int| 0 <= i < plan.len() implies !(#[trigger] plan[i] is WriteRow) by {
                    if i < c.len() {
                        assert(plan[i] == c[i]);
                    }
                }
            },
            Some((ops, c)) => {
                let r = reposition(c, sat_sub(cur.len() as int, 1));
                assert forall|i: int| 0 <= i < plan.len() implies (#[trigger] plan[i] matches TermOp::WriteRow(y)
                    ==> row_differs(prev, cur, y as int)) by {
                    if i < ops.len() {
                        assert(plan[i] == ops[i]);
                    } else {
                        assert(plan[i] == r[i - ops.len()]);
                    }
                }
            },
        }
    }
}

/// After an inline update done row by row, the cursor is on the last line
/// of the new canvas (the first line, for an empty one), having started on
/// the last line of the previous canvas.
pub proof fn lemma_inline_update_cursor(st: BackendState, prev: Seq<Seq<CellView>>, cur: Seq<Seq<CellView>>)
    requires
        !st.fullscreen,
        cur.len() <= u16::MAX,
        prev.len() <= u16::MAX,
        inline_rows(prev, cur, st.size, 0, sat_sub(prev.len() as int, 1)) is Some,
    ensures
        cursor_after(write_plan(st, Some(prev), cur).0, sat_sub(prev.len() as int, 1)) == sat_sub(cur.len() as int, 1),
{
    reveal_with_fuel(cursor_after, 2);
    let c0 = sat_sub(prev.len() as int, 1);
    lemma_inline_rows_cursor(prev, cur, st.size, 0, c0);
    match inline_rows(prev, cur, st.size, 0, c0) {
        Some((ops, c)) => {
            let t = sat_sub(cur.len() as int, 1);
            lemma_cursor_after_concat(ops, reposition(c, t), c0);
            let r = reposition(c, t);
            if r.len() > 0 {
                assert(r.drop_first() =~= Seq::<TermOp>::empty());
            }
        },
        None => {},
    }
}

/// After a fullscreen update done row by row, the cursor is on the new
/// canvas's last line on the screen.
pub proof fn lemma_fullscreen_update_cursor(st: BackendState, prev: Seq<Seq<CellView>>, cur: Seq<Seq<CellView>>, c: int)
    requires
        st.fullscreen,
        st.prev_size_on_write == st.size,
        cur.len() > 0,
        st.prev_canvas_top_row + cur.len() <= u16::MAX,
        cur.len() <= u16::MAX,
    ensures
        cursor_after(write_plan(st, Some(prev), cur).0, c) == st.prev_canvas_top_row + cur.len() - 1,
{
    reveal_with_fuel(cursor_after, 2);
    let f = fullscreen_rows(prev, cur, st.prev_canvas_top_row, 0);
    let last = seq![TermOp::MoveTo(0, (st.prev_canvas_top_row + (cur.len() as u16) - 1) as u16)];
    lemma_cursor_after_concat(f, last, c);
    assert(last.drop_first() =~= Seq::<TermOp>::empty());
}

/// The lines of a terminal from the first line of an inline canvas down,
/// each showing a canvas row or nothing, and the line the cursor is on.
pub struct InlineScreen {
    /// The lines that exist below the canvas's start.
    pub lines: Seq<Option<Seq<CellView>>>,
    /// The line the cursor is on.
    pub cursor: int,
}

/// What a command does to an inline screen, rows being written from `cur`:
/// moving up or down (not past the last line), a line break (which adds a
/// line below the last one), writing a row or clearing the cursor's line.
/// Commands that do not move between lines or write a line (moving within
/// the line) leave it as it is; the screen-wide commands are not described.
pub open spec fn inline_step(s: InlineScreen, op: TermOp, cur: Seq<Seq<CellView>>) -> InlineScreen {
    match op {
        TermOp::MoveToPreviousLine(n) => InlineScreen { cursor: s.cursor - n, ..s },
        TermOp::MoveToNextLine(n) => InlineScreen { cursor: canvas::imin(s.cursor + n, s.lines.len() - 1), ..s },
        TermOp::WriteCrLf => if s.cursor + 1 < s.lines.len() {
            InlineScreen { cursor: s.cursor + 1, ..s }
        } else {
            InlineScreen { lines: s.lines.push(None), cursor: s.cursor + 1 }
        },
        TermOp::WriteRow(y) => if 0 <= s.cursor < s.lines.len() {
            InlineScreen { lines: s.lines.update(s.cursor, Some(cur[y as int])), ..s }
        } else {
            s
        },
        TermOp::ClearCurrentLine => if 0 <= s.cursor < s.lines.len() {
            InlineScreen { lines: s.lines.update(s.cursor, None), ..s }
        } else {
            s
        },
        _ => s,
    }
}

/// Commands run one after another on an inline screen.
pub open spec fn inline_run(s: InlineScreen, ops: Seq<TermOp>, cur: Seq<Seq<CellView>>) -> InlineScreen
    decreases ops.len(),
{
    if ops.len() == 0 {
        s
    } else {
        inline_run(inline_step(s, ops[0], cur), ops.drop_first(), cur)
    }
}

/// The screen after an inline canvas was written: its rows on its lines (one
/// empty line for an empty canvas), the cursor on the last.
pub open spec fn inline_shows(rows: Seq<Seq<CellView>>) -> InlineScreen {
    InlineScreen {
        lines: if rows.len() == 0 {
            seq![None]
        } else {
            Seq::new(rows.len(), |i: int| Some(rows[i]))
        },
        cursor: sat_sub(rows.len() as int, 1),
    }
}

/// What line `i` should show: row `i` of `rows`, or nothing past them.
pub open spec fn row_or_blank(rows: Seq<Seq<CellView>>, i: int) -> Option<Seq<CellView>> {
    if 0 <= i < rows.len() {
        Some(rows[i])
    } else {
        None
    }
}

proof fn lemma_inline_run_concat(s: InlineScreen, a: Seq<TermOp>, b: Seq<TermOp>, cur: Seq<Seq<CellView>>)
    ensures
        inline_run(s, a + b, cur) == inline_run(inline_run(s, a, cur), b, cur),
    decreases a.len(),
{
    if a.len() > 0 {
        assert((a + b).drop_first() =~= a.drop_first() + b);
        lemma_inline_run_concat(inline_step(s, a[0], cur), a.drop_first(), b, cur);
    } else {
        assert(a + b =~= b);
    }
}

proof fn lemma_inline_run_one(s: InlineScreen, op: TermOp, cur: Seq<Seq<CellView>>)
    ensures
        inline_run(s, seq![op], cur) == inline_step(s, op, cur),
{
    reveal_with_fuel(inline_run, 2);
    assert(seq![op].drop_first() =~= Seq::<TermOp>::empty());
}

/// Line breaks from the last line add as many empty lines.
proof fn lemma_inline_run_crlfs(s: InlineScreen, n: nat, cur: Seq<Seq<CellView>>)
    requires
        s.cursor == s.lines.len() - 1,
    ensures
        inline_run(s, Seq::new(n, |_i: int| TermOp::WriteCrLf), cur) == (InlineScreen {
            lines: s.lines + Seq::new(n, |_i: int| None::<Seq<CellView>>),
            cursor: s.cursor + n,
        }),
    decreases n,
{
    let ops = Seq::new(n, |_i: int| TermOp::WriteCrLf);
    if n == 0 {
        assert(s.lines + Seq::new(n, |_i: int| None::<Seq<CellView>>) =~= s.lines);
    } else {
        let s1 = InlineScreen { lines: s.lines.push(None), cursor: s.cursor + 1 };
        assert(inline_step(s, ops[0], cur) == s1);
        assert(ops.drop_first() =~= Seq::new((n - 1) as nat, |_i: int| TermOp::WriteCrLf));
        lemma_inline_run_crlfs(s1, (n - 1) as nat, cur);
        assert(s1.lines + Seq::new((n - 1) as nat, |_i: int| None::<Seq<CellView>>) =~= s.lines + Seq::new(
            n,
            |_i: int| None::<Seq<CellView>>,
        ));
    }
}

/// Moving to line `y` of an inline canvas from line `c`, the last existing
/// line being the later of the old canvas's last and `c`: the cursor lands
/// on `y`, and lines are added only where `y` is past the last.
proof fn lemma_inline_move_screen(s: InlineScreen, y: int, prev_h: int, cur: Seq<Seq<CellView>>)
    requires
        0 <= s.cursor <= u16::MAX,
        0 <= y <= u16::MAX,
        0 <= prev_h <= u16::MAX,
        imax(sat_sub(prev_h, 1), s.cursor) == s.lines.len() - 1,
        y <= s.lines.len(),
    ensures
        ({
            let r = inline_run(s, inline_move(s.cursor, y, prev_h), cur);
            &&& r.cursor == y
            &&& y < s.lines.len() ==> r.lines == s.lines
            &&& y == s.lines.len() ==> r.lines == s.lines.push(None)
        }),
{
    let c = s.cursor;
    if y < c {
        lemma_inline_run_one(s, TermOp::MoveToPreviousLine((c - y) as u16), cur);
    } else if y > c {
        let last = imax(sat_sub(prev_h, 1), c);
        if y <= last {
            lemma_inline_run_one(s, TermOp::MoveToNextLine((y - c) as u16), cur);
        } else {
            let m = sat_sub(last, c);
            let pre: Seq<TermOp> = if m > 0 {
                seq![TermOp::MoveToNextLine(m as u16)]
            } else {
                Seq::empty()
            };
            let crlfs = Seq::new((y - last) as nat, |_i: int| TermOp::WriteCrLf);
            lemma_inline_run_concat(s, pre, crlfs, cur);
            let s1 = inline_run(s, pre, cur);
            if m > 0 {
                lemma_inline_run_one(s, TermOp::MoveToNextLine(m as u16), cur);
            }
            assert(s1 == InlineScreen { cursor: last, ..s });
            lemma_inline_run_crlfs(s1, (y - last) as nat, cur);
            assert(s.lines + Seq::new((y - last) as nat, |_i: int| None::<Seq<CellView>>) =~= s.lines.push(None));
        }
    } else {
        lemma_inline_run_one(s, TermOp::MoveToColumn(0), cur);
    }
}

/// Updating an inline canvas row by row from row `y` on: where the lines
/// before `y` show the new canvas and the lines from `y` on still show the
/// old one, afterwards every line shows the new canvas (or nothing, past
/// it), and the cursor is where the commands say.
proof fn lemma_inline_rows_screen(
    prev: Seq<Seq<CellView>>,
    cur: Seq<Seq<CellView>>,
    size: Option<(u16, u16)>,
    y: int,
    s: InlineScreen,
)
    requires
        0 <= y,
        prev.len() <= u16::MAX,
        cur.len() <= u16::MAX,
        inline_rows(prev, cur, size, y, s.cursor) is Some,
        s.lines.len() == imax(imax(prev.len() as int, 1), y),
        0 <= s.cursor < s.lines.len(),
        y > imax(prev.len() as int, 1) ==> s.cursor == y - 1,
        forall|i: int| 0 <= i < y && i < s.lines.len() ==> #[trigger] s.lines[i] == row_or_blank(cur, i),
        forall|i: int| y <= i < s.lines.len() ==> #[trigger] s.lines[i] == row_or_blank(prev, i),
    ensures
        ({
            let (ops, c2) = inline_rows(prev, cur, size, y, s.cursor)->0;
            let r = inline_run(s, ops, cur);
            &&& r.cursor == c2
            &&& r.lines.len() == imax(imax(prev.len() as int, 1), imax(y, cur.len() as int))
            &&& forall|i: int| 0 <= i < r.lines.len() ==> #[trigger] r.lines[i] == row_or_blank(cur, i)
        }),
    decreases imax(prev.len() as int, cur.len() as int) - y,
{
    let hp = prev.len() as int;
    let end = imax(hp, cur.len() as int);
    if y >= end {
        assert forall|i: int| 0 <= i < s.lines.len() implies #[trigger] s.lines[i] == row_or_blank(cur, i) by {
            if i >= y {
                assert(s.lines[i] == row_or_blank(prev, i));
            }
        }
        assert(inline_run(s, Seq::<TermOp>::empty(), cur) == s);
    } else if !row_differs(prev, cur, y) {
        assert(s.lines[y] == row_or_blank(prev, y));
        lemma_inline_rows_screen(prev, cur, size, y + 1, s);
    } else {
        let c = s.cursor;
        assert(imax(sat_sub(hp, 1), c) == s.lines.len() - 1);
        lemma_inline_move_screen(s, y, hp, cur);
        let mv = inline_move(c, y, hp);
        let s1 = inline_run(s, mv, cur);
        let w = if y < cur.len() {
            TermOp::WriteRow(y as usize)
        } else {
            TermOp::ClearCurrentLine
        };
        lemma_inline_run_one(s1, w, cur);
        lemma_inline_run_concat(s, mv, seq![w], cur);
        let s2 = inline_step(s1, w, cur);
        assert(s2.lines.len() == imax(imax(hp, 1), y + 1));
        assert(s2.cursor == y);
        assert forall|i: int| 0 <= i < y + 1 && i < s2.lines.len() implies #[trigger] s2.lines[i] == row_or_blank(cur, i) by {
            if i < y {
                assert(s.lines[i] == row_or_blank(cur, i));
            }
        }
        assert forall|i: int| y + 1 <= i < s2.lines.len() implies #[trigger] s2.lines[i] == row_or_blank(prev, i) by {
            assert(s.lines[i] == row_or_blank(prev, i));
        }
        lemma_inline_rows_screen(prev, cur, size, y + 1, s2);
        let rest = (inline_rows(prev, cur, size, y + 1, y)->0).0;
        lemma_inline_run_concat(s, mv + seq![w], rest, cur);
    }
}

/// Writing a new inline canvas over the old one, row by row, leaves the
/// screen showing the new canvas: from the screen the old canvas left (its
/// rows on its lines, the cursor on the last), every line shows its row of
/// the new canvas, the lines past it show nothing, and the cursor is on
/// the new canvas's last line. This holds wherever the update goes row by
/// row (no changed row has scrolled off the screen).
pub proof fn lemma_inline_write_shows_canvas(st: BackendState, prev: Seq<Seq<CellView>>, cur: Seq<Seq<CellView>>)
    requires
        !st.fullscreen,
        prev.len() <= u16::MAX,
        cur.len() <= u16::MAX,
        inline_rows(prev, cur, st.size, 0, sat_sub(prev.len() as int, 1)) is Some,
    ensures
        ({
            let r = inline_run(inline_shows(prev), write_plan(st, Some(prev), cur).0, cur);
            &&& r.lines.len() == imax(imax(prev.len() as int, 1), cur.len() as int)
            &&& forall|i: int| 0 <= i < r.lines.len() ==> #[trigger] r.lines[i] == row_or_blank(cur, i)
            &&& r.cursor == sat_sub(cur.len() as int, 1)
        }),
{
    let s0 = inline_shows(prev);
    assert forall|i: int| 0 <= i < s0.lines.len() implies #[trigger] s0.lines[i] == row_or_blank(prev, i) by {}
    lemma_inline_rows_screen(prev, cur, st.size, 0, s0);
    lemma_inline_rows_cursor(prev, cur, st.size, 0, s0.cursor);
    let (ops, c) = inline_rows(prev, cur, st.size, 0, s0.cursor)->0;
    let s1 = inline_run(s0, ops, cur);
    let t = sat_sub(cur.len() as int, 1);
    let rp = reposition(c, t);
    lemma_inline_run_concat(s0, ops, rp, cur);
    if t > c {
        lemma_inline_run_one(s1, TermOp::MoveToNextLine((t - c) as u16), cur);
    } else if t < c {
        lemma_inline_run_one(s1, TermOp::MoveToPreviousLine((c - t) as u16), cur);
    } else {
        assert(inline_run(s1, rp, cur) == s1);
    }
}

/// The rows of a terminal in fullscreen mode, each showing a canvas row or
/// nothing, and the row the cursor is on.
pub struct FullScreen {
    /// What each screen row shows.
    pub lines: Map<int, Option<Seq<CellView>>>,
    /// The row the cursor is on.
    pub cursor: int,
}

/// What a command does to a fullscreen screen, rows being written from
/// `cur`: moving to a row, writing a row or clearing the cursor's row. The
/// other commands are not described, and leave it as it is.
pub open spec fn full_step(s: FullScreen, op: TermOp, cur: Seq<Seq<CellView>>) -> FullScreen {
    match op {
        TermOp::MoveTo(_, row) => FullScreen { cursor: row as int, ..s },
        TermOp::WriteRow(y) => FullScreen { lines: s.lines.insert(s.cursor, Some(cur[y as int])), ..s },
        TermOp::ClearCurrentLine => FullScreen { lines: s.lines.insert(s.cursor, None), ..s },
        _ => s,
    }
}

/// Commands run one after another on a fullscreen screen.
pub open spec fn full_run(s: FullScreen, ops: Seq<TermOp>, cur: Seq<Seq<CellView>>) -> FullScreen
    decreases ops.len(),
{
    if ops.len() == 0 {
        s
    } else {
        full_run(full_step(s, ops[0], cur), ops.drop_first(), cur)
    }
}

proof fn lemma_full_run_concat(s: FullScreen, a: Seq<TermOp>, b: Seq<TermOp>, cur: Seq<Seq<CellView>>)
    ensures
        full_run(s, a + b, cur) == full_run(full_run(s, a, cur), b, cur),
    decreases a.len(),
{
    if a.len() > 0 {
        assert((a + b).drop_first() =~= a.drop_first() + b);
        lemma_full_run_concat(full_step(s, a[0], cur), a.drop_first(), b, cur);
    } else {
        assert(a + b =~= b);
    }
}

/// Updating a fullscreen canvas whose top is on screen row `top`, from row
/// `y` on: where rows `y` and after still show the old canvas, afterwards
/// each of its rows from `y` on shows the new canvas (or nothing, past it),
/// and no other screen row changes.
proof fn lemma_fullscreen_rows_screen(prev: Seq<Seq<CellView>>, cur: Seq<Seq<CellView>>, top: u16, y: int, s: FullScreen)
    requires
        0 <= y,
        top + imax(prev.len() as int, cur.len() as int) <= u16::MAX + 1,
        forall|i: int| y <= i < prev.len() ==> #[trigger] s.lines.get(top + i) == Some(Some(prev[i])),
    ensures
        ({
            let r = full_run(s, fullscreen_rows(prev, cur, top, y), cur);
            &&& forall|i: int| y <= i < imax(prev.len() as int, cur.len() as int) ==> #[trigger] r.lines.get(top + i)
                == Some(row_or_blank(cur, i))
            &&& forall|k: int| !(top + y <= k < top + imax(prev.len() as int, cur.len() as int)) ==> #[trigger] r.lines.get(k)
                == s.lines.get(k)
        }),
    decreases imax(prev.len() as int, cur.len() as int) - y,
{
    let end = imax(prev.len() as int, cur.len() as int);
    if y < end {
        let here = if row_differs(prev, cur, y) {
            seq![
                TermOp::MoveTo(0, (top + (y as u16)) as u16),
                if y < cur.len() {
                    TermOp::WriteRow(y as usize)
                } else {
                    TermOp::ClearCurrentLine
                },
            ]
        } else {
            Seq::empty()
        };
        lemma_full_run_concat(s, here, fullscreen_rows(prev, cur, top, y + 1), cur);
        let s1 = full_run(s, here, cur);
        if row_differs(prev, cur, y) {
            reveal_with_fuel(full_run, 3);
            assert(here.drop_first().drop_first() =~= Seq::<TermOp>::empty());
            assert(s1.lines.get(top + y) == Some(row_or_blank(cur, y)));
            assert(forall|k: int| k != top + y ==> #[trigger] s1.lines.get(k) == s.lines.get(k));
        } else {
            assert(full_run(s, here, cur) == s);
            assert(s.lines.get(top + y) == Some(Some(prev[y])));
        }
        lemma_fullscreen_rows_screen(prev, cur, top, y + 1, s1);
    }
}

/// Writing a new fullscreen canvas over the old one, row by row, leaves the
/// screen showing the new canvas: from a screen whose rows from the
/// canvas's top show the old canvas, every row of the canvas's area shows
/// its row of the new canvas (or nothing, past it), the screen's other rows
/// are as they were, and the cursor is on the new canvas's last row.
pub proof fn lemma_fullscreen_write_shows_canvas(st: BackendState, prev: Seq<Seq<CellView>>, cur: Seq<Seq<CellView>>, s: FullScreen)
    requires
        st.fullscreen,
        st.prev_size_on_write == st.size,
        cur.len() <= u16::MAX,
        st.prev_canvas_top_row + imax(prev.len() as int, cur.len() as int) <= u16::MAX + 1,
        cur.len() > 0 ==> st.prev_canvas_top_row + cur.len() <= u16::MAX,
        forall|i: int| 0 <= i < prev.len() ==> #[trigger] s.lines.get(st.prev_canvas_top_row + i) == Some(Some(prev[i])),
    ensures
        ({
            let top = st.prev_canvas_top_row as int;
            let r = full_run(s, write_plan(st, Some(prev), cur).0, cur);
            &&& forall|i: int| 0 <= i < imax(prev.len() as int, cur.len() as int) ==> #[trigger] r.lines.get(top + i)
                == Some(row_or_blank(cur, i))
            &&& forall|k: int| !(top <= k < top + imax(prev.len() as int, cur.len() as int)) ==> #[trigger] r.lines.get(k)
                == s.lines.get(k)
            &&& cur.len() > 0 ==> r.cursor == top + cur.len() - 1
        }),
{
    let top = st.prev_canvas_top_row;
    let f = fullscreen_rows(prev, cur, top, 0);
    lemma_fullscreen_rows_screen(prev, cur, top, 0, s);
    let last: Seq<TermOp> = if cur.len() > 0 {
        seq![TermOp::MoveTo(0, (top + (cur.len() as u16) - 1) as u16)]
    } else {
        Seq::empty()
    };
    lemma_full_run_concat(s, f, last, cur);
    reveal_with_fuel(full_run, 2);
    if cur.len() > 0 {
        assert(last.drop_first() =~= Seq::<TermOp>::empty());
    }
}

} // verus!
