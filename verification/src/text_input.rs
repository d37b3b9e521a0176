//! The text buffer behind a text input: wrapped rows, cursor positions and
//! cursor movement, and how edits move the cursor.
use vstd::prelude::*;
use crate::chars::{char_index_of, subrange_vec, to_chars, utf8_prefix_len};
use crate::segmented_string::SegmentedString;
use crate::event::{KeyCode, KeyEventKind};
use crate::terminal::{KeyEvent, TerminalEvent};
use crate::{event, terminal};
use crate::unicode::{char_cols_of, str_width};
use crate::{chars, linebreak, segmented_string, unicode};

verus! {

/// One row of wrapped text: where it starts (in bytes), how many bytes it
/// holds, and its display width.
#[derive(Clone, Copy, Debug, PartialEq, Eq, Structural)]
pub struct TextBufferRow {
    /// The byte offset of the row in the text.
    pub offset: usize,
    /// The number of bytes of the row.
    pub len: usize,
    /// The display width of the row.
    pub width: usize,
}

/// A text wrapped into rows, for editing.
pub struct TextBuffer {
    text: String,
    chars: Vec<char>,
    rows: Vec<TextBufferRow>,
}

/// The row a wrapped line becomes: it starts where its first part starts
/// (or, without parts, where the row before starts) and holds the bytes of
/// its first part.
pub open spec fn row_of_line(text: Seq<char>, l: segmented_string::LineV, prev_offset: int) -> TextBufferRow {
    if l.0.len() > 0 {
        let p = l.0[0];
        TextBufferRow {
            offset: chars::utf8_len(text.take(p.start as int)) as usize,
            len: chars::utf8_len(segmented_string::piece_text(seq![text], p)) as usize,
            width: l.1,
        }
    } else {
        TextBufferRow { offset: prev_offset as usize, len: 0, width: l.1 }
    }
}

/// The rows of wrapped lines, from line `i` on.
pub open spec fn rows_from(text: Seq<char>, ls: Seq<segmented_string::LineV>, prev: Seq<TextBufferRow>) -> Seq<TextBufferRow>
    decreases ls.len(),
{
    if ls.len() == 0 {
        prev
    } else {
        let prev_offset = if prev.len() == 0 { 0 } else { prev.last().offset as int };
        rows_from(text, ls.drop_first(), prev.push(row_of_line(text, ls[0], prev_offset)))
    }
}

/// The rows of `text` wrapped to `width`.
pub open spec fn buffer_rows(text: Seq<char>, width: int) -> Seq<TextBufferRow> {
    rows_from(text, segmented_string::wrap_lines(seq![text], width), Seq::empty())
}

/// A row starts and ends at character boundaries of the text.
pub open spec fn row_in_text(text: Seq<char>, r: TextBufferRow) -> bool {
    chars::is_boundary(text, r.offset as int) && chars::is_boundary(text, r.offset + r.len)
}

/// The bytes of a part of a text are no more than those of the text.
proof fn lemma_utf8_len_subrange(s: Seq<char>, a: int, b: int)
    requires
        0 <= a <= b <= s.len(),
    ensures
        chars::utf8_len(s.subrange(a, b)) <= chars::utf8_len(s),
        chars::utf8_len(s.take(a)) + chars::utf8_len(s.subrange(a, b)) == chars::utf8_len(s.take(b)),
{
    chars::lemma_utf8_len_concat(s.take(a), s.subrange(a, b));
    assert(s.take(a) + s.subrange(a, b) =~= s.take(b));
    chars::lemma_utf8_len_bounded(s, b);
}

impl TextBuffer {
    /// The text.
    pub closed spec fn text_v(&self) -> Seq<char> {
        self.text@
    }

    /// The rows.
    pub closed spec fn rows_v(&self) -> Seq<TextBufferRow> {
        self.rows@
    }

    /// The buffer is consistent: its characters are those of its text, and
    /// each row starts and ends where characters of the text start.
    pub closed spec fn wf(&self) -> bool {
        &&& self.chars@ == self.text@
        &&& chars::utf8_len(self.text@) <= usize::MAX
        &&& forall|k: int| 0 <= k < self.rows@.len() ==> row_in_text(self.text@, #[trigger] self.rows@[k])
    }

    /// Wraps `text` to `width` columns.
    pub fn new(text: &str, width: usize) -> (r: TextBuffer)
        requires
            chars::utf8_len(text@) <= usize::MAX,
        ensures
            r.wf(),
            r.text_v() == text@,
            r.rows_v() == buffer_rows(text@, width as int),
    {
        let cs = to_chars(text);
        let ghost segs = seq![text@];
        let lines = {
            let ss = SegmentedString::from_str(text);
            assert(linebreak::concat(segs) =~= text@) by {
                assert(segs.drop_last() =~= Seq::<Seq<char>>::empty());
                assert(linebreak::concat(Seq::<Seq<char>>::empty()) == Seq::<char>::empty());
                assert(linebreak::concat(segs) == linebreak::concat(segs.drop_last()) + segs.last());
            }
            ss.wrap(width)
        };
        let ghost wl = segmented_string::wrap_lines(segs, width as int);
        let mut rows: Vec<TextBufferRow> = Vec::new();
        let mut i: usize = 0;
        assert(wl.skip(0) =~= wl);
        while i < lines.len()
            invariant
                i <= lines@.len(),
                cs@ == text@,
                segs == seq![text@],
                chars::utf8_len(text@) <= usize::MAX,
                wl == segmented_string::wrap_lines(segs, width as int),
                lines@.len() == wl.len(),
                forall|k: int| 0 <= k < lines@.len() ==> segmented_string::line_matches(segs, wl[k], #[trigger] lines@[k]),
                segmented_string::lines_valid(segs, wl),
                buffer_rows(text@, width as int) == rows_from(text@, wl.skip(i as int), rows@),
                forall|k: int| 0 <= k < rows@.len() ==> row_in_text(text@, #[trigger] rows@[k]),
            decreases lines@.len() - i,
        {
            let line = &lines[i];
            assert(wl.skip(i as int)[0] == wl[i as int]);
            assert(wl.skip(i as int).drop_first() =~= wl.skip(i + 1));
            assert(segmented_string::line_matches(segs, wl[i as int], lines@[i as int]));
            let row = if line.segments.len() > 0 {
                let seg = &line.segments[0];
                let ghost p = wl[i as int].0[0];
                assert(segmented_string::piece_matches(segs, wl[i as int].0[0], line.segments@[0]));
                assert(segmented_string::piece_valid(segs, wl[i as int].0[0]));
                proof {
                    lemma_utf8_len_subrange(text@, p.start as int, p.end as int);
                }
                let tcs = to_chars(seg.text.as_str());
                let len = utf8_prefix_len(&tcs, tcs.len());
                assert(tcs@.take(tcs@.len() as int) =~= tcs@);
                assert(segs[0] == text@);
                assert(chars::utf8_len(text@.take(p.start as int)) == seg.offset);
                assert(chars::utf8_len(text@.take(p.end as int)) == seg.offset + len);
                TextBufferRow { offset: seg.offset, len, width: line.width }
            } else {
                let off = if rows.len() == 0 {
                    assert(chars::utf8_len(text@.take(0)) == 0) by {
                        assert(text@.take(0) =~= Seq::<char>::empty());
                    }
                    0
                } else {
                    assert(row_in_text(text@, rows@[rows@.len() - 1]));
                    rows[rows.len() - 1].offset
                };
                TextBufferRow { offset: off, len: 0, width: line.width }
            };
            rows.push(row);
            i += 1;
        }
        assert(wl.skip(lines@.len() as int) =~= Seq::<segmented_string::LineV>::empty());
        TextBuffer { text: text.to_owned(), chars: cs, rows }
    }
}


/// Whether `r` covers byte `offset`: the offset lies in the row or at its end.
pub open spec fn covers(r: TextBufferRow, offset: int) -> bool {
    r.offset <= offset <= r.offset + r.len
}

/// Whether some row covers byte `offset`.
pub open spec fn covered(rows: Seq<TextBufferRow>, offset: int) -> bool {
    exists|k: int| 0 <= k < rows.len() && #[trigger] covers(rows[k], offset)
}

/// The characters of `text` from byte `a` to byte `b`.
pub open spec fn byte_slice(text: Seq<char>, a: int, b: int) -> Seq<char> {
    text.subrange(chars::char_index_at(text, a), chars::char_index_at(text, b))
}

/// The row and column of byte `offset`, looking at rows from `i` on: the
/// first row that covers it, and the width of the text from the start of
/// that row to the offset; past all rows, the number of rows and the width
/// of the last one.
pub open spec fn row_column_from(text: Seq<char>, rows: Seq<TextBufferRow>, offset: int, i: int) -> (u16, u16)
    decreases rows.len() - i,
{
    if i >= rows.len() {
        (rows.len() as u16, if rows.len() == 0 { 0u16 } else { rows.last().width as u16 })
    } else if covers(rows[i], offset) {
        (i as u16, unicode::str_width_of(byte_slice(text, rows[i].offset as int, offset)) as u16)
    } else {
        row_column_from(text, rows, offset, i + 1)
    }
}

/// The byte offset of the character before byte `offset` (0 at the start).
pub open spec fn left_of(text: Seq<char>, offset: int) -> int {
    if offset == 0 {
        0
    } else {
        chars::utf8_len(text.take(chars::char_index_at(text, offset) - 1)) as int
    }
}

/// The byte offset of the character after the one at byte `offset` (the
/// end of the text at or past its end).
pub open spec fn right_of(text: Seq<char>, offset: int) -> int {
    if offset >= chars::utf8_len(text) {
        chars::utf8_len(text) as int
    } else {
        chars::utf8_len(text.take(chars::char_index_at(text, offset) + 1)) as int
    }
}

/// The index of the first character from index `j` on at which the width
/// counted so far (starting from `width`) has reached `col`.
pub open spec fn first_at_col(text: Seq<char>, j: int, width: int, col: int) -> Option<int>
    decreases text.len() - j,
{
    if j >= text.len() {
        None
    } else if width >= col {
        Some(j)
    } else {
        first_at_col(text, j + 1, width + unicode::char_cols(text[j]), col)
    }
}

/// The byte offset in row `r` closest to column `col`: the end of the row
/// where the row is no wider than `col`, else the first character from the
/// row's start at which the width reaches `col`.
pub open spec fn closest_column_offset(text: Seq<char>, r: TextBufferRow, col: int) -> int {
    if col >= r.width {
        r.offset + r.len
    } else {
        match first_at_col(text, chars::char_index_at(text, r.offset as int), 0, col) {
            Some(j) => chars::utf8_len(text.take(j)) as int,
            None => r.offset + r.len,
        }
    }
}

/// A byte boundary lies within the text.
proof fn lemma_boundary_le(text: Seq<char>, b: int)
    requires
        chars::is_boundary(text, b),
    ensures
        0 <= chars::char_index_at(text, b) <= text.len(),
        chars::utf8_len(text.take(chars::char_index_at(text, b))) == b,
        b <= chars::utf8_len(text),
{
    let j = chars::char_index_at(text, b);
    chars::lemma_utf8_len_bounded(text, j);
}

/// Boundaries in order have character indices in order.
proof fn lemma_boundary_order(text: Seq<char>, a: int, b: int)
    requires
        chars::is_boundary(text, a),
        chars::is_boundary(text, b),
        a <= b,
    ensures
        chars::char_index_at(text, a) <= chars::char_index_at(text, b),
{
    let i = chars::char_index_at(text, a);
    let j = chars::char_index_at(text, b);
    if j < i {
        chars::lemma_utf8_len_take_mono(text, j, i);
    }
}

/// Truncating to 16 bits never makes a number larger.
proof fn lemma_trunc16(x: usize)
    ensures
        (x as u16) as usize <= x,
        x <= 0xffff ==> (x as u16) as usize == x,
{
    assert((x as u16) as usize <= x) by (bit_vector);
    assert(x <= 0xffff ==> (x as u16) as usize == x) by (bit_vector);
}

/// The row [`TextBuffer::row_column_for_offset`] returns is at most the
/// number of rows.
proof fn lemma_row_le(text: Seq<char>, rows: Seq<TextBufferRow>, offset: int, i: int)
    requires
        0 <= i <= rows.len(),
        rows.len() <= usize::MAX,
    ensures
        row_column_from(text, rows, offset, i).0 <= rows.len(),
    decreases rows.len() - i,
{
    if i < rows.len() {
        lemma_trunc16(i as usize);
        if !covers(rows[i], offset) {
            lemma_row_le(text, rows, offset, i + 1);
        }
    } else {
        lemma_trunc16(rows.len() as usize);
    }
}

impl TextBuffer {
    /// Byte `offset` can be looked up: it is a character boundary of the
    /// text, or no row covers it.
    pub open spec fn offset_ok(&self, offset: int) -> bool {
        chars::is_boundary(self.text_v(), offset) || !covered(self.rows_v(), offset)
    }

    /// The row and column of the cursor at byte `offset`.
    pub fn row_column_for_offset(&self, offset: usize) -> (r: (u16, u16))
        requires
            self.wf(),
            self.offset_ok(offset as int),
        ensures
            r == row_column_from(self.text_v(), self.rows_v(), offset as int, 0),
    {
        let mut i: usize = 0;
        while i < self.rows.len()
            invariant
                self.wf(),
                self.offset_ok(offset as int),
                i <= self.rows@.len(),
                row_column_from(self.text_v(), self.rows_v(), offset as int, 0)
                    == row_column_from(self.text_v(), self.rows_v(), offset as int, i as int),
            decreases self.rows@.len() - i,
        {
            let row = self.rows[i];
            if offset >= row.offset && offset - row.offset <= row.len {
                assert(covers(self.rows@[i as int], offset as int));
                assert(row_in_text(self.text@, self.rows@[i as int]));
                let a = char_index_of(&self.chars, row.offset);
                let b = char_index_of(&self.chars, offset);
                match (a, b) {
                    (Some(a), Some(b)) => {
                        proof {
                            lemma_boundary_order(self.text@, row.offset as int, offset as int);
                        }
                        let sub = self.text.as_str().substring_char(a, b);
                        let w = str_width(sub);
                        return (i as u16, w as u16);
                    },
                    _ => {
                        assert(false);
                        return (0, 0);
                    },
                }
            }
            i += 1;
        }
        let n = self.rows.len();
        let w: u16 = if n == 0 { 0 } else { self.rows[n - 1].width as u16 };
        (n as u16, w)
    }

    /// The text of each row.
    pub fn lines(&self) -> (r: Vec<&str>)
        requires
            self.wf(),
        ensures
            r@.len() == self.rows_v().len(),
            forall|k: int| 0 <= k < r@.len() ==> #[trigger] r@[k]@ == byte_slice(
                self.text_v(),
                self.rows_v()[k].offset as int,
                self.rows_v()[k].offset + self.rows_v()[k].len,
            ),
    {
        let mut r: Vec<&str> = Vec::new();
        let mut i: usize = 0;
        while i < self.rows.len()
            invariant
                self.wf(),
                i <= self.rows@.len(),
                r@.len() == i,
                forall|k: int| 0 <= k < i ==> #[trigger] r@[k]@ == byte_slice(
                    self.text_v(),
                    self.rows_v()[k].offset as int,
                    self.rows_v()[k].offset + self.rows_v()[k].len,
                ),
            decreases self.rows@.len() - i,
        {
            let row = self.rows[i];
            assert(row_in_text(self.text@, self.rows@[i as int]));
            proof {
                lemma_boundary_le(self.text@, row.offset + row.len);
            }
            let a = char_index_of(&self.chars, row.offset);
            let b = char_index_of(&self.chars, row.offset + row.len);
            match (a, b) {
                (Some(a), Some(b)) => {
                    proof {
                        lemma_boundary_order(self.text@, row.offset as int, row.offset + row.len);
                    }
                    r.push(self.text.as_str().substring_char(a, b));
                },
                _ => {
                    assert(false);
                },
            }
            i += 1;
        }
        r
    }

    /// The byte length of the text.
    fn byte_len(&self) -> (r: usize)
        requires
            self.wf(),
        ensures
            r == chars::utf8_len(self.text_v()),
    {
        let n = utf8_prefix_len(&self.chars, self.chars.len());
        assert(self.chars@.take(self.chars@.len() as int) =~= self.chars@);
        n
    }

    /// The offset of the character left of byte `offset`.
    pub fn left_of_offset(&self, offset: usize) -> (r: usize)
        requires
            self.wf(),
            offset == 0 || chars::is_boundary(self.text_v(), offset as int),
        ensures
            r == left_of(self.text_v(), offset as int),
    {
        if offset == 0 {
            return 0;
        }
        match char_index_of(&self.chars, offset) {
            Some(j) => {
                if j == 0 {
                    assert(self.chars@.take(0) =~= Seq::<char>::empty());
                    assert(false);
                    return 0;
                }
                utf8_prefix_len(&self.chars, j - 1)
            },
            None => {
                assert(false);
                0
            },
        }
    }

    /// The offset of the character right of byte `offset`.
    pub fn right_of_offset(&self, offset: usize) -> (r: usize)
        requires
            self.wf(),
            offset >= chars::utf8_len(self.text_v()) || chars::is_boundary(self.text_v(), offset as int),
        ensures
            r == right_of(self.text_v(), offset as int),
    {
        let len = self.byte_len();
        if offset >= len {
            return len;
        }
        match char_index_of(&self.chars, offset) {
            Some(j) => {
                if j >= self.chars.len() {
                    assert(self.chars@.take(self.chars@.len() as int) =~= self.chars@);
                    assert(false);
                    return len;
                }
                proof {
                    chars::lemma_utf8_len_bounded(self.chars@, j + 1);
                }
                utf8_prefix_len(&self.chars, j + 1)
            },
            None => {
                assert(false);
                0
            },
        }
    }

    /// The offset in row `row` closest to column `col`.
    pub fn offset_for_closest_column_in_row(&self, row: u16, col: u16) -> (r: usize)
        requires
            self.wf(),
            row < self.rows_v().len(),
        ensures
            r == closest_column_offset(self.text_v(), self.rows_v()[row as int], col as int),
    {
        let rw = self.rows[row as usize];
        assert(row_in_text(self.text@, self.rows@[row as int]));
        proof {
            lemma_boundary_le(self.text@, rw.offset + rw.len);
        }
        let cu = col as usize;
        if cu >= rw.width {
            return rw.offset + rw.len;
        }
        let start = match char_index_of(&self.chars, rw.offset) {
            Some(a) => a,
            None => {
                assert(false);
                return 0;
            },
        };
        let ghost text = self.text@;
        let mut j = start;
        let mut n = rw.offset;
        let mut width: usize = 0;
        while j < self.chars.len()
            invariant
                self.wf(),
                text == self.text@,
                start <= j <= self.chars@.len(),
                row < self.rows@.len(),
                rw == self.rows@[row as int],
                start == chars::char_index_at(text, rw.offset as int),
                cu == col,
                cu < rw.width,
                cu < 0x10000,
                width <= cu + 3,
                n == chars::utf8_len(text.take(j as int)),
                first_at_col(text, start as int, 0, cu as int) == first_at_col(text, j as int, width as int, cu as int),
            decreases self.chars@.len() - j,
        {
            if width >= cu {
                assert(first_at_col(text, j as int, width as int, cu as int) == Some(j as int));
                return n;
            }
            let c = self.chars[j];
            let w = char_cols_of(c);
            proof {
                chars::lemma_utf8_len_take_next(text, j as int);
                chars::lemma_utf8_len_bounded(text, j + 1);
            }
            n = n + chars::len_utf8(c);
            width = width + w;
            j += 1;
        }
        rw.offset + rw.len
    }

    /// The offset one row above byte `offset`, at the preferred column or
    /// else at the cursor's column; `offset` itself on the first row.
    pub fn above_offset(&self, offset: usize, col_preference: Option<u16>) -> (r: usize)
        requires
            self.wf(),
            self.offset_ok(offset as int),
        ensures
            ({
                let (row, col) = row_column_from(self.text_v(), self.rows_v(), offset as int, 0);
                let c = match col_preference {
                    Some(p) => p,
                    None => col,
                };
                r == if row == 0 {
                    offset as int
                } else {
                    closest_column_offset(self.text_v(), self.rows_v()[row - 1], c as int)
                }
            }),
    {
        let (row, col) = self.row_column_for_offset(offset);
        if row == 0 {
            return offset;
        }
        proof {
            assert(self.rows@.len() == self.rows.len());
            lemma_row_le(self.text@, self.rows@, offset as int, 0);
        }
        let c = match col_preference {
            Some(p) => p,
            None => col,
        };
        self.offset_for_closest_column_in_row(row - 1, c)
    }

    /// The offset one row below byte `offset`, at the preferred column or
    /// else at the cursor's column; `offset` itself on the last row.
    pub fn below_offset(&self, offset: usize, col_preference: Option<u16>) -> (r: usize)
        requires
            self.wf(),
            self.offset_ok(offset as int),
            row_column_from(self.text_v(), self.rows_v(), offset as int, 0).0 < u16::MAX
                || self.rows_v().len() <= u16::MAX + 1,
        ensures
            ({
                let (row, col) = row_column_from(self.text_v(), self.rows_v(), offset as int, 0);
                let c = match col_preference {
                    Some(p) => p,
                    None => col,
                };
                r == if row + 1 >= self.rows_v().len() {
                    offset as int
                } else {
                    closest_column_offset(self.text_v(), self.rows_v()[row + 1], c as int)
                }
            }),
    {
        let (row, col) = self.row_column_for_offset(offset);
        if row as usize + 1 >= self.rows.len() {
            return offset;
        }
        let c = match col_preference {
            Some(p) => p,
            None => col,
        };
        self.offset_for_closest_column_in_row(row + 1, c)
    }
}

/// What the last edit was, where the new value alone leaves it open.
#[derive(Clone, Copy, Debug, PartialEq, Eq, Structural)]
pub enum NewCursorOffsetHint {
    /// No hint.
    Plain,
    /// The last edit was a backspace.
    Backspace,
    /// The last edit was a deletion.
    Deletion,
}

/// The value agrees with the previous one on the first `cursor` characters
/// they both have, and is at least `cursor` bytes long.
pub open spec fn same_head(prev: Seq<char>, cursor: int, value: Seq<char>) -> bool {
    &&& chars::utf8_len(value) >= cursor
    &&& forall|k: int| 0 <= k < cursor && k < value.len() && k < prev.len() ==> #[trigger] value[k] == prev[k]
}

/// The value agrees with the previous one on the last characters they
/// both have, as many as the previous value has bytes after the cursor,
/// and has at least that many bytes.
pub open spec fn same_tail(prev: Seq<char>, cursor: int, value: Seq<char>) -> bool {
    let tail = chars::utf8_len(prev) - cursor;
    &&& chars::utf8_len(value) >= tail
    &&& forall|k: int|
        0 <= k < tail && k < value.len() && k < prev.len() ==> #[trigger] value[value.len() - 1 - k]
            == prev[prev.len() - 1 - k]
}

/// Where the cursor goes when the value changes from `prev` to `value`:
/// after an insertion it moves by the added bytes, after a backspace it
/// moves back by the removed bytes, after a deletion it stays, and where
/// the change is not one of these it goes to the end.
pub open spec fn cursor_after_change(prev: Seq<char>, cursor: int, value: Seq<char>, hint: NewCursorOffsetHint) -> int {
    let vl = chars::utf8_len(value) as int;
    let pl = chars::utf8_len(prev) as int;
    let head = same_head(prev, cursor, value);
    let tail = same_tail(prev, cursor, value);
    if vl >= pl && head && tail {
        cursor + (vl - pl)
    } else if vl < pl && tail && head {
        if hint == NewCursorOffsetHint::Deletion {
            cursor
        } else {
            cursor - (pl - vl)
        }
    } else if vl < pl && tail {
        cursor - (pl - vl)
    } else if vl < pl && head {
        cursor
    } else {
        vl
    }
}

/// The cursor offset after the value changed from `prev_value` to `value`.
pub fn new_cursor_offset(prev_value: &str, cursor_offset: usize, value: &str, hint: NewCursorOffsetHint) -> (r: usize)
    requires
        cursor_offset <= chars::utf8_len(prev_value@),
        chars::utf8_len(prev_value@) <= usize::MAX,
        chars::utf8_len(value@) <= usize::MAX,
    ensures
        r == cursor_after_change(prev_value@, cursor_offset as int, value@, hint),
{
    let p = to_chars(prev_value);
    let v = to_chars(value);
    let pl = utf8_prefix_len(&p, p.len());
    let vl = utf8_prefix_len(&v, v.len());
    assert(p@.take(p@.len() as int) =~= p@);
    assert(v@.take(v@.len() as int) =~= v@);
    let mut same = true;
    let mut k: usize = 0;
    while same && k < cursor_offset && k < v.len() && k < p.len()
        invariant
            k <= v@.len(),
            k <= p@.len(),
            v@ == value@,
            p@ == prev_value@,
            same ==> forall|i: int| 0 <= i < k ==> #[trigger] v@[i] == p@[i],
            !same ==> k < cursor_offset && k < v@.len() && k < p@.len() && v@[k as int] != p@[k as int],
        decreases v@.len() - k + (if same { 1int } else { 0int }),
    {
        if v[k] != p[k] {
            same = false;
        } else {
            k += 1;
        }
    }
    let head = vl >= cursor_offset && same;
    assert(head == same_head(prev_value@, cursor_offset as int, value@));
    let tail_len = pl - cursor_offset;
    let mut same = true;
    let mut k: usize = 0;
    while same && k < tail_len && k < v.len() && k < p.len()
        invariant
            k <= v@.len(),
            k <= p@.len(),
            v@ == value@,
            p@ == prev_value@,
            same ==> forall|i: int| 0 <= i < k ==> #[trigger] v@[v@.len() - 1 - i] == p@[p@.len() - 1 - i],
            !same ==> k < tail_len && k < v@.len() && k < p@.len() && v@[v@.len() - 1 - k] != p@[p@.len() - 1 - k],
        decreases v@.len() - k + (if same { 1int } else { 0int }),
    {
        if v[v.len() - 1 - k] != p[p.len() - 1 - k] {
            same = false;
        } else {
            k += 1;
        }
    }
    let tail = vl >= tail_len && same;
    assert(tail == same_tail(prev_value@, cursor_offset as int, value@));
    let deletion = match hint {
        NewCursorOffsetHint::Deletion => true,
        _ => false,
    };
    if vl >= pl && head && tail {
        cursor_offset + (vl - pl)
    } else if vl < pl && tail && head {
        if deletion {
            cursor_offset
        } else {
            cursor_offset - (pl - vl)
        }
    } else if vl < pl && tail {
        cursor_offset - (pl - vl)
    } else if vl < pl && head {
        cursor_offset
    } else {
        vl
    }
}


/// The characters of `s` with `c` put in at index `j`.
fn insert_char_at(s: &String, j: usize, c: char) -> (r: String)
    requires
        j <= s@.len(),
    ensures
        r@ == s@.insert(j as int, c),
{
    let cs = to_chars(s.as_str());
    let mut out = crate::chars::string_of(&subrange_vec(&cs, 0, j));
    crate::chars::push_char(&mut out, c);
    crate::chars::push_chars(&mut out, &subrange_vec(&cs, j, cs.len()));
    assert(out@ =~= s@.insert(j as int, c));
    out
}

/// The characters of `s` without the one at index `j`.
fn remove_char_at(s: &String, j: usize) -> (r: String)
    requires
        j < s@.len(),
    ensures
        r@ == s@.remove(j as int),
{
    let cs = to_chars(s.as_str());
    let n = cs.len();
    assert(j < n);
    let mut out = crate::chars::string_of(&subrange_vec(&cs, 0, j));
    crate::chars::push_chars(&mut out, &subrange_vec(&cs, j + 1, n));
    assert(out@ =~= s@.remove(j as int));
    out
}

/// What a text input's key handling keeps between events: the value being
/// edited and the byte offset edits happen at, the cursor shown, the hint
/// for the next cursor update, and the column kept while moving up and
/// down.
pub struct TextInputKeys {
    /// The value being edited.
    pub value: String,
    /// The byte offset in `value` where typing inserts.
    pub edit_offset: usize,
    /// The byte offset of the cursor in the displayed text.
    pub cursor_offset: usize,
    /// What the last edit was.
    pub hint: NewCursorOffsetHint,
    /// The column to keep while moving up and down.
    pub col_preference: Option<u16>,
}

/// The state of a text input's key handling, as values.
pub struct KeysView {
    /// The value being edited.
    pub value: Seq<char>,
    /// The byte offset where typing inserts.
    pub edit: int,
    /// The byte offset of the cursor.
    pub cursor: int,
    /// What the last edit was.
    pub hint: NewCursorOffsetHint,
    /// The column kept while moving up and down.
    pub pref: Option<u16>,
}

impl TextInputKeys {
    /// The state as values.
    pub open spec fn view_of(&self) -> KeysView {
        KeysView {
            value: self.value@,
            edit: self.edit_offset as int,
            cursor: self.cursor_offset as int,
            hint: self.hint,
            pref: self.col_preference,
        }
    }
}

/// The key of an event the input reacts to: a key press or repeat with
/// neither control nor alt held.
pub open spec fn accepted_key(event: TerminalEvent) -> Option<KeyCode> {
    match event {
        TerminalEvent::Key(k) => if k.kind != KeyEventKind::Release && k.modifiers.spec_bits() & (
        event::CONTROL_BIT | event::ALT_BIT) == 0 {
            Some(k.code)
        } else {
            None
        },
        _ => None,
    }
}

/// The character index of the edit offset.
pub open spec fn edit_index(k: KeysView) -> int {
    chars::char_index_at(k.value, k.edit)
}

/// The column kept for moving up or down: the one kept so far, or else the
/// cursor's column.
pub open spec fn kept_column(buf: TextBufferView, k: KeysView) -> u16 {
    match k.pref {
        Some(p) => p,
        None => row_column_from(buf.text, buf.rows, k.cursor, 0).1,
    }
}

/// A text buffer as values.
pub struct TextBufferView {
    /// The text.
    pub text: Seq<char>,
    /// The rows.
    pub rows: Seq<TextBufferRow>,
}

/// The offset one row above `offset`, at column `col`.
pub open spec fn above(buf: TextBufferView, offset: int, col: u16) -> int {
    let row = row_column_from(buf.text, buf.rows, offset, 0).0;
    if row == 0 {
        offset
    } else {
        closest_column_offset(buf.text, buf.rows[row - 1], col as int)
    }
}

/// The offset one row below `offset`, at column `col`.
pub open spec fn below(buf: TextBufferView, offset: int, col: u16) -> int {
    let row = row_column_from(buf.text, buf.rows, offset, 0).0;
    if row + 1 >= buf.rows.len() {
        offset
    } else {
        closest_column_offset(buf.text, buf.rows[row + 1], col as int)
    }
}

/// What a key does to the state: typing, backspace, delete and (in a
/// multiline input) enter edit the value at the edit offset; the arrow
/// keys move the cursor, up and down keeping a column; every key but up,
/// down and the ones ignored forgets the kept column.
pub open spec fn key_effect(buf: TextBufferView, k: KeysView, multiline: bool, code: KeyCode) -> KeysView {
    let j = edit_index(k);
    let moved = match code {
        KeyCode::Char(c) => KeysView {
            value: k.value.insert(j, c),
            edit: k.edit + chars::char_utf8_len(c),
            ..k
        },
        KeyCode::Backspace => if k.edit > 0 {
            KeysView {
                value: k.value.remove(j - 1),
                edit: k.edit - chars::char_utf8_len(k.value[j - 1]),
                hint: NewCursorOffsetHint::Backspace,
                ..k
            }
        } else {
            KeysView { hint: NewCursorOffsetHint::Backspace, ..k }
        },
        KeyCode::Delete => if k.edit < chars::utf8_len(k.value) {
            KeysView { value: k.value.remove(j), hint: NewCursorOffsetHint::Deletion, ..k }
        } else {
            KeysView { hint: NewCursorOffsetHint::Deletion, ..k }
        },
        KeyCode::Enter => if multiline {
            KeysView { value: k.value.insert(j, '\n'), edit: k.edit + 1, ..k }
        } else {
            k
        },
        KeyCode::Left => KeysView { cursor: left_of(buf.text, k.cursor), ..k },
        KeyCode::Right => KeysView { cursor: right_of(buf.text, k.cursor), ..k },
        KeyCode::Up => if multiline {
            let col = kept_column(buf, k);
            KeysView { cursor: above(buf, k.cursor, col), pref: Some(col), ..k }
        } else {
            k
        },
        KeyCode::Down => if multiline {
            let col = kept_column(buf, k);
            KeysView { cursor: below(buf, k.cursor, col), pref: Some(col), ..k }
        } else {
            k
        },
        _ => k,
    };
    if forgets_column(multiline, code) {
        KeysView { pref: None, ..moved }
    } else {
        moved
    }
}

/// Whether a key makes the input forget the kept column.
pub open spec fn forgets_column(multiline: bool, code: KeyCode) -> bool {
    match code {
        KeyCode::Char(_) | KeyCode::Backspace | KeyCode::Delete | KeyCode::Left | KeyCode::Right => true,
        KeyCode::Enter => multiline,
        _ => false,
    }
}

/// Whether a key changes the value (and so is reported).
pub open spec fn reports_change(multiline: bool, code: KeyCode) -> bool {
    match code {
        KeyCode::Char(_) | KeyCode::Backspace | KeyCode::Delete => true,
        KeyCode::Enter => multiline,
        _ => false,
    }
}

/// What a key needs of the state to be handled: edits need the edit offset
/// at a character boundary of the value, with room for four more bytes;
/// moves need the cursor where the buffer can look it up.
pub open spec fn key_allowed(buf: TextBufferView, k: KeysView, multiline: bool, code: KeyCode) -> bool {
    match code {
        KeyCode::Char(_) | KeyCode::Backspace | KeyCode::Delete | KeyCode::Enter => chars::is_boundary(
            k.value,
            k.edit,
        ) && chars::utf8_len(k.value) + 4 <= usize::MAX,
        KeyCode::Left => k.cursor == 0 || chars::is_boundary(buf.text, k.cursor),
        KeyCode::Right => k.cursor >= chars::utf8_len(buf.text) || chars::is_boundary(buf.text, k.cursor),
        KeyCode::Up => !multiline || chars::is_boundary(buf.text, k.cursor) || !covered(buf.rows, k.cursor),
        KeyCode::Down => !multiline || ((chars::is_boundary(buf.text, k.cursor) || !covered(
            buf.rows,
            k.cursor,
        )) && (row_column_from(buf.text, buf.rows, k.cursor, 0).0 < u16::MAX || buf.rows.len() <= u16::MAX
            + 1)),
        _ => true,
    }
}

impl TextBuffer {
    /// The buffer as values.
    pub open spec fn buf_view(&self) -> TextBufferView {
        TextBufferView { text: self.text_v(), rows: self.rows_v() }
    }
}

impl TextInputKeys {
    /// Handles a terminal event. Without focus, or for events other than
    /// key presses and repeats without control or alt, nothing happens.
    /// Otherwise the key takes effect as [`key_effect`] says, and where it
    /// changed the value, the new value is returned to be reported.
    pub fn handle_event(&mut self, buffer: &TextBuffer, has_focus: bool, multiline: bool, event: &TerminalEvent) -> (r: Option<String>)
        requires
            buffer.wf(),
            has_focus ==> match accepted_key(*event) {
                Some(code) => key_allowed(buffer.buf_view(), old(self).view_of(), multiline, code),
                None => true,
            },
        ensures
            !has_focus || accepted_key(*event) is None ==> final(self).view_of() == old(self).view_of() && r is None,
            has_focus ==> match accepted_key(*event) {
                Some(code) => {
                    &&& final(self).view_of() == key_effect(buffer.buf_view(), old(self).view_of(), multiline, code)
                    &&& reports_change(multiline, code) ==> (r matches Some(v) && v@ == final(self).value@)
                    &&& !reports_change(multiline, code) ==> r is None
                },
                None => true,
            },
    {
        if !has_focus {
            return None;
        }
        let k = match event {
            TerminalEvent::Key(k) => *k,
            _ => {
                return None;
            },
        };
        let released = match k.kind {
            KeyEventKind::Release => true,
            _ => false,
        };
        if released || k.modifiers.intersects(event::KeyModifiers::CONTROL().union(event::KeyModifiers::ALT())) {
            return None;
        }
        self.apply_key(buffer, multiline, k.code)
    }

    /// Applies a key the input reacts to.
    fn apply_key(&mut self, buffer: &TextBuffer, multiline: bool, code: KeyCode) -> (r: Option<String>)
        requires
            buffer.wf(),
            key_allowed(buffer.buf_view(), old(self).view_of(), multiline, code),
        ensures
            final(self).view_of() == key_effect(buffer.buf_view(), old(self).view_of(), multiline, code),
            reports_change(multiline, code) ==> (r matches Some(v) && v@ == final(self).value@),
            !reports_change(multiline, code) ==> r is None,
    {
        let mut clear_pref = true;
        let mut changed = false;
        match code {
            KeyCode::Char(c) => {
                self.insert_at_edit(c);
                changed = true;
            },
            KeyCode::Backspace => {
                self.backspace_at_edit();
                changed = true;
                self.hint = NewCursorOffsetHint::Backspace;
            },
            KeyCode::Delete => {
                self.delete_at_edit();
                changed = true;
                self.hint = NewCursorOffsetHint::Deletion;
            },
            KeyCode::Enter => {
                if multiline {
                    self.insert_at_edit('\n');
                    changed = true;
                } else {
                    clear_pref = false;
                }
            },
            KeyCode::Left => {
                self.cursor_offset = buffer.left_of_offset(self.cursor_offset);
            },
            KeyCode::Right => {
                self.cursor_offset = buffer.right_of_offset(self.cursor_offset);
            },
            KeyCode::Up => {
                clear_pref = false;
                if multiline {
                    let col = match self.col_preference {
                        Some(p) => p,
                        None => buffer.row_column_for_offset(self.cursor_offset).1,
                    };
                    self.col_preference = Some(col);
                    self.cursor_offset = buffer.above_offset(self.cursor_offset, Some(col));
                }
            },
            KeyCode::Down => {
                clear_pref = false;
                if multiline {
                    let col = match self.col_preference {
                        Some(p) => p,
                        None => buffer.row_column_for_offset(self.cursor_offset).1,
                    };
                    self.col_preference = Some(col);
                    self.cursor_offset = buffer.below_offset(self.cursor_offset, Some(col));
                }
            },
            _ => {
                clear_pref = false;
            },
        }
        if clear_pref {
            self.col_preference = None;
        }
        if changed {
            Some(self.value.clone())
        } else {
            None
        }
    }

    /// Puts `c` in at the edit offset and moves the edit offset past it.
    fn insert_at_edit(&mut self, c: char)
        requires
            chars::is_boundary(old(self).value@, old(self).edit_offset as int),
            chars::utf8_len(old(self).value@) + 4 <= usize::MAX,
        ensures
            final(self).value@ == old(self).value@.insert(edit_index(old(self).view_of()), c),
            final(self).edit_offset == old(self).edit_offset + chars::char_utf8_len(c),
            final(self).cursor_offset == old(self).cursor_offset,
            final(self).hint == old(self).hint,
            final(self).col_preference == old(self).col_preference,
    {
        let cs = to_chars(self.value.as_str());
        let j = match char_index_of(&cs, self.edit_offset) {
            Some(j) => j,
            None => {
                assert(false);
                0
            },
        };
        proof {
            lemma_boundary_le(self.value@, self.edit_offset as int);
        }
        self.value = insert_char_at(&self.value, j, c);
        self.edit_offset = self.edit_offset + chars::len_utf8(c);
    }

    /// Removes the character before the edit offset, if any, and moves the
    /// edit offset back over it.
    fn backspace_at_edit(&mut self)
        requires
            chars::is_boundary(old(self).value@, old(self).edit_offset as int),
            chars::utf8_len(old(self).value@) <= usize::MAX,
        ensures
            ({
                let k = old(self).view_of();
                let j = edit_index(k);
                if k.edit > 0 {
                    &&& final(self).value@ == k.value.remove(j - 1)
                    &&& final(self).edit_offset == k.edit - chars::char_utf8_len(k.value[j - 1])
                } else {
                    &&& final(self).value@ == k.value
                    &&& final(self).edit_offset == k.edit
                }
            }),
            final(self).cursor_offset == old(self).cursor_offset,
            final(self).hint == old(self).hint,
            final(self).col_preference == old(self).col_preference,
    {
        if self.edit_offset == 0 {
            return;
        }
        let cs = to_chars(self.value.as_str());
        let j = match char_index_of(&cs, self.edit_offset) {
            Some(j) => j,
            None => {
                assert(false);
                0
            },
        };
        if j == 0 {
            assert(cs@.take(0) =~= Seq::<char>::empty());
            assert(false);
            return;
        }
        proof {
            chars::lemma_utf8_len_take_next(cs@, j - 1);
        }
        self.edit_offset = self.edit_offset - chars::len_utf8(cs[j - 1]);
        self.value = remove_char_at(&self.value, j - 1);
    }

    /// Removes the character at the edit offset, if any.
    fn delete_at_edit(&mut self)
        requires
            chars::is_boundary(old(self).value@, old(self).edit_offset as int),
            chars::utf8_len(old(self).value@) <= usize::MAX,
        ensures
            ({
                let k = old(self).view_of();
                if k.edit < chars::utf8_len(k.value) {
                    final(self).value@ == k.value.remove(edit_index(k))
                } else {
                    final(self).value@ == k.value
                }
            }),
            final(self).edit_offset == old(self).edit_offset,
            final(self).cursor_offset == old(self).cursor_offset,
            final(self).hint == old(self).hint,
            final(self).col_preference == old(self).col_preference,
    {
        let cs = to_chars(self.value.as_str());
        let len = utf8_prefix_len(&cs, cs.len());
        assert(cs@.take(cs@.len() as int) =~= cs@);
        if self.edit_offset >= len {
            return;
        }
        let j = match char_index_of(&cs, self.edit_offset) {
            Some(j) => j,
            None => {
                assert(false);
                0
            },
        };
        if j >= cs.len() {
            assert(false);
            return;
        }
        self.value = remove_char_at(&self.value, j);
    }
}


/// The width a text input wraps its text to: a multiline input keeps its
/// last column for the cursor; a single-line one does not wrap (up to the
/// largest width a row can have).
pub open spec fn text_width_for(multiline: bool, width: u16) -> u16 {
    if multiline {
        if width == 0 {
            0
        } else {
            (width - 1) as u16
        }
    } else {
        u16::MAX
    }
}

/// The width a text input wraps its text to.
pub fn max_text_width(multiline: bool, width: u16) -> (r: u16)
    ensures
        r == text_width_for(multiline, width),
{
    if multiline {
        let w = if width > 1 { width } else { 1 };
        w - 1
    } else {
        u16::MAX
    }
}

/// The cursor offset after a render: where the value changed, the offset
/// follows the change; then a requested offset is taken, limited to the
/// value's length, unless the cursor is already there.
pub open spec fn cursor_after_render(
    prev: Seq<char>,
    value: Seq<char>,
    cursor: int,
    hint: NewCursorOffsetHint,
    requested: Option<usize>,
) -> int {
    let c = if value != prev {
        cursor_after_change(prev, cursor, value, hint)
    } else {
        cursor
    };
    match requested {
        Some(req) => if c != req {
            if req < chars::utf8_len(value) {
                req as int
            } else {
                chars::utf8_len(value) as int
            }
        } else {
            c
        },
        None => c,
    }
}

/// The cursor offset after a render.
pub fn update_cursor_offset(
    prev_value: &str,
    value: &str,
    cursor_offset: usize,
    hint: NewCursorOffsetHint,
    requested: Option<usize>,
) -> (r: usize)
    requires
        prev_value@ != value@ ==> cursor_offset <= chars::utf8_len(prev_value@),
        chars::utf8_len(prev_value@) <= usize::MAX,
        chars::utf8_len(value@) <= usize::MAX,
    ensures
        r == cursor_after_render(prev_value@, value@, cursor_offset as int, hint, requested),
{
    let mut c = cursor_offset;
    if !crate::chars::str_eq(prev_value, value) {
        c = new_cursor_offset(prev_value, cursor_offset, value, hint);
    }
    match requested {
        Some(req) => {
            if c != req {
                let vs = to_chars(value);
                let len = utf8_prefix_len(&vs, vs.len());
                assert(vs@.take(vs@.len() as int) =~= vs@);
                c = if req < len { req } else { len };
            }
        },
        None => {},
    }
    c
}

/// Where a text input shows its cursor and how far it is scrolled.
#[derive(Clone, Copy, Debug, PartialEq, Eq, Structural)]
pub struct CursorView {
    /// The cursor's row.
    pub row: u16,
    /// The cursor's column.
    pub col: u16,
    /// The first row shown.
    pub scroll_row: u16,
    /// The first column shown.
    pub scroll_col: u16,
}

/// The cursor's column, kept inside a wrapping input: no text reaches past
/// its last column.
pub open spec fn shown_column(col: u16, multiline: bool, width: u16) -> u16 {
    if multiline && col >= width && width > 0 {
        (width - 1) as u16
    } else {
        col
    }
}

/// The scroll position along one axis that brings `pos` into a view of
/// `size` cells scrolled to `scroll`: the smallest move that does.
pub open spec fn scrolled(pos: u16, size: u16, scroll: u16) -> u16 {
    if pos >= scroll + size {
        (pos - size + 1) as u16
    } else if pos < scroll {
        pos
    } else {
        scroll
    }
}

/// Scrolls along one axis so `pos` is in view.
fn scroll_axis(pos: u16, size: u16, scroll: u16) -> (r: u16)
    requires
        size > 0,
        scroll + size <= u16::MAX,
    ensures
        r == scrolled(pos, size, scroll),
        r <= pos < r + size,
{
    if pos >= scroll + size {
        pos - size + 1
    } else if pos < scroll {
        pos
    } else {
        scroll
    }
}

impl TextBuffer {
    /// Where the cursor at byte `offset` is shown in a view of `width` by
    /// `height` cells scrolled to (`scroll_row`, `scroll_col`), and how the
    /// view is scrolled to keep it visible. In a view with cells, the cursor
    /// is always within it afterwards.
    pub fn cursor_view(
        &self,
        offset: usize,
        multiline: bool,
        width: u16,
        height: u16,
        scroll_row: u16,
        scroll_col: u16,
    ) -> (r: CursorView)
        requires
            self.wf(),
            self.offset_ok(offset as int),
            width > 0 && height > 0 ==> scroll_row + height <= u16::MAX && scroll_col + width <= u16::MAX,
        ensures
            ({
                let (row, col) = row_column_from(self.text_v(), self.rows_v(), offset as int, 0);
                let c = shown_column(col, multiline, width);
                &&& r.row == row
                &&& r.col == c
                &&& width > 0 && height > 0 ==> r.scroll_row == scrolled(row, height, scroll_row)
                    && r.scroll_col == scrolled(c, width, scroll_col)
                &&& !(width > 0 && height > 0) ==> r.scroll_row == scroll_row && r.scroll_col == scroll_col
            }),
            width > 0 && height > 0 ==> r.scroll_row <= r.row < r.scroll_row + height && r.scroll_col <= r.col
                < r.scroll_col + width,
    {
        let (row, col) = self.row_column_for_offset(offset);
        let mut col = col;
        if multiline && col >= width && width > 0 {
            col = width - 1;
        }
        let mut sr = scroll_row;
        let mut sc = scroll_col;
        if width > 0 && height > 0 {
            sr = scroll_axis(row, height, scroll_row);
            sc = scroll_axis(col, width, scroll_col);
        }
        CursorView { row, col, scroll_row: sr, scroll_col: sc }
    }
}


/// Moving the cursor left or right from a character boundary lands on a
/// character boundary within the text.
pub proof fn lemma_moves_stay_on_boundaries(text: Seq<char>, offset: int)
    requires
        offset == 0 || chars::is_boundary(text, offset),
    ensures
        0 <= left_of(text, offset) <= chars::utf8_len(text),
        chars::is_boundary(text, left_of(text, offset)),
        0 <= right_of(text, offset) <= chars::utf8_len(text),
        chars::is_boundary(text, right_of(text, offset)),
{
    assert(text.take(0) =~= Seq::<char>::empty());
    assert(text.take(text.len() as int) =~= text);
    assert(chars::utf8_len(text.take(0)) == 0);
    assert(chars::utf8_len(text.take(text.len() as int)) == chars::utf8_len(text));
    if offset != 0 {
        let j = chars::char_index_at(text, offset);
        assert(0 <= j <= text.len() && chars::utf8_len(text.take(j)) == offset);
        assert(j >= 1);
        chars::lemma_utf8_len_bounded(text, j - 1);
        assert(chars::utf8_len(text.take(j - 1)) == left_of(text, offset));
    }
    if offset < chars::utf8_len(text) {
        let j = chars::char_index_at(text, offset);
        assert(0 <= j <= text.len() && chars::utf8_len(text.take(j)) == offset);
        assert(j < text.len());
        chars::lemma_utf8_len_bounded(text, j + 1);
        assert(chars::utf8_len(text.take(j + 1)) == right_of(text, offset));
    }
}

/// Moving the cursor right and then left comes back to where it was, for
/// any cursor on a character boundary before the end of the text.
pub proof fn lemma_right_then_left(text: Seq<char>, offset: int)
    requires
        chars::is_boundary(text, offset),
        offset < chars::utf8_len(text),
    ensures
        left_of(text, right_of(text, offset)) == offset,
{
    let j = chars::char_index_at(text, offset);
    if j == text.len() {
        assert(text.take(j) =~= text);
    }
    assert(j < text.len());
    chars::lemma_utf8_len_take_next(text, j);
    let r = right_of(text, offset);
    assert(r == chars::utf8_len(text.take(j + 1)));
    assert(chars::is_boundary(text, r));
    let j2 = chars::char_index_at(text, r);
    chars::lemma_utf8_prefix_injective(text, j2, j + 1);
}

/// Moving the cursor left and then right comes back to where it was, for
/// any cursor on a character boundary after the start of the text.
pub proof fn lemma_left_then_right(text: Seq<char>, offset: int)
    requires
        chars::is_boundary(text, offset),
        offset > 0,
    ensures
        right_of(text, left_of(text, offset)) == offset,
{
    let j = chars::char_index_at(text, offset);
    if j == 0 {
        assert(text.take(0) =~= Seq::<char>::empty());
    }
    assert(j >= 1);
    let l = left_of(text, offset);
    assert(l == chars::utf8_len(text.take(j - 1)));
    chars::lemma_utf8_len_take_next(text, j - 1);
    chars::lemma_utf8_len_bounded(text, j);
    assert(chars::is_boundary(text, l));
    let j2 = chars::char_index_at(text, l);
    chars::lemma_utf8_prefix_injective(text, j2, j - 1);
}

/// Typing a character and then pressing backspace gives back the value and
/// the edit offset from before.
pub proof fn lemma_type_then_backspace(buf: TextBufferView, k: KeysView, multiline: bool, c: char)
    requires
        chars::is_boundary(k.value, k.edit),
    ensures
        ({
            let k1 = key_effect(buf, k, multiline, KeyCode::Char(c));
            let k2 = key_effect(buf, k1, multiline, KeyCode::Backspace);
            &&& k2.value == k.value
            &&& k2.edit == k.edit
            &&& k2.cursor == k.cursor
        }),
{
    let j = edit_index(k);
    assert(0 <= j <= k.value.len() && chars::utf8_len(k.value.take(j)) == k.edit);
    let v1 = k.value.insert(j, c);
    let e1 = k.edit + chars::char_utf8_len(c);
    assert(v1.take(j + 1) =~= k.value.take(j).push(c));
    assert(v1.take(j + 1).drop_last() =~= k.value.take(j));
    assert(chars::utf8_len(v1.take(j + 1)) == e1);
    assert(chars::is_boundary(v1, e1));
    let j1 = chars::char_index_at(v1, e1);
    chars::lemma_utf8_prefix_injective(v1, j1, j + 1);
    assert(v1[j] == c);
    assert(v1.remove(j) =~= k.value);
}

/// Every character of `s` is ASCII.
pub open spec fn all_ascii(s: Seq<char>) -> bool {
    forall|i: int| 0 <= i < s.len() ==> (#[trigger] s[i] as u32) < 0x80
}

/// An ASCII text has as many bytes as characters.
proof fn lemma_ascii_len(s: Seq<char>)
    requires
        all_ascii(s),
    ensures
        chars::utf8_len(s) == s.len(),
    decreases s.len(),
{
    if s.len() > 0 {
        assert(all_ascii(s.drop_last()));
        lemma_ascii_len(s.drop_last());
        assert((s.last() as u32) < 0x80);
    }
}

/// Parts of an ASCII text are ASCII.
proof fn lemma_ascii_parts(s: Seq<char>, j: int)
    requires
        all_ascii(s),
        0 <= j <= s.len(),
    ensures
        all_ascii(s.take(j)),
        all_ascii(s.skip(j)),
        chars::utf8_len(s.take(j)) == j,
        chars::utf8_len(s.skip(j)) == s.len() - j,
        chars::utf8_len(s) == s.len(),
{
    assert forall|i: int| 0 <= i < s.take(j).len() implies (#[trigger] s.take(j)[i] as u32) < 0x80 by {
        assert(s.take(j)[i] == s[i]);
    }
    assert forall|i: int| 0 <= i < s.skip(j).len() implies (#[trigger] s.skip(j)[i] as u32) < 0x80 by {
        assert(s.skip(j)[i] == s[i + j]);
    }
    lemma_ascii_len(s.take(j));
    lemma_ascii_len(s.skip(j));
    lemma_ascii_len(s);
}

/// After text is inserted at the cursor of an ASCII value, the cursor
/// moves past the inserted text.
pub proof fn lemma_cursor_after_insertion(prev: Seq<char>, j: int, ins: Seq<char>, hint: NewCursorOffsetHint)
    requires
        all_ascii(prev),
        0 <= j <= prev.len(),
    ensures
        cursor_after_change(prev, j, prev.take(j) + ins + prev.skip(j), hint) == j + chars::utf8_len(ins),
{
    let value = prev.take(j) + ins + prev.skip(j);
    lemma_ascii_parts(prev, j);
    chars::lemma_utf8_len_concat(prev.take(j), ins);
    chars::lemma_utf8_len_concat(prev.take(j) + ins, prev.skip(j));
    assert(chars::utf8_len(value) == j + chars::utf8_len(ins) + prev.len() - j);
    assert forall|k: int| 0 <= k < j && k < value.len() && k < prev.len() implies #[trigger] value[k] == prev[k] by {
        assert(value[k] == prev.take(j)[k]);
    }
    assert(same_head(prev, j, value));
    let tail = prev.len() - j;
    assert forall|k: int| 0 <= k < tail && k < value.len() && k < prev.len() implies #[trigger] value[value.len() - 1 - k]
        == prev[prev.len() - 1 - k] by {
        assert(value[value.len() - 1 - k] == prev.skip(j)[prev.skip(j).len() - 1 - k]);
    }
    assert(same_tail(prev, j, value));
}

/// After a backspace removed the `m` characters before the cursor of an
/// ASCII value (and no deletion is hinted), the cursor moves back by them.
pub proof fn lemma_cursor_after_backspace(prev: Seq<char>, j: int, m: int, hint: NewCursorOffsetHint)
    requires
        all_ascii(prev),
        0 <= m <= j <= prev.len(),
        hint != NewCursorOffsetHint::Deletion,
    ensures
        cursor_after_change(prev, j, prev.take(j - m) + prev.skip(j), hint) == j - m,
{
    let value = prev.take(j - m) + prev.skip(j);
    lemma_ascii_parts(prev, j);
    lemma_ascii_parts(prev, j - m);
    chars::lemma_utf8_len_concat(prev.take(j - m), prev.skip(j));
    if m == 0 {
        assert(value =~= prev);
        assert(same_head(prev, j, value));
        assert(same_tail(prev, j, value));
    } else {
        let tail = prev.len() - j;
        assert forall|k: int| 0 <= k < tail && k < value.len() && k < prev.len() implies #[trigger] value[value.len() - 1
            - k] == prev[prev.len() - 1 - k] by {
            assert(value[value.len() - 1 - k] == prev.skip(j)[prev.skip(j).len() - 1 - k]);
        }
        assert(same_tail(prev, j, value));
    }
}

/// After a deletion removed the `m` characters after the cursor of an ASCII
/// value (and a deletion is hinted), the cursor stays.
pub proof fn lemma_cursor_after_deletion(prev: Seq<char>, j: int, m: int)
    requires
        all_ascii(prev),
        0 <= j,
        0 <= m,
        j + m <= prev.len(),
    ensures
        cursor_after_change(prev, j, prev.take(j) + prev.skip(j + m), NewCursorOffsetHint::Deletion) == j,
{
    let value = prev.take(j) + prev.skip(j + m);
    lemma_ascii_parts(prev, j);
    lemma_ascii_parts(prev, j + m);
    chars::lemma_utf8_len_concat(prev.take(j), prev.skip(j + m));
    assert forall|k: int| 0 <= k < j && k < value.len() && k < prev.len() implies #[trigger] value[k] == prev[k] by {
        assert(value[k] == prev.take(j)[k]);
    }
    assert(same_head(prev, j, value));
    if m == 0 {
        assert(value =~= prev);
        assert(same_tail(prev, j, value));
    }
}

/// Delete removes exactly the character at the edit offset: where `j`
/// characters come before the edit offset and it is before the end, the
/// value gets one character shorter, the `j` characters before stay, and
/// every later character moves one place to the left; the edit offset stays
/// where it was. At the end of the value, Delete changes nothing.
pub proof fn lemma_delete_removes_the_next_character(
    buf: TextBufferView,
    k: KeysView,
    multiline: bool,
    j: int,
)
    requires
        0 <= j <= k.value.len(),
        chars::utf8_len(k.value.take(j)) == k.edit,
    ensures
        ({
            let k2 = key_effect(buf, k, multiline, KeyCode::Delete);
            &&& k2.edit == k.edit
            &&& k2.cursor == k.cursor
            &&& j < k.value.len() ==> {
                &&& k2.value.len() + 1 == k.value.len()
                &&& forall|i: int| 0 <= i < j ==> #[trigger] k2.value[i] == k.value[i]
                &&& forall|i: int| j <= i < k2.value.len() ==> #[trigger] k2.value[i] == k.value[i + 1]
            }
            &&& j == k.value.len() ==> k2.value == k.value
        }),
{
    assert(chars::is_boundary(k.value, k.edit));
    let j2 = edit_index(k);
    chars::lemma_utf8_prefix_injective(k.value, j, j2);
    assert(k.value.take(k.value.len() as int) =~= k.value);
    if j < k.value.len() {
        chars::lemma_utf8_len_take_mono(k.value, j, k.value.len() as int);
    }
}

} // verus!
