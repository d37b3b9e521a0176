//! The canvas that output is drawn to before it is rendered to a terminal or
//! another destination.
use vstd::prelude::*;
use crate::color::{push_decimal, Color, SgrColor, SGR_BOLD, SGR_DIM, SGR_ITALIC, SGR_UNDERLINED};
use crate::{chars, color, style, unicode};
use crate::style::{CanvasTextStyle, Weight};
use crate::chars::{lines, push_char, push_str, string_of, to_chars};
use crate::unicode::{char_cols_of, str_width};

verus! {

/// The text drawn in one cell: one or more characters that together take up
/// the cell (and the cells to its right, for wide characters).
struct Character {
    value: String,
    style: CanvasTextStyle,
}

/// One cell of a canvas.
struct Cell {
    background_color: Option<Color>,
    character: Option<Character>,
}

/// What a cell holds: its background color and its text, if any.
pub struct CellView {
    /// The background color of the cell.
    pub background_color: Option<Color>,
    /// The text of the cell and its style.
    pub character: Option<(Seq<char>, CanvasTextStyle)>,
}

/// A cell with neither background color nor text.
pub open spec fn empty_cell() -> CellView {
    CellView { background_color: None, character: None }
}

/// Whether a cell has neither background color nor text.
pub open spec fn cell_is_empty(c: CellView) -> bool {
    c.background_color is None && c.character is None
}

impl Cell {
    closed spec fn view_of(&self) -> CellView {
        CellView {
            background_color: self.background_color,
            character: match self.character {
                Some(c) => Some((c.value@, c.style)),
                None => None,
            },
        }
    }

    fn empty() -> (r: Cell)
        ensures
            r.view_of() == empty_cell(),
    {
        Cell { background_color: None, character: None }
    }

    fn is_empty(&self) -> (r: bool)
        ensures
            r == cell_is_empty(self.view_of()),
    {
        self.background_color.is_none() && self.character.is_none()
    }
}

/// Whether two cells hold the same.
fn cell_eq(a: &Cell, b: &Cell) -> (r: bool)
    ensures
        r == (a.view_of() == b.view_of()),
{
    if a.background_color != b.background_color {
        return false;
    }
    match (&a.character, &b.character) {
        (None, None) => true,
        (Some(ca), Some(cb)) => {
            if ca.style != cb.style {
                return false;
            }
            chars::str_eq(ca.value.as_str(), cb.value.as_str())
        },
        _ => false,
    }
}

/// `Canvas` is the medium that output is drawn to before being rendered to
/// the terminal or other destinations.
pub struct Canvas {
    width: usize,
    cells: Vec<Vec<Cell>>,
}

/// A row of `n` empty cells.
pub open spec fn empty_row(n: nat) -> Seq<CellView> {
    Seq::new(n, |_i: int| empty_cell())
}

/// Every row of `rows` has `width` cells.
pub open spec fn rows_have_width(rows: Seq<Seq<CellView>>, width: nat) -> bool {
    forall|y: int| 0 <= y < rows.len() ==> #[trigger] rows[y].len() == width
}

/// `rows` with the text of every cell in the rectangle at (`x`, `y`) of size
/// `w` by `h` removed (cells outside the rows are ignored).
pub open spec fn clear_text_rows(rows: Seq<Seq<CellView>>, x: int, y: int, w: int, h: int) -> Seq<
    Seq<CellView>,
> {
    Seq::new(
        rows.len(),
        |r: int|
            if y <= r < y + h {
                Seq::new(
                    rows[r].len(),
                    |c: int|
                        if x <= c < x + w {
                            CellView { character: None, ..rows[r][c] }
                        } else {
                            rows[r][c]
                        },
                )
            } else {
                rows[r]
            },
    )
}

/// `rows` with the background of every cell in the rectangle at (`x`, `y`)
/// of size `w` by `h` set to `color`.
pub open spec fn fill_background_rows(
    rows: Seq<Seq<CellView>>,
    x: int,
    y: int,
    w: int,
    h: int,
    color: Color,
) -> Seq<Seq<CellView>> {
    Seq::new(
        rows.len(),
        |r: int|
            if y <= r < y + h {
                Seq::new(
                    rows[r].len(),
                    |c: int|
                        if x <= c < x + w {
                            CellView { background_color: Some(color), ..rows[r][c] }
                        } else {
                            rows[r][c]
                        },
                )
            } else {
                rows[r]
            },
    )
}

/// Clearing the text of a rectangle twice does no more than clearing it
/// once.
pub proof fn lemma_clear_text_idempotent(rows: Seq<Seq<CellView>>, x: int, y: int, w: int, h: int)
    ensures
        clear_text_rows(clear_text_rows(rows, x, y, w, h), x, y, w, h) == clear_text_rows(rows, x, y, w, h),
{
    let once = clear_text_rows(rows, x, y, w, h);
    let twice = clear_text_rows(once, x, y, w, h);
    assert forall|r: int| 0 <= r < rows.len() implies #[trigger] twice[r] == once[r] by {
        assert(twice[r] =~= once[r]);
    }
    assert(twice =~= once);
}

/// Filling the background of a rectangle twice with one color does no more
/// than filling it once.
pub proof fn lemma_fill_background_idempotent(rows: Seq<Seq<CellView>>, x: int, y: int, w: int, h: int, color: Color)
    ensures
        fill_background_rows(fill_background_rows(rows, x, y, w, h, color), x, y, w, h, color)
            == fill_background_rows(rows, x, y, w, h, color),
{
    let once = fill_background_rows(rows, x, y, w, h, color);
    let twice = fill_background_rows(once, x, y, w, h, color);
    assert forall|r: int| 0 <= r < rows.len() implies #[trigger] twice[r] == once[r] by {
        assert(twice[r] =~= once[r]);
    }
    assert(twice =~= once);
}

/// Text and background are separate: clearing the text of one rectangle and
/// filling the background of another give the same canvas in either order.
pub proof fn lemma_clear_fill_commute(
    rows: Seq<Seq<CellView>>,
    x: int,
    y: int,
    w: int,
    h: int,
    fx: int,
    fy: int,
    fw: int,
    fh: int,
    color: Color,
)
    ensures
        clear_text_rows(fill_background_rows(rows, fx, fy, fw, fh, color), x, y, w, h)
            == fill_background_rows(clear_text_rows(rows, x, y, w, h), fx, fy, fw, fh, color),
{
    let a = clear_text_rows(fill_background_rows(rows, fx, fy, fw, fh, color), x, y, w, h);
    let b = fill_background_rows(clear_text_rows(rows, x, y, w, h), fx, fy, fw, fh, color);
    assert forall|r: int| 0 <= r < rows.len() implies #[trigger] a[r] == b[r] by {
        assert(a[r] =~= b[r]);
    }
    assert(a =~= b);
}

/// `cell` with its text replaced by `value` in `style`.
pub open spec fn with_text(cell: CellView, value: Seq<char>, style: CanvasTextStyle) -> CellView {
    CellView { character: Some((value, style)), ..cell }
}

/// How far the next cluster starts after a cluster of the given characters:
/// its display width, but at least one cell.
pub open spec fn cluster_advance(value: Seq<char>) -> nat {
    if unicode::str_width_of(value) == 0 {
        1
    } else {
        unicode::str_width_of(value) as nat
    }
}

/// Writes characters into a row from column `x` on. Each character of
/// nonzero width starts a new cluster; characters of zero width join the
/// cluster before them. A cluster is stored in the cell where it starts and
/// the next cluster starts [`cluster_advance`] cells further right. `buf` is
/// the cluster being collected, `rest` the characters still to write.
/// Writing stops at the end of the row.
pub open spec fn place_chars(
    row: Seq<CellView>,
    x: int,
    buf: Seq<char>,
    rest: Seq<char>,
    style: CanvasTextStyle,
) -> Seq<CellView>
    decreases rest.len(),
{
    if rest.len() == 0 || x >= row.len() {
        if buf.len() > 0 && 0 <= x < row.len() {
            row.update(x, with_text(row[x], buf, style))
        } else {
            row
        }
    } else if unicode::char_cols(rest[0]) > 0 && buf.len() > 0 {
        place_chars(
            if 0 <= x { row.update(x, with_text(row[x], buf, style)) } else { row },
            x + cluster_advance(buf),
            seq![rest[0]],
            rest.drop_first(),
            style,
        )
    } else {
        place_chars(row, x, buf.push(rest[0]), rest.drop_first(), style)
    }
}

/// Past the end of the row, writing changes nothing, wherever it would start.
pub proof fn lemma_place_chars_past_end(
    row: Seq<CellView>,
    x1: int,
    x2: int,
    buf: Seq<char>,
    rest: Seq<char>,
    style: CanvasTextStyle,
)
    requires
        x1 >= row.len(),
        x2 >= row.len(),
    ensures
        place_chars(row, x1, buf, rest, style) == row,
        place_chars(row, x2, buf, rest, style) == row,
{
}

/// Drops characters from the front of `s` while the total width of the
/// dropped characters is below `budget`.
pub open spec fn skip_width(s: Seq<char>, budget: int) -> Seq<char>
    decreases s.len(),
{
    if s.len() == 0 || budget <= 0 {
        s
    } else {
        skip_width(s.drop_first(), budget - unicode::char_cols(s[0]))
    }
}

/// Keeps characters from the front of `s` while the total width of the kept
/// characters is below `space`.
pub open spec fn take_width(s: Seq<char>, space: int) -> Seq<char>
    decreases s.len(),
{
    if s.len() == 0 || space <= 0 {
        Seq::empty()
    } else {
        seq![s[0]] + take_width(s.drop_first(), space - unicode::char_cols(s[0]))
    }
}

/// Draws `lines` on consecutive rows from row `y` on, the visible part of
/// each line starting at column `x`: the part after the first `to_skip`
/// columns, as much as fits in `space` columns. Rows outside `min_y..=max_y`
/// are left unchanged.
pub open spec fn draw_lines(
    rows: Seq<Seq<CellView>>,
    lines: Seq<Seq<char>>,
    x: int,
    y: int,
    to_skip: int,
    space: int,
    min_y: int,
    max_y: int,
    style: CanvasTextStyle,
) -> Seq<Seq<CellView>>
    decreases lines.len(),
{
    if lines.len() == 0 {
        rows
    } else {
        let rows1 = if min_y <= y <= max_y && 0 <= y < rows.len() {
            rows.update(
                y,
                place_chars(
                    rows[y],
                    x,
                    Seq::empty(),
                    take_width(skip_width(lines[0], to_skip), space),
                    style,
                ),
            )
        } else {
            rows
        };
        draw_lines(rows1, lines.drop_first(), x, y + 1, to_skip, space, min_y, max_y, style)
    }
}

/// Writing characters into a row from column `x` on keeps the row's length
/// and leaves the cells before `x` as they were.
proof fn lemma_place_chars_left_of(
    row: Seq<CellView>,
    x: int,
    buf: Seq<char>,
    rest: Seq<char>,
    style: CanvasTextStyle,
)
    ensures
        place_chars(row, x, buf, rest, style).len() == row.len(),
        forall|c: int| 0 <= c < x && c < row.len() ==> #[trigger] place_chars(row, x, buf, rest, style)[c] == row[c],
    decreases rest.len(),
{
    if rest.len() == 0 || x >= row.len() {
    } else if unicode::char_cols(rest[0]) > 0 && buf.len() > 0 {
        let row1 = if 0 <= x {
            row.update(x, with_text(row[x], buf, style))
        } else {
            row
        };
        lemma_place_chars_left_of(row1, x + cluster_advance(buf), seq![rest[0]], rest.drop_first(), style);
    } else {
        lemma_place_chars_left_of(row, x, buf.push(rest[0]), rest.drop_first(), style);
    }
}

/// Drawing lines leaves the rows outside `min_y..=max_y` and the cells left
/// of column `x` as they were.
proof fn lemma_draw_lines_within(
    rows: Seq<Seq<CellView>>,
    lines: Seq<Seq<char>>,
    x: int,
    y: int,
    to_skip: int,
    space: int,
    min_y: int,
    max_y: int,
    style: CanvasTextStyle,
)
    ensures
        ({
            let r = draw_lines(rows, lines, x, y, to_skip, space, min_y, max_y, style);
            &&& r.len() == rows.len()
            &&& forall|i: int| 0 <= i < rows.len() && !(min_y <= i <= max_y) ==> #[trigger] r[i] == rows[i]
            &&& forall|i: int| 0 <= i < rows.len() ==> #[trigger] r[i].len() == rows[i].len()
            &&& forall|i: int, c: int| 0 <= i < rows.len() && 0 <= c < x && c < rows[i].len() ==> #[trigger] r[i][c]
                == rows[i][c]
        }),
    decreases lines.len(),
{
    if lines.len() > 0 {
        let rows1 = if min_y <= y <= max_y && 0 <= y < rows.len() {
            rows.update(
                y,
                place_chars(rows[y], x, Seq::empty(), take_width(skip_width(lines[0], to_skip), space), style),
            )
        } else {
            rows
        };
        if min_y <= y <= max_y && 0 <= y < rows.len() {
            lemma_place_chars_left_of(rows[y], x, Seq::empty(), take_width(skip_width(lines[0], to_skip), space), style);
        }
        lemma_draw_lines_within(rows1, lines.drop_first(), x, y + 1, to_skip, space, min_y, max_y, style);
        let r = draw_lines(rows1, lines.drop_first(), x, y + 1, to_skip, space, min_y, max_y, style);
        assert forall|i: int, c: int| 0 <= i < rows.len() && 0 <= c < x && c < rows[i].len() implies #[trigger] r[i][c]
            == rows[i][c] by {
            assert(r[i][c] == rows1[i][c]);
        }
    }
}

/// Text written to a region stays within its clip rectangle on the left,
/// top and bottom: the rows above and below the clip rectangle and the
/// columns left of it are as they were, and every row keeps its length.
pub proof fn lemma_text_stays_in_clip(sub: &CanvasSubviewMut, x: int, y: int, text: Seq<char>, style: CanvasTextStyle)
    ensures
        ({
            let l = sub.text_layout(x, y);
            let rows = (*sub.target()).rows();
            let r = draw_lines(rows, chars::lines_of(text), l.0, sub.origin_y() + y, l.1, l.2, l.3, l.4, style);
            &&& r.len() == rows.len()
            &&& forall|i: int| 0 <= i < rows.len() ==> #[trigger] r[i].len() == rows[i].len()
            &&& forall|i: int| 0 <= i < rows.len() && !(sub.clip_top() <= i < sub.clip_top() + sub.clip_rows()) ==> #[trigger] r[i]
                == rows[i]
            &&& forall|i: int, c: int| 0 <= i < rows.len() && 0 <= c < sub.clip_left() && c < rows[i].len() ==> #[trigger] r[i][c]
                == rows[i][c]
        }),
{
    let l = sub.text_layout(x, y);
    let rows = (*sub.target()).rows();
    lemma_draw_lines_within(rows, chars::lines_of(text), l.0, sub.origin_y() + y, l.1, l.2, l.3, l.4, style);
}

/// Once past the last visible row, no line changes anything.
proof fn lemma_draw_lines_past(
    rows: Seq<Seq<CellView>>,
    lines: Seq<Seq<char>>,
    x: int,
    y: int,
    to_skip: int,
    space: int,
    min_y: int,
    max_y: int,
    style: CanvasTextStyle,
)
    requires
        y > max_y,
    ensures
        draw_lines(rows, lines, x, y, to_skip, space, min_y, max_y, style) == rows,
    decreases lines.len(),
{
    if lines.len() > 0 {
        lemma_draw_lines_past(rows, lines.drop_first(), x, y + 1, to_skip, space, min_y, max_y, style);
    }
}

/// Drawing lines keeps the number of rows.
pub proof fn lemma_draw_lines_len(
    rows: Seq<Seq<CellView>>,
    lines: Seq<Seq<char>>,
    x: int,
    y: int,
    to_skip: int,
    space: int,
    min_y: int,
    max_y: int,
    style: CanvasTextStyle,
)
    ensures
        draw_lines(rows, lines, x, y, to_skip, space, min_y, max_y, style).len() == rows.len(),
    decreases lines.len(),
{
    if lines.len() > 0 {
        let rows1 = if min_y <= y <= max_y && 0 <= y < rows.len() {
            rows.update(
                y,
                place_chars(
                    rows[y],
                    x,
                    Seq::empty(),
                    take_width(skip_width(lines[0], to_skip), space),
                    style,
                ),
            )
        } else {
            rows
        };
        lemma_draw_lines_len(rows1, lines.drop_first(), x, y + 1, to_skip, space, min_y, max_y, style);
    }
}

/// The characters of `s` that are visible: those after the first `to_skip`
/// columns, as many as fit in `space` columns.
fn visible_chars(s: &[char], to_skip: usize, space: isize) -> (r: Vec<char>)
    ensures
        r@ == take_width(skip_width(s@, to_skip as int), space as int),
{
    let mut i: usize = 0;
    let mut skip_left: usize = to_skip;
    assert(s@.skip(0) =~= s@);
    while i < s.len() && skip_left > 0
        invariant
            i <= s.len(),
            skip_width(s@, to_skip as int) == skip_width(s@.skip(i as int), skip_left as int),
        decreases s.len() - i,
    {
        let w = char_cols_of(s[i]);
        assert(s@.skip(i as int).drop_first() =~= s@.skip(i + 1));
        if w >= skip_left {
            assert(skip_width(s@.skip(i + 1), skip_left - w) == skip_width(s@.skip(i + 1), 0));
            skip_left = 0;
        } else {
            skip_left = skip_left - w;
        }
        i += 1;
    }
    let ghost start = i;
    let mut out: Vec<char> = Vec::new();
    if space <= 0 {
        return out;
    }
    let mut space_left: usize = space as usize;
    while i < s.len() && space_left > 0
        invariant
            start <= i <= s.len(),
            take_width(skip_width(s@, to_skip as int), space as int) == out@ + take_width(
                s@.skip(i as int),
                space_left as int,
            ),
        decreases s.len() - i,
    {
        let c = s[i];
        let w = char_cols_of(c);
        assert(s@.skip(i as int).drop_first() =~= s@.skip(i + 1));
        assert(s@.skip(i as int)[0] == c);
        out.push(c);
        if w >= space_left {
            assert(take_width(s@.skip(i + 1), space_left - w) =~= Seq::empty());
            space_left = 0;
        } else {
            space_left = space_left - w;
        }
        i += 1;
        assert(take_width(skip_width(s@, to_skip as int), space as int) =~= out@ + take_width(
                s@.skip(i as int),
                space_left as int,
            ));
    }
    assert(take_width(s@.skip(i as int), space_left as int) =~= Seq::empty());
    assert(out@ + Seq::<char>::empty() =~= out@);
    out
}

/// Properties of the environment that the rendered output depends on.
#[derive(Clone, Copy, Debug, PartialEq, Eq, Structural)]
pub struct OutputEnv {
    /// Color output is disabled (the `NO_COLOR` convention): color escape
    /// sequences carry no parameters.
    pub no_color: bool,
    /// The terminal advances the cursor by only one column for an emoji with
    /// variation selector 16, so such characters need padding.
    pub vs16_needs_padding: bool,
}

impl Default for OutputEnv {
    fn default() -> (r: OutputEnv)
        ensures
            !r.no_color && !r.vs16_needs_padding,
    {
        OutputEnv { no_color: false, vs16_needs_padding: false }
    }
}

/// The variation selector that requests emoji presentation.
pub open spec fn vs16() -> char {
    '\u{fe0f}'
}

/// `CSI <params> m`: the escape sequence selecting graphic rendition.
pub open spec fn sgr(params: Seq<char>) -> Seq<char> {
    seq!['\x1b', '['] + params + seq!['m']
}

/// `CSI K`: the escape sequence erasing to the end of the line.
pub open spec fn erase_line() -> Seq<char> {
    seq!['\x1b', '[', 'K']
}

/// `CSI 0 m`: the escape sequence resetting all attributes.
pub open spec fn reset_all() -> Seq<char> {
    sgr(seq!['0'])
}

/// `n` spaces.
pub open spec fn spaces(n: nat) -> Seq<char> {
    Seq::new(n, |_i: int| ' ')
}

/// The spaces written after a cluster: for clusters holding the emoji
/// variation selector on terminals that need it, enough to make up for the
/// columns the terminal does not advance.
pub open spec fn cluster_padding(value: Seq<char>, env: OutputEnv) -> nat {
    if value.contains(vs16()) && env.vs16_needs_padding && unicode::str_width_of(value) >= 1 {
        (unicode::str_width_of(value) - 1) as nat
    } else {
        0
    }
}

/// The text written for a cell.
pub open spec fn cell_text(cell: CellView, env: OutputEnv) -> Seq<char> {
    match cell.character {
        Some((v, _)) => v + spaces(cluster_padding(v, env)),
        None => seq![' '],
    }
}

/// How many columns a cell takes.
pub open spec fn cell_advance(cell: CellView) -> nat {
    match cell.character {
        Some((v, _)) => cluster_advance(v),
        None => 1,
    }
}

/// Every cell takes at least one column.
pub proof fn lemma_cell_advance_pos(cell: CellView)
    ensures
        cell_advance(cell) >= 1,
{
}

/// Whether moving from the current attributes to those of `cell` requires
/// resetting all attributes first.
pub open spec fn needs_reset(cell: CellView, cur: CanvasTextStyle) -> bool {
    match cell.character {
        Some((_, st)) => (st.weight != cur.weight && st.weight == Weight::Normal) || (!st.underline
            && cur.underline) || (!st.italic && cur.italic),
        None => cur.underline,
    }
}

/// The escape sequences that change the current text attributes `cur` to
/// those of `st`, assuming no attribute has to be turned off.
pub open spec fn style_codes(st: CanvasTextStyle, cur: CanvasTextStyle, no_color: bool) -> Seq<
    char,
> {
    (if st.color != cur.color {
        sgr(
            color::sgr_params(
                SgrColor::Foreground(
                    match st.color {
                        Some(c) => c,
                        None => Color::Reset,
                    },
                ),
                no_color,
            ),
        )
    } else {
        Seq::empty()
    }) + (if st.weight != cur.weight {
        match st.weight {
            Weight::Bold => sgr(color::decimal(SGR_BOLD as nat)),
            Weight::Light => sgr(color::decimal(SGR_DIM as nat)),
            Weight::Normal => Seq::empty(),
        }
    } else {
        Seq::empty()
    }) + (if st.underline && !cur.underline {
        sgr(color::decimal(SGR_UNDERLINED as nat))
    } else {
        Seq::empty()
    }) + (if st.italic && !cur.italic {
        sgr(color::decimal(SGR_ITALIC as nat))
    } else {
        Seq::empty()
    })
}

/// The background reset sequence.
pub open spec fn background_reset(no_color: bool) -> Seq<char> {
    sgr(color::sgr_params(SgrColor::Background(Color::Reset), no_color))
}

/// What rendering carries from cell to cell: the current background color,
/// the current text attributes, and whether the line was already erased.
#[derive(Clone, Copy, Debug, PartialEq, Eq, Structural)]
pub struct RenderState {
    /// The background color in effect.
    pub background: Option<Color>,
    /// The text attributes in effect.
    pub style: CanvasTextStyle,
    /// The rest of the line has been erased.
    pub cleared: bool,
}

/// Rendering a cell, first part: resetting attributes when needed and
/// switching to the text attributes of the cell.
pub open spec fn step_attributes(cell: CellView, ansi: bool, env: OutputEnv, state: RenderState) -> (
    Seq<char>,
    RenderState,
) {
    let reset = ansi && needs_reset(cell, state.style);
    let out1 = if reset {
        reset_all()
    } else {
        Seq::empty()
    };
    let st1 = if reset {
        RenderState { background: None, style: style::plain_style(), ..state }
    } else {
        state
    };
    match cell.character {
        Some((_, cs)) => if ansi {
            (out1 + style_codes(cs, st1.style, env.no_color), RenderState { style: cs, ..st1 })
        } else {
            (out1, st1)
        },
        None => (out1, st1),
    }
}

/// Rendering a cell, second part: once the cursor will reach the width of
/// the canvas, the background is reset and the rest of the line erased.
pub open spec fn step_erase(col2: int, width: nat, ansi: bool, env: OutputEnv, state: RenderState) -> (
    Seq<char>,
    RenderState,
) {
    if ansi && col2 >= width {
        (
            (if state.background is Some {
                background_reset(env.no_color)
            } else {
                Seq::empty()
            }) + erase_line(),
            RenderState { background: None, cleared: true, ..state },
        )
    } else {
        (Seq::empty(), state)
    }
}

/// Rendering a cell, third part: switching to the background of the cell.
pub open spec fn step_background(cell: CellView, ansi: bool, env: OutputEnv, state: RenderState) -> (
    Seq<char>,
    RenderState,
) {
    if ansi && cell.background_color != state.background {
        (
            sgr(
                color::sgr_params(
                    SgrColor::Background(
                        match cell.background_color {
                            Some(c) => c,
                            None => Color::Reset,
                        },
                    ),
                    env.no_color,
                ),
            ),
            RenderState { background: cell.background_color, ..state },
        )
    } else {
        (Seq::empty(), state)
    }
}

/// The output for a cell at column `col`, the column of the next cell, and
/// the state after the cell.
pub open spec fn render_step(
    cell: CellView,
    col: int,
    width: nat,
    ansi: bool,
    env: OutputEnv,
    state: RenderState,
) -> (Seq<char>, int, RenderState) {
    let a = step_attributes(cell, ansi, env, state);
    let col2 = col + cell_advance(cell);
    let e = step_erase(col2, width, ansi, env, a.1);
    let b = step_background(cell, ansi, env, e.1);
    (a.0 + e.0 + b.0 + cell_text(cell, env), col2, b.1)
}

/// The output for the cells of `row` from column `col` on, and the state
/// after them. With `ansi`, escape sequences set the colors and attributes
/// of each cell, and the line is erased once the cursor reaches the width of
/// the canvas.
pub open spec fn render_cells(
    row: Seq<CellView>,
    col: int,
    width: nat,
    ansi: bool,
    env: OutputEnv,
    state: RenderState,
) -> (Seq<char>, RenderState)
    decreases imax(row.len() - col, 0),
{
    if col < 0 || col >= row.len() {
        (Seq::empty(), state)
    } else {
        let step = render_step(row[col], col, width, ansi, env, state);
        proof {
            lemma_cell_advance_pos(row[col]);
        }
        let rest = render_cells(row, step.1, width, ansi, env, step.2);
        (step.0 + rest.0, rest.1)
    }
}

/// The number of cells of `row` up to and including its last nonempty cell.
pub open spec fn trimmed_len(row: Seq<CellView>) -> nat
    decreases row.len(),
{
    if row.len() == 0 {
        0
    } else if !cell_is_empty(row.last()) {
        row.len()
    } else {
        trimmed_len(row.drop_last())
    }
}

/// What ends the cells of a row: with `ansi`, resetting the background and
/// erasing the rest of the line unless that was done already.
pub open spec fn row_tail(ansi: bool, env: OutputEnv, state: RenderState) -> (Seq<char>, RenderState) {
    if ansi {
        (
            (if state.background is Some {
                background_reset(env.no_color)
            } else {
                Seq::empty()
            }) + (if !state.cleared {
                erase_line()
            } else {
                Seq::empty()
            }),
            RenderState { background: None, ..state },
        )
    } else {
        (Seq::empty(), state)
    }
}

/// The line ending after a row.
pub open spec fn row_newline(is_final: bool, ansi: bool, omit_final_newline: bool) -> Seq<char> {
    if !omit_final_newline || !is_final {
        if ansi {
            (if is_final {
                reset_all()
            } else {
                Seq::empty()
            }) + seq!['\r', '\n']
        } else {
            seq!['\n']
        }
    } else {
        Seq::empty()
    }
}

/// The output for one row and the state after it.
pub open spec fn render_row(
    row: Seq<CellView>,
    is_final: bool,
    width: nat,
    ansi: bool,
    omit_final_newline: bool,
    env: OutputEnv,
    state: RenderState,
) -> (Seq<char>, RenderState) {
    let cells = render_cells(
        row.take(trimmed_len(row) as int),
        0,
        width,
        ansi,
        env,
        RenderState { cleared: false, ..state },
    );
    let tail = row_tail(ansi, env, cells.1);
    (cells.0 + tail.0 + row_newline(is_final, ansi, omit_final_newline), tail.1)
}

/// The output for the rows from row `y` on.
pub open spec fn render_rows(
    rows: Seq<Seq<CellView>>,
    y: int,
    width: nat,
    ansi: bool,
    omit_final_newline: bool,
    env: OutputEnv,
    state: RenderState,
) -> Seq<char>
    decreases rows.len() - y,
{
    if y < 0 || y >= rows.len() {
        Seq::empty()
    } else {
        let r = render_row(rows[y], y == rows.len() - 1, width, ansi, omit_final_newline, env, state);
        r.0 + render_rows(rows, y + 1, width, ansi, omit_final_newline, env, r.1)
    }
}

/// The state rendering starts in: default colors and attributes.
pub open spec fn initial_render_state() -> RenderState {
    RenderState { background: None, style: style::plain_style(), cleared: false }
}

/// The whole output for a canvas.
pub open spec fn render(
    rows: Seq<Seq<CellView>>,
    width: nat,
    ansi: bool,
    omit_final_newline: bool,
    env: OutputEnv,
) -> Seq<char> {
    (if ansi {
        reset_all()
    } else {
        Seq::empty()
    }) + render_rows(rows, 0, width, ansi, omit_final_newline, env, initial_render_state()) + (
    if ansi && omit_final_newline {
        reset_all()
    } else {
        Seq::empty()
    })
}

impl Canvas {
    /// The cells of the canvas, row by row.
    pub closed spec fn rows(&self) -> Seq<Seq<CellView>> {
        Seq::new(
            self.cells@.len(),
            |y: int| Seq::new(self.cells@[y]@.len(), |x: int| self.cells@[y]@[x].view_of()),
        )
    }

    /// The width the canvas was created with.
    pub closed spec fn spec_width(&self) -> nat {
        self.width as nat
    }

    /// Every row has as many cells as the canvas is wide.
    pub open spec fn wf(&self) -> bool {
        rows_have_width(self.rows(), self.spec_width())
    }

    /// Constructs a new canvas with the given dimensions.
    pub fn new(width: usize, height: usize) -> (r: Canvas)
        ensures
            r.spec_width() == width,
            r.rows() == Seq::new(height as nat, |_y: int| empty_row(width as nat)),
            r.wf(),
    {
        let mut cells: Vec<Vec<Cell>> = Vec::new();
        let mut y: usize = 0;
        while y < height
            invariant
                y <= height,
                cells@.len() == y,
                forall|r: int, c: int|
                    0 <= r < y && 0 <= c < width ==> #[trigger] cells@[r]@[c].view_of()
                        == empty_cell(),
                forall|r: int| 0 <= r < y ==> #[trigger] cells@[r]@.len() == width,
            decreases height - y,
        {
            let mut row: Vec<Cell> = Vec::new();
            let mut x: usize = 0;
            while x < width
                invariant
                    x <= width,
                    row@.len() == x,
                    forall|c: int| 0 <= c < x ==> #[trigger] row@[c].view_of() == empty_cell(),
                decreases width - x,
            {
                row.push(Cell::empty());
                x += 1;
            }
            cells.push(row);
            y += 1;
        }
        let r = Canvas { width, cells };
        assert(r.rows() =~= Seq::new(height as nat, |_y: int| empty_row(width as nat))) by {
            assert forall|k: int| 0 <= k < height implies r.rows()[k] =~= empty_row(
                width as nat,
            ) by {}
        }
        r
    }

    /// Gets a subview of the canvas for writing: a region whose origin is at
    /// (`x`, `y`) and whose drawing is clipped to the rectangle at
    /// (`clip_x`, `clip_y`) of size `clip_width` by `clip_height`.
    pub fn subview_mut(
        &mut self,
        x: isize,
        y: isize,
        clip_x: isize,
        clip_y: isize,
        clip_width: usize,
        clip_height: usize,
    ) -> (r: CanvasSubviewMut<'_>)
        ensures
            r.origin_x() == x,
            r.origin_y() == y,
            r.clip_left() == clip_x,
            r.clip_top() == clip_y,
            r.clip_cols() == clip_width,
            r.clip_rows() == clip_height,
            *r.target() == *old(self),
            *final(self) == *final(r.target()),
    {
        CanvasSubviewMut { x, y, clip_x, clip_y, clip_width, clip_height, canvas: self }
    }

    /// Returns the width of the canvas.
    pub fn width(&self) -> (r: usize)
        ensures
            r == self.spec_width(),
    {
        self.width
    }

    /// Returns the height of the canvas.
    pub fn height(&self) -> (r: usize)
        ensures
            r == self.rows().len(),
    {
        self.cells.len()
    }

    /// Writes characters into row `y` starting at column `x`, as
    /// [`place_chars`] describes.
    pub(crate) fn set_text_row_chars(&mut self, x: usize, y: usize, chars: &[char], style: CanvasTextStyle)
        requires
            y < old(self).rows().len(),
        ensures
            final(self).rows() == old(self).rows().update(
                y as int,
                place_chars(old(self).rows()[y as int], x as int, Seq::empty(), chars@, style),
            ),
            final(self).spec_width() == old(self).spec_width(),
    {
        let ghost old_rows = self.rows();
        let ghost target = place_chars(old_rows[y as int], x as int, Seq::empty(), chars@, style);
        let row_len = self.cells[y].len();
        let mut x = x;
        let mut buf: Vec<char> = Vec::new();
        let mut i: usize = 0;
        assert(chars@.skip(0) =~= chars@);
        while i < chars.len() && x < row_len
            invariant
                i <= chars.len(),
                y < old_rows.len(),
                self.width == old(self).width,
                self.cells@.len() == old_rows.len(),
                row_len == self.cells@[y as int]@.len(),
                self.rows().len() == old_rows.len(),
                self.rows()[y as int].len() == row_len,
                forall|r: int| 0 <= r < old_rows.len() && r != y ==> #[trigger] self.rows()[r] == old_rows[r],
                place_chars(self.rows()[y as int], x as int, buf@, chars@.skip(i as int), style) == target,
            decreases chars.len() - i,
        {
            let c = chars[i];
            let width = char_cols_of(c);
            assert(chars@.skip(i as int)[0] == c);
            assert(chars@.skip(i as int).drop_first() =~= chars@.skip(i + 1));
            if width > 0 && buf.len() > 0 {
                let value = string_of(&buf);
                let bw = str_width(value.as_str());
                let ghost row_before = self.rows()[y as int];
                self.set_cell_character(x, y, Some(Character { value, style }));
                assert(self.rows()[y as int] == row_before.update(x as int, with_text(row_before[x as int], buf@, style)));
                let step: usize = if bw == 0 { 1 } else { bw };
                let ghost xs = x as int + step;
                x = x.saturating_add(step);
                proof {
                    if xs > usize::MAX {
                        assert(x >= row_len);
                        lemma_place_chars_past_end(self.rows()[y as int], x as int, xs, seq![c], chars@.skip(i + 1), style);
                    }
                }
                buf = Vec::new();
                buf.push(c);
                assert(buf@ =~= seq![c]);
            } else {
                buf.push(c);
            }
            i += 1;
        }
        if buf.len() > 0 && x < row_len {
            let value = string_of(&buf);
            self.set_cell_character(x, y, Some(Character { value, style }));
        }
        assert(self.rows() =~= old_rows.update(y as int, target));
    }

    /// Replaces the text of one cell.
    fn set_cell_character(&mut self, x: usize, y: usize, ch: Option<Character>)
        requires
            y < old(self).rows().len(),
            x < old(self).rows()[y as int].len(),
        ensures
            final(self).rows() == old(self).rows().update(
                y as int,
                old(self).rows()[y as int].update(
                    x as int,
                    CellView {
                        character: match ch {
                            Some(c) => Some((c.value@, c.style)),
                            None => None,
                        },
                        ..old(self).rows()[y as int][x as int]
                    },
                ),
            ),
            final(self).width == old(self).width,
            final(self).cells@.len() == old(self).cells@.len(),
            forall|r: int|
                0 <= r < old(self).cells@.len() ==> #[trigger] final(self).cells@[r]@.len()
                    == old(self).cells@[r]@.len(),
    {
        let ghost old_rows = self.rows();
        self.cells[y][x].character = ch;
        assert(self.rows()[y as int] =~= old_rows[y as int].update(x as int, self.cells@[y as int]@[x as int].view_of()));
        assert(self.rows() =~= old_rows.update(y as int, self.rows()[y as int]));
    }

    /// Replaces the background color of one cell.
    fn set_cell_background(&mut self, x: usize, y: usize, color: Option<Color>)
        requires
            y < old(self).rows().len(),
            x < old(self).rows()[y as int].len(),
        ensures
            final(self).rows() == old(self).rows().update(
                y as int,
                old(self).rows()[y as int].update(
                    x as int,
                    CellView { background_color: color, ..old(self).rows()[y as int][x as int] },
                ),
            ),
            final(self).width == old(self).width,
            final(self).cells@.len() == old(self).cells@.len(),
            forall|r: int|
                0 <= r < old(self).cells@.len() ==> #[trigger] final(self).cells@[r]@.len()
                    == old(self).cells@[r]@.len(),
    {
        let ghost old_rows = self.rows();
        self.cells[y][x].background_color = color;
        assert(self.rows()[y as int] =~= old_rows[y as int].update(x as int, self.cells@[y as int]@[x as int].view_of()));
        assert(self.rows() =~= old_rows.update(y as int, self.rows()[y as int]));
    }

    /// Removes the text of the cells in the given rectangle.
    pub(crate) fn clear_text(&mut self, x: usize, y: usize, w: usize, h: usize)
        requires
            x + w <= usize::MAX,
            y + h <= usize::MAX,
        ensures
            final(self).rows() == clear_text_rows(old(self).rows(), x as int, y as int, w as int, h as int),
            final(self).spec_width() == old(self).spec_width(),
    {
        let ghost old_rows = self.rows();
        let mut yy = y;
        while yy < y + h
            invariant
                y <= yy <= y + h,
                y + h <= usize::MAX,
                x + w <= usize::MAX,
                self.width == old(self).width,
                self.rows() == clear_text_rows(old_rows, x as int, y as int, w as int, yy - y),
            decreases y + h - yy,
        {
            if yy < self.cells.len() {
                let ghost before = self.rows();
                let mut xx = x;
                while xx < x + w
                    invariant
                        x <= xx <= x + w,
                        x + w <= usize::MAX,
                        yy < self.cells@.len(),
                        self.width == old(self).width,
                        self.cells@.len() == before.len(),
                        forall|r: int| 0 <= r < before.len() ==> #[trigger] self.cells@[r]@.len() == before[r].len(),
                        forall|r: int| 0 <= r < before.len() && r != yy ==> #[trigger] self.rows()[r] == before[r],
                        self.rows()[yy as int].len() == before[yy as int].len(),
                        forall|c: int| 0 <= c < before[yy as int].len() ==> #[trigger] self.rows()[yy as int][c] ==
                            if x <= c < xx { CellView { character: None, ..before[yy as int][c] } } else { before[yy as int][c] },
                    decreases x + w - xx,
                {
                    if xx < self.cells[yy].len() {
                        self.set_cell_character(xx, yy, None);
                    }
                    xx += 1;
                }
                assert(self.rows() =~= clear_text_rows(old_rows, x as int, y as int, w as int, yy + 1 - y)) by {
                    assert forall|r: int| 0 <= r < old_rows.len() implies #[trigger] self.rows()[r] =~= clear_text_rows(old_rows, x as int, y as int, w as int, yy + 1 - y)[r] by {
                    }
                }
            } else {
                assert(self.rows() =~= clear_text_rows(old_rows, x as int, y as int, w as int, yy + 1 - y));
            }
            yy += 1;
        }
    }

    /// Sets the background color of the cells in the given rectangle.
    pub(crate) fn set_background_color(&mut self, x: usize, y: usize, w: usize, h: usize, color: Color)
        requires
            x + w <= usize::MAX,
            y + h <= usize::MAX,
        ensures
            final(self).rows() == fill_background_rows(old(self).rows(), x as int, y as int, w as int, h as int, color),
            final(self).spec_width() == old(self).spec_width(),
    {
        let ghost old_rows = self.rows();
        let mut yy = y;
        while yy < y + h
            invariant
                y <= yy <= y + h,
                y + h <= usize::MAX,
                x + w <= usize::MAX,
                self.width == old(self).width,
                self.rows() == fill_background_rows(old_rows, x as int, y as int, w as int, yy - y, color),
            decreases y + h - yy,
        {
            if yy < self.cells.len() {
                let ghost before = self.rows();
                let mut xx = x;
                while xx < x + w
                    invariant
                        x <= xx <= x + w,
                        x + w <= usize::MAX,
                        yy < self.cells@.len(),
                        self.width == old(self).width,
                        self.cells@.len() == before.len(),
                        forall|r: int| 0 <= r < before.len() ==> #[trigger] self.cells@[r]@.len() == before[r].len(),
                        forall|r: int| 0 <= r < before.len() && r != yy ==> #[trigger] self.rows()[r] == before[r],
                        self.rows()[yy as int].len() == before[yy as int].len(),
                        forall|c: int| 0 <= c < before[yy as int].len() ==> #[trigger] self.rows()[yy as int][c] ==
                            if x <= c < xx { CellView { background_color: Some(color), ..before[yy as int][c] } } else { before[yy as int][c] },
                    decreases x + w - xx,
                {
                    if xx < self.cells[yy].len() {
                        self.set_cell_background(xx, yy, Some(color));
                    }
                    xx += 1;
                }
                assert(self.rows() =~= fill_background_rows(old_rows, x as int, y as int, w as int, yy + 1 - y, color)) by {
                    assert forall|r: int| 0 <= r < old_rows.len() implies #[trigger] self.rows()[r] =~= fill_background_rows(old_rows, x as int, y as int, w as int, yy + 1 - y, color)[r] by {
                    }
                }
            } else {
                assert(self.rows() =~= fill_background_rows(old_rows, x as int, y as int, w as int, yy + 1 - y, color));
            }
            yy += 1;
        }
    }
}

/// Represents a writeable region of a [`Canvas`]. All coordinates provided to
/// functions of this type are relative to the region's top-left corner.
pub struct CanvasSubviewMut<'a> {
    x: isize,
    y: isize,
    clip_x: isize,
    clip_y: isize,
    clip_width: usize,
    clip_height: usize,
    canvas: &'a mut Canvas,
}

impl<'a> CanvasSubviewMut<'a> {
    /// The canvas written to.
    pub closed spec fn target(&self) -> &'a mut Canvas {
        self.canvas
    }

    /// Once a region is no longer used, the canvas it draws on is what the
    /// region left it as: the canvas borrowed by [`Canvas::subview_mut`] then
    /// holds everything drawn through the region.
    pub proof fn lemma_released(self)
        requires
            has_resolved(self),
        ensures
            *self.target() == *final(self.target()),
    {
    }

    /// The column of the region's origin.
    pub closed spec fn origin_x(&self) -> int {
        self.x as int
    }

    /// The row of the region's origin.
    pub closed spec fn origin_y(&self) -> int {
        self.y as int
    }

    /// The first column drawing is clipped to.
    pub closed spec fn clip_left(&self) -> int {
        self.clip_x as int
    }

    /// The first row drawing is clipped to.
    pub closed spec fn clip_top(&self) -> int {
        self.clip_y as int
    }

    /// The number of columns drawing is clipped to.
    pub closed spec fn clip_cols(&self) -> nat {
        self.clip_width as nat
    }

    /// The number of rows drawing is clipped to.
    pub closed spec fn clip_rows(&self) -> nat {
        self.clip_height as nat
    }
}

/// Whether `v` fits in an `isize`.
pub open spec fn in_isize(v: int) -> bool {
    isize::MIN <= v <= isize::MAX
}

/// The larger of two integers.
pub open spec fn imax(a: int, b: int) -> int {
    if a < b {
        b
    } else {
        a
    }
}

/// The smaller of two integers.
pub open spec fn imin(a: int, b: int) -> int {
    if a < b {
        a
    } else {
        b
    }
}

impl<'a> CanvasSubviewMut<'a> {
    /// The rectangle at (`x`, `y`) of size `w` by `h`, relative to the
    /// region, in canvas coordinates and clipped to the clip rectangle and
    /// to nonnegative coordinates: (left, top, width, height).
    pub open spec fn clipped(&self, x: int, y: int, w: int, h: int) -> (int, int, int, int) {
        let left = imax(imax(self.origin_x() + x, self.clip_left()), 0);
        let top = imax(imax(self.origin_y() + y, self.clip_top()), 0);
        let right = imax(imin(self.origin_x() + x + w, self.clip_left() + self.clip_cols()), 0);
        let bottom = imax(imin(self.origin_y() + y + h, self.clip_top() + self.clip_rows()), 0);
        (left, top, imax(right - left, 0), imax(bottom - top, 0))
    }

    /// The arithmetic of a rectangle at (`x`, `y`) of size `w` by `h` stays
    /// within `isize`.
    pub open spec fn rect_fits(&self, x: int, y: int, w: int, h: int) -> bool {
        &&& in_isize(self.origin_x() + x)
        &&& in_isize(self.origin_y() + y)
        &&& in_isize(self.origin_x() + x + w)
        &&& in_isize(self.origin_y() + y + h)
        &&& in_isize(self.clip_left() + self.clip_cols())
        &&& in_isize(self.clip_top() + self.clip_rows())
        &&& w <= isize::MAX
        &&& h <= isize::MAX
        &&& self.clip_cols() <= isize::MAX
        &&& self.clip_rows() <= isize::MAX
    }

    /// Fills the region with the given color.
    pub fn set_background_color(&mut self, x: isize, y: isize, w: usize, h: usize, color: Color)
        requires
            old(self).rect_fits(x as int, y as int, w as int, h as int),
        ensures
            ({
                let r = old(self).clipped(x as int, y as int, w as int, h as int);
                (*final(self).target()).rows() == fill_background_rows(
                    (*old(self).target()).rows(),
                    r.0,
                    r.1,
                    r.2,
                    r.3,
                    color,
                )
            }),
            (*final(self).target()).spec_width() == (*old(self).target()).spec_width(),
            (*final(self).target()).rows().len() == (*old(self).target()).rows().len(),
            *final(final(self).target()) == *final(old(self).target()),
            final(self).origin_x() == old(self).origin_x(),
            final(self).origin_y() == old(self).origin_y(),
            final(self).clip_left() == old(self).clip_left(),
            final(self).clip_top() == old(self).clip_top(),
            final(self).clip_cols() == old(self).clip_cols(),
            final(self).clip_rows() == old(self).clip_rows(),
    {
        let (left, top, w2, h2) = self.clip_rect(x, y, w, h);
        self.canvas.set_background_color(left, top, w2, h2, color);
    }

    /// Removes text from the region.
    pub fn clear_text(&mut self, x: isize, y: isize, w: usize, h: usize)
        requires
            old(self).rect_fits(x as int, y as int, w as int, h as int),
        ensures
            ({
                let r = old(self).clipped(x as int, y as int, w as int, h as int);
                (*final(self).target()).rows() == clear_text_rows(
                    (*old(self).target()).rows(),
                    r.0,
                    r.1,
                    r.2,
                    r.3,
                )
            }),
            (*final(self).target()).spec_width() == (*old(self).target()).spec_width(),
            (*final(self).target()).rows().len() == (*old(self).target()).rows().len(),
            *final(final(self).target()) == *final(old(self).target()),
            final(self).origin_x() == old(self).origin_x(),
            final(self).origin_y() == old(self).origin_y(),
            final(self).clip_left() == old(self).clip_left(),
            final(self).clip_top() == old(self).clip_top(),
            final(self).clip_cols() == old(self).clip_cols(),
            final(self).clip_rows() == old(self).clip_rows(),
    {
        let (left, top, w2, h2) = self.clip_rect(x, y, w, h);
        self.canvas.clear_text(left, top, w2, h2);
    }

    fn clip_rect(&self, x: isize, y: isize, w: usize, h: usize) -> (r: (usize, usize, usize, usize))
        requires
            self.rect_fits(x as int, y as int, w as int, h as int),
        ensures
            ({
                let c = self.clipped(x as int, y as int, w as int, h as int);
                r.0 == c.0 && r.1 == c.1 && r.2 == c.2 && r.3 == c.3
            }),
            r.0 + r.2 <= usize::MAX,
            r.1 + r.3 <= usize::MAX,
    {
        let mut left = self.x + x;
        let mut top = self.y + y;
        let mut right = left + w as isize;
        let mut bottom = top + h as isize;
        left = max_isize(max_isize(left, self.clip_x), 0);
        top = max_isize(max_isize(top, self.clip_y), 0);
        right = max_isize(min_isize(right, self.clip_x + self.clip_width as isize), 0);
        bottom = max_isize(min_isize(bottom, self.clip_y + self.clip_height as isize), 0);
        let w2: usize = if right > left { (right - left) as usize } else { 0 };
        let h2: usize = if bottom > top { (bottom - top) as usize } else { 0 };
        (left as usize, top as usize, w2, h2)
    }

    /// The visible part of text drawn at (`x`, `y`): (column of its first
    /// visible character, columns skipped, columns available, first row, last row).
    pub open spec fn text_layout(&self, x: int, y: int) -> (int, int, int, int, int) {
        let x_abs = self.origin_x() + x;
        let min_x = imax(self.clip_left(), 0);
        let col = imax(x_abs, min_x);
        let to_skip = if x_abs < min_x {
            min_x - x_abs
        } else {
            0
        };
        let max_x = self.clip_left() + self.clip_cols() - 1;
        let min_y = imax(self.clip_top(), 0);
        let max_y = imin(self.clip_top() + self.clip_rows(), (*self.target()).rows().len() as int) - 1;
        (col, to_skip, max_x - col + 1, min_y, max_y)
    }

    /// The arithmetic of drawing text at (`x`, `y`) stays within `isize`.
    pub open spec fn text_fits(&self, x: int, y: int) -> bool {
        &&& in_isize(self.origin_x() + x)
        &&& in_isize(imax(self.clip_left(), 0) - (self.origin_x() + x))
        &&& in_isize(self.origin_y() + y)
        &&& in_isize(self.clip_left() + self.clip_cols())
        &&& in_isize(self.clip_top() + self.clip_rows())
        &&& self.clip_cols() <= isize::MAX
        &&& self.clip_rows() <= isize::MAX
        &&& (*self.target()).rows().len() <= isize::MAX
        &&& in_isize(self.clip_left() + self.clip_cols() - 1)
        &&& in_isize(self.clip_top() + self.clip_rows() - 1)
        &&& in_isize(self.text_layout(x, y).2 - 1)
        &&& in_isize(self.text_layout(x, y).2)
    }

    /// Whether text can be written at (`x`, `y`): see [`Self::text_fits`].
    pub fn can_set_text(&self, x: i128, y: i128) -> (r: bool)
        requires
            in_isize(x as int),
            in_isize(y as int),
        ensures
            r == self.text_fits(x as int, y as int),
    {
        let lo: i128 = isize::MIN as i128;
        let hi: i128 = isize::MAX as i128;
        let ox = self.x as i128 + x;
        let oy = self.y as i128 + y;
        let min_x: i128 = if self.clip_x < 0 { 0 } else { self.clip_x as i128 };
        let right = self.clip_x as i128 + self.clip_width as i128;
        let bottom = self.clip_y as i128 + self.clip_height as i128;
        let col = if ox < min_x { min_x } else { ox };
        let avail = right - 1 - col + 1;
        lo <= ox && ox <= hi
            && lo <= min_x - ox && min_x - ox <= hi
            && lo <= oy && oy <= hi
            && lo <= right && right <= hi
            && lo <= bottom && bottom <= hi
            && self.clip_width as i128 <= hi
            && self.clip_height as i128 <= hi
            && self.canvas.height() as i128 <= hi
            && lo <= right - 1 && right - 1 <= hi
            && lo <= bottom - 1 && bottom - 1 <= hi
            && lo <= avail - 1 && avail - 1 <= hi
            && lo <= avail && avail <= hi
    }

    /// Writes text to the region. Each line of `text` goes on its own row,
    /// starting at (`x`, `y`); the parts outside the clip rectangle are not
    /// drawn.
    pub fn set_text(&mut self, x: isize, y: isize, text: &str, style: CanvasTextStyle)
        requires
            old(self).text_fits(x as int, y as int),
        ensures
            ({
                let l = old(self).text_layout(x as int, y as int);
                (*final(self).target()).rows() == draw_lines(
                    (*old(self).target()).rows(),
                    chars::lines_of(text@),
                    l.0,
                    old(self).origin_y() + y,
                    l.1,
                    l.2,
                    l.3,
                    l.4,
                    style,
                )
            }),
            (*final(self).target()).spec_width() == (*old(self).target()).spec_width(),
            (*final(self).target()).rows().len() == (*old(self).target()).rows().len(),
            *final(final(self).target()) == *final(old(self).target()),
            final(self).origin_x() == old(self).origin_x(),
            final(self).origin_y() == old(self).origin_y(),
            final(self).clip_left() == old(self).clip_left(),
            final(self).clip_top() == old(self).clip_top(),
            final(self).clip_cols() == old(self).clip_cols(),
            final(self).clip_rows() == old(self).clip_rows(),
    {
        let ghost old_rows = (*self.canvas).rows();
        let ghost layout = self.text_layout(x as int, y as int);
        let mut x = self.x + x;
        let min_x = max_isize(self.clip_x, 0);
        let mut to_skip: isize = 0;
        if x < min_x {
            to_skip = min_x - x;
            x = min_x;
        }
        let max_x = self.clip_x + self.clip_width as isize - 1;
        let horizontal_space = max_x - x + 1;
        let min_y = max_isize(self.clip_y, 0);
        let max_y = min_isize(self.clip_y + self.clip_height as isize, self.canvas.height() as isize) - 1;
        let ghost y_arg = y;
        let mut y = self.y + y;
        let ghost y0 = y as int;
        assert(y0 == old(self).origin_y() + y_arg);
        let chars = to_chars(text);
        let ls = lines(&chars);
        let ghost all = chars::lines_of(text@);
        assert(ls@.len() == all.len());
        let mut li: usize = 0;
        assert(all.skip(0) =~= all);
        while li < ls.len()
            invariant
                li <= ls.len(),
                ls@.len() == all.len(),
                forall|i: int| 0 <= i < ls@.len() ==> #[trigger] ls@[i]@ == all[i],
                y == y0 + li,
                layout.0 == x,
                layout.1 == to_skip,
                layout.2 == horizontal_space,
                layout.3 == min_y,
                layout.4 == max_y,
                0 <= min_y,
                max_y < (*self.canvas).rows().len(),
                (*self.canvas).rows().len() == old_rows.len(),
                (*self.canvas).rows().len() <= isize::MAX,
                x >= 0,
                to_skip >= 0,
                (*self.canvas).spec_width() == (*old(self).canvas).spec_width(),
                *final(self.canvas) == *final(old(self).canvas),
                self.x == old(self).x,
                self.y == old(self).y,
                self.clip_x == old(self).clip_x,
                self.clip_y == old(self).clip_y,
                self.clip_width == old(self).clip_width,
                self.clip_height == old(self).clip_height,
                draw_lines(old_rows, all, x as int, y0, to_skip as int, horizontal_space as int, min_y as int, max_y as int, style) == draw_lines(
                    (*self.canvas).rows(),
                    all.skip(li as int),
                    x as int,
                    y as int,
                    to_skip as int,
                    horizontal_space as int,
                    min_y as int,
                    max_y as int,
                    style,
                ),
            ensures
                (*self.canvas).rows() == draw_lines(old_rows, all, x as int, y0, to_skip as int, horizontal_space as int, min_y as int, max_y as int, style),
                (*self.canvas).spec_width() == (*old(self).canvas).spec_width(),
                *final(self.canvas) == *final(old(self).canvas),
                self.x == old(self).x,
                self.y == old(self).y,
                self.clip_x == old(self).clip_x,
                self.clip_y == old(self).clip_y,
                self.clip_width == old(self).clip_width,
                self.clip_height == old(self).clip_height,
            decreases ls.len() - li,
        {
            if y > max_y {
                proof {
                    lemma_draw_lines_past((*self.canvas).rows(), all.skip(li as int), x as int, y as int, to_skip as int, horizontal_space as int, min_y as int, max_y as int, style);
                }
                break;
            }
            assert(all.skip(li as int).drop_first() =~= all.skip(li + 1));
            if y >= min_y {
                let vis = visible_chars(&ls[li], to_skip as usize, horizontal_space);
                self.canvas.set_text_row_chars(x as usize, y as usize, &vis, style);
            }
            y += 1;
            li += 1;
            if li == ls.len() {
                assert(all.skip(li as int) =~= Seq::<Seq<char>>::empty());
            }
        }
    }
}

/// One drawing operation on a region of a canvas, as values.
pub enum DrawOp {
    /// Removes the text of a rectangle: (`x`, `y`, width, height).
    Clear(int, int, int, int),
    /// Fills the background of a rectangle: (`x`, `y`, width, height, color).
    Fill(int, int, int, int, Color),
    /// Writes text at (`x`, `y`) in a style.
    Text(int, int, Seq<char>, CanvasTextStyle),
}

impl<'a> CanvasSubviewMut<'a> {
    /// What one operation does to the rows of the canvas, drawn through
    /// this region (the canvas keeping its number of rows).
    pub open spec fn op_effect(&self, rows: Seq<Seq<CellView>>, op: DrawOp) -> Seq<Seq<CellView>> {
        match op {
            DrawOp::Clear(x, y, w, h) => {
                let r = self.clipped(x, y, w, h);
                clear_text_rows(rows, r.0, r.1, r.2, r.3)
            },
            DrawOp::Fill(x, y, w, h, color) => {
                let r = self.clipped(x, y, w, h);
                fill_background_rows(rows, r.0, r.1, r.2, r.3, color)
            },
            DrawOp::Text(x, y, text, style) => {
                let l = self.text_layout(x, y);
                draw_lines(rows, chars::lines_of(text), l.0, self.origin_y() + y, l.1, l.2, l.3, l.4, style)
            },
        }
    }

    /// What a sequence of operations does, in order.
    pub open spec fn ops_effect(&self, rows: Seq<Seq<CellView>>, ops: Seq<DrawOp>) -> Seq<Seq<CellView>>
        decreases ops.len(),
    {
        if ops.len() == 0 {
            rows
        } else {
            self.op_effect(self.ops_effect(rows, ops.drop_last()), ops.last())
        }
    }

    /// The region, its canvas's rows aside, is the same as `other`.
    pub open spec fn same_region(&self, other: &Self) -> bool {
        &&& self.origin_x() == other.origin_x()
        &&& self.origin_y() == other.origin_y()
        &&& self.clip_left() == other.clip_left()
        &&& self.clip_top() == other.clip_top()
        &&& self.clip_cols() == other.clip_cols()
        &&& self.clip_rows() == other.clip_rows()
        &&& (*self.target()).rows().len() == (*other.target()).rows().len()
        &&& (*self.target()).spec_width() == (*other.target()).spec_width()
    }
}

/// Two regions that are the same, their canvas's rows aside, lay out and
/// clip drawing the same way.
pub proof fn lemma_same_region_layout(a: &CanvasSubviewMut, b: &CanvasSubviewMut, x: int, y: int)
    requires
        a.same_region(b),
    ensures
        a.text_fits(x, y) == b.text_fits(x, y),
        a.text_layout(x, y) == b.text_layout(x, y),
        forall|w: int, h: int| #[trigger] a.clipped(x, y, w, h) == b.clipped(x, y, w, h),
        forall|w: int, h: int| #[trigger] a.rect_fits(x, y, w, h) == b.rect_fits(x, y, w, h),
{
}

/// Positions in a region are relative to its origin, while its clip
/// rectangle is absolute: drawing at (`x`, `y`) in one region is drawing
/// at (`x2`, `y2`) in another with the same clip rectangle and canvas where
/// both name the same canvas position. Text is laid out and fits alike, and
/// rectangles are clipped and fit alike, and writing text, clearing text
/// and filling the background change the canvas's rows alike (as
/// [`CanvasSubviewMut::set_text`], [`CanvasSubviewMut::clear_text`] and
/// [`CanvasSubviewMut::set_background_color`] state their effects).
pub proof fn lemma_region_offsets_compose(a: &CanvasSubviewMut, b: &CanvasSubviewMut, x: int, y: int, x2: int, y2: int)
    requires
        a.clip_left() == b.clip_left(),
        a.clip_top() == b.clip_top(),
        a.clip_cols() == b.clip_cols(),
        a.clip_rows() == b.clip_rows(),
        (*a.target()).rows().len() == (*b.target()).rows().len(),
        a.origin_x() + x == b.origin_x() + x2,
        a.origin_y() + y == b.origin_y() + y2,
    ensures
        a.text_fits(x, y) == b.text_fits(x2, y2),
        a.text_layout(x, y) == b.text_layout(x2, y2),
        forall|w: int, h: int| #[trigger] a.clipped(x, y, w, h) == b.clipped(x2, y2, w, h),
        forall|w: int, h: int| #[trigger] a.rect_fits(x, y, w, h) == b.rect_fits(x2, y2, w, h),
        forall|rows: Seq<Seq<CellView>>, text: Seq<char>, style: CanvasTextStyle|
            #[trigger] a.op_effect(rows, DrawOp::Text(x, y, text, style)) == b.op_effect(rows, DrawOp::Text(x2, y2, text, style)),
        forall|rows: Seq<Seq<CellView>>, w: int, h: int|
            #[trigger] a.op_effect(rows, DrawOp::Clear(x, y, w, h)) == b.op_effect(rows, DrawOp::Clear(x2, y2, w, h)),
        forall|rows: Seq<Seq<CellView>>, w: int, h: int, color: Color|
            #[trigger] a.op_effect(rows, DrawOp::Fill(x, y, w, h, color)) == b.op_effect(rows, DrawOp::Fill(x2, y2, w, h, color)),
{
}

/// Drawing through a region keeps the number of rows.
pub proof fn lemma_ops_effect_len(sub: &CanvasSubviewMut, rows: Seq<Seq<CellView>>, ops: Seq<DrawOp>)
    ensures
        sub.ops_effect(rows, ops).len() == rows.len(),
    decreases ops.len(),
{
    if ops.len() > 0 {
        lemma_ops_effect_len(sub, rows, ops.drop_last());
        let prev = sub.ops_effect(rows, ops.drop_last());
        match ops.last() {
            DrawOp::Text(x, y, text, style) => {
                let l = sub.text_layout(x, y);
                lemma_draw_lines_len(prev, chars::lines_of(text), l.0, sub.origin_y() + y, l.1, l.2, l.3, l.4, style);
            },
            _ => {},
        }
    }
}

/// Applying two sequences of operations one after the other is applying
/// them together.
pub proof fn lemma_ops_effect_concat(sub: &CanvasSubviewMut, rows: Seq<Seq<CellView>>, o1: Seq<DrawOp>, o2: Seq<DrawOp>)
    ensures
        sub.ops_effect(rows, o1 + o2) == sub.ops_effect(sub.ops_effect(rows, o1), o2),
    decreases o2.len(),
{
    if o2.len() == 0 {
        assert(o1 + o2 =~= o1);
    } else {
        lemma_ops_effect_concat(sub, rows, o1, o2.drop_last());
        assert((o1 + o2).drop_last() =~= o1 + o2.drop_last());
    }
}

/// Two regions that are the same, their canvas's rows aside, draw
/// operations the same way.
pub proof fn lemma_same_region_ops(a: &CanvasSubviewMut, b: &CanvasSubviewMut, rows: Seq<Seq<CellView>>, ops: Seq<DrawOp>)
    requires
        a.same_region(b),
    ensures
        a.ops_effect(rows, ops) == b.ops_effect(rows, ops),
    decreases ops.len(),
{
    if ops.len() > 0 {
        lemma_same_region_ops(a, b, rows, ops.drop_last());
        match ops.last() {
            DrawOp::Clear(x, y, w, h) => {
                lemma_same_region_layout(a, b, x, y);
            },
            DrawOp::Fill(x, y, w, h, c) => {
                lemma_same_region_layout(a, b, x, y);
            },
            DrawOp::Text(x, y, t, st) => {
                lemma_same_region_layout(a, b, x, y);
            },
        }
    }
}

/// Applying one more operation extends the sequence applied.
pub proof fn lemma_ops_effect_push(sub: &CanvasSubviewMut, rows: Seq<Seq<CellView>>, ops: Seq<DrawOp>, op: DrawOp)
    ensures
        sub.ops_effect(rows, ops.push(op)) == sub.op_effect(sub.ops_effect(rows, ops), op),
{
    assert(ops.push(op).drop_last() =~= ops);
}

fn max_isize(a: isize, b: isize) -> (r: isize)
    ensures
        r == imax(a as int, b as int),
{
    if a < b {
        b
    } else {
        a
    }
}

fn min_isize(a: isize, b: isize) -> (r: isize)
    ensures
        r == imin(a as int, b as int),
{
    if a < b {
        a
    } else {
        b
    }
}

fn push_escape_prefix(out: &mut String)
    ensures
        final(out)@ == old(out)@ + seq!['\x1b', '['],
{
    push_char(out, '\x1b');
    push_char(out, '[');
}

fn push_sgr_color(out: &mut String, c: SgrColor, no_color: bool)
    ensures
        final(out)@ == old(out)@ + sgr(color::sgr_params(c, no_color)),
{
    let ghost o = out@;
    push_escape_prefix(out);
    c.write_params(out, no_color);
    push_char(out, 'm');
    assert(out@ =~= o + sgr(color::sgr_params(c, no_color)));
}

fn push_sgr_number(out: &mut String, n: u8)
    ensures
        final(out)@ == old(out)@ + sgr(color::decimal(n as nat)),
{
    let ghost o = out@;
    push_escape_prefix(out);
    push_decimal(out, n);
    push_char(out, 'm');
    assert(out@ =~= o + sgr(color::decimal(n as nat)));
}

fn push_reset_all(out: &mut String)
    ensures
        final(out)@ == old(out)@ + reset_all(),
{
    let ghost o = out@;
    push_escape_prefix(out);
    push_char(out, '0');
    push_char(out, 'm');
    assert(out@ =~= o + reset_all());
}

fn push_erase_line(out: &mut String)
    ensures
        final(out)@ == old(out)@ + erase_line(),
{
    let ghost o = out@;
    push_escape_prefix(out);
    push_char(out, 'K');
    assert(out@ =~= o + erase_line());
}

fn push_spaces(out: &mut String, n: usize)
    ensures
        final(out)@ == old(out)@ + spaces(n as nat),
{
    let ghost o = out@;
    let mut i: usize = 0;
    while i < n
        invariant
            i <= n,
            out@ == o + spaces(i as nat),
        decreases n - i,
    {
        push_char(out, ' ');
        i += 1;
        assert(out@ =~= o + spaces(i as nat));
    }
}

#[verifier::rlimit(40)]
fn push_style_codes(out: &mut String, st: CanvasTextStyle, cur: CanvasTextStyle, no_color: bool)
    ensures
        final(out)@ == old(out)@ + style_codes(st, cur, no_color),
{
    let ghost o = out@;
    let ghost p1 = if st.color != cur.color {
        sgr(color::sgr_params(SgrColor::Foreground(match st.color { Some(c) => c, None => Color::Reset }), no_color))
    } else {
        Seq::empty()
    };
    if st.color != cur.color {
        let c = match st.color {
            Some(c) => c,
            None => Color::Reset,
        };
        push_sgr_color(out, SgrColor::Foreground(c), no_color);
    }
    assert(out@ =~= o + p1);
    let ghost o2 = out@;
    if st.weight != cur.weight {
        match st.weight {
            Weight::Bold => push_sgr_number(out, SGR_BOLD),
            Weight::Light => push_sgr_number(out, SGR_DIM),
            Weight::Normal => {},
        }
    }
    let ghost o3 = out@;
    if st.underline && !cur.underline {
        push_sgr_number(out, SGR_UNDERLINED);
    }
    let ghost o4 = out@;
    if st.italic && !cur.italic {
        push_sgr_number(out, SGR_ITALIC);
    }
    assert(out@ =~= o + style_codes(st, cur, no_color));
}

/// Whether the characters contain the emoji variation selector.
fn contains_vs16(value: &str) -> (r: bool)
    ensures
        r == value@.contains(vs16()),
{
    let cs = to_chars(value);
    let mut i: usize = 0;
    while i < cs.len()
        invariant
            i <= cs.len(),
            cs@ == value@,
            forall|k: int| 0 <= k < i ==> cs@[k] != vs16(),
        decreases cs.len() - i,
    {
        if cs[i] == '\u{fe0f}' {
            assert(cs@[i as int] == vs16());
            return true;
        }
        i += 1;
    }
    false
}

impl Character {
    fn required_padding(&self, env: OutputEnv) -> (r: usize)
        ensures
            r == cluster_padding(self.value@, env),
    {
        if contains_vs16(self.value.as_str()) && env.vs16_needs_padding {
            let w = str_width(self.value.as_str());
            if w >= 1 {
                w - 1
            } else {
                0
            }
        } else {
            0
        }
    }
}

fn needs_reset_exec(cell: &Cell, cur: CanvasTextStyle) -> (r: bool)
    ensures
        r == needs_reset(cell.view_of(), cur),
{
    match &cell.character {
        Some(c) => (c.style.weight != cur.weight && c.style.weight == Weight::Normal) || (
        !c.style.underline && cur.underline) || (!c.style.italic && cur.italic),
        None => cur.underline,
    }
}

/// The trimmed row equals itself with empty cells dropped from the end.
proof fn lemma_trimmed_len_drop(row: Seq<CellView>, k: int)
    requires
        0 < k <= row.len(),
        cell_is_empty(row[k - 1]),
    ensures
        trimmed_len(row.take(k)) == trimmed_len(row.take(k - 1)),
{
    assert(row.take(k).drop_last() =~= row.take(k - 1));
}

fn render_attributes(cell: &Cell, out: &mut String, ansi: bool, env: OutputEnv, state: RenderState) -> (r: RenderState)
    ensures
        ({
            let a = step_attributes(cell.view_of(), ansi, env, state);
            final(out)@ == old(out)@ + a.0 && r == a.1
        }),
{
    let ghost o = out@;
    let mut st = state;
    let reset = ansi && needs_reset_exec(cell, st.style);
    if reset {
        push_reset_all(out);
        st.background = None;
        st.style = CanvasTextStyle::default();
    }
    if ansi {
        match &cell.character {
            Some(c) => {
                push_style_codes(out, c.style, st.style, env.no_color);
                st.style = c.style;
            },
            None => {},
        }
    }
    assert(out@ =~= o + step_attributes(cell.view_of(), ansi, env, state).0);
    st
}

fn render_erase(col2: usize, width: usize, out: &mut String, ansi: bool, env: OutputEnv, state: RenderState) -> (r: RenderState)
    ensures
        ({
            let e = step_erase(col2 as int, width as nat, ansi, env, state);
            final(out)@ == old(out)@ + e.0 && r == e.1
        }),
{
    let ghost o = out@;
    let mut st = state;
    if ansi && col2 >= width {
        if st.background.is_some() {
            push_sgr_color(out, SgrColor::Background(Color::Reset), env.no_color);
        }
        push_erase_line(out);
        st.background = None;
        st.cleared = true;
    }
    assert(out@ =~= o + step_erase(col2 as int, width as nat, ansi, env, state).0);
    st
}

fn render_background(cell: &Cell, out: &mut String, ansi: bool, env: OutputEnv, state: RenderState) -> (r: RenderState)
    ensures
        ({
            let b = step_background(cell.view_of(), ansi, env, state);
            final(out)@ == old(out)@ + b.0 && r == b.1
        }),
{
    let mut st = state;
    if ansi && cell.background_color != st.background {
        let c = match cell.background_color {
            Some(c) => c,
            None => Color::Reset,
        };
        push_sgr_color(out, SgrColor::Background(c), env.no_color);
        st.background = cell.background_color;
    }
    st
}

fn render_text(cell: &Cell, out: &mut String, env: OutputEnv)
    ensures
        final(out)@ == old(out)@ + cell_text(cell.view_of(), env),
{
    match &cell.character {
        Some(c) => {
            let ghost o = out@;
            push_str(out, c.value.as_str());
            let pad = c.required_padding(env);
            push_spaces(out, pad);
            assert(out@ =~= o + cell_text(cell.view_of(), env));
        },
        None => {
            push_char(out, ' ');
        },
    }
}

fn cell_advance_exec(cell: &Cell) -> (r: usize)
    ensures
        r == cell_advance(cell.view_of()),
        r >= 1,
{
    match &cell.character {
        Some(c) => {
            let w = str_width(c.value.as_str());
            if w == 0 {
                1
            } else {
                w
            }
        },
        None => 1,
    }
}

fn render_cell(cell: &Cell, col: usize, width: usize, out: &mut String, ansi: bool, env: OutputEnv, state: RenderState) -> (r: (usize, RenderState))
    ensures
        ({
            let st = render_step(cell.view_of(), col as int, width as nat, ansi, env, state);
            &&& final(out)@ == old(out)@ + st.0
            &&& r.1 == st.2
            &&& r.0 > col || col == usize::MAX
            &&& (r.0 == st.1 || (st.1 > usize::MAX && r.0 == usize::MAX))
        }),
{
    let ghost o = out@;
    let a = render_attributes(cell, out, ansi, env, state);
    let ghost o1 = out@;
    let adv = cell_advance_exec(cell);
    let col2 = col.saturating_add(adv);
    let ghost c2 = col as int + adv as int;
    let e = render_erase(col2, width, out, ansi, env, a);
    assert(step_erase(col2 as int, width as nat, ansi, env, a) == step_erase(c2, width as nat, ansi, env, a));
    let ghost o2 = out@;
    let b = render_background(cell, out, ansi, env, e);
    let ghost o3 = out@;
    render_text(cell, out, env);
    assert(out@ =~= o + render_step(cell.view_of(), col as int, width as nat, ansi, env, state).0);
    (col2, b)
}

fn render_row_tail(out: &mut String, ansi: bool, env: OutputEnv, state: RenderState) -> (r: RenderState)
    ensures
        ({
            let t = row_tail(ansi, env, state);
            final(out)@ == old(out)@ + t.0 && r == t.1
        }),
{
    let ghost o = out@;
    let mut st = state;
    if ansi {
        if st.background.is_some() {
            push_sgr_color(out, SgrColor::Background(Color::Reset), env.no_color);
            st.background = None;
        }
        if !st.cleared {
            push_erase_line(out);
        }
    }
    assert(out@ =~= o + row_tail(ansi, env, state).0);
    st
}

fn render_newline(out: &mut String, is_final: bool, ansi: bool, omit_final_newline: bool)
    ensures
        final(out)@ == old(out)@ + row_newline(is_final, ansi, omit_final_newline),
{
    let ghost o = out@;
    if !omit_final_newline || !is_final {
        if ansi {
            if is_final {
                push_reset_all(out);
            }
            push_char(out, '\r');
            push_char(out, '\n');
        } else {
            push_char(out, '\n');
        }
    }
    assert(out@ =~= o + row_newline(is_final, ansi, omit_final_newline));
}

impl Canvas {
    fn trimmed_row_len(&self, y: usize) -> (r: usize)
        requires
            y < self.rows().len(),
        ensures
            r == trimmed_len(self.rows()[y as int]),
            r <= self.rows()[y as int].len(),
    {
        let ghost row = self.rows()[y as int];
        let mut k = self.cells[y].len();
        assert(row.take(k as int) =~= row);
        while k > 0 && self.cells[y][k - 1].is_empty()
            invariant
                k <= row.len(),
                y < self.cells@.len(),
                row.len() == self.cells@[y as int]@.len(),
                row == self.rows()[y as int],
                trimmed_len(row) == trimmed_len(row.take(k as int)),
            decreases k,
        {
            proof {
                lemma_trimmed_len_drop(row, k as int);
            }
            k -= 1;
        }
        proof {
            if k > 0 {
                assert(row.take(k as int).last() == row[k - 1]);
            }
        }
        k
    }

    fn render_cell_into(
        &self,
        y: usize,
        col: usize,
        len: usize,
        out: &mut String,
        ansi: bool,
        env: OutputEnv,
        state: RenderState,
    ) -> (r: (usize, RenderState))
        requires
            y < self.rows().len(),
            col < len <= self.rows()[y as int].len(),
        ensures
            ({
                let st = render_step(self.rows()[y as int].take(len as int)[col as int], col as int, self.spec_width(), ansi, env, state);
                &&& final(out)@ == old(out)@ + st.0
                &&& r.1 == st.2
                &&& r.0 > col
                &&& (r.0 == st.1 || (st.1 > usize::MAX && r.0 == usize::MAX))
            }),
    {
        assert(self.rows()[y as int].take(len as int)[col as int] == self.cells@[y as int]@[col as int].view_of());
        render_cell(&self.cells[y][col], col, self.width, out, ansi, env, state)
    }

    fn render_cells_into(
        &self,
        y: usize,
        len: usize,
        out: &mut String,
        ansi: bool,
        env: OutputEnv,
        state: RenderState,
    ) -> (r: RenderState)
        requires
            y < self.rows().len(),
            len <= self.rows()[y as int].len(),
        ensures
            ({
                let e = render_cells(self.rows()[y as int].take(len as int), 0, self.spec_width(), ansi, env, state);
                final(out)@ == old(out)@ + e.0 && r == e.1
            }),
    {
        let ghost row = self.rows()[y as int].take(len as int);
        let ghost total = render_cells(row, 0, self.spec_width(), ansi, env, state);
        let ghost base = out@;
        let mut st = state;
        let mut col: usize = 0;
        while col < len
            invariant
                y < self.rows().len(),
                len <= self.rows()[y as int].len(),
                row == self.rows()[y as int].take(len as int),
                base + total.0 == out@ + render_cells(row, col as int, self.spec_width(), ansi, env, st).0,
                total.1 == render_cells(row, col as int, self.spec_width(), ansi, env, st).1,
            decreases imax(len - col, 0),
        {
            let ghost o = out@;
            let ghost st0 = st;
            let ghost c0 = col;
            let (c2, s2) = self.render_cell_into(y, col, len, out, ansi, env, st);
            proof {
                let step = render_step(row[c0 as int], c0 as int, self.spec_width(), ansi, env, st0);
                assert(render_cells(row, c0 as int, self.spec_width(), ansi, env, st0).0 == step.0 + render_cells(row, step.1, self.spec_width(), ansi, env, step.2).0);
                if step.1 > usize::MAX {
                    assert(render_cells(row, c2 as int, self.spec_width(), ansi, env, s2) == render_cells(row, step.1, self.spec_width(), ansi, env, s2));
                }
            }
            col = c2;
            st = s2;
            assert(out@ + render_cells(row, col as int, self.spec_width(), ansi, env, st).0 =~= base + total.0);
        }
        st
    }

    fn render_row_into(
        &self,
        y: usize,
        out: &mut String,
        is_final: bool,
        ansi: bool,
        omit_final_newline: bool,
        env: OutputEnv,
        state: RenderState,
    ) -> (r: RenderState)
        requires
            y < self.rows().len(),
        ensures
            ({
                let e = render_row(self.rows()[y as int], is_final, self.spec_width(), ansi, omit_final_newline, env, state);
                final(out)@ == old(out)@ + e.0 && r == e.1
            }),
    {
        let ghost o = out@;
        let len = self.trimmed_row_len(y);
        let st = self.render_cells_into(y, len, out, ansi, env, RenderState { cleared: false, ..state });
        let st = render_row_tail(out, ansi, env, st);
        render_newline(out, is_final, ansi, omit_final_newline);
        assert(out@ =~= o + render_row(self.rows()[y as int], is_final, self.spec_width(), ansi, omit_final_newline, env, state).0);
        st
    }

    /// Writes row `y` with ANSI escape codes, as
    /// [`Canvas::write_ansi_without_final_newline`] writes a canvas holding
    /// only that row.
    pub fn write_ansi_row_without_newline(&self, y: usize, out: &mut String, env: OutputEnv)
        requires
            y < self.rows().len(),
        ensures
            final(out)@ == old(out)@ + render(seq![self.rows()[y as int]], self.spec_width(), true, true, env),
    {
        let ghost o = out@;
        let ghost row = self.rows()[y as int];
        push_reset_all(out);
        let st = RenderState { background: None, style: CanvasTextStyle::default(), cleared: false };
        self.render_row_into(y, out, true, true, true, env, st);
        push_reset_all(out);
        let ghost one = seq![row];
        assert(render_rows(one, 1, self.spec_width(), true, true, env, render_row(row, true, self.spec_width(), true, true, env, initial_render_state()).1) =~= Seq::<char>::empty());
        assert(out@ =~= o + render(one, self.spec_width(), true, true, env));
    }

    /// Whether both canvases have a row `y`, with the same cells.
    pub fn row_eq(&self, other: &Canvas, y: usize) -> (r: bool)
        ensures
            r == (y < self.rows().len() && y < other.rows().len() && self.rows()[y as int] == other.rows()[y as int]),
    {
        if y >= self.cells.len() || y >= other.cells.len() {
            return false;
        }
        let a = &self.cells[y];
        let b = &other.cells[y];
        if a.len() != b.len() {
            assert(self.rows()[y as int].len() != other.rows()[y as int].len());
            return false;
        }
        let mut x: usize = 0;
        while x < a.len()
            invariant
                x <= a@.len(),
                a@.len() == b@.len(),
                a == self.cells@[y as int],
                b == other.cells@[y as int],
                y < self.cells@.len(),
                y < other.cells@.len(),
                forall|k: int| 0 <= k < x ==> #[trigger] a@[k].view_of() == b@[k].view_of(),
            decreases a@.len() - x,
        {
            if !cell_eq(&a[x], &b[x]) {
                assert(self.rows()[y as int][x as int] != other.rows()[y as int][x as int]);
                return false;
            }
            x += 1;
        }
        assert(self.rows()[y as int] =~= other.rows()[y as int]);
        true
    }

    #[verifier::rlimit(30)]
    fn write_impl(&self, out: &mut String, ansi: bool, omit_final_newline: bool, env: OutputEnv)
        ensures
            final(out)@ == old(out)@ + render(self.rows(), self.spec_width(), ansi, omit_final_newline, env),
    {
        let ghost o = out@;
        let ghost rows = self.rows();
        if ansi {
            push_reset_all(out);
        }
        let ghost base = out@;
        let ghost total = render_rows(rows, 0, self.spec_width(), ansi, omit_final_newline, env, initial_render_state());
        let mut st = RenderState { background: None, style: CanvasTextStyle::default(), cleared: false };
        let n = self.cells.len();
        let mut y: usize = 0;
        while y < n
            invariant
                n == rows.len(),
                rows == self.rows(),
                y <= n,
                base + total == out@ + render_rows(rows, y as int, self.spec_width(), ansi, omit_final_newline, env, st),
            decreases n - y,
        {
            st = self.render_row_into(y, out, y == n - 1, ansi, omit_final_newline, env, st);
            y += 1;
        }
        if ansi && omit_final_newline {
            push_reset_all(out);
        }
        assert(out@ =~= o + render(rows, self.spec_width(), ansi, omit_final_newline, env));
    }

    /// Writes the canvas with ANSI escape codes: colors and attributes are
    /// set with SGR sequences, each line is erased to its end, and lines end
    /// with `"\r\n"`.
    pub fn write_ansi(&self, w: &mut String, env: OutputEnv)
        ensures
            final(w)@ == old(w)@ + render(self.rows(), self.spec_width(), true, false, env),
    {
        self.write_impl(w, true, false, env)
    }

    /// Like [`Canvas::write_ansi`], without a line ending after the last line.
    pub fn write_ansi_without_final_newline(&self, w: &mut String, env: OutputEnv)
        ensures
            final(w)@ == old(w)@ + render(self.rows(), self.spec_width(), true, true, env),
    {
        self.write_impl(w, true, true, env)
    }

    /// Writes the canvas as unstyled text, without ANSI escape codes: each
    /// row up to its last nonempty cell, followed by `"\n"`.
    pub fn write(&self, w: &mut String, env: OutputEnv)
        ensures
            final(w)@ == old(w)@ + render(self.rows(), self.spec_width(), false, false, env),
    {
        self.write_impl(w, false, false, env)
    }

    /// The canvas as unstyled text (what `write` produces).
    pub fn to_string(&self, env: OutputEnv) -> (r: String)
        ensures
            r@ == render(self.rows(), self.spec_width(), false, false, env),
    {
        let mut s = String::new();
        self.write(&mut s, env);
        assert(s@ =~= render(self.rows(), self.spec_width(), false, false, env));
        s
    }

}

} // verus!
