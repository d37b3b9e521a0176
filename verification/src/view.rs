//! Views: a background and a border, with an optional title centred in its
//! top or bottom edge, drawn onto a region of a canvas.
use vstd::prelude::*;
use crate::canvas::{CanvasSubviewMut, DrawOp};
use crate::color::Color;
use crate::style::{CanvasTextStyle, Edges};
use crate::canvas;

verus! {

/// The characters used to render a border.
#[derive(Clone, Copy, Debug, PartialEq, Eq, Structural)]
pub struct BorderCharacters {
    /// The character used for the top-left corner.
    pub top_left: char,
    /// The character used for the top-right corner.
    pub top_right: char,
    /// The character used for the bottom-left corner.
    pub bottom_left: char,
    /// The character used for the bottom-right corner.
    pub bottom_right: char,
    /// The character used for the left edge.
    pub left: char,
    /// The character used for the right edge.
    pub right: char,
    /// The character used for the top edge.
    pub top: char,
    /// The character used for the bottom edge.
    pub bottom: char,
}

impl Default for BorderCharacters {
    /// Every character is `'\0'`.
    fn default() -> (r: BorderCharacters)
        ensures
            r == border_chars('\0', '\0', '\0', '\0', '\0', '\0', '\0', '\0'),
    {
        BorderCharacters {
            top_left: '\0',
            top_right: '\0',
            bottom_left: '\0',
            bottom_right: '\0',
            left: '\0',
            right: '\0',
            top: '\0',
            bottom: '\0',
        }
    }
}

/// A border style which can be applied to a [`ViewComponent`].
#[derive(Clone, Copy, Debug, PartialEq, Eq, Structural)]
pub enum BorderStyle {
    /// No border.
    NoBorder,
    /// A single-line border with 90-degree corners.
    Single,
    /// A double-line border with 90-degree corners.
    Double,
    /// A single-line border with rounded corners.
    Round,
    /// A single-line border with bold lines and 90-degree corners.
    Bold,
    /// A double-line border on the left and right with a single-line border
    /// on the top and bottom.
    DoubleLeftRight,
    /// A double-line border on the top and bottom with a single-line border
    /// on the left and right.
    DoubleTopBottom,
    /// A simple border consisting of basic ASCII characters.
    Classic,
    /// A custom border, rendered with characters of your choice.
    Custom(BorderCharacters),
}

impl Default for BorderStyle {
    /// No border.
    fn default() -> (r: BorderStyle)
        ensures
            r == BorderStyle::NoBorder,
    {
        BorderStyle::NoBorder
    }
}

/// Border characters from the corners (top left, top right, bottom left,
/// bottom right) and the edges (left, right, top, bottom).
pub open spec fn border_chars(
    top_left: char,
    top_right: char,
    bottom_left: char,
    bottom_right: char,
    left: char,
    right: char,
    top: char,
    bottom: char,
) -> BorderCharacters {
    BorderCharacters { top_left, top_right, bottom_left, bottom_right, left, right, top, bottom }
}

/// The characters a border style is drawn with.
pub open spec fn border_chars_of(style: BorderStyle) -> Option<BorderCharacters> {
    match style {
        BorderStyle::NoBorder => None,
        BorderStyle::Single => Some(border_chars('┌', '┐', '└', '┘', '│', '│', '─', '─')),
        BorderStyle::Double => Some(border_chars('╔', '╗', '╚', '╝', '║', '║', '═', '═')),
        BorderStyle::Round => Some(border_chars('╭', '╮', '╰', '╯', '│', '│', '─', '─')),
        BorderStyle::Bold => Some(border_chars('┏', '┓', '┗', '┛', '┃', '┃', '━', '━')),
        BorderStyle::DoubleLeftRight => Some(border_chars('╓', '╖', '╙', '╜', '║', '║', '─', '─')),
        BorderStyle::DoubleTopBottom => Some(border_chars('╒', '╕', '╘', '╛', '│', '│', '═', '═')),
        BorderStyle::Classic => Some(border_chars('+', '+', '+', '+', '|', '|', '-', '-')),
        BorderStyle::Custom(c) => Some(c),
    }
}

impl BorderStyle {
    /// Returns `true` if the border style is no border.
    pub fn is_none(&self) -> (r: bool)
        ensures
            r == (*self == BorderStyle::NoBorder),
    {
        match self {
            BorderStyle::NoBorder => true,
            _ => false,
        }
    }

    /// Returns the characters used to render the border.
    pub fn border_characters(&self) -> (r: Option<BorderCharacters>)
        ensures
            r == border_chars_of(*self),
    {
        match self {
            BorderStyle::NoBorder => None,
            BorderStyle::Single => Some(
                BorderCharacters {
                    top_left: '┌',
                    top_right: '┐',
                    bottom_left: '└',
                    bottom_right: '┘',
                    left: '│',
                    right: '│',
                    top: '─',
                    bottom: '─',
                },
            ),
            BorderStyle::Double => Some(
                BorderCharacters {
                    top_left: '╔',
                    top_right: '╗',
                    bottom_left: '╚',
                    bottom_right: '╝',
                    left: '║',
                    right: '║',
                    top: '═',
                    bottom: '═',
                },
            ),
            BorderStyle::Round => Some(
                BorderCharacters {
                    top_left: '╭',
                    top_right: '╮',
                    bottom_left: '╰',
                    bottom_right: '╯',
                    left: '│',
                    right: '│',
                    top: '─',
                    bottom: '─',
                },
            ),
            BorderStyle::Bold => Some(
                BorderCharacters {
                    top_left: '┏',
                    top_right: '┓',
                    bottom_left: '┗',
                    bottom_right: '┛',
                    left: '┃',
                    right: '┃',
                    top: '━',
                    bottom: '━',
                },
            ),
            BorderStyle::DoubleLeftRight => Some(
                BorderCharacters {
                    top_left: '╓',
                    top_right: '╖',
                    bottom_left: '╙',
                    bottom_right: '╜',
                    left: '║',
                    right: '║',
                    top: '─',
                    bottom: '─',
                },
            ),
            BorderStyle::DoubleTopBottom => Some(
                BorderCharacters {
                    top_left: '╒',
                    top_right: '╕',
                    bottom_left: '╘',
                    bottom_right: '╛',
                    left: '│',
                    right: '│',
                    top: '═',
                    bottom: '═',
                },
            ),
            BorderStyle::Classic => Some(
                BorderCharacters {
                    top_left: '+',
                    top_right: '+',
                    bottom_left: '+',
                    bottom_right: '+',
                    left: '|',
                    right: '|',
                    top: '-',
                    bottom: '-',
                },
            ),
            BorderStyle::Custom(chars) => Some(*chars),
        }
    }
}

/// Which edge of the border a title is shown in.
#[derive(Clone, Copy, Debug, PartialEq, Eq, Structural)]
pub enum BorderTitlePos {
    /// The top edge.
    Top,
    /// The bottom edge.
    Bottom,
}

impl Default for BorderTitlePos {
    /// The top edge.
    fn default() -> (r: BorderTitlePos)
        ensures
            r == BorderTitlePos::Top,
    {
        BorderTitlePos::Top
    }
}

/// A title shown in the border of a [`ViewComponent`].
#[derive(Clone, Debug)]
pub struct BorderTitle {
    /// The text of the title.
    pub title: String,
    /// The edge it is shown in.
    pub pos: BorderTitlePos,
}

/// `s` repeated `n` times.
pub open spec fn repeat_seq(s: Seq<char>, n: nat) -> Seq<char>
    decreases n,
{
    if n == 0 {
        Seq::empty()
    } else {
        repeat_seq(s, (n - 1) as nat) + s
    }
}

/// A repetition is as long as the parts together.
pub proof fn lemma_repeat_len(s: Seq<char>, n: nat)
    ensures
        repeat_seq(s, n).len() == n * s.len(),
    decreases n,
{
    if n == 0 {
        assert(n * s.len() == 0) by (nonlinear_arith)
            requires
                n == 0,
        ;
    } else {
        let m = (n - 1) as nat;
        lemma_repeat_len(s, m);
        assert(repeat_seq(s, n) == repeat_seq(s, m) + s);
        assert(n * s.len() == m * s.len() + s.len()) by (nonlinear_arith)
            requires
                n == m + 1,
        ;
    }
}

/// Appends `s` `n` times.
fn push_repeated(out: &mut String, s: &str, n: usize)
    ensures
        final(out)@ == old(out)@ + repeat_seq(s@, n as nat),
{
    let mut i: usize = 0;
    let ghost o = out@;
    assert(o + repeat_seq(s@, 0) =~= o);
    while i < n
        invariant
            i <= n,
            out@ == o + repeat_seq(s@, i as nat),
        decreases n - i,
    {
        crate::chars::push_str(out, s);
        i += 1;
        assert(out@ =~= o + repeat_seq(s@, i as nat));
    }
}

/// `title` clipped to `length` characters and centred between repetitions
/// of `border`, with the extra repetition on the right where the space
/// left is odd.
pub open spec fn centered(border: Seq<char>, length: int, title: Seq<char>) -> Seq<char> {
    let clipped = if title.len() > length {
        title.take(length)
    } else {
        title
    };
    let total = if length > clipped.len() {
        length - clipped.len()
    } else {
        0
    };
    let left = total / 2;
    repeat_seq(border, left as nat) + clipped + repeat_seq(border, (total - left) as nat)
}

/// Centres `title` in `length` columns of `border_char`, clipping it where
/// it is longer.
pub fn center_and_clip(border_char: &str, length: usize, title: &str) -> (r: String)
    ensures
        r@ == centered(border_char@, length as int, title@),
{
    let cs = crate::chars::to_chars(title);
    let title_len = cs.len();
    let (clipped, clipped_len) = if title_len > length {
        (crate::chars::string_of(&crate::chars::subrange_vec(&cs, 0, length)), length)
    } else {
        (title.to_owned(), title_len)
    };
    assert(cs@.subrange(0, length as int) =~= title@.take(length as int));
    let total_padding = if length > clipped_len {
        length - clipped_len
    } else {
        0
    };
    let left_padding = total_padding / 2;
    let right_padding = total_padding - left_padding;
    let mut out = String::new();
    push_repeated(&mut out, border_char, left_padding);
    crate::chars::push_str(&mut out, clipped.as_str());
    push_repeated(&mut out, border_char, right_padding);
    assert(out@ =~= centered(border_char@, length as int, title@));
    out
}

/// A centred title filled with a one-character border is exactly as long
/// as the room it is given.
pub proof fn lemma_centered_len(border: Seq<char>, length: nat, title: Seq<char>)
    requires
        border.len() == 1,
    ensures
        centered(border, length as int, title).len() == length,
{
    let clipped = if title.len() > length {
        title.take(length as int)
    } else {
        title
    };
    let total = if length > clipped.len() {
        length - clipped.len()
    } else {
        0
    };
    let left = total / 2;
    lemma_repeat_len(border, left as nat);
    lemma_repeat_len(border, (total - left) as nat);
}

/// A one-character string.
fn char_string(c: char) -> (r: String)
    ensures
        r@ == seq![c],
{
    let mut s = String::new();
    crate::chars::push_char(&mut s, c);
    assert(s@ =~= seq![c]);
    s
}

/// `ViewComponent` (the `View` component) is the most fundamental building block for laying out and
/// styling components: a background and a border.
pub struct ViewComponent {
    /// The style of the border.
    pub border_style: BorderStyle,
    /// The style the border's characters are drawn in.
    pub border_text_style: CanvasTextStyle,
    /// The edges the border is drawn on.
    pub border_edges: Edges,
    /// The color of the background.
    pub background_color: Option<Color>,
    /// A title shown in the border.
    pub border_title: Option<BorderTitle>,
}

/// 1 where `b` holds, else 0.
pub open spec fn flag(b: bool) -> int {
    if b {
        1
    } else {
        0
    }
}

impl ViewComponent {
    /// A view with no background and no border, whose border would be
    /// drawn on all four edges in plain style.
    pub fn new() -> (r: ViewComponent)
        ensures
            r.border_style == BorderStyle::NoBorder,
            r.border_text_style == crate::style::plain_style(),
            r.border_edges.top && r.border_edges.right && r.border_edges.bottom && r.border_edges.left,
            r.background_color is None,
            r.border_title is None,
    {
        ViewComponent {
            border_style: BorderStyle::NoBorder,
            border_text_style: CanvasTextStyle::default(),
            border_edges: Edges::all(),
            background_color: None,
            border_title: None,
        }
    }

    /// The width of the border on each edge, for layout: (top, right,
    /// bottom, left), each 1 where a border is drawn on that edge.
    pub fn border_widths(&self) -> (r: (u16, u16, u16, u16))
        ensures
            self.border_style == BorderStyle::NoBorder ==> r == (0u16, 0u16, 0u16, 0u16),
            self.border_style != BorderStyle::NoBorder ==> r == (
                flag(self.border_edges.top) as u16,
                flag(self.border_edges.right) as u16,
                flag(self.border_edges.bottom) as u16,
                flag(self.border_edges.left) as u16,
            ),
    {
        if self.border_style.is_none() {
            (0, 0, 0, 0)
        } else {
            let e = self.border_edges;
            (
                if e.top { 1 } else { 0 },
                if e.right { 1 } else { 0 },
                if e.bottom { 1 } else { 0 },
                if e.left { 1 } else { 0 },
            )
        }
    }

    /// The title and edge of the view's title, as values.
    pub open spec fn title_v(&self) -> Option<(Seq<char>, BorderTitlePos)> {
        match self.border_title {
            Some(t) => Some((t.title@, t.pos)),
            None => None,
        }
    }
}

/// The text of a horizontal edge `n` columns long: the title where it is
/// shown in that edge, centred, else the edge character repeated.
pub open spec fn edge_text(title: Option<(Seq<char>, BorderTitlePos)>, pos: BorderTitlePos, c: char, n: int) -> Seq<char> {
    match title {
        Some((t, p)) => if p == pos {
            centered(seq![c], n, t)
        } else {
            repeat_seq(seq![c], n as nat)
        },
        None => repeat_seq(seq![c], n as nat),
    }
}

/// The operations that draw the left and right edges on row `y`.
pub open spec fn side_row_ops(b: BorderCharacters, e: Edges, w: int, y: int, st: CanvasTextStyle) -> Seq<DrawOp> {
    (if e.left { seq![DrawOp::Text(0, y, seq![b.left], st)] } else { Seq::empty() }) + (if e.right {
        seq![DrawOp::Text(w - 1, y, seq![b.right], st)]
    } else {
        Seq::empty()
    })
}

/// The operations that draw the left and right edges on rows `y0..y1`.
pub open spec fn side_ops(b: BorderCharacters, e: Edges, w: int, y0: int, y1: int, st: CanvasTextStyle) -> Seq<DrawOp>
    decreases y1 - y0,
{
    if y1 <= y0 {
        Seq::empty()
    } else {
        side_ops(b, e, w, y0, y1 - 1, st) + side_row_ops(b, e, w, y1 - 1, st)
    }
}

/// The operations that draw a horizontal edge on row `y`: the corners on
/// the edges that have a border, and the edge between them.
pub open spec fn horizontal_ops(
    left: char,
    right: char,
    text: Seq<char>,
    e: Edges,
    w: int,
    y: int,
    st: CanvasTextStyle,
) -> Seq<DrawOp> {
    (if e.left { seq![DrawOp::Text(0, y, seq![left], st)] } else { Seq::empty() }) + seq![
        DrawOp::Text(flag(e.left), y, text, st),
    ] + (if e.right { seq![DrawOp::Text(w - 1, y, seq![right], st)] } else { Seq::empty() })
}

/// The operations that draw the border.
pub open spec fn border_ops(
    b: BorderCharacters,
    e: Edges,
    title: Option<(Seq<char>, BorderTitlePos)>,
    w: int,
    h: int,
    st: CanvasTextStyle,
) -> Seq<DrawOp> {
    let inner = w - flag(e.left) - flag(e.right);
    let top = if e.top {
        horizontal_ops(b.top_left, b.top_right, edge_text(title, BorderTitlePos::Top, b.top, inner), e, w, 0, st)
    } else {
        Seq::empty()
    };
    let bottom = if e.bottom {
        horizontal_ops(
            b.bottom_left,
            b.bottom_right,
            edge_text(title, BorderTitlePos::Bottom, b.bottom, inner),
            e,
            w,
            h - 1,
            st,
        )
    } else {
        Seq::empty()
    };
    top + side_ops(b, e, w, flag(e.top), h - flag(e.bottom), st) + bottom
}

/// The operations that draw a view of `w` by `h` cells: where it has a
/// background color, its text is cleared and its background filled; then
/// its border is drawn: the top edge, the left and right edges on the rows
/// between, the bottom edge.
pub open spec fn view_ops(v: &ViewComponent, w: int, h: int) -> Seq<DrawOp> {
    let bg = match v.background_color {
        Some(c) => seq![DrawOp::Clear(0, 0, w, h), DrawOp::Fill(0, 0, w, h, c)],
        None => Seq::empty(),
    };
    let border = match border_chars_of(v.border_style) {
        Some(b) => border_ops(b, v.border_edges, v.title_v(), w, h, v.border_text_style),
        None => Seq::empty(),
    };
    bg + border
}

/// Text can be drawn at column `x` on every row from just above the region
/// to just below `h` rows.
pub open spec fn column_fits(sub: &CanvasSubviewMut, x: int, h: int) -> bool {
    forall|y: int| -1 <= y <= h ==> #[trigger] sub.text_fits(x, y)
}

impl ViewComponent {
    /// Writes `text` at (`x`, `y`), recording the operation.
    fn draw_text(
        sub: &mut CanvasSubviewMut,
        x: isize,
        y: isize,
        text: &str,
        style: CanvasTextStyle,
        start: Ghost<CanvasSubviewMut>,
        rows0: Ghost<Seq<Seq<canvas::CellView>>>,
        ops: Ghost<Seq<DrawOp>>,
    )
        requires
            old(sub).same_region(&start@),
            start@.text_fits(x as int, y as int),
            (*old(sub).target()).rows() == start@.ops_effect(rows0@, ops@),
        ensures
            final(sub).same_region(&start@),
            *final(final(sub).target()) == *final(old(sub).target()),
            (*final(sub).target()).rows() == start@.ops_effect(rows0@, ops@.push(DrawOp::Text(x as int, y as int, text@, style))),
    {
        proof {
            canvas::lemma_same_region_layout(&*sub, &start@, x as int, y as int);
        }
        sub.set_text(x, y, text, style);
        proof {
            canvas::lemma_ops_effect_push(&start@, rows0@, ops@, DrawOp::Text(x as int, y as int, text@, style));
        }
    }

    /// Draws a horizontal edge on row `y`, as [`horizontal_ops`] lists.
    fn draw_horizontal(
        sub: &mut CanvasSubviewMut,
        left: char,
        right: char,
        text: &str,
        e: Edges,
        width: usize,
        y: isize,
        st: CanvasTextStyle,
        start: Ghost<CanvasSubviewMut>,
        rows0: Ghost<Seq<Seq<canvas::CellView>>>,
        ops: Ghost<Seq<DrawOp>>,
    )
        requires
            width <= isize::MAX,
            old(sub).same_region(&start@),
            e.left ==> start@.text_fits(0, y as int),
            start@.text_fits(flag(e.left), y as int),
            e.right ==> start@.text_fits(width - 1, y as int),
            (*old(sub).target()).rows() == start@.ops_effect(rows0@, ops@),
        ensures
            final(sub).same_region(&start@),
            *final(final(sub).target()) == *final(old(sub).target()),
            (*final(sub).target()).rows() == start@.ops_effect(
                rows0@,
                ops@ + horizontal_ops(left, right, text@, e, width as int, y as int, st),
            ),
    {
        let ghost mut o = ops@;
        if e.left {
            let s = char_string(left);
            ViewComponent::draw_text(sub, 0, y, s.as_str(), st, start, rows0, Ghost(o));
            proof { o = o.push(DrawOp::Text(0, y as int, seq![left], st)); }
        }
        let x: isize = if e.left { 1 } else { 0 };
        ViewComponent::draw_text(sub, x, y, text, st, start, rows0, Ghost(o));
        proof { o = o.push(DrawOp::Text(x as int, y as int, text@, st)); }
        if e.right {
            let s = char_string(right);
            ViewComponent::draw_text(sub, width as isize - 1, y, s.as_str(), st, start, rows0, Ghost(o));
            proof { o = o.push(DrawOp::Text(width - 1, y as int, seq![right], st)); }
        }
        assert(o =~= ops@ + horizontal_ops(left, right, text@, e, width as int, y as int, st));
    }

    /// Draws the left and right edges on rows `y0..y1`, as [`side_ops`]
    /// lists.
    fn draw_sides(
        sub: &mut CanvasSubviewMut,
        b: BorderCharacters,
        e: Edges,
        width: usize,
        y0: isize,
        y1: isize,
        st: CanvasTextStyle,
        start: Ghost<CanvasSubviewMut>,
        rows0: Ghost<Seq<Seq<canvas::CellView>>>,
        ops: Ghost<Seq<DrawOp>>,
    )
        requires
            width <= isize::MAX,
            old(sub).same_region(&start@),
            e.left ==> forall|y: int| y0 <= y < y1 ==> #[trigger] start@.text_fits(0, y),
            e.right ==> forall|y: int| y0 <= y < y1 ==> #[trigger] start@.text_fits(width - 1, y),
            (*old(sub).target()).rows() == start@.ops_effect(rows0@, ops@),
        ensures
            final(sub).same_region(&start@),
            *final(final(sub).target()) == *final(old(sub).target()),
            (*final(sub).target()).rows() == start@.ops_effect(
                rows0@,
                ops@ + side_ops(b, e, width as int, y0 as int, y1 as int, st),
            ),
    {
        let ghost mut o = ops@;
        let mut y = y0;
        assert(o =~= ops@ + side_ops(b, e, width as int, y0 as int, y0 as int, st));
        while y < y1
            invariant
                y0 <= y,
                y <= y1 || y == y0,
                width <= isize::MAX,
                e.left ==> forall|y: int| y0 <= y < y1 ==> #[trigger] start@.text_fits(0, y),
                e.right ==> forall|y: int| y0 <= y < y1 ==> #[trigger] start@.text_fits(width - 1, y),
                sub.same_region(&start@),
                *final(sub.target()) == *final(old(sub).target()),
                (*sub.target()).rows() == start@.ops_effect(rows0@, o),
                o == ops@ + side_ops(b, e, width as int, y0 as int, y as int, st),
            decreases y1 - y,
        {
            if e.left {
                let s = char_string(b.left);
                assert(start@.text_fits(0, y as int));
                ViewComponent::draw_text(sub, 0, y, s.as_str(), st, start, rows0, Ghost(o));
                proof { o = o.push(DrawOp::Text(0, y as int, seq![b.left], st)); }
            }
            if e.right {
                let s = char_string(b.right);
                assert(start@.text_fits(width - 1, y as int));
                ViewComponent::draw_text(sub, width as isize - 1, y, s.as_str(), st, start, rows0, Ghost(o));
                proof { o = o.push(DrawOp::Text(width - 1, y as int, seq![b.right], st)); }
            }
            y += 1;
            assert(o =~= ops@ + side_ops(b, e, width as int, y0 as int, y as int, st));
        }
        if y1 <= y0 {
            assert(side_ops(b, e, width as int, y0 as int, y as int, st) =~= Seq::<DrawOp>::empty());
            assert(side_ops(b, e, width as int, y0 as int, y1 as int, st) =~= Seq::<DrawOp>::empty());
        }
    }

    /// The text of a horizontal edge `n` columns long, in `pos`.
    fn edge_string(&self, pos: BorderTitlePos, c: char, n: usize) -> (r: String)
        ensures
            r@ == edge_text(self.title_v(), pos, c, n as int),
    {
        let cs = char_string(c);
        match &self.border_title {
            Some(t) => {
                if t.pos == pos {
                    return center_and_clip(cs.as_str(), n, t.title.as_str());
                }
            },
            None => {},
        }
        let mut out = String::new();
        push_repeated(&mut out, cs.as_str(), n);
        assert(out@ =~= repeat_seq(seq![c], n as nat));
        out
    }

    /// Draws the view onto a region of `width` by `height` cells, as
    /// [`view_ops`] lists.
    #[verifier::rlimit(50)]
    pub fn draw(&self, sub: &mut CanvasSubviewMut, width: usize, height: usize)
        requires
            width <= isize::MAX,
            height <= isize::MAX,
            self.background_color is Some ==> old(sub).rect_fits(0, 0, width as int, height as int),
            border_chars_of(self.border_style) is Some && (self.border_edges.top || self.border_edges.bottom)
                ==> width >= flag(self.border_edges.left) + flag(self.border_edges.right),
            border_chars_of(self.border_style) is Some ==> column_fits(&*old(sub), 0, height as int)
                && column_fits(&*old(sub), 1, height as int) && column_fits(&*old(sub), width - 1, height as int),
        ensures
            (*final(sub).target()).rows() == old(sub).ops_effect(
                (*old(sub).target()).rows(),
                view_ops(self, width as int, height as int),
            ),
            final(sub).same_region(&*old(sub)),
            *final(final(sub).target()) == *final(old(sub).target()),
    {
        let ghost start = *sub;
        let ghost rows0 = (*sub.target()).rows();
        let ghost mut ops: Seq<DrawOp> = Seq::empty();
        match self.background_color {
            Some(color) => {
                sub.clear_text(0, 0, width, height);
                proof {
                    canvas::lemma_ops_effect_push(&start, rows0, ops, DrawOp::Clear(0, 0, width as int, height as int));
                    ops = ops.push(DrawOp::Clear(0, 0, width as int, height as int));
                    canvas::lemma_same_region_layout(&*sub, &start, 0, 0);
                }
                sub.set_background_color(0, 0, width, height, color);
                proof {
                    canvas::lemma_ops_effect_push(&start, rows0, ops, DrawOp::Fill(0, 0, width as int, height as int, color));
                    ops = ops.push(DrawOp::Fill(0, 0, width as int, height as int, color));
                }
            },
            None => {},
        }
        let border = match self.border_style.border_characters() {
            Some(b) => b,
            None => {
                assert(ops =~= view_ops(self, width as int, height as int));
                return;
            },
        };
        let ghost bg = ops;
        let e = self.border_edges;
        let st = self.border_text_style;
        let h = height as isize;
        let left: usize = if e.left { 1 } else { 0 };
        let right: usize = if e.right { 1 } else { 0 };
        assert(start.text_fits(0, 0) && start.text_fits(0, h - 1));
        assert(start.text_fits(1, 0) && start.text_fits(1, h - 1));
        assert(start.text_fits(width - 1, 0) && start.text_fits(width - 1, h - 1));
        let ghost top_ops = if e.top {
            horizontal_ops(border.top_left, border.top_right, edge_text(self.title_v(), BorderTitlePos::Top, border.top, width - flag(e.left) - flag(e.right)), e, width as int, 0, st)
        } else {
            Seq::empty()
        };
        if e.top {
            let text = self.edge_string(BorderTitlePos::Top, border.top, width - left - right);
            ViewComponent::draw_horizontal(sub, border.top_left, border.top_right, text.as_str(), e, width, 0, st, Ghost(start), Ghost(rows0), Ghost(ops));
        }
        proof { ops = ops + top_ops; }
        let y0: isize = if e.top { 1 } else { 0 };
        let y1: isize = if e.bottom { h - 1 } else { h };
        ViewComponent::draw_sides(sub, border, e, width, y0, y1, st, Ghost(start), Ghost(rows0), Ghost(ops));
        proof { ops = ops + side_ops(border, e, width as int, y0 as int, y1 as int, st); }
        let ghost bottom_ops = if e.bottom {
            horizontal_ops(border.bottom_left, border.bottom_right, edge_text(self.title_v(), BorderTitlePos::Bottom, border.bottom, width - flag(e.left) - flag(e.right)), e, width as int, height - 1, st)
        } else {
            Seq::empty()
        };
        if e.bottom {
            let text = self.edge_string(BorderTitlePos::Bottom, border.bottom, width - left - right);
            ViewComponent::draw_horizontal(sub, border.bottom_left, border.bottom_right, text.as_str(), e, width, h - 1, st, Ghost(start), Ghost(rows0), Ghost(ops));
        }
        proof { ops = ops + bottom_ops; }
        assert(ops =~= view_ops(self, width as int, height as int));
    }
}

/// The line a character draws toward each side, as (up, down, left, right):
/// 0 for none, 1 for a light line, 2 for a heavy one, 3 for a double one,
/// after the characters' Unicode names (U+2557 is BOX DRAWINGS DOUBLE DOWN
/// AND LEFT, so '╗' draws double lines down and to the left). The ASCII
/// `+` joins light lines on all four sides, `-` and `|` are light lines.
pub open spec fn arms(c: char) -> (u8, u8, u8, u8) {
    if c == '─' { (0, 0, 1, 1) }
    else if c == '━' { (0, 0, 2, 2) }
    else if c == '│' { (1, 1, 0, 0) }
    else if c == '┃' { (2, 2, 0, 0) }
    else if c == '┌' { (0, 1, 0, 1) }
    else if c == '┐' { (0, 1, 1, 0) }
    else if c == '└' { (1, 0, 0, 1) }
    else if c == '┘' { (1, 0, 1, 0) }
    else if c == '┏' { (0, 2, 0, 2) }
    else if c == '┓' { (0, 2, 2, 0) }
    else if c == '┗' { (2, 0, 0, 2) }
    else if c == '┛' { (2, 0, 2, 0) }
    else if c == '═' { (0, 0, 3, 3) }
    else if c == '║' { (3, 3, 0, 0) }
    else if c == '╒' { (0, 1, 0, 3) }
    else if c == '╓' { (0, 3, 0, 1) }
    else if c == '╔' { (0, 3, 0, 3) }
    else if c == '╕' { (0, 1, 3, 0) }
    else if c == '╖' { (0, 3, 1, 0) }
    else if c == '╗' { (0, 3, 3, 0) }
    else if c == '╘' { (1, 0, 0, 3) }
    else if c == '╙' { (3, 0, 0, 1) }
    else if c == '╚' { (3, 0, 0, 3) }
    else if c == '╛' { (1, 0, 3, 0) }
    else if c == '╜' { (3, 0, 1, 0) }
    else if c == '╝' { (3, 0, 3, 0) }
    else if c == '╭' { (0, 1, 0, 1) }
    else if c == '╮' { (0, 1, 1, 0) }
    else if c == '╯' { (1, 0, 1, 0) }
    else if c == '╰' { (1, 0, 0, 1) }
    else if c == '+' { (1, 1, 1, 1) }
    else if c == '-' { (0, 0, 1, 1) }
    else if c == '|' { (1, 1, 0, 0) }
    else { (0, 0, 0, 0) }
}

/// Every built-in border style draws a closed box: the top and bottom edges
/// are horizontal lines and the left and right edges vertical ones; each
/// corner joins the two edges that meet there, with lines of their weight,
/// opening toward the inside of the box (the top-right corner draws left
/// and down, the bottom-right corner left and up, and so on); and, but for
/// the ASCII `+` of the classic style, no corner draws toward the outside.
/// No border has no characters.
pub proof fn lemma_border_corners_face_inward(style: BorderStyle)
    requires
        !(style is Custom),
    ensures
        style == BorderStyle::NoBorder <==> border_chars_of(style) is None,
        border_chars_of(style) matches Some(b) ==> {
            let (l, r, t, bo) = (arms(b.left), arms(b.right), arms(b.top), arms(b.bottom));
            let (tl, tr, bl, br) = (arms(b.top_left), arms(b.top_right), arms(b.bottom_left), arms(b.bottom_right));
            &&& t.2 > 0 && t.2 == t.3 && t.0 == 0 && t.1 == 0
            &&& bo.2 > 0 && bo.2 == bo.3 && bo.0 == 0 && bo.1 == 0
            &&& l.0 > 0 && l.0 == l.1 && l.2 == 0 && l.3 == 0
            &&& r.0 > 0 && r.0 == r.1 && r.2 == 0 && r.3 == 0
            &&& tl.1 == l.0 && tl.3 == t.2
            &&& tr.1 == r.0 && tr.2 == t.3
            &&& bl.0 == l.1 && bl.3 == bo.2
            &&& br.0 == r.1 && br.2 == bo.3
            &&& style != BorderStyle::Classic ==> {
                &&& tl.0 == 0 && tl.2 == 0
                &&& tr.0 == 0 && tr.3 == 0
                &&& bl.1 == 0 && bl.2 == 0
                &&& br.1 == 0 && br.3 == 0
            }
        },
{
}

} // verus!
