//! Plain text: wrapping it to a width and aligning its lines.
use vstd::prelude::*;
use crate::chars::{lines, push_char, push_chars, push_str, to_chars};
use crate::color::Color;
use crate::segmented_string::{SegmentedString, SegmentedStringLine};
use crate::style::{CanvasTextStyle, Weight};
use crate::unicode::str_width;
use crate::{chars, linebreak, segmented_string, unicode, canvas};
use crate::canvas::{CanvasSubviewMut, DrawOp};
use crate::strip_ansi::strip_ansi;

verus! {

/// The text wrapping behavior of a [`Text`] component.
#[derive(Copy, Clone, Debug, Eq, PartialEq, Structural)]
pub enum TextWrap {
    /// Text is wrapped at appropriate characters to minimize overflow. This
    /// is the default.
    Wrap,
    /// Text is not wrapped, and may overflow the bounds of the component.
    NoWrap,
}

impl Default for TextWrap {
    fn default() -> (r: TextWrap)
        ensures
            r == TextWrap::Wrap,
    {
        TextWrap::Wrap
    }
}

/// The text alignment of a [`Text`] component.
#[derive(Copy, Clone, Debug, Eq, PartialEq, Structural)]
pub enum TextAlign {
    /// Text is aligned to the left. This is the default.
    Left,
    /// Text is aligned to the right.
    Right,
    /// Text is aligned to the center.
    Center,
}

impl Default for TextAlign {
    fn default() -> (r: TextAlign)
        ensures
            r == TextAlign::Left,
    {
        TextAlign::Left
    }
}

/// The text decoration of a [`Text`] component.
#[derive(Copy, Clone, Debug, Eq, PartialEq, Structural)]
pub enum TextDecoration {
    /// No text decoration. This is the default.
    Plain,
    /// The text is underlined.
    Underline,
}

impl Default for TextDecoration {
    fn default() -> (r: TextDecoration)
        ensures
            r == TextDecoration::Plain,
    {
        TextDecoration::Plain
    }
}

/// The width text is laid out in.
#[derive(Copy, Clone, Debug, Eq, PartialEq, Structural)]
pub enum AvailableWidth {
    /// A definite number of columns.
    Definite(usize),
    /// As wide as the content needs.
    MaxContent,
    /// As narrow as the content allows.
    MinContent,
}

/// The text of the lines of wrapped text, each without its trailing
/// whitespace, joined with newlines; a newline goes only after text that is
/// not empty so far.
pub open spec fn join_trimmed(texts: Seq<Seq<char>>) -> Seq<char>
    decreases texts.len(),
{
    if texts.len() == 0 {
        Seq::empty()
    } else {
        let acc = join_trimmed(texts.drop_last());
        let t = texts.last();
        let trimmed = t.take(segmented_string::trailing_ws_start(t));
        if acc.len() > 0 {
            acc.push('\n') + trimmed
        } else {
            acc + trimmed
        }
    }
}

/// The text of each line that wrapping `s` to `width` gives.
pub open spec fn wrapped_texts(s: Seq<char>, width: int) -> Seq<Seq<char>> {
    let segs = seq![s];
    segmented_string::wrap_lines(segs, width).map_values(
        |l: segmented_string::LineV| segmented_string::pieces_text(segs, l.0),
    )
}

/// `s` wrapped to `width`: the wrapped lines without trailing whitespace,
/// joined with newlines.
pub open spec fn do_wrap_spec(s: Seq<char>, width: int) -> Seq<char> {
    join_trimmed(wrapped_texts(s, width))
}

/// What wrapping text gives, by the wrapping behavior and the space
/// available.
pub open spec fn wrap_spec(content: Seq<char>, text_wrap: TextWrap, known_width: Option<usize>, available: AvailableWidth) -> Seq<char> {
    match text_wrap {
        TextWrap::Wrap => match known_width {
            Some(w) => do_wrap_spec(content, w as int),
            None => match available {
                AvailableWidth::Definite(w) => do_wrap_spec(content, w as int),
                AvailableWidth::MaxContent => content,
                AvailableWidth::MinContent => do_wrap_spec(content, 1),
            },
        },
        TextWrap::NoWrap => content,
    }
}

/// The column a line of the given width starts at, relative to the start of
/// the space, for the given alignment.
pub open spec fn alignment_padding_spec(line_width: int, align: TextAlign, width: int) -> int {
    match align {
        TextAlign::Left => 0,
        TextAlign::Right => width - line_width,
        TextAlign::Center => width / 2 - line_width / 2,
    }
}

/// The smallest of some integers, or 0 for none.
pub open spec fn min_or_zero(xs: Seq<int>) -> int
    decreases xs.len(),
{
    if xs.len() == 0 {
        0
    } else if xs.len() == 1 {
        xs[0]
    } else {
        let m = min_or_zero(xs.drop_last());
        if xs.last() < m {
            xs.last()
        } else {
            m
        }
    }
}

/// Lines joined with newlines.
pub open spec fn join_lines(ls: Seq<Seq<char>>) -> Seq<char>
    decreases ls.len(),
{
    if ls.len() == 0 {
        Seq::empty()
    } else if ls.len() == 1 {
        ls[0]
    } else {
        join_lines(ls.drop_last()).push('\n') + ls.last()
    }
}

/// The padding of each line of `content` for the alignment.
pub open spec fn line_paddings(content: Seq<char>, align: TextAlign, width: int) -> Seq<int> {
    chars::lines_of(content).map_values(
        |l: Seq<char>| alignment_padding_spec(unicode::str_width_of(l) as int, align, width),
    )
}

/// Aligned text: left-aligned text is unchanged; otherwise each line is
/// indented by its padding less the smallest padding, which is returned as
/// the common offset of all lines.
pub open spec fn align_spec(content: Seq<char>, align: TextAlign, width: int) -> (int, Seq<char>) {
    match align {
        TextAlign::Left => (0, content),
        _ => {
            let ps = line_paddings(content, align, width);
            let x = min_or_zero(ps);
            let ls = chars::lines_of(content);
            (
                x,
                join_lines(
                    Seq::new(
                        ls.len(),
                        |i: int| crate::canvas::spaces((ps[i] - x) as nat) + ls[i],
                    ),
                ),
            )
        },
    }
}

/// Wraps `s` to `width`: the wrapped lines without trailing whitespace,
/// joined with newlines.
pub fn do_wrap(s: &str, width: usize) -> (r: String)
    requires
        chars::utf8_len(s@) <= usize::MAX,
    ensures
        r@ == do_wrap_spec(s@, width as int),
{
    let ss = SegmentedString::from_str(s);
    assert(linebreak::concat(seq![s@]) =~= s@) by {
        assert(seq![s@].drop_last() =~= Seq::<Seq<char>>::empty());
        assert(linebreak::concat(Seq::<Seq<char>>::empty()) == Seq::<char>::empty());
        assert(linebreak::concat(seq![s@]) == linebreak::concat(seq![s@].drop_last()) + seq![s@].last());
    }
    let ls = ss.wrap(width);
    let ghost segs = seq![s@];
    let ghost texts = wrapped_texts(s@, width as int);
    let mut ret = String::new();
    let mut i: usize = 0;
    while i < ls.len()
        invariant
            i <= ls@.len(),
            segs == seq![s@],
            ls@.len() == segmented_string::wrap_lines(segs, width as int).len(),
            forall|k: int| 0 <= k < ls@.len() ==> segmented_string::line_matches(segs, segmented_string::wrap_lines(segs, width as int)[k], #[trigger] ls@[k]),
            texts == wrapped_texts(s@, width as int),
            texts.len() == ls@.len(),
            ret@ == join_trimmed(texts.take(i as int)),
        decreases ls@.len() - i,
    {
        let line_text = ls[i].to_string();
        proof {
            lemma_line_text_matches(segs, segmented_string::wrap_lines(segs, width as int)[i as int], ls@[i as int]);
        }
        assert(line_text@ == texts[i as int]);
        let cs = to_chars(line_text.as_str());
        let trimmed = trim_end_chars(&cs);
        if !ret.as_str().is_empty() {
            push_char(&mut ret, '\n');
        }
        push_chars(&mut ret, &trimmed);
        assert(texts.take(i + 1).drop_last() =~= texts.take(i as int));
        i += 1;
    }
    assert(texts.take(ls@.len() as int) =~= texts);
    ret
}

/// The text of a line equals the text of the pieces it came from.
pub proof fn lemma_line_text_matches(segs: Seq<Seq<char>>, l: segmented_string::LineV, line: SegmentedStringLine)
    requires
        segmented_string::line_matches(segs, l, line),
    ensures
        segmented_string::line_text(line.parts()) == segmented_string::pieces_text(segs, l.0),
{
    lemma_line_text_prefix(segs, l, line, l.0.len() as int);
    assert(line.parts().take(l.0.len() as int) =~= line.parts());
    assert(l.0.take(l.0.len() as int) =~= l.0);
}

proof fn lemma_line_text_prefix(segs: Seq<Seq<char>>, l: segmented_string::LineV, line: SegmentedStringLine, i: int)
    requires
        segmented_string::line_matches(segs, l, line),
        0 <= i <= l.0.len(),
    ensures
        segmented_string::line_text(line.parts().take(i)) == segmented_string::pieces_text(segs, l.0.take(i)),
    decreases i,
{
    if i > 0 {
        lemma_line_text_prefix(segs, l, line, i - 1);
        assert(line.parts().take(i).drop_last() =~= line.parts().take(i - 1));
        assert(l.0.take(i).drop_last() =~= l.0.take(i - 1));
        assert(segmented_string::piece_matches(segs, l.0[i - 1], line.segments@[i - 1]));
    }
}

fn trim_end_chars(cs: &Vec<char>) -> (r: Vec<char>)
    ensures
        r@ == cs@.take(segmented_string::trailing_ws_start(cs@)),
{
    let mut k = cs.len();
    assert(cs@.take(k as int) =~= cs@);
    while k > 0 && chars::char_is_whitespace(cs[k - 1])
        invariant
            k <= cs@.len(),
            segmented_string::trailing_ws_start(cs@) == segmented_string::trailing_ws_start(cs@.take(k as int)),
        decreases k,
    {
        assert(cs@.take(k as int).drop_last() =~= cs@.take(k - 1));
        k -= 1;
    }
    chars::subrange_vec(cs, 0, k)
}

/// The column a line of width `line_width` starts at within `width` columns
/// for the given alignment, relative to the left.
pub fn alignment_padding(line_width: usize, align: TextAlign, width: usize) -> (r: isize)
    requires
        line_width <= isize::MAX,
        width <= isize::MAX,
    ensures
        r == alignment_padding_spec(line_width as int, align, width as int),
{
    match align {
        TextAlign::Left => 0,
        TextAlign::Right => width as isize - line_width as isize,
        TextAlign::Center => width as isize / 2 - line_width as isize / 2,
    }
}

fn width_of_line(l: &Vec<char>) -> (r: usize)
    ensures
        r == unicode::str_width_of(l@),
{
    let s = chars::string_of(l);
    str_width(s.as_str())
}

/// Aligns the text, returning an offset to apply to all lines and the text
/// with each line indented by the rest of its padding.
pub fn align(content: String, alignment: TextAlign, width: usize) -> (r: (isize, String))
    requires
        width <= isize::MAX,
        forall|i: int| 0 <= i < chars::lines_of(content@).len() ==> unicode::str_width_of(#[trigger] chars::lines_of(content@)[i]) <= isize::MAX,
    ensures
        r.0 == align_spec(content@, alignment, width as int).0,
        r.1@ == align_spec(content@, alignment, width as int).1,
{
    match alignment {
        TextAlign::Left => (0, content),
        _ => {
            let cs = to_chars(content.as_str());
            let ls = lines(&cs);
            let ghost lo = chars::lines_of(content@);
            let ghost ps = line_paddings(content@, alignment, width as int);
            let mut paddings: Vec<isize> = Vec::new();
            let mut i: usize = 0;
            while i < ls.len()
                invariant
                    i <= ls@.len(),
                    ls@.len() == lo.len(),
                    forall|k: int| 0 <= k < ls@.len() ==> #[trigger] ls@[k]@ == lo[k],
                    lo == chars::lines_of(content@),
                    ps == line_paddings(content@, alignment, width as int),
                    width <= isize::MAX,
                    forall|k: int| 0 <= k < lo.len() ==> unicode::str_width_of(#[trigger] lo[k]) <= isize::MAX,
                    paddings@.len() == i,
                    forall|k: int| 0 <= k < i ==> #[trigger] paddings@[k] as int == ps[k],
                decreases ls@.len() - i,
            {
                let w = width_of_line(&ls[i]);
                assert(unicode::str_width_of(lo[i as int]) <= isize::MAX);
                let p = alignment_padding(w, alignment, width);
                paddings.push(p);
                i += 1;
            }
            let mut x_offset: isize = 0;
            let mut k: usize = 0;
            while k < paddings.len()
                invariant
                    k <= paddings@.len(),
                    paddings@.len() == ps.len(),
                    forall|j: int| 0 <= j < paddings@.len() ==> #[trigger] paddings@[j] as int == ps[j],
                    x_offset == min_or_zero(ps.take(k as int)),
                decreases paddings@.len() - k,
            {
                assert(ps.take(k + 1).drop_last() =~= ps.take(k as int));
                if k == 0 || paddings[k] < x_offset {
                    x_offset = paddings[k];
                }
                k += 1;
            }
            assert(ps.take(ps.len() as int) =~= ps);
            proof {
                lemma_min_le(ps);
            }
            let ghost body = Seq::new(lo.len(), |i: int| crate::canvas::spaces((ps[i] - x_offset) as nat) + lo[i]);
            let mut out = String::new();
            let mut j: usize = 0;
            while j < ls.len()
                invariant
                    j <= ls@.len(),
                    ls@.len() == lo.len(),
                    forall|k: int| 0 <= k < ls@.len() ==> #[trigger] ls@[k]@ == lo[k],
                    paddings@.len() == ps.len(),
                    ps.len() == lo.len(),
                    forall|k: int| 0 <= k < paddings@.len() ==> #[trigger] paddings@[k] as int == ps[k],
                    forall|k: int| 0 <= k < ps.len() ==> x_offset <= #[trigger] ps[k],
                    body == Seq::new(lo.len(), |i: int| crate::canvas::spaces((ps[i] - x_offset) as nat) + lo[i]),
                    out@ == join_lines(body.take(j as int)),
                decreases ls@.len() - j,
            {
                let ghost before = out@;
                if j > 0 {
                    push_char(&mut out, '\n');
                }
                let n: usize = ((paddings[j] as i128) - (x_offset as i128)) as usize;
                assert(paddings@[j as int] as int == ps[j as int]);
                let mut q: usize = 0;
                let ghost mid = out@;
                while q < n
                    invariant
                        q <= n,
                        out@ == mid + crate::canvas::spaces(q as nat),
                    decreases n - q,
                {
                    push_char(&mut out, ' ');
                    q += 1;
                    assert(out@ =~= mid + crate::canvas::spaces(q as nat));
                }
                push_chars(&mut out, &ls[j]);
                proof {
                    assert(body.take(j + 1).drop_last() =~= body.take(j as int));
                    if j > 0 {
                        assert(out@ =~= join_lines(body.take(j as int)).push('\n') + body[j as int]);
                    } else {
                        assert(body.take(1) =~= seq![body[0]]);
                        assert(out@ =~= body[0]);
                    }
                }
                j += 1;
            }
            assert(body.take(ls.len() as int) =~= body);
            (x_offset, out)
        },
    }
}

/// The smallest of some integers is no larger than any of them.
pub proof fn lemma_min_le(xs: Seq<int>)
    ensures
        forall|k: int| 0 <= k < xs.len() ==> min_or_zero(xs) <= #[trigger] xs[k],
    decreases xs.len(),
{
    if xs.len() > 1 {
        lemma_min_le(xs.drop_last());
        assert forall|k: int| 0 <= k < xs.len() implies min_or_zero(xs) <= #[trigger] xs[k] by {
            if k < xs.len() - 1 {
                assert(xs.drop_last()[k] == xs[k]);
            }
        }
    }
}

/// Wraps text for the wrapping behavior and the space available: with a
/// known width, to that width; otherwise to a definite available width, not
/// at all for as much as the content needs, and as narrowly as possible for
/// as little.
pub fn wrap(content: &str, text_wrap: TextWrap, known_width: Option<usize>, available: AvailableWidth) -> (r: String)
    requires
        chars::utf8_len(content@) <= usize::MAX,
    ensures
        r@ == wrap_spec(content@, text_wrap, known_width, available),
{
    match text_wrap {
        TextWrap::Wrap => match known_width {
            Some(w) => do_wrap(content, w),
            None => match available {
                AvailableWidth::Definite(w) => do_wrap(content, w),
                AvailableWidth::MaxContent => content.to_owned(),
                AvailableWidth::MinContent => do_wrap(content, 1),
            },
        },
        TextWrap::NoWrap => content.to_owned(),
    }
}

/// The widest line's width.
pub open spec fn max_width(ls: Seq<Seq<char>>) -> nat
    decreases ls.len(),
{
    if ls.len() == 0 {
        0
    } else {
        let m = max_width(ls.drop_last());
        let w = unicode::str_width_of(ls.last()) as nat;
        if w > m {
            w
        } else {
            m
        }
    }
}

/// The size text takes up, in columns and rows: the width of its widest
/// line after wrapping, and its number of lines, at least one.
pub open spec fn measure_spec(content: Seq<char>, text_wrap: TextWrap, known_width: Option<usize>, available: AvailableWidth) -> (nat, nat) {
    let ls = chars::lines_of(wrap_spec(content, text_wrap, known_width, available));
    (max_width(ls), if ls.len() == 0 { 1 } else { ls.len() })
}

/// Measures text: the width of its widest line after wrapping, and its
/// number of lines, at least one.
pub fn measure(content: &str, text_wrap: TextWrap, known_width: Option<usize>, available: AvailableWidth) -> (r: (usize, usize))
    requires
        chars::utf8_len(content@) <= usize::MAX,
    ensures
        r.0 == measure_spec(content@, text_wrap, known_width, available).0,
        r.1 == measure_spec(content@, text_wrap, known_width, available).1,
{
    let wrapped = wrap(content, text_wrap, known_width, available);
    let cs = to_chars(wrapped.as_str());
    let ls = lines(&cs);
    let ghost lo = chars::lines_of(wrapped@);
    let mut m: usize = 0;
    let mut i: usize = 0;
    while i < ls.len()
        invariant
            i <= ls@.len(),
            ls@.len() == lo.len(),
            forall|k: int| 0 <= k < ls@.len() ==> #[trigger] ls@[k]@ == lo[k],
            m == max_width(lo.take(i as int)),
        decreases ls@.len() - i,
    {
        assert(lo.take(i + 1).drop_last() =~= lo.take(i as int));
        let w = width_of_line(&ls[i]);
        if w > m {
            m = w;
        }
        i += 1;
    }
    assert(lo.take(ls.len() as int) =~= lo);
    let n = if ls.len() == 0 { 1 } else { ls.len() };
    (m, n)
}


/// A text drawer's position and state, as values: the column lines start
/// at, the column and row of the next text, whether the current line has
/// had any text that is not whitespace, and whether leading whitespace is
/// skipped.
pub struct DrawerView {
    /// The column each new line starts at.
    pub x_offset: int,
    /// The column of the next text.
    pub x: int,
    /// The row of the next text.
    pub y: int,
    /// Whether the current line has had text that is not whitespace.
    pub seen: bool,
    /// Whether leading whitespace of a line is skipped (moving past it).
    pub skip: bool,
}

/// The index of the first character of `line` from `i` on that is not
/// whitespace.
pub open spec fn first_non_ws(line: Seq<char>, i: int) -> Option<int>
    decreases line.len() - i,
{
    if i >= line.len() {
        None
    } else if !chars::is_whitespace(line[i]) {
        Some(i)
    } else {
        first_non_ws(line, i + 1)
    }
}

/// Where a line is split to skip its leading whitespace: the number of
/// leading whitespace characters, or the line's length in bytes where it is
/// all whitespace; the split is made at that byte.
pub open spec fn skip_point(line: Seq<char>) -> int {
    match first_non_ws(line, 0) {
        Some(i) => i,
        None => chars::utf8_len(line) as int,
    }
}

/// A line with its leading whitespace skipped where the drawer skips it:
/// the drawer moved past the whitespace, and the rest of the line.
pub open spec fn skip_leading(d: DrawerView, line: Seq<char>) -> (DrawerView, Seq<char>) {
    if d.skip && !d.seen {
        let j = chars::char_index_at(line, skip_point(line));
        let rest = line.skip(j);
        (
            DrawerView {
                x: d.x + unicode::str_width_of(line.take(j)),
                seen: if rest.len() > 0 { true } else { d.seen },
                ..d
            },
            rest,
        )
    } else {
        (d, line)
    }
}

/// Appending lines: each line (with leading whitespace skipped where the
/// drawer skips it) is written where the drawer is; after a line that is
/// not the last, the drawer goes to the start of the next row, and after
/// the last line it moves past that line's width. The result is the state
/// after, and the write operations.
pub open spec fn append_spec(d: DrawerView, lines: Seq<Seq<char>>, style: CanvasTextStyle) -> (DrawerView, Seq<DrawOp>)
    decreases lines.len(),
{
    if lines.len() == 0 {
        (d, Seq::empty())
    } else {
        let (d1, line) = skip_leading(d, lines[0]);
        let d2 = if lines.len() > 1 {
            DrawerView { y: d1.y + 1, x: d1.x_offset, seen: false, ..d1 }
        } else {
            DrawerView { x: d1.x + unicode::str_width_of(line), ..d1 }
        };
        let r = append_spec(d2, lines.drop_first(), style);
        (r.0, seq![DrawOp::Text(d1.x, d1.y, line, style)] + r.1)
    }
}

/// What appending lines needs: the splits made to skip whitespace fall on
/// character boundaries, every position fits in an `isize`, and the region
/// can take text at each position.
pub open spec fn append_ok(sub: &CanvasSubviewMut, d: DrawerView, lines: Seq<Seq<char>>) -> bool
    decreases lines.len(),
{
    if lines.len() == 0 {
        true
    } else {
        let (d1, line) = skip_leading(d, lines[0]);
        &&& d.skip && !d.seen ==> chars::is_boundary(lines[0], skip_point(lines[0]))
        &&& d.skip && !d.seen ==> unicode::str_width_of(lines[0].take(chars::char_index_at(lines[0], skip_point(lines[0])))) <= isize::MAX
        &&& unicode::str_width_of(line) <= isize::MAX
        &&& canvas::in_isize(d1.x)
        &&& canvas::in_isize(d1.y + 1)
        &&& canvas::in_isize(d1.x + unicode::str_width_of(line))
        &&& sub.text_fits(d1.x, d1.y)
        &&& append_ok(
            sub,
            if lines.len() > 1 {
                DrawerView { y: d1.y + 1, x: d1.x_offset, seen: false, ..d1 }
            } else {
                DrawerView { x: d1.x + unicode::str_width_of(line), ..d1 }
            },
            lines.drop_first(),
        )
    }
}

/// The character index where the leading whitespace of a line ends, as the
/// drawer splits it (see [`skip_point`]); `None` where that split does not
/// fall on a character boundary.
fn leading_split(line: &Vec<char>) -> (r: Option<usize>)
    requires
        chars::utf8_len(line@) <= usize::MAX,
    ensures
        r is Some <==> chars::is_boundary(line@, skip_point(line@)),
        r matches Some(j) ==> j == chars::char_index_at(line@, skip_point(line@)) && j <= line@.len(),
{
    let mut i: usize = 0;
    while i < line.len() && chars::char_is_whitespace(line[i])
        invariant
            i <= line@.len(),
            first_non_ws(line@, 0) == first_non_ws(line@, i as int),
        decreases line@.len() - i,
    {
        i += 1;
    }
    let to_skip = if i < line.len() {
        i
    } else {
        chars::utf8_prefix_len(line, line.len())
    };
    proof {
        assert(line@.take(line@.len() as int) =~= line@);
    }
    assert(to_skip == skip_point(line@));
    chars::char_index_of(line, to_skip)
}

/// Whether the UTF-8 length of every string fits in a `usize`.
pub fn lengths_fit(lines: &Vec<String>) -> (r: bool)
    ensures
        r == forall|i: int| 0 <= i < lines@.len() ==> chars::utf8_len(#[trigger] lines@[i]@) <= usize::MAX,
{
    let mut i: usize = 0;
    while i < lines.len()
        invariant
            i <= lines@.len(),
            forall|k: int| 0 <= k < i ==> chars::utf8_len(#[trigger] lines@[k]@) <= usize::MAX,
        decreases lines@.len() - i,
    {
        let cs = to_chars(lines[i].as_str());
        if chars::utf8_len_checked(&cs).is_none() {
            return false;
        }
        i += 1;
    }
    true
}

/// Draws lines of text one after another, continuing where the last ones
/// ended.
pub struct TextDrawer {
    x_offset: isize,
    x: isize,
    y: isize,
    line_encountered_non_whitespace: bool,
    skip_leading_whitespace: bool,
}

/// The characters of each string.
pub open spec fn string_views(ls: Seq<String>) -> Seq<Seq<char>> {
    Seq::new(ls.len(), |i: int| ls[i]@)
}

impl TextDrawer {
    /// The drawer's state as values.
    pub closed spec fn view_of(&self) -> DrawerView {
        DrawerView {
            x_offset: self.x_offset as int,
            x: self.x as int,
            y: self.y as int,
            seen: self.line_encountered_non_whitespace,
            skip: self.skip_leading_whitespace,
        }
    }

    /// A drawer at row 0, whose lines start at column `x_offset`.
    pub fn new(x_offset: isize, skip_leading_whitespace: bool) -> (r: TextDrawer)
        ensures
            r.view_of() == (DrawerView { x_offset: x_offset as int, x: x_offset as int, y: 0, seen: false, skip: skip_leading_whitespace }),
    {
        TextDrawer { x_offset, x: x_offset, y: 0, line_encountered_non_whitespace: false, skip_leading_whitespace }
    }

    /// Skips the leading whitespace of a line where the drawer skips it,
    /// returning the rest.
    fn skip_whitespace(&mut self, line: &Vec<char>, more: Ghost<Seq<Seq<char>>>, sub: Ghost<CanvasSubviewMut>) -> (r: Vec<char>)
        requires
            chars::utf8_len(line@) <= usize::MAX,
            append_ok(&sub@, old(self).view_of(), seq![line@] + more@),
        ensures
            (final(self).view_of(), r@) == skip_leading(old(self).view_of(), line@),
    {
        let ghost all = seq![line@] + more@;
        assert(all[0] == line@);
        if !(self.skip_leading_whitespace && !self.line_encountered_non_whitespace) {
            let copy = chars::subrange_vec(line, 0, line.len());
            assert(copy@ =~= line@);
            return copy;
        }
        let j = match leading_split(line) {
            Some(j) => j,
            None => {
                assert(false);
                0
            },
        };
        let ws = chars::string_of(&chars::subrange_vec(line, 0, j));
        let rest = chars::subrange_vec(line, j, line.len());
        assert(ws@ =~= line@.take(j as int));
        assert(rest@ =~= line@.skip(j as int));
        let w = unicode::str_width(ws.as_str());
        self.x = self.x + w as isize;
        if rest.len() > 0 {
            self.line_encountered_non_whitespace = true;
        }
        rest
    }

    /// Appends lines: see [`append_spec`].
    pub fn append_lines(&mut self, sub: &mut CanvasSubviewMut, lines: &Vec<String>, style: CanvasTextStyle)
        requires
            forall|i: int| 0 <= i < lines@.len() ==> chars::utf8_len(#[trigger] lines@[i]@) <= usize::MAX,
            append_ok(&*old(sub), old(self).view_of(), string_views(lines@)),
        ensures
            final(self).view_of() == append_spec(old(self).view_of(), string_views(lines@), style).0,
            (*final(sub).target()).rows() == old(sub).ops_effect(
                (*old(sub).target()).rows(),
                append_spec(old(self).view_of(), string_views(lines@), style).1,
            ),
            final(sub).same_region(&*old(sub)),
            *final(final(sub).target()) == *final(old(sub).target()),
    {
        let ghost start = *sub;
        let ghost rows0 = (*sub.target()).rows();
        let ghost all = string_views(lines@);
        let ghost d0 = self.view_of();
        let ghost mut ops: Seq<DrawOp> = Seq::empty();
        let mut i: usize = 0;
        assert(all.skip(0) =~= all);
        while i < lines.len()
            invariant
                i <= lines@.len(),
                all == string_views(lines@),
                forall|i: int| 0 <= i < lines@.len() ==> chars::utf8_len(#[trigger] lines@[i]@) <= usize::MAX,
                append_ok(&start, self.view_of(), all.skip(i as int)),
                append_spec(d0, all, style).0 == append_spec(self.view_of(), all.skip(i as int), style).0,
                append_spec(d0, all, style).1 == ops + append_spec(self.view_of(), all.skip(i as int), style).1,
                sub.same_region(&start),
                *final(sub.target()) == *final(start.target()),
                (*sub.target()).rows() == start.ops_effect(rows0, ops),
            decreases lines@.len() - i,
        {
            let ghost rest_lines = all.skip(i as int);
            assert(rest_lines[0] == lines@[i as int]@);
            assert(rest_lines.drop_first() =~= all.skip(i + 1));
            let cs = chars::to_chars(lines[i].as_str());
            assert(rest_lines =~= seq![cs@] + rest_lines.drop_first());
            let line = self.skip_whitespace(&cs, Ghost(rest_lines.drop_first()), Ghost(start));
            let text = chars::string_of(&line);
            proof {
                canvas::lemma_same_region_layout(&*sub, &start, self.x as int, self.y as int);
            }
            let ghost op = DrawOp::Text(self.x as int, self.y as int, text@, style);
            sub.set_text(self.x, self.y, text.as_str(), style);
            proof {
                canvas::lemma_ops_effect_push(&start, rows0, ops, op);
                ops = ops.push(op);
            }
            if i + 1 < lines.len() {
                self.y = self.y + 1;
                self.x = self.x_offset;
                self.line_encountered_non_whitespace = false;
            } else {
                let w = unicode::str_width(text.as_str());
                self.x = self.x + w as isize;
            }
            i += 1;
            assert(ops + append_spec(self.view_of(), all.skip(i as int), style).1 =~= ops.drop_last() + (seq![op]
                + append_spec(self.view_of(), all.skip(i as int), style).1));
        }
    }

    /// Whether the lines can be appended to the region: whether
    /// [`append_ok`] holds, found by walking the lines as
    /// [`Self::append_lines`] would, without drawing.
    pub fn fits(&self, sub: &CanvasSubviewMut, lines: &Vec<String>) -> (r: bool)
        requires
            forall|i: int| 0 <= i < lines@.len() ==> chars::utf8_len(#[trigger] lines@[i]@) <= usize::MAX,
        ensures
            r == append_ok(sub, self.view_of(), string_views(lines@)),
    {
        let ghost all = string_views(lines@);
        let lo: i128 = isize::MIN as i128;
        let hi: i128 = isize::MAX as i128;
        let skip = self.skip_leading_whitespace;
        let mut x: i128 = self.x as i128;
        let mut y: i128 = self.y as i128;
        let mut seen = self.line_encountered_non_whitespace;
        let mut i: usize = 0;
        assert(all.skip(0) =~= all);
        while i < lines.len()
            invariant
                i <= lines@.len(),
                all == string_views(lines@),
                forall|i: int| 0 <= i < lines@.len() ==> chars::utf8_len(#[trigger] lines@[i]@) <= usize::MAX,
                lo == isize::MIN,
                hi == isize::MAX,
                skip == self.skip_leading_whitespace,
                canvas::in_isize(x as int),
                canvas::in_isize(y as int),
                append_ok(sub, self.view_of(), all) == append_ok(
                    sub,
                    DrawerView { x_offset: self.x_offset as int, x: x as int, y: y as int, seen, skip },
                    all.skip(i as int),
                ),
            decreases lines@.len() - i,
        {
            let ghost d = DrawerView { x_offset: self.x_offset as int, x: x as int, y: y as int, seen, skip };
            let ghost rest_lines = all.skip(i as int);
            assert(rest_lines[0] == lines@[i as int]@);
            assert(rest_lines.drop_first() =~= all.skip(i + 1));
            let cs = chars::to_chars(lines[i].as_str());
            let mut x1: i128 = x;
            let mut seen1 = seen;
            let line: Vec<char>;
            if skip && !seen {
                match leading_split(&cs) {
                    None => {
                        return false;
                    },
                    Some(j) => {
                        let ws = chars::string_of(&chars::subrange_vec(&cs, 0, j));
                        assert(ws@ =~= cs@.take(j as int));
                        let w = unicode::str_width(ws.as_str());
                        if w as i128 > hi {
                            return false;
                        }
                        x1 = x + w as i128;
                        line = chars::subrange_vec(&cs, j, cs.len());
                        assert(line@ =~= cs@.skip(j as int));
                        if line.len() > 0 {
                            seen1 = true;
                        }
                    },
                }
            } else {
                line = chars::subrange_vec(&cs, 0, cs.len());
                assert(line@ =~= cs@);
            }
            let ghost d1 = DrawerView { x: x1 as int, seen: seen1, ..d };
            assert((d1, line@) == skip_leading(d, cs@));
            let text = chars::string_of(&line);
            let lw = unicode::str_width(text.as_str());
            if lw as i128 > hi || x1 < lo || x1 > hi || y + 1 > hi || x1 + lw as i128 > hi {
                return false;
            }
            if !sub.can_set_text(x1, y) {
                return false;
            }
            if i + 1 < lines.len() {
                y = y + 1;
                x = self.x_offset as i128;
                seen = false;
            } else {
                x = x1 + lw as i128;
                seen = seen1;
            }
            i += 1;
        }
        true
    }
}


/// The props which can be passed to the [`Text`] component.
pub struct TextProps {
    /// The color to make the text.
    pub color: Option<Color>,
    /// The content of the text.
    pub content: String,
    /// The weight of the text.
    pub weight: Weight,
    /// The text wrapping behavior.
    pub wrap: TextWrap,
    /// The text alignment.
    pub align: TextAlign,
    /// The text decoration.
    pub decoration: TextDecoration,
    /// Whether to italicize the text.
    pub italic: bool,
}

impl Default for TextProps {
    /// No content, in the default style, wrapped and aligned left.
    fn default() -> (r: TextProps)
        ensures
            r.color is None,
            r.content@.len() == 0,
            r.weight == Weight::Normal,
            r.wrap == TextWrap::Wrap,
            r.align == TextAlign::Left,
            r.decoration == TextDecoration::Plain,
            !r.italic,
    {
        TextProps {
            color: None,
            content: String::new(),
            weight: Weight::Normal,
            wrap: TextWrap::Wrap,
            align: TextAlign::Left,
            decoration: TextDecoration::Plain,
            italic: false,
        }
    }
}

/// `Text` is a component that renders a text string.
pub struct Text {
    style: CanvasTextStyle,
    content: String,
    wrap: TextWrap,
    align: TextAlign,
}

/// The style text is drawn in, from its color, weight, decoration and
/// slant.
pub open spec fn text_style(color: Option<Color>, weight: Weight, decoration: TextDecoration, italic: bool) -> CanvasTextStyle {
    CanvasTextStyle { color, weight, underline: decoration == TextDecoration::Underline, italic }
}

/// The lines of `s` as strings.
fn line_strings(s: &String) -> (r: Vec<String>)
    ensures
        string_views(r@) == chars::lines_of(s@),
        forall|i: int| 0 <= i < r@.len() ==> chars::utf8_len(#[trigger] r@[i]@) <= chars::utf8_len(s@),
{
    let cs = to_chars(s.as_str());
    let ls = lines(&cs);
    let ghost lo = chars::lines_of(s@);
    let mut out: Vec<String> = Vec::new();
    let mut i: usize = 0;
    while i < ls.len()
        invariant
            i <= ls@.len(),
            ls@.len() == lo.len(),
            forall|k: int| 0 <= k < ls@.len() ==> #[trigger] ls@[k]@ == lo[k],
            out@.len() == i,
            forall|k: int| 0 <= k < i ==> #[trigger] out@[k]@ == lo[k],
        decreases ls@.len() - i,
    {
        out.push(chars::string_of(&ls[i]));
        i += 1;
    }
    assert(string_views(out@) =~= lo);
    proof {
        assert forall|i: int| 0 <= i < out@.len() implies chars::utf8_len(#[trigger] out@[i]@) <= chars::utf8_len(s@) by {
            chars::lemma_line_utf8_le(s@, i);
        }
    }
    out
}

impl Text {
    /// The style the text is drawn in.
    pub closed spec fn style_v(&self) -> CanvasTextStyle {
        self.style
    }

    /// The text drawn.
    pub closed spec fn content_v(&self) -> Seq<char> {
        self.content@
    }

    /// The wrapping behavior.
    pub closed spec fn wrap_v(&self) -> TextWrap {
        self.wrap
    }

    /// The alignment.
    pub closed spec fn align_v(&self) -> TextAlign {
        self.align
    }

    /// An empty text in the default style, wrapped and aligned left.
    pub fn new() -> (r: Text)
        ensures
            r.style_v() == crate::style::plain_style(),
            r.content_v().len() == 0,
            r.wrap_v() == TextWrap::Wrap,
            r.align_v() == TextAlign::Left,
    {
        Text { style: CanvasTextStyle::default(), content: String::new(), wrap: TextWrap::Wrap, align: TextAlign::Left }
    }

    /// Takes in new props: the style from the color, weight, decoration and
    /// slant, and the content without ANSI escape sequences.
    pub fn update(&mut self, props: &TextProps)
        ensures
            final(self).style_v() == text_style(props.color, props.weight, props.decoration, props.italic),
            final(self).style_v().italic == props.italic,
            final(self).style_v().color == props.color,
            final(self).style_v().weight == props.weight,
            final(self).style_v().underline <==> props.decoration == TextDecoration::Underline,
            final(self).content_v() == crate::strip_ansi::stripped(props.content@),
            final(self).wrap_v() == props.wrap,
            final(self).align_v() == props.align,
    {
        let underline = match props.decoration {
            TextDecoration::Underline => true,
            TextDecoration::Plain => false,
        };
        self.style = CanvasTextStyle::new(props.color, props.weight, underline, props.italic);
        self.content = strip_ansi(props.content.as_str());
        self.wrap = props.wrap;
        self.align = props.align;
    }

    /// The lines drawn for a width, and the column they start at: the
    /// content wrapped to the width, then aligned.
    pub open spec fn drawn(&self, width: usize) -> (int, Seq<char>) {
        align_spec(wrap_spec(self.content_v(), self.wrap_v(), None, AvailableWidth::Definite(width)), self.align_v(), width as int)
    }

    /// The drawer that draws the text for a width: it starts at the
    /// alignment's column, and skips leading whitespace unless the text is
    /// aligned left.
    pub open spec fn start_view(&self, width: usize) -> DrawerView {
        DrawerView { x_offset: self.drawn(width).0, x: self.drawn(width).0, y: 0, seen: false, skip: self.align_v() != TextAlign::Left }
    }

    /// Whether the text can be drawn for a width: every wrapped line's width
    /// fits in an `isize`, the aligned text's length fits in a `usize`, and
    /// its lines can be appended to the region (see [`append_ok`]).
    pub open spec fn draw_ok(&self, sub: &CanvasSubviewMut, width: usize) -> bool {
        let wrapped = chars::lines_of(wrap_spec(self.content_v(), self.wrap_v(), None, AvailableWidth::Definite(width)));
        &&& forall|i: int| 0 <= i < wrapped.len() ==> unicode::str_width_of(#[trigger] wrapped[i]) <= isize::MAX
        &&& chars::utf8_len(self.drawn(width).1) <= usize::MAX
        &&& append_ok(sub, self.start_view(width), chars::lines_of(self.drawn(width).1))
    }

    /// Draws the text onto a region `width` columns wide: the content is
    /// wrapped to the width and aligned, and its lines are appended by a
    /// drawer that starts at the alignment's column (skipping leading
    /// whitespace unless aligned left). Where the positions involved do not
    /// fit the machine's integers ([`Self::draw_ok`] fails), nothing is drawn
    /// and `false` is returned.
    pub fn draw(&self, sub: &mut CanvasSubviewMut, width: usize) -> (r: bool)
        requires
            width <= isize::MAX,
            chars::utf8_len(self.content_v()) <= usize::MAX,
        ensures
            r == self.draw_ok(&*old(sub), width),
            r ==> (*final(sub).target()).rows() == old(sub).ops_effect(
                (*old(sub).target()).rows(),
                append_spec(self.start_view(width), chars::lines_of(self.drawn(width).1), self.style_v()).1,
            ),
            !r ==> (*final(sub).target()).rows() == (*old(sub).target()).rows(),
            final(sub).same_region(&*old(sub)),
            *final(final(sub).target()) == *final(old(sub).target()),
    {
        let content = wrap(self.content.as_str(), self.wrap, None, AvailableWidth::Definite(width));
        let ghost wrapped = chars::lines_of(content@);
        let cs = to_chars(content.as_str());
        let ls = lines(&cs);
        let mut i: usize = 0;
        while i < ls.len()
            invariant
                i <= ls@.len(),
                ls@.len() == wrapped.len(),
                wrapped == chars::lines_of(wrap_spec(self.content_v(), self.wrap_v(), None, AvailableWidth::Definite(width))),
                forall|k: int| 0 <= k < ls@.len() ==> #[trigger] ls@[k]@ == wrapped[k],
                forall|k: int| 0 <= k < i ==> unicode::str_width_of(#[trigger] wrapped[k]) <= isize::MAX,
            decreases ls@.len() - i,
        {
            let w = width_of_line(&ls[i]);
            if w > isize::MAX as usize {
                assert(unicode::str_width_of(wrapped[i as int]) > isize::MAX);
                return false;
            }
            i += 1;
        }
        let (x_offset, aligned) = align(content, self.align, width);
        let acs = to_chars(aligned.as_str());
        if chars::utf8_len_checked(&acs).is_none() {
            return false;
        }
        let skip = match self.align {
            TextAlign::Left => false,
            _ => true,
        };
        let mut drawer = TextDrawer::new(x_offset, skip);
        let ls = line_strings(&aligned);
        if !drawer.fits(&*sub, &ls) {
            return false;
        }
        drawer.append_lines(sub, &ls, self.style);
        true
    }
}

/// Two regions that are the same, their canvas's rows aside, take the same
/// lines.
pub proof fn lemma_same_region_append_ok(a: &CanvasSubviewMut, b: &CanvasSubviewMut, d: DrawerView, lines: Seq<Seq<char>>)
    requires
        a.same_region(b),
    ensures
        append_ok(a, d, lines) == append_ok(b, d, lines),
    decreases lines.len(),
{
    if lines.len() > 0 {
        let (d1, line) = skip_leading(d, lines[0]);
        canvas::lemma_same_region_layout(a, b, d1.x, d1.y);
        let d2 = if lines.len() > 1 {
            DrawerView { y: d1.y + 1, x: d1.x_offset, seen: false, ..d1 }
        } else {
            DrawerView { x: d1.x + unicode::str_width_of(line), ..d1 }
        };
        lemma_same_region_append_ok(a, b, d2, lines.drop_first());
    }
}

proof fn lemma_max_width_bounds(ls: Seq<Seq<char>>)
    ensures
        forall|i: int| 0 <= i < ls.len() ==> unicode::str_width_of(#[trigger] ls[i]) <= max_width(ls),
        ls.len() > 0 ==> exists|i: int| 0 <= i < ls.len() && max_width(ls) == unicode::str_width_of(#[trigger] ls[i]),
        ls.len() == 0 ==> max_width(ls) == 0,
    decreases ls.len(),
{
    if ls.len() > 0 {
        let d = ls.drop_last();
        lemma_max_width_bounds(d);
        assert forall|i: int| 0 <= i < ls.len() implies unicode::str_width_of(#[trigger] ls[i]) <= max_width(ls) by {
            if i < d.len() {
                assert(ls[i] == d[i]);
            }
        }
        if unicode::str_width_of(ls.last()) as nat > max_width(d) {
            assert(max_width(ls) == unicode::str_width_of(ls[ls.len() - 1]));
        } else if d.len() > 0 {
            let i = choose|i: int| 0 <= i < d.len() && max_width(d) == unicode::str_width_of(#[trigger] d[i]);
            assert(ls[i] == d[i]);
            assert(max_width(ls) == unicode::str_width_of(ls[i]));
        } else {
            assert(max_width(ls) == unicode::str_width_of(ls[0]));
        }
    }
}

/// The measured width is that of the widest line of the wrapped text: no
/// line is wider, and some line is exactly that wide (with no lines at all
/// it is 0). The measured height is the number of lines, at least one.
pub proof fn lemma_measure_is_widest_line(
    content: Seq<char>,
    text_wrap: TextWrap,
    known_width: Option<usize>,
    available: AvailableWidth,
)
    ensures
        ({
            let ls = chars::lines_of(wrap_spec(content, text_wrap, known_width, available));
            let m = measure_spec(content, text_wrap, known_width, available);
            &&& forall|i: int| 0 <= i < ls.len() ==> unicode::str_width_of(#[trigger] ls[i]) <= m.0
            &&& ls.len() > 0 ==> exists|i: int| 0 <= i < ls.len() && m.0 == unicode::str_width_of(#[trigger] ls[i])
            &&& ls.len() == 0 ==> m.0 == 0 && m.1 == 1
            &&& ls.len() > 0 ==> m.1 == ls.len()
        }),
{
    lemma_max_width_bounds(chars::lines_of(wrap_spec(content, text_wrap, known_width, available)));
}

/// The style text is drawn in keeps what its props ask for: their color,
/// weight and slant, and an underline exactly when the decoration is an
/// underline. So a [`Text`] updated with props draws in italics exactly when
/// the props say so.
pub proof fn lemma_text_style_keeps_props(color: Option<Color>, weight: Weight, decoration: TextDecoration, italic: bool)
    ensures
        text_style(color, weight, decoration, italic).italic == italic,
        text_style(color, weight, decoration, italic).color == color,
        text_style(color, weight, decoration, italic).weight == weight,
        text_style(color, weight, decoration, italic).underline <==> decoration == TextDecoration::Underline,
{
}

} // verus!
