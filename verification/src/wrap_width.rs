//! How wide wrapped lines are: without its trailing whitespace, every line
//! that wrapping makes takes at most the given number of columns, unless it
//! holds a single character that takes up columns.
use vstd::prelude::*;
use crate::chars;
use crate::linebreak::{self, BreakOpportunity};
use crate::segmented_string::{
    self, breaks_text, empty_line, force_split, piece_text, piece_valid, pieces_text, place_piece, place_pieces,
    position_valid, process_break, process_breaks, push_piece, segments_fit, sub_piece, trailing_ws_start, LineV,
    Piece, WrapState, lines_valid, line_valid,
};
use crate::unicode;

verus! {

/// The columns `t` takes: the sum of its characters' widths.
pub open spec fn cols(t: Seq<char>) -> nat
    decreases t.len(),
{
    if t.len() == 0 {
        0
    } else {
        cols(t.drop_last()) + unicode::char_cols(t.last())
    }
}

/// The number of characters of `t` that take up columns.
pub open spec fn wide_count(t: Seq<char>) -> nat
    decreases t.len(),
{
    if t.len() == 0 {
        0
    } else {
        wide_count(t.drop_last()) + if unicode::char_cols(t.last()) > 0 {
            1nat
        } else {
            0nat
        }
    }
}

/// `t` without the whitespace it ends with.
pub open spec fn trimmed(t: Seq<char>) -> Seq<char> {
    t.take(trailing_ws_start(t))
}

/// A line of text `t` fits `width`: without its trailing whitespace it takes
/// at most `width` columns, or it holds at most one character that takes up
/// columns (a character wider than the line stands on a line of its own).
pub open spec fn fits_width(t: Seq<char>, width: int) -> bool {
    cols(trimmed(t)) <= width || wide_count(trimmed(t)) <= 1
}

/// The widths `unicode_width` gives the parts of the segments are the sums
/// of the widths of their characters (as for text without sequences of
/// characters that display as one glyph, such as emoji joined by U+200D).
pub open spec fn widths_add_up(segs: Seq<Seq<char>>) -> bool {
    forall|k: int, a: int, b: int|
        0 <= k < segs.len() && 0 <= a <= b <= segs[k].len() ==> #[trigger] unicode::str_width_of(
            segs[k].subrange(a, b),
        ) == cols(segs[k].subrange(a, b))
}

/// Every line fits `width`.
pub open spec fn lines_fit(segs: Seq<Seq<char>>, ls: Seq<LineV>, width: int) -> bool {
    forall|i: int| 0 <= i < ls.len() ==> fits_width(pieces_text(segs, #[trigger] ls[i].0), width)
}

/// A line being built: its width is the columns of its text, and it fits.
pub open spec fn line_ok(segs: Seq<Seq<char>>, l: LineV, width: int) -> bool {
    &&& l.1 == cols(pieces_text(segs, l.0))
    &&& fits_width(pieces_text(segs, l.0), width)
}

/// A piece's width is the columns of its text.
pub open spec fn piece_ok(segs: Seq<Seq<char>>, p: Piece) -> bool {
    &&& piece_valid(segs, p)
    &&& p.width == cols(piece_text(segs, p))
}

proof fn lemma_cols_concat(a: Seq<char>, b: Seq<char>)
    ensures
        cols(a + b) == cols(a) + cols(b),
        wide_count(a + b) == wide_count(a) + wide_count(b),
    decreases b.len(),
{
    if b.len() == 0 {
        assert(a + b =~= a);
    } else {
        lemma_cols_concat(a, b.drop_last());
        assert((a + b).drop_last() =~= a + b.drop_last());
        assert((a + b).last() == b.last());
    }
}

proof fn lemma_cols_zero(t: Seq<char>)
    requires
        cols(t) == 0,
    ensures
        wide_count(t) == 0,
    decreases t.len(),
{
    if t.len() > 0 {
        lemma_cols_zero(t.drop_last());
    }
}

proof fn lemma_wide_count_le(t: Seq<char>)
    ensures
        wide_count(t) <= t.len(),
    decreases t.len(),
{
    if t.len() > 0 {
        lemma_wide_count_le(t.drop_last());
    }
}

/// Columns of neighbouring ranges add up.
proof fn lemma_cols_split(t: Seq<char>, i: int, j: int, k: int)
    requires
        0 <= i <= j <= k <= t.len(),
    ensures
        cols(t.subrange(i, k)) == cols(t.subrange(i, j)) + cols(t.subrange(j, k)),
{
    assert(t.subrange(i, k) =~= t.subrange(i, j) + t.subrange(j, k));
    lemma_cols_concat(t.subrange(i, j), t.subrange(j, k));
}

proof fn lemma_cols_one(t: Seq<char>, i: int)
    requires
        0 <= i < t.len(),
    ensures
        cols(t.subrange(i, i + 1)) == unicode::char_cols(t[i]),
{
    let s = t.subrange(i, i + 1);
    assert(s.drop_last() =~= Seq::<char>::empty());
    assert(s.last() == t[i]);
    assert(cols(Seq::<char>::empty()) == 0);
}

/// Where the trailing whitespace of a concatenation starts.
proof fn lemma_tws_concat(a: Seq<char>, b: Seq<char>)
    ensures
        trailing_ws_start(a + b) == (if trailing_ws_start(b) > 0 {
            a.len() + trailing_ws_start(b)
        } else {
            trailing_ws_start(a)
        }),
    decreases b.len(),
{
    if b.len() == 0 {
        assert(a + b =~= a);
    } else {
        assert((a + b).drop_last() =~= a + b.drop_last());
        assert((a + b).last() == b.last());
        if chars::is_whitespace(b.last()) {
            lemma_tws_concat(a, b.drop_last());
        }
    }
}

/// Appending text that is all whitespace leaves what is left after trimming.
proof fn lemma_trimmed_concat(a: Seq<char>, b: Seq<char>)
    ensures
        trailing_ws_start(b) > 0 ==> trimmed(a + b) == a + trimmed(b),
        trailing_ws_start(b) == 0 ==> trimmed(a + b) == trimmed(a),
{
    lemma_tws_concat(a, b);
    segmented_string::lemma_trailing_ws_start_le(a);
    segmented_string::lemma_trailing_ws_start_le(b);
    if trailing_ws_start(b) > 0 {
        assert(trimmed(a + b) =~= a + trimmed(b));
    } else {
        assert(trimmed(a + b) =~= trimmed(a));
    }
}

/// What follows the start of the trailing whitespace is all whitespace.
proof fn lemma_ws_tail(t: Seq<char>)
    ensures
        trailing_ws_start(t.subrange(trailing_ws_start(t), t.len() as int)) == 0,
    decreases t.len(),
{
    segmented_string::lemma_trailing_ws_start_le(t);
    if t.len() > 0 && chars::is_whitespace(t.last()) {
        let d = t.drop_last();
        lemma_ws_tail(d);
        segmented_string::lemma_trailing_ws_start_le(d);
        let x = d.subrange(trailing_ws_start(d), d.len() as int);
        assert(t.subrange(trailing_ws_start(t), t.len() as int) =~= x.push(t.last()));
        assert(x.push(t.last()).drop_last() =~= x);
    } else {
        assert(t.subrange(trailing_ws_start(t), t.len() as int) =~= Seq::<char>::empty());
    }
}

/// The saturating trailing-whitespace width is the columns of the trailing
/// whitespace, where those fit.
proof fn lemma_trailing_cols(t: Seq<char>)
    requires
        cols(t) <= usize::MAX,
    ensures
        segmented_string::trailing_ws_cols(t) == cols(t.subrange(trailing_ws_start(t), t.len() as int)),
    decreases t.len(),
{
    segmented_string::lemma_trailing_ws_start_le(t);
    if t.len() > 0 && chars::is_whitespace(t.last()) {
        let d = t.drop_last();
        assert(t =~= d + seq![t.last()]);
        lemma_cols_concat(d, seq![t.last()]);
        assert(seq![t.last()].drop_last() =~= Seq::<char>::empty());
        segmented_string::lemma_trailing_ws_start_le(d);
        lemma_cols_split(d, 0, trailing_ws_start(d), d.len() as int);
        assert(d.subrange(0, d.len() as int) =~= d);
        lemma_trailing_cols(d);
        let x = d.subrange(trailing_ws_start(d), d.len() as int);
        assert(t.subrange(trailing_ws_start(t), t.len() as int) =~= x.push(t.last()));
        assert(x.push(t.last()).drop_last() =~= x);
    } else {
        assert(t.subrange(trailing_ws_start(t), t.len() as int) =~= Seq::<char>::empty());
    }
}

/// The saturating sum of the pieces' widths is the columns of their text,
/// where those fit.
proof fn lemma_sum_widths(segs: Seq<Seq<char>>, ps: Seq<Piece>)
    requires
        forall|j: int| 0 <= j < ps.len() ==> piece_ok(segs, #[trigger] ps[j]),
        cols(pieces_text(segs, ps)) <= usize::MAX,
    ensures
        segmented_string::sum_widths(ps) == cols(pieces_text(segs, ps)),
    decreases ps.len(),
{
    if ps.len() > 0 {
        let d = ps.drop_last();
        lemma_cols_concat(pieces_text(segs, d), piece_text(segs, ps.last()));
        assert(piece_ok(segs, ps[ps.len() - 1]));
        assert forall|j: int| 0 <= j < d.len() implies piece_ok(segs, #[trigger] d[j]) by {
            assert(d[j] == ps[j]);
        }
        lemma_sum_widths(segs, d);
    }
}

/// A piece of a piece has the columns of its text as its width.
proof fn lemma_sub_piece_ok(segs: Seq<Seq<char>>, p: Piece, s: int, e: int)
    requires
        widths_add_up(segs),
        piece_valid(segs, p),
        0 <= s <= e <= p.end - p.start,
    ensures
        piece_ok(segs, sub_piece(segs, p, s, e)),
        piece_text(segs, sub_piece(segs, p, s, e)) == piece_text(segs, p).subrange(s, e),
{
    segmented_string::lemma_sub_piece_text(segs, p, s, e);
    let src = segs[p.index as int];
    assert(piece_text(segs, p).subrange(s, e) =~= src.subrange(p.start + s, p.start + e));
    assert(unicode::str_width_of(src.subrange(p.start + s, p.start + e)) == cols(src.subrange(p.start + s, p.start + e)));
}

proof fn lemma_lines_valid_push(segs: Seq<Seq<char>>, ls: Seq<LineV>, l: LineV)
    requires
        lines_valid(segs, ls),
        line_valid(segs, l),
    ensures
        lines_valid(segs, ls.push(l)),
{
    assert forall|i: int, j: int| 0 <= i < ls.push(l).len() && 0 <= j < ls.push(l)[i].0.len() implies piece_valid(
        segs,
        #[trigger] ls.push(l)[i].0[j],
    ) by {
        if i < ls.len() {
            assert(ls.push(l)[i] == ls[i]);
        }
    }
}

proof fn lemma_line_valid_push(segs: Seq<Seq<char>>, l: LineV, p: Piece)
    requires
        line_valid(segs, l),
        piece_valid(segs, p),
    ensures
        line_valid(segs, push_piece(l, p)),
{
    assert forall|j: int| 0 <= j < push_piece(l, p).0.len() implies piece_valid(segs, #[trigger] push_piece(l, p).0[j]) by {
        if j < l.0.len() {
            assert(push_piece(l, p).0[j] == l.0[j]);
        }
    }
}

/// Breaking a piece up keeps every line within the width: the text of the
/// current line followed by the piece's characters since the last break is
/// `L`; it fits, and `w` is its columns.
proof fn lemma_force_split_fits(
    segs: Seq<Seq<char>>,
    p: Piece,
    idx: int,
    twi: int,
    width: int,
    lines: Seq<LineV>,
    cur: LineV,
    w: int,
    start: int,
    base: int,
)
    requires
        widths_add_up(segs),
        piece_valid(segs, p),
        0 <= start <= idx <= twi <= p.end - p.start,
        lines_fit(segs, lines, width),
        lines_valid(segs, lines),
        line_valid(segs, cur),
        cur.1 == cols(pieces_text(segs, cur.0)),
        w == cols(pieces_text(segs, cur.0) + piece_text(segs, p).subrange(start, idx)),
        fits_width(pieces_text(segs, cur.0) + piece_text(segs, p).subrange(start, idx), width),
        cols(pieces_text(segs, cur.0) + piece_text(segs, p).subrange(start, idx)) + cols(
            piece_text(segs, p).subrange(idx, p.end - p.start),
        ) <= base,
    ensures
        ({
            let f = force_split(segs, p, idx, twi, width, lines, cur, w, start);
            let text = piece_text(segs, p);
            let l = pieces_text(segs, f.1.0) + text.subrange(f.2, twi);
            &&& lines_fit(segs, f.0, width)
            &&& lines_valid(segs, f.0)
            &&& line_valid(segs, f.1)
            &&& f.1.1 == cols(pieces_text(segs, f.1.0))
            &&& fits_width(l, width)
            &&& cols(l) + cols(text.subrange(twi, text.len() as int)) <= base
            &&& start <= f.2 <= twi
        }),
    decreases twi - idx,
{
    let text = piece_text(segs, p);
    let n = text.len() as int;
    let l = pieces_text(segs, cur.0) + text.subrange(start, idx);
    if idx < twi {
        let c = text[idx];
        let cw = unicode::char_cols(c) as int;
        lemma_cols_split(text, idx, idx + 1, n);
        lemma_cols_one(text, idx);
        if w > 0 && w + cw > width {
            let sp = sub_piece(segs, p, start, idx);
            let done = if idx > start {
                push_piece(cur, sp)
            } else {
                cur
            };
            segmented_string::lemma_sub_piece_text(segs, p, start, idx);
            segmented_string::lemma_pieces_text_push(segs, cur.0, sp);
            assert(pieces_text(segs, done.0) =~= l);
            assert(piece_valid(segs, sp));
            lemma_line_valid_push(segs, cur, sp);
            lemma_lines_valid_push(segs, lines, done);
            assert forall|i: int| 0 <= i < lines.push(done).len() implies fits_width(
                pieces_text(segs, #[trigger] lines.push(done)[i].0),
                width,
            ) by {
                if i < lines.len() {
                    assert(lines.push(done)[i] == lines[i]);
                }
            }
            let e = empty_line();
            assert(pieces_text(segs, e.0) =~= Seq::<char>::empty());
            let l2 = pieces_text(segs, e.0) + text.subrange(idx, idx + 1);
            assert(l2 =~= text.subrange(idx, idx + 1));
            lemma_wide_count_le(trimmed(l2));
            segmented_string::lemma_trailing_ws_start_le(l2);
            lemma_force_split_fits(segs, p, idx + 1, twi, width, lines.push(done), e, cw, idx, base);
        } else {
            let l2 = pieces_text(segs, cur.0) + text.subrange(start, idx + 1);
            assert(l2 =~= l.push(c));
            assert(l.push(c) =~= l + seq![c]);
            lemma_cols_concat(l, seq![c]);
            assert(seq![c].drop_last() =~= Seq::<char>::empty());
            assert(seq![c].last() == c);
            assert(cols(Seq::<char>::empty()) == 0);
            assert(cols(seq![c]) == unicode::char_cols(c));
            assert(cols(l2) == w + cw);
            if chars::is_whitespace(c) {
                assert(l.push(c).drop_last() =~= l);
                assert(l.push(c).last() == c);
                assert(trailing_ws_start(l2) == trailing_ws_start(l));
                segmented_string::lemma_trailing_ws_start_le(l);
                assert(trimmed(l2) =~= trimmed(l));
                assert(fits_width(l2, width));
            } else {
                assert(trailing_ws_start(l.push(c)) == l.len() + 1);
                assert(trimmed(l2) =~= l2);
                assert(wide_count(Seq::<char>::empty()) == 0);
                assert(wide_count(seq![c]) <= 1);
                if w == 0 {
                    lemma_cols_zero(l);
                    assert(wide_count(l2) <= 1);
                }
                assert(fits_width(l2, width));
            }
            lemma_force_split_fits(segs, p, idx + 1, twi, width, lines, cur, w + cw, start, base);
        }
    } else {
        lemma_cols_split(text, idx, twi, n);
    }
}

/// Placing a piece keeps every line, and the current line, within the width.
proof fn lemma_place_piece_fits(segs: Seq<Seq<char>>, width: int, lines: Seq<LineV>, cur: LineV, p: Piece)
    requires
        widths_add_up(segs),
        piece_ok(segs, p),
        lines_fit(segs, lines, width),
        line_ok(segs, cur, width),
        lines_valid(segs, lines),
        line_valid(segs, cur),
        cols(pieces_text(segs, cur.0)) + cols(piece_text(segs, p)) <= usize::MAX,
    ensures
        ({
            let r = place_piece(segs, width, lines, cur, p);
            &&& lines_fit(segs, r.0, width)
            &&& lines_valid(segs, r.0)
            &&& line_valid(segs, r.1)
            &&& line_ok(segs, r.1, width)
            &&& cols(pieces_text(segs, r.1.0)) <= cols(pieces_text(segs, cur.0)) + cols(piece_text(segs, p))
        }),
{
    let text = piece_text(segs, p);
    let n = text.len() as int;
    let twi = trailing_ws_start(text);
    segmented_string::lemma_trailing_ws_start_le(text);
    let src = segs[p.index as int];
    assert(text.subrange(twi, n) =~= src.subrange(p.start + twi, p.end as int));
    let tww = unicode::str_width_of(text.subrange(twi, n));
    assert(tww == cols(text.subrange(twi, n)));
    lemma_cols_split(text, 0, twi, n);
    assert(text.subrange(0, n) =~= text);
    assert(text.subrange(0, twi) =~= trimmed(text));
    let tc = pieces_text(segs, cur.0);
    let r = place_piece(segs, width, lines, cur, p);
    if cur.1 + segmented_string::sat_sub(p.width as int, tww as int) > width {
        let f = force_split(segs, p, 0, twi, width, lines, cur, cur.1 as int, 0);
        assert(text.subrange(0, 0) =~= Seq::<char>::empty());
        assert(tc + text.subrange(0, 0) =~= tc);
        lemma_force_split_fits(segs, p, 0, twi, width, lines, cur, cur.1 as int, 0, (cols(tc) + cols(text)) as int);
        let l = pieces_text(segs, f.1.0) + text.subrange(f.2, twi);
        lemma_ws_tail(text);
        lemma_trimmed_concat(l, text.subrange(twi, n));
        assert(l + text.subrange(twi, n) =~= pieces_text(segs, f.1.0) + text.subrange(f.2, n));
        lemma_cols_concat(l, text.subrange(twi, n));
        lemma_cols_concat(pieces_text(segs, f.1.0), text.subrange(f.2, twi));
        lemma_cols_split(text, f.2, twi, n);
        if f.2 < n {
            let sp = sub_piece(segs, p, f.2, n);
            lemma_sub_piece_ok(segs, p, f.2, n);
            lemma_line_valid_push(segs, f.1, sp);
            segmented_string::lemma_pieces_text_push(segs, f.1.0, sp);
            assert(pieces_text(segs, r.1.0) == pieces_text(segs, f.1.0) + text.subrange(f.2, n));
        } else {
            assert(text.subrange(f.2, n) =~= Seq::<char>::empty());
            assert(text.subrange(f.2, twi) =~= Seq::<char>::empty());
            assert(pieces_text(segs, f.1.0) + Seq::<char>::empty() =~= pieces_text(segs, f.1.0));
        }
    } else {
        lemma_line_valid_push(segs, cur, p);
        segmented_string::lemma_pieces_text_push(segs, cur.0, p);
        lemma_cols_concat(tc, text);
        lemma_trimmed_concat(tc, text);
        if twi > 0 {
            lemma_cols_concat(tc, trimmed(text));
        }
    }
}

/// Placing pieces keeps every line, and the current line, within the width.
proof fn lemma_place_pieces_fits(segs: Seq<Seq<char>>, width: int, lines: Seq<LineV>, cur: LineV, ps: Seq<Piece>)
    requires
        widths_add_up(segs),
        forall|j: int| 0 <= j < ps.len() ==> piece_ok(segs, #[trigger] ps[j]),
        lines_fit(segs, lines, width),
        line_ok(segs, cur, width),
        lines_valid(segs, lines),
        line_valid(segs, cur),
        cols(pieces_text(segs, cur.0)) + cols(pieces_text(segs, ps)) <= usize::MAX,
    ensures
        ({
            let r = place_pieces(segs, width, lines, cur, ps);
            &&& lines_fit(segs, r.0, width)
            &&& lines_valid(segs, r.0)
            &&& line_valid(segs, r.1)
            &&& line_ok(segs, r.1, width)
            &&& cols(pieces_text(segs, r.1.0)) <= cols(pieces_text(segs, cur.0)) + cols(pieces_text(segs, ps))
        }),
    decreases ps.len(),
{
    if ps.len() > 0 {
        let rest = ps.drop_first();
        assert(ps =~= seq![ps[0]] + rest);
        segmented_string::lemma_pieces_text_concat(segs, seq![ps[0]], rest);
        assert(seq![ps[0]] =~= Seq::<Piece>::empty().push(ps[0]));
        segmented_string::lemma_pieces_text_push(segs, Seq::empty(), ps[0]);
        assert(pieces_text(segs, Seq::<Piece>::empty()) =~= Seq::<char>::empty());
        assert(pieces_text(segs, seq![ps[0]]) =~= piece_text(segs, ps[0]));
        lemma_cols_concat(piece_text(segs, ps[0]), pieces_text(segs, rest));
        assert(piece_ok(segs, ps[0]));
        let r = place_piece(segs, width, lines, cur, ps[0]);
        lemma_place_piece_fits(segs, width, lines, cur, ps[0]);
        assert forall|j: int| 0 <= j < rest.len() implies piece_ok(segs, #[trigger] rest[j]) by {
            assert(rest[j] == ps[j + 1]);
        }
        lemma_place_pieces_fits(segs, width, r.0, r.1, rest);
    }
}

/// One break opportunity keeps every line, and the current line, within
/// the width.
proof fn lemma_process_break_fits(segs: Seq<Seq<char>>, width: int, st: WrapState, b: (int, int, BreakOpportunity))
    requires
        widths_add_up(segs),
        segments_fit(segs),
        position_valid(segs, st.seg, st.chr),
        position_valid(segs, b.0, b.1),
        lines_fit(segs, st.lines, width),
        line_ok(segs, st.cur, width),
        lines_valid(segs, st.lines),
        line_valid(segs, st.cur),
        cols(pieces_text(segs, st.cur.0)) + cols(
            pieces_text(segs, segmented_string::collect_pieces(segs, st.seg, st.chr, b.0, b.1).0),
        ) <= usize::MAX,
    ensures
        ({
            let r = process_break(segs, width, st, b);
            let c = segmented_string::collect_pieces(segs, st.seg, st.chr, b.0, b.1);
            &&& lines_fit(segs, r.lines, width)
            &&& lines_valid(segs, r.lines)
            &&& line_valid(segs, r.cur)
            &&& line_ok(segs, r.cur, width)
            &&& cols(pieces_text(segs, r.cur.0)) <= cols(pieces_text(segs, st.cur.0)) + cols(pieces_text(segs, c.0))
            &&& r.seg == c.1
            &&& r.chr == c.2
        }),
{
    let c = segmented_string::collect_pieces(segs, st.seg, st.chr, b.0, b.1);
    let ps = c.0;
    segmented_string::lemma_collect_valid(segs, st.seg, st.chr, b.0, b.1);
    assert forall|j: int| 0 <= j < ps.len() implies piece_ok(segs, #[trigger] ps[j]) by {
        let q = ps[j];
        assert(piece_valid(segs, q));
        assert(q.width == unicode::str_width_of(piece_text(segs, q)));
        assert(unicode::str_width_of(segs[q.index as int].subrange(q.start as int, q.end as int)) == cols(
            segs[q.index as int].subrange(q.start as int, q.end as int),
        ));
    }
    let t = pieces_text(segs, ps);
    let tc = pieces_text(segs, st.cur.0);
    lemma_sum_widths(segs, ps);
    let nlw = segmented_string::sum_widths(ps);
    segmented_string::lemma_trailing_ws_start_le(t);
    let twi = trailing_ws_start(t);
    lemma_cols_split(t, 0, twi, t.len() as int);
    assert(t.subrange(0, t.len() as int) =~= t);
    assert(t.subrange(0, twi) =~= trimmed(t));
    lemma_trailing_cols(t);
    let tw = segmented_string::trailing_ws_cols(t);
    let e = empty_line();
    assert(pieces_text(segs, e.0) =~= Seq::<char>::empty());
    assert(line_ok(segs, e, width)) by {
        assert(trimmed(Seq::<char>::empty()) =~= Seq::<char>::empty());
    }
    let placed = if st.cur.1 + segmented_string::sat_sub(nlw as int, tw as int) <= width {
        (st.lines, (st.cur.0 + ps, segmented_string::sat_add(st.cur.1 as int, nlw as int)))
    } else {
        let (l0, c0) = if st.cur.1 > 0 {
            (st.lines.push(st.cur), empty_line())
        } else {
            (st.lines, st.cur)
        };
        place_pieces(segs, width, l0, c0, ps)
    };
    if st.cur.1 + segmented_string::sat_sub(nlw as int, tw as int) <= width {
        segmented_string::lemma_pieces_text_concat(segs, st.cur.0, ps);
        lemma_cols_concat(tc, t);
        lemma_trimmed_concat(tc, t);
        if twi > 0 {
            lemma_cols_concat(tc, trimmed(t));
        }
        assert(line_ok(segs, placed.1, width));
        assert forall|j: int| 0 <= j < placed.1.0.len() implies piece_valid(segs, #[trigger] placed.1.0[j]) by {
            if j >= st.cur.0.len() {
                assert(placed.1.0[j] == ps[j - st.cur.0.len()]);
            }
        }
    } else {
        if st.cur.1 > 0 {
            assert forall|i: int| 0 <= i < st.lines.push(st.cur).len() implies fits_width(
                pieces_text(segs, #[trigger] st.lines.push(st.cur)[i].0),
                width,
            ) by {
                if i < st.lines.len() {
                    assert(st.lines.push(st.cur)[i] == st.lines[i]);
                }
            }
            lemma_lines_valid_push(segs, st.lines, st.cur);
            lemma_place_pieces_fits(segs, width, st.lines.push(st.cur), e, ps);
        } else {
            lemma_place_pieces_fits(segs, width, st.lines, st.cur, ps);
        }
    }
    if b.2 == BreakOpportunity::Mandatory {
        lemma_lines_valid_push(segs, placed.0, placed.1);
        assert forall|i: int| 0 <= i < placed.0.push(placed.1).len() implies fits_width(
            pieces_text(segs, #[trigger] placed.0.push(placed.1)[i].0),
            width,
        ) by {
            if i < placed.0.len() {
                assert(placed.0.push(placed.1)[i] == placed.0[i]);
            }
        }
    }
}

/// Wrapping keeps every line within the width: where the widths of the
/// segments' parts add up and the text between the break opportunities
/// takes at most `usize::MAX` columns, every line [`process_breaks`] ends,
/// and the line it is building, takes at most `width` columns without its
/// trailing whitespace, or holds a single character that takes up columns.
pub proof fn lemma_process_breaks_fit(
    segs: Seq<Seq<char>>,
    width: int,
    st: WrapState,
    bs: Seq<(int, int, BreakOpportunity)>,
)
    requires
        widths_add_up(segs),
        segments_fit(segs),
        position_valid(segs, st.seg, st.chr),
        forall|k: int| 0 <= k < bs.len() ==> position_valid(segs, #[trigger] bs[k].0, bs[k].1),
        lines_fit(segs, st.lines, width),
        line_ok(segs, st.cur, width),
        lines_valid(segs, st.lines),
        line_valid(segs, st.cur),
        cols(pieces_text(segs, st.cur.0)) + cols(breaks_text(segs, st.seg, st.chr, bs)) <= usize::MAX,
    ensures
        ({
            let r = process_breaks(segs, width, st, bs);
            &&& lines_fit(segs, r.lines, width)
            &&& lines_valid(segs, r.lines)
            &&& line_valid(segs, r.cur)
            &&& line_ok(segs, r.cur, width)
        }),
    decreases bs.len(),
{
    if bs.len() > 0 {
        let c = segmented_string::collect_pieces(segs, st.seg, st.chr, bs[0].0, bs[0].1);
        let rest = bs.drop_first();
        lemma_cols_concat(pieces_text(segs, c.0), breaks_text(segs, c.1, c.2, rest));
        assert(position_valid(segs, bs[0].0, bs[0].1));
        lemma_process_break_fits(segs, width, st, bs[0]);
        segmented_string::lemma_collect_valid(segs, st.seg, st.chr, bs[0].0, bs[0].1);
        let st1 = process_break(segs, width, st, bs[0]);
        assert forall|k: int| 0 <= k < rest.len() implies position_valid(segs, #[trigger] rest[k].0, rest[k].1) by {
            assert(rest[k] == bs[k + 1]);
        }
        lemma_process_breaks_fit(segs, width, st1, rest);
    }
}

proof fn lemma_locate_valid(segs: Seq<Seq<char>>, k: int, start: int, g: int)
    requires
        segs.len() > 0,
        0 <= k <= segs.len(),
        start <= g,
    ensures
        ({
            let r = linebreak::locate_from(segs, k, start, g);
            position_valid(segs, r.0, r.1)
        }),
    decreases segs.len() - k,
{
    if k < segs.len() && g >= start + segs[k].len() {
        lemma_locate_valid(segs, k + 1, start + segs[k].len(), g);
    }
}

/// Wrapping keeps every line within the width: where the widths
/// `unicode_width` gives the parts of the segments are the sums of their
/// characters' widths, and the wrapped text takes at most `usize::MAX`
/// columns, every line of [`segmented_string::wrap_lines`] takes at most
/// `width` columns without its trailing whitespace, or holds a single
/// character that takes up columns.
pub proof fn lemma_wrapped_lines_fit(segs: Seq<Seq<char>>, width: int)
    requires
        segments_fit(segs),
        widths_add_up(segs),
        cols(breaks_text(segs, 0, 0, linebreak::segment_breaks(segs))) <= usize::MAX,
    ensures
        forall|i: int|
            0 <= i < segmented_string::wrap_lines(segs, width).len() ==> fits_width(
                pieces_text(segs, #[trigger] segmented_string::wrap_lines(segs, width)[i].0),
                width,
            ),
{
    if segs.len() > 0 {
        let bs = linebreak::segment_breaks(segs);
        assert forall|k: int| 0 <= k < bs.len() implies position_valid(segs, #[trigger] bs[k].0, bs[k].1) by {
            let all = linebreak::concat(segs);
            let b = linebreak::linebreaks_of(all)[k];
            lemma_locate_valid(segs, 0, 0, linebreak::char_index_of_byte(all, b.0 as int) as int);
        }
        let init = WrapState { lines: Seq::empty(), cur: empty_line(), seg: 0, chr: 0 };
        assert(pieces_text(segs, init.cur.0) =~= Seq::<char>::empty());
        assert(trimmed(Seq::<char>::empty()) =~= Seq::<char>::empty());
        assert(cols(Seq::<char>::empty()) == 0);
        lemma_process_breaks_fit(segs, width, init, bs);
        let st = process_breaks(segs, width, init, bs);
        let last = segs.last();
        let fin = if last.len() > 0 && last.last() == '\n' {
            st.lines.push(
                push_piece(st.cur, segmented_string::new_piece(segs, segs.len() - 1, last.len() as int, last.len() as int)),
            )
        } else {
            st.lines
        };
        if last.len() > 0 && last.last() == '\n' {
            let np = segmented_string::new_piece(segs, segs.len() - 1, last.len() as int, last.len() as int);
            let l = push_piece(st.cur, np);
            assert(segs[segs.len() - 1].len() <= usize::MAX);
            assert(piece_text(segs, np) =~= Seq::<char>::empty());
            assert(piece_valid(segs, np));
            segmented_string::lemma_pieces_text_push(segs, st.cur.0, np);
            assert(pieces_text(segs, l.0) =~= pieces_text(segs, st.cur.0));
            lemma_line_valid_push(segs, st.cur, np);
            lemma_lines_valid_push(segs, st.lines, l);
            assert forall|i: int| 0 <= i < fin.len() implies fits_width(pieces_text(segs, #[trigger] fin[i].0), width) by {
                if i < st.lines.len() {
                    assert(fin[i] == st.lines[i]);
                }
            }
        }
        let w = segmented_string::wrap_lines(segs, width);
        assert(w == fin.map_values(|l: LineV| (segmented_string::merge_pieces(l.0), l.1)));
        assert forall|i: int| 0 <= i < w.len() implies fits_width(pieces_text(segs, #[trigger] w[i].0), width) by {
            assert forall|j: int| 0 <= j < fin[i].0.len() implies piece_valid(segs, #[trigger] fin[i].0[j]) by {}
            segmented_string::lemma_merge_keeps_text(segs, fin[i].0);
        }
    }
}

} // verus!
