//! Strings made of several segments, and wrapping them into lines of a given
//! width while keeping track of where each part of a line came from.
use vstd::prelude::*;
use crate::chars::{char_is_whitespace, string_of, subrange_vec, utf8_prefix_len};
use crate::unicode::{char_cols_of, str_width};
use crate::linebreak::{char_breaks, BreakOpportunity};
use crate::{chars, linebreak, unicode, wrap_width};

verus! {

/// A `SegmentedString` is a string consisting of multiple segments, which
/// don't have to be contiguous.
///
/// This is primarily used for wrapping text as the result will include
/// information sufficient to map output regions to input data.
#[derive(Debug, Clone)]
pub struct SegmentedString<'a> {
    segments: Vec<&'a str>,
}

/// A `SegmentedStringLine` is a line of text after wrapping.
#[derive(Debug, Clone, PartialEq, Eq)]
pub struct SegmentedStringLine {
    /// The parts of the line, in order.
    pub segments: Vec<SegmentedStringLineSegment>,
    /// The display width of the line.
    pub width: usize,
}

/// A `SegmentedStringLineSegment` is a segment making up part of a
/// `SegmentedStringLine`, along with information about where it came from.
#[derive(Debug, Clone, PartialEq, Eq)]
pub struct SegmentedStringLineSegment {
    /// The text of this part of the line.
    pub text: String,
    /// The index of the input segment the text comes from.
    pub index: usize,
    /// The byte offset in that input segment where the text starts.
    pub offset: usize,
    /// The display width of the text.
    pub width: usize,
}

/// A part of a line during wrapping: the characters `start..end` of input
/// segment `index`, and the width they are counted with.
#[derive(Clone, Copy, Debug, PartialEq, Eq, Structural)]
pub struct Piece {
    /// The input segment.
    pub index: usize,
    /// The first character, counted within the input segment.
    pub start: usize,
    /// The character after the last one.
    pub end: usize,
    /// The width the piece is counted with.
    pub width: usize,
}

/// `a + b`, or `usize::MAX` where that does not fit.
pub open spec fn sat_add(a: int, b: int) -> usize {
    if a + b > usize::MAX {
        usize::MAX
    } else if a + b < 0 {
        0
    } else {
        (a + b) as usize
    }
}

/// `a - b`, or 0 where that is negative.
pub open spec fn sat_sub(a: int, b: int) -> int {
    if a >= b {
        a - b
    } else {
        0
    }
}

/// The characters a piece stands for.
pub open spec fn piece_text(segs: Seq<Seq<char>>, p: Piece) -> Seq<char> {
    segs[p.index as int].subrange(p.start as int, p.end as int)
}

/// A piece refers to characters that exist.
pub open spec fn piece_valid(segs: Seq<Seq<char>>, p: Piece) -> bool {
    p.index < segs.len() && p.start <= p.end <= segs[p.index as int].len()
}

/// `end`, moved back over the newlines that end `src[start..end]`.
pub open spec fn trim_newlines(src: Seq<char>, start: int, end: int) -> int
    decreases end - start,
{
    if end > start && src[end - 1] == '\n' {
        trim_newlines(src, start, end - 1)
    } else {
        end
    }
}

/// The piece for characters `start..end` of segment `index`, without the
/// newlines it ends with.
pub open spec fn new_piece(segs: Seq<Seq<char>>, index: int, start: int, end: int) -> Piece {
    let e = trim_newlines(segs[index], start, end);
    Piece {
        index: index as usize,
        start: start as usize,
        end: e as usize,
        width: unicode::str_width_of(segs[index].subrange(start, e)),
    }
}

/// The pieces from position (`seg`, `chr`) up to the break at (`si`, `ci`),
/// one per segment touched, and the position after them.
pub open spec fn collect_pieces(segs: Seq<Seq<char>>, seg: int, chr: int, si: int, ci: int) -> (
    Seq<Piece>,
    int,
    int,
)
    decreases si - seg,
{
    if seg < si {
        let p = new_piece(segs, seg, chr, segs[seg].len() as int);
        let r = collect_pieces(segs, seg + 1, 0, si, ci);
        (seq![p] + r.0, r.1, r.2)
    } else if seg == si && chr < ci {
        (seq![new_piece(segs, seg, chr, ci)], seg, ci)
    } else {
        (Seq::empty(), seg, chr)
    }
}

/// The total width of pieces, saturating at `usize::MAX`.
pub open spec fn sum_widths(ps: Seq<Piece>) -> usize
    decreases ps.len(),
{
    if ps.len() == 0 {
        0
    } else {
        sat_add(sum_widths(ps.drop_last()) as int, ps.last().width as int)
    }
}

/// The characters of pieces, one after the other.
pub open spec fn pieces_text(segs: Seq<Seq<char>>, ps: Seq<Piece>) -> Seq<char>
    decreases ps.len(),
{
    if ps.len() == 0 {
        Seq::empty()
    } else {
        pieces_text(segs, ps.drop_last()) + piece_text(segs, ps.last())
    }
}

/// The total width of the whitespace that ends `t`, saturating.
pub open spec fn trailing_ws_cols(t: Seq<char>) -> usize
    decreases t.len(),
{
    if t.len() > 0 && chars::is_whitespace(t.last()) {
        sat_add(trailing_ws_cols(t.drop_last()) as int, unicode::char_cols(t.last()) as int)
    } else {
        0
    }
}

/// Where the whitespace that ends `t` starts.
pub open spec fn trailing_ws_start(t: Seq<char>) -> int
    decreases t.len(),
{
    if t.len() > 0 && chars::is_whitespace(t.last()) {
        trailing_ws_start(t.drop_last())
    } else {
        t.len() as int
    }
}

/// A line being built: its pieces and its width.
pub type LineV = (Seq<Piece>, usize);

/// A line with no pieces.
pub open spec fn empty_line() -> LineV {
    (Seq::empty(), 0)
}

/// `line` with `p` added at its end.
pub open spec fn push_piece(line: LineV, p: Piece) -> LineV {
    (line.0.push(p), sat_add(line.1 as int, p.width as int))
}

/// Characters `s..e` of piece `p`, as a piece of their own.
pub open spec fn sub_piece(segs: Seq<Seq<char>>, p: Piece, s: int, e: int) -> Piece {
    Piece {
        index: p.index,
        start: (p.start + s) as usize,
        end: (p.start + e) as usize,
        width: unicode::str_width_of(piece_text(segs, p).subrange(s, e)),
    }
}

/// Breaks piece `p`, too wide for a line, between characters: from
/// character `idx` on, up to the trailing whitespace at `twi`; `w` is the
/// width of the current line with the characters since the last break,
/// which was before character `start` (at first, the width already on the
/// current line). A break comes before a character that would make the
/// width exceed `width`, unless nothing takes up columns before it on the
/// line. Returns the lines, the current line, and where the last part
/// starts.
pub open spec fn force_split(
    segs: Seq<Seq<char>>,
    p: Piece,
    idx: int,
    twi: int,
    width: int,
    lines: Seq<LineV>,
    cur: LineV,
    w: int,
    start: int,
) -> (Seq<LineV>, LineV, int)
    decreases twi - idx,
{
    if idx >= twi {
        (lines, cur, start)
    } else {
        let cw = unicode::char_cols(piece_text(segs, p)[idx]) as int;
        if w > 0 && w + cw > width {
            let done = if idx > start {
                push_piece(cur, sub_piece(segs, p, start, idx))
            } else {
                cur
            };
            force_split(
                segs,
                p,
                idx + 1,
                twi,
                width,
                lines.push(done),
                empty_line(),
                cw,
                idx,
            )
        } else {
            force_split(segs, p, idx + 1, twi, width, lines, cur, w + cw, start)
        }
    }
}

/// Adds one piece after the line it belongs to did not fit: the piece goes
/// on the current line if it fits there (its trailing whitespace aside),
/// and is broken up otherwise.
pub open spec fn place_piece(segs: Seq<Seq<char>>, width: int, lines: Seq<LineV>, cur: LineV, p: Piece) -> (
    Seq<LineV>,
    LineV,
) {
    let text = piece_text(segs, p);
    let twi = trailing_ws_start(text);
    let tww = unicode::str_width_of(text.subrange(twi, text.len() as int));
    if cur.1 + sat_sub(p.width as int, tww as int) > width {
        let f = force_split(segs, p, 0, twi, width, lines, cur, cur.1 as int, 0);
        if f.2 < text.len() {
            (f.0, push_piece(f.1, sub_piece(segs, p, f.2, text.len() as int)))
        } else {
            (f.0, f.1)
        }
    } else {
        (lines, push_piece(cur, p))
    }
}

/// Adds pieces one by one with [`place_piece`].
pub open spec fn place_pieces(segs: Seq<Seq<char>>, width: int, lines: Seq<LineV>, cur: LineV, ps: Seq<Piece>) -> (
    Seq<LineV>,
    LineV,
)
    decreases ps.len(),
{
    if ps.len() == 0 {
        (lines, cur)
    } else {
        let r = place_piece(segs, width, lines, cur, ps[0]);
        place_pieces(segs, width, r.0, r.1, ps.drop_first())
    }
}

/// The state of wrapping: the finished lines, the current line, and the
/// position up to which the input has been taken.
pub struct WrapState {
    /// The finished lines.
    pub lines: Seq<LineV>,
    /// The line being built.
    pub cur: LineV,
    /// The segment of the position.
    pub seg: int,
    /// The character of the position within its segment.
    pub chr: int,
}

/// Takes the input up to the next break opportunity. If it fits on the
/// current line, its trailing whitespace aside, it is added there;
/// otherwise the current line ends (unless it is empty) and the pieces are
/// placed one by one. A mandatory break ends the line.
pub open spec fn process_break(segs: Seq<Seq<char>>, width: int, st: WrapState, b: (int, int, BreakOpportunity)) -> WrapState {
    let c = collect_pieces(segs, st.seg, st.chr, b.0, b.1);
    let ps = c.0;
    let nlw = sum_widths(ps);
    let tw = trailing_ws_cols(pieces_text(segs, ps));
    let placed = if st.cur.1 + sat_sub(nlw as int, tw as int) <= width {
        (st.lines, (st.cur.0 + ps, sat_add(st.cur.1 as int, nlw as int)))
    } else {
        let (l0, c0) = if st.cur.1 > 0 {
            (st.lines.push(st.cur), empty_line())
        } else {
            (st.lines, st.cur)
        };
        place_pieces(segs, width, l0, c0, ps)
    };
    let ended = if b.2 == BreakOpportunity::Mandatory {
        (placed.0.push(placed.1), empty_line())
    } else {
        placed
    };
    WrapState { lines: ended.0, cur: ended.1, seg: c.1, chr: c.2 }
}

/// Processes break opportunities one by one with [`process_break`].
pub open spec fn process_breaks(segs: Seq<Seq<char>>, width: int, st: WrapState, bs: Seq<(int, int, BreakOpportunity)>) -> WrapState
    decreases bs.len(),
{
    if bs.len() == 0 {
        st
    } else {
        process_breaks(segs, width, process_break(segs, width, st, bs[0]), bs.drop_first())
    }
}

/// Joins neighbouring pieces that are adjacent in the same input segment.
pub open spec fn merge_pieces(ps: Seq<Piece>) -> Seq<Piece>
    decreases ps.len(),
{
    if ps.len() <= 1 {
        ps
    } else {
        let m = merge_pieces(ps.drop_last());
        let p = ps.last();
        let prev = m.last();
        if p.index == prev.index && p.start == prev.end {
            m.update(
                m.len() - 1,
                Piece {
                    index: p.index,
                    start: prev.start,
                    end: p.end,
                    width: sat_add(prev.width as int, p.width as int),
                },
            )
        } else {
            m.push(p)
        }
    }
}

/// The lines that wrapping `segs` to `width` gives, as pieces.
pub open spec fn wrap_lines(segs: Seq<Seq<char>>, width: int) -> Seq<LineV> {
    if segs.len() == 0 {
        Seq::empty()
    } else {
        let init = WrapState { lines: Seq::empty(), cur: empty_line(), seg: 0, chr: 0 };
        let st = process_breaks(segs, width, init, linebreak::segment_breaks(segs));
        let last = segs.last();
        let lines = if last.len() > 0 && last.last() == '\n' {
            st.lines.push(
                push_piece(
                    st.cur,
                    new_piece(segs, segs.len() - 1, last.len() as int, last.len() as int),
                ),
            )
        } else {
            st.lines
        };
        lines.map_values(|l: LineV| (merge_pieces(l.0), l.1))
    }
}

/// A piece as the part of a line it becomes: its text, and the byte offset
/// where it starts in its input segment.
pub open spec fn piece_matches(segs: Seq<Seq<char>>, p: Piece, s: SegmentedStringLineSegment) -> bool {
    &&& s.text@ == piece_text(segs, p)
    &&& s.index == p.index
    &&& s.offset == chars::utf8_len(segs[p.index as int].take(p.start as int))
    &&& s.width == p.width
}

/// A line of pieces as the line it becomes.
pub open spec fn line_matches(segs: Seq<Seq<char>>, l: LineV, line: SegmentedStringLine) -> bool {
    &&& line.segments@.len() == l.0.len()
    &&& line.width == l.1
    &&& forall|i: int| 0 <= i < l.0.len() ==> piece_matches(segs, l.0[i], #[trigger] line.segments@[i])
}

/// Every piece of the lines refers to characters that exist.
pub open spec fn lines_valid(segs: Seq<Seq<char>>, ls: Seq<LineV>) -> bool {
    forall|i: int, j: int| 0 <= i < ls.len() && 0 <= j < ls[i].0.len() ==> piece_valid(segs, #[trigger] ls[i].0[j])
}

/// Every piece of the line refers to characters that exist.
pub open spec fn line_valid(segs: Seq<Seq<char>>, l: LineV) -> bool {
    forall|j: int| 0 <= j < l.0.len() ==> piece_valid(segs, #[trigger] l.0[j])
}

/// A line being built.
struct LineAcc {
    pieces: Vec<Piece>,
    width: usize,
}

spec fn lv(l: LineAcc) -> LineV {
    (l.pieces@, l.width)
}

spec fn lines_v(ls: Seq<LineAcc>) -> Seq<LineV> {
    Seq::new(ls.len(), |i: int| lv(ls[i]))
}

/// The input segments, by their characters.
spec fn parts_v(parts: Seq<Vec<char>>) -> Seq<Seq<char>> {
    Seq::new(parts.len(), |i: int| parts[i]@)
}

fn width_of_chars(cs: &[char]) -> (r: usize)
    ensures
        r == unicode::str_width_of(cs@),
{
    let s = string_of(cs);
    str_width(s.as_str())
}

fn new_piece_exec(parts: &Vec<Vec<char>>, index: usize, start: usize, end: usize) -> (r: Piece)
    requires
        index < parts@.len(),
        start <= end <= parts@[index as int]@.len(),
    ensures
        r == new_piece(parts_v(parts@), index as int, start as int, end as int),
        piece_valid(parts_v(parts@), r),
        r.start == start,
{
    let ghost segs = parts_v(parts@);
    let src = &parts[index];
    assert(segs[index as int] == src@);
    let mut e = end;
    while e > start && src[e - 1] == '\n'
        invariant
            start <= e <= end <= src@.len(),
            trim_newlines(src@, start as int, end as int) == trim_newlines(src@, start as int, e as int),
        decreases e,
    {
        e -= 1;
    }
    let text = subrange_vec(src, start, e);
    let width = width_of_chars(&text);
    Piece { index, start, end: e, width }
}

fn collect_pieces_exec(parts: &Vec<Vec<char>>, seg: usize, chr: usize, si: usize, ci: usize) -> (r: (Vec<Piece>, usize, usize))
    requires
        seg < parts@.len(),
        si < parts@.len(),
        chr <= parts@[seg as int]@.len(),
        ci <= parts@[si as int]@.len(),
    ensures
        ({
            let c = collect_pieces(parts_v(parts@), seg as int, chr as int, si as int, ci as int);
            &&& r.0@ == c.0
            &&& r.1 == c.1
            &&& r.2 == c.2
        }),
        r.1 < parts@.len(),
        r.2 <= parts@[r.1 as int]@.len(),
        forall|i: int| 0 <= i < r.0@.len() ==> piece_valid(parts_v(parts@), #[trigger] r.0@[i]),
{
    let ghost segs = parts_v(parts@);
    let mut out: Vec<Piece> = Vec::new();
    let mut seg = seg;
    let mut chr = chr;
    let ghost total = collect_pieces(segs, seg as int, chr as int, si as int, ci as int);
    while seg < si
        invariant
            seg < parts@.len(),
            si < parts@.len(),
            chr <= parts@[seg as int]@.len(),
            ci <= parts@[si as int]@.len(),
            segs == parts_v(parts@),
            forall|i: int| 0 <= i < out@.len() ==> piece_valid(segs, #[trigger] out@[i]),
            ({
                let c = collect_pieces(segs, seg as int, chr as int, si as int, ci as int);
                total.0 == out@ + c.0 && total.1 == c.1 && total.2 == c.2
            }),
        decreases si - seg,
    {
        let p = new_piece_exec(parts, seg, chr, parts[seg].len());
        out.push(p);
        seg += 1;
        chr = 0;
        assert(total.0 =~= out@ + collect_pieces(segs, seg as int, chr as int, si as int, ci as int).0);
    }
    if seg == si && chr < ci {
        let p = new_piece_exec(parts, seg, chr, ci);
        out.push(p);
        chr = ci;
    }
    assert(total.0 =~= out@);
    (out, seg, chr)
}

fn sat_add_exec(a: usize, b: usize) -> (r: usize)
    ensures
        r == sat_add(a as int, b as int),
{
    a.saturating_add(b)
}

fn sum_widths_exec(ps: &Vec<Piece>) -> (r: usize)
    ensures
        r == sum_widths(ps@),
{
    let mut total: usize = 0;
    let mut i: usize = 0;
    while i < ps.len()
        invariant
            i <= ps@.len(),
            total == sum_widths(ps@.take(i as int)),
        decreases ps@.len() - i,
    {
        assert(ps@.take(i + 1).drop_last() =~= ps@.take(i as int));
        total = sat_add_exec(total, ps[i].width);
        i += 1;
    }
    assert(ps@.take(ps@.len() as int) =~= ps@);
    total
}

fn piece_text_exec(parts: &Vec<Vec<char>>, p: Piece) -> (r: Vec<char>)
    requires
        piece_valid(parts_v(parts@), p),
    ensures
        r@ == piece_text(parts_v(parts@), p),
{
    subrange_vec(&parts[p.index], p.start, p.end)
}

fn pieces_text_exec(parts: &Vec<Vec<char>>, ps: &Vec<Piece>) -> (r: Vec<char>)
    requires
        forall|i: int| 0 <= i < ps@.len() ==> piece_valid(parts_v(parts@), #[trigger] ps@[i]),
    ensures
        r@ == pieces_text(parts_v(parts@), ps@),
{
    let ghost segs = parts_v(parts@);
    let mut out: Vec<char> = Vec::new();
    let mut i: usize = 0;
    while i < ps.len()
        invariant
            i <= ps@.len(),
            segs == parts_v(parts@),
            forall|i: int| 0 <= i < ps@.len() ==> piece_valid(segs, #[trigger] ps@[i]),
            out@ == pieces_text(segs, ps@.take(i as int)),
        decreases ps@.len() - i,
    {
        let t = piece_text_exec(parts, ps[i]);
        let ghost before = out@;
        let mut j: usize = 0;
        while j < t.len()
            invariant
                j <= t@.len(),
                out@ == before + t@.take(j as int),
            decreases t@.len() - j,
        {
            out.push(t[j]);
            j += 1;
            assert(out@ =~= before + t@.take(j as int));
        }
        assert(ps@.take(i + 1).drop_last() =~= ps@.take(i as int));
        assert(t@.take(t@.len() as int) =~= t@);
        i += 1;
    }
    assert(ps@.take(ps@.len() as int) =~= ps@);
    out
}

#[verifier::rlimit(40)]
fn trailing_ws_exec(t: &Vec<char>) -> (r: (usize, usize))
    ensures
        r.0 == trailing_ws_cols(t@),
        r.1 == trailing_ws_start(t@),
{
    let mut k = t.len();
    let mut cols: usize = 0;
    assert(t@.take(k as int) =~= t@);
    while k > 0 && char_is_whitespace(t[k - 1])
        invariant
            k <= t@.len(),
            trailing_ws_start(t@) == trailing_ws_start(t@.take(k as int)),
            trailing_ws_cols(t@) == sat_add(trailing_ws_cols(t@.take(k as int)) as int, cols as int),
        decreases k,
    {
        assert(t@.take(k as int).drop_last() =~= t@.take(k - 1));
        let c = char_cols_of(t[k - 1]);
        proof {
            lemma_sat_add_assoc(trailing_ws_cols(t@.take(k - 1)) as int, c as int, cols as int);
        }
        cols = sat_add_exec(c, cols);
        k -= 1;
    }
    (cols, k)
}

/// Saturating addition of nonnegative numbers regroups freely.
pub(crate) proof fn lemma_sat_add_assoc(a: int, b: int, c: int)
    requires
        0 <= a <= usize::MAX,
        0 <= b <= usize::MAX,
        0 <= c <= usize::MAX,
    ensures
        sat_add(sat_add(a, b) as int, c) == sat_add(a, sat_add(b, c) as int),
{
}

fn sub_piece_exec(parts: &Vec<Vec<char>>, text: &Vec<char>, p: Piece, s: usize, e: usize) -> (r: Piece)
    requires
        piece_valid(parts_v(parts@), p),
        text@ == piece_text(parts_v(parts@), p),
        s <= e <= text@.len(),
    ensures
        r == sub_piece(parts_v(parts@), p, s as int, e as int),
        piece_valid(parts_v(parts@), r),
{
    let sub = subrange_vec(text, s, e);
    let width = width_of_chars(&sub);
    Piece { index: p.index, start: p.start + s, end: p.start + e, width }
}

fn push_piece_exec(cur: &mut LineAcc, p: Piece)
    ensures
        lv(*final(cur)) == push_piece(lv(*old(cur)), p),
{
    cur.pieces.push(p);
    cur.width = sat_add_exec(cur.width, p.width);
}

fn place_piece_exec(parts: &Vec<Vec<char>>, width: usize, lines: &mut Vec<LineAcc>, cur: &mut LineAcc, p: Piece)
    requires
        piece_valid(parts_v(parts@), p),
        lines_valid(parts_v(parts@), lines_v(old(lines)@)),
        line_valid(parts_v(parts@), lv(*old(cur))),
    ensures
        ({
            let r = place_piece(parts_v(parts@), width as int, lines_v(old(lines)@), lv(*old(cur)), p);
            lines_v(final(lines)@) == r.0 && lv(*final(cur)) == r.1
        }),
        lines_valid(parts_v(parts@), lines_v(final(lines)@)),
        line_valid(parts_v(parts@), lv(*final(cur))),
{
    let ghost segs = parts_v(parts@);
    let text = piece_text_exec(parts, p);
    let (_, twi) = trailing_ws_exec(&text);
    proof {
        lemma_trailing_ws_start_le(text@);
    }
    let tail = subrange_vec(&text, twi, text.len());
    let tww = width_of_chars(&tail);
    let over: usize = if p.width >= tww { p.width - tww } else { 0 };
    if (cur.width as u128) + (over as u128) > (width as u128) {
        let ghost l0 = lines_v(lines@);
        let ghost c0 = lv(*cur);
        let mut w: usize = cur.width;
        let mut start: usize = 0;
        let mut idx: usize = 0;
        while idx < twi
            invariant
                idx <= twi <= text@.len(),
                start <= idx,
                segs == parts_v(parts@),
                piece_valid(segs, p),
                text@ == piece_text(segs, p),
                lines_valid(segs, lines_v(lines@)),
                line_valid(segs, lv(*cur)),
                force_split(segs, p, 0, twi as int, width as int, l0, c0, c0.1 as int, 0) == force_split(
                    segs,
                    p,
                    idx as int,
                    twi as int,
                    width as int,
                    lines_v(lines@),
                    lv(*cur),
                    w as int,
                    start as int,
                ),
            decreases twi - idx,
        {
            let cw = char_cols_of(text[idx]);
            if w > 0 && (w as u128) + (cw as u128) > (width as u128) {
                if idx > start {
                    let sp = sub_piece_exec(parts, &text, p, start, idx);
                    push_piece_exec(cur, sp);
                }
                let mut done = LineAcc { pieces: Vec::new(), width: 0 };
                std::mem::swap(&mut done, cur);
                let ghost lb = lines_v(lines@);
                lines.push(done);
                assert(lines_v(lines@) =~= lb.push(lv(done)));
                assert(lines_valid(segs, lines_v(lines@)));
                assert(lv(*cur) =~= empty_line());
                w = cw;
                start = idx;
            } else {
                w = w + cw;
            }
            idx += 1;
        }
        if start < text.len() {
            let sp = sub_piece_exec(parts, &text, p, start, text.len());
            push_piece_exec(cur, sp);
        }
    } else {
        push_piece_exec(cur, p);
    }
}

pub(crate) proof fn lemma_trailing_ws_start_le(t: Seq<char>)
    ensures
        0 <= trailing_ws_start(t) <= t.len(),
    decreases t.len(),
{
    if t.len() > 0 && chars::is_whitespace(t.last()) {
        lemma_trailing_ws_start_le(t.drop_last());
    }
}

/// Merging keeps pieces referring to characters that exist.
pub proof fn lemma_merge_valid(segs: Seq<Seq<char>>, ps: Seq<Piece>)
    requires
        forall|j: int| 0 <= j < ps.len() ==> piece_valid(segs, #[trigger] ps[j]),
    ensures
        forall|j: int| 0 <= j < merge_pieces(ps).len() ==> piece_valid(segs, #[trigger] merge_pieces(ps)[j]),
        ps.len() > 0 ==> merge_pieces(ps).len() > 0,
    decreases ps.len(),
{
    if ps.len() > 1 {
        lemma_merge_valid(segs, ps.drop_last());
    }
}

fn merge_pieces_exec(ps: &Vec<Piece>, Ghost(segs): Ghost<Seq<Seq<char>>>) -> (r: Vec<Piece>)
    requires
        forall|j: int| 0 <= j < ps@.len() ==> piece_valid(segs, #[trigger] ps@[j]),
    ensures
        r@ == merge_pieces(ps@),
        forall|j: int| 0 <= j < r@.len() ==> piece_valid(segs, #[trigger] r@[j]),
{
    let mut out: Vec<Piece> = Vec::new();
    let mut i: usize = 0;
    while i < ps.len()
        invariant
            i <= ps@.len(),
            forall|j: int| 0 <= j < ps@.len() ==> piece_valid(segs, #[trigger] ps@[j]),
            out@ == merge_pieces(ps@.take(i as int)),
            forall|j: int| 0 <= j < out@.len() ==> piece_valid(segs, #[trigger] out@[j]),
            i > 0 ==> out@.len() > 0,
            i == 0 ==> out@.len() == 0,
        decreases ps@.len() - i,
    {
        let p = ps[i];
        assert(ps@.take(i + 1).drop_last() =~= ps@.take(i as int));
        if out.len() > 0 {
            let last = out.len() - 1;
            let prev = out[last];
            if p.index == prev.index && p.start == prev.end {
                let merged = Piece { index: p.index, start: prev.start, end: p.end, width: sat_add_exec(prev.width, p.width) };
                out.set(last, merged);
            } else {
                out.push(p);
            }
        } else {
            out.push(p);
            assert(ps@.take(1) =~= seq![p]);
        }
        i += 1;
    }
    assert(ps@.take(ps@.len() as int) =~= ps@);
    out
}

fn piece_to_segment(parts: &Vec<Vec<char>>, p: Piece) -> (r: SegmentedStringLineSegment)
    requires
        piece_valid(parts_v(parts@), p),
        chars::utf8_len(parts@[p.index as int]@) <= usize::MAX,
    ensures
        piece_matches(parts_v(parts@), p, r),
{
    let text = string_of(&piece_text_exec(parts, p));
    let offset = utf8_prefix_len(&parts[p.index], p.start);
    SegmentedStringLineSegment { text, index: p.index, offset, width: p.width }
}

fn line_to_output(parts: &Vec<Vec<char>>, l: &LineAcc) -> (r: SegmentedStringLine)
    requires
        line_valid(parts_v(parts@), lv(*l)),
        forall|k: int| 0 <= k < parts@.len() ==> chars::utf8_len(#[trigger] parts@[k]@) <= usize::MAX,
    ensures
        line_matches(parts_v(parts@), (merge_pieces(l.pieces@), l.width), r),
{
    let ghost segs = parts_v(parts@);
    assert(lv(*l).0 == l.pieces@);
    assert forall|j: int| 0 <= j < l.pieces@.len() implies piece_valid(segs, #[trigger] l.pieces@[j]) by {
        assert(lv(*l).0[j] == l.pieces@[j]);
    }
    let merged = merge_pieces_exec(&l.pieces, Ghost(segs));
    let mut out: Vec<SegmentedStringLineSegment> = Vec::new();
    let mut i: usize = 0;
    while i < merged.len()
        invariant
            i <= merged@.len(),
            segs == parts_v(parts@),
            forall|k: int| 0 <= k < parts@.len() ==> chars::utf8_len(#[trigger] parts@[k]@) <= usize::MAX,
            forall|j: int| 0 <= j < merged@.len() ==> piece_valid(segs, #[trigger] merged@[j]),
            out@.len() == i,
            forall|j: int| 0 <= j < i ==> piece_matches(segs, merged@[j], #[trigger] out@[j]),
        decreases merged@.len() - i,
    {
        let seg = piece_to_segment(parts, merged[i]);
        out.push(seg);
        i += 1;
    }
    SegmentedStringLine { segments: out, width: l.width }
}

/// What a part of a line holds.
pub struct SegView {
    /// The characters of the text.
    pub text: Seq<char>,
    /// The input segment.
    pub index: usize,
    /// The byte offset in the input segment.
    pub offset: usize,
    /// The width.
    pub width: usize,
}

impl SegmentedStringLineSegment {
    /// What the part holds.
    pub open spec fn view_of(&self) -> SegView {
        SegView { text: self.text@, index: self.index, offset: self.offset, width: self.width }
    }
}

impl SegmentedStringLine {
    /// The parts of the line, by what they hold.
    pub open spec fn parts(&self) -> Seq<SegView> {
        Seq::new(self.segments@.len(), |i: int| self.segments@[i].view_of())
    }
}

/// The line given by its parts and width with the whitespace at its end
/// removed: parts that become empty are dropped, the last part left loses
/// its trailing whitespace and gets the width of what remains, and the line
/// width goes down by what the parts lost.
pub open spec fn trim_end_parts(parts: Seq<SegView>, width: int) -> (Seq<SegView>, int)
    decreases parts.len(),
{
    if parts.len() == 0 {
        (parts, width)
    } else {
        let last = parts.last();
        let t = last.text.take(trailing_ws_start(last.text));
        let nw = unicode::str_width_of(t);
        let width2 = sat_sub(width, sat_sub(last.width as int, nw as int));
        if nw > 0 {
            (parts.update(parts.len() - 1, SegView { text: t, width: nw, ..last }), width2)
        } else {
            trim_end_parts(parts.drop_last(), width2)
        }
    }
}

fn trim_end_string(s: &String) -> (r: String)
    ensures
        r@ == s@.take(trailing_ws_start(s@)),
{
    let cs = crate::chars::to_chars(s.as_str());
    let (_, k) = trailing_ws_exec(&cs);
    proof {
        lemma_trailing_ws_start_le(cs@);
    }
    let t = subrange_vec(&cs, 0, k);
    assert(cs@.subrange(0, k as int) =~= cs@.take(k as int));
    string_of(&t)
}

impl SegmentedStringLine {
    /// Removes trailing whitespace from the line.
    pub fn trim_end(&mut self)
        ensures
            ({
                let t = trim_end_parts(old(self).parts(), old(self).width as int);
                final(self).parts() == t.0 && final(self).width == t.1
            }),
    {
        let ghost total = trim_end_parts(self.parts(), self.width as int);
        let mut i = self.segments.len();
        assert(self.parts() =~= self.parts().take(i as int));
        while i > 0
            invariant
                i == self.segments@.len(),
                total == trim_end_parts(self.parts(), self.width as int),
                total == trim_end_parts(old(self).parts(), old(self).width as int),
            decreases i,
        {
            let last = i - 1;
            let wb = self.segments[last].width;
            let t = trim_end_string(&self.segments[last].text);
            let nw = str_width(t.as_str());
            let lost: usize = if wb >= nw { wb - nw } else { 0 };
            let ghost p0 = self.parts();
            let ghost w0 = self.width as int;
            assert(p0.last() == p0[last as int]);
            assert(p0[last as int].text == self.segments@[last as int].text@);
            assert(p0[last as int].width == wb);
            self.width = if self.width >= lost { self.width - lost } else { 0 };
            if nw > 0 {
                let idx = self.segments[last].index;
                let off = self.segments[last].offset;
                self.segments.set(last, SegmentedStringLineSegment { text: t, index: idx, offset: off, width: nw });
                assert(self.parts() =~= p0.update(last as int, SegView { text: p0[last as int].text.take(trailing_ws_start(p0[last as int].text)), width: nw, ..p0[last as int] }));
                assert(trim_end_parts(p0, w0) == (self.parts(), self.width as int));
                return;
            } else {
                self.segments.pop();
                assert(self.parts() =~= p0.drop_last());
            }
            i -= 1;
        }
    }

    /// The text of the line: the texts of its parts, one after the other.
    pub fn to_string(&self) -> (r: String)
        ensures
            r@ == line_text(self.parts()),
    {
        let mut out = String::new();
        let mut i: usize = 0;
        while i < self.segments.len()
            invariant
                i <= self.segments@.len(),
                out@ == line_text(self.parts().take(i as int)),
            decreases self.segments@.len() - i,
        {
            crate::chars::push_str(&mut out, self.segments[i].text.as_str());
            i += 1;
            assert(self.parts().take(i as int).drop_last() =~= self.parts().take(i - 1));
        }
        assert(self.parts().take(self.segments@.len() as int) =~= self.parts());
        out
    }
}

impl SegmentedStringLine {
    /// A copy of the line.
    pub fn copy(&self) -> (r: SegmentedStringLine)
        ensures
            r.parts() == self.parts(),
            r.width == self.width,
    {
        let mut segments: Vec<SegmentedStringLineSegment> = Vec::new();
        let mut i: usize = 0;
        while i < self.segments.len()
            invariant
                i <= self.segments@.len(),
                segments@.len() == i,
                forall|k: int| 0 <= k < i ==> #[trigger] segments@[k].view_of() == self.segments@[k].view_of(),
            decreases self.segments@.len() - i,
        {
            let s = &self.segments[i];
            segments.push(SegmentedStringLineSegment { text: s.text.clone(), index: s.index, offset: s.offset, width: s.width });
            i += 1;
        }
        let r = SegmentedStringLine { segments, width: self.width };
        assert(r.parts() =~= self.parts());
        r
    }
}

/// Trimming a line keeps the segment each part comes from, so parts that
/// came from segments below `n` still do.
pub proof fn lemma_trim_end_indices(parts: Seq<SegView>, width: int, n: int)
    requires
        forall|j: int| 0 <= j < parts.len() ==> #[trigger] parts[j].index < n,
    ensures
        forall|j: int| 0 <= j < trim_end_parts(parts, width).0.len() ==> #[trigger] trim_end_parts(parts, width).0[j].index < n,
    decreases parts.len(),
{
    if parts.len() > 0 {
        let last = parts.last();
        let t = last.text.take(trailing_ws_start(last.text));
        let nw = unicode::str_width_of(t);
        let width2 = sat_sub(width, sat_sub(last.width as int, nw as int));
        if nw == 0 {
            assert forall|j: int| 0 <= j < parts.drop_last().len() implies #[trigger] parts.drop_last()[j].index < n by {
                assert(parts.drop_last()[j] == parts[j]);
            }
            lemma_trim_end_indices(parts.drop_last(), width2, n);
            assert(trim_end_parts(parts, width) == trim_end_parts(parts.drop_last(), width2));
        } else {
            let r = parts.update(parts.len() - 1, SegView { text: t, width: nw, ..last });
            assert(trim_end_parts(parts, width).0 == r);
            assert forall|j: int| 0 <= j < r.len() implies #[trigger] r[j].index < n by {
                assert(r[j].index == parts[j].index);
            }
        }
    }
}

/// The texts of parts, one after the other.
pub open spec fn line_text(parts: Seq<SegView>) -> Seq<char>
    decreases parts.len(),
{
    if parts.len() == 0 {
        Seq::empty()
    } else {
        line_text(parts.drop_last()) + parts.last().text
    }
}

impl<'a> vstd::std_specs::convert::FromSpecImpl<&'a str> for SegmentedString<'a> {
    open spec fn obeys_from_spec() -> bool {
        false
    }

    open spec fn from_spec(text: &'a str) -> SegmentedString<'a> {
        arbitrary()
    }
}

impl<'a> From<&'a str> for SegmentedString<'a> {
    /// A segmented string of one segment.
    fn from(text: &'a str) -> (r: SegmentedString<'a>)
        ensures
            r.segs() == seq![text@],
    {
        SegmentedString::from_str(text)
    }
}

impl<'a> SegmentedString<'a> {
    /// The segments, by their characters.
    pub closed spec fn segs(&self) -> Seq<Seq<char>> {
        Seq::new(self.segments@.len(), |i: int| self.segments@[i]@)
    }

    /// Creates a segmented string from its segments.
    pub fn from_segments(segments: Vec<&'a str>) -> (r: SegmentedString<'a>)
        ensures
            r.segs() == Seq::new(segments@.len(), |i: int| segments@[i]@),
    {
        SegmentedString { segments }
    }

    /// Creates a segmented string of one segment.
    pub fn from_str(text: &'a str) -> (r: SegmentedString<'a>)
        ensures
            r.segs() == seq![text@],
    {
        let mut segments: Vec<&'a str> = Vec::new();
        segments.push(text);
        let r = SegmentedString { segments };
        assert(r.segs() =~= seq![text@]);
        r
    }

    /// Wraps the string into lines of a given width, as [`wrap_lines`]
    /// describes. Where the widths of the segments' parts are the sums of
    /// their characters' widths, every line fits the width without its
    /// trailing whitespace, unless it holds a single character that takes
    /// up columns (see [`wrap_width`]).
    pub fn wrap(&self, width: usize) -> (r: Vec<SegmentedStringLine>)
        requires
            chars::utf8_len(linebreak::concat(self.segs())) <= usize::MAX,
        ensures
            r@.len() == wrap_lines(self.segs(), width as int).len(),
            forall|i: int| 0 <= i < r@.len() ==> line_matches(self.segs(), wrap_lines(self.segs(), width as int)[i], #[trigger] r@[i]),
            lines_valid(self.segs(), wrap_lines(self.segs(), width as int)),
            wrap_width::widths_add_up(self.segs()) && wrap_width::cols(
                breaks_text(self.segs(), 0, 0, linebreak::segment_breaks(self.segs())),
            ) <= usize::MAX ==> forall|i: int|
                0 <= i < r@.len() ==> wrap_width::fits_width(line_text(#[trigger] r@[i].parts()), width as int),
            forall|i: int| 0 <= i < r@.len() ==> (#[trigger] r@[i]).width == parts_width(r@[i].parts()),
    {
        if self.segments.len() == 0 {
            return Vec::new();
        }
        let ghost segs = self.segs();
        let (parts, breaks) = char_breaks(self.segments.as_slice());
        assert(parts_v(parts@) =~= segs);
        proof {
            assert forall|k: int| 0 <= k < segs.len() implies chars::utf8_len(#[trigger] parts@[k]@) <= usize::MAX by {
                linebreak::lemma_segment_utf8_le(segs, k);
            }
        }
        let ghost bs = linebreak::segment_breaks(segs);
        let ghost init = WrapState { lines: Seq::empty(), cur: empty_line(), seg: 0, chr: 0 };
        let ghost total = process_breaks(segs, width as int, init, bs);
        let mut lines: Vec<LineAcc> = Vec::new();
        let mut cur = LineAcc { pieces: Vec::new(), width: 0 };
        let mut seg: usize = 0;
        let mut chr: usize = 0;
        let mut k: usize = 0;
        assert(bs.skip(0) =~= bs);
        assert(lines_v(lines@) =~= Seq::<LineV>::empty());
        assert(lv(cur) =~= empty_line());
        while k < breaks.len()
            invariant
                k <= breaks@.len(),
                segs == parts_v(parts@),
                segs.len() > 0,
                breaks@.len() == bs.len(),
                forall|i: int| 0 <= i < breaks@.len() ==> {
                    &&& (#[trigger] breaks@[i]).0 == bs[i].0
                    &&& breaks@[i].1 == bs[i].1
                    &&& breaks@[i].2 == bs[i].2
                    &&& 0 <= bs[i].0 < segs.len()
                    &&& 0 <= bs[i].1 <= segs[bs[i].0].len()
                },
                seg < segs.len(),
                chr <= segs[seg as int].len(),
                lines_valid(segs, lines_v(lines@)),
                line_valid(segs, lv(cur)),
                total == process_breaks(segs, width as int, WrapState { lines: lines_v(lines@), cur: lv(cur), seg: seg as int, chr: chr as int }, bs.skip(k as int)),
            decreases breaks@.len() - k,
        {
            let (si, ci, opp) = breaks[k];
            assert(bs.skip(k as int)[0] == bs[k as int]);
            assert(bs.skip(k as int).drop_first() =~= bs.skip(k + 1));
            let ghost st0 = WrapState { lines: lines_v(lines@), cur: lv(cur), seg: seg as int, chr: chr as int };
            let (ps, seg2, chr2) = collect_pieces_exec(&parts, seg, chr, si, ci);
            let nlw = sum_widths_exec(&ps);
            let text = pieces_text_exec(&parts, &ps);
            let (tw, _) = trailing_ws_exec(&text);
            let rest: usize = if nlw >= tw { nlw - tw } else { 0 };
            if (cur.width as u128) + (rest as u128) <= (width as u128) {
                let ghost c0 = lv(cur);
                let mut j: usize = 0;
                while j < ps.len()
                    invariant
                        j <= ps@.len(),
                        cur.pieces@ == c0.0 + ps@.take(j as int),
                        cur.width == c0.1,
                        line_valid(segs, c0),
                        forall|i: int| 0 <= i < ps@.len() ==> piece_valid(segs, #[trigger] ps@[i]),
                        line_valid(segs, lv(cur)),
                    decreases ps@.len() - j,
                {
                    cur.pieces.push(ps[j]);
                    j += 1;
                    assert(cur.pieces@ =~= c0.0 + ps@.take(j as int));
                }
                assert(ps@.take(ps@.len() as int) =~= ps@);
                cur.width = sat_add_exec(cur.width, nlw);
            } else {
                if cur.width > 0 {
                    let mut done = LineAcc { pieces: Vec::new(), width: 0 };
                    std::mem::swap(&mut done, &mut cur);
                    let ghost lb = lines_v(lines@);
                    lines.push(done);
                    assert(lines_v(lines@) =~= lb.push(lv(done)));
                    assert(lv(cur) =~= empty_line());
                }
                let ghost l0 = lines_v(lines@);
                let ghost c0 = lv(cur);
                let mut j: usize = 0;
                assert(ps@.skip(0) =~= ps@);
                while j < ps.len()
                    invariant
                        j <= ps@.len(),
                        segs == parts_v(parts@),
                        forall|i: int| 0 <= i < ps@.len() ==> piece_valid(segs, #[trigger] ps@[i]),
                        lines_valid(segs, lines_v(lines@)),
                        line_valid(segs, lv(cur)),
                        place_pieces(segs, width as int, l0, c0, ps@) == place_pieces(segs, width as int, lines_v(lines@), lv(cur), ps@.skip(j as int)),
                    decreases ps@.len() - j,
                {
                    assert(ps@.skip(j as int)[0] == ps@[j as int]);
                    assert(ps@.skip(j as int).drop_first() =~= ps@.skip(j + 1));
                    place_piece_exec(&parts, width, &mut lines, &mut cur, ps[j]);
                    j += 1;
                }
                assert(ps@.skip(ps@.len() as int) =~= Seq::<Piece>::empty());
            }
            if opp == BreakOpportunity::Mandatory {
                let mut done = LineAcc { pieces: Vec::new(), width: 0 };
                std::mem::swap(&mut done, &mut cur);
                let ghost lb = lines_v(lines@);
                lines.push(done);
                assert(lines_v(lines@) =~= lb.push(lv(done)));
                assert(lv(cur) =~= empty_line());
            }
            seg = seg2;
            chr = chr2;
            k += 1;
        }
        assert(bs.skip(breaks@.len() as int) =~= Seq::<(int, int, BreakOpportunity)>::empty());
        let last = parts.len() - 1;
        let last_len = parts[last].len();
        if last_len > 0 && parts[last][last_len - 1] == '\n' {
            let p = new_piece_exec(&parts, last, last_len, last_len);
            push_piece_exec(&mut cur, p);
            let ghost lb = lines_v(lines@);
            lines.push(cur);
            assert(lines_v(lines@) =~= lb.push(lv(cur)));
        }
        let ghost final_lines = lines_v(lines@);
        assert(final_lines.map_values(|l: LineV| (merge_pieces(l.0), l.1)) =~= wrap_lines(segs, width as int));
        let mut out: Vec<SegmentedStringLine> = Vec::new();
        let mut i: usize = 0;
        while i < lines.len()
            invariant
                i <= lines@.len(),
                segs == parts_v(parts@),
                forall|k: int| 0 <= k < parts@.len() ==> chars::utf8_len(#[trigger] parts@[k]@) <= usize::MAX,
                lines_valid(segs, lines_v(lines@)),
                wrap_lines(segs, width as int) == lines_v(lines@).map_values(|l: LineV| (merge_pieces(l.0), l.1)),
                out@.len() == i,
                forall|j: int| 0 <= j < i ==> line_matches(segs, wrap_lines(segs, width as int)[j], #[trigger] out@[j]),
            decreases lines@.len() - i,
        {
            assert(lv(lines@[i as int]) == lines_v(lines@)[i as int]);
            let line = line_to_output(&parts, &lines[i]);
            out.push(line);
            i += 1;
        }
        proof {
            assert forall|a: int, b: int| 0 <= a < wrap_lines(segs, width as int).len() && 0 <= b < wrap_lines(segs, width as int)[a].0.len()
                implies piece_valid(segs, #[trigger] wrap_lines(segs, width as int)[a].0[b]) by {
                let l = lines_v(lines@)[a];
                assert forall|j: int| 0 <= j < l.0.len() implies piece_valid(segs, #[trigger] l.0[j]) by {}
                lemma_merge_valid(segs, l.0);
            }
            lemma_wrapped_widths_add_up(segs, width as int);
            assert forall|i: int| 0 <= i < out@.len() implies (#[trigger] out@[i]).width == parts_width(out@[i].parts()) by {
                let l = wrap_lines(segs, width as int)[i];
                lemma_parts_width_matches(segs, l, out@[i], out@[i].segments@.len() as int);
                assert(out@[i].parts().take(out@[i].segments@.len() as int) =~= out@[i].parts());
                assert(l.0.take(out@[i].segments@.len() as int) =~= l.0);
            }
            if wrap_width::widths_add_up(segs) && wrap_width::cols(
                breaks_text(segs, 0, 0, linebreak::segment_breaks(segs)),
            ) <= usize::MAX {
                assert forall|k: int| 0 <= k < segs.len() implies #[trigger] segs[k].len() <= usize::MAX by {
                    assert(segs[k] == parts@[k]@);
                    assert(parts@[k]@.len() == parts@[k].len());
                }
                assert(segs.len() == parts@.len());
                wrap_width::lemma_wrapped_lines_fit(segs, width as int);
                assert forall|i: int| 0 <= i < out@.len() implies wrap_width::fits_width(
                    line_text(#[trigger] out@[i].parts()),
                    width as int,
                ) by {
                    lemma_line_text_matches(segs, wrap_lines(segs, width as int)[i], out@[i], out@[i].segments@.len() as int);
                    assert(out@[i].parts().take(out@[i].segments@.len() as int) =~= out@[i].parts());
                    assert(wrap_lines(segs, width as int)[i].0.take(out@[i].segments@.len() as int) =~= wrap_lines(segs, width as int)[i].0);
                }
            }
        }
        out
    }

}

/// The characters of lines, one line after the other.
pub open spec fn lines_text(segs: Seq<Seq<char>>, ls: Seq<LineV>) -> Seq<char>
    decreases ls.len(),
{
    if ls.len() == 0 {
        Seq::empty()
    } else {
        lines_text(segs, ls.drop_last()) + pieces_text(segs, ls.last().0)
    }
}

pub(crate) proof fn lemma_lines_text_push(segs: Seq<Seq<char>>, ls: Seq<LineV>, l: LineV)
    ensures
        lines_text(segs, ls.push(l)) == lines_text(segs, ls) + pieces_text(segs, l.0),
{
    assert(ls.push(l).drop_last() =~= ls);
}

pub(crate) proof fn lemma_pieces_text_push(segs: Seq<Seq<char>>, ps: Seq<Piece>, p: Piece)
    ensures
        pieces_text(segs, ps.push(p)) == pieces_text(segs, ps) + piece_text(segs, p),
{
    assert(ps.push(p).drop_last() =~= ps);
}

pub(crate) proof fn lemma_pieces_text_concat(segs: Seq<Seq<char>>, a: Seq<Piece>, b: Seq<Piece>)
    ensures
        pieces_text(segs, a + b) == pieces_text(segs, a) + pieces_text(segs, b),
    decreases b.len(),
{
    if b.len() == 0 {
        assert(a + b =~= a);
        assert(pieces_text(segs, a) + Seq::<char>::empty() =~= pieces_text(segs, a));
    } else {
        lemma_pieces_text_concat(segs, a, b.drop_last());
        assert((a + b).drop_last() =~= a + b.drop_last());
        assert((a + b).last() == b.last());
        assert(pieces_text(segs, a) + pieces_text(segs, b.drop_last()) + piece_text(segs, b.last())
            =~= pieces_text(segs, a) + (pieces_text(segs, b.drop_last()) + piece_text(segs, b.last())));
    }
}

/// The text of lines, the current line, and what is left of a piece from
/// character `start` on.
spec fn split_text(segs: Seq<Seq<char>>, lines: Seq<LineV>, cur: LineV, text: Seq<char>, start: int) -> Seq<char> {
    lines_text(segs, lines) + pieces_text(segs, cur.0) + text.subrange(start, text.len() as int)
}

pub(crate) proof fn lemma_sub_piece_text(segs: Seq<Seq<char>>, p: Piece, s: int, e: int)
    requires
        piece_valid(segs, p),
        0 <= s <= e <= p.end - p.start,
    ensures
        piece_text(segs, sub_piece(segs, p, s, e)) == piece_text(segs, p).subrange(s, e),
{
    assert(piece_text(segs, sub_piece(segs, p, s, e)) =~= piece_text(segs, p).subrange(s, e));
}

proof fn lemma_force_split_keeps_text(
    segs: Seq<Seq<char>>,
    p: Piece,
    idx: int,
    twi: int,
    width: int,
    lines: Seq<LineV>,
    cur: LineV,
    w: int,
    start: int,
)
    requires
        piece_valid(segs, p),
        0 <= start <= idx,
        twi <= p.end - p.start,
    ensures
        ({
            let f = force_split(segs, p, idx, twi, width, lines, cur, w, start);
            let text = piece_text(segs, p);
            &&& start <= f.2 <= (if idx <= twi { twi } else { idx })
            &&& split_text(segs, f.0, f.1, text, f.2) == split_text(segs, lines, cur, text, start)
        }),
    decreases twi - idx,
{
    let text = piece_text(segs, p);
    if idx < twi {
        let cw = unicode::char_cols(text[idx]) as int;
        if w > 0 && w + cw > width {
            let sp = sub_piece(segs, p, start, idx);
            let line = if idx > start { push_piece(cur, sp) } else { cur };
            lemma_force_split_keeps_text(segs, p, idx + 1, twi, width, lines.push(line), empty_line(), cw, idx);
            lemma_lines_text_push(segs, lines, line);
            lemma_pieces_text_push(segs, cur.0, sp);
            lemma_sub_piece_text(segs, p, start, idx);
            assert(text.subrange(start, start) =~= Seq::<char>::empty());
            assert(pieces_text(segs, empty_line().0) =~= Seq::<char>::empty());
            assert(text.subrange(start, idx) + text.subrange(idx, text.len() as int) =~= text.subrange(start, text.len() as int));
            assert(split_text(segs, lines.push(line), empty_line(), text, idx) =~= split_text(segs, lines, cur, text, start));
        } else {
            lemma_force_split_keeps_text(segs, p, idx + 1, twi, width, lines, cur, w + cw, start);
        }
    }
}

/// Placing a piece keeps its text: the lines and the current line after
/// [`place_piece`] hold the text they held before followed by the piece's
/// text, however it was broken up.
pub proof fn lemma_place_piece_keeps_text(segs: Seq<Seq<char>>, width: int, lines: Seq<LineV>, cur: LineV, p: Piece)
    requires
        piece_valid(segs, p),
    ensures
        ({
            let r = place_piece(segs, width, lines, cur, p);
            lines_text(segs, r.0.push(r.1)) == lines_text(segs, lines.push(cur)) + piece_text(segs, p)
        }),
{
    let text = piece_text(segs, p);
    let twi = trailing_ws_start(text);
    let tww = unicode::str_width_of(text.subrange(twi, text.len() as int));
    lemma_trailing_ws_start_le(text);
    lemma_lines_text_push(segs, lines, cur);
    let r = place_piece(segs, width, lines, cur, p);
    if cur.1 + sat_sub(p.width as int, tww as int) > width {
        let f = force_split(segs, p, 0, twi, width, lines, cur, cur.1 as int, 0);
        lemma_force_split_keeps_text(segs, p, 0, twi, width, lines, cur, cur.1 as int, 0);
        assert(text.subrange(0, text.len() as int) =~= text);
        if f.2 < text.len() {
            let sp = sub_piece(segs, p, f.2, text.len() as int);
            lemma_lines_text_push(segs, f.0, push_piece(f.1, sp));
            lemma_pieces_text_push(segs, f.1.0, sp);
            lemma_sub_piece_text(segs, p, f.2, text.len() as int);
        } else {
            lemma_lines_text_push(segs, f.0, f.1);
            assert(text.subrange(f.2, text.len() as int) =~= Seq::<char>::empty());
        }
        assert(lines_text(segs, r.0.push(r.1)) =~= lines_text(segs, lines.push(cur)) + text);
    } else {
        lemma_lines_text_push(segs, lines, push_piece(cur, p));
        lemma_pieces_text_push(segs, cur.0, p);
        assert(lines_text(segs, r.0.push(r.1)) =~= lines_text(segs, lines.push(cur)) + text);
    }
}

/// Placing pieces keeps their text: the lines and the current line after
/// [`place_pieces`] hold the text they held before followed by the text of
/// the pieces, in order.
pub proof fn lemma_place_pieces_keeps_text(segs: Seq<Seq<char>>, width: int, lines: Seq<LineV>, cur: LineV, ps: Seq<Piece>)
    requires
        forall|j: int| 0 <= j < ps.len() ==> piece_valid(segs, #[trigger] ps[j]),
    ensures
        ({
            let r = place_pieces(segs, width, lines, cur, ps);
            lines_text(segs, r.0.push(r.1)) == lines_text(segs, lines.push(cur)) + pieces_text(segs, ps)
        }),
    decreases ps.len(),
{
    if ps.len() == 0 {
        assert(pieces_text(segs, ps) =~= Seq::<char>::empty());
        assert(lines_text(segs, lines.push(cur)) + Seq::<char>::empty() =~= lines_text(segs, lines.push(cur)));
    } else {
        let r = place_piece(segs, width, lines, cur, ps[0]);
        lemma_place_piece_keeps_text(segs, width, lines, cur, ps[0]);
        lemma_place_pieces_keeps_text(segs, width, r.0, r.1, ps.drop_first());
        assert(ps =~= seq![ps[0]] + ps.drop_first());
        lemma_pieces_text_concat(segs, seq![ps[0]], ps.drop_first());
        assert(seq![ps[0]] =~= Seq::<Piece>::empty().push(ps[0]));
        lemma_pieces_text_push(segs, Seq::empty(), ps[0]);
        assert(pieces_text(segs, Seq::<Piece>::empty()) =~= Seq::<char>::empty());
        assert(pieces_text(segs, seq![ps[0]]) =~= piece_text(segs, ps[0]));
        assert(lines_text(segs, lines.push(cur)) + piece_text(segs, ps[0]) + pieces_text(segs, ps.drop_first())
            =~= lines_text(segs, lines.push(cur)) + (piece_text(segs, ps[0]) + pieces_text(segs, ps.drop_first())));
    }
}

/// One break opportunity keeps the text: after [`process_break`], the lines
/// and the current line hold the text they held before followed by the
/// text taken up to the break.
pub proof fn lemma_process_break_keeps_text(segs: Seq<Seq<char>>, width: int, st: WrapState, b: (int, int, BreakOpportunity))
    requires
        forall|j: int|
            0 <= j < collect_pieces(segs, st.seg, st.chr, b.0, b.1).0.len() ==> piece_valid(
                segs,
                #[trigger] collect_pieces(segs, st.seg, st.chr, b.0, b.1).0[j],
            ),
    ensures
        ({
            let r = process_break(segs, width, st, b);
            lines_text(segs, r.lines.push(r.cur)) == lines_text(segs, st.lines.push(st.cur)) + pieces_text(
                segs,
                collect_pieces(segs, st.seg, st.chr, b.0, b.1).0,
            )
        }),
{
    let ps = collect_pieces(segs, st.seg, st.chr, b.0, b.1).0;
    let nlw = sum_widths(ps);
    let tw = trailing_ws_cols(pieces_text(segs, ps));
    lemma_lines_text_push(segs, st.lines, st.cur);
    assert(pieces_text(segs, empty_line().0) =~= Seq::<char>::empty());
    let placed = if st.cur.1 + sat_sub(nlw as int, tw as int) <= width {
        (st.lines, (st.cur.0 + ps, sat_add(st.cur.1 as int, nlw as int)))
    } else {
        let (l0, c0) = if st.cur.1 > 0 {
            (st.lines.push(st.cur), empty_line())
        } else {
            (st.lines, st.cur)
        };
        place_pieces(segs, width, l0, c0, ps)
    };
    if st.cur.1 + sat_sub(nlw as int, tw as int) <= width {
        lemma_pieces_text_concat(segs, st.cur.0, ps);
        lemma_lines_text_push(segs, st.lines, placed.1);
    } else {
        if st.cur.1 > 0 {
            lemma_lines_text_push(segs, st.lines.push(st.cur), empty_line());
            lemma_place_pieces_keeps_text(segs, width, st.lines.push(st.cur), empty_line(), ps);
        } else {
            lemma_place_pieces_keeps_text(segs, width, st.lines, st.cur, ps);
        }
    }
    assert(lines_text(segs, placed.0.push(placed.1)) =~= lines_text(segs, st.lines.push(st.cur)) + pieces_text(segs, ps));
    if b.2 == BreakOpportunity::Mandatory {
        lemma_lines_text_push(segs, placed.0.push(placed.1), empty_line());
        assert(lines_text(segs, placed.0.push(placed.1)) + Seq::<char>::empty() =~= lines_text(segs, placed.0.push(placed.1)));
    }
}

pub(crate) proof fn lemma_trim_newlines_bounds(src: Seq<char>, start: int, end: int)
    requires
        start <= end,
    ensures
        start <= trim_newlines(src, start, end) <= end,
    decreases end - start,
{
    if end > start && src[end - 1] == '\n' {
        lemma_trim_newlines_bounds(src, start, end - 1);
    }
}

/// A position in the input: a segment, and a character within it or its end.
pub open spec fn position_valid(segs: Seq<Seq<char>>, seg: int, chr: int) -> bool {
    0 <= seg < segs.len() && 0 <= chr <= segs[seg].len()
}

/// The segments, and every segment, are short enough to be indexed.
pub open spec fn segments_fit(segs: Seq<Seq<char>>) -> bool {
    &&& segs.len() <= usize::MAX
    &&& forall|k: int| 0 <= k < segs.len() ==> #[trigger] segs[k].len() <= usize::MAX
}

pub(crate) proof fn lemma_collect_valid(segs: Seq<Seq<char>>, seg: int, chr: int, si: int, ci: int)
    requires
        segments_fit(segs),
        position_valid(segs, seg, chr),
        position_valid(segs, si, ci),
    ensures
        ({
            let c = collect_pieces(segs, seg, chr, si, ci);
            &&& forall|j: int| 0 <= j < c.0.len() ==> piece_valid(segs, #[trigger] c.0[j])
            &&& forall|j: int| 0 <= j < c.0.len() ==> (#[trigger] c.0[j]).width == unicode::str_width_of(piece_text(segs, c.0[j]))
            &&& position_valid(segs, c.1, c.2)
        }),
    decreases si - seg,
{
    let c = collect_pieces(segs, seg, chr, si, ci);
    if seg < si {
        lemma_trim_newlines_bounds(segs[seg], chr, segs[seg].len() as int);
        lemma_collect_valid(segs, seg + 1, 0, si, ci);
        let p = new_piece(segs, seg, chr, segs[seg].len() as int);
        let r = collect_pieces(segs, seg + 1, 0, si, ci);
        assert(segs[seg].len() <= usize::MAX);
        assert(piece_valid(segs, p));
        assert(p.width == unicode::str_width_of(piece_text(segs, p)));
        assert forall|j: int| 0 <= j < c.0.len() implies piece_valid(segs, #[trigger] c.0[j])
            && c.0[j].width == unicode::str_width_of(piece_text(segs, c.0[j])) by {
            if j == 0 {
                assert(c.0[0] == p);
            } else {
                assert(c.0[j] == r.0[j - 1]);
            }
        }
    } else if seg == si && chr < ci {
        lemma_trim_newlines_bounds(segs[seg], chr, ci);
        assert(segs[seg].len() <= usize::MAX);
        assert(c.0[0] == new_piece(segs, seg, chr, ci));
        assert(piece_valid(segs, c.0[0]));
        assert(c.0[0].width == unicode::str_width_of(piece_text(segs, c.0[0])));
    }
}

/// The text taken up to each break in turn, from position (`seg`, `chr`).
pub open spec fn breaks_text(segs: Seq<Seq<char>>, seg: int, chr: int, bs: Seq<(int, int, BreakOpportunity)>) -> Seq<char>
    decreases bs.len(),
{
    if bs.len() == 0 {
        Seq::empty()
    } else {
        let c = collect_pieces(segs, seg, chr, bs[0].0, bs[0].1);
        pieces_text(segs, c.0) + breaks_text(segs, c.1, c.2, bs.drop_first())
    }
}

/// Wrapping loses no text and adds none: after [`process_breaks`], the
/// lines and the current line hold the text they held before followed by
/// the text between the break opportunities, in order (without the line
/// feeds that end a stretch), however the lines were broken.
pub proof fn lemma_process_breaks_keeps_text(
    segs: Seq<Seq<char>>,
    width: int,
    st: WrapState,
    bs: Seq<(int, int, BreakOpportunity)>,
)
    requires
        segments_fit(segs),
        position_valid(segs, st.seg, st.chr),
        forall|k: int| 0 <= k < bs.len() ==> position_valid(segs, #[trigger] bs[k].0, bs[k].1),
    ensures
        ({
            let r = process_breaks(segs, width, st, bs);
            lines_text(segs, r.lines.push(r.cur)) == lines_text(segs, st.lines.push(st.cur)) + breaks_text(
                segs,
                st.seg,
                st.chr,
                bs,
            )
        }),
    decreases bs.len(),
{
    if bs.len() == 0 {
        assert(lines_text(segs, st.lines.push(st.cur)) + Seq::<char>::empty() =~= lines_text(segs, st.lines.push(st.cur)));
    } else {
        let c = collect_pieces(segs, st.seg, st.chr, bs[0].0, bs[0].1);
        lemma_collect_valid(segs, st.seg, st.chr, bs[0].0, bs[0].1);
        lemma_process_break_keeps_text(segs, width, st, bs[0]);
        let st1 = process_break(segs, width, st, bs[0]);
        assert forall|k: int| 0 <= k < bs.drop_first().len() implies position_valid(segs, #[trigger] bs.drop_first()[k].0, bs.drop_first()[k].1) by {
            assert(bs.drop_first()[k] == bs[k + 1]);
        }
        lemma_process_breaks_keeps_text(segs, width, st1, bs.drop_first());
        assert(lines_text(segs, st.lines.push(st.cur)) + pieces_text(segs, c.0) + breaks_text(segs, c.1, c.2, bs.drop_first())
            =~= lines_text(segs, st.lines.push(st.cur)) + (pieces_text(segs, c.0) + breaks_text(segs, c.1, c.2, bs.drop_first())));
    }
}

/// Merging neighbouring pieces keeps their text.
pub proof fn lemma_merge_keeps_text(segs: Seq<Seq<char>>, ps: Seq<Piece>)
    requires
        forall|j: int| 0 <= j < ps.len() ==> piece_valid(segs, #[trigger] ps[j]),
    ensures
        pieces_text(segs, merge_pieces(ps)) == pieces_text(segs, ps),
    decreases ps.len(),
{
    if ps.len() > 1 {
        let d = ps.drop_last();
        assert forall|j: int| 0 <= j < d.len() implies piece_valid(segs, #[trigger] d[j]) by {
            assert(d[j] == ps[j]);
        }
        lemma_merge_keeps_text(segs, d);
        lemma_merge_valid(segs, d);
        let m = merge_pieces(d);
        let p = ps.last();
        let prev = m.last();
        assert(piece_valid(segs, prev));
        assert(piece_valid(segs, p));
        if p.index == prev.index && p.start == prev.end {
            let q = Piece { index: p.index, start: prev.start, end: p.end, width: sat_add(prev.width as int, p.width as int) };
            let u = m.update(m.len() - 1, q);
            assert(u.drop_last() =~= m.drop_last());
            assert(u.last() == q);
            assert(piece_text(segs, q) =~= piece_text(segs, prev) + piece_text(segs, p));
            assert(pieces_text(segs, m) == pieces_text(segs, m.drop_last()) + piece_text(segs, prev));
            assert(pieces_text(segs, u) =~= pieces_text(segs, m) + piece_text(segs, p));
        } else {
            lemma_pieces_text_push(segs, m, p);
        }
    }
}

/// The text of a line made from pieces is the text of the pieces.
proof fn lemma_line_text_matches(segs: Seq<Seq<char>>, l: LineV, line: SegmentedStringLine, n: int)
    requires
        line_matches(segs, l, line),
        0 <= n <= l.0.len(),
    ensures
        line_text(line.parts().take(n)) == pieces_text(segs, l.0.take(n)),
    decreases n,
{
    if n > 0 {
        lemma_line_text_matches(segs, l, line, n - 1);
        assert(line.parts().take(n).drop_last() =~= line.parts().take(n - 1));
        assert(l.0.take(n).drop_last() =~= l.0.take(n - 1));
        assert(line.parts().take(n).last() == line.segments@[n - 1].view_of());
        assert(piece_matches(segs, l.0[n - 1], line.segments@[n - 1]));
    } else {
        assert(line.parts().take(0) =~= Seq::<SegView>::empty());
        assert(l.0.take(0) =~= Seq::<Piece>::empty());
    }
}

/// The widths of parts, added up, saturating at `usize::MAX`.
pub open spec fn parts_width(parts: Seq<SegView>) -> usize
    decreases parts.len(),
{
    if parts.len() == 0 {
        0
    } else {
        sat_add(parts_width(parts.drop_last()) as int, parts.last().width as int)
    }
}

/// A line's width is the sum of its pieces' widths.
pub open spec fn width_is_sum(l: LineV) -> bool {
    l.1 == sum_widths(l.0)
}

proof fn lemma_sum_widths_concat(a: Seq<Piece>, b: Seq<Piece>)
    ensures
        sum_widths(a + b) == sat_add(sum_widths(a) as int, sum_widths(b) as int),
    decreases b.len(),
{
    if b.len() == 0 {
        assert(a + b =~= a);
    } else {
        lemma_sum_widths_concat(a, b.drop_last());
        assert((a + b).drop_last() =~= a + b.drop_last());
        assert((a + b).last() == b.last());
        lemma_sat_add_assoc(sum_widths(a) as int, sum_widths(b.drop_last()) as int, b.last().width as int);
    }
}

proof fn lemma_push_piece_sum(l: LineV, p: Piece)
    requires
        width_is_sum(l),
    ensures
        width_is_sum(push_piece(l, p)),
{
    assert(l.0.push(p).drop_last() =~= l.0);
}

proof fn lemma_all_sums_push(ls: Seq<LineV>, l: LineV)
    requires
        forall|i: int| 0 <= i < ls.len() ==> width_is_sum(#[trigger] ls[i]),
        width_is_sum(l),
    ensures
        forall|i: int| 0 <= i < ls.push(l).len() ==> width_is_sum(#[trigger] ls.push(l)[i]),
{
    assert forall|i: int| 0 <= i < ls.push(l).len() implies width_is_sum(#[trigger] ls.push(l)[i]) by {
        if i < ls.len() {
            assert(ls.push(l)[i] == ls[i]);
        }
    }
}

proof fn lemma_force_split_sums(
    segs: Seq<Seq<char>>,
    p: Piece,
    idx: int,
    twi: int,
    width: int,
    lines: Seq<LineV>,
    cur: LineV,
    w: int,
    start: int,
)
    requires
        forall|i: int| 0 <= i < lines.len() ==> width_is_sum(#[trigger] lines[i]),
        width_is_sum(cur),
    ensures
        ({
            let f = force_split(segs, p, idx, twi, width, lines, cur, w, start);
            &&& forall|i: int| 0 <= i < f.0.len() ==> width_is_sum(#[trigger] f.0[i])
            &&& width_is_sum(f.1)
        }),
    decreases twi - idx,
{
    if idx < twi {
        let cw = unicode::char_cols(piece_text(segs, p)[idx]) as int;
        if w > 0 && w + cw > width {
            let done = if idx > start {
                push_piece(cur, sub_piece(segs, p, start, idx))
            } else {
                cur
            };
            lemma_push_piece_sum(cur, sub_piece(segs, p, start, idx));
            lemma_all_sums_push(lines, done);
            assert(empty_line().0 =~= Seq::<Piece>::empty());
            lemma_force_split_sums(segs, p, idx + 1, twi, width, lines.push(done), empty_line(), cw, idx);
        } else {
            lemma_force_split_sums(segs, p, idx + 1, twi, width, lines, cur, w + cw, start);
        }
    }
}

proof fn lemma_place_pieces_sums(segs: Seq<Seq<char>>, width: int, lines: Seq<LineV>, cur: LineV, ps: Seq<Piece>)
    requires
        forall|i: int| 0 <= i < lines.len() ==> width_is_sum(#[trigger] lines[i]),
        width_is_sum(cur),
    ensures
        ({
            let r = place_pieces(segs, width, lines, cur, ps);
            &&& forall|i: int| 0 <= i < r.0.len() ==> width_is_sum(#[trigger] r.0[i])
            &&& width_is_sum(r.1)
        }),
    decreases ps.len(),
{
    if ps.len() > 0 {
        let p = ps[0];
        let text = piece_text(segs, p);
        let twi = trailing_ws_start(text);
        let r = place_piece(segs, width, lines, cur, p);
        let f = force_split(segs, p, 0, twi, width, lines, cur, cur.1 as int, 0);
        lemma_force_split_sums(segs, p, 0, twi, width, lines, cur, cur.1 as int, 0);
        lemma_push_piece_sum(f.1, sub_piece(segs, p, f.2, text.len() as int));
        lemma_push_piece_sum(cur, p);
        lemma_place_pieces_sums(segs, width, r.0, r.1, ps.drop_first());
    }
}

proof fn lemma_process_breaks_sums(segs: Seq<Seq<char>>, width: int, st: WrapState, bs: Seq<(int, int, BreakOpportunity)>)
    requires
        forall|i: int| 0 <= i < st.lines.len() ==> width_is_sum(#[trigger] st.lines[i]),
        width_is_sum(st.cur),
    ensures
        ({
            let r = process_breaks(segs, width, st, bs);
            &&& forall|i: int| 0 <= i < r.lines.len() ==> width_is_sum(#[trigger] r.lines[i])
            &&& width_is_sum(r.cur)
        }),
    decreases bs.len(),
{
    if bs.len() > 0 {
        let b = bs[0];
        let c = collect_pieces(segs, st.seg, st.chr, b.0, b.1);
        let ps = c.0;
        let nlw = sum_widths(ps);
        let tw = trailing_ws_cols(pieces_text(segs, ps));
        let e = empty_line();
        assert(e.0 =~= Seq::<Piece>::empty());
        let placed = if st.cur.1 + sat_sub(nlw as int, tw as int) <= width {
            (st.lines, (st.cur.0 + ps, sat_add(st.cur.1 as int, nlw as int)))
        } else {
            let (l0, c0) = if st.cur.1 > 0 {
                (st.lines.push(st.cur), empty_line())
            } else {
                (st.lines, st.cur)
            };
            place_pieces(segs, width, l0, c0, ps)
        };
        if st.cur.1 + sat_sub(nlw as int, tw as int) <= width {
            lemma_sum_widths_concat(st.cur.0, ps);
        } else if st.cur.1 > 0 {
            lemma_all_sums_push(st.lines, st.cur);
            lemma_place_pieces_sums(segs, width, st.lines.push(st.cur), e, ps);
        } else {
            lemma_place_pieces_sums(segs, width, st.lines, st.cur, ps);
        }
        if b.2 == BreakOpportunity::Mandatory {
            lemma_all_sums_push(placed.0, placed.1);
        }
        lemma_process_breaks_sums(segs, width, process_break(segs, width, st, b), bs.drop_first());
    }
}

proof fn lemma_merge_sum(ps: Seq<Piece>)
    ensures
        sum_widths(merge_pieces(ps)) == sum_widths(ps),
        ps.len() > 0 ==> merge_pieces(ps).len() > 0,
    decreases ps.len(),
{
    if ps.len() > 1 {
        let d = ps.drop_last();
        lemma_merge_sum(d);
        let m = merge_pieces(d);
        let p = ps.last();
        let prev = m.last();
        if p.index == prev.index && p.start == prev.end {
            let q = Piece { index: p.index, start: prev.start, end: p.end, width: sat_add(prev.width as int, p.width as int) };
            let u = m.update(m.len() - 1, q);
            assert(u.drop_last() =~= m.drop_last());
            assert(u.last() == q);
            lemma_sat_add_assoc(sum_widths(m.drop_last()) as int, prev.width as int, p.width as int);
        } else {
            assert(m.push(p).drop_last() =~= m);
        }
    }
}

/// Every line that wrapping makes is as wide as its pieces together: its
/// width is the sum of their widths (saturating at `usize::MAX`).
pub proof fn lemma_wrapped_widths_add_up(segs: Seq<Seq<char>>, width: int)
    ensures
        forall|i: int| 0 <= i < wrap_lines(segs, width).len() ==> width_is_sum(#[trigger] wrap_lines(segs, width)[i]),
{
    if segs.len() > 0 {
        let bs = linebreak::segment_breaks(segs);
        let init = WrapState { lines: Seq::empty(), cur: empty_line(), seg: 0, chr: 0 };
        assert(init.cur.0 =~= Seq::<Piece>::empty());
        lemma_process_breaks_sums(segs, width, init, bs);
        let st = process_breaks(segs, width, init, bs);
        let last = segs.last();
        let fin = if last.len() > 0 && last.last() == '\n' {
            st.lines.push(push_piece(st.cur, new_piece(segs, segs.len() - 1, last.len() as int, last.len() as int)))
        } else {
            st.lines
        };
        if last.len() > 0 && last.last() == '\n' {
            let np = new_piece(segs, segs.len() - 1, last.len() as int, last.len() as int);
            lemma_push_piece_sum(st.cur, np);
            lemma_all_sums_push(st.lines, push_piece(st.cur, np));
        }
        let w = wrap_lines(segs, width);
        assert forall|i: int| 0 <= i < w.len() implies width_is_sum(#[trigger] w[i]) by {
            lemma_merge_sum(fin[i].0);
            assert(width_is_sum(fin[i]));
        }
    }
}

/// The width of a line made from pieces is the sum of its parts' widths.
proof fn lemma_parts_width_matches(segs: Seq<Seq<char>>, l: LineV, line: SegmentedStringLine, n: int)
    requires
        line_matches(segs, l, line),
        0 <= n <= l.0.len(),
    ensures
        parts_width(line.parts().take(n)) == sum_widths(l.0.take(n)),
    decreases n,
{
    if n > 0 {
        lemma_parts_width_matches(segs, l, line, n - 1);
        assert(line.parts().take(n).drop_last() =~= line.parts().take(n - 1));
        assert(l.0.take(n).drop_last() =~= l.0.take(n - 1));
        assert(line.parts().take(n).last() == line.segments@[n - 1].view_of());
        assert(piece_matches(segs, l.0[n - 1], line.segments@[n - 1]));
    } else {
        assert(line.parts().take(0) =~= Seq::<SegView>::empty());
        assert(l.0.take(0) =~= Seq::<Piece>::empty());
    }
}

} // verus!
