//! Text made of sections in different styles, wrapped and aligned as one.
use vstd::prelude::*;
use crate::canvas::{CanvasSubviewMut, DrawOp};
use crate::color::Color;
use crate::segmented_string::{SegView, SegmentedString, SegmentedStringLine};
use crate::style::{CanvasTextStyle, Weight};
use crate::text::{DrawerView, TextAlign, TextDecoration, TextDrawer, TextWrap};
use crate::{canvas, chars, linebreak, segmented_string, text};

verus! {

/// A section of text in a [`MixedText`] component.
pub struct MixedTextContent {
    /// The text to display.
    pub text: String,
    /// The color to make the text.
    pub color: Option<Color>,
    /// The weight of the text.
    pub weight: Weight,
    /// The text decoration.
    pub decoration: TextDecoration,
    /// Whether to italicize the text.
    pub italic: bool,
}

impl MixedTextContent {
    /// A section with the given text, in the default style.
    pub fn new(text: &str) -> (r: MixedTextContent)
        ensures
            r.text@ == text@,
            r.color is None,
            r.weight == Weight::Normal,
            r.decoration == TextDecoration::Plain,
            !r.italic,
    {
        MixedTextContent {
            text: text.to_owned(),
            color: None,
            weight: Weight::Normal,
            decoration: TextDecoration::Plain,
            italic: false,
        }
    }

    /// The section with the given color.
    pub fn color(self, color: Color) -> (r: MixedTextContent)
        ensures
            r.color == Some(color),
            r.text == self.text,
            r.weight == self.weight,
            r.decoration == self.decoration,
            r.italic == self.italic,
    {
        let mut s = self;
        s.color = Some(color);
        s
    }

    /// The section with the given weight.
    pub fn weight(self, weight: Weight) -> (r: MixedTextContent)
        ensures
            r.weight == weight,
            r.text == self.text,
            r.color == self.color,
            r.decoration == self.decoration,
            r.italic == self.italic,
    {
        let mut s = self;
        s.weight = weight;
        s
    }

    /// The section with the given text decoration.
    pub fn decoration(self, decoration: TextDecoration) -> (r: MixedTextContent)
        ensures
            r.decoration == decoration,
            r.text == self.text,
            r.color == self.color,
            r.weight == self.weight,
            r.italic == self.italic,
    {
        let mut s = self;
        s.decoration = decoration;
        s
    }

    /// The section in italics.
    pub fn italic(self) -> (r: MixedTextContent)
        ensures
            r.italic,
            r.text == self.text,
            r.color == self.color,
            r.weight == self.weight,
            r.decoration == self.decoration,
    {
        let mut s = self;
        s.italic = true;
        s
    }

    /// A copy of the section.
    pub fn copy(&self) -> (r: MixedTextContent)
        ensures
            r.text@ == self.text@,
            r.color == self.color,
            r.weight == self.weight,
            r.decoration == self.decoration,
            r.italic == self.italic,
    {
        MixedTextContent {
            text: self.text.clone(),
            color: self.color,
            weight: self.weight,
            decoration: self.decoration,
            italic: self.italic,
        }
    }
}

/// The style a section is drawn in.
pub open spec fn content_style(c: MixedTextContent) -> CanvasTextStyle {
    text::text_style(c.color, c.weight, c.decoration, c.italic)
}

/// The props which can be passed to the [`MixedText`] component.
pub struct MixedTextProps {
    /// The contents of the text.
    pub contents: Vec<MixedTextContent>,
    /// The text wrapping behavior.
    pub wrap: TextWrap,
    /// The text alignment.
    pub align: TextAlign,
}

/// `MixedText` is a component that renders a text string containing a mix
/// of styles.
pub struct MixedText {
    contents: Vec<MixedTextContent>,
    wrap: TextWrap,
    align: TextAlign,
}

/// The parts a wrapped line becomes.
pub open spec fn piece_parts(segs: Seq<Seq<char>>, l: segmented_string::LineV) -> Seq<SegView> {
    Seq::new(
        l.0.len(),
        |j: int|
            SegView {
                text: segmented_string::piece_text(segs, l.0[j]),
                index: l.0[j].index,
                offset: chars::utf8_len(segs[l.0[j].index as int].take(l.0[j].start as int)) as usize,
                width: l.0[j].width,
            },
    )
}

/// A wrapped line as it is shown: with its trailing whitespace trimmed
/// where the text wraps.
pub open spec fn shown_line(segs: Seq<Seq<char>>, l: segmented_string::LineV, wrap: TextWrap) -> (Seq<SegView>, int) {
    if wrap == TextWrap::Wrap {
        segmented_string::trim_end_parts(piece_parts(segs, l), l.1 as int)
    } else {
        (piece_parts(segs, l), l.1 as int)
    }
}

/// Lines of text in a style: what one call of
/// [`TextDrawer::append_lines`] draws.
pub type Chunk = (Seq<Seq<char>>, CanvasTextStyle);

/// The chunks of a line: spaces for its alignment padding (where that is
/// positive), then each part in its section's style, the last part ending
/// the row.
pub open spec fn line_chunks(contents: Seq<MixedTextContent>, parts: Seq<SegView>, lw: int, align: TextAlign, width: int) -> Seq<Chunk> {
    let pad = text::alignment_padding_spec(lw, align, width);
    let padding: Seq<Chunk> = if pad > 0 {
        seq![(seq![canvas::spaces(pad as nat)], crate::style::plain_style())]
    } else {
        Seq::empty()
    };
    padding + Seq::new(
        parts.len(),
        |k: int|
            (
                if k + 1 < parts.len() {
                    seq![parts[k].text]
                } else {
                    seq![parts[k].text, Seq::<char>::empty()]
                },
                content_style(contents[parts[k].index as int]),
            ),
    )
}

/// The chunks of lines, one line after another.
pub open spec fn lines_chunks(
    contents: Seq<MixedTextContent>,
    lines: Seq<(Seq<SegView>, int)>,
    align: TextAlign,
    width: int,
) -> Seq<Chunk>
    decreases lines.len(),
{
    if lines.len() == 0 {
        Seq::empty()
    } else {
        lines_chunks(contents, lines.drop_last(), align, width) + line_chunks(
            contents,
            lines.last().0,
            lines.last().1,
            align,
            width,
        )
    }
}

/// What drawing chunks one after another does: the drawer's state after,
/// and the operations.
pub open spec fn chunks_effect(d: DrawerView, chunks: Seq<Chunk>) -> (DrawerView, Seq<DrawOp>)
    decreases chunks.len(),
{
    if chunks.len() == 0 {
        (d, Seq::empty())
    } else {
        let before = chunks_effect(d, chunks.drop_last());
        let r = text::append_spec(before.0, chunks.last().0, chunks.last().1);
        (r.0, before.1 + r.1)
    }
}

/// What drawing chunks needs: each call's lines fit in memory and can be
/// appended where the drawer then is.
pub open spec fn chunks_ok(sub: &CanvasSubviewMut, d: DrawerView, chunks: Seq<Chunk>) -> bool
    decreases chunks.len(),
{
    if chunks.len() == 0 {
        true
    } else {
        &&& chunks_ok(sub, d, chunks.drop_last())
        &&& forall|i: int| 0 <= i < chunks.last().0.len() ==> chars::utf8_len(#[trigger] chunks.last().0[i]) <= usize::MAX
        &&& text::append_ok(sub, chunks_effect(d, chunks.drop_last()).0, chunks.last().0)
    }
}

/// What the chunks of a prefix need, the whole needs.
proof fn lemma_chunks_ok_prefix(sub: &CanvasSubviewMut, d: DrawerView, chunks: Seq<Chunk>, k: int)
    requires
        chunks_ok(sub, d, chunks),
        0 <= k <= chunks.len(),
    ensures
        chunks_ok(sub, d, chunks.take(k)),
    decreases chunks.len(),
{
    if k < chunks.len() {
        assert(chunks.drop_last().take(k) =~= chunks.take(k));
        lemma_chunks_ok_prefix(sub, d, chunks.drop_last(), k);
    } else {
        assert(chunks.take(k) =~= chunks);
    }
}

/// The state the drawer of a text starts in.
pub open spec fn start_drawer(align: TextAlign) -> DrawerView {
    DrawerView { x_offset: 0, x: 0, y: 0, seen: false, skip: align != TextAlign::Left }
}

/// The wrap width: the width where the text wraps, else as wide as can be.
pub open spec fn wrap_width(wrap: TextWrap, width: usize) -> usize {
    if wrap == TextWrap::Wrap {
        width
    } else {
        usize::MAX
    }
}

impl MixedText {
    /// The sections.
    pub closed spec fn contents_v(&self) -> Seq<MixedTextContent> {
        self.contents@
    }

    /// The wrapping behavior.
    pub closed spec fn wrap_v(&self) -> TextWrap {
        self.wrap
    }

    /// The alignment.
    pub closed spec fn align_v(&self) -> TextAlign {
        self.align
    }

    /// The texts of the sections.
    pub open spec fn segs(&self) -> Seq<Seq<char>> {
        Seq::new(self.contents_v().len(), |i: int| self.contents_v()[i].text@)
    }

    /// The lines shown for a width.
    pub open spec fn shown_lines(&self, width: usize) -> Seq<(Seq<SegView>, int)> {
        segmented_string::wrap_lines(self.segs(), wrap_width(self.wrap_v(), width) as int).map_values(
            |l: segmented_string::LineV| shown_line(self.segs(), l, self.wrap_v()),
        )
    }

    /// Whether the width of every line shown for a width fits in an `isize`.
    pub open spec fn widths_ok(&self, width: usize) -> bool {
        forall|i: int| 0 <= i < self.shown_lines(width).len() ==> 0 <= #[trigger] self.shown_lines(width)[i].1 <= isize::MAX
    }

    /// What drawing for a width appends.
    pub open spec fn chunks(&self, width: usize) -> Seq<Chunk> {
        lines_chunks(self.contents_v(), self.shown_lines(width), self.align_v(), width as int)
    }

    /// No sections, wrapped and aligned left.
    pub fn new() -> (r: MixedText)
        ensures
            r.contents_v().len() == 0,
            r.wrap_v() == TextWrap::Wrap,
            r.align_v() == TextAlign::Left,
    {
        MixedText { contents: Vec::new(), wrap: TextWrap::Wrap, align: TextAlign::Left }
    }

    /// Takes in new props.
    pub fn update(&mut self, props: &MixedTextProps)
        ensures
            final(self).contents_v().len() == props.contents@.len(),
            forall|i: int| 0 <= i < props.contents@.len() ==> {
                let a = #[trigger] final(self).contents_v()[i];
                let b = props.contents@[i];
                a.text@ == b.text@ && a.color == b.color && a.weight == b.weight && a.decoration
                    == b.decoration && a.italic == b.italic
            },
            final(self).wrap_v() == props.wrap,
            final(self).align_v() == props.align,
    {
        let mut contents: Vec<MixedTextContent> = Vec::new();
        let mut i: usize = 0;
        while i < props.contents.len()
            invariant
                i <= props.contents@.len(),
                contents@.len() == i,
                forall|k: int| 0 <= k < i ==> {
                    let a = #[trigger] contents@[k];
                    let b = props.contents@[k];
                    a.text@ == b.text@ && a.color == b.color && a.weight == b.weight && a.decoration
                        == b.decoration && a.italic == b.italic
                },
            decreases props.contents@.len() - i,
        {
            contents.push(props.contents[i].copy());
            i += 1;
        }
        self.contents = contents;
        self.wrap = props.wrap;
        self.align = props.align;
    }

    /// The text of all sections together (what is measured for layout).
    pub fn plain_text(&self) -> (r: String)
        ensures
            r@ == linebreak::concat(self.segs()),
    {
        let mut out = String::new();
        let mut i: usize = 0;
        while i < self.contents.len()
            invariant
                i <= self.contents@.len(),
                out@ == linebreak::concat(self.segs().take(i as int)),
            decreases self.contents@.len() - i,
        {
            chars::push_str(&mut out, self.contents[i].text.as_str());
            i += 1;
            assert(self.segs().take(i as int).drop_last() =~= self.segs().take(i - 1));
        }
        assert(self.segs().take(self.contents@.len() as int) =~= self.segs());
        out
    }
}


/// The chunks of the first lines are where the chunks of all lines start.
proof fn lemma_lines_chunks_prefix(
    contents: Seq<MixedTextContent>,
    ls: Seq<(Seq<SegView>, int)>,
    i: int,
    align: TextAlign,
    width: int,
)
    requires
        0 <= i <= ls.len(),
    ensures
        lines_chunks(contents, ls.take(i), align, width).len() <= lines_chunks(contents, ls, align, width).len(),
        lines_chunks(contents, ls, align, width).take(lines_chunks(contents, ls.take(i), align, width).len() as int)
            == lines_chunks(contents, ls.take(i), align, width),
    decreases ls.len(),
{
    if i == ls.len() {
        assert(ls.take(i) =~= ls);
        assert(lines_chunks(contents, ls, align, width).take(lines_chunks(contents, ls, align, width).len() as int)
            =~= lines_chunks(contents, ls, align, width));
    } else {
        lemma_lines_chunks_prefix(contents, ls.drop_last(), i, align, width);
        assert(ls.drop_last().take(i) =~= ls.take(i));
        let a = lines_chunks(contents, ls.take(i), align, width);
        let b = lines_chunks(contents, ls.drop_last(), align, width);
        let c = lines_chunks(contents, ls, align, width);
        assert(c == b + line_chunks(contents, ls.last().0, ls.last().1, align, width));
        assert(c.take(a.len() as int) =~= b.take(a.len() as int));
    }
}

/// Draws one chunk with a drawer, where it is the next chunk of `all` and
/// the chunks before it could be drawn; returns whether this one could be
/// (see [`chunks_ok`]), and draws nothing where it could not.
fn draw_chunk(
    drawer: &mut TextDrawer,
    sub: &mut CanvasSubviewMut,
    lines: &Vec<String>,
    style: CanvasTextStyle,
    start: Ghost<CanvasSubviewMut>,
    rows0: Ghost<Seq<Seq<canvas::CellView>>>,
    d0: Ghost<DrawerView>,
    done: Ghost<Seq<Chunk>>,
) -> (ok: bool)
    requires
        old(sub).same_region(&start@),
        chunks_ok(&start@, d0@, done@),
        old(drawer).view_of() == chunks_effect(d0@, done@).0,
        (*old(sub).target()).rows() == start@.ops_effect(rows0@, chunks_effect(d0@, done@).1),
    ensures
        ok == chunks_ok(&start@, d0@, done@.push((text::string_views(lines@), style))),
        final(sub).same_region(&start@),
        *final(final(sub).target()) == *final(old(sub).target()),
        ok ==> final(drawer).view_of() == chunks_effect(d0@, done@.push((text::string_views(lines@), style))).0,
        ok ==> (*final(sub).target()).rows() == start@.ops_effect(
            rows0@,
            chunks_effect(d0@, done@.push((text::string_views(lines@), style))).1,
        ),
        !ok ==> final(drawer).view_of() == old(drawer).view_of(),
        !ok ==> (*final(sub).target()).rows() == (*old(sub).target()).rows(),
{
    let ghost sub0 = *sub;
    let ghost c: Chunk = (text::string_views(lines@), style);
    let ghost next = done@.push(c);
    proof {
        assert(next.drop_last() =~= done@);
        assert(next.last() == c);
        text::lemma_same_region_append_ok(&sub0, &start@, chunks_effect(d0@, done@).0, c.0);
    }
    let fit = text::lengths_fit(lines);
    proof {
        assert((forall|i: int| 0 <= i < lines@.len() ==> chars::utf8_len(#[trigger] lines@[i]@) <= usize::MAX)
            == (forall|i: int| 0 <= i < c.0.len() ==> chars::utf8_len(#[trigger] c.0[i]) <= usize::MAX)) by {
            if forall|i: int| 0 <= i < c.0.len() ==> chars::utf8_len(#[trigger] c.0[i]) <= usize::MAX {
                assert forall|i: int| 0 <= i < lines@.len() implies chars::utf8_len(#[trigger] lines@[i]@) <= usize::MAX by {
                    assert(c.0[i] == lines@[i]@);
                }
            }
            if forall|i: int| 0 <= i < lines@.len() ==> chars::utf8_len(#[trigger] lines@[i]@) <= usize::MAX {
                assert forall|i: int| 0 <= i < c.0.len() implies chars::utf8_len(#[trigger] c.0[i]) <= usize::MAX by {
                    assert(c.0[i] == lines@[i]@);
                }
            }
        }
    }
    if !fit {
        return false;
    }
    if !drawer.fits(&*sub, lines) {
        return false;
    }
    drawer.append_lines(sub, lines, style);
    proof {
        let r = text::append_spec(chunks_effect(d0@, done@).0, c.0, style);
        canvas::lemma_same_region_ops(&sub0, &start@, (*sub0.target()).rows(), r.1);
        canvas::lemma_ops_effect_concat(&start@, rows0@, chunks_effect(d0@, done@).1, r.1);
    }
    true
}

impl MixedText {
    /// Draws the text onto a region `width` columns wide: the sections are
    /// wrapped together (to the width where the text wraps), each line is
    /// trimmed (where it wraps), padded for its alignment and drawn part by
    /// part in its section's style, as [`lines_chunks`] lists. Where the
    /// positions involved do not fit the machine's integers (a line's width
    /// does not fit in an `isize`, or [`chunks_ok`] fails), drawing stops
    /// before the first chunk that cannot be drawn and `false` is returned.
    #[verifier::rlimit(40)]
    pub fn draw(&self, sub: &mut CanvasSubviewMut, width: usize) -> (r: bool)
        requires
            width <= isize::MAX,
            chars::utf8_len(linebreak::concat(self.segs())) <= usize::MAX,
        ensures
            r == (self.widths_ok(width) && chunks_ok(&*old(sub), start_drawer(self.align_v()), self.chunks(width))),
            r ==> (*final(sub).target()).rows() == old(sub).ops_effect(
                (*old(sub).target()).rows(),
                chunks_effect(start_drawer(self.align_v()), self.chunks(width)).1,
            ),
            !r ==> exists|k: int| 0 <= k <= self.chunks(width).len()
                && (*final(sub).target()).rows() == old(sub).ops_effect(
                    (*old(sub).target()).rows(),
                    #[trigger] chunks_effect(start_drawer(self.align_v()), self.chunks(width).take(k)).1,
                ),
            final(sub).same_region(&*old(sub)),
            *final(final(sub).target()) == *final(old(sub).target()),
    {
        let ghost start = *sub;
        let ghost rows0 = (*sub.target()).rows();
        let ghost segs = self.segs();
        let mut texts: Vec<&str> = Vec::new();
        let mut i: usize = 0;
        while i < self.contents.len()
            invariant
                i <= self.contents@.len(),
                texts@.len() == i,
                forall|k: int| 0 <= k < i ==> #[trigger] texts@[k]@ == self.contents@[k].text@,
            decreases self.contents@.len() - i,
        {
            texts.push(self.contents[i].text.as_str());
            i += 1;
        }
        let ss = SegmentedString::from_segments(texts);
        assert(ss.segs() =~= segs);
        let ww = match self.wrap {
            TextWrap::Wrap => width,
            TextWrap::NoWrap => usize::MAX,
        };
        let lines = ss.wrap(ww);
        let ghost wl = segmented_string::wrap_lines(segs, ww as int);
        let ghost shown = self.shown_lines(width);
        let ghost all = self.chunks(width);
        let ghost d0 = start_drawer(self.align);
        let skip = match self.align {
            TextAlign::Left => false,
            _ => true,
        };
        let mut drawer = TextDrawer::new(0, skip);
        let ghost mut done: Seq<Chunk> = Seq::empty();
        assert(shown.take(0) =~= Seq::<(Seq<SegView>, int)>::empty());
        let mut i: usize = 0;
        while i < lines.len()
            invariant
                i <= lines@.len(),
                lines@.len() == wl.len(),
                shown.len() == wl.len(),
                wl == segmented_string::wrap_lines(segs, ww as int),
                shown == self.shown_lines(width),
                ww == wrap_width(self.wrap, width),
                segs == self.segs(),
                all == self.chunks(width),
                d0 == start_drawer(self.align),
                width <= isize::MAX,
                forall|k: int| 0 <= k < lines@.len() ==> segmented_string::line_matches(segs, wl[k], #[trigger] lines@[k]),
                segmented_string::lines_valid(segs, wl),
                forall|k: int| 0 <= k < i ==> 0 <= #[trigger] shown[k].1 <= isize::MAX,
                chunks_ok(&start, d0, done),
                done.len() <= all.len(),
                all.take(done.len() as int) == done,
                start == *old(sub),
                rows0 == (*old(sub).target()).rows(),
                done == lines_chunks(self.contents_v(), shown.take(i as int), self.align, width as int),
                drawer.view_of() == chunks_effect(d0, done).0,
                sub.same_region(&start),
                *final(sub.target()) == *final(start.target()),
                (*sub.target()).rows() == start.ops_effect(rows0, chunks_effect(d0, done).1),
            decreases lines@.len() - i,
        {
            proof {
                lemma_lines_chunks_prefix(self.contents_v(), shown, i + 1, self.align, width as int);
                assert(shown.take(i + 1).drop_last() =~= shown.take(i as int));
            }
            let mut line = lines[i].copy();
            proof {
                assert(segmented_string::line_matches(segs, wl[i as int], lines@[i as int]));
                assert(line.parts() =~= piece_parts(segs, wl[i as int]));
                assert forall|j: int| 0 <= j < line.parts().len() implies #[trigger] line.parts()[j].index < segs.len() by {
                    assert(segmented_string::piece_valid(segs, wl[i as int].0[j]));
                }
            }
            let ghost before_trim = line.parts();
            match self.wrap {
                TextWrap::Wrap => {
                    line.trim_end();
                    proof {
                        segmented_string::lemma_trim_end_indices(before_trim, lines@[i as int].width as int, segs.len() as int);
                    }
                },
                TextWrap::NoWrap => {},
            }
            assert(shown[i as int] == (line.parts(), line.width as int));
            if line.width > isize::MAX as usize {
                proof {
                    assert(chunks_effect(d0, all.take(done.len() as int)) == chunks_effect(d0, done));
                }
                return false;
            }
            let ghost base = done;
            let ghost lc = line_chunks(self.contents_v(), line.parts(), line.width as int, self.align, width as int);
            assert(lines_chunks(self.contents_v(), shown.take(i + 1), self.align, width as int) == base + lc);
            let padding = text::alignment_padding(line.width, self.align, width);
            let ghost npad: int = if padding > 0 { 1 } else { 0 };
            if padding > 0 {
                let sp = chars::repeat_char(' ', padding as usize);
                let mut v: Vec<String> = Vec::new();
                v.push(sp);
                assert(text::string_views(v@) =~= seq![canvas::spaces(padding as nat)]);
                assert(lc[0] == (text::string_views(v@), crate::style::plain_style()));
                assert(all.take(done.len() + 1int) =~= done.push((text::string_views(v@), crate::style::plain_style())));
                if !draw_chunk(&mut drawer, sub, &v, CanvasTextStyle::default(), Ghost(start), Ghost(rows0), Ghost(d0), Ghost(done)) {
                    proof {
                        if chunks_ok(&start, d0, all) {
                            lemma_chunks_ok_prefix(&start, d0, all, done.len() + 1int);
                        }
                        assert(chunks_effect(d0, all.take(done.len() as int)) == chunks_effect(d0, done));
                    }
                    return false;
                }
                proof {
                    done = done.push((text::string_views(v@), crate::style::plain_style()));
                }
            }
            let n = line.segments.len();
            let mut k: usize = 0;
            assert(done =~= base + lc.take(npad + k));
            while k < n
                invariant
                    k <= n,
                    n == line.segments@.len(),
                    0 <= npad <= 1,
                    lc.len() == npad + n,
                    lc == line_chunks(self.contents_v(), line.parts(), line.width as int, self.align, width as int),
                    forall|j: int| 0 <= j < line.parts().len() ==> #[trigger] line.parts()[j].index < segs.len(),
                    segs.len() == self.contents@.len(),
                    all == self.chunks(width),
                    chunks_ok(&start, d0, done),
                    start == *old(sub),
                    rows0 == (*old(sub).target()).rows(),
                    d0 == start_drawer(self.align),
                    (base + lc).len() <= all.len(),
                    all.take((base + lc).len() as int) == base + lc,
                    done == base + lc.take(npad + k),
                    drawer.view_of() == chunks_effect(d0, done).0,
                    sub.same_region(&start),
                    *final(sub.target()) == *final(start.target()),
                    (*sub.target()).rows() == start.ops_effect(rows0, chunks_effect(d0, done).1),
                decreases n - k,
            {
                let seg = &line.segments[k];
                assert(line.parts()[k as int].index == seg.index);
                let content = &self.contents[seg.index];
                let underline = match content.decoration {
                    TextDecoration::Underline => true,
                    TextDecoration::Plain => false,
                };
                let style = CanvasTextStyle::new(content.color, content.weight, underline, content.italic);
                let mut v: Vec<String> = Vec::new();
                v.push(seg.text.clone());
                if k + 1 >= n {
                    v.push(String::new());
                }
                let ghost c: Chunk = (text::string_views(v@), style);
                assert(c == lc[npad + k]) by {
                    if k + 1 < n {
                        assert(text::string_views(v@) =~= seq![line.parts()[k as int].text]);
                    } else {
                        assert(text::string_views(v@) =~= seq![line.parts()[k as int].text, Seq::<char>::empty()]);
                    }
                }
                assert(lc.take(npad + k + 1) =~= lc.take(npad + k).push(c));
                assert(all.take(done.len() + 1int) =~= done.push(c)) by {
                    assert(all.take(done.len() + 1int) =~= (base + lc).take(done.len() + 1int));
                }
                assert(all.take(done.len() as int) =~= done) by {
                    assert(all.take(done.len() as int) =~= (base + lc).take(done.len() as int));
                }
                if !draw_chunk(&mut drawer, sub, &v, style, Ghost(start), Ghost(rows0), Ghost(d0), Ghost(done)) {
                    proof {
                        if chunks_ok(&start, d0, all) {
                            lemma_chunks_ok_prefix(&start, d0, all, done.len() + 1int);
                        }
                        assert(chunks_effect(d0, all.take(done.len() as int)) == chunks_effect(d0, done));
                    }
                    return false;
                }
                proof {
                    done = done.push(c);
                }
                k += 1;
            }
            assert(lc.take(npad + n) =~= lc);
            i += 1;
        }
        assert(shown.take(lines@.len() as int) =~= shown);
        assert(done == all);
        proof {
            canvas::lemma_same_region_ops(&start, &*old(sub), rows0, chunks_effect(d0, all).1);
        }
        true
    }
}

/// Each section of mixed text is drawn in the style its content asks for:
/// its color, weight and slant, underlined exactly when its decoration is
/// an underline.
pub proof fn lemma_section_style_keeps_content(c: MixedTextContent)
    ensures
        content_style(c).italic == c.italic,
        content_style(c).color == c.color,
        content_style(c).weight == c.weight,
        content_style(c).underline <==> c.decoration == TextDecoration::Underline,
{
    text::lemma_text_style_keeps_props(c.color, c.weight, c.decoration, c.italic);
}

} // verus!
