//! Line break opportunities as the Unicode Line Breaking Algorithm (UAX #14)
//! finds them, over one string or over a sequence of string segments.
use vstd::prelude::*;
use crate::chars::{push_str, to_chars, utf8_prefix_len};
use crate::chars;

verus! {

/// The line breaking class of a code point (`unicode_linebreak::BreakClass`).
#[verifier::external_type_specification]
#[verifier::external_body]
pub struct ExBreakClass(::unicode_linebreak::BreakClass);

/// Break opportunity type.
#[derive(Clone, Copy, Debug, PartialEq, Eq, Structural)]
pub enum BreakOpportunity {
    /// A line must break at this spot.
    Mandatory,
    /// A line is allowed to end at this spot.
    Allowed,
}

/// `unicode_linebreak::break_property`: returns the line breaking class of a
/// code point. The class is an opaque outside type here, so nothing is
/// stated of it.
#[verifier::external_body]
pub fn break_property(codepoint: u32) -> ::unicode_linebreak::BreakClass {
    ::unicode_linebreak::break_property(codepoint)
}

/// The break opportunities `unicode_linebreak::linebreaks` finds in a
/// string: each the byte index of the character after the break, and its type.
pub uninterp spec fn linebreaks_of(s: Seq<char>) -> Seq<(usize, BreakOpportunity)>;

/// `unicode_linebreak::linebreaks`, collected: the contract names the result,
/// a function of the characters alone. Each index is a character boundary:
/// the crate takes the indices from `str::char_indices`, and the end of the
/// string.
#[verifier::external_body]
pub fn linebreaks(s: &str) -> (r: Vec<(usize, BreakOpportunity)>)
    ensures
        r@ == linebreaks_of(s@),
        forall|k: int| 0 <= k < r@.len() ==> chars::is_boundary(s@, #[trigger] r@[k].0 as int),
{
    ::unicode_linebreak::linebreaks(s).map(|(i, b)| (i, match b {
        ::unicode_linebreak::BreakOpportunity::Mandatory => BreakOpportunity::Mandatory,
        ::unicode_linebreak::BreakOpportunity::Allowed => BreakOpportunity::Allowed,
    })).collect()
}

/// The number of characters in the first part of what
/// `unicode_linebreak::split_at_safe` returns for a string.
pub uninterp spec fn safe_split_of(s: Seq<char>) -> nat;

/// `unicode_linebreak::split_at_safe`: divides the string at the last index
/// where further breaks do not depend on prior context. The two parts make up
/// the string (the crate returns `str::split_at` of it); where it divides is
/// named, a function of the characters alone. The second part keeps at
/// least three characters, or the whole string where it is shorter: the
/// crate walks back from the last character, and splits one character
/// before the first safe pair it finds after the second-to-last character,
/// or at the start where there is none.
#[verifier::external_body]
pub fn split_at_safe(s: &str) -> (r: (&str, &str))
    ensures
        r.0@ + r.1@ == s@,
        r.0@.len() == safe_split_of(s@),
        r.1@.len() >= (if s@.len() < 3 { s@.len() } else { 3 }),
{
    ::unicode_linebreak::split_at_safe(s)
}

/// The number of characters of `s` that start before byte `b`: the index of
/// the character at byte `b`, or the length of `s` past its end.
pub open spec fn char_index_of_byte(s: Seq<char>, b: int) -> nat
    decreases s.len(),
{
    if s.len() == 0 {
        0
    } else if chars::utf8_len(s.drop_last()) < b {
        s.len()
    } else {
        char_index_of_byte(s.drop_last(), b)
    }
}

proof fn lemma_char_index_of_byte_le(s: Seq<char>, b: int)
    ensures
        char_index_of_byte(s, b) <= s.len(),
    decreases s.len(),
{
    if s.len() > 0 {
        lemma_char_index_of_byte_le(s.drop_last(), b);
    }
}

/// At the byte where character `j` starts, the character index is `j`.
proof fn lemma_char_index_of_boundary(s: Seq<char>, j: int)
    requires
        0 <= j <= s.len(),
    ensures
        char_index_of_byte(s, chars::utf8_len(s.take(j)) as int) == j,
    decreases s.len(),
{
    if s.len() == 0 {
        assert(j == 0);
    } else {
        let d = s.drop_last();
        assert(s.take(s.len() - 1) =~= d);
        if j == s.len() {
            chars::lemma_utf8_len_take_mono(s, s.len() - 1, s.len() as int);
        } else {
            chars::lemma_utf8_len_take_mono(s, j, s.len() - 1);
            assert(d.take(j) =~= s.take(j));
            lemma_char_index_of_boundary(d, j);
        }
    }
}

/// The concatenation of segments.
pub open spec fn concat(segs: Seq<Seq<char>>) -> Seq<char>
    decreases segs.len(),
{
    if segs.len() == 0 {
        Seq::empty()
    } else {
        concat(segs.drop_last()) + segs.last()
    }
}

/// The (segment, character) position of the character at index `g` of the
/// concatenation of `segs`, starting the search at segment `k` whose first
/// character is at index `start`; past the end, the end of the last segment.
pub open spec fn locate_from(segs: Seq<Seq<char>>, k: int, start: int, g: int) -> (int, int)
    decreases segs.len() - k,
{
    if k >= segs.len() {
        if segs.len() == 0 {
            (0, 0)
        } else {
            (segs.len() - 1, segs.last().len() as int)
        }
    } else if g < start + segs[k].len() {
        (k, g - start)
    } else {
        locate_from(segs, k + 1, start + segs[k].len(), g)
    }
}

/// The break opportunities of the concatenation of `segs`, each at the
/// (segment, character) position of the character after the break.
pub open spec fn segment_breaks(segs: Seq<Seq<char>>) -> Seq<(int, int, BreakOpportunity)> {
    let all = concat(segs);
    linebreaks_of(all).map_values(
        |b: (usize, BreakOpportunity)|
            {
                let p = locate_from(segs, 0, 0, char_index_of_byte(all, b.0 as int) as int);
                (p.0, p.1, b.1)
            },
    )
}

proof fn lemma_concat_len(segs: Seq<Seq<char>>, k: int)
    requires
        0 <= k <= segs.len(),
    ensures
        concat(segs.take(k)).len() <= concat(segs).len(),
    decreases segs.len() - k,
{
    if k < segs.len() {
        lemma_concat_len(segs, k + 1);
        assert(segs.take(k + 1).drop_last() =~= segs.take(k));
    } else {
        assert(segs.take(k) =~= segs);
    }
}

fn char_index_of_byte_exec(s: &[char], b: usize) -> (r: usize)
    requires
        chars::utf8_len(s@) <= usize::MAX,
    ensures
        r == char_index_of_byte(s@, b as int),
        r <= s.len(),
{
    // Scan from the end, as the definition does.
    let mut k = s.len();
    let mut bytes = utf8_prefix_len(s, k);
    assert(s@.take(k as int) =~= s@);
    while k > 0
        invariant
            k <= s.len(),
            chars::utf8_len(s@) <= usize::MAX,
            bytes == chars::utf8_len(s@.take(k as int)),
            char_index_of_byte(s@, b as int) == char_index_of_byte(s@.take(k as int), b as int),
        decreases k,
    {
        let prev = utf8_prefix_len(s, k - 1);
        assert(s@.take(k as int).drop_last() =~= s@.take(k - 1));
        if prev < b {
            return k;
        }
        k -= 1;
        bytes = prev;
    }
    0
}

/// Collects the characters of all segments, one after the other.
fn concat_chars(segments: &[&str]) -> (r: (Vec<Vec<char>>, Vec<char>, String))
    ensures
        r.0@.len() == segments@.len(),
        forall|i: int| 0 <= i < segments@.len() ==> #[trigger] r.0@[i]@ == segments@[i]@,
        r.1@ == concat(Seq::new(segments@.len(), |i: int| segments@[i]@)),
        r.2@ == r.1@,
{
    let ghost segs = Seq::new(segments@.len(), |i: int| segments@[i]@);
    let mut parts: Vec<Vec<char>> = Vec::new();
    let mut all: Vec<char> = Vec::new();
    let mut text = String::new();
    let mut i: usize = 0;
    while i < segments.len()
        invariant
            i <= segments.len(),
            segs == Seq::new(segments@.len(), |i: int| segments@[i]@),
            parts@.len() == i,
            forall|k: int| 0 <= k < i ==> #[trigger] parts@[k]@ == segments@[k]@,
            all@ == concat(segs.take(i as int)),
            text@ == all@,
        decreases segments.len() - i,
    {
        let cs = to_chars(segments[i]);
        push_str(&mut text, segments[i]);
        let mut j: usize = 0;
        let ghost before = all@;
        while j < cs.len()
            invariant
                j <= cs.len(),
                all@ == before + cs@.take(j as int),
            decreases cs.len() - j,
        {
            all.push(cs[j]);
            j += 1;
            assert(all@ =~= before + cs@.take(j as int));
        }
        assert(segs.take(i + 1).drop_last() =~= segs.take(i as int));
        assert(cs@.take(cs.len() as int) =~= cs@);
        parts.push(cs);
        i += 1;
    }
    assert(segs.take(segments.len() as int) =~= segs);
    (parts, all, text)
}

/// The characters of each segment and the break opportunities across the
/// segments, each at a (segment, character index) position.
pub(crate) fn char_breaks(segments: &[&str]) -> (r: (Vec<Vec<char>>, Vec<(usize, usize, BreakOpportunity)>))
    requires
        segments@.len() > 0,
        chars::utf8_len(concat(Seq::new(segments@.len(), |i: int| segments@[i]@))) <= usize::MAX,
    ensures
        ({
            let segs = Seq::new(segments@.len(), |i: int| segments@[i]@);
            let b = segment_breaks(segs);
            &&& r.0@.len() == segs.len()
            &&& forall|k: int| 0 <= k < segs.len() ==> #[trigger] r.0@[k]@ == segs[k]
            &&& r.1@.len() == b.len()
            &&& forall|i: int|
                0 <= i < r.1@.len() ==> {
                    &&& (#[trigger] r.1@[i]).0 == b[i].0
                    &&& r.1@[i].1 == b[i].1
                    &&& r.1@[i].2 == b[i].2
                    &&& 0 <= b[i].0 < segs.len()
                    &&& 0 <= b[i].1 <= segs[b[i].0].len()
                }
        }),
{
    let (parts, all, text) = concat_chars(segments);
    let raw = linebreaks(text.as_str());
    let ghost segs = Seq::new(segments@.len(), |i: int| segments@[i]@);
    let mut out: Vec<(usize, usize, BreakOpportunity)> = Vec::new();
    let mut i: usize = 0;
    let total = all.len();
    assert(concat(segs).len() == total);
    proof {
        lemma_concat_len(segs, segs.len() as int);
        assert(segs.take(segs.len() as int) =~= segs);
    }
    while i < raw.len()
        invariant
            i <= raw.len(),
            raw@ == linebreaks_of(all@),
            all@ == concat(segs),
            segs == Seq::new(segments@.len(), |i: int| segments@[i]@),
            parts@.len() == segs.len(),
            segs.len() > 0,
            forall|k: int| 0 <= k < segs.len() ==> #[trigger] parts@[k]@ == segs[k],
            chars::utf8_len(all@) <= usize::MAX,
            concat(segs).len() <= usize::MAX,
            out@.len() == i,
            forall|k: int|
                0 <= k < i ==> {
                    let b = segment_breaks(segs)[k];
                    &&& (#[trigger] out@[k]).0 == b.0
                    &&& out@[k].1 == b.1
                    &&& out@[k].2 == b.2
                    &&& 0 <= b.0 < segs.len()
                    &&& 0 <= b.1 <= segs[b.0].len()
                },
        decreases raw.len() - i,
    {
        let (b, opp) = raw[i];
        let g = char_index_of_byte_exec(&all, b);
        let (si, ci) = locate(&parts, g, Ghost(segs));
        assert(segment_breaks(segs)[i as int] == (si as int, ci as int, opp));
        out.push((si, ci, opp));
        i += 1;
    }
    (parts, out)
}

/// Returns the break opportunities across a sequence of string segments, as
/// if they were one string: each at the (segment index, byte index)
/// position of the character after the break, the end of the text at the
/// end of the last segment (at (0, 0) where there are no segments).
pub fn linebreaks_iter(segments: &[&str]) -> (r: Vec<((usize, usize), BreakOpportunity)>)
    requires
        chars::utf8_len(concat(Seq::new(segments@.len(), |i: int| segments@[i]@))) <= usize::MAX,
    ensures
        ({
            let segs = Seq::new(segments@.len(), |i: int| segments@[i]@);
            let b = segment_breaks(segs);
            &&& r@.len() == b.len()
            &&& forall|i: int|
                0 <= i < r@.len() ==> {
                    &&& (#[trigger] r@[i]).0.0 == b[i].0
                    &&& r@[i].0.1 == (if segs.len() == 0 {
                        0
                    } else {
                        chars::utf8_len(segs[b[i].0].take(b[i].1))
                    })
                    &&& r@[i].1 == b[i].2
                }
        }),
{
    if segments.len() == 0 {
        let ghost segs = Seq::new(segments@.len(), |i: int| segments@[i]@);
        proof {
            reveal_strlit("");
            assert(concat(segs) =~= ""@);
        }
        let raw = linebreaks("");
        let mut out: Vec<((usize, usize), BreakOpportunity)> = Vec::new();
        let mut i: usize = 0;
        while i < raw.len()
            invariant
                i <= raw.len(),
                segs.len() == 0,
                raw@ == linebreaks_of(concat(segs)),
                out@.len() == i,
                forall|k: int|
                    0 <= k < i ==> {
                        let b = segment_breaks(segs)[k];
                        &&& (#[trigger] out@[k]).0.0 == b.0
                        &&& out@[k].0.1 == 0
                        &&& out@[k].1 == b.2
                    },
            decreases raw.len() - i,
        {
            out.push(((0, 0), raw[i].1));
            i += 1;
        }
        return out;
    }
    let (parts, all, text) = concat_chars(segments);
    let raw = linebreaks(text.as_str());
    let ghost segs = Seq::new(segments@.len(), |i: int| segments@[i]@);
    proof {
        assert forall|k: int| 0 <= k < segs.len() implies chars::utf8_len(#[trigger] segs[k]) <= usize::MAX by {
            lemma_segment_utf8_le(segs, k);
        }
    }
    let mut out: Vec<((usize, usize), BreakOpportunity)> = Vec::new();
    let mut i: usize = 0;
    while i < raw.len()
        invariant
            i <= raw.len(),
            raw@ == linebreaks_of(all@),
            all@ == concat(segs),
            segs == Seq::new(segments@.len(), |i: int| segments@[i]@),
            parts@.len() == segs.len(),
            segs.len() > 0,
            forall|k: int| 0 <= k < segs.len() ==> #[trigger] parts@[k]@ == segs[k],
            chars::utf8_len(all@) <= usize::MAX,
            forall|k: int| 0 <= k < segs.len() ==> chars::utf8_len(#[trigger] segs[k]) <= usize::MAX,
            out@.len() == i,
            forall|k: int|
                0 <= k < i ==> {
                    let b = segment_breaks(segs)[k];
                    &&& (#[trigger] out@[k]).0.0 == b.0
                    &&& out@[k].0.1 == chars::utf8_len(segs[b.0].take(b.1))
                    &&& out@[k].1 == b.2
                },
        decreases raw.len() - i,
    {
        let (b, opp) = raw[i];
        let g = char_index_of_byte_exec(&all, b);
        proof {
            lemma_concat_len(segs, segs.len() as int);
            assert(segs.take(segs.len() as int) =~= segs);
        }
        let (si, ci) = locate(&parts, g, Ghost(segs));
        let bytes = utf8_prefix_len(&parts[si], ci);
        out.push(((si, bytes), opp));
        i += 1;
    }
    out
}

/// A segment takes no more bytes than the concatenation it is part of.
pub proof fn lemma_segment_utf8_le(segs: Seq<Seq<char>>, k: int)
    requires
        0 <= k < segs.len(),
    ensures
        chars::utf8_len(segs[k]) <= chars::utf8_len(concat(segs)),
    decreases segs.len(),
{
    let n = segs.len();
    chars::lemma_utf8_len_concat(concat(segs.drop_last()), segs.last());
    if k < n - 1 {
        lemma_segment_utf8_le(segs.drop_last(), k);
    }
}

/// Where `locate_from` puts a character: a real position in a segment, or
/// the end of the last segment.
proof fn lemma_locate_in_range(segs: Seq<Seq<char>>, k: int, start: int, g: int)
    requires
        segs.len() > 0,
        0 <= k,
        start <= g,
    ensures
        0 <= locate_from(segs, k, start, g).0 < segs.len(),
        0 <= locate_from(segs, k, start, g).1 <= segs[locate_from(segs, k, start, g).0].len(),
    decreases segs.len() - k,
{
    if k < segs.len() && g >= start + segs[k].len() {
        lemma_locate_in_range(segs, k + 1, start + segs[k].len(), g);
    }
}

fn locate(parts: &Vec<Vec<char>>, g: usize, Ghost(segs): Ghost<Seq<Seq<char>>>) -> (r: (usize, usize))
    requires
        parts@.len() == segs.len(),
        segs.len() > 0,
        forall|k: int| 0 <= k < segs.len() ==> #[trigger] parts@[k]@ == segs[k],
        concat(segs).len() <= usize::MAX,
    ensures
        r.0 == locate_from(segs, 0, 0, g as int).0,
        r.1 == locate_from(segs, 0, 0, g as int).1,
        r.0 < segs.len(),
        r.1 <= segs[r.0 as int].len(),
{
    proof {
        lemma_locate_in_range(segs, 0, 0, g as int);
    }
    let mut k: usize = 0;
    let mut start: usize = 0;
    while k < parts.len()
        invariant
            k <= parts@.len(),
            parts@.len() == segs.len(),
            forall|j: int| 0 <= j < segs.len() ==> #[trigger] parts@[j]@ == segs[j],
            start == concat(segs.take(k as int)).len(),
            concat(segs).len() <= usize::MAX,
            start <= g,
            locate_from(segs, 0, 0, g as int) == locate_from(segs, k as int, start as int, g as int),
        decreases parts@.len() - k,
    {
        proof {
            lemma_concat_len(segs, k + 1);
            assert(segs.take(k + 1).drop_last() =~= segs.take(k as int));
        }
        if g < start + parts[k].len() {
            return (k, g - start);
        }
        start = start + parts[k].len();
        k += 1;
    }
    let last = parts.len() - 1;
    (last, parts[last].len())
}

/// Over a single segment, the break opportunities are those of the segment
/// taken as one string: each in segment 0, at the character that starts at
/// the break's byte index, so that the byte index comes back unchanged
/// wherever it is a character boundary (as every index that [`linebreaks`]
/// returns is).
pub proof fn lemma_single_segment_breaks(s: Seq<char>)
    ensures
        segment_breaks(seq![s]).len() == linebreaks_of(s).len(),
        forall|i: int|
            0 <= i < linebreaks_of(s).len() ==> {
                let b = #[trigger] segment_breaks(seq![s])[i];
                let l = linebreaks_of(s)[i];
                &&& b.0 == 0
                &&& b.1 == char_index_of_byte(s, l.0 as int)
                &&& b.2 == l.1
                &&& chars::is_boundary(s, l.0 as int) ==> chars::utf8_len(s.take(b.1)) == l.0
            },
{
    let segs = seq![s];
    assert(segs.drop_last() =~= Seq::<Seq<char>>::empty());
    assert(concat(segs.drop_last()) =~= Seq::<char>::empty());
    assert(segs.last() == s);
    assert(concat(segs) =~= s);
    assert forall|i: int| 0 <= i < linebreaks_of(s).len() implies {
        let b = #[trigger] segment_breaks(seq![s])[i];
        let l = linebreaks_of(s)[i];
        &&& b.0 == 0
        &&& b.1 == char_index_of_byte(s, l.0 as int)
        &&& b.2 == l.1
        &&& chars::is_boundary(s, l.0 as int) ==> chars::utf8_len(s.take(b.1)) == l.0
    } by {
        let l = linebreaks_of(s)[i];
        let g = char_index_of_byte(s, l.0 as int) as int;
        lemma_char_index_of_byte_le(s, l.0 as int);
        if g >= s.len() {
            assert(locate_from(segs, 1, s.len() as int, g) == (0int, s.len() as int));
        }
        assert(locate_from(segs, 0, 0, g) == (0int, g));
        if chars::is_boundary(s, l.0 as int) {
            let j = choose|j: int| 0 <= j <= s.len() && #[trigger] chars::utf8_len(s.take(j)) == l.0 as int;
            lemma_char_index_of_boundary(s, j);
        }
    }
}

} // verus!
