//! Character-sequence helpers: UTF-8 lengths, conversions between `str`,
//! `String` and `Vec<char>`, and string building.
use vstd::prelude::*;

verus! {

/// Number of bytes `c` takes in UTF-8.
pub open spec fn char_utf8_len(c: char) -> nat {
    if (c as u32) < 0x80 {
        1
    } else if (c as u32) < 0x800 {
        2
    } else if (c as u32) < 0x10000 {
        3
    } else {
        4
    }
}

/// Number of bytes the characters `s` take in UTF-8.
pub open spec fn utf8_len(s: Seq<char>) -> nat
    decreases s.len(),
{
    if s.len() == 0 {
        0
    } else {
        utf8_len(s.drop_last()) + char_utf8_len(s.last())
    }
}

/// The UTF-8 length of a concatenation is the sum of the lengths.
pub proof fn lemma_utf8_len_concat(a: Seq<char>, b: Seq<char>)
    ensures
        utf8_len(a + b) == utf8_len(a) + utf8_len(b),
    decreases b.len(),
{
    if b.len() == 0 {
        assert(a + b =~= a);
    } else {
        lemma_utf8_len_concat(a, b.drop_last());
        assert((a + b).drop_last() =~= a + b.drop_last());
    }
}

/// Extending a prefix by one character adds that character's length.
pub proof fn lemma_utf8_len_take_next(s: Seq<char>, i: int)
    requires
        0 <= i < s.len(),
    ensures
        utf8_len(s.take(i + 1)) == utf8_len(s.take(i)) + char_utf8_len(s[i]),
{
    assert(s.take(i + 1).drop_last() =~= s.take(i));
}

/// A longer prefix is at least as long in bytes.
pub proof fn lemma_utf8_len_take_mono(s: Seq<char>, i: int, j: int)
    requires
        0 <= i <= j <= s.len(),
    ensures
        utf8_len(s.take(i)) <= utf8_len(s.take(j)),
        i < j ==> utf8_len(s.take(i)) < utf8_len(s.take(j)),
    decreases j - i,
{
    if i < j {
        lemma_utf8_len_take_mono(s, i, j - 1);
        lemma_utf8_len_take_next(s, j - 1);
    }
}

/// The whole sequence is its longest prefix.
pub proof fn lemma_utf8_len_bounded(s: Seq<char>, i: int)
    requires
        0 <= i <= s.len(),
    ensures
        utf8_len(s.take(i)) <= utf8_len(s),
{
    lemma_utf8_len_take_mono(s, i, s.len() as int);
    assert(s.take(s.len() as int) =~= s);
}

/// Returns the number of bytes `c` takes in UTF-8.
pub fn len_utf8(c: char) -> (r: usize)
    ensures
        r == char_utf8_len(c),
        1 <= r <= 4,
{
    let v = c as u32;
    if v < 0x80 {
        1
    } else if v < 0x800 {
        2
    } else if v < 0x10000 {
        3
    } else {
        4
    }
}

/// Collects the characters of `s`.
pub fn to_chars(s: &str) -> (r: Vec<char>)
    ensures
        r@ == s@,
{
    let mut r: Vec<char> = Vec::new();
    for c in it: s.chars()
        invariant
            it.seq() == s@,
            r@ == it.seq().take(it.index() as int),
    {
        r.push(c);
    }
    r
}

/// Appends a character to a string (`String::push`).
#[verifier::external_body]
pub fn push_char(s: &mut String, c: char)
    ensures
        final(s)@ == old(s)@.push(c),
{
    s.push(c);
}

/// Appends the characters of `cs` to `s`.
pub fn push_chars(s: &mut String, cs: &[char])
    ensures
        final(s)@ == old(s)@ + cs@,
{
    let mut i: usize = 0;
    while i < cs.len()
        invariant
            i <= cs.len(),
            s@ == old(s)@ + cs@.take(i as int),
        decreases cs.len() - i,
    {
        push_char(s, cs[i]);
        i += 1;
        assert(cs@.take(i as int) =~= cs@.take(i - 1 as int).push(cs@[i - 1]));
    }
    assert(cs@.take(cs.len() as int) =~= cs@);
}

/// Appends the characters of `t` to `s`.
pub fn push_str(s: &mut String, t: &str)
    ensures
        final(s)@ == old(s)@ + t@,
{
    s.append(t);
}

/// Builds a string from characters.
pub fn string_of(cs: &[char]) -> (r: String)
    ensures
        r@ == cs@,
{
    let mut r = String::new();
    push_chars(&mut r, cs);
    assert(r@ =~= cs@);
    r
}

/// Compares two strings character by character.
pub fn str_eq(a: &str, b: &str) -> (r: bool)
    ensures
        r == (a@ == b@),
{
    let av = to_chars(a);
    let bv = to_chars(b);
    chars_eq(&av, &bv)
}

/// Compares two character slices.
pub fn chars_eq(a: &[char], b: &[char]) -> (r: bool)
    ensures
        r == (a@ == b@),
{
    if a.len() != b.len() {
        return false;
    }
    let mut i: usize = 0;
    while i < a.len()
        invariant
            a.len() == b.len(),
            i <= a.len(),
            forall|k: int| 0 <= k < i ==> a@[k] == b@[k],
        decreases a.len() - i,
    {
        if a[i] != b[i] {
            return false;
        }
        i += 1;
    }
    assert(a@ =~= b@);
    true
}

/// Repeats `c` `n` times.
pub fn repeat_char(c: char, n: usize) -> (r: String)
    ensures
        r@ == Seq::new(n as nat, |_i: int| c),
{
    let mut r = String::new();
    let mut i: usize = 0;
    while i < n
        invariant
            i <= n,
            r@ == Seq::new(i as nat, |_k: int| c),
        decreases n - i,
    {
        push_char(&mut r, c);
        i += 1;
        assert(r@ =~= Seq::new(i as nat, |_k: int| c));
    }
    r
}

/// The number of bytes `s` takes in UTF-8, where that fits in a `usize`.
pub fn utf8_len_checked(s: &[char]) -> (r: Option<usize>)
    ensures
        r is Some <==> utf8_len(s@) <= usize::MAX,
        r matches Some(n) ==> n == utf8_len(s@),
{
    let mut k: usize = 0;
    let mut n: usize = 0;
    while k < s.len()
        invariant
            k <= s.len(),
            n == utf8_len(s@.take(k as int)),
        decreases s.len() - k,
    {
        proof {
            lemma_utf8_len_take_next(s@, k as int);
        }
        let c = len_utf8(s[k]);
        if n > usize::MAX - c {
            proof {
                lemma_utf8_len_bounded(s@, k + 1);
            }
            return None;
        }
        n = n + c;
        k += 1;
    }
    assert(s@.take(k as int) =~= s@);
    Some(n)
}

/// Byte length of the first `i` characters of `s`.
pub fn utf8_prefix_len(s: &[char], i: usize) -> (r: usize)
    requires
        i <= s.len(),
        utf8_len(s@) <= usize::MAX,
    ensures
        r == utf8_len(s@.take(i as int)),
{
    let mut k: usize = 0;
    let mut n: usize = 0;
    while k < i
        invariant
            k <= i <= s.len(),
            utf8_len(s@) <= usize::MAX,
            n == utf8_len(s@.take(k as int)),
        decreases i - k,
    {
        proof {
            lemma_utf8_len_take_next(s@, k as int);
            lemma_utf8_len_bounded(s@, k + 1);
        }
        n = n + len_utf8(s[k]);
        k += 1;
    }
    n
}

/// The pieces of `s` between `'\n'` characters: one more piece than there
/// are newlines.
pub open spec fn split_newlines(s: Seq<char>) -> Seq<Seq<char>>
    decreases s.len(),
{
    if s.len() == 0 {
        seq![Seq::empty()]
    } else {
        let rest = split_newlines(s.drop_last());
        if s.last() == '\n' {
            rest.push(Seq::empty())
        } else {
            rest.update(rest.len() - 1, rest.last().push(s.last()))
        }
    }
}

/// A line without the carriage return that ends it, if any.
pub open spec fn strip_cr(l: Seq<char>) -> Seq<char> {
    if l.len() > 0 && l.last() == '\r' {
        l.drop_last()
    } else {
        l
    }
}

/// The lines of `s` as `str::lines` gives them: split at `"\n"` or
/// `"\r\n"`, where a final line ending ends the last line rather than
/// starting an empty one. A carriage return is dropped only before a
/// `'\n'`: a last line without a line ending keeps a trailing `'\r'`.
pub open spec fn lines_of(s: Seq<char>) -> Seq<Seq<char>> {
    let pieces = split_newlines(s);
    let ended = pieces.drop_last().map_values(|l: Seq<char>| strip_cr(l));
    if s.len() == 0 || s.last() == '\n' {
        ended
    } else {
        ended.push(pieces.last())
    }
}

proof fn lemma_split_newlines_nonempty(s: Seq<char>)
    ensures
        split_newlines(s).len() >= 1,
        s.len() > 0 && s.last() != '\n' ==> split_newlines(s).last().len() > 0,
        s.len() == 0 || s.last() == '\n' ==> split_newlines(s).last().len() == 0,
    decreases s.len(),
{
    if s.len() > 0 {
        lemma_split_newlines_nonempty(s.drop_last());
    }
}

/// No piece between newlines is longer in bytes than the whole.
proof fn lemma_split_newlines_utf8(s: Seq<char>)
    ensures
        forall|i: int| 0 <= i < split_newlines(s).len() ==> utf8_len(#[trigger] split_newlines(s)[i]) <= utf8_len(s),
    decreases s.len(),
{
    if s.len() > 0 {
        lemma_split_newlines_utf8(s.drop_last());
        lemma_split_newlines_nonempty(s.drop_last());
        let rest = split_newlines(s.drop_last());
        if s.last() == '\n' {
            assert(utf8_len(Seq::<char>::empty()) == 0);
        } else {
            let l = rest.last().push(s.last());
            assert(l.drop_last() =~= rest.last());
            assert(utf8_len(l) == utf8_len(rest.last()) + char_utf8_len(s.last()));
        }
    }
}

/// No line is longer in bytes than the whole text.
pub proof fn lemma_line_utf8_le(s: Seq<char>, i: int)
    requires
        0 <= i < lines_of(s).len(),
    ensures
        utf8_len(lines_of(s)[i]) <= utf8_len(s),
{
    lemma_split_newlines_utf8(s);
    lemma_split_newlines_nonempty(s);
    let l = split_newlines(s)[i];
    assert(utf8_len(l) <= utf8_len(s));
    if l.len() > 0 && l.last() == '\r' {
        assert(utf8_len(l) == utf8_len(l.drop_last()) + char_utf8_len(l.last()));
    }
}

/// Splits `s` into lines, as `str::lines` does.
pub fn lines(s: &[char]) -> (r: Vec<Vec<char>>)
    ensures
        r@.len() == lines_of(s@).len(),
        forall|i: int| 0 <= i < r@.len() ==> #[trigger] r@[i]@ == lines_of(s@)[i],
{
    let mut out: Vec<Vec<char>> = Vec::new();
    let mut cur: Vec<char> = Vec::new();
    let mut i: usize = 0;
    while i < s.len()
        invariant
            i <= s.len(),
            out@.len() + 1 == split_newlines(s@.take(i as int)).len(),
            forall|k: int|
                0 <= k < out@.len() ==> #[trigger] out@[k]@ == strip_cr(
                    split_newlines(s@.take(i as int))[k],
                ),
            cur@ == split_newlines(s@.take(i as int)).last(),
        decreases s.len() - i,
    {
        assert(s@.take(i + 1).drop_last() =~= s@.take(i as int));
        let c = s[i];
        if c == '\n' {
            let line = strip_cr_vec(cur);
            out.push(line);
            cur = Vec::new();
        } else {
            cur.push(c);
        }
        i += 1;
    }
    assert(s@.take(s.len() as int) =~= s@);
    proof {
        lemma_split_newlines_nonempty(s@);
    }
    if cur.len() > 0 {
        out.push(cur);
    }
    assert(out@.len() == lines_of(s@).len());
    out
}

fn strip_cr_vec(l: Vec<char>) -> (r: Vec<char>)
    ensures
        r@ == strip_cr(l@),
{
    let mut l = l;
    if l.len() > 0 && l[l.len() - 1] == '\r' {
        l.pop();
    }
    l
}

/// Whether a character has the Unicode `White_Space` property, as
/// `char::is_whitespace` documents.
pub open spec fn is_whitespace(c: char) -> bool {
    let v = c as u32;
    (0x9 <= v <= 0xd) || v == 0x20 || v == 0x85 || v == 0xa0 || v == 0x1680 || (0x2000 <= v
        <= 0x200a) || v == 0x2028 || v == 0x2029 || v == 0x202f || v == 0x205f || v == 0x3000
}

/// Returns whether `c` has the Unicode `White_Space` property.
pub fn char_is_whitespace(c: char) -> (r: bool)
    ensures
        r == is_whitespace(c),
{
    let v = c as u32;
    (0x9 <= v && v <= 0xd) || v == 0x20 || v == 0x85 || v == 0xa0 || v == 0x1680 || (0x2000 <= v
        && v <= 0x200a) || v == 0x2028 || v == 0x2029 || v == 0x202f || v == 0x205f || v == 0x3000
}

/// Copies `s[start..end]`.
pub fn subrange_vec(s: &[char], start: usize, end: usize) -> (r: Vec<char>)
    requires
        start <= end <= s.len(),
    ensures
        r@ == s@.subrange(start as int, end as int),
{
    let mut r: Vec<char> = Vec::new();
    let mut i = start;
    while i < end
        invariant
            start <= i <= end <= s.len(),
            r@ == s@.subrange(start as int, i as int),
        decreases end - i,
    {
        r.push(s[i]);
        i += 1;
        assert(r@ =~= s@.subrange(start as int, i as int));
    }
    r
}

/// Whether byte `b` is where a character of `s` starts, or the end of `s`.
pub open spec fn is_boundary(s: Seq<char>, b: int) -> bool {
    exists|j: int| 0 <= j <= s.len() && #[trigger] utf8_len(s.take(j)) == b
}

/// The index of the character of `s` that starts at byte `b` (the length of
/// `s` for its end).
pub open spec fn char_index_at(s: Seq<char>, b: int) -> int {
    choose|j: int| 0 <= j <= s.len() && #[trigger] utf8_len(s.take(j)) == b
}

/// Different prefixes have different byte lengths.
pub proof fn lemma_utf8_prefix_injective(s: Seq<char>, i: int, j: int)
    requires
        0 <= i <= s.len(),
        0 <= j <= s.len(),
        utf8_len(s.take(i)) == utf8_len(s.take(j)),
    ensures
        i == j,
{
    if i < j {
        lemma_utf8_len_take_mono(s, i, j);
    } else if j < i {
        lemma_utf8_len_take_mono(s, j, i);
    }
}

/// The character index of byte `b` of `s`, if a character starts there (or
/// `s` ends there).
pub fn char_index_of(s: &[char], b: usize) -> (r: Option<usize>)
    requires
        utf8_len(s@) <= usize::MAX,
    ensures
        r is Some <==> is_boundary(s@, b as int),
        r matches Some(j) ==> j <= s@.len() && utf8_len(s@.take(j as int)) == b && j == char_index_at(s@, b as int),
{
    let mut j: usize = 0;
    let mut n: usize = 0;
    while j <= s.len()
        invariant
            j <= s.len() + 1,
            utf8_len(s@) <= usize::MAX,
            j <= s.len() ==> n == utf8_len(s@.take(j as int)),
            forall|k: int| 0 <= k < j && k <= s.len() ==> utf8_len(#[trigger] s@.take(k)) < b,
        decreases s.len() + 1 - j,
    {
        if n == b {
            proof {
                let c = char_index_at(s@, b as int);
                lemma_utf8_prefix_injective(s@, c, j as int);
            }
            return Some(j);
        }
        if n > b {
            proof {
                assert forall|k: int| 0 <= k <= s.len() implies #[trigger] utf8_len(s@.take(k)) != b by {
                    if k > j {
                        lemma_utf8_len_take_mono(s@, j as int, k);
                    }
                }
            }
            return None;
        }
        if j == s.len() {
            assert forall|k: int| 0 <= k <= s.len() implies #[trigger] utf8_len(s@.take(k)) != b by {}
            return None;
        }
        proof {
            lemma_utf8_len_take_next(s@, j as int);
            lemma_utf8_len_bounded(s@, j + 1);
        }
        n = n + len_utf8(s[j]);
        j += 1;
    }
    None
}

} // verus!
