//! Display widths of characters and strings (`unicode-width`) and line
//! break opportunities (`unicode-linebreak`).
use vstd::prelude::*;

verus! {

/// What `unicode_width` reports as the display width of a character:
/// `None` for control characters.
pub uninterp spec fn char_width_of(c: char) -> Option<usize>;

/// What `unicode_width` reports as the display width of a string.
pub uninterp spec fn str_width_of(s: Seq<char>) -> usize;

/// Display width of a character, `0` where `unicode_width` gives none.
pub open spec fn char_cols(c: char) -> nat {
    match char_width_of(c) {
        Some(w) => w as nat,
        None => 0,
    }
}

/// `UnicodeWidthChar::width`: the contract names the result, which is
/// determined by the character alone, and states that a width is never
/// more than 3 (the crate reads it from a 2-bit table entry, or from a
/// short list of special cases whose largest value is 3). It also states
/// the crate's first tests: U+0020 to U+007E are one column wide, the
/// control codes U+0000 to U+001F and U+007F to U+009F have no width, and
/// every character from U+00A0 on has one.
#[verifier::external_body]
pub fn char_width(c: char) -> (r: Option<usize>)
    ensures
        r == char_width_of(c),
        r matches Some(w) ==> w <= 3,
        ' ' <= c && c <= '~' ==> r == Some(1usize),
        c < ' ' || ('\u{7f}' <= c && c < '\u{a0}') ==> r is None,
        '\u{a0}' <= c ==> r is Some,
{
    unicode_width::UnicodeWidthChar::width(c)
}

/// `UnicodeWidthStr::width`: the contract names the result, which is
/// determined by the characters alone, and states that the empty string
/// has width 0 (the crate folds over the characters starting from 0), and
/// that a string of the printable ASCII characters U+0020 to U+007E is as
/// wide as it is long (each adds one column and leaves the fold's state
/// as it started).
#[verifier::external_body]
pub fn str_width(s: &str) -> (r: usize)
    ensures
        r == str_width_of(s@),
        s@.len() == 0 ==> r == 0,
        (forall|i: int| 0 <= i < s@.len() ==> ' ' <= #[trigger] s@[i] && s@[i] <= '~') ==> r == s@.len(),
{
    unicode_width::UnicodeWidthStr::width(s)
}

/// Display width of a character, `0` for control characters.
pub fn char_cols_of(c: char) -> (r: usize)
    ensures
        r == char_cols(c),
        r <= 3,
{
    match char_width(c) {
        Some(w) => w,
        None => 0,
    }
}

} // verus!
