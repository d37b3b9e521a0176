//! Removing ANSI escape sequences from text.
use vstd::prelude::*;
use crate::chars::{push_char, to_chars};

verus! {

/// The escape sequences that are removed, as a regular expression: OSC
/// sequences (terminated by BEL, ST or 0x9C); DCS, APC, PM and SOS strings
/// (terminated by ST or 0x9C); CSI sequences in 7-bit and 8-bit form
/// (parameter bytes 0x30-0x3F, intermediate bytes 0x20-0x2F, final byte
/// 0x40-0x7E); VT52 and other short escapes; charset selections; and hash
/// sequences. [`strip_ansi`] removes exactly what this pattern matches,
/// as [`match_end`] spells it out.
pub const ANSI_REGEX_PATTERN: &'static str = "(?:\\x1B\\][^\\x07\\x1B\\x9C]*?(?:\\x07|\\x1B\\\\|\\x9C))|(?:\\x1B[P_^X][^\\x1B\\x9C]*?(?:\\x1B\\\\|\\x9C))|(?:\\x1B\\[[\\x30-\\x3F]*[\\x20-\\x2F]*[\\x40-\\x7E])|(?:\\x9B[\\x30-\\x3F]*[\\x20-\\x2F]*[\\x40-\\x7E])|(?:\\x1B[ABCDHIKJSTZ=><su78EMcNO])|(?:\\x1B[()][AB012])|(?:\\x1B#[34568])";

/// The escape character.
pub open spec fn esc() -> char {
    '\x1b'
}

/// A string terminator: ESC `\` at `k`, or 0x9C; where one starts at `k`,
/// the position after it.
pub open spec fn terminator_at(s: Seq<char>, k: int) -> Option<int> {
    if s[k] == '\u{9c}' {
        Some(k + 1)
    } else if s[k] == esc() && k + 1 < s.len() && s[k + 1] == '\\' {
        Some(k + 2)
    } else {
        None
    }
}

/// The end of an OSC sequence whose text starts at `k`: the text runs up to
/// the first BEL, ESC or 0x9C, which must start a terminator (BEL, ESC `\`
/// or 0x9C).
pub open spec fn osc_end(s: Seq<char>, k: int) -> Option<int>
    decreases s.len() - k,
{
    if k < 0 || k >= s.len() {
        None
    } else if s[k] == '\x07' {
        Some(k + 1)
    } else if s[k] == esc() || s[k] == '\u{9c}' {
        terminator_at(s, k)
    } else {
        osc_end(s, k + 1)
    }
}

/// The end of a DCS, APC, PM or SOS string whose text starts at `k`: the
/// text runs up to the first ESC or 0x9C, which must start a terminator
/// (ESC `\` or 0x9C).
pub open spec fn string_end(s: Seq<char>, k: int) -> Option<int>
    decreases s.len() - k,
{
    if k < 0 || k >= s.len() {
        None
    } else if s[k] == esc() || s[k] == '\u{9c}' {
        terminator_at(s, k)
    } else {
        string_end(s, k + 1)
    }
}

/// The end of the run of characters from `lo` to `hi` that starts at `k`.
pub open spec fn run_end(s: Seq<char>, k: int, lo: char, hi: char) -> int
    decreases s.len() - k,
{
    if 0 <= k < s.len() && lo <= s[k] && s[k] <= hi {
        run_end(s, k + 1, lo, hi)
    } else {
        k
    }
}

/// The end of the body of a CSI sequence that starts at `k`: parameter
/// bytes, then intermediate bytes, then one final byte.
pub open spec fn csi_end(s: Seq<char>, k: int) -> Option<int> {
    let p = run_end(s, k, '\x30', '\x3f');
    let q = run_end(s, p, '\x20', '\x2f');
    if 0 <= q < s.len() && '\x40' <= s[q] && s[q] <= '\x7e' {
        Some(q + 1)
    } else {
        None
    }
}

/// A character of the short escapes ESC `A` ... ESC `O`.
pub open spec fn is_short_escape(c: char) -> bool {
    c == 'A' || c == 'B' || c == 'C' || c == 'D' || c == 'H' || c == 'I' || c == 'K' || c == 'J' || c == 'S'
        || c == 'T' || c == 'Z' || c == '=' || c == '>' || c == '<' || c == 's' || c == 'u' || c == '7' || c == '8'
        || c == 'E' || c == 'M' || c == 'c' || c == 'N' || c == 'O'
}

/// Where the escape sequence that starts at `i` ends, if one starts there.
/// The character after an ESC decides which kind of sequence it is, so the
/// alternatives of [`ANSI_REGEX_PATTERN`] never compete.
pub open spec fn match_end(s: Seq<char>, i: int) -> Option<int> {
    if 0 <= i && i + 1 < s.len() && s[i] == esc() {
        let c = s[i + 1];
        if c == ']' {
            osc_end(s, i + 2)
        } else if c == 'P' || c == '_' || c == '^' || c == 'X' {
            string_end(s, i + 2)
        } else if c == '[' {
            csi_end(s, i + 2)
        } else if is_short_escape(c) {
            Some(i + 2)
        } else if c == '(' || c == ')' {
            if i + 2 < s.len() && (s[i + 2] == 'A' || s[i + 2] == 'B' || s[i + 2] == '0' || s[i + 2] == '1'
                || s[i + 2] == '2') {
                Some(i + 3)
            } else {
                None
            }
        } else if c == '#' {
            if i + 2 < s.len() && (s[i + 2] == '3' || s[i + 2] == '4' || s[i + 2] == '5' || s[i + 2] == '6'
                || s[i + 2] == '8') {
                Some(i + 3)
            } else {
                None
            }
        } else {
            None
        }
    } else if 0 <= i < s.len() && s[i] == '\u{9b}' {
        csi_end(s, i + 1)
    } else {
        None
    }
}

/// The characters of `s` from `i` on, with every escape sequence removed:
/// scanning from the left, a sequence that starts at a position is removed
/// whole, and the scan goes on after it.
pub open spec fn stripped_from(s: Seq<char>, i: int) -> Seq<char>
    decreases s.len() - i,
{
    if i < 0 || i >= s.len() {
        Seq::empty()
    } else {
        match match_end(s, i) {
            Some(e) => if i < e <= s.len() {
                stripped_from(s, e)
            } else {
                seq![s[i]] + stripped_from(s, i + 1)
            },
            None => seq![s[i]] + stripped_from(s, i + 1),
        }
    }
}

/// Text without the matches of [`ANSI_REGEX_PATTERN`].
pub open spec fn stripped(s: Seq<char>) -> Seq<char> {
    stripped_from(s, 0)
}

fn run_end_exec(s: &Vec<char>, k: usize, lo: char, hi: char) -> (r: usize)
    requires
        k <= s@.len(),
    ensures
        r == run_end(s@, k as int, lo, hi),
        k <= r <= s@.len(),
    decreases s@.len() - k,
{
    if k < s.len() && lo <= s[k] && s[k] <= hi {
        run_end_exec(s, k + 1, lo, hi)
    } else {
        k
    }
}

fn terminator_at_exec(s: &Vec<char>, k: usize) -> (r: Option<usize>)
    requires
        k < s@.len(),
    ensures
        r matches Some(e) ==> terminator_at(s@, k as int) == Some(e as int) && k < e <= s@.len(),
        r is None ==> terminator_at(s@, k as int) is None,
{
    let n = s.len();
    if s[k] == '\u{9c}' {
        Some(k + 1)
    } else if s[k] == '\x1b' && k + 1 < n && s[k + 1] == '\\' {
        Some(k + 2)
    } else {
        None
    }
}

fn osc_end_exec(s: &Vec<char>, k: usize) -> (r: Option<usize>)
    requires
        k <= s@.len(),
    ensures
        r matches Some(e) ==> osc_end(s@, k as int) == Some(e as int) && k < e <= s@.len(),
        r is None ==> osc_end(s@, k as int) is None,
    decreases s@.len() - k,
{
    if k >= s.len() {
        None
    } else if s[k] == '\x07' {
        Some(k + 1)
    } else if s[k] == '\x1b' || s[k] == '\u{9c}' {
        terminator_at_exec(s, k)
    } else {
        osc_end_exec(s, k + 1)
    }
}

fn string_end_exec(s: &Vec<char>, k: usize) -> (r: Option<usize>)
    requires
        k <= s@.len(),
    ensures
        r matches Some(e) ==> string_end(s@, k as int) == Some(e as int) && k < e <= s@.len(),
        r is None ==> string_end(s@, k as int) is None,
    decreases s@.len() - k,
{
    if k >= s.len() {
        None
    } else if s[k] == '\x1b' || s[k] == '\u{9c}' {
        terminator_at_exec(s, k)
    } else {
        string_end_exec(s, k + 1)
    }
}

fn csi_end_exec(s: &Vec<char>, k: usize) -> (r: Option<usize>)
    requires
        k <= s@.len(),
    ensures
        r matches Some(e) ==> csi_end(s@, k as int) == Some(e as int) && k < e <= s@.len(),
        r is None ==> csi_end(s@, k as int) is None,
{
    let p = run_end_exec(s, k, '\x30', '\x3f');
    let q = run_end_exec(s, p, '\x20', '\x2f');
    if q < s.len() && '\x40' <= s[q] && s[q] <= '\x7e' {
        Some(q + 1)
    } else {
        None
    }
}

fn is_short_escape_exec(c: char) -> (r: bool)
    ensures
        r == is_short_escape(c),
{
    c == 'A' || c == 'B' || c == 'C' || c == 'D' || c == 'H' || c == 'I' || c == 'K' || c == 'J' || c == 'S'
        || c == 'T' || c == 'Z' || c == '=' || c == '>' || c == '<' || c == 's' || c == 'u' || c == '7' || c == '8'
        || c == 'E' || c == 'M' || c == 'c' || c == 'N' || c == 'O'
}

fn match_end_exec(s: &Vec<char>, i: usize) -> (r: Option<usize>)
    requires
        i < s@.len(),
    ensures
        r matches Some(e) ==> match_end(s@, i as int) == Some(e as int) && i < e <= s@.len(),
        r is None ==> match_end(s@, i as int) is None,
{
    let n = s.len();
    if i + 1 < n && s[i] == '\x1b' {
        let c = s[i + 1];
        if c == ']' {
            osc_end_exec(s, i + 2)
        } else if c == 'P' || c == '_' || c == '^' || c == 'X' {
            string_end_exec(s, i + 2)
        } else if c == '[' {
            csi_end_exec(s, i + 2)
        } else if is_short_escape_exec(c) {
            Some(i + 2)
        } else if c == '(' || c == ')' {
            if i + 2 < s.len() && (s[i + 2] == 'A' || s[i + 2] == 'B' || s[i + 2] == '0' || s[i + 2] == '1'
                || s[i + 2] == '2') {
                Some(i + 3)
            } else {
                None
            }
        } else if c == '#' {
            if i + 2 < s.len() && (s[i + 2] == '3' || s[i + 2] == '4' || s[i + 2] == '5' || s[i + 2] == '6'
                || s[i + 2] == '8') {
                Some(i + 3)
            } else {
                None
            }
        } else {
            None
        }
    } else if s[i] == '\u{9b}' {
        csi_end_exec(s, i + 1)
    } else {
        None
    }
}

/// `string` without ANSI escape sequences (the matches of
/// [`ANSI_REGEX_PATTERN`]).
pub fn strip_ansi(string: &str) -> (r: String)
    ensures
        r@ == stripped(string@),
{
    let cs = to_chars(string);
    let mut out = String::new();
    let mut i: usize = 0;
    while i < cs.len()
        invariant
            i <= cs@.len(),
            cs@ == string@,
            out@ + stripped_from(cs@, i as int) == stripped(string@),
        decreases cs@.len() - i,
    {
        let ghost o = out@;
        match match_end_exec(&cs, i) {
            Some(e) => {
                if e > i {
                    i = e;
                } else {
                    push_char(&mut out, cs[i]);
                    assert(o + stripped_from(cs@, i as int) == o + seq![cs@[i as int]] + stripped_from(cs@, i + 1));
                    i += 1;
                }
            },
            None => {
                push_char(&mut out, cs[i]);
                assert(o + (seq![cs@[i as int]] + stripped_from(cs@, i + 1)) =~= o.push(cs@[i as int]) + stripped_from(cs@, i + 1));
                i += 1;
            },
        }
    }
    assert(stripped_from(cs@, i as int) =~= Seq::<char>::empty());
    assert(out@ + Seq::<char>::empty() =~= out@);
    out
}

} // verus!
