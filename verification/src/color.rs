//! Terminal colors, their names, and their SGR (Select Graphic Rendition)
//! parameters.
use vstd::prelude::*;
use crate::chars::{push_char, push_str, str_eq};

verus! {

/// A color that can be applied to text or backgrounds.
///
/// The named variants map to the standard 16 terminal colors; [`Color::Rgb`]
/// and [`Color::AnsiValue`] allow true-color and 256-color selection.
#[derive(Clone, Copy, Debug, PartialEq, Eq, Structural, Hash, PartialOrd, Ord)]
pub enum Color {
    /// Resets the color to the terminal's default.
    Reset,
    /// Black.
    Black,
    /// Dark grey.
    DarkGrey,
    /// Light red.
    Red,
    /// Dark red.
    DarkRed,
    /// Light green.
    Green,
    /// Dark green.
    DarkGreen,
    /// Light yellow.
    Yellow,
    /// Dark yellow.
    DarkYellow,
    /// Light blue.
    Blue,
    /// Dark blue.
    DarkBlue,
    /// Light magenta.
    Magenta,
    /// Dark magenta.
    DarkMagenta,
    /// Light cyan.
    Cyan,
    /// Dark cyan.
    DarkCyan,
    /// White.
    White,
    /// Grey.
    Grey,
    /// A 24-bit RGB color.
    Rgb {
        /// The red channel.
        r: u8,
        /// The green channel.
        g: u8,
        /// The blue channel.
        b: u8,
    },
    /// An 8-bit indexed color from the 256-color palette.
    AnsiValue(u8),
}

/// What `str::to_lowercase` returns for the given characters.
pub uninterp spec fn lowercase_of(s: Seq<char>) -> Seq<char>;

/// Every character is ASCII.
pub open spec fn ascii_only(s: Seq<char>) -> bool {
    forall|i: int| 0 <= i < s.len() ==> (#[trigger] s[i] as u32) < 0x80
}

/// An ASCII upper-case letter made lower-case; any other character as it is.
pub open spec fn ascii_lower_char(c: char) -> char {
    if 'A' <= c && c <= 'Z' {
        ((c as u32) + 32) as char
    } else {
        c
    }
}

/// The characters with ASCII upper-case letters made lower-case.
pub open spec fn ascii_lower(s: Seq<char>) -> Seq<char> {
    Seq::new(s.len(), |i: int| ascii_lower_char(s[i]))
}

/// `str::to_lowercase`: the contract names the result, a function of the
/// characters alone (Unicode's locale-independent lowercase mapping), and
/// states what that mapping is on ASCII text: `A` to `Z` become `a` to `z`,
/// and every other ASCII character stays as it is.
#[verifier::external_body]
fn to_lowercase(s: &str) -> (r: String)
    ensures
        r@ == lowercase_of(s@),
        ascii_only(s@) ==> r@ == ascii_lower(s@),
{
    s.to_lowercase()
}

/// The color with the given lowercase name, if any.
pub open spec fn color_named(name: Seq<char>) -> Option<Color> {
    if name == "reset"@ {
        Some(Color::Reset)
    } else if name == "black"@ {
        Some(Color::Black)
    } else if name == "dark_grey"@ {
        Some(Color::DarkGrey)
    } else if name == "red"@ {
        Some(Color::Red)
    } else if name == "dark_red"@ {
        Some(Color::DarkRed)
    } else if name == "green"@ {
        Some(Color::Green)
    } else if name == "dark_green"@ {
        Some(Color::DarkGreen)
    } else if name == "yellow"@ {
        Some(Color::Yellow)
    } else if name == "dark_yellow"@ {
        Some(Color::DarkYellow)
    } else if name == "blue"@ {
        Some(Color::Blue)
    } else if name == "dark_blue"@ {
        Some(Color::DarkBlue)
    } else if name == "magenta"@ {
        Some(Color::Magenta)
    } else if name == "dark_magenta"@ {
        Some(Color::DarkMagenta)
    } else if name == "cyan"@ {
        Some(Color::Cyan)
    } else if name == "dark_cyan"@ {
        Some(Color::DarkCyan)
    } else if name == "white"@ {
        Some(Color::White)
    } else if name == "grey"@ {
        Some(Color::Grey)
    } else {
        None
    }
}

/// The color a name denotes, compared case-insensitively.
pub open spec fn color_from_name(src: Seq<char>) -> Option<Color> {
    color_named(lowercase_of(src))
}

fn named_color_exec(name: &str) -> (r: Option<Color>)
    ensures
        r == color_named(name@),
{
    if str_eq(name, "reset") {
        Some(Color::Reset)
    } else if str_eq(name, "black") {
        Some(Color::Black)
    } else if str_eq(name, "dark_grey") {
        Some(Color::DarkGrey)
    } else if str_eq(name, "red") {
        Some(Color::Red)
    } else if str_eq(name, "dark_red") {
        Some(Color::DarkRed)
    } else if str_eq(name, "green") {
        Some(Color::Green)
    } else if str_eq(name, "dark_green") {
        Some(Color::DarkGreen)
    } else if str_eq(name, "yellow") {
        Some(Color::Yellow)
    } else if str_eq(name, "dark_yellow") {
        Some(Color::DarkYellow)
    } else if str_eq(name, "blue") {
        Some(Color::Blue)
    } else if str_eq(name, "dark_blue") {
        Some(Color::DarkBlue)
    } else if str_eq(name, "magenta") {
        Some(Color::Magenta)
    } else if str_eq(name, "dark_magenta") {
        Some(Color::DarkMagenta)
    } else if str_eq(name, "cyan") {
        Some(Color::Cyan)
    } else if str_eq(name, "dark_cyan") {
        Some(Color::DarkCyan)
    } else if str_eq(name, "white") {
        Some(Color::White)
    } else if str_eq(name, "grey") {
        Some(Color::Grey)
    } else {
        None
    }
}

impl Color {
    /// Tries to create a `Color` from a name like `"red"` or `"dark_grey"`
    /// (case-insensitive). Returns an error if the string does not match a
    /// named color.
    pub fn try_from_name(src: &str) -> (r: Result<Color, ()>)
        ensures
            r == (match color_from_name(src@) {
                Some(c) => Ok::<Color, ()>(c),
                None => Err(()),
            }),
            ascii_only(src@) ==> r == (match color_named(ascii_lower(src@)) {
                Some(c) => Ok::<Color, ()>(c),
                None => Err(()),
            }),
    {
        let lower = to_lowercase(src);
        match named_color_exec(lower.as_str()) {
            Some(c) => Ok(c),
            None => Err(()),
        }
    }

    /// Creates a `Color` from a name like `"red"`. Unknown names fall back to
    /// [`Color::White`].
    pub fn parse_name(src: &str) -> (r: Color)
        ensures
            r == (match color_from_name(src@) {
                Some(c) => c,
                None => Color::White,
            }),
            ascii_only(src@) ==> r == (match color_named(ascii_lower(src@)) {
                Some(c) => c,
                None => Color::White,
            }),
    {
        match Color::try_from_name(src) {
            Ok(c) => c,
            Err(_) => Color::White,
        }
    }

    /// Creates a [`Color::Rgb`] from an `(r, g, b)` tuple.
    pub fn from_rgb(rgb: (u8, u8, u8)) -> (c: Color)
        ensures
            c == (Color::Rgb { r: rgb.0, g: rgb.1, b: rgb.2 }),
    {
        Color::Rgb { r: rgb.0, g: rgb.1, b: rgb.2 }
    }
}

impl<'a> TryFrom<&'a str> for Color {
    type Error = ();

    /// Same as [`Color::try_from_name`].
    fn try_from(src: &'a str) -> Result<Color, ()> {
        Color::try_from_name(src)
    }
}

impl<'a> vstd::std_specs::convert::TryFromSpecImpl<&'a str> for Color {
    open spec fn obeys_try_from_spec() -> bool {
        true
    }

    open spec fn try_from_spec(src: &'a str) -> Result<Color, ()> {
        match color_from_name(src@) {
            Some(c) => Ok(c),
            None => Err(()),
        }
    }
}

impl core::str::FromStr for Color {
    type Err = ();

    /// Same as [`Color::parse_name`]: never fails.
    fn from_str(src: &str) -> (r: Result<Color, ()>)
        ensures
            r == Ok::<Color, ()>(match color_from_name(src@) {
                Some(c) => c,
                None => Color::White,
            }),
            ascii_only(src@) ==> r == Ok::<Color, ()>(match color_named(ascii_lower(src@)) {
                Some(c) => c,
                None => Color::White,
            }),
    {
        Ok(Color::parse_name(src))
    }
}

impl From<(u8, u8, u8)> for Color {
    fn from(rgb: (u8, u8, u8)) -> (c: Color) {
        Color::from_rgb(rgb)
    }
}

impl vstd::std_specs::convert::FromSpecImpl<(u8, u8, u8)> for Color {
    open spec fn obeys_from_spec() -> bool {
        true
    }

    open spec fn from_spec(rgb: (u8, u8, u8)) -> Color {
        Color::Rgb { r: rgb.0, g: rgb.1, b: rgb.2 }
    }
}

/// SGR parameter for bold text.
pub const SGR_BOLD: u8 = 1;
/// SGR parameter for dim (light) text.
pub const SGR_DIM: u8 = 2;
/// SGR parameter for italic text.
pub const SGR_ITALIC: u8 = 3;
/// SGR parameter for underlined text.
pub const SGR_UNDERLINED: u8 = 4;
/// SGR parameter for reverse video.
pub const SGR_REVERSE: u8 = 7;

/// The decimal digit character for `d < 10`.
pub open spec fn digit_char(d: nat) -> char {
    if d == 0 {
        '0'
    } else if d == 1 {
        '1'
    } else if d == 2 {
        '2'
    } else if d == 3 {
        '3'
    } else if d == 4 {
        '4'
    } else if d == 5 {
        '5'
    } else if d == 6 {
        '6'
    } else if d == 7 {
        '7'
    } else if d == 8 {
        '8'
    } else {
        '9'
    }
}

/// The decimal representation of `n`, without leading zeros.
pub open spec fn decimal(n: nat) -> Seq<char>
    decreases n,
{
    if n < 10 {
        seq![digit_char(n)]
    } else {
        decimal(n / 10).push(digit_char(n % 10))
    }
}

fn digit(d: u8) -> (c: char)
    requires
        d < 10,
    ensures
        c == digit_char(d as nat),
{
    if d == 0 {
        '0'
    } else if d == 1 {
        '1'
    } else if d == 2 {
        '2'
    } else if d == 3 {
        '3'
    } else if d == 4 {
        '4'
    } else if d == 5 {
        '5'
    } else if d == 6 {
        '6'
    } else if d == 7 {
        '7'
    } else if d == 8 {
        '8'
    } else {
        '9'
    }
}

/// Appends the decimal representation of `v` to `s`.
pub fn push_decimal(s: &mut String, v: u8)
    ensures
        final(s)@ == old(s)@ + decimal(v as nat),
{
    if v >= 100 {
        push_char(s, digit(v / 100));
        push_char(s, digit((v / 10) % 10));
        push_char(s, digit(v % 10));
        assert(decimal(v as nat) =~= seq![
            digit_char((v / 100) as nat),
            digit_char(((v / 10) % 10) as nat),
            digit_char((v % 10) as nat),
        ]) by {
            assert(decimal((v / 10) as nat) == decimal((v / 100) as nat).push(
                digit_char(((v / 10) % 10) as nat),
            ));
        }
    } else if v >= 10 {
        push_char(s, digit(v / 10));
        push_char(s, digit(v % 10));
        assert(decimal((v / 10) as nat) == seq![digit_char((v / 10) as nat)]);
        assert(decimal(v as nat) =~= seq![digit_char((v / 10) as nat), digit_char((v % 10) as nat)]);
    } else {
        push_char(s, digit(v));
        assert(decimal(v as nat) =~= seq![digit_char(v as nat)]);
    }
}

/// A [`Color`] used as a foreground or background color, rendered as the
/// SGR parameters that select it, e.g. `38;5;9` or `49`.
#[derive(Clone, Copy, Debug, PartialEq, Eq, Structural)]
pub enum SgrColor {
    /// The color of the text.
    Foreground(Color),
    /// The color behind the text.
    Background(Color),
}

/// The parameters that select a non-reset color after the `38;`/`48;` prefix.
pub open spec fn color_params(c: Color) -> Seq<char> {
    match c {
        Color::Black => "5;0"@,
        Color::DarkGrey => "5;8"@,
        Color::Red => "5;9"@,
        Color::DarkRed => "5;1"@,
        Color::Green => "5;10"@,
        Color::DarkGreen => "5;2"@,
        Color::Yellow => "5;11"@,
        Color::DarkYellow => "5;3"@,
        Color::Blue => "5;12"@,
        Color::DarkBlue => "5;4"@,
        Color::Magenta => "5;13"@,
        Color::DarkMagenta => "5;5"@,
        Color::Cyan => "5;14"@,
        Color::DarkCyan => "5;6"@,
        Color::White => "5;15"@,
        Color::Grey => "5;7"@,
        Color::Rgb { r, g, b } => "2;"@ + decimal(r as nat) + ";"@ + decimal(g as nat) + ";"@
            + decimal(b as nat),
        Color::AnsiValue(v) => "5;"@ + decimal(v as nat),
        Color::Reset => Seq::empty(),
    }
}

/// The SGR parameters of `s`; nothing at all when color output is disabled.
pub open spec fn sgr_params(s: SgrColor, disabled: bool) -> Seq<char> {
    if disabled {
        Seq::empty()
    } else {
        match s {
            SgrColor::Foreground(c) => if c == Color::Reset {
                "39"@
            } else {
                "38;"@ + color_params(c)
            },
            SgrColor::Background(c) => if c == Color::Reset {
                "49"@
            } else {
                "48;"@ + color_params(c)
            },
        }
    }
}

fn push_color_params(f: &mut String, c: Color)
    requires
        c != Color::Reset,
    ensures
        final(f)@ == old(f)@ + color_params(c),
{
    match c {
        Color::Black => push_str(f, "5;0"),
        Color::DarkGrey => push_str(f, "5;8"),
        Color::Red => push_str(f, "5;9"),
        Color::DarkRed => push_str(f, "5;1"),
        Color::Green => push_str(f, "5;10"),
        Color::DarkGreen => push_str(f, "5;2"),
        Color::Yellow => push_str(f, "5;11"),
        Color::DarkYellow => push_str(f, "5;3"),
        Color::Blue => push_str(f, "5;12"),
        Color::DarkBlue => push_str(f, "5;4"),
        Color::Magenta => push_str(f, "5;13"),
        Color::DarkMagenta => push_str(f, "5;5"),
        Color::Cyan => push_str(f, "5;14"),
        Color::DarkCyan => push_str(f, "5;6"),
        Color::White => push_str(f, "5;15"),
        Color::Grey => push_str(f, "5;7"),
        Color::Rgb { r, g, b } => {
            let ghost s0 = f@;
            push_str(f, "2;");
            push_decimal(f, r);
            push_str(f, ";");
            push_decimal(f, g);
            push_str(f, ";");
            push_decimal(f, b);
            assert(f@ =~= s0 + color_params(c));
        },
        Color::AnsiValue(v) => {
            let ghost s0 = f@;
            push_str(f, "5;");
            push_decimal(f, v);
            assert(f@ =~= s0 + color_params(c));
        },
        Color::Reset => {},
    }
}

impl SgrColor {
    /// Writes the SGR parameters, or nothing when `disabled` is true (the
    /// case where the `NO_COLOR` environment variable is set).
    pub fn write_params(&self, f: &mut String, disabled: bool)
        ensures
            final(f)@ == old(f)@ + sgr_params(*self, disabled),
    {
        if disabled {
            assert(old(f)@ + sgr_params(*self, disabled) =~= old(f)@);
            return;
        }
        let ghost s0 = f@;
        match *self {
            SgrColor::Foreground(c) => {
                if c == Color::Reset {
                    push_str(f, "39");
                } else {
                    push_str(f, "38;");
                    push_color_params(f, c);
                    assert(f@ =~= s0 + sgr_params(*self, disabled));
                }
            },
            SgrColor::Background(c) => {
                if c == Color::Reset {
                    push_str(f, "49");
                } else {
                    push_str(f, "48;");
                    push_color_params(f, c);
                    assert(f@ =~= s0 + sgr_params(*self, disabled));
                }
            },
        }
    }

    /// The SGR parameters as a string, with color output enabled.
    pub fn to_string(&self) -> (r: String)
        ensures
            r@ == sgr_params(*self, false),
    {
        let mut s = String::new();
        self.write_params(&mut s, false);
        assert(s@ =~= sgr_params(*self, false));
        s
    }
}

} // verus!
