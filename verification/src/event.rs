//! Input event types that do not depend on any terminal library: keys,
//! key modifiers and mouse events, with the names they are displayed by.
use vstd::prelude::*;
use crate::color::push_decimal;
use crate::color;

verus! {

/// Represents a key on the keyboard.
#[derive(Clone, Copy, Debug, PartialEq, Eq, Hash, Structural)]
pub enum KeyCode {
    /// Backspace key.
    Backspace,
    /// Enter key.
    Enter,
    /// Left arrow key.
    Left,
    /// Right arrow key.
    Right,
    /// Up arrow key.
    Up,
    /// Down arrow key.
    Down,
    /// Home key.
    Home,
    /// End key.
    End,
    /// Page up key.
    PageUp,
    /// Page down key.
    PageDown,
    /// Tab key.
    Tab,
    /// Shift + Tab key.
    BackTab,
    /// Delete key.
    Delete,
    /// Insert key.
    Insert,
    /// Function key, e.g. `KeyCode::F(1)` for F1.
    F(u8),
    /// A character key.
    Char(char),
    /// Null.
    Null,
    /// Escape key.
    Esc,
    /// Caps Lock key.
    CapsLock,
    /// Scroll Lock key.
    ScrollLock,
    /// Num Lock key.
    NumLock,
    /// Print Screen key.
    PrintScreen,
    /// Pause key.
    Pause,
    /// Menu key.
    Menu,
    /// The "Begin" key, often the keypad 5 with Num Lock on.
    KeypadBegin,
    /// A media key.
    Media(MediaKeyCode),
    /// A modifier key.
    Modifier(ModifierKeyCode),
}

/// Represents a media key (as part of [`KeyCode::Media`]).
#[derive(Clone, Copy, Debug, PartialEq, Eq, Hash, Structural)]
pub enum MediaKeyCode {
    /// Play media key.
    Play,
    /// Pause media key.
    Pause,
    /// Play/Pause media key.
    PlayPause,
    /// Reverse media key.
    Reverse,
    /// Stop media key.
    Stop,
    /// Fast-forward media key.
    FastForward,
    /// Rewind media key.
    Rewind,
    /// Next-track media key.
    TrackNext,
    /// Previous-track media key.
    TrackPrevious,
    /// Record media key.
    Record,
    /// Lower-volume media key.
    LowerVolume,
    /// Raise-volume media key.
    RaiseVolume,
    /// Mute media key.
    MuteVolume,
}

/// Represents a modifier key (as part of [`KeyCode::Modifier`]).
#[derive(Clone, Copy, Debug, PartialEq, Eq, Hash, Structural)]
pub enum ModifierKeyCode {
    /// Left Shift key.
    LeftShift,
    /// Left Control key.
    LeftControl,
    /// Left Alt key.
    LeftAlt,
    /// Left Super key.
    LeftSuper,
    /// Left Hyper key.
    LeftHyper,
    /// Left Meta key.
    LeftMeta,
    /// Right Shift key.
    RightShift,
    /// Right Control key.
    RightControl,
    /// Right Alt key.
    RightAlt,
    /// Right Super key.
    RightSuper,
    /// Right Hyper key.
    RightHyper,
    /// Right Meta key.
    RightMeta,
    /// Iso Level3 Shift key.
    IsoLevel3Shift,
    /// Iso Level5 Shift key.
    IsoLevel5Shift,
}

/// Represents key modifiers (shift, control, alt, etc.) as a set of bits.
#[derive(Clone, Copy, Debug, PartialEq, Eq, Hash, Structural)]
pub struct KeyModifiers {
    bits: u8,
}

/// The shift key's bit.
pub const SHIFT_BIT: u8 = 0b0000_0001;
/// The control key's bit.
pub const CONTROL_BIT: u8 = 0b0000_0010;
/// The alt key's bit.
pub const ALT_BIT: u8 = 0b0000_0100;
/// The super key's bit.
pub const SUPER_BIT: u8 = 0b0000_1000;
/// The hyper key's bit.
pub const HYPER_BIT: u8 = 0b0001_0000;
/// The meta key's bit.
pub const META_BIT: u8 = 0b0010_0000;
/// The bits that name a modifier.
pub const ALL_BITS: u8 = 0b0011_1111;

impl KeyModifiers {
    /// The shift key.
    #[allow(non_snake_case)]
    pub fn SHIFT() -> (r: KeyModifiers)
        ensures
            r.spec_bits() == SHIFT_BIT,
    {
        KeyModifiers { bits: SHIFT_BIT }
    }

    /// The control key.
    #[allow(non_snake_case)]
    pub fn CONTROL() -> (r: KeyModifiers)
        ensures
            r.spec_bits() == CONTROL_BIT,
    {
        KeyModifiers { bits: CONTROL_BIT }
    }

    /// The alt key.
    #[allow(non_snake_case)]
    pub fn ALT() -> (r: KeyModifiers)
        ensures
            r.spec_bits() == ALT_BIT,
    {
        KeyModifiers { bits: ALT_BIT }
    }

    /// The super key.
    #[allow(non_snake_case)]
    pub fn SUPER() -> (r: KeyModifiers)
        ensures
            r.spec_bits() == SUPER_BIT,
    {
        KeyModifiers { bits: SUPER_BIT }
    }

    /// The hyper key.
    #[allow(non_snake_case)]
    pub fn HYPER() -> (r: KeyModifiers)
        ensures
            r.spec_bits() == HYPER_BIT,
    {
        KeyModifiers { bits: HYPER_BIT }
    }

    /// The meta key.
    #[allow(non_snake_case)]
    pub fn META() -> (r: KeyModifiers)
        ensures
            r.spec_bits() == META_BIT,
    {
        KeyModifiers { bits: META_BIT }
    }

    /// No modifiers.
    #[allow(non_snake_case)]
    pub fn NONE() -> (r: KeyModifiers)
        ensures
            r.spec_bits() == 0,
    {
        KeyModifiers { bits: 0 }
    }

    /// The bits of the set.
    pub closed spec fn spec_bits(&self) -> u8 {
        self.bits
    }

    /// The bits of the set.
    pub fn bits(&self) -> (r: u8)
        ensures
            r == self.spec_bits(),
    {
        self.bits
    }

    /// The set with no modifiers.
    pub fn empty() -> (r: KeyModifiers)
        ensures
            r.spec_bits() == 0,
    {
        KeyModifiers { bits: 0 }
    }

    /// The set with every named modifier.
    pub fn all() -> (r: KeyModifiers)
        ensures
            r.spec_bits() == ALL_BITS,
    {
        KeyModifiers { bits: ALL_BITS }
    }

    /// The set with exactly the given bits, named or not.
    pub fn from_bits_retain(bits: u8) -> (r: KeyModifiers)
        ensures
            r.spec_bits() == bits,
    {
        KeyModifiers { bits }
    }

    /// The set with the given bits, where all of them name a modifier.
    pub fn from_bits(bits: u8) -> (r: Option<KeyModifiers>)
        ensures
            r matches Some(m) ==> m.spec_bits() == bits,
            r is Some <==> bits & !ALL_BITS == 0,
    {
        if bits & !ALL_BITS == 0 {
            Some(KeyModifiers { bits })
        } else {
            None
        }
    }

    /// Whether the set holds no modifier.
    pub fn is_empty(&self) -> (r: bool)
        ensures
            r == (self.spec_bits() == 0),
    {
        self.bits == 0
    }

    /// Whether every modifier of `other` is in the set.
    pub fn contains(&self, other: KeyModifiers) -> (r: bool)
        ensures
            r == (self.spec_bits() & other.spec_bits() == other.spec_bits()),
    {
        self.bits & other.bits == other.bits
    }

    /// Whether the set shares a modifier with `other`.
    pub fn intersects(&self, other: KeyModifiers) -> (r: bool)
        ensures
            r == (self.spec_bits() & other.spec_bits() != 0),
    {
        self.bits & other.bits != 0
    }

    /// The modifiers in either set.
    pub fn union(self, other: KeyModifiers) -> (r: KeyModifiers)
        ensures
            r.spec_bits() == self.spec_bits() | other.spec_bits(),
    {
        KeyModifiers { bits: self.bits | other.bits }
    }

    /// The modifiers in both sets.
    pub fn intersection(self, other: KeyModifiers) -> (r: KeyModifiers)
        ensures
            r.spec_bits() == self.spec_bits() & other.spec_bits(),
    {
        KeyModifiers { bits: self.bits & other.bits }
    }

    /// The modifiers of the set that are not in `other`.
    pub fn difference(self, other: KeyModifiers) -> (r: KeyModifiers)
        ensures
            r.spec_bits() == self.spec_bits() & !other.spec_bits(),
    {
        KeyModifiers { bits: self.bits & !other.bits }
    }

    /// Adds the modifiers of `other` to the set.
    pub fn insert(&mut self, other: KeyModifiers)
        ensures
            final(self).spec_bits() == old(self).spec_bits() | other.spec_bits(),
    {
        self.bits = self.bits | other.bits;
    }

    /// Removes the modifiers of `other` from the set.
    pub fn remove(&mut self, other: KeyModifiers)
        ensures
            final(self).spec_bits() == old(self).spec_bits() & !other.spec_bits(),
    {
        self.bits = self.bits & !other.bits;
    }
}

/// Unions are commutative and keep what either side has: a modifier is in
/// the union of two sets exactly when it is in one of them.
pub proof fn lemma_union_contains(a: KeyModifiers, b: KeyModifiers, m: KeyModifiers)
    ensures
        (a.spec_bits() | b.spec_bits()) == (b.spec_bits() | a.spec_bits()),
        (a.spec_bits() | b.spec_bits()) & a.spec_bits() == a.spec_bits(),
        (a.spec_bits() & m.spec_bits() != 0 || b.spec_bits() & m.spec_bits() != 0) <==> (
        a.spec_bits() | b.spec_bits()) & m.spec_bits() != 0,
{
    let (x, y, z) = (a.spec_bits(), b.spec_bits(), m.spec_bits());
    assert((x | y) == (y | x)) by (bit_vector);
    assert((x | y) & x == x) by (bit_vector);
    assert((x & z != 0 || y & z != 0) <==> (x | y) & z != 0) by (bit_vector);
}

/// The names of the modifiers in `bits`, in the order shift, control, alt,
/// super, hyper, meta.
pub open spec fn modifier_names(bits: u8) -> Seq<Seq<char>> {
    (if bits & SHIFT_BIT != 0 { seq!["Shift"@] } else { Seq::empty() })
        + (if bits & CONTROL_BIT != 0 { seq!["Control"@] } else { Seq::empty() })
        + (if bits & ALT_BIT != 0 { seq!["Alt"@] } else { Seq::empty() })
        + (if bits & SUPER_BIT != 0 { seq!["Super"@] } else { Seq::empty() })
        + (if bits & HYPER_BIT != 0 { seq!["Hyper"@] } else { Seq::empty() })
        + (if bits & META_BIT != 0 { seq!["Meta"@] } else { Seq::empty() })
}

/// Names joined by `+`.
pub open spec fn join_plus(names: Seq<Seq<char>>) -> Seq<char>
    decreases names.len(),
{
    if names.len() == 0 {
        Seq::empty()
    } else if names.len() == 1 {
        names[0]
    } else {
        join_plus(names.drop_last()) + seq!['+'] + names.last()
    }
}

/// Appends one modifier's name to the text shown for a set, after a `+`
/// unless it is the first name.
fn push_modifier_name(out: &mut String, first: bool, names: Ghost<Seq<Seq<char>>>, name: &str)
    requires
        old(out)@ == join_plus(names@),
        first == (names@.len() == 0),
    ensures
        final(out)@ == join_plus(names@.push(name@)),
{
    let ghost ns = names@.push(name@);
    assert(ns.drop_last() =~= names@);
    if first {
        assert(ns =~= seq![name@]);
    } else {
        crate::chars::push_char(out, '+');
    }
    crate::chars::push_str(out, name);
}

impl KeyModifiers {
    /// The text a set of modifiers is shown by: the names of its modifiers
    /// joined by `+`.
    pub fn to_string(&self) -> (r: String)
        requires
            self.spec_bits() & !ALL_BITS == 0,
        ensures
            r@ == join_plus(modifier_names(self.spec_bits())),
    {
        let ghost b = self.bits;
        let mut out = String::new();
        let ghost mut names: Seq<Seq<char>> = Seq::empty();
        proof {
            reveal_strlit("Shift");
            reveal_strlit("Control");
            reveal_strlit("Alt");
            reveal_strlit("Super");
            reveal_strlit("Hyper");
            reveal_strlit("Meta");
        }
        let mut first = true;
        assert(out@ =~= join_plus(names));
        if self.bits & SHIFT_BIT != 0 {
            push_modifier_name(&mut out, first, Ghost(names), "Shift");
            proof { names = names.push("Shift"@); }
            first = false;
        }
        if self.bits & CONTROL_BIT != 0 {
            push_modifier_name(&mut out, first, Ghost(names), "Control");
            proof { names = names.push("Control"@); }
            first = false;
        }
        if self.bits & ALT_BIT != 0 {
            push_modifier_name(&mut out, first, Ghost(names), "Alt");
            proof { names = names.push("Alt"@); }
            first = false;
        }
        if self.bits & SUPER_BIT != 0 {
            push_modifier_name(&mut out, first, Ghost(names), "Super");
            proof { names = names.push("Super"@); }
            first = false;
        }
        if self.bits & HYPER_BIT != 0 {
            push_modifier_name(&mut out, first, Ghost(names), "Hyper");
            proof { names = names.push("Hyper"@); }
            first = false;
        }
        if self.bits & META_BIT != 0 {
            push_modifier_name(&mut out, first, Ghost(names), "Meta");
            proof { names = names.push("Meta"@); }
            first = false;
        }
        assert(names =~= modifier_names(b));
        out
    }
}

/// The name a media key is shown by.
pub open spec fn media_key_name(k: MediaKeyCode) -> Seq<char> {
    match k {
        MediaKeyCode::Play => "Play"@,
        MediaKeyCode::Pause => "Pause"@,
        MediaKeyCode::PlayPause => "Play/Pause"@,
        MediaKeyCode::Reverse => "Reverse"@,
        MediaKeyCode::Stop => "Stop"@,
        MediaKeyCode::FastForward => "Fast Forward"@,
        MediaKeyCode::Rewind => "Rewind"@,
        MediaKeyCode::TrackNext => "Next Track"@,
        MediaKeyCode::TrackPrevious => "Previous Track"@,
        MediaKeyCode::Record => "Record"@,
        MediaKeyCode::LowerVolume => "Lower Volume"@,
        MediaKeyCode::RaiseVolume => "Raise Volume"@,
        MediaKeyCode::MuteVolume => "Mute Volume"@,
    }
}

impl MediaKeyCode {
    /// The name the key is shown by.
    pub fn to_string(&self) -> (r: String)
        ensures
            r@ == media_key_name(*self),
    {
        let s = match self {
            MediaKeyCode::Play => "Play",
            MediaKeyCode::Pause => "Pause",
            MediaKeyCode::PlayPause => "Play/Pause",
            MediaKeyCode::Reverse => "Reverse",
            MediaKeyCode::Stop => "Stop",
            MediaKeyCode::FastForward => "Fast Forward",
            MediaKeyCode::Rewind => "Rewind",
            MediaKeyCode::TrackNext => "Next Track",
            MediaKeyCode::TrackPrevious => "Previous Track",
            MediaKeyCode::Record => "Record",
            MediaKeyCode::LowerVolume => "Lower Volume",
            MediaKeyCode::RaiseVolume => "Raise Volume",
            MediaKeyCode::MuteVolume => "Mute Volume",
        };
        s.to_owned()
    }
}

/// The name a modifier key is shown by.
pub open spec fn modifier_key_name(k: ModifierKeyCode) -> Seq<char> {
    match k {
        ModifierKeyCode::LeftShift => "Left Shift"@,
        ModifierKeyCode::LeftHyper => "Left Hyper"@,
        ModifierKeyCode::LeftMeta => "Left Meta"@,
        ModifierKeyCode::RightShift => "Right Shift"@,
        ModifierKeyCode::RightHyper => "Right Hyper"@,
        ModifierKeyCode::RightMeta => "Right Meta"@,
        ModifierKeyCode::IsoLevel3Shift => "Iso Level 3 Shift"@,
        ModifierKeyCode::IsoLevel5Shift => "Iso Level 5 Shift"@,
        ModifierKeyCode::LeftControl => "Left Ctrl"@,
        ModifierKeyCode::LeftAlt => "Left Alt"@,
        ModifierKeyCode::LeftSuper => "Left Super"@,
        ModifierKeyCode::RightControl => "Right Ctrl"@,
        ModifierKeyCode::RightAlt => "Right Alt"@,
        ModifierKeyCode::RightSuper => "Right Super"@,
    }
}

impl ModifierKeyCode {
    /// The name the key is shown by.
    pub fn to_string(&self) -> (r: String)
        ensures
            r@ == modifier_key_name(*self),
    {
        let s = match self {
            ModifierKeyCode::LeftShift => "Left Shift",
            ModifierKeyCode::LeftHyper => "Left Hyper",
            ModifierKeyCode::LeftMeta => "Left Meta",
            ModifierKeyCode::RightShift => "Right Shift",
            ModifierKeyCode::RightHyper => "Right Hyper",
            ModifierKeyCode::RightMeta => "Right Meta",
            ModifierKeyCode::IsoLevel3Shift => "Iso Level 3 Shift",
            ModifierKeyCode::IsoLevel5Shift => "Iso Level 5 Shift",
            ModifierKeyCode::LeftControl => "Left Ctrl",
            ModifierKeyCode::LeftAlt => "Left Alt",
            ModifierKeyCode::LeftSuper => "Left Super",
            ModifierKeyCode::RightControl => "Right Ctrl",
            ModifierKeyCode::RightAlt => "Right Alt",
            ModifierKeyCode::RightSuper => "Right Super",
        };
        s.to_owned()
    }
}

/// The name a key is shown by.
pub open spec fn key_code_name(k: KeyCode) -> Seq<char> {
    match k {
        KeyCode::Backspace => "Backspace"@,
        KeyCode::Delete => "Del"@,
        KeyCode::Enter => "Enter"@,
        KeyCode::Left => "Left"@,
        KeyCode::Right => "Right"@,
        KeyCode::Up => "Up"@,
        KeyCode::Down => "Down"@,
        KeyCode::Home => "Home"@,
        KeyCode::End => "End"@,
        KeyCode::PageUp => "Page Up"@,
        KeyCode::PageDown => "Page Down"@,
        KeyCode::Tab => "Tab"@,
        KeyCode::BackTab => "Back Tab"@,
        KeyCode::Insert => "Insert"@,
        KeyCode::F(n) => seq!['F'] + color::decimal(n as nat),
        KeyCode::Char(c) => if c == ' ' { "Space"@ } else { seq![c] },
        KeyCode::Null => "Null"@,
        KeyCode::Esc => "Esc"@,
        KeyCode::CapsLock => "Caps Lock"@,
        KeyCode::ScrollLock => "Scroll Lock"@,
        KeyCode::NumLock => "Num Lock"@,
        KeyCode::PrintScreen => "Print Screen"@,
        KeyCode::Pause => "Pause"@,
        KeyCode::Menu => "Menu"@,
        KeyCode::KeypadBegin => "Begin"@,
        KeyCode::Media(m) => media_key_name(m),
        KeyCode::Modifier(m) => modifier_key_name(m),
    }
}

impl KeyCode {
    /// The name the key is shown by.
    pub fn to_string(&self) -> (r: String)
        ensures
            r@ == key_code_name(*self),
    {
        let s = match self {
            KeyCode::Backspace => "Backspace",
            KeyCode::Delete => "Del",
            KeyCode::Enter => "Enter",
            KeyCode::Left => "Left",
            KeyCode::Right => "Right",
            KeyCode::Up => "Up",
            KeyCode::Down => "Down",
            KeyCode::Home => "Home",
            KeyCode::End => "End",
            KeyCode::PageUp => "Page Up",
            KeyCode::PageDown => "Page Down",
            KeyCode::Tab => "Tab",
            KeyCode::BackTab => "Back Tab",
            KeyCode::Insert => "Insert",
            KeyCode::F(n) => {
                let mut out = String::new();
                crate::chars::push_char(&mut out, 'F');
                push_decimal(&mut out, *n);
                assert(out@ =~= seq!['F'] + color::decimal(*n as nat));
                return out;
            },
            KeyCode::Char(c) => {
                if *c == ' ' {
                    "Space"
                } else {
                    let mut out = String::new();
                    crate::chars::push_char(&mut out, *c);
                    assert(out@ =~= seq![*c]);
                    return out;
                }
            },
            KeyCode::Null => "Null",
            KeyCode::Esc => "Esc",
            KeyCode::CapsLock => "Caps Lock",
            KeyCode::ScrollLock => "Scroll Lock",
            KeyCode::NumLock => "Num Lock",
            KeyCode::PrintScreen => "Print Screen",
            KeyCode::Pause => "Pause",
            KeyCode::Menu => "Menu",
            KeyCode::KeypadBegin => "Begin",
            KeyCode::Media(m) => {
                return m.to_string();
            },
            KeyCode::Modifier(m) => {
                return m.to_string();
            },
        };
        s.to_owned()
    }
}

/// Represents the kind of a key event.
#[derive(Clone, Copy, Debug, PartialEq, Eq, Hash, Structural)]
pub enum KeyEventKind {
    /// The key was pressed.
    Press,
    /// The key is being held down and repeating.
    Repeat,
    /// The key was released.
    Release,
}

/// Represents a mouse button.
#[derive(Clone, Copy, Debug, PartialEq, Eq, Hash, Structural)]
pub enum MouseButton {
    /// Left mouse button.
    Left,
    /// Right mouse button.
    Right,
    /// Middle mouse button.
    Middle,
}

/// Represents the kind of a mouse event.
#[derive(Clone, Copy, Debug, PartialEq, Eq, Hash, Structural)]
pub enum MouseEventKind {
    /// A mouse button was pressed.
    Down(MouseButton),
    /// A mouse button was released.
    Up(MouseButton),
    /// The mouse was moved with a button held down.
    Drag(MouseButton),
    /// The mouse was moved with no button held down.
    Moved,
    /// The mouse wheel was scrolled down (towards the user).
    ScrollDown,
    /// The mouse wheel was scrolled up (away from the user).
    ScrollUp,
    /// The mouse wheel was scrolled left.
    ScrollLeft,
    /// The mouse wheel was scrolled right.
    ScrollRight,
}

} // verus!
