//! Layout properties of components (display, padding, margin, overflow,
//! flex direction), how per-side values fall back to values for all sides,
//! and the components that only shape layout.
use vstd::prelude::*;

verus! {

/// How a node is laid out.
#[derive(Clone, Copy, Debug, PartialEq, Eq, Structural)]
pub enum Display {
    /// Block layout.
    Block,
    /// Flexbox layout. This is the default.
    Flex,
    /// Grid layout.
    Grid,
    /// Not displayed at all.
    Hidden,
}

impl Default for Display {
    fn default() -> (r: Display)
        ensures
            r == Display::Flex,
    {
        Display::Flex
    }
}

/// What happens to content that does not fit.
#[derive(Clone, Copy, Debug, PartialEq, Eq, Structural)]
pub enum Overflow {
    /// It is shown. This is the default.
    Visible,
    /// It is clipped, and does not affect layout.
    Clip,
    /// It is hidden.
    Hidden,
    /// It is scrolled.
    Scroll,
}

impl Default for Overflow {
    fn default() -> (r: Overflow)
        ensures
            r == Overflow::Visible,
    {
        Overflow::Visible
    }
}

/// The direction children are laid out in.
#[derive(Clone, Copy, Debug, PartialEq, Eq, Structural)]
pub enum FlexDirection {
    /// Left to right. This is the default.
    Row,
    /// Top to bottom.
    Column,
    /// Right to left.
    RowReverse,
    /// Bottom to top.
    ColumnReverse,
}

impl Default for FlexDirection {
    fn default() -> (r: FlexDirection)
        ensures
            r == FlexDirection::Row,
    {
        FlexDirection::Row
    }
}

/// The layout properties a component can be given.
#[derive(Clone, Copy, Debug, PartialEq, Eq, Structural)]
pub struct LayoutStyle {
    /// How the node is laid out.
    pub display: Display,
    /// Padding on all sides, where a side has none of its own.
    pub padding: Option<u32>,
    /// Padding at the top.
    pub padding_top: Option<u32>,
    /// Padding on the right.
    pub padding_right: Option<u32>,
    /// Padding at the bottom.
    pub padding_bottom: Option<u32>,
    /// Padding on the left.
    pub padding_left: Option<u32>,
    /// Margin on all sides, where a side has none of its own.
    pub margin: Option<u32>,
    /// Margin at the top.
    pub margin_top: Option<u32>,
    /// Margin on the right.
    pub margin_right: Option<u32>,
    /// Margin at the bottom.
    pub margin_bottom: Option<u32>,
    /// Margin on the left.
    pub margin_left: Option<u32>,
    /// Overflow on both axes, where an axis has none of its own.
    pub overflow: Option<Overflow>,
    /// Overflow along the x axis.
    pub overflow_x: Option<Overflow>,
    /// Overflow along the y axis.
    pub overflow_y: Option<Overflow>,
    /// The direction children are laid out in.
    pub flex_direction: FlexDirection,
}

impl Default for LayoutStyle {
    /// Flex layout in rows, with no padding, margin or overflow set.
    fn default() -> (r: LayoutStyle)
        ensures
            r.display == Display::Flex,
            r.padding is None && r.padding_top is None && r.padding_right is None && r.padding_bottom is None
                && r.padding_left is None,
            r.margin is None && r.margin_top is None && r.margin_right is None && r.margin_bottom is None
                && r.margin_left is None,
            r.overflow is None && r.overflow_x is None && r.overflow_y is None,
            r.flex_direction == FlexDirection::Row,
    {
        LayoutStyle {
            display: Display::Flex,
            padding: None,
            padding_top: None,
            padding_right: None,
            padding_bottom: None,
            padding_left: None,
            margin: None,
            margin_top: None,
            margin_right: None,
            margin_bottom: None,
            margin_left: None,
            overflow: None,
            overflow_x: None,
            overflow_y: None,
            flex_direction: FlexDirection::Row,
        }
    }
}

/// Layout properties with every side and axis decided.
#[derive(Clone, Copy, Debug, PartialEq, Eq, Structural)]
pub struct ResolvedLayout {
    /// How the node is laid out.
    pub display: Display,
    /// Padding at the top.
    pub padding_top: u32,
    /// Padding on the right.
    pub padding_right: u32,
    /// Padding at the bottom.
    pub padding_bottom: u32,
    /// Padding on the left.
    pub padding_left: u32,
    /// Margin at the top.
    pub margin_top: u32,
    /// Margin on the right.
    pub margin_right: u32,
    /// Margin at the bottom.
    pub margin_bottom: u32,
    /// Margin on the left.
    pub margin_left: u32,
    /// Overflow along the x axis.
    pub overflow_x: Overflow,
    /// Overflow along the y axis.
    pub overflow_y: Overflow,
    /// The direction children are laid out in.
    pub flex_direction: FlexDirection,
}

/// A side's own value, else the value for all sides, else 0.
pub open spec fn side_value(own: Option<u32>, all: Option<u32>) -> u32 {
    match own {
        Some(v) => v,
        None => match all {
            Some(v) => v,
            None => 0,
        },
    }
}

/// An axis's own overflow, else the overflow for both, else visible.
pub open spec fn axis_overflow(own: Option<Overflow>, all: Option<Overflow>) -> Overflow {
    match own {
        Some(v) => v,
        None => match all {
            Some(v) => v,
            None => Overflow::Visible,
        },
    }
}

fn side(own: Option<u32>, all: Option<u32>) -> (r: u32)
    ensures
        r == side_value(own, all),
{
    match own {
        Some(v) => v,
        None => match all {
            Some(v) => v,
            None => 0,
        },
    }
}

fn axis(own: Option<Overflow>, all: Option<Overflow>) -> (r: Overflow)
    ensures
        r == axis_overflow(own, all),
{
    match own {
        Some(v) => v,
        None => match all {
            Some(v) => v,
            None => Overflow::Visible,
        },
    }
}

impl LayoutStyle {
    /// Decides every side and axis: each takes its own value, else the value
    /// for all sides (or both axes), else no padding or margin and visible
    /// overflow.
    pub fn resolve(&self) -> (r: ResolvedLayout)
        ensures
            r.display == self.display,
            r.padding_top == side_value(self.padding_top, self.padding),
            r.padding_right == side_value(self.padding_right, self.padding),
            r.padding_bottom == side_value(self.padding_bottom, self.padding),
            r.padding_left == side_value(self.padding_left, self.padding),
            r.margin_top == side_value(self.margin_top, self.margin),
            r.margin_right == side_value(self.margin_right, self.margin),
            r.margin_bottom == side_value(self.margin_bottom, self.margin),
            r.margin_left == side_value(self.margin_left, self.margin),
            r.overflow_x == axis_overflow(self.overflow_x, self.overflow),
            r.overflow_y == axis_overflow(self.overflow_y, self.overflow),
            r.flex_direction == self.flex_direction,
    {
        ResolvedLayout {
            display: self.display,
            padding_top: side(self.padding_top, self.padding),
            padding_right: side(self.padding_right, self.padding),
            padding_bottom: side(self.padding_bottom, self.padding),
            padding_left: side(self.padding_left, self.padding),
            margin_top: side(self.margin_top, self.margin),
            margin_right: side(self.margin_right, self.margin),
            margin_bottom: side(self.margin_bottom, self.margin),
            margin_left: side(self.margin_left, self.margin),
            overflow_x: axis(self.overflow_x, self.overflow),
            overflow_y: axis(self.overflow_y, self.overflow),
            flex_direction: self.flex_direction,
        }
    }
}

/// `Fragment` groups elements without adding a node of its own to the
/// layout.
#[derive(Clone, Copy, Debug)]
pub struct Fragment;

/// `ContextProvider` provides a context to its children, adding nothing to
/// the layout or the output.
#[derive(Clone, Copy, Debug)]
pub struct ContextProvider;

/// The props of components that take none.
#[derive(Clone, Copy, Debug)]
pub struct NoProps;

/// `Modal` renders a popup: its children are shown only while it is open.
pub struct Modal {
    is_open: bool,
}

impl Modal {
    /// Whether the modal is open.
    pub closed spec fn open_v(&self) -> bool {
        self.is_open
    }

    /// A closed modal.
    pub fn new() -> (r: Modal)
        ensures
            !r.open_v(),
    {
        Modal { is_open: false }
    }

    /// Takes in whether the modal is open, returning how it is laid out:
    /// flex layout with its children while open, not displayed (and without
    /// children) while closed.
    pub fn update(&mut self, is_open: bool, style: &LayoutStyle) -> (r: (LayoutStyle, bool))
        ensures
            final(self).open_v() == is_open,
            r.0 == (LayoutStyle { display: if is_open { Display::Flex } else { Display::Hidden }, ..*style }),
            r.1 == is_open,
    {
        self.is_open = is_open;
        let mut s = *style;
        s.display = if is_open { Display::Flex } else { Display::Hidden };
        (s, is_open)
    }
}

/// A rectangle of the canvas: columns `left..right` and rows
/// `top..bottom`.
#[derive(Clone, Copy, Debug, PartialEq, Eq, Structural)]
pub struct Rect {
    /// The first column drawn.
    pub left: u16,
    /// The column after the last one drawn.
    pub right: u16,
    /// The first row drawn.
    pub top: u16,
    /// The row after the last one drawn.
    pub bottom: u16,
}

/// The node's borders, in cells, as the layout gives them.
#[derive(Clone, Copy, Debug, PartialEq, Eq, Structural)]
pub struct Borders {
    /// The left border.
    pub left: i16,
    /// The right border.
    pub right: i16,
    /// The top border.
    pub top: i16,
    /// The bottom border.
    pub bottom: i16,
}

/// `v`, or 0 where it is negative.
pub open spec fn at_least_zero(v: int) -> int {
    if v < 0 {
        0
    } else {
        v
    }
}

/// The clip rectangle of a node's children: where the node's overflow is not
/// visible along an axis, the node's clip rectangle narrowed along that axis
/// to the inside of the node's borders (at the node's position `x`, `y` and
/// of size `w` by `h`); unchanged along a visible axis.
pub open spec fn child_clip_of(clip: Rect, overflow_x: Overflow, overflow_y: Overflow, x: i16, y: i16, w: u16, h: u16, border: Borders) -> Rect {
    let cx = if overflow_x != Overflow::Visible {
        Rect {
            left: crate::canvas::imax(clip.left as int, at_least_zero(x + border.left)) as u16,
            right: crate::canvas::imin(clip.right as int, at_least_zero(x + crate::terminal::as_i16(w) - border.right)) as u16,
            ..clip
        }
    } else {
        clip
    };
    if overflow_y != Overflow::Visible {
        Rect {
            top: crate::canvas::imax(cx.top as int, at_least_zero(y + border.top)) as u16,
            bottom: crate::canvas::imin(cx.bottom as int, at_least_zero(y + crate::terminal::as_i16(h) - border.bottom)) as u16,
            ..cx
        }
    } else {
        cx
    }
}

/// Whether computing the children's clip rectangle stays within `i16`.
pub open spec fn child_clip_fits(overflow_x: Overflow, overflow_y: Overflow, x: i16, y: i16, w: u16, h: u16, border: Borders) -> bool {
    &&& overflow_x != Overflow::Visible ==> {
        &&& i16::MIN <= x + border.left <= i16::MAX
        &&& i16::MIN <= x + crate::terminal::as_i16(w) <= i16::MAX
        &&& i16::MIN <= x + crate::terminal::as_i16(w) - border.right <= i16::MAX
    }
    &&& overflow_y != Overflow::Visible ==> {
        &&& i16::MIN <= y + border.top <= i16::MAX
        &&& i16::MIN <= y + crate::terminal::as_i16(h) <= i16::MAX
        &&& i16::MIN <= y + crate::terminal::as_i16(h) - border.bottom <= i16::MAX
    }
}

fn signed16(v: u16) -> (r: i32)
    ensures
        r == crate::terminal::as_i16(v),
{
    if v < 0x8000 {
        v as i32
    } else {
        v as i32 - 0x10000
    }
}

fn clamp_low(v: i32, bound: u16) -> (r: u16)
    requires
        v <= i16::MAX,
    ensures
        r == crate::canvas::imax(bound as int, at_least_zero(v as int)),
{
    let z: u16 = if v < 0 { 0 } else { v as u16 };
    if bound < z { z } else { bound }
}

fn clamp_high(v: i32, bound: u16) -> (r: u16)
    requires
        v <= i16::MAX,
    ensures
        r == crate::canvas::imin(bound as int, at_least_zero(v as int)),
{
    let z: u16 = if v < 0 { 0 } else { v as u16 };
    if bound < z { bound } else { z }
}

/// The clip rectangle of a node's children (see [`child_clip_of`]).
pub fn child_clip_rect(
    clip: Rect,
    overflow_x: Overflow,
    overflow_y: Overflow,
    position: (i16, i16),
    size: (u16, u16),
    border: Borders,
) -> (r: Rect)
    requires
        child_clip_fits(overflow_x, overflow_y, position.0, position.1, size.0, size.1, border),
    ensures
        r == child_clip_of(clip, overflow_x, overflow_y, position.0, position.1, size.0, size.1, border),
{
    let mut r = clip;
    if overflow_x != Overflow::Visible {
        let x = position.0 as i32;
        r.left = clamp_low(x + border.left as i32, r.left);
        r.right = clamp_high(x + signed16(size.0) - border.right as i32, r.right);
    }
    if overflow_y != Overflow::Visible {
        let y = position.1 as i32;
        r.top = clamp_low(y + border.top as i32, r.top);
        r.bottom = clamp_high(y + signed16(size.1) - border.bottom as i32, r.bottom);
    }
    r
}

/// Children are never drawn outside their parent's clip rectangle: the
/// children's clip rectangle lies within the node's.
pub proof fn lemma_child_clip_within(clip: Rect, overflow_x: Overflow, overflow_y: Overflow, x: i16, y: i16, w: u16, h: u16, border: Borders)
    requires
        child_clip_fits(overflow_x, overflow_y, x, y, w, h, border),
    ensures
        ({
            let c = child_clip_of(clip, overflow_x, overflow_y, x, y, w, h, border);
            &&& c.left >= clip.left && c.right <= clip.right
            &&& c.top >= clip.top && c.bottom <= clip.bottom
        }),
{
}

/// The value with the bits of `v` read as unsigned (what `v as u16` gives).
pub open spec fn as_u16(v: i16) -> int {
    if v < 0 {
        v + 0x10000
    } else {
        v as int
    }
}

/// The rectangle a component was drawn in, from its position on the canvas
/// (read as unsigned) and its size.
pub open spec fn component_rect_of(x: i16, y: i16, w: u16, h: u16) -> Rect {
    Rect {
        left: as_u16(x) as u16,
        right: (as_u16(x) + w) as u16,
        top: as_u16(y) as u16,
        bottom: (as_u16(y) + h) as u16,
    }
}

fn unsigned16(v: i16) -> (r: u16)
    ensures
        r == as_u16(v),
{
    if v < 0 {
        (v as i32 + 0x10000) as u16
    } else {
        v as u16
    }
}

/// Where a component was last drawn, and whether that changed at its last
/// drawing.
pub struct ComponentRectTracker {
    /// The rectangle of the last drawing, if any.
    pub rect: Option<Rect>,
    /// Whether the last drawing moved or resized the component.
    pub is_changed: bool,
}

impl ComponentRectTracker {
    /// Not drawn yet.
    pub fn new() -> (r: ComponentRectTracker)
        ensures
            r.rect is None,
            !r.is_changed,
    {
        ComponentRectTracker { rect: None, is_changed: false }
    }

    /// Records a drawing at `position` of the given size: the rectangle is
    /// kept, and it counts as a change where it differs from the last one
    /// (or there was none).
    pub fn on_draw(&mut self, position: (i16, i16), size: (u16, u16))
        requires
            as_u16(position.0) + size.0 <= u16::MAX,
            as_u16(position.1) + size.1 <= u16::MAX,
        ensures
            final(self).rect == Some(component_rect_of(position.0, position.1, size.0, size.1)),
            final(self).is_changed == (old(self).rect != Some(component_rect_of(position.0, position.1, size.0, size.1))),
    {
        let left = unsigned16(position.0);
        let top = unsigned16(position.1);
        let rect = Rect { left, right: left + size.0, top, bottom: top + size.1 };
        let same = match self.rect {
            Some(r) => r.left == rect.left && r.right == rect.right && r.top == rect.top && r.bottom == rect.bottom,
            None => false,
        };
        self.rect = Some(rect);
        self.is_changed = !same;
    }
}

} // verus!
