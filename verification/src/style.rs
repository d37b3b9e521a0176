//! Text weight, border edges and the style of canvas text.
use vstd::prelude::*;
use crate::color::Color;

verus! {

/// The weight (intensity) of text.
#[derive(Clone, Copy, Debug, PartialEq, Eq, Structural, Hash)]
pub enum Weight {
    /// Normal intensity. This is the default.
    Normal,
    /// Bold, increased intensity.
    Bold,
    /// Light, decreased intensity.
    Light,
}

impl Default for Weight {
    fn default() -> (r: Weight)
        ensures
            r == Weight::Normal,
    {
        Weight::Normal
    }
}

/// A set of the four edges of a rectangle.
#[derive(Clone, Copy, Debug, PartialEq, Eq, Structural, Hash)]
pub struct Edges {
    /// Whether the top edge is in the set.
    pub top: bool,
    /// Whether the right edge is in the set.
    pub right: bool,
    /// Whether the bottom edge is in the set.
    pub bottom: bool,
    /// Whether the left edge is in the set.
    pub left: bool,
}

impl Edges {
    /// All four edges.
    pub fn all() -> (r: Edges)
        ensures
            r.top && r.right && r.bottom && r.left,
    {
        Edges { top: true, right: true, bottom: true, left: true }
    }

    /// No edge.
    pub fn empty() -> (r: Edges)
        ensures
            !r.top && !r.right && !r.bottom && !r.left,
    {
        Edges { top: false, right: false, bottom: false, left: false }
    }

    /// Whether every edge of `other` is in `self`.
    pub fn contains(&self, other: Edges) -> (r: bool)
        ensures
            r == ((other.top ==> self.top) && (other.right ==> self.right) && (other.bottom
                ==> self.bottom) && (other.left ==> self.left)),
    {
        (!other.top || self.top) && (!other.right || self.right) && (!other.bottom || self.bottom)
            && (!other.left || self.left)
    }

    /// The edges that are in `self` or in `other`.
    pub fn union(&self, other: Edges) -> (r: Edges)
        ensures
            r.top == (self.top || other.top),
            r.right == (self.right || other.right),
            r.bottom == (self.bottom || other.bottom),
            r.left == (self.left || other.left),
    {
        Edges {
            top: self.top || other.top,
            right: self.right || other.right,
            bottom: self.bottom || other.bottom,
            left: self.left || other.left,
        }
    }
}

impl Default for Edges {
    /// The empty set.
    fn default() -> (r: Edges)
        ensures
            !r.top && !r.right && !r.bottom && !r.left,
    {
        Edges::empty()
    }
}

/// Describes the style of text to be rendered via a [`Canvas`](crate::canvas::Canvas).
#[non_exhaustive]
#[derive(Clone, Copy, Debug, PartialEq, Eq, Structural, Hash)]
pub struct CanvasTextStyle {
    /// The color of the text.
    pub color: Option<Color>,
    /// The weight of the text.
    pub weight: Weight,
    /// Whether the text is underlined.
    pub underline: bool,
    /// Whether the text is italicized.
    pub italic: bool,
}

/// The style of plain text: no color, normal weight, no decoration.
pub open spec fn plain_style() -> CanvasTextStyle {
    CanvasTextStyle { color: None, weight: Weight::Normal, underline: false, italic: false }
}

impl CanvasTextStyle {
    /// Creates a style from its parts.
    pub fn new(color: Option<Color>, weight: Weight, underline: bool, italic: bool) -> (r:
        CanvasTextStyle)
        ensures
            r == (CanvasTextStyle { color, weight, underline, italic }),
    {
        CanvasTextStyle { color, weight, underline, italic }
    }
}

impl Default for CanvasTextStyle {
    fn default() -> (r: CanvasTextStyle)
        ensures
            r == plain_style(),
    {
        CanvasTextStyle { color: None, weight: Weight::Normal, underline: false, italic: false }
    }
}

} // verus!
