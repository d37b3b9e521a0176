//! Scrolling: the offset range of a scroll view, how keys and the mouse
//! wheel move it, a bottom-pinned mode, and the scrollbar.
use vstd::prelude::*;
use crate::canvas::{CanvasSubviewMut, DrawOp};
use crate::color::Color;
use crate::event::{KeyCode, KeyEventKind, MouseEventKind};
use crate::style::CanvasTextStyle;
use crate::terminal::TerminalEvent;
use crate::canvas;

verus! {

/// The largest scroll offset: how much taller the content is than the
/// viewport, or 0.
pub open spec fn max_offset_of(content_height: u16, viewport_height: u16) -> int {
    if content_height > viewport_height {
        content_height - viewport_height
    } else {
        0
    }
}

/// `offset` limited to `0..=max_offset_of(..)`.
pub open spec fn clamp_of(offset: int, content_height: u16, viewport_height: u16) -> int {
    if offset < 0 {
        0
    } else if offset > max_offset_of(content_height, viewport_height) {
        max_offset_of(content_height, viewport_height)
    } else {
        offset
    }
}

/// The largest scroll offset.
pub fn max_offset(content_height: u16, viewport_height: u16) -> (r: i32)
    ensures
        r == max_offset_of(content_height, viewport_height),
{
    let d = content_height as i32 - viewport_height as i32;
    if d > 0 {
        d
    } else {
        0
    }
}

/// Limits an offset to the valid range.
pub fn clamp_offset(offset: i32, content_height: u16, viewport_height: u16) -> (r: i32)
    ensures
        r == clamp_of(offset as int, content_height, viewport_height),
        0 <= r <= max_offset_of(content_height, viewport_height),
{
    let max = max_offset(content_height, viewport_height);
    if offset < 0 {
        0
    } else if offset > max {
        max
    } else {
        offset
    }
}

/// The number of lines a mouse wheel tick scrolls by default.
pub const DEFAULT_SCROLL_STEP: u16 = 3;

/// The scroll state a handle controls: the offset, and the heights it is
/// limited by.
#[derive(Clone, Copy, Debug, PartialEq, Eq, Structural)]
pub struct ScrollState {
    /// The offset in lines from the top.
    pub scroll_offset: i32,
    /// The height of the content in lines.
    pub content_height: u16,
    /// The height of the viewport in lines.
    pub viewport_height: u16,
}

/// A handle which can be used for imperative control of a scroll view.
/// A handle not attached to a scroll view does nothing and reports zeros.
#[derive(Clone, Copy, Debug, PartialEq, Eq, Structural)]
pub struct ScrollViewHandle {
    /// The state of the scroll view the handle is attached to, if any.
    pub inner: Option<ScrollState>,
}

impl ScrollViewHandle {
    /// A handle attached to no scroll view.
    pub fn new() -> (r: ScrollViewHandle)
        ensures
            r.inner is None,
    {
        ScrollViewHandle { inner: None }
    }

    /// Scrolls to the top of the content.
    pub fn scroll_to_top(&mut self)
        ensures
            final(self).inner == match old(self).inner {
                Some(s) => Some(ScrollState { scroll_offset: 0, ..s }),
                None => None::<ScrollState>,
            },
    {
        if let Some(inner) = &mut self.inner {
            inner.scroll_offset = 0;
        }
    }

    /// Scrolls to the bottom of the content.
    pub fn scroll_to_bottom(&mut self)
        ensures
            final(self).inner == match old(self).inner {
                Some(s) => Some(
                    ScrollState { scroll_offset: max_offset_of(s.content_height, s.viewport_height) as i32, ..s },
                ),
                None => None::<ScrollState>,
            },
    {
        if let Some(inner) = &mut self.inner {
            inner.scroll_offset = max_offset(inner.content_height, inner.viewport_height);
        }
    }

    /// Scrolls to the given offset in lines from the top, limited to the
    /// valid range.
    pub fn scroll_to(&mut self, offset: i32)
        ensures
            final(self).inner == match old(self).inner {
                Some(s) => Some(
                    ScrollState {
                        scroll_offset: clamp_of(offset as int, s.content_height, s.viewport_height) as i32,
                        ..s
                    },
                ),
                None => None::<ScrollState>,
            },
    {
        if let Some(inner) = &mut self.inner {
            inner.scroll_offset = clamp_offset(offset, inner.content_height, inner.viewport_height);
        }
    }

    /// Scrolls by the given number of lines (positive is down), limited to
    /// the valid range.
    pub fn scroll_by(&mut self, delta: i32)
        requires
            match old(self).inner {
                Some(s) => i32::MIN <= s.scroll_offset + delta <= i32::MAX,
                None => true,
            },
        ensures
            final(self).inner == match old(self).inner {
                Some(s) => Some(
                    ScrollState {
                        scroll_offset: clamp_of(s.scroll_offset + delta, s.content_height, s.viewport_height) as i32,
                        ..s
                    },
                ),
                None => None::<ScrollState>,
            },
    {
        if let Some(inner) = &mut self.inner {
            inner.scroll_offset = clamp_offset(inner.scroll_offset + delta, inner.content_height, inner.viewport_height);
        }
    }

    /// The current scroll offset in lines from the top.
    pub fn scroll_offset(&self) -> (r: i32)
        ensures
            r == match self.inner {
                Some(s) => s.scroll_offset,
                None => 0,
            },
    {
        match &self.inner {
            Some(inner) => inner.scroll_offset,
            None => 0,
        }
    }

    /// The total height of the scrollable content in lines.
    pub fn content_height(&self) -> (r: u16)
        ensures
            r == match self.inner {
                Some(s) => s.content_height,
                None => 0,
            },
    {
        match &self.inner {
            Some(inner) => inner.content_height,
            None => 0,
        }
    }

    /// The height of the visible viewport in lines.
    pub fn viewport_height(&self) -> (r: u16)
        ensures
            r == match self.inner {
                Some(s) => s.viewport_height,
                None => 0,
            },
    {
        match &self.inner {
            Some(inner) => inner.viewport_height,
            None => 0,
        }
    }
}

/// Scrolling always ends in the valid range, and an offset already in it is
/// kept: clamping twice is clamping once.
pub proof fn lemma_clamp_in_range(offset: int, content_height: u16, viewport_height: u16)
    ensures
        0 <= clamp_of(offset, content_height, viewport_height) <= max_offset_of(content_height, viewport_height),
        0 <= offset <= max_offset_of(content_height, viewport_height) ==> clamp_of(offset, content_height, viewport_height) == offset,
        clamp_of(clamp_of(offset, content_height, viewport_height), content_height, viewport_height)
            == clamp_of(offset, content_height, viewport_height),
{
}

/// Scrolling by a delta and back again returns to where it was, as long as
/// neither move reaches past an end.
pub proof fn lemma_scroll_by_back(offset: int, delta: int, content_height: u16, viewport_height: u16)
    requires
        0 <= offset <= max_offset_of(content_height, viewport_height),
        0 <= offset + delta <= max_offset_of(content_height, viewport_height),
    ensures
        clamp_of(clamp_of(offset + delta, content_height, viewport_height) - delta, content_height, viewport_height)
            == offset,
{
}

/// How far an event scrolls: the arrow keys by a line, page up and down by
/// the viewport's height (at least one line), home and end by half the
/// range of an `i32` (so to an end), the mouse wheel by `step` lines;
/// other events not at all.
pub open spec fn scroll_delta_of(event: TerminalEvent, viewport_height: u16, step: u16) -> Option<int> {
    match event {
        TerminalEvent::Key(k) => if k.kind != KeyEventKind::Release {
            match k.code {
                KeyCode::Up => Some(-1),
                KeyCode::Down => Some(1),
                KeyCode::PageUp => Some(-(if viewport_height > 1 { viewport_height as int } else { 1 })),
                KeyCode::PageDown => Some(if viewport_height > 1 { viewport_height as int } else { 1 }),
                KeyCode::Home => Some(i32::MIN / 2),
                KeyCode::End => Some(i32::MAX / 2),
                _ => None,
            }
        } else {
            None
        },
        TerminalEvent::FullscreenMouse(m) => match m.kind {
            MouseEventKind::ScrollUp => Some(-(step as int)),
            MouseEventKind::ScrollDown => Some(step as int),
            _ => None,
        },
        _ => None,
    }
}

/// How far an event scrolls.
pub fn scroll_delta(event: &TerminalEvent, viewport_height: u16, step: u16) -> (r: Option<i32>)
    ensures
        match scroll_delta_of(*event, viewport_height, step) {
            Some(d) => r == Some(d as i32),
            None => r is None,
        },
{
    match event {
        TerminalEvent::Key(k) => {
            let released = match k.kind {
                KeyEventKind::Release => true,
                _ => false,
            };
            if released {
                return None;
            }
            let page = if viewport_height > 1 { viewport_height as i32 } else { 1 };
            match k.code {
                KeyCode::Up => Some(-1),
                KeyCode::Down => Some(1),
                KeyCode::PageUp => Some(-page),
                KeyCode::PageDown => Some(page),
                KeyCode::Home => Some(i32::MIN / 2),
                KeyCode::End => Some(i32::MAX / 2),
                _ => None,
            }
        },
        TerminalEvent::FullscreenMouse(m) => match m.kind {
            MouseEventKind::ScrollUp => Some(-(step as i32)),
            MouseEventKind::ScrollDown => Some(step as i32),
            _ => None,
        },
        _ => None,
    }
}

/// The state of a scroll view between events: its offset, and whether the
/// user scrolled up away from the bottom.
#[derive(Clone, Copy, Debug, PartialEq, Eq, Structural)]
pub struct ScrollViewState {
    /// The offset in lines from the top.
    pub scroll_offset: i32,
    /// Whether the user scrolled up (which stops pinning to the bottom).
    pub user_scrolled_up: bool,
}

/// How a scroll view shows its content in one render.
#[derive(Clone, Copy, Debug, PartialEq, Eq, Structural)]
pub struct ScrollLayout {
    /// Whether the content is pinned to the bottom.
    pub pinned_to_bottom: bool,
    /// Whether a scrollbar is shown.
    pub show_scrollbar: bool,
    /// The offset the content is shown at.
    pub effective_offset: i32,
}

impl ScrollViewState {
    /// A scroll view at the top.
    pub fn new() -> (r: ScrollViewState)
        ensures
            r.scroll_offset == 0,
            !r.user_scrolled_up,
    {
        ScrollViewState { scroll_offset: 0, user_scrolled_up: false }
    }

    /// Takes in an event. An event that scrolls moves the offset by its
    /// delta, limited to the valid range; with auto scroll, scrolling up
    /// stops pinning to the bottom, and reaching the bottom resumes it.
    pub fn on_event(&mut self, event: &TerminalEvent, content_height: u16, viewport_height: u16, step: u16, auto_scroll: bool)
        requires
            match scroll_delta_of(*event, viewport_height, step) {
                Some(d) => i32::MIN <= old(self).scroll_offset + d <= i32::MAX,
                None => true,
            },
        ensures
            match scroll_delta_of(*event, viewport_height, step) {
                Some(d) => {
                    let new_offset = clamp_of(old(self).scroll_offset + d, content_height, viewport_height);
                    &&& final(self).scroll_offset == new_offset
                    &&& final(self).user_scrolled_up == if !auto_scroll {
                        old(self).user_scrolled_up
                    } else if d < 0 {
                        true
                    } else if new_offset >= max_offset_of(content_height, viewport_height) {
                        false
                    } else {
                        old(self).user_scrolled_up
                    }
                },
                None => *final(self) == *old(self),
            },
    {
        if let Some(delta) = scroll_delta(event, viewport_height, step) {
            let new_offset = clamp_offset(self.scroll_offset + delta, content_height, viewport_height);
            self.scroll_offset = new_offset;
            if auto_scroll {
                let max = max_offset(content_height, viewport_height);
                if delta < 0 {
                    self.user_scrolled_up = true;
                } else if new_offset >= max {
                    self.user_scrolled_up = false;
                }
            }
        }
    }

    /// Prepares a render: a view not pinned to the bottom has its offset
    /// limited to the valid range; a pinned view shows the bottom. A
    /// scrollbar is shown (unless turned off) where the content is taller
    /// than the viewport.
    pub fn layout(&mut self, content_height: u16, viewport_height: u16, auto_scroll: bool, scrollbar: Option<bool>) -> (r: ScrollLayout)
        ensures
            r.pinned_to_bottom == (auto_scroll && !old(self).user_scrolled_up),
            final(self).user_scrolled_up == old(self).user_scrolled_up,
            r.pinned_to_bottom ==> final(self).scroll_offset == old(self).scroll_offset
                && r.effective_offset == max_offset_of(content_height, viewport_height),
            !r.pinned_to_bottom ==> final(self).scroll_offset == clamp_of(old(self).scroll_offset as int, content_height, viewport_height)
                && r.effective_offset == final(self).scroll_offset,
            r.show_scrollbar == (match scrollbar {
                Some(b) => b,
                None => true,
            } && content_height > viewport_height),
            0 <= r.effective_offset <= max_offset_of(content_height, viewport_height),
    {
        let pinned = auto_scroll && !self.user_scrolled_up;
        if !pinned {
            let clamped = clamp_offset(self.scroll_offset, content_height, viewport_height);
            if self.scroll_offset != clamped {
                self.scroll_offset = clamped;
            }
        }
        let wanted = match scrollbar {
            Some(b) => b,
            None => true,
        };
        let show_scrollbar = wanted && content_height > viewport_height;
        let effective_offset = if pinned {
            max_offset(content_height, viewport_height)
        } else {
            self.scroll_offset
        };
        ScrollLayout { pinned_to_bottom: pinned, show_scrollbar, effective_offset }
    }
}

/// The position and size of the scrollbar's thumb, where a scrollbar is
/// drawn: the thumb is as much of the track as the viewport is of the
/// content (at least one cell), placed as far down the track as the offset
/// is down its range.
pub open spec fn thumb_of(viewport_height: u16, content_height: u16, offset: int) -> Option<(int, int)> {
    let vh = viewport_height as int;
    let ch = content_height as int;
    if vh == 0 || ch <= vh {
        None
    } else {
        let size = if vh * vh / ch > 1 { vh * vh / ch } else { 1 };
        Some((offset * (vh - size) / (ch - vh), size))
    }
}

/// The position and size of the scrollbar's thumb.
pub fn thumb(viewport_height: u16, content_height: u16, offset: i32) -> (r: Option<(usize, usize)>)
    requires
        offset >= 0,
        offset * viewport_height <= usize::MAX,
    ensures
        r is None <==> thumb_of(viewport_height, content_height, offset as int) is None,
        r matches Some((p, s)) ==> thumb_of(viewport_height, content_height, offset as int) == Some((p as int, s as int)),
        r matches Some((p, s)) ==> 1 <= s <= viewport_height,
{
    let vh = viewport_height as usize;
    let ch = content_height as usize;
    if vh == 0 || ch <= vh {
        return None;
    }
    assert(vh * vh <= 0xffff * 0xffff) by (nonlinear_arith)
        requires
            vh <= 0xffff,
    ;
    assert((vh * vh) as int / (ch as int) <= vh) by (nonlinear_arith)
        requires
            ch > vh,
            vh > 0,
    ;
    let q = vh * vh / ch;
    let thumb_size = if q > 1 { q } else { 1 };
    let max_off = ch - vh;
    let o = offset as usize;
    assert(o * (vh - thumb_size) <= o * vh) by (nonlinear_arith)
        requires
            thumb_size <= vh,
            o >= 0,
    ;
    let thumb_pos = (o * (vh - thumb_size)) / max_off;
    Some((thumb_pos, thumb_size))
}

/// The operations that draw the scrollbar's rows `0..n`: a thick bar on
/// the thumb's rows, a thin one on the others.
pub open spec fn scrollbar_ops(n: int, pos: int, size: int, thumb_style: CanvasTextStyle, track_style: CanvasTextStyle) -> Seq<DrawOp>
    decreases n,
{
    if n <= 0 {
        Seq::empty()
    } else {
        let y = n - 1;
        scrollbar_ops(n - 1, pos, size, thumb_style, track_style) + seq![
            if pos <= y < pos + size {
                DrawOp::Text(0, y, "\u{2503}"@, thumb_style)
            } else {
                DrawOp::Text(0, y, "\u{2502}"@, track_style)
            },
        ]
    }
}

/// The colors of a scrollbar's thumb (white unless given) and track (dark
/// grey unless given), as text styles.
pub open spec fn bar_style(color: Option<Color>, default: Color) -> CanvasTextStyle {
    CanvasTextStyle {
        color: Some(
            match color {
                Some(c) => c,
                None => default,
            },
        ),
        ..crate::style::plain_style()
    }
}

/// Draws a scrollbar for a viewport of `viewport_height` lines onto a
/// region one column wide: nothing where the content fits, else the track
/// with the thumb, as [`scrollbar_ops`] lists.
pub fn draw_scrollbar(
    sub: &mut CanvasSubviewMut,
    viewport_height: u16,
    content_height: u16,
    scroll_offset: i32,
    thumb_color: Option<Color>,
    track_color: Option<Color>,
)
    requires
        scroll_offset >= 0,
        scroll_offset * viewport_height <= usize::MAX,
        forall|y: int| 0 <= y < viewport_height ==> #[trigger] old(sub).text_fits(0, y),
    ensures
        final(sub).same_region(&*old(sub)),
        *final(final(sub).target()) == *final(old(sub).target()),
        (*final(sub).target()).rows() == match thumb_of(viewport_height, content_height, scroll_offset as int) {
            Some((p, s)) => old(sub).ops_effect(
                (*old(sub).target()).rows(),
                scrollbar_ops(
                    viewport_height as int,
                    p,
                    s,
                    bar_style(thumb_color, Color::White),
                    bar_style(track_color, Color::DarkGrey),
                ),
            ),
            None => (*old(sub).target()).rows(),
        },
{
    let (pos, size) = match thumb(viewport_height, content_height, scroll_offset) {
        Some(t) => t,
        None => {
            return;
        },
    };
    let thumb_style = CanvasTextStyle::new(
        Some(
            match thumb_color {
                Some(c) => c,
                None => Color::White,
            },
        ),
        crate::style::Weight::Normal,
        false,
        false,
    );
    let track_style = CanvasTextStyle::new(
        Some(
            match track_color {
                Some(c) => c,
                None => Color::DarkGrey,
            },
        ),
        crate::style::Weight::Normal,
        false,
        false,
    );
    let ghost start = *sub;
    let ghost rows0 = (*sub.target()).rows();
    let vh = viewport_height as usize;
    let mut y: usize = 0;
    while y < vh
        invariant
            y <= vh,
            vh == viewport_height,
            forall|y: int| 0 <= y < viewport_height ==> #[trigger] start.text_fits(0, y),
            sub.same_region(&start),
            *final(sub.target()) == *final(start.target()),
            (*sub.target()).rows() == start.ops_effect(
                rows0,
                scrollbar_ops(y as int, pos as int, size as int, thumb_style, track_style),
            ),
        decreases vh - y,
    {
        let on_thumb = y >= pos && y - pos < size;
        let text = if on_thumb {
            "\u{2503}"
        } else {
            "\u{2502}"
        };
        let style = if on_thumb {
            thumb_style
        } else {
            track_style
        };
        assert(start.text_fits(0, y as int));
        proof {
            canvas::lemma_same_region_layout(&*sub, &start, 0, y as int);
        }
        let ghost op = DrawOp::Text(0, y as int, text@, style);
        sub.set_text(0, y as isize, text, style);
        proof {
            canvas::lemma_ops_effect_push(
                &start,
                rows0,
                scrollbar_ops(y as int, pos as int, size as int, thumb_style, track_style),
                op,
            );
        }
        y += 1;
        assert(scrollbar_ops(y as int, pos as int, size as int, thumb_style, track_style) =~= scrollbar_ops(
            (y - 1) as int,
            pos as int,
            size as int,
            thumb_style,
            track_style,
        ).push(op));
    }
}

/// The two wheel directions scroll opposite ways by the step: wheel up
/// moves toward the top (a delta of minus the step, never positive) and
/// wheel down toward the bottom (plus the step), wherever the pointer is
/// and whatever the viewport; likewise the arrow and page keys come in
/// opposite pairs, Up and Page Up moving toward the top.
pub proof fn lemma_scroll_directions(
    up: crate::terminal::FullscreenMouseEvent,
    down: crate::terminal::FullscreenMouseEvent,
    viewport_height: u16,
    step: u16,
)
    requires
        up.kind == MouseEventKind::ScrollUp,
        down.kind == MouseEventKind::ScrollDown,
    ensures
        ({
            let du = scroll_delta_of(TerminalEvent::FullscreenMouse(up), viewport_height, step);
            let dd = scroll_delta_of(TerminalEvent::FullscreenMouse(down), viewport_height, step);
            &&& du is Some && dd is Some
            &&& du->0 <= 0
            &&& dd->0 == step
            &&& du->0 == -dd->0
        }),
        forall|k1: crate::terminal::KeyEvent, k2: crate::terminal::KeyEvent|
            k1.kind != KeyEventKind::Release && k2.kind != KeyEventKind::Release && k1.code == KeyCode::Up && k2.code
                == KeyCode::Down ==> {
                let d1 = #[trigger] scroll_delta_of(TerminalEvent::Key(k1), viewport_height, step);
                let d2 = #[trigger] scroll_delta_of(TerminalEvent::Key(k2), viewport_height, step);
                &&& d1 is Some && d2 is Some
                &&& d1->0 < 0 && d1->0 == -d2->0
            },
        forall|k1: crate::terminal::KeyEvent, k2: crate::terminal::KeyEvent|
            k1.kind != KeyEventKind::Release && k2.kind != KeyEventKind::Release && k1.code == KeyCode::PageUp
                && k2.code == KeyCode::PageDown ==> {
                let d1 = #[trigger] scroll_delta_of(TerminalEvent::Key(k1), viewport_height, step);
                let d2 = #[trigger] scroll_delta_of(TerminalEvent::Key(k2), viewport_height, step);
                &&& d1 is Some && d2 is Some
                &&& d1->0 < 0 && d1->0 == -d2->0
            },
{
}

} // verus!
