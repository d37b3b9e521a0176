//! Terminal UI building blocks: a character canvas with styled text and
//! background colors, text wrapping and alignment, a text-editing buffer,
//! border drawing, input event types and ANSI rendering.
pub mod chars;
pub mod unicode;
pub mod color;
pub mod style;
pub mod canvas;
pub mod linebreak;
pub mod segmented_string;
pub mod text;
pub mod strip_ansi;
pub mod text_input;
pub mod event;
pub mod terminal;
pub mod view;
pub mod scroll_view;
pub mod mixed_text;
pub mod backend;
pub mod output;
pub mod multimap;
pub mod layout;
pub mod button;
pub mod escapes;
pub mod wrap_width;
