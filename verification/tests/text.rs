use iocraft::unicode::{char_width, str_width};
use iocraft::canvas::{Canvas, OutputEnv};
use iocraft::color::Color;
use iocraft::mixed_text::{MixedText, MixedTextContent, MixedTextProps};
use iocraft::style::{CanvasTextStyle, Weight};
use iocraft::text::{
    align, alignment_padding, measure, wrap, AvailableWidth, Text, TextAlign, TextDecoration, TextDrawer, TextProps,
    TextWrap,
};

fn render_text(content: &str, align: TextAlign, width: usize, height: usize) -> String {
    let mut props = TextProps::default();
    props.content = content.to_string();
    props.align = align;
    let mut text = Text::new();
    text.update(&props);
    let mut canvas = Canvas::new(width, height);
    assert!(text.draw(&mut canvas.subview_mut(0, 0, 0, 0, width, height), width));
    canvas.to_string(OutputEnv::default())
}

#[test]
fn text_wraps_to_the_width() {
    assert_eq!(render_text("foo", TextAlign::Left, 14, 1), "foo\n");
    assert_eq!(render_text("this is a wrapping test", TextAlign::Left, 14, 2), "this is a\nwrapping test\n");
}

#[test]
fn text_alignment() {
    assert_eq!(
        render_text("this is an alignment test", TextAlign::Right, 15, 2),
        "     this is an\n alignment test\n"
    );
    assert_eq!(
        render_text("this is an alignment test", TextAlign::Center, 14, 2),
        "  this is an\nalignment test\n"
    );
}

#[test]
fn text_strips_ansi() {
    assert_eq!(render_text("\x1b[31mhello\x1b[0m", TextAlign::Left, 10, 1), "hello\n");
    assert_eq!(render_text("\x1b[1mthis is\x1b[0m a wrap test", TextAlign::Left, 10, 2), "this is a\nwrap test\n");
}

#[test]
fn wrapping_and_measuring() {
    assert_eq!(wrap("foo bar", TextWrap::Wrap, Some(3), AvailableWidth::MaxContent), "foo\nbar");
    assert_eq!(wrap("foo bar", TextWrap::NoWrap, Some(3), AvailableWidth::MaxContent), "foo bar");
    assert_eq!(wrap("foo bar", TextWrap::Wrap, None, AvailableWidth::MaxContent), "foo bar");
    assert_eq!(wrap("foo bar", TextWrap::Wrap, None, AvailableWidth::MinContent), "f\no\no\nb\na\nr");
    assert_eq!(measure("foo bar", TextWrap::Wrap, None, AvailableWidth::Definite(4)), (3, 2));
    assert_eq!(measure("", TextWrap::Wrap, None, AvailableWidth::Definite(4)), (0, 1));
}

#[test]
fn alignment_paddings() {
    assert_eq!(alignment_padding(3, TextAlign::Left, 10), 0);
    assert_eq!(alignment_padding(3, TextAlign::Right, 10), 7);
    assert_eq!(alignment_padding(3, TextAlign::Center, 10), 4);
    assert_eq!(alignment_padding(12, TextAlign::Right, 10), -2);
    let (offset, aligned) = align("ab\nabcd".to_string(), TextAlign::Right, 6);
    assert_eq!(offset, 2);
    assert_eq!(aligned, "  ab\nabcd");
    let (offset, aligned) = align("ab\nabcd".to_string(), TextAlign::Left, 6);
    assert_eq!((offset, aligned.as_str()), (0, "ab\nabcd"));
}

#[test]
fn drawer_continues_where_it_left_off() {
    let mut canvas = Canvas::new(10, 2);
    {
        let mut sub = canvas.subview_mut(0, 0, 0, 0, 10, 2);
        let mut d = TextDrawer::new(0, false);
        d.append_lines(&mut sub, &vec!["ab".to_string()], CanvasTextStyle::default());
        d.append_lines(&mut sub, &vec!["cd".to_string(), "ef".to_string()], CanvasTextStyle::default());
    }
    assert_eq!(canvas.to_string(OutputEnv::default()), "abcd\nef\n");
}

#[test]
fn mixed_text_wraps_sections_together() {
    let mut m = MixedText::new();
    m.update(&MixedTextProps {
        contents: vec![
            MixedTextContent::new("this is ").color(Color::Red),
            MixedTextContent::new("a wrapping test").weight(Weight::Bold).decoration(TextDecoration::Underline).italic(),
        ],
        wrap: TextWrap::Wrap,
        align: TextAlign::Left,
    });
    assert_eq!(m.plain_text(), "this is a wrapping test");
    let mut canvas = Canvas::new(14, 2);
    assert!(m.draw(&mut canvas.subview_mut(0, 0, 0, 0, 14, 2), 14));
    assert_eq!(canvas.to_string(OutputEnv::default()), "this is a\nwrapping test\n");
}

#[test]
fn mixed_text_content_builders() {
    let c = MixedTextContent::new("x").color(Color::Blue).weight(Weight::Light).italic();
    assert_eq!(c.text, "x");
    assert_eq!(c.color, Some(Color::Blue));
    assert_eq!(c.weight, Weight::Light);
    assert!(c.italic);
    assert_eq!(c.decoration, TextDecoration::Plain);
}

#[test]
fn drawer_fits_where_positions_are_small() {
    let mut canvas = Canvas::new(10, 2);
    let sub = canvas.subview_mut(0, 0, 0, 0, 10, 2);
    let d = TextDrawer::new(0, false);
    assert!(d.fits(&sub, &vec!["hello".to_string(), "world".to_string()]));
    let far = TextDrawer::new(isize::MAX, false);
    assert!(!far.fits(&sub, &vec!["hello".to_string()]));
}

#[test]
fn utf8_lengths_are_counted() {
    assert_eq!(iocraft::chars::utf8_len_checked(&['a', 'é', '一']), Some(6));
    assert!(iocraft::text::lengths_fit(&vec!["ab".to_string(), String::new()]));
}

/// Lays a text out as a component would: as wide as the view holding it, or
/// as its widest line where there is none, and as tall as its lines.
fn text_canvas(props: TextProps, view_width: Option<usize>) -> Canvas {
    let mut text = Text::new();
    text.update(&props);
    let content = iocraft::strip_ansi::strip_ansi(&props.content);
    let available = match view_width {
        Some(w) => AvailableWidth::Definite(w),
        None => AvailableWidth::MaxContent,
    };
    let (measured, height) = measure(&content, props.wrap, None, available);
    let width = view_width.unwrap_or(measured);
    let mut canvas = Canvas::new(width, height);
    assert!(text.draw(&mut canvas.subview_mut(0, 0, 0, 0, width, height), width));
    canvas
}

fn text_props(content: &str, align: TextAlign, wrap: TextWrap) -> TextProps {
    let mut props = TextProps::default();
    props.content = content.to_string();
    props.align = align;
    props.wrap = wrap;
    props
}

fn text_string(content: &str, view_width: Option<usize>) -> String {
    text_canvas(text_props(content, TextAlign::Left, TextWrap::Wrap), view_width).to_string(OutputEnv::default())
}

#[test]
fn test_text() {
    let env = OutputEnv::default();
    assert_eq!(text_canvas(TextProps::default(), None).to_string(env), "\n");
    assert_eq!(text_string("foo", None), "foo\n");
    assert_eq!(text_string("foo\nbar", None), "foo\nbar\n");
    assert_eq!(text_string("😀", None), "😀\n");
    assert_eq!(text_string("this is a wrapping test", Some(14)), "this is a\nwrapping test\n");
    assert_eq!(
        text_canvas(text_props("this is an alignment test", TextAlign::Right, TextWrap::Wrap), Some(15)).to_string(env),
        "     this is an\n alignment test\n"
    );
    assert_eq!(
        text_canvas(text_props("this is an alignment test", TextAlign::Center, TextWrap::Wrap), Some(15)).to_string(env),
        "  this is an\nalignment test\n"
    );

    // Where the text is not aligned left, leading whitespace is not underlined.
    let mut props = text_props("this is an alignment test", TextAlign::Center, TextWrap::Wrap);
    props.decoration = TextDecoration::Underline;
    let canvas = text_canvas(props, Some(16));
    let mut actual = String::new();
    canvas.write_ansi(&mut actual, env);
    let mut expected = String::new();
    expected.push_str("\x1b[0m");
    expected.push_str("   ");
    expected.push_str("\x1b[4m");
    expected.push_str("this is an");
    expected.push_str("\x1b[K");
    expected.push_str("\r\n");
    expected.push_str("\x1b[0m");
    expected.push_str(" ");
    expected.push_str("\x1b[4m");
    expected.push_str("alignment test");
    expected.push_str("\x1b[K");
    expected.push_str("\x1b[0m");
    expected.push_str("\r\n");
    assert_eq!(actual, expected);
}

#[test]
fn test_text_strips_ansi() {
    assert_eq!(text_string("\x1b[31mhello\x1b[0m", None), "hello\n");
    assert_eq!(text_string("\x1b[1mthis is\x1b[0m a wrap test", Some(10)), "this is a\nwrap test\n");
    assert_eq!(text_string("no ansi here", None), "no ansi here\n");
}

#[test]
fn test_alignment_no_wrap_overflow() {
    let env = OutputEnv::default();
    assert_eq!(
        text_canvas(text_props("123456789abcdef", TextAlign::Left, TextWrap::NoWrap), Some(9)).to_string(env),
        "123456789\n"
    );
    assert_eq!(
        text_canvas(text_props("123456789abcdef", TextAlign::Center, TextWrap::NoWrap), Some(9)).to_string(env),
        "456789abc\n"
    );
    assert_eq!(
        text_canvas(text_props("123456789abcdef\n1", TextAlign::Center, TextWrap::NoWrap), Some(9)).to_string(env),
        "456789abc\n    1\n"
    );
}

#[test]
fn test_mixed_text() {
    let env = OutputEnv::default();
    let empty = MixedText::new();
    let mut canvas = Canvas::new(0, 1);
    assert!(empty.draw(&mut canvas.subview_mut(0, 0, 0, 0, 0, 1), 0));
    assert_eq!(canvas.to_string(env), "\n");

    let mut m = MixedText::new();
    m.update(&MixedTextProps {
        contents: vec![
            MixedTextContent::new("this is ").color(Color::Red).weight(Weight::Bold).italic(),
            MixedTextContent::new("a wrapping test").decoration(TextDecoration::Underline),
        ],
        wrap: TextWrap::Wrap,
        align: TextAlign::Left,
    });
    let mut canvas = Canvas::new(14, 2);
    assert!(m.draw(&mut canvas.subview_mut(0, 0, 0, 0, 14, 2), 14));
    assert_eq!(canvas.to_string(env), "this is a\nwrapping test\n");
}

#[test]
fn lines_match_str_lines() {
    for s in ["foo\nbar\n\r\nbaz\r", "a\r\nb", "a\n", "", "\r", "x\r\n"] {
        let cs: Vec<char> = s.chars().collect();
        let ours: Vec<String> = iocraft::chars::lines(&cs).into_iter().map(|l| l.into_iter().collect()).collect();
        let std: Vec<String> = s.lines().map(|l| l.to_string()).collect();
        assert_eq!(ours, std, "lines of {s:?}");
    }
}

#[test]
fn ascii_widths() {
    assert_eq!(char_width(' '), Some(1));
    assert_eq!(char_width('~'), Some(1));
    assert_eq!(char_width('\t'), None);
    assert_eq!(char_width('\u{7f}'), None);
    assert_eq!(char_width('\u{85}'), None);
    assert_eq!(char_width('\u{a0}'), Some(1));
    assert_eq!(str_width("Hello, world ~!"), 15);
    assert_eq!(str_width(""), 0);
}

#[test]
fn color_names_ignore_ascii_case() {
    assert_eq!(Color::try_from_name("DARK_Grey"), Ok(Color::DarkGrey));
    assert_eq!(Color::parse_name("ReD"), Color::Red);
    assert_eq!(Color::try_from_name("purple"), Err(()));
}
