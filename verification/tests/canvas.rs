use crossterm::style::{Attribute, Colored};
use iocraft::canvas::{Canvas, OutputEnv};
use iocraft::color::Color;
use iocraft::style::{CanvasTextStyle, Weight};

fn csi(s: &str) -> String {
    format!("\x1b[{}", s)
}

fn sgr<T: std::fmt::Display>(v: T) -> String {
    format!("\x1b[{}m", v)
}

fn style(color: Option<Color>, weight: Weight, underline: bool, italic: bool) -> CanvasTextStyle {
    CanvasTextStyle::new(color, weight, underline, italic)
}

#[test]
fn test_canvas_background_color() {
    let mut canvas = Canvas::new(6, 3);
    assert_eq!(canvas.width(), 6);
    assert_eq!(canvas.height(), 3);

    canvas
        .subview_mut(2, 0, 2, 0, 3, 2)
        .set_background_color(0, 0, 5, 5, Color::Red);

    let mut actual = String::new();
    canvas.write_ansi(&mut actual, OutputEnv::default());

    let red = sgr(Colored::BackgroundColor(crossterm::style::Color::Red));
    let reset = sgr(Colored::BackgroundColor(crossterm::style::Color::Reset));
    let mut expected = String::new();
    expected.push_str(&csi("0m"));
    expected.push_str("  ");
    expected.push_str(&red);
    expected.push_str("   ");
    expected.push_str(&reset);
    expected.push_str(&csi("K"));
    expected.push_str("\r\n");
    expected.push_str("  ");
    expected.push_str(&red);
    expected.push_str("   ");
    expected.push_str(&reset);
    expected.push_str(&csi("K"));
    expected.push_str("\r\n");
    expected.push_str(&csi("K"));
    expected.push_str(&csi("0m"));
    expected.push_str("\r\n");

    assert_eq!(actual, expected);
}

#[test]
fn test_canvas_full_background_color() {
    let mut canvas = Canvas::new(6, 3);
    assert_eq!(canvas.width(), 6);
    assert_eq!(canvas.height(), 3);

    canvas
        .subview_mut(0, 0, 0, 0, 6, 6)
        .set_background_color(0, 0, 6, 6, Color::Red);

    let mut actual = String::new();
    canvas.write_ansi(&mut actual, OutputEnv::default());

    let red = sgr(Colored::BackgroundColor(crossterm::style::Color::Red));
    let reset = sgr(Colored::BackgroundColor(crossterm::style::Color::Reset));
    let mut expected = String::new();

    // line 1
    expected.push_str(&csi("0m"));
    expected.push_str(&red);
    expected.push_str("     ");
    expected.push_str(&reset);
    expected.push_str(&csi("K"));
    expected.push_str(&red);
    expected.push_str(" ");
    expected.push_str(&reset);
    expected.push_str("\r\n");

    // line 2
    expected.push_str(&red);
    expected.push_str("     ");
    expected.push_str(&reset);
    expected.push_str(&csi("K"));
    expected.push_str(&red);
    expected.push_str(" ");
    expected.push_str(&reset);
    expected.push_str("\r\n");

    // line 3
    expected.push_str(&red);
    expected.push_str("     ");
    expected.push_str(&reset);
    expected.push_str(&csi("K"));
    expected.push_str(&red);
    expected.push_str(" ");
    expected.push_str(&reset);
    expected.push_str(&csi("0m"));
    expected.push_str("\r\n");

    assert_eq!(actual, expected);
}

#[test]
fn test_canvas_text_styles() {
    let mut canvas = Canvas::new(100, 1);
    assert_eq!(canvas.width(), 100);
    assert_eq!(canvas.height(), 1);

    canvas
        .subview_mut(0, 0, 0, 0, 1, 1)
        .set_text(0, 0, ".", CanvasTextStyle::default());
    canvas.subview_mut(1, 0, 1, 0, 1, 1).set_text(
        0,
        0,
        ".",
        style(Some(Color::Red), Weight::Bold, true, false),
    );
    canvas.subview_mut(2, 0, 2, 0, 1, 1).set_text(
        0,
        0,
        ".",
        style(Some(Color::Red), Weight::Bold, false, true),
    );
    canvas.subview_mut(3, 0, 3, 0, 1, 1).set_text(
        0,
        0,
        ".",
        style(Some(Color::Red), Weight::Bold, false, false),
    );
    canvas.subview_mut(4, 0, 4, 0, 1, 1).set_text(
        0,
        0,
        ".",
        style(Some(Color::Red), Weight::Light, false, false),
    );
    canvas.subview_mut(5, 0, 5, 0, 1, 1).set_text(
        0,
        0,
        ".",
        style(Some(Color::Red), Weight::Normal, false, false),
    );
    canvas.subview_mut(6, 0, 6, 0, 1, 1).set_text(
        0,
        0,
        ".",
        style(Some(Color::Green), Weight::Normal, false, false),
    );

    let mut actual = String::new();
    canvas.write_ansi(&mut actual, OutputEnv::default());

    let fg_red = sgr(Colored::ForegroundColor(crossterm::style::Color::Red));
    let fg_green = sgr(Colored::ForegroundColor(crossterm::style::Color::Green));
    let mut expected = String::new();
    expected.push_str(&csi("0m"));
    expected.push_str(".");

    expected.push_str(&fg_red);
    expected.push_str(&sgr(Attribute::Bold.sgr()));
    expected.push_str(&sgr(Attribute::Underlined.sgr()));
    expected.push_str(".");

    expected.push_str(&csi("0m"));
    expected.push_str(&fg_red);
    expected.push_str(&sgr(Attribute::Bold.sgr()));
    expected.push_str(&sgr(Attribute::Italic.sgr()));
    expected.push_str(".");

    expected.push_str(&csi("0m"));
    expected.push_str(&fg_red);
    expected.push_str(&sgr(Attribute::Bold.sgr()));
    expected.push_str(".");

    expected.push_str(&sgr(Attribute::Dim.sgr()));
    expected.push_str(".");

    expected.push_str(&csi("0m"));
    expected.push_str(&fg_red);
    expected.push_str(".");

    expected.push_str(&fg_green);
    expected.push_str(".");

    expected.push_str(&csi("K"));
    expected.push_str(&csi("0m"));
    expected.push_str("\r\n");

    assert_eq!(actual, expected);
}

#[test]
fn test_canvas_text_clipping() {
    let mut canvas = Canvas::new(10, 5);
    assert_eq!(canvas.width(), 10);
    assert_eq!(canvas.height(), 5);

    canvas.subview_mut(2, 2, 2, 2, 4, 2).set_text(
        -2,
        -1,
        "line 1\nline 2\nline 3\nline 4",
        CanvasTextStyle::default(),
    );

    let actual = canvas.to_string(OutputEnv::default());
    assert_eq!(actual, "\n\n  ne 2\n  ne 3\n\n");
}

#[test]
fn test_canvas_text_clearing() {
    let mut canvas = Canvas::new(10, 1);
    canvas
        .subview_mut(0, 0, 0, 0, 10, 1)
        .set_text(0, 0, "hello!", CanvasTextStyle::default());
    assert_eq!(canvas.to_string(OutputEnv::default()), "hello!\n");

    canvas.subview_mut(0, 0, 0, 0, 10, 1).clear_text(0, 0, 3, 1);
    assert_eq!(canvas.to_string(OutputEnv::default()), "   lo!\n");
}

#[test]
fn test_write_ansi_without_final_newline() {
    let mut canvas = Canvas::new(10, 3);

    canvas
        .subview_mut(0, 0, 0, 0, 10, 3)
        .set_text(0, 0, "hello!", CanvasTextStyle::default());

    let mut actual = String::new();
    canvas.write_ansi_without_final_newline(&mut actual, OutputEnv::default());

    let mut expected = String::new();
    expected.push_str(&csi("0m"));
    expected.push_str("hello!");
    expected.push_str(&csi("K"));
    expected.push_str("\r\n");
    expected.push_str(&csi("K"));
    expected.push_str("\r\n");
    expected.push_str(&csi("K"));
    expected.push_str(&csi("0m"));

    assert_eq!(actual, expected);
}

#[test]
fn test_ansi_erase_for_full_rows() {
    let mut canvas = Canvas::new(10, 1);

    canvas.subview_mut(0, 0, 0, 0, 10, 1).set_text(
        0,
        0,
        "1234512345",
        CanvasTextStyle::default(),
    );

    let mut actual = String::new();
    canvas.write_ansi(&mut actual, OutputEnv::default());

    let mut expected = String::new();
    expected.push_str(&csi("0m"));
    expected.push_str("123451234");
    expected.push_str(&csi("K"));
    expected.push_str("5");
    expected.push_str(&csi("0m"));
    expected.push_str("\r\n");

    assert_eq!(actual, expected);
}

#[test]
fn fresh_canvas_renders_one_newline_per_row() {
    let canvas = Canvas::new(4, 3);
    assert_eq!(canvas.to_string(OutputEnv::default()), "\n\n\n");
}

#[test]
fn no_color_env_drops_color_parameters() {
    let mut canvas = Canvas::new(2, 1);
    canvas
        .subview_mut(0, 0, 0, 0, 2, 1)
        .set_background_color(0, 0, 1, 1, Color::Red);
    let mut actual = String::new();
    canvas.write_ansi(&mut actual, OutputEnv { no_color: true, vs16_needs_padding: false });
    assert!(!actual.contains("48;5;9"));
}

#[test]
fn row_writer_and_row_equality() {
    let mut a = Canvas::new(5, 2);
    let mut b = Canvas::new(5, 2);
    a.subview_mut(0, 0, 0, 0, 5, 2).set_text(0, 0, "ab", CanvasTextStyle::default());
    b.subview_mut(0, 0, 0, 0, 5, 2).set_text(0, 0, "ab", CanvasTextStyle::default());
    assert!(a.row_eq(&b, 0));
    assert!(a.row_eq(&b, 1));
    assert!(!a.row_eq(&b, 2));
    b.subview_mut(0, 0, 0, 0, 5, 2).set_text(0, 1, "x", CanvasTextStyle::default());
    assert!(!a.row_eq(&b, 1));

    let mut row = String::new();
    a.write_ansi_row_without_newline(0, &mut row, OutputEnv::default());
    assert_eq!(row, format!("{}ab{}{}", csi("0m"), csi("K"), csi("0m")));
}

fn lettered(width: usize) -> Canvas {
    let mut canvas = Canvas::new(width, 1);
    canvas
        .subview_mut(0, 0, 0, 0, width, 1)
        .set_text(0, 0, "abcdef", CanvasTextStyle::default());
    canvas
}

#[test]
fn clearing_twice_is_clearing_once() {
    let mut once = lettered(6);
    once.subview_mut(0, 0, 0, 0, 6, 1).clear_text(1, 0, 2, 1);
    let mut twice = lettered(6);
    twice.subview_mut(0, 0, 0, 0, 6, 1).clear_text(1, 0, 2, 1);
    twice.subview_mut(0, 0, 0, 0, 6, 1).clear_text(1, 0, 2, 1);
    assert_eq!(once.to_string(OutputEnv::default()), "a  def\n");
    assert_eq!(twice.to_string(OutputEnv::default()), once.to_string(OutputEnv::default()));
}

#[test]
fn clearing_and_filling_commute() {
    let env = OutputEnv::default();
    let mut a = lettered(6);
    a.subview_mut(0, 0, 0, 0, 6, 1).set_background_color(0, 0, 3, 1, Color::Blue);
    a.subview_mut(0, 0, 0, 0, 6, 1).clear_text(2, 0, 3, 1);
    let mut b = lettered(6);
    b.subview_mut(0, 0, 0, 0, 6, 1).clear_text(2, 0, 3, 1);
    b.subview_mut(0, 0, 0, 0, 6, 1).set_background_color(0, 0, 3, 1, Color::Blue);
    let mut sa = String::new();
    a.write_ansi(&mut sa, env);
    let mut sb = String::new();
    b.write_ansi(&mut sb, env);
    assert_eq!(sa, sb);
    assert_eq!(a.to_string(env), "ab   f\n");
}

#[test]
fn text_position_checks() {
    let mut canvas = Canvas::new(4, 1);
    let sub = canvas.subview_mut(0, 0, 0, 0, 4, 1);
    assert!(sub.can_set_text(0, 0));
    let sub = canvas.subview_mut(isize::MAX, 0, 0, 0, 4, 1);
    assert!(!sub.can_set_text(1, 0));
}

fn strip_control_sequences(s: &str) -> String {
    let chars: Vec<char> = s.chars().collect();
    let mut out = String::new();
    let mut i = 0;
    while i < chars.len() {
        if chars[i] == '\x1b' && i + 1 < chars.len() && chars[i + 1] == '[' {
            let mut j = i + 2;
            while j < chars.len() && ('0'..='?').contains(&chars[j]) {
                j += 1;
            }
            if j < chars.len() && ('@'..='~').contains(&chars[j]) {
                i = j + 1;
                continue;
            }
        }
        if chars[i] == '\r' && i + 1 < chars.len() && chars[i + 1] == '\n' {
            out.push('\n');
            i += 2;
            continue;
        }
        out.push(chars[i]);
        i += 1;
    }
    out
}

#[test]
fn ansi_output_is_plain_output_with_escapes() {
    let mut canvas = Canvas::new(8, 3);
    canvas
        .subview_mut(1, 0, 0, 0, 8, 3)
        .set_background_color(0, 0, 4, 2, Color::Blue);
    canvas.subview_mut(0, 0, 0, 0, 8, 3).set_text(
        0,
        0,
        "ab\ncd ef",
        style(Some(Color::Red), Weight::Bold, true, true),
    );
    canvas
        .subview_mut(0, 2, 0, 0, 8, 3)
        .set_text(2, 0, "x", style(None, Weight::Light, false, false));

    for env in [OutputEnv::default(), OutputEnv { no_color: true, ..OutputEnv::default() }] {
        let mut ansi = String::new();
        canvas.write_ansi(&mut ansi, env);
        let mut plain = String::new();
        canvas.write(&mut plain, env);
        assert_ne!(ansi, plain);
        assert_eq!(strip_control_sequences(&ansi), plain);

        let mut ansi_open = String::new();
        canvas.write_ansi_without_final_newline(&mut ansi_open, env);
        assert_eq!(strip_control_sequences(&ansi_open), plain.trim_end_matches('\n'));
    }
}
