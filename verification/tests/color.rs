use crossterm::style::Color as Ct;
use iocraft::color::{Color, SgrColor};

#[test]
fn parses_color_names() {
    assert_eq!(Color::try_from("red"), Ok(Color::Red));
    assert_eq!(Color::try_from("DARK_GREY"), Ok(Color::DarkGrey));
    assert!(Color::try_from("not_a_color").is_err());
    assert_eq!("dark_magenta".parse::<Color>(), Ok(Color::DarkMagenta));
    // Unknown names fall back to white.
    assert_eq!("nope".parse::<Color>(), Ok(Color::White));
    assert_eq!(Color::from((1, 2, 3)), Color::Rgb { r: 1, g: 2, b: 3 });
}

#[test]
fn foreground_sgr_matches_expected() {
    assert_eq!(SgrColor::Foreground(Color::Reset).to_string(), "39");
    assert_eq!(SgrColor::Foreground(Color::Red).to_string(), "38;5;9");
    assert_eq!(SgrColor::Foreground(Color::Grey).to_string(), "38;5;7");
    assert_eq!(
        SgrColor::Foreground(Color::Rgb { r: 1, g: 2, b: 3 }).to_string(),
        "38;2;1;2;3"
    );
    assert_eq!(
        SgrColor::Foreground(Color::AnsiValue(200)).to_string(),
        "38;5;200"
    );
}

#[test]
fn background_sgr_matches_expected() {
    assert_eq!(SgrColor::Background(Color::Reset).to_string(), "49");
    assert_eq!(SgrColor::Background(Color::Red).to_string(), "48;5;9");
    assert_eq!(
        SgrColor::Background(Color::Rgb { r: 4, g: 5, b: 6 }).to_string(),
        "48;2;4;5;6"
    );
}

#[test]
fn no_color_suppresses_sgr_output() {
    for color in [Color::Red, Color::Reset, Color::Rgb { r: 1, g: 2, b: 3 }] {
        for sgr in [SgrColor::Foreground(color), SgrColor::Background(color)] {
            let mut disabled = String::new();
            sgr.write_params(&mut disabled, true);
            assert_eq!(disabled, "", "expected no output for {color:?} when disabled");

            let mut enabled = String::new();
            sgr.write_params(&mut enabled, false);
            assert!(
                !enabled.is_empty(),
                "expected SGR params for {color:?} when enabled"
            );
        }
    }
}

#[test]
fn color_names_round_trip_through_parsing() {
    for (name, color) in [
        ("reset", Color::Reset),
        ("black", Color::Black),
        ("dark_grey", Color::DarkGrey),
        ("grey", Color::Grey),
        ("white", Color::White),
        ("dark_cyan", Color::DarkCyan),
    ] {
        assert_eq!(Color::try_from(name), Ok(color));
        assert_eq!(Color::parse_name(&name.to_uppercase()), color);
    }
}

#[test]
fn named_colors_use_the_256_color_palette() {
    assert_eq!(SgrColor::Foreground(Color::Black).to_string(), "38;5;0");
    assert_eq!(SgrColor::Background(Color::White).to_string(), "48;5;15");
    assert_eq!(SgrColor::Background(Color::AnsiValue(0)).to_string(), "48;5;0");
}

#[test]
fn crossterm_color_roundtrip_and_output_parity() {
    let colors = [
        (Color::Reset, Ct::Reset),
        (Color::Black, Ct::Black),
        (Color::DarkGrey, Ct::DarkGrey),
        (Color::Red, Ct::Red),
        (Color::DarkRed, Ct::DarkRed),
        (Color::Green, Ct::Green),
        (Color::DarkGreen, Ct::DarkGreen),
        (Color::Yellow, Ct::Yellow),
        (Color::DarkYellow, Ct::DarkYellow),
        (Color::Blue, Ct::Blue),
        (Color::DarkBlue, Ct::DarkBlue),
        (Color::Magenta, Ct::Magenta),
        (Color::DarkMagenta, Ct::DarkMagenta),
        (Color::Cyan, Ct::Cyan),
        (Color::DarkCyan, Ct::DarkCyan),
        (Color::White, Ct::White),
        (Color::Grey, Ct::Grey),
        (Color::Rgb { r: 10, g: 20, b: 30 }, Ct::Rgb { r: 10, g: 20, b: 30 }),
        (Color::AnsiValue(123), Ct::AnsiValue(123)),
    ];
    for (color, crossterm_color) in colors {
        assert_eq!(
            SgrColor::Foreground(color).to_string(),
            crossterm::style::Colored::ForegroundColor(crossterm_color).to_string(),
            "foreground SGR mismatch for {color:?}"
        );
        assert_eq!(
            SgrColor::Background(color).to_string(),
            crossterm::style::Colored::BackgroundColor(crossterm_color).to_string(),
            "background SGR mismatch for {color:?}"
        );
    }
}
