use iocraft::strip_ansi::ANSI_REGEX_PATTERN;
use iocraft::strip_ansi::strip_ansi;

fn stripped(input: &str) -> String {
    strip_ansi(input)
}

#[test]
fn strips_basic_sgr() {
    assert_eq!(stripped("\x1b[31mhi\x1b[0m"), "hi");
}

#[test]
fn strips_truecolor_sgr() {
    assert_eq!(stripped("\x1b[38;2;255;0;0mhi\x1b[0m"), "hi");
}

#[test]
fn strips_bare_sgr_reset() {
    assert_eq!(stripped("\x1b[mhi"), "hi");
}

#[test]
fn strips_osc8_hyperlink() {
    assert_eq!(stripped("\x1b]8;;http://x.com\x07link\x1b]8;;\x07"), "link");
}

#[test]
fn strips_osc_with_st_terminator() {
    assert_eq!(stripped("\x1b]0;title\x1b\\hi"), "hi");
}

#[test]
fn strips_cursor_position() {
    assert_eq!(stripped("\x1b[10;20Hhi"), "hi");
}

#[test]
fn strips_bracketed_paste() {
    assert_eq!(stripped("\x1b[?2004hhi"), "hi");
}

#[test]
fn strips_csi_private_mode() {
    assert_eq!(stripped("\x1b[?1049h"), "");
}

#[test]
fn leaves_lone_esc_untouched() {
    assert_eq!(stripped("a\x1bb"), "a\x1bb");
}

#[test]
fn strips_long_parameter_sgr() {
    assert_eq!(stripped("\x1b[99999mhi"), "hi");
}

#[test]
fn strips_dcs_sequence() {
    assert_eq!(stripped("\x1bPq#0;2\x1b\\hi"), "hi");
}

#[test]
fn strips_apc_sequence() {
    assert_eq!(stripped("\x1b_Gf=100\x1b\\hi"), "hi");
}

#[test]
fn plain_text_is_unchanged() {
    assert_eq!(stripped("no ansi here"), "no ansi here");
    assert_eq!(stripped(""), "");
}

#[test]
fn removes_what_the_pattern_matches() {
    let re = regex::Regex::new(ANSI_REGEX_PATTERN).unwrap();
    let pieces = [
        "a", " ", "\x1b", "[", "]", "0", ";", "9", "m", "?", "!", "\x07", "\\", "\u{9c}", "\u{9b}", "P", "_",
        "^", "X", "(", ")", "#", "3", "7", "B", "z", "\u{e9}", "\n",
    ];
    // Every string of up to three pieces, and a few longer ones.
    let mut inputs: Vec<String> = vec![String::new()];
    for _ in 0..3 {
        let mut next = Vec::new();
        for s in &inputs {
            for p in &pieces {
                next.push(format!("{}{}", s, p));
            }
        }
        inputs.extend(next);
        inputs.sort();
        inputs.dedup();
    }
    inputs.push("\x1b]8;;http://x\x1b\\link\x1b]8;;\x07 \x1bP1$r\u{9c}x\x1b[1;2 q\u{9b}5n".to_string());
    inputs.push("\x1b]title\x1bX\x07 and \x1b_app\x1b x\x1b\\".to_string());
    for input in &inputs {
        assert_eq!(iocraft::strip_ansi::strip_ansi(input), re.replace_all(input, ""), "{:?}", input);
    }
}
