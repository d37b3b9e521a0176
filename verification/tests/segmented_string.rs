use unicode_width::UnicodeWidthChar;
use iocraft::segmented_string::{SegmentedString, SegmentedStringLine, SegmentedStringLineSegment};

fn seg(text: &str, index: usize, offset: usize, width: usize) -> SegmentedStringLineSegment {
    SegmentedStringLineSegment { text: text.to_string(), index, offset, width }
}

#[test]
fn test_segmented_string_wrap() {
    {
        let segmented_string = SegmentedString::from("Hello, world! This is a test string.");
        let lines = segmented_string.wrap(12);
        assert_eq!(
            lines,
            vec![
                SegmentedStringLine { segments: vec![seg("Hello, ", 0, 0, 7)], width: 7 },
                SegmentedStringLine { segments: vec![seg("world! This ", 0, 7, 12)], width: 12 },
                SegmentedStringLine { segments: vec![seg("is a test ", 0, 19, 10)], width: 10 },
                SegmentedStringLine { segments: vec![seg("string.", 0, 29, 7)], width: 7 },
            ],
        );
    }

    {
        let segmented_string = SegmentedString::from("foo bar");
        let lines = segmented_string
            .wrap(0)
            .into_iter()
            .map(|line| line.to_string())
            .collect::<Vec<_>>();
        assert_eq!(lines, vec!["f", "o", "o ", "b", "a", "r"]);
    }

    {
        let segmented_string = SegmentedString::from("Hello, world! This is a test string.");
        let lines = segmented_string
            .wrap(12)
            .into_iter()
            .map(|line| line.to_string())
            .collect::<Vec<_>>();
        assert_eq!(lines, vec!["Hello, ", "world! This ", "is a test ", "string.",]);
    }

    {
        let segmented_string = SegmentedString::from("Hello, world! This is a test string.");
        let lines = segmented_string
            .wrap(11)
            .into_iter()
            .map(|line| line.to_string())
            .collect::<Vec<_>>();
        assert_eq!(lines, vec!["Hello, ", "world! This ", "is a test ", "string.",]);
    }

    {
        let segmented_string = SegmentedString::from("Hello, thisisalongunbreakablemultiline str.");
        let lines = segmented_string
            .wrap(12)
            .into_iter()
            .map(|line| line.to_string())
            .collect::<Vec<_>>();
        assert_eq!(lines, vec!["Hello, ", "thisisalongu", "nbreakablemu", "ltiline str.",]);
    }

    {
        let segmented_string = SegmentedString::from("Hello, this\nstring\nhas\nnewlines in it.\n\n");
        let lines = segmented_string
            .wrap(11)
            .into_iter()
            .map(|line| line.to_string())
            .collect::<Vec<_>>();
        assert_eq!(
            lines,
            vec!["Hello, this", "string", "has", "newlines in ", "it.", "", ""]
        );
    }
}

#[test]
fn wrapping_segments_keeps_their_origin() {
    let s = SegmentedString::from_segments(vec!["this is ", "a wrapping test"]);
    let lines = s.wrap(14);
    let texts: Vec<String> = lines.iter().map(|l| l.to_string()).collect();
    assert_eq!(texts, vec!["this is a ", "wrapping test"]);
    assert_eq!(lines[0].segments[1].index, 1);
    assert_eq!(lines[0].segments[1].offset, 0);
    assert_eq!(lines[1].segments[0].index, 1);
    assert_eq!(lines[1].segments[0].offset, 2);
}

#[test]
fn trim_end_removes_trailing_whitespace() {
    let mut line = SegmentedString::from("ab  ").wrap(10).remove(0);
    line.trim_end();
    assert_eq!(line.to_string(), "ab");
    assert_eq!(line.width, 2);
    let mut blank = SegmentedString::from_segments(vec!["x", "   "]).wrap(10).remove(0);
    blank.trim_end();
    assert_eq!(blank.segments.len(), 1);
    assert_eq!(blank.width, 1);
}

#[test]
fn wrapping_keeps_the_text() {
    let inputs: [Vec<&str>; 4] = [
        vec!["Hello, world! This is a test string."],
        vec!["supercalifragilistic", "expialidocious and more words"],
        vec!["line one\nline two is longer\n", "tail"],
        vec!["\u{4f60}\u{597d}\u{4e16}\u{754c} wide chars", " and ascii"],
    ];
    for segments in inputs {
        let joined: String = segments.concat().chars().filter(|c| *c != '\n').collect();
        for width in [0usize, 1, 3, 7, 12, 80] {
            let lines = SegmentedString::from_segments(segments.clone()).wrap(width);
            let text: String = lines.iter().map(|l| l.to_string()).collect();
            assert_eq!(text, joined, "width {}", width);
        }
    }
}

#[test]
fn forced_breaks_count_what_is_already_on_the_line() {
    let lines = SegmentedString::from_segments(vec!["ab", "cdefgh"]).wrap(4);
    assert_eq!(
        lines,
        vec![
            SegmentedStringLine { segments: vec![seg("ab", 0, 0, 2), seg("cd", 1, 0, 2)], width: 4 },
            SegmentedStringLine { segments: vec![seg("efgh", 1, 2, 4)], width: 4 },
        ],
    );
}

#[test]
fn wrapped_lines_fit_the_width() {
    let inputs: [Vec<&str>; 5] = [
        vec!["Hello, world! This is a test string."],
        vec!["ab", "cdefgh"],
        vec!["supercalifragilistic", "expialidocious and more words"],
        vec!["line one\nline two is longer\n", "tail"],
        vec!["\u{4f60}\u{597d}\u{4e16}\u{754c} wide chars", " and ascii"],
    ];
    for segments in inputs {
        for width in [0usize, 1, 2, 3, 4, 7, 12, 80] {
            for line in SegmentedString::from_segments(segments.clone()).wrap(width) {
                let text = line.to_string();
                let trimmed = text.trim_end();
                let cols: usize = trimmed.chars().map(|c| c.width().unwrap_or(0)).sum();
                let wide = trimmed.chars().filter(|c| c.width().unwrap_or(0) > 0).count();
                assert!(cols <= width || wide <= 1, "{:?} at width {}", text, width);
            }
        }
    }
}

#[test]
fn line_width_is_the_sum_of_its_parts() {
    for width in [0usize, 3, 5, 12] {
        let lines = SegmentedString::from_segments(vec!["Hello, ", "wor", "ld! This is", " a test\nstring."]).wrap(width);
        assert!(!lines.is_empty());
        for line in lines {
            assert_eq!(line.width, line.segments.iter().map(|s| s.width).sum::<usize>());
        }
    }
}
