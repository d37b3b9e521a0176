use iocraft::linebreak::{break_property, linebreaks, linebreaks_iter, split_at_safe, BreakOpportunity};
use unicode_linebreak::BreakClass;

#[test]
fn it_works() {
    assert_eq!(break_property(0xA), BreakClass::LineFeed);
    assert_eq!(break_property(0xDB80), BreakClass::Surrogate);
    assert_eq!(break_property(0xe01ef), BreakClass::CombiningMark);
    assert_eq!(break_property(0x10ffff), BreakClass::Unknown);
}

#[test]
fn breaks_after_spaces_and_at_the_end() {
    let b = linebreaks("ab cd");
    assert_eq!(b, vec![(3, BreakOpportunity::Allowed), (5, BreakOpportunity::Mandatory)]);
    let b = linebreaks("a\nb");
    assert_eq!(b, vec![(2, BreakOpportunity::Mandatory), (3, BreakOpportunity::Mandatory)]);
}

#[test]
fn breaks_across_segments_report_segment_and_offset() {
    let b = linebreaks_iter(&["ab ", "cd"]);
    assert_eq!(
        b,
        vec![((1, 0), BreakOpportunity::Allowed), ((1, 2), BreakOpportunity::Mandatory)]
    );
}

#[test]
fn split_at_safe_splits_the_whole() {
    let (a, b) = split_at_safe("hello world");
    assert_eq!(format!("{a}{b}"), "hello world");
}

#[test]
fn split_at_safe_keeps_a_tail() {
    let (a, b) = split_at_safe("ab");
    assert_eq!((a, b), ("", "ab"));
    let (_, b) = split_at_safe("Not allowed to break within em dashes: — —");
    assert!(b.chars().count() >= 3);
}

#[test]
fn breaks_of_no_segments() {
    let b = linebreaks_iter(&[]);
    let whole = linebreaks("");
    assert_eq!(b.len(), whole.len());
    for (x, y) in b.iter().zip(whole.iter()) {
        assert_eq!(x.0, (0, 0));
        assert_eq!(x.1, y.1);
    }
}

#[test]
fn one_segment_breaks_match_linebreaks() {
    for s in ["Hello world!", "a\u{2014} \u{00e9}t\u{00e9}\nnext line", "", "\u{1F600} x\r\ny"] {
        let whole = linebreaks(s);
        let segmented = linebreaks_iter(&[s]);
        assert_eq!(whole.len(), segmented.len());
        for ((b, o), ((seg, at), o2)) in whole.iter().zip(segmented.iter()) {
            assert_eq!(*seg, 0);
            assert_eq!(at, b);
            assert_eq!(o, o2);
            assert!(s.is_char_boundary(*b));
        }
    }
}
