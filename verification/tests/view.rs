use iocraft::canvas::{Canvas, OutputEnv};
use iocraft::color::Color;
use iocraft::style::{CanvasTextStyle, Edges};
use iocraft::view::{center_and_clip, BorderCharacters, BorderStyle, BorderTitle, BorderTitlePos, ViewComponent};

fn draw(view: &ViewComponent, w: usize, h: usize) -> String {
    let mut canvas = Canvas::new(w, h);
    view.draw(&mut canvas.subview_mut(0, 0, 0, 0, w, h), w, h);
    canvas.to_string(OutputEnv::default())
}

#[test]
fn center_and_clip_centres_and_clips() {
    assert_eq!(center_and_clip("-", 5, "ab"), "-ab--");
    assert_eq!(center_and_clip("=", 2, "abcd"), "ab");
    assert_eq!(center_and_clip("*", 4, ""), "****");
    assert_eq!(center_and_clip("-", 4, "ab"), "-ab-");
    for n in 0..8 {
        assert_eq!(center_and_clip("─", n, "title").chars().count(), n);
    }
}

#[test]
fn border_styles() {
    assert!(BorderStyle::NoBorder.is_none());
    assert!(!BorderStyle::Round.is_none());
    assert_eq!(BorderStyle::NoBorder.border_characters(), None);
    let c = BorderStyle::Classic.border_characters().unwrap();
    assert_eq!((c.top_left, c.top, c.left), ('+', '-', '|'));
    let custom = BorderCharacters {
        top_left: 'a',
        top_right: 'b',
        bottom_left: 'c',
        bottom_right: 'd',
        left: 'e',
        right: 'f',
        top: 'g',
        bottom: 'h',
    };
    assert_eq!(BorderStyle::Custom(custom).border_characters(), Some(custom));
    assert_eq!(BorderStyle::default(), BorderStyle::NoBorder);
}

#[test]
fn draws_a_single_border() {
    let mut view = ViewComponent::new();
    view.border_style = BorderStyle::Single;
    assert_eq!(draw(&view, 6, 3), "┌────┐\n│    │\n└────┘\n");
    assert_eq!(view.border_widths(), (1, 1, 1, 1));
}

#[test]
fn draws_a_title_in_the_top_edge() {
    let mut view = ViewComponent::new();
    view.border_style = BorderStyle::Round;
    view.border_title = Some(BorderTitle { title: "Hi".to_string(), pos: BorderTitlePos::Top });
    assert_eq!(draw(&view, 6, 3), "╭─Hi─╮\n│    │\n╰────╯\n");
    view.border_title = Some(BorderTitle { title: "Title".to_string(), pos: BorderTitlePos::Bottom });
    assert_eq!(draw(&view, 6, 3), "╭────╮\n│    │\n╰Titl╯\n");
}

#[test]
fn draws_only_the_chosen_edges() {
    let mut view = ViewComponent::new();
    view.border_style = BorderStyle::Classic;
    view.border_edges = Edges { top: true, right: false, bottom: false, left: true };
    assert_eq!(draw(&view, 4, 3), "+---\n|\n|\n");
    assert_eq!(view.border_widths(), (1, 0, 0, 1));
    view.border_style = BorderStyle::NoBorder;
    assert_eq!(view.border_widths(), (0, 0, 0, 0));
    assert_eq!(draw(&view, 4, 3), "\n\n\n");
}

#[test]
fn background_clears_text_below() {
    let mut canvas = Canvas::new(4, 1);
    canvas.subview_mut(0, 0, 0, 0, 4, 1).set_text(0, 0, "abcd", CanvasTextStyle::default());
    let mut view = ViewComponent::new();
    view.background_color = Some(Color::Blue);
    view.draw(&mut canvas.subview_mut(1, 0, 1, 0, 2, 1), 2, 1);
    assert_eq!(canvas.to_string(OutputEnv::default()), "a  d\n");
}
