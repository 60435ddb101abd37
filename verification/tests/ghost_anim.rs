use bpond::canvas::Canvas;
use bpond::buffer::Area;
use bpond::ghost_anim::{parse_line, GhostAnimation, GhostDataError};
use ratatui::buffer::Buffer;
use ratatui::layout::Rect;
use ratatui::style::Color;

#[test]
fn parse_line_without_tags_keeps_every_character() {
    let cells = parse_line("ab c");
    assert_eq!(cells, vec![('a', false), ('b', false), (' ', false), ('c', false)]);
}

#[test]
fn parse_line_colours_inside_tags() {
    let cells = parse_line("a<c>bé</c>d");
    assert_eq!(cells, vec![('a', false), ('b', true), ('é', true), ('d', false)]);
}

#[test]
fn parse_line_keeps_incomplete_tags_as_text() {
    let cells = parse_line("<c");
    assert_eq!(cells, vec![('<', false), ('c', false)]);
    let cells = parse_line("</x>");
    assert_eq!(cells.len(), 4);
}

#[test]
fn load_parses_frames() {
    let g = GhostAnimation::load(r#"[["<c>a</c>b", "c"], ["d"]]"#);
    assert_eq!(g.frame_count(), 2);
}

#[test]
fn try_load_rejects_malformed_json() {
    assert_eq!(GhostAnimation::try_load("not json").err(), Some(GhostDataError::Malformed));
    assert_eq!(GhostAnimation::try_load("[[1]]").err(), Some(GhostDataError::Malformed));
    assert!(GhostAnimation::try_load("[[\"x\"]]").is_ok());
}

#[test]
fn frame_index_advances_every_35_ms_and_loops() {
    let g = GhostAnimation::load(r#"[["a"], ["b"], ["c"]]"#);
    assert_eq!(g.frame_index(0), 0);
    assert_eq!(g.frame_index(34), 0);
    assert_eq!(g.frame_index(35), 1);
    assert_eq!(g.frame_index(70), 2);
    assert_eq!(g.frame_index(105), 0);
}

#[test]
fn draw_blanks_centres_and_writes_header() {
    let g = GhostAnimation::load(r#"[["a<c>b</c> c"]]"#);
    let rect = Rect::new(0, 0, 80, 45);
    let mut buf = Buffer::empty(rect);
    g.draw(&mut buf, Area::new(0, 0, 80, 45), 0);
    // Centred: (80 - 77) / 2 = 1, (45 - 41) / 2 = 2.
    assert_eq!(buf[(1u16, 2u16)].symbol(), "a");
    assert_eq!(buf[(1u16, 2u16)].fg, Color::Rgb(210, 210, 230));
    assert_eq!(buf[(2u16, 2u16)].symbol(), "b");
    assert_eq!(buf[(2u16, 2u16)].fg, Color::Rgb(70, 120, 255));
    // A space in the frame leaves the blank backdrop.
    assert_eq!(buf[(3u16, 2u16)].symbol(), " ");
    assert_eq!(buf[(3u16, 2u16)].fg, Color::Rgb(10, 8, 16));
    assert_eq!(buf[(4u16, 2u16)].symbol(), "c");
    // Backdrop everywhere else.
    assert_eq!(buf[(79u16, 44u16)].bg, Color::Rgb(10, 8, 16));
    // Header along the top row.
    assert_eq!(buf[(2u16, 0u16)].symbol(), "t");
    assert_eq!(buf[(2u16, 0u16)].fg, Color::Rgb(80, 70, 120));
    assert_eq!(buf[(25u16, 0u16)].symbol(), "\u{2190}");
}

#[test]
fn draw_on_a_narrow_screen_offsets_left_and_skips_header() {
    let g = GhostAnimation::load(r#"[["abcdefghijklmnopqrstuvwxyzabcdefghijklmnopq"]]"#);
    let rect = Rect::new(0, 0, 10, 1);
    let mut buf = Buffer::empty(rect);
    g.draw(&mut buf, Area::new(0, 0, 10, 1), 0);
    // start_x = (10 - 77) / 2 = -33 (rounded toward zero), start_y = -20:
    // the single line lies above the screen, and no header on one row.
    assert_eq!(buf[(0u16, 0u16)].symbol(), " ");
    assert_eq!(buf[(0u16, 0u16)].fg, Color::Rgb(10, 8, 16));
}

#[test]
fn tagged_text_is_all_aura() {
    let cells = parse_line("<c>héllo</c>");
    assert!(cells.iter().all(|c| c.1));
    let text: String = cells.iter().map(|c| c.0).collect();
    assert_eq!(text, "héllo");
}

#[test]
fn ordinary_frames_fit_the_screen() {
    let g = GhostAnimation::load(r#"[["abc", ""], []]"#);
    assert!(g.frames_fit_screen());
}

#[test]
fn try_draw_needs_the_whole_area_in_the_buffer() {
    let g = GhostAnimation::load(r#"[["a"]]"#);
    let mut buf = Buffer::empty(Rect::new(0, 0, 5, 5));
    let before = buf.clone();
    assert!(!g.try_draw(&mut buf, Area::new(0, 0, 6, 5), 0));
    assert_eq!(buf, before);
    assert!(g.try_draw(&mut buf, Area::new(0, 0, 5, 5), 0));
    assert_eq!(buf[(0u16, 0u16)].bg, Color::Rgb(10, 8, 16));
    let empty = GhostAnimation::load("[]");
    assert!(!empty.try_draw(&mut buf, Area::new(0, 0, 5, 5), 0));
}

#[test]
fn strokes_history_last_painter_wins() {
    let mut c = Canvas::new(3, 2);
    c.thick(2, 2, 1, 1, 1);
    c.fat(2, 2, 2, 2, 2);
    c.dot(3, 3, 3, 3, 3);
    assert_eq!(c.get(1, 1), (true, 1, 1, 1));
    assert_eq!(c.get(2, 2), (true, 2, 2, 2));
    assert_eq!(c.get(3, 3), (true, 3, 3, 3));
    assert_eq!(c.get(0, 0), (false, 0, 0, 0));
    assert_eq!(c.get(99, 0), (false, 0, 0, 0));
}
