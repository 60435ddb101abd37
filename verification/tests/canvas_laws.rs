use bpond::buffer::Area;
use bpond::canvas::Canvas;
use ratatui::buffer::Buffer;
use ratatui::layout::Rect;
use ratatui::style::Color;

fn all_pixels(c: &Canvas) -> Vec<(bool, u8, u8, u8)> {
    let mut v = Vec::new();
    for y in 0..c.h {
        for x in 0..c.w {
            v.push(c.get(x, y));
        }
    }
    v
}

#[test]
fn new_canvas_is_all_unlit() {
    let c = Canvas::new(3, 2);
    assert!(all_pixels(&c).iter().all(|p| *p == (false, 0, 0, 0)));
}

#[test]
fn get_off_grid_reads_unlit() {
    let mut c = Canvas::new(2, 1);
    c.fat(0, 0, 9, 9, 9);
    assert_eq!(c.get(4, 0), (false, 0, 0, 0));
    assert_eq!(c.get(0, 4), (false, 0, 0, 0));
}

#[test]
fn later_dot_overwrites_earlier() {
    let mut c = Canvas::new(2, 1);
    c.dot(1, 1, 10, 20, 30);
    c.dot(1, 1, 40, 50, 60);
    assert_eq!(c.get(1, 1), (true, 40, 50, 60));
}

#[test]
fn dot_changes_only_its_position() {
    let mut c = Canvas::new(2, 1);
    let before = all_pixels(&c);
    c.dot(2, 3, 1, 2, 3);
    let after = all_pixels(&c);
    let idx = 3 * c.w + 2;
    for (i, (a, b)) in before.iter().zip(after.iter()).enumerate() {
        if i == idx {
            assert_eq!(*b, (true, 1, 2, 3));
        } else {
            assert_eq!(a, b);
        }
    }
}

#[test]
fn dots_in_either_order_agree() {
    let mut a = Canvas::new(3, 2);
    a.dot(1, 2, 5, 5, 5);
    a.dot(4, 6, 7, 7, 7);
    let mut b = Canvas::new(3, 2);
    b.dot(4, 6, 7, 7, 7);
    b.dot(1, 2, 5, 5, 5);
    assert_eq!(all_pixels(&a), all_pixels(&b));
}

#[test]
fn fat_equals_four_dots() {
    let mut a = Canvas::new(3, 2);
    a.fat(5, 7, 11, 22, 33);
    let mut b = Canvas::new(3, 2);
    b.dot(5, 7, 11, 22, 33);
    b.dot(6, 7, 11, 22, 33);
    b.dot(5, 8, 11, 22, 33);
    b.dot(6, 8, 11, 22, 33);
    assert_eq!(all_pixels(&a), all_pixels(&b));
}

#[test]
fn fat_at_the_edge_is_clipped() {
    let mut c = Canvas::new(2, 1);
    c.fat(3, 3, 1, 1, 1);
    assert!(c.get(3, 3).0);
    assert_eq!(all_pixels(&c).iter().filter(|p| p.0).count(), 1);
}

#[test]
fn thick_over_fat_equals_thick_alone() {
    let mut a = Canvas::new(3, 2);
    a.fat(3, 3, 1, 2, 3);
    a.thick(4, 4, 9, 8, 7);
    let mut b = Canvas::new(3, 2);
    b.thick(4, 4, 9, 8, 7);
    assert_eq!(all_pixels(&a), all_pixels(&b));
}

#[test]
fn thick_at_the_corner_is_clipped() {
    let mut c = Canvas::new(2, 1);
    c.thick(0, 0, 1, 1, 1);
    assert_eq!(all_pixels(&c).iter().filter(|p| p.0).count(), 4);
}

#[test]
fn braille_cell_of_empty_cell_is_none() {
    let c = Canvas::new(2, 2);
    assert_eq!(c.braille_cell(1, 1), None);
}

#[test]
fn braille_cell_bits_for_each_sub_pixel() {
    let expected: [[u32; 4]; 2] = [[0x01, 0x02, 0x04, 0x40], [0x08, 0x10, 0x20, 0x80]];
    for dx in 0..2 {
        for dy in 0..4 {
            let mut c = Canvas::new(2, 2);
            c.dot(2 + dx, 4 + dy, 30, 60, 90);
            let ch = char::from_u32(0x2800 + expected[dx as usize][dy as usize]).unwrap();
            assert_eq!(c.braille_cell(1, 1), Some((ch, 30, 60, 90)));
        }
    }
}

#[test]
fn braille_cell_average_rounds_down() {
    let mut c = Canvas::new(1, 1);
    c.dot(0, 0, 10, 0, 255);
    c.dot(1, 0, 11, 1, 254);
    c.dot(0, 3, 12, 1, 0);
    // (33/3, 2/3, 509/3) = (11, 0, 169)
    assert_eq!(c.braille_cell(0, 0), Some(('\u{2849}', 11, 0, 169)));
}

#[test]
fn render_blank_canvas_leaves_buffer_alone() {
    let c = Canvas::new(3, 2);
    let rect = Rect::new(0, 0, 5, 4);
    let mut buf = Buffer::empty(rect);
    buf[(1u16, 1u16)].set_char('x');
    let before = buf.clone();
    c.render(&mut buf, 1, 1, Area::new(0, 0, 5, 4));
    assert_eq!(buf, before);
}

#[test]
fn render_keeps_background_and_sets_symbol_and_colour() {
    let mut c = Canvas::new(2, 1);
    c.dot(2, 1, 200, 100, 50);
    let rect = Rect::new(0, 0, 4, 2);
    let mut buf = Buffer::empty(rect);
    buf[(1u16, 0u16)].set_bg(Color::Rgb(1, 2, 3));
    c.render(&mut buf, 0, 0, Area::new(0, 0, 4, 2));
    let cell = &buf[(1u16, 0u16)];
    assert_eq!(cell.symbol(), "\u{2802}");
    assert_eq!(cell.fg, Color::Rgb(200, 100, 50));
    assert_eq!(cell.bg, Color::Rgb(1, 2, 3));
}

#[test]
fn render_clips_to_area_rows() {
    let mut c = Canvas::new(1, 2);
    c.dot(0, 0, 1, 1, 1);
    c.dot(0, 4, 2, 2, 2);
    let rect = Rect::new(0, 0, 3, 3);
    let mut buf = Buffer::empty(rect);
    c.render(&mut buf, 0, 1, Area::new(0, 0, 3, 2));
    assert_eq!(buf[(0u16, 1u16)].symbol(), "\u{2801}");
    assert_eq!(buf[(0u16, 2u16)].symbol(), " ");
}

#[test]
fn pixel_size_getters() {
    let c = Canvas::new(4, 2);
    assert_eq!(c.pixel_width(), 8);
    assert_eq!(c.pixel_height(), 8);
}

#[test]
fn try_render_draws_when_the_buffer_holds_every_drawn_cell() {
    let mut c = Canvas::new(2, 1);
    c.dot(0, 0, 9, 9, 9);
    let mut buf = Buffer::empty(Rect::new(0, 0, 2, 1));
    assert!(c.try_render(&mut buf, 0, 0, Area::new(0, 0, 2, 1)));
    assert_eq!(buf[(0u16, 0u16)].symbol(), "\u{2801}");
}

#[test]
fn try_render_refuses_and_leaves_the_buffer_when_a_drawn_cell_is_missing() {
    let mut c = Canvas::new(2, 1);
    c.dot(0, 0, 9, 9, 9);
    c.dot(2, 0, 9, 9, 9);
    let mut buf = Buffer::empty(Rect::new(0, 0, 1, 1));
    let before = buf.clone();
    assert!(!c.try_render(&mut buf, 0, 0, Area::new(0, 0, 2, 1)));
    assert_eq!(buf, before);
}

#[test]
fn try_render_ignores_unlit_cells_outside_the_buffer() {
    let mut c = Canvas::new(2, 1);
    c.dot(0, 0, 9, 9, 9);
    let mut buf = Buffer::empty(Rect::new(0, 0, 1, 1));
    assert!(c.try_render(&mut buf, 0, 0, Area::new(0, 0, 2, 1)));
}
