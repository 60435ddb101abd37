use bpond::buffer::Area;
use bpond::screen::{command_for, draw_header, Command, Input};
use ratatui::buffer::Buffer;
use ratatui::layout::Rect;
use ratatui::style::Color;

#[test]
fn keys_map_to_commands() {
    assert_eq!(command_for(Input::Key('q')), Command::Quit);
    assert_eq!(command_for(Input::Esc), Command::Quit);
    assert_eq!(command_for(Input::Key('Q')), Command::Ignore);
    assert_eq!(command_for(Input::Up), Command::SpeedUp);
    assert_eq!(command_for(Input::Down), Command::SlowDown);
    assert_eq!(command_for(Input::Key('+')), Command::AddFish);
    assert_eq!(command_for(Input::Key('=')), Command::AddFish);
    assert_eq!(command_for(Input::Key('-')), Command::RemoveFish);
    assert_eq!(command_for(Input::Key('r')), Command::ToggleRain);
    assert_eq!(command_for(Input::Key('R')), Command::ToggleRain);
    assert_eq!(command_for(Input::Key('f')), Command::FeedAtRandom);
    assert_eq!(command_for(Input::Key('F')), Command::FeedAtRandom);
    assert_eq!(command_for(Input::Key('x')), Command::Ignore);
}

#[test]
fn clicks_map_to_commands() {
    assert_eq!(
        command_for(Input::LeftClick { column: 3, row: 4 }),
        Command::FeedAt { column: 3, row: 4 }
    );
    assert_eq!(
        command_for(Input::RightClick { column: 5, row: 6 }),
        Command::ScareAt { column: 5, row: 6 }
    );
}

#[test]
fn header_is_cut_at_the_width() {
    let rect = Rect::new(0, 0, 22, 2);
    let mut buf = Buffer::empty(rect);
    draw_header(&mut buf, Area::new(0, 0, 22, 2), "  bpond  Koi Pond  speed:1.0x");
    assert_eq!(buf[(2u16, 0u16)].symbol(), "b");
    assert_eq!(buf[(2u16, 0u16)].fg, Color::Rgb(60, 55, 85));
    assert_eq!(buf[(2u16, 0u16)].bg, Color::Rgb(10, 16, 28));
    assert_eq!(buf[(21u16, 0u16)].symbol(), "e");
    assert_eq!(buf[(0u16, 1u16)].fg, Color::Reset);
}

#[test]
fn narrow_screen_gets_no_header() {
    let rect = Rect::new(0, 0, 20, 2);
    let mut buf = Buffer::empty(rect);
    let before = buf.clone();
    draw_header(&mut buf, Area::new(0, 0, 20, 2), "  bpond  Koi Pond");
    assert_eq!(buf, before);
}

#[test]
fn try_draw_header_refuses_a_short_buffer() {
    let mut buf = Buffer::empty(Rect::new(0, 0, 10, 1));
    let before = buf.clone();
    assert!(!bpond::screen::try_draw_header(&mut buf, Area::new(0, 0, 30, 1), "  bpond  Koi Pond"));
    assert_eq!(buf, before);
    let mut buf = Buffer::empty(Rect::new(0, 0, 30, 1));
    assert!(bpond::screen::try_draw_header(&mut buf, Area::new(0, 0, 30, 1), "  bpond  Koi Pond"));
    assert_eq!(buf[(2u16, 0u16)].symbol(), "b");
}
