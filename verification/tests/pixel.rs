use drawille::color::{mean_of, same_color};
use drawille::pixel::braille;
use drawille::{colorize_char, Color, Content, Pixel};

#[test]
fn from_hex_splits_the_bytes() {
    assert_eq!(Color::from_hex(0xFF8001), Color(255, 128, 1));
    assert_eq!(Color::from_hex(0x12FF8001), Color(255, 128, 1));
    assert_eq!(Color::from_hex(0), Color(0, 0, 0));
    let c = Color::from_hex(0x0A0B0C);
    assert_eq!((c.r(), c.g(), c.b()), (10, 11, 12));
}

#[test]
fn red_and_blue_average_to_purple() {
    let mut cell = Pixel::default();
    cell.set_line(0x01);
    cell.add_color(Some(Color::from_hex(0xFF0000)));
    cell.set_line(0x02);
    cell.add_color(Some(Color::from_hex(0x0000FF)));
    assert_eq!(cell.color(), Some(Color::from_hex(0x7F007F)));
}

#[test]
fn the_mean_rounds_each_channel_down() {
    assert_eq!(mean_of(&vec![]), None);
    assert_eq!(mean_of(&vec![Color(1, 2, 3)]), Some(Color(1, 2, 3)));
    assert_eq!(
        mean_of(&vec![Color(255, 0, 1), Color(255, 0, 1), Color(254, 1, 0)]),
        Some(Color(254, 0, 0))
    );
    assert_eq!(mean_of(&vec![Color(255, 255, 255); 1000]), Some(Color(255, 255, 255)));
}

#[test]
fn same_color_is_equality() {
    assert!(same_color(None, None));
    assert!(same_color(Some(Color(1, 2, 3)), Some(Color(1, 2, 3))));
    assert!(!same_color(Some(Color(1, 2, 3)), Some(Color(1, 2, 4))));
    assert!(!same_color(Some(Color(0, 0, 0)), None));
    assert!(!same_color(None, Some(Color(0, 0, 0))));
}

#[test]
fn a_cell_without_colours_has_none() {
    let mut cell = Pixel::default();
    assert_eq!(cell.color(), None);
    cell.add_color(None);
    assert_eq!(cell.color(), None);
    cell.add_color(Some(Color(9, 9, 9)));
    cell.set_color(None);
    assert_eq!(cell.color(), None);
}

#[test]
fn set_color_replaces_what_was_accumulated() {
    let mut cell = Pixel::default();
    cell.add_color(Some(Color(200, 0, 0)));
    cell.add_color(Some(Color(100, 0, 0)));
    assert_eq!(cell.color(), Some(Color(150, 0, 0)));
    cell.set_color(Some(Color(1, 2, 3)));
    assert_eq!(cell.color(), Some(Color(1, 2, 3)));
}

#[test]
fn dots_accumulate_and_leave() {
    let mut cell = Pixel::default();
    assert!(!cell.get_line(0xFF));
    cell.unset_line(0x01);
    cell.toggle_line(0x01);
    assert_eq!(cell, Pixel::default());
    cell.set_line(0x01);
    cell.set_line(0x80);
    assert!(cell.get_line(0x01));
    assert!(cell.get_line(0x80));
    assert!(!cell.get_line(0x02));
    assert_eq!(cell.get_char(None).0, "\u{2881}");
    cell.unset_line(0x01);
    assert!(!cell.get_line(0x01));
    assert!(cell.get_line(0x80));
    cell.toggle_line(0x82);
    assert_eq!(cell.get_char(None).0, "\u{2802}");
}

#[test]
fn a_char_replaces_dots_and_ignores_them() {
    let mut cell = Pixel::default();
    cell.set_line(0x03);
    cell.set_char('k');
    assert!(!cell.get_line(0x03));
    cell.unset_line(0x01);
    cell.toggle_line(0x01);
    assert_eq!(cell.get_char(None), ("k".to_string(), None));
    cell.set_line(0x04);
    assert_eq!(cell.get_char(None).0, "\u{2804}");
}

#[test]
fn unset_char_only_touches_a_char() {
    let mut cell = Pixel::default();
    cell.set_line(0x01);
    cell.add_color(Some(Color(1, 1, 1)));
    let before = cell.clone();
    cell.unset_char();
    assert_eq!(cell, before);
    cell.set_char('k');
    cell.unset_char();
    assert_eq!(cell, Pixel::default());
    assert_eq!(cell.get_char(None), (" ".to_string(), None));
}

#[test]
fn get_char_emits_an_escape_only_on_a_change() {
    let red = Some(Color(255, 0, 0));
    let blue = Some(Color(0, 0, 255));
    let mut cell = Pixel::default();
    cell.set_char('a');
    assert_eq!(cell.get_char(None), ("a".to_string(), None));
    assert_eq!(cell.get_char(red), ("\x1B[0ma".to_string(), None));
    cell.set_color(red);
    assert_eq!(cell.get_char(None), ("\x1B[38;2;255;0;0ma".to_string(), red));
    assert_eq!(cell.get_char(red), ("a".to_string(), red));
    assert_eq!(cell.get_char(blue), ("\x1B[0m\x1B[38;2;255;0;0ma".to_string(), red));
}

#[test]
fn colorize_char_writes_each_part() {
    assert_eq!(colorize_char(None, None, false), "");
    assert_eq!(colorize_char(None, None, true), "\x1B[0m");
    assert_eq!(colorize_char(None, Some('x'), false), "x");
    assert_eq!(
        colorize_char(Some(Color(10, 100, 0)), Some('x'), true),
        "\x1B[38;2;10;100;0mx\x1B[0m"
    );
    assert_eq!(colorize_char(Some(Color(255, 99, 9)), None, false), "\x1B[38;2;255;99;9m");
    assert_eq!(colorize_char(Some(Color(109, 200, 90)), None, false), "\x1B[38;2;109;200;90m");
}

#[test]
fn colorize_char_agrees_with_the_formatter_on_every_byte() {
    for n in 0..=255u8 {
        assert_eq!(
            colorize_char(Some(Color(n, n, n)), None, false),
            format!("\x1B[38;2;{};{};{}m", n, n, n)
        );
    }
}

#[test]
fn braille_covers_the_whole_block() {
    assert_eq!(braille(0), '\u{2800}');
    assert_eq!(braille(1), '\u{2801}');
    assert_eq!(braille(0xFF), '\u{28FF}');
    for d in 0..=255u8 {
        assert_eq!(braille(d) as u32, 0x2800 + d as u32);
    }
}

#[test]
fn content_compares_by_value() {
    assert_eq!(Content::Line(3), Content::Line(3));
    assert_ne!(Content::Line(3), Content::Char('3'));
    assert_ne!(Content::Empty, Content::Line(0));
}
