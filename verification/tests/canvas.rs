use drawille::{clamp_coordinate, Canvas};

#[test]
fn draws_the_diagonal_with_a_point() {
    let mut canvas = Canvas::new(10, 10);
    canvas.set(5, 4);
    canvas.line(2, 2, 8, 8);
    let expected = [" \u{2884}    ", "  \u{2819}\u{2884}  ", "    \u{2801} "].join("\n");
    assert_eq!(canvas.frame(), expected);
    assert_eq!(canvas.rows().len(), 3);
}

#[test]
fn set_then_get_is_true_and_others_stay_false() {
    let mut canvas = Canvas::new(4, 4);
    assert!(!canvas.get(1, 2));
    canvas.set(1, 2);
    assert!(canvas.get(1, 2));
    assert!(!canvas.get(0, 2));
    assert!(!canvas.get(1, 3));
    assert!(!canvas.get(3, 2));
    assert!(!canvas.get(1, 6));
}

#[test]
fn every_dot_of_a_cell_has_its_own_bit() {
    for y in 0..4u32 {
        for x in 0..2u32 {
            let mut canvas = Canvas::new(0, 0);
            canvas.set(x, y);
            for y2 in 0..4u32 {
                for x2 in 0..2u32 {
                    assert_eq!(canvas.get(x2, y2), (x, y) == (x2, y2));
                }
            }
        }
    }
}

#[test]
fn dots_follow_the_braille_order() {
    let glyphs = [
        ((0, 0), "\u{2801}"),
        ((0, 1), "\u{2802}"),
        ((0, 2), "\u{2804}"),
        ((1, 0), "\u{2808}"),
        ((1, 1), "\u{2810}"),
        ((1, 2), "\u{2820}"),
        ((0, 3), "\u{2840}"),
        ((1, 3), "\u{2880}"),
    ];
    for ((x, y), glyph) in glyphs {
        let mut canvas = Canvas::new(0, 0);
        canvas.set(x, y);
        assert_eq!(canvas.frame(), glyph);
    }
}

#[test]
fn a_full_cell_is_the_last_braille_pattern() {
    let mut canvas = Canvas::new(0, 0);
    for y in 0..4 {
        for x in 0..2 {
            canvas.set(x, y);
        }
    }
    assert_eq!(canvas.frame(), "\u{28FF}");
}

#[test]
fn unset_then_get_is_false() {
    let mut canvas = Canvas::new(4, 4);
    canvas.set(1, 2);
    canvas.set(0, 2);
    canvas.unset(1, 2);
    assert!(!canvas.get(1, 2));
    assert!(canvas.get(0, 2));
}

#[test]
fn unset_and_toggle_do_not_create_cells() {
    let mut canvas = Canvas::new(0, 0);
    canvas.unset(6, 9);
    canvas.toggle(6, 9);
    canvas.unset_char(6, 9);
    assert_eq!(canvas, Canvas::new(0, 0));
    assert_eq!(canvas.rows(), vec![" ".to_string()]);
    assert!(!canvas.get(6, 9));
}

#[test]
fn toggle_twice_gives_the_dot_back() {
    let mut canvas = Canvas::new(4, 4);
    canvas.set(0, 0);
    canvas.toggle(1, 1);
    assert!(canvas.get(1, 1));
    canvas.toggle(1, 1);
    assert!(!canvas.get(1, 1));
    canvas.toggle(0, 0);
    assert!(!canvas.get(0, 0));
    canvas.toggle(0, 0);
    assert!(canvas.get(0, 0));
}

#[test]
fn a_char_cell_reports_no_dot() {
    let mut canvas = Canvas::new(4, 4);
    canvas.set(0, 0);
    canvas.set_char(0, 0, 'x');
    assert!(!canvas.get(0, 0));
    assert_eq!(canvas.rows()[0], "x  ");
}

#[test]
fn a_dot_overwrites_a_char() {
    let mut canvas = Canvas::new(0, 0);
    canvas.set_char(0, 0, 'x');
    canvas.set(1, 0);
    assert!(canvas.get(1, 0));
    assert_eq!(canvas.frame(), "\u{2808}");
}

#[test]
fn unset_char_leaves_a_space_and_the_neighbours() {
    let mut canvas = Canvas::new(4, 0);
    canvas.set(0, 0);
    canvas.set_char(2, 0, 'q');
    canvas.set(4, 3);
    assert_eq!(canvas.frame(), "\u{2801}q\u{2840}");
    canvas.unset_char(2, 0);
    assert_eq!(canvas.frame(), "\u{2801} \u{2840}");
    canvas.unset_char(0, 0);
    assert!(canvas.get(0, 0));
    assert!(canvas.get(4, 3));
}

#[test]
fn unset_char_drops_the_colour_of_the_cell() {
    let mut canvas = Canvas::new(0, 0);
    canvas.set_color(0x010203);
    canvas.set_char(0, 0, 'q');
    assert_eq!(canvas.frame(), "\x1B[38;2;1;2;3mq\x1B[0m");
    canvas.unset_char(0, 0);
    assert_eq!(canvas.frame(), " ");
}

#[test]
fn frame_is_the_same_when_asked_twice() {
    let mut canvas = Canvas::new(10, 10);
    canvas.set_color(0x336699);
    canvas.line(0, 0, 9, 3);
    canvas.reset_color();
    canvas.set_char(4, 8, 'z');
    let first = canvas.frame();
    let second = canvas.frame();
    assert_eq!(first, second);
    assert_eq!(canvas.rows().join("\n"), first);
}

#[test]
fn text_places_the_char_at_the_boundary() {
    let mut canvas = Canvas::new(10, 4);
    canvas.text(0, 0, 4, "ABCD");
    assert_eq!(canvas.rows(), vec!["ABC   ".to_string(), "      ".to_string()]);
}

#[test]
fn text_places_a_short_text_whole() {
    let mut canvas = Canvas::new(10, 0);
    canvas.text(0, 0, 4, "AB");
    assert_eq!(canvas.frame(), "AB    ");
    canvas.text(4, 0, 0, "xyz");
    assert_eq!(canvas.frame(), "ABx   ");
    canvas.text(0, 0, 100, "");
    assert_eq!(canvas.frame(), "ABx   ");
}

#[test]
fn text_with_an_odd_width_stops_before_it() {
    let mut canvas = Canvas::new(0, 0);
    canvas.text(2, 1, 3, "wxyz");
    assert_eq!(canvas.frame(), " wx");
}

#[test]
fn text_takes_characters_not_bytes() {
    let mut canvas = Canvas::new(0, 0);
    canvas.text(0, 0, 2, "\u{e9}\u{4e2d}!");
    assert_eq!(canvas.frame(), "\u{e9}\u{4e2d}");
}

#[test]
fn a_run_of_one_colour_has_one_escape() {
    let mut canvas = Canvas::new(4, 0);
    canvas.set_color(0xFF0000);
    canvas.set(0, 0);
    canvas.set(2, 0);
    let row = &canvas.rows()[0];
    assert_eq!(row, "\x1B[38;2;255;0;0m\u{2801}\u{2801}\x1B[0m ");
    assert_eq!(row.matches("\x1B[38;2;").count(), 1);
}

#[test]
fn a_row_that_ends_in_colour_ends_with_a_reset() {
    let mut canvas = Canvas::new(0, 4);
    canvas.set_color(0x00FF00);
    canvas.set(0, 0);
    canvas.set_color(0x0000FF);
    canvas.set(2, 0);
    canvas.set(2, 4);
    assert_eq!(
        canvas.frame(),
        "\x1B[38;2;0;255;0m\u{2801}\x1B[0m\x1B[38;2;0;0;255m\u{2801}\x1B[0m\n \x1B[38;2;0;0;255m\u{2801}\x1B[0m"
    );
}

#[test]
fn colours_on_one_cell_are_averaged_by_draw() {
    let mut canvas = Canvas::new(0, 0);
    canvas.set_color(0xFF0000);
    canvas.set(0, 0);
    canvas.set_color(0x0000FF);
    canvas.set(1, 0);
    assert_eq!(canvas.frame(), "\x1B[38;2;127;0;127m\u{2809}\x1B[0m");
    canvas.set(1, 0);
    assert_eq!(canvas.frame(), "\x1B[38;2;85;0;170m\u{2809}\x1B[0m");
}

#[test]
fn a_char_takes_the_one_colour() {
    let mut canvas = Canvas::new(0, 0);
    canvas.set_color(0xFF0000);
    canvas.set(0, 0);
    canvas.set_color(0x0000FF);
    canvas.set_char(0, 0, 'c');
    assert_eq!(canvas.frame(), "\x1B[38;2;0;0;255mc\x1B[0m");
    canvas.reset_color();
    canvas.set_char(0, 0, 'd');
    assert_eq!(canvas.frame(), "d");
}

#[test]
fn the_top_byte_of_a_colour_is_ignored() {
    let mut canvas = Canvas::new(0, 0);
    canvas.set_color(0xAB0A6400);
    canvas.set_char(0, 0, 'c');
    assert_eq!(canvas.frame(), "\x1B[38;2;10;100;0mc\x1B[0m");
}

#[test]
fn clear_keeps_size_and_colour() {
    let mut canvas = Canvas::new(4, 8);
    canvas.set_color(0x010101);
    canvas.set(9, 13);
    assert_eq!(canvas.rows().len(), 4);
    canvas.clear();
    assert!(!canvas.get(9, 13));
    assert_eq!(canvas.rows(), vec!["   ".to_string(), "   ".to_string(), "   ".to_string()]);
    canvas.set(0, 0);
    assert_eq!(canvas.rows()[0], "\x1B[38;2;1;1;1m\u{2801}\x1B[0m  ");
}

#[test]
fn drawing_outside_makes_the_picture_larger() {
    let mut canvas = Canvas::new(2, 2);
    assert_eq!(canvas.rows(), vec!["  ".to_string()]);
    canvas.set(6, 9);
    assert_eq!(
        canvas.rows(),
        vec!["    ".to_string(), "    ".to_string(), "   \u{2802}".to_string()]
    );
}

#[test]
fn a_line_of_one_point_sets_it() {
    let mut canvas = Canvas::new(0, 0);
    canvas.line(3, 5, 3, 5);
    assert!(canvas.get(3, 5));
    let mut other = Canvas::new(0, 0);
    other.set(3, 5);
    assert_eq!(canvas, other);
}

#[test]
fn a_line_runs_backwards_too() {
    let mut canvas = Canvas::new(0, 0);
    canvas.line(6, 3, 0, 0);
    for (x, y) in [(6, 3), (5, 3), (4, 2), (3, 2), (2, 1), (1, 1), (0, 0)] {
        assert!(canvas.get(x, y), "({}, {})", x, y);
    }
    assert!(!canvas.get(5, 2));
    assert!(!canvas.get(3, 1));
    let mut count = 0;
    for y in 0..4 {
        for x in 0..8 {
            if canvas.get(x, y) {
                count += 1;
            }
        }
    }
    assert_eq!(count, 7);
}

#[test]
fn a_steep_line_steps_along_y() {
    let mut canvas = Canvas::new(0, 0);
    canvas.line(1, 0, 0, 5);
    for (x, y) in [(1, 0), (1, 1), (1, 2), (1, 3), (1, 4), (0, 5)] {
        assert!(canvas.get(x, y), "({}, {})", x, y);
    }
    assert!(!canvas.get(0, 4));
}

#[test]
fn a_line_far_out_does_not_overflow() {
    let mut canvas = Canvas::new(0, 0);
    canvas.line(4_000_000_000, 4_000_000_000, 4_000_070_000, 4_000_000_001);
    assert!(canvas.get(4_000_000_000, 4_000_000_000));
    assert!(canvas.get(4_000_070_000, 4_000_000_001));
    assert!(canvas.get(4_000_035_000, 4_000_000_000));
}

#[test]
fn cell_coordinates_keep_sixteen_bits() {
    let mut canvas = Canvas::new(0, 0);
    canvas.set(131072, 262144 + 1);
    assert!(canvas.get(0, 1));
    assert_eq!(canvas.frame(), "\u{2802}");
}

#[test]
fn clamp_moves_negative_positions_to_the_edge() {
    assert_eq!(clamp_coordinate(-1), 0);
    assert_eq!(clamp_coordinate(i32::MIN), 0);
    assert_eq!(clamp_coordinate(0), 0);
    assert_eq!(clamp_coordinate(17), 17);
    assert_eq!(clamp_coordinate(i32::MAX), 2147483647);
}

#[test]
fn a_clamped_line_starts_at_the_edge() {
    let mut canvas = Canvas::new(0, 0);
    canvas.line_clamped(-5, -2, 3, 0);
    let mut other = Canvas::new(0, 0);
    other.line(0, 0, 3, 0);
    assert_eq!(canvas, other);
    assert_eq!(canvas.frame(), "\u{2809}\u{2809}");
}

#[test]
fn the_least_size_can_be_changed() {
    let mut canvas = Canvas::new(0, 0);
    canvas.set_width(2);
    canvas.set_height(1);
    assert_eq!(canvas.rows(), vec!["   ".to_string(), "   ".to_string()]);
    assert_eq!(canvas, Canvas::new(4, 4));
}
