use vga_text::{
    _print, Color, ColorCode, ScreenChar, Writer, BLANK_BYTE, BUFFER_HEIGHT, BUFFER_WIDTH,
    PLACEHOLDER,
};

fn yellow_on_black() -> ColorCode {
    ColorCode::new(Color::Yellow, Color::Black)
}

fn row_text(w: &Writer, row: usize) -> Vec<u8> {
    let mut out = Vec::new();
    for col in 0..BUFFER_WIDTH {
        out.push(w.read(row, col).byte);
    }
    while out.last() == Some(&BLANK_BYTE) {
        out.pop();
    }
    out
}

#[test]
fn println_single_line() {
    let mut w = Writer::new(yellow_on_black());
    let s = "single line";
    _print(&mut w, s, true);
    for (i, c) in s.chars().enumerate() {
        assert_eq!(w.read(BUFFER_HEIGHT - 2, i).byte, c as u8);
    }
}

#[test]
fn println_multi_line() {
    let mut w = Writer::new(yellow_on_black());
    let f = "first line";
    let s = "second line";
    _print(&mut w, f, true);
    _print(&mut w, s, true);
    for (i, c) in f.chars().enumerate() {
        assert_eq!(w.read(BUFFER_HEIGHT - 3, i).byte, c as u8);
    }
    for (i, c) in s.chars().enumerate() {
        assert_eq!(w.read(BUFFER_HEIGHT - 2, i).byte, c as u8);
    }
}

#[test]
fn print_without_newline_stays_on_bottom_row() {
    let mut w = Writer::new(yellow_on_black());
    let s = "single line";
    _print(&mut w, s, false);
    for (i, c) in s.chars().enumerate() {
        assert_eq!(w.read(BUFFER_HEIGHT - 1, i).byte, c as u8);
    }
    assert_eq!(w.column_position(), s.len());
    assert_eq!(row_text(&w, BUFFER_HEIGHT - 2), Vec::<u8>::new());
}

#[test]
fn placement_pairs_each_byte_with_the_attribute() {
    let color = ColorCode::new(Color::White, Color::Blue);
    let mut w = Writer::new(color);
    w.write_string("Hello World");
    for (i, b) in "Hello World".bytes().enumerate() {
        assert_eq!(w.read(BUFFER_HEIGHT - 1, i), ScreenChar { byte: b, color_code: color });
    }
    for col in 11..BUFFER_WIDTH {
        assert_eq!(w.read(BUFFER_HEIGHT - 1, col), ScreenChar { byte: BLANK_BYTE, color_code: color });
    }
}

#[test]
fn control_byte_shows_placeholder() {
    let mut w = Writer::new(yellow_on_black());
    w.write_string("a\u{1}b");
    assert_eq!(w.read(BUFFER_HEIGHT - 1, 0).byte, b'a');
    assert_eq!(w.read(BUFFER_HEIGHT - 1, 1).byte, PLACEHOLDER);
    assert_eq!(w.read(BUFFER_HEIGHT - 1, 2).byte, b'b');
    assert_eq!(w.column_position(), 3);
}

#[test]
fn tab_and_delete_show_placeholder() {
    let mut w = Writer::new(yellow_on_black());
    w.write_string("\t\u{7f}~ ");
    assert_eq!(w.read(BUFFER_HEIGHT - 1, 0).byte, PLACEHOLDER);
    assert_eq!(w.read(BUFFER_HEIGHT - 1, 1).byte, PLACEHOLDER);
    assert_eq!(w.read(BUFFER_HEIGHT - 1, 2).byte, b'~');
    assert_eq!(w.read(BUFFER_HEIGHT - 1, 3).byte, b' ');
}

#[test]
fn non_ascii_character_shows_one_placeholder_per_byte() {
    let mut w = Writer::new(yellow_on_black());
    w.write_string("\u{e9}");
    assert_eq!(w.read(BUFFER_HEIGHT - 1, 0).byte, PLACEHOLDER);
    assert_eq!(w.read(BUFFER_HEIGHT - 1, 1).byte, PLACEHOLDER);
    assert_eq!(w.column_position(), 2);
}

#[test]
fn write_byte_places_the_byte_as_given() {
    let mut w = Writer::new(yellow_on_black());
    w.write_byte(0x01);
    assert_eq!(w.read(BUFFER_HEIGHT - 1, 0).byte, 0x01);
    assert_eq!(w.column_position(), 1);
}

#[test]
fn long_text_wraps_onto_new_rows() {
    let mut w = Writer::new(yellow_on_black());
    let text = "a".repeat(2 * BUFFER_WIDTH + 40);
    w.write_string(&text);
    assert!(w.column_position() <= BUFFER_WIDTH);
    assert_eq!(w.column_position(), 40);
    assert_eq!(row_text(&w, BUFFER_HEIGHT - 3), vec![b'a'; BUFFER_WIDTH]);
    assert_eq!(row_text(&w, BUFFER_HEIGHT - 2), vec![b'a'; BUFFER_WIDTH]);
    assert_eq!(row_text(&w, BUFFER_HEIGHT - 1), vec![b'a'; 40]);
    assert_eq!(row_text(&w, BUFFER_HEIGHT - 4), Vec::<u8>::new());
}

#[test]
fn full_row_waits_for_the_next_glyph_to_wrap() {
    let mut w = Writer::new(yellow_on_black());
    let text = "b".repeat(BUFFER_WIDTH);
    w.write_string(&text);
    assert_eq!(w.column_position(), BUFFER_WIDTH);
    assert_eq!(row_text(&w, BUFFER_HEIGHT - 1), vec![b'b'; BUFFER_WIDTH]);
    w.write_string("\nc");
    assert_eq!(row_text(&w, BUFFER_HEIGHT - 2), vec![b'b'; BUFFER_WIDTH]);
    assert_eq!(row_text(&w, BUFFER_HEIGHT - 1), vec![b'c']);
    assert_eq!(row_text(&w, BUFFER_HEIGHT - 3), Vec::<u8>::new());
}

#[test]
fn only_the_latest_lines_remain_visible() {
    let mut w = Writer::new(yellow_on_black());
    let n = BUFFER_HEIGHT + 5;
    for k in 0..n {
        _print(&mut w, &format!("line {}", k), true);
    }
    _print(&mut w, "tail", false);
    for r in 0..BUFFER_HEIGHT - 1 {
        let k = n - (BUFFER_HEIGHT - 1) + r;
        assert_eq!(row_text(&w, r), format!("line {}", k).into_bytes());
    }
    assert_eq!(row_text(&w, BUFFER_HEIGHT - 1), b"tail".to_vec());
}

#[test]
fn new_line_blanks_the_bottom_row() {
    let color = ColorCode::new(Color::LightGreen, Color::Red);
    let mut w = Writer::new(color);
    w.write_string("stale text on the bottom row");
    w.new_line();
    assert_eq!(w.column_position(), 0);
    for col in 0..BUFFER_WIDTH {
        assert_eq!(w.read(BUFFER_HEIGHT - 1, col), ScreenChar { byte: BLANK_BYTE, color_code: color });
    }
    assert_eq!(row_text(&w, BUFFER_HEIGHT - 2), b"stale text on the bottom row".to_vec());
}

#[test]
fn new_line_moves_every_row_up() {
    let color = yellow_on_black();
    let mut w = Writer::new(color);
    let marker = ScreenChar { byte: b'x', color_code: ColorCode::new(Color::Pink, Color::Cyan) };
    w.write(0, 5, marker);
    w.write(10, 79, marker);
    w.new_line();
    assert_eq!(w.read(0, 5).byte, BLANK_BYTE);
    assert_eq!(w.read(9, 79), marker);
    assert_eq!(w.read(10, 79).byte, BLANK_BYTE);
}

#[test]
fn write_then_read_returns_the_cell() {
    let mut w = Writer::new(yellow_on_black());
    let c = ScreenChar { byte: b'Q', color_code: ColorCode::new(Color::Green, Color::Brown) };
    w.write(3, 7, c);
    assert_eq!(w.read(3, 7), c);
    assert_eq!(w.read(3, 8).byte, BLANK_BYTE);
    assert_eq!(w.column_position(), 0);
}

#[test]
fn new_writer_is_blank() {
    let color = yellow_on_black();
    let w = Writer::new(color);
    assert_eq!(w.color_code(), color);
    assert_eq!(w.column_position(), 0);
    for r in 0..BUFFER_HEIGHT {
        for c in 0..BUFFER_WIDTH {
            assert_eq!(w.read(r, c), ScreenChar { byte: BLANK_BYTE, color_code: color });
        }
    }
}

#[test]
fn color_code_packs_background_high() {
    assert_eq!(ColorCode::new(Color::Yellow, Color::Black).0, 0x0e);
    assert_eq!(ColorCode::new(Color::White, Color::Blue).0, 0x1f);
    assert_eq!(ColorCode::new(Color::Black, Color::White).0, 0xf0);
    assert_eq!(ColorCode::new(Color::LightCyan, Color::LightCyan).0, 0xbb);
}

#[test]
fn color_indices_follow_the_palette() {
    assert_eq!(Color::Black.index(), 0);
    assert_eq!(Color::LightGray.index(), 7);
    assert_eq!(Color::DarkGray.index(), 8);
    assert_eq!(Color::White.index(), 15);
}

#[test]
fn empty_text_changes_nothing() {
    let mut w = Writer::new(yellow_on_black());
    w.write_string("ab");
    _print(&mut w, "", false);
    assert_eq!(w.column_position(), 2);
    assert_eq!(row_text(&w, BUFFER_HEIGHT - 1), b"ab".to_vec());
}
