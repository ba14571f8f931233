use core::fmt::Write;
use t_os::vga_buffer::{
    change_color, default_color, reset_color, Color, ColorCode, ScreenChar, Writer, BUFFER_HEIGHT,
    BUFFER_WIDTH,
};

const GREEN: ColorCode = ColorCode(0x02);
const WHITE: ColorCode = ColorCode(0x0f);

fn row_bytes(writer: &Writer, row: usize) -> Vec<u8> {
    (0..BUFFER_WIDTH).map(|col| writer.char_at(row, col).ascii_character).collect()
}

fn row_text(writer: &Writer, row: usize) -> String {
    let bytes = row_bytes(writer, row);
    let text: String = bytes.iter().map(|b| *b as char).collect();
    text.trim_end().to_string()
}

#[test]
fn color_code_packs_background_high_foreground_low() {
    assert_eq!(ColorCode::new(Color::Green, Color::Black), ColorCode(0x02));
    assert_eq!(ColorCode::new(Color::White, Color::Black), ColorCode(0x0f));
    assert_eq!(ColorCode::new(Color::Yellow, Color::Blue), ColorCode(0x1e));
    assert_eq!(ColorCode::new(Color::Black, Color::White), ColorCode(0xf0));
    assert_eq!(ColorCode::new(Color::Pink, Color::LightGray), ColorCode(0x7d));
    assert_eq!(default_color(), WHITE);
}

#[test]
fn color_indices_follow_the_palette() {
    let palette = [
        Color::Black,
        Color::Blue,
        Color::Green,
        Color::Cyan,
        Color::Red,
        Color::Magenta,
        Color::Brown,
        Color::LightGray,
        Color::DarkGray,
        Color::LightBlue,
        Color::LightGreen,
        Color::LightCyan,
        Color::LightRed,
        Color::Pink,
        Color::Yellow,
        Color::White,
    ];
    for (i, color) in palette.iter().enumerate() {
        assert_eq!(color.index() as usize, i);
    }
}

#[test]
fn new_writer_is_blank() {
    let writer = Writer::new();
    assert_eq!(writer.column_position(), 0);
    assert_eq!(writer.color_code(), WHITE);
    for row in 0..BUFFER_HEIGHT {
        for col in 0..BUFFER_WIDTH {
            assert_eq!(
                writer.char_at(row, col),
                ScreenChar { ascii_character: b' ', color_code: WHITE }
            );
        }
    }
}

#[test]
fn bytes_go_to_the_bottom_row() {
    let mut writer = Writer::new();
    writer.write_byte(b'H');
    writer.write_byte(b'i');
    assert_eq!(writer.column_position(), 2);
    assert_eq!(writer.char_at(24, 0), ScreenChar { ascii_character: b'H', color_code: WHITE });
    assert_eq!(writer.char_at(24, 1), ScreenChar { ascii_character: b'i', color_code: WHITE });
    assert_eq!(writer.char_at(24, 2), ScreenChar { ascii_character: b' ', color_code: WHITE });
    assert_eq!(row_text(&writer, 23), "");
}

#[test]
fn test_println_simple() {
    let mut writer = Writer::new();
    writer.write_string("test_println_simple output\n");
    assert_eq!(row_text(&writer, BUFFER_HEIGHT - 2), "test_println_simple output");
    assert_eq!(writer.column_position(), 0);
}

#[test]
fn test_println_many() {
    let mut writer = Writer::new();
    for _ in 0..200 {
        writer.write_string("test_println_many output\n");
    }
    // Every line stands as typed, in white, with its green copy right below.
    for row in 0..BUFFER_HEIGHT - 1 {
        assert_eq!(row_text(&writer, row), "test_println_many output");
        let color = if row % 2 == 0 { WHITE } else { GREEN };
        assert_eq!(writer.char_at(row, 0).color_code, color);
    }
    assert_eq!(row_text(&writer, BUFFER_HEIGHT - 1), "");
    assert_eq!(writer.column_position(), 0);
}

#[test]
fn test_println_output() {
    let s = "Some test string that fits on a single line";
    let mut writer = Writer::new();
    writer.write_str("\n").expect("write_str failed");
    writer.write_str(s).expect("write_str failed");
    writer.write_str("\n").expect("write_str failed");
    for (i, c) in s.chars().enumerate() {
        let screen_char = writer.char_at(BUFFER_HEIGHT - 2, i);
        assert_eq!(char::from(screen_char.ascii_character), c);
    }
}

#[test]
fn entered_line_is_shown_again_in_green() {
    let mut writer = Writer::new();
    writer.write_string("ok");
    writer.write_byte(b'\n');
    assert_eq!(writer.char_at(23, 0), ScreenChar { ascii_character: b'o', color_code: GREEN });
    assert_eq!(writer.char_at(23, 1), ScreenChar { ascii_character: b'k', color_code: GREEN });
    // The cell under the cursor is part of the entered line.
    assert_eq!(writer.char_at(23, 2), ScreenChar { ascii_character: b' ', color_code: GREEN });
    assert_eq!(writer.char_at(23, 3), ScreenChar { ascii_character: b' ', color_code: WHITE });
    for col in 0..BUFFER_WIDTH {
        assert_eq!(writer.char_at(24, col), ScreenChar { ascii_character: b' ', color_code: WHITE });
    }
    assert_eq!(writer.column_position(), 0);
    assert_eq!(writer.color_code(), WHITE);
}

#[test]
fn entering_a_line_moves_the_screen_up_by_two_rows() {
    let mut writer = Writer::new();
    writer.write_string("one\n");
    writer.write_string("two\n");
    writer.write_string("three");
    assert_eq!(row_text(&writer, 24), "three");
    assert_eq!(row_text(&writer, 23), "two");
    assert_eq!(writer.char_at(23, 0).color_code, GREEN);
    assert_eq!(row_text(&writer, 22), "two");
    assert_eq!(writer.char_at(22, 0).color_code, WHITE);
    assert_eq!(row_text(&writer, 21), "one");
    assert_eq!(writer.char_at(21, 0).color_code, GREEN);
    assert_eq!(row_text(&writer, 20), "one");
    assert_eq!(writer.char_at(20, 0).color_code, WHITE);
    assert_eq!(row_text(&writer, 19), "");
}

#[test]
fn a_full_row_is_entered_before_the_next_byte() {
    let mut writer = Writer::new();
    for _ in 0..BUFFER_WIDTH {
        writer.write_byte(b'a');
    }
    assert_eq!(writer.column_position(), BUFFER_WIDTH);
    assert_eq!(row_bytes(&writer, 24), vec![b'a'; BUFFER_WIDTH]);
    writer.write_byte(b'z');
    assert_eq!(writer.column_position(), 1);
    assert_eq!(writer.char_at(24, 0), ScreenChar { ascii_character: b'z', color_code: WHITE });
    assert_eq!(writer.char_at(24, 1), ScreenChar { ascii_character: b' ', color_code: WHITE });
    for col in 0..BUFFER_WIDTH {
        assert_eq!(writer.char_at(23, col), ScreenChar { ascii_character: b'a', color_code: GREEN });
    }
}

#[test]
fn line_feed_on_a_full_row_enters_the_whole_row() {
    let mut writer = Writer::new();
    for i in 0..BUFFER_WIDTH {
        writer.write_byte(b'0' + (i % 10) as u8);
    }
    writer.write_byte(b'\n');
    assert_eq!(writer.column_position(), 0);
    for col in 0..BUFFER_WIDTH {
        assert_eq!(
            writer.char_at(23, col),
            ScreenChar { ascii_character: b'0' + (col % 10) as u8, color_code: GREEN }
        );
    }
    assert_eq!(row_text(&writer, 24), "");
}

#[test]
fn backspace_blanks_the_cell_before_the_cursor() {
    let mut writer = Writer::new();
    writer.write_string("ab");
    writer.write_byte(0x08);
    assert_eq!(writer.column_position(), 1);
    assert_eq!(writer.char_at(24, 0).ascii_character, b'a');
    assert_eq!(writer.char_at(24, 1), ScreenChar { ascii_character: b' ', color_code: WHITE });
    writer.write_byte(0x08);
    assert_eq!(writer.column_position(), 0);
    assert_eq!(row_text(&writer, 24), "");
}

#[test]
fn backspace_at_the_left_edge_brings_the_last_line_back() {
    let mut writer = Writer::new();
    writer.write_string("top\n");
    writer.write_string("hello\n");
    assert_eq!(row_text(&writer, 23), "hello");
    writer.write_byte(0x08);
    assert_eq!(row_text(&writer, 24), "hello");
    assert_eq!(writer.char_at(24, 0), ScreenChar { ascii_character: b'h', color_code: GREEN });
    assert_eq!(writer.column_position(), 5);
    assert_eq!(row_text(&writer, 23), "hello");
    assert_eq!(writer.char_at(23, 0).color_code, WHITE);
    assert_eq!(row_text(&writer, 22), "top");
    assert_eq!(row_text(&writer, 21), "top");
    assert_eq!(row_text(&writer, 20), "");
    // The next backspace rubs out the last letter.
    writer.write_byte(0x08);
    assert_eq!(row_text(&writer, 24), "hell");
    assert_eq!(writer.column_position(), 4);
}

#[test]
fn backspace_on_a_blank_screen_stays_at_the_left_edge() {
    let mut writer = Writer::new();
    writer.write_byte(0x08);
    assert_eq!(writer.column_position(), 0);
    for row in 0..BUFFER_HEIGHT {
        assert_eq!(row_text(&writer, row), "");
    }
}

#[test]
fn cursor_goes_after_the_last_visible_character() {
    let mut writer = Writer::new();
    writer.write_string("a b  \n");
    writer.write_byte(0x08);
    // Trailing spaces do not count, the space inside the text does.
    assert_eq!(writer.column_position(), 3);
    let mut writer = Writer::new();
    for _ in 0..BUFFER_WIDTH {
        writer.write_byte(b'x');
    }
    writer.write_byte(b'\n');
    writer.write_byte(0x08);
    assert_eq!(writer.column_position(), BUFFER_WIDTH);
}

#[test]
fn shift_out_shows_as_letter_b() {
    let mut writer = Writer::new();
    writer.write_byte(0x0e);
    assert_eq!(writer.column_position(), 1);
    assert_eq!(writer.char_at(24, 0), ScreenChar { ascii_character: b'b', color_code: WHITE });
}

#[test]
fn high_bytes_are_shown_again_as_two_bytes() {
    let mut writer = Writer::new();
    writer.write_byte(0xe9);
    writer.write_byte(0x80);
    writer.write_byte(0xff);
    writer.write_byte(b'\n');
    let expected: Vec<u8> = "\u{e9}\u{80}\u{ff} ".bytes().collect();
    assert_eq!(expected, vec![0xc3, 0xa9, 0xc2, 0x80, 0xc3, 0xbf, 0x20]);
    for (col, byte) in expected.iter().enumerate() {
        assert_eq!(writer.char_at(23, col), ScreenChar { ascii_character: *byte, color_code: GREEN });
    }
    assert_eq!(writer.char_at(23, 7), ScreenChar { ascii_character: b' ', color_code: WHITE });
}

#[test]
fn shown_again_text_is_cut_at_the_row_width() {
    let mut writer = Writer::new();
    for _ in 0..50 {
        writer.write_byte(0xe9);
    }
    writer.write_byte(b'\n');
    for col in 0..BUFFER_WIDTH {
        let byte = if col % 2 == 0 { 0xc3 } else { 0xa9 };
        assert_eq!(writer.char_at(23, col), ScreenChar { ascii_character: byte, color_code: GREEN });
    }
    assert_eq!(row_text(&writer, 24), "");
    assert_eq!(writer.column_position(), 0);
}

#[test]
fn write_string_takes_multi_byte_characters_byte_by_byte() {
    let mut writer = Writer::new();
    writer.write_string("\u{e9}");
    assert_eq!(writer.column_position(), 2);
    assert_eq!(writer.char_at(24, 0).ascii_character, 0xc3);
    assert_eq!(writer.char_at(24, 1).ascii_character, 0xa9);
}

#[test]
fn change_color_holds_until_the_line_is_entered() {
    let mut writer = Writer::new();
    let yellow_on_blue = ColorCode::new(Color::Yellow, Color::Blue);
    change_color(&mut writer, yellow_on_blue);
    assert_eq!(writer.color_code(), yellow_on_blue);
    writer.write_string("hi");
    assert_eq!(writer.char_at(24, 0), ScreenChar { ascii_character: b'h', color_code: yellow_on_blue });
    writer.write_byte(b'\n');
    assert_eq!(writer.color_code(), WHITE);
    assert_eq!(writer.char_at(23, 0), ScreenChar { ascii_character: b'h', color_code: GREEN });
    // The rest of the row was cleared while the chosen colour was current.
    assert_eq!(writer.char_at(23, 3), ScreenChar { ascii_character: b' ', color_code: yellow_on_blue });
    assert_eq!(writer.char_at(24, 0), ScreenChar { ascii_character: b' ', color_code: WHITE });
}

#[test]
fn reset_color_returns_to_white_on_black() {
    let mut writer = Writer::new();
    change_color(&mut writer, ColorCode::new(Color::Green, Color::Black));
    writer.write_string("OS Loaded Successfully !");
    reset_color(&mut writer);
    assert_eq!(writer.color_code(), WHITE);
    assert_eq!(writer.char_at(24, 0), ScreenChar { ascii_character: b'O', color_code: GREEN });
    writer.write_byte(b'x');
    assert_eq!(writer.char_at(24, 24), ScreenChar { ascii_character: b'x', color_code: WHITE });
}

#[test]
fn write_str_never_fails() {
    let mut writer = Writer::new();
    assert!(writer.write_str("").is_ok());
    assert!(writer.write_str("\u{8}\u{8}\n\n").is_ok());
    let long = "x".repeat(1000);
    assert!(writer.write_str(&long).is_ok());
    assert_eq!(writer.column_position(), 1000 % BUFFER_WIDTH);
}
