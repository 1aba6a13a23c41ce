use vga_console::{Buffer, Color, ColorCode, ScreenChar, Writer, BUFFER_HEIGHT, BUFFER_WIDTH, PLACEHOLDER};

const PALETTE: [Color; 16] = [
    Color::Black,
    Color::Blue,
    Color::Green,
    Color::Cyan,
    Color::Red,
    Color::Magenta,
    Color::Brown,
    Color::LightGray,
    Color::DarkGray,
    Color::LightBlue,
    Color::LightGreen,
    Color::LightCyan,
    Color::LightRed,
    Color::Pink,
    Color::Yellow,
    Color::White,
];

fn blank_in(color: ColorCode) -> ScreenChar {
    ScreenChar { ascii_character: b' ', color_code: color }
}

fn fresh_writer(color: ColorCode) -> Writer {
    let buffer: &'static mut Buffer = Box::leak(Box::new(Buffer::new(blank_in(color))));
    Writer::new(color, buffer)
}

fn yellow_on_black() -> ColorCode {
    ColorCode::new(Color::Yellow, Color::Black)
}

fn row_text(w: &Writer, row: usize) -> Vec<u8> {
    (0..BUFFER_WIDTH).map(|c| w.read_char(row, c).ascii_character).collect()
}

fn same_grid(a: &Writer, b: &Writer) -> bool {
    (0..BUFFER_HEIGHT).all(|r| (0..BUFFER_WIDTH).all(|c| a.read_char(r, c) == b.read_char(r, c)))
}

#[test]
fn color_codes_are_palette_positions() {
    for (i, c) in PALETTE.iter().enumerate() {
        assert_eq!(c.code() as usize, i);
    }
}

#[test]
fn color_code_packs_foreground_low_background_high() {
    assert_eq!(yellow_on_black().0, 0x0e);
    assert_eq!(ColorCode::new(Color::White, Color::Blue).0, 0x1f);
    for f in PALETTE.iter() {
        for b in PALETTE.iter() {
            let packed = ColorCode::new(*f, *b).0;
            assert_eq!(packed & 0x0f, f.code());
            assert_eq!(packed >> 4, b.code());
        }
    }
}

#[test]
fn new_buffer_holds_fill_everywhere() {
    let fill = ScreenChar { ascii_character: b'#', color_code: ColorCode(0x42) };
    let buffer = Buffer::new(fill);
    for r in 0..BUFFER_HEIGHT {
        for c in 0..BUFFER_WIDTH {
            assert_eq!(buffer.read_char(r, c), fill);
        }
    }
}

#[test]
fn buffer_write_char_changes_one_cell() {
    let mut buffer = Buffer::new(blank_in(ColorCode(0x07)));
    let ch = ScreenChar { ascii_character: b'Z', color_code: ColorCode(0x4e) };
    buffer.write_char(3, 17, ch);
    assert_eq!(buffer.read_char(3, 17), ch);
    assert_eq!(buffer.read_char(3, 16), blank_in(ColorCode(0x07)));
    assert_eq!(buffer.read_char(2, 17), blank_in(ColorCode(0x07)));
}

#[test]
fn new_writer_starts_at_column_zero() {
    let w = fresh_writer(yellow_on_black());
    assert_eq!(w.column_position(), 0);
    assert_eq!(w.color_code(), yellow_on_black());
}

#[test]
fn write_byte_places_glyph_on_bottom_row() {
    let mut w = fresh_writer(yellow_on_black());
    w.write_byte(b'A');
    assert_eq!(w.column_position(), 1);
    assert_eq!(
        w.read_char(BUFFER_HEIGHT - 1, 0),
        ScreenChar { ascii_character: b'A', color_code: yellow_on_black() }
    );
    assert_eq!(w.read_char(BUFFER_HEIGHT - 1, 1), blank_in(yellow_on_black()));
    assert_eq!(w.read_char(BUFFER_HEIGHT - 2, 0), blank_in(yellow_on_black()));
}

#[test]
fn write_string_passes_printable_bytes_and_newline_unchanged() {
    let mut bytes: Vec<u8> = (0x20u8..=0x7e).collect();
    bytes.push(b'\n');
    for b in bytes {
        let mut direct = fresh_writer(yellow_on_black());
        let mut through = fresh_writer(yellow_on_black());
        direct.write_string("ab");
        through.write_string("ab");
        direct.write_byte(b);
        let s = String::from_utf8(vec![b]).unwrap();
        through.write_string(&s);
        assert_eq!(direct.column_position(), through.column_position());
        assert!(same_grid(&direct, &through));
    }
}

#[test]
fn write_string_replaces_unprintable_bytes() {
    let mut w = fresh_writer(yellow_on_black());
    w.write_string("\t");
    assert_eq!(w.column_position(), 1);
    assert_eq!(w.read_char(BUFFER_HEIGHT - 1, 0).ascii_character, PLACEHOLDER);
    assert_eq!(PLACEHOLDER, 0xfe);
    for b in [0x00u8, 0x07, 0x0d, 0x1f, 0x7f] {
        let mut w = fresh_writer(yellow_on_black());
        w.write_string("xy");
        let s = String::from_utf8(vec![b]).unwrap();
        w.write_string(&s);
        let cell = w.read_char(BUFFER_HEIGHT - 1, 2);
        assert_eq!(cell, ScreenChar { ascii_character: 0xfe, color_code: yellow_on_black() });
        assert_ne!(cell.ascii_character, b);
        assert_eq!(w.column_position(), 3);
    }
}

#[test]
fn write_string_replaces_each_byte_of_a_multibyte_char() {
    let mut w = fresh_writer(yellow_on_black());
    w.write_string("a\u{e9}b");
    assert_eq!(w.column_position(), 4);
    let row = row_text(&w, BUFFER_HEIGHT - 1);
    assert_eq!(&row[..4], &[b'a', 0xfe, 0xfe, b'b']);
}

#[test]
fn write_string_empty_changes_nothing() {
    let mut w = fresh_writer(yellow_on_black());
    let other = fresh_writer(yellow_on_black());
    w.write_string("");
    assert_eq!(w.column_position(), 0);
    assert!(same_grid(&w, &other));
}

#[test]
fn column_counts_bytes_modulo_width() {
    let mut w = fresh_writer(yellow_on_black());
    let text: Vec<u8> = (0..170u32).map(|i| b'a' + (i % 26) as u8).collect();
    for b in text.iter() {
        w.write_byte(*b);
    }
    assert_eq!(w.column_position(), 170 % 80);
    // two line advances: the first two lines have moved up by one row each time
    assert_eq!(row_text(&w, BUFFER_HEIGHT - 3), text[0..80].to_vec());
    assert_eq!(row_text(&w, BUFFER_HEIGHT - 2), text[80..160].to_vec());
    let mut last = text[160..170].to_vec();
    last.extend(std::iter::repeat(b' ').take(70));
    assert_eq!(row_text(&w, BUFFER_HEIGHT - 1), last);
    assert_eq!(row_text(&w, BUFFER_HEIGHT - 4), vec![b' '; 80]);
}

#[test]
fn newline_resets_column_from_any_position() {
    for n in [0usize, 1, 5, 79, 80] {
        let mut w = fresh_writer(yellow_on_black());
        for _ in 0..n {
            w.write_byte(b'q');
        }
        w.write_byte(b'\n');
        assert_eq!(w.column_position(), 0);
        assert_eq!(row_text(&w, BUFFER_HEIGHT - 1), vec![b' '; 80]);
    }
}

#[test]
fn line_advance_moves_rows_up_and_blanks_bottom_in_current_color() {
    let mut w = fresh_writer(ColorCode::new(Color::White, Color::Blue));
    for r in 0..BUFFER_HEIGHT {
        if r > 0 {
            w.write_byte(b'\n');
        }
        let line = format!("row {:02} {}", r, "*".repeat(r));
        w.write_string(&line);
    }
    let before: Vec<Vec<ScreenChar>> = (0..BUFFER_HEIGHT)
        .map(|r| (0..BUFFER_WIDTH).map(|c| w.read_char(r, c)).collect())
        .collect();
    assert_eq!(&row_text(&w, BUFFER_HEIGHT - 1)[..6], b"row 24");
    w.write_byte(b'\n');
    for r in 0..BUFFER_HEIGHT - 1 {
        for c in 0..BUFFER_WIDTH {
            assert_eq!(w.read_char(r, c), before[r + 1][c]);
        }
    }
    for c in 0..BUFFER_WIDTH {
        assert_eq!(
            w.read_char(BUFFER_HEIGHT - 1, c),
            blank_in(ColorCode::new(Color::White, Color::Blue))
        );
    }
    assert_eq!(w.column_position(), 0);
}

#[test]
fn line_advance_keeps_colors_of_moved_rows() {
    let red = ColorCode::new(Color::Red, Color::Black);
    let buffer: &'static mut Buffer = Box::leak(Box::new(Buffer::new(blank_in(red))));
    let mut w = Writer::new(yellow_on_black(), buffer);
    w.write_byte(b'k');
    w.write_byte(b'\n');
    assert_eq!(
        w.read_char(BUFFER_HEIGHT - 2, 0),
        ScreenChar { ascii_character: b'k', color_code: yellow_on_black() }
    );
    assert_eq!(w.read_char(BUFFER_HEIGHT - 2, 1), blank_in(red));
    assert_eq!(w.read_char(BUFFER_HEIGHT - 1, 1), blank_in(yellow_on_black()));
}

#[test]
fn greeting_with_formatted_numbers() {
    let mut w = fresh_writer(yellow_on_black());
    w.write_byte(b'H');
    w.write_string("ello! ");
    let formatted = format!("The numbers are {} and {}", 42, 1.0 / 3.0);
    w.write_string(&formatted);
    let expected = format!("Hello! The numbers are 42 and {}", 1.0 / 3.0);
    assert!(expected.starts_with("Hello! The numbers are 42 and 0"));
    let row: Vec<ScreenChar> = (0..BUFFER_WIDTH).map(|c| w.read_char(BUFFER_HEIGHT - 1, c)).collect();
    for (i, b) in expected.bytes().enumerate() {
        assert_eq!(row[i], ScreenChar { ascii_character: b, color_code: yellow_on_black() });
    }
    for cell in row[expected.len()..].iter() {
        assert_eq!(*cell, blank_in(yellow_on_black()));
    }
    assert_eq!(w.column_position(), expected.len() % 80);
    assert_eq!(w.column_position(), 48);
}

#[test]
fn eighty_bytes_fill_row_without_advance() {
    let mut w = fresh_writer(yellow_on_black());
    w.write_string("above");
    w.write_byte(b'\n');
    let text: Vec<u8> = (0..80u32).map(|i| b'0' + (i % 10) as u8).collect();
    let s = String::from_utf8(text.clone()).unwrap();
    w.write_string(&s);
    assert_eq!(w.column_position(), 80);
    assert_eq!(row_text(&w, BUFFER_HEIGHT - 1), text);
    assert_eq!(&row_text(&w, BUFFER_HEIGHT - 2)[..5], b"above");
    w.write_byte(b'!');
    assert_eq!(w.column_position(), 1);
    assert_eq!(row_text(&w, BUFFER_HEIGHT - 2), text);
    assert_eq!(w.read_char(BUFFER_HEIGHT - 1, 0).ascii_character, b'!');
    assert_eq!(&row_text(&w, BUFFER_HEIGHT - 3)[..5], b"above");
}
