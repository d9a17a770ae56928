use marcel_os::vga_buffer::{Color, ColorCode, ScreenChar, Writer, BUFFER_HEIGHT, BUFFER_WIDTH};

fn writer() -> Writer {
    Writer::new(ColorCode::new(Color::White, Color::Black))
}

fn row_text(w: &Writer, row: usize) -> Vec<u8> {
    (0..BUFFER_WIDTH).map(|c| w.cell(row, c).ascii_character).collect()
}

fn padded(s: &str) -> Vec<u8> {
    let mut v = s.as_bytes().to_vec();
    v.resize(BUFFER_WIDTH, b' ');
    v
}

#[test]
fn color_code_packs_nibbles() {
    assert_eq!(ColorCode::new(Color::White, Color::Black), ColorCode(0x0f));
    assert_eq!(ColorCode::new(Color::Yellow, Color::Blue), ColorCode(0x1e));
    assert_eq!(Color::Pink.as_u8(), 13);
}

#[test]
fn write_byte_places_and_advances() {
    let mut w = writer();
    w.write_byte(b'A');
    assert_eq!(w.cell(0, 0), ScreenChar { ascii_character: b'A', color_code: ColorCode(0x0f) });
    assert_eq!(w.cursor_position(), (0, 1));
    w.write_byte(b'\n');
    assert_eq!(w.cursor_position(), (1, 0));
}

#[test]
fn write_string_replaces_non_printables() {
    let mut w = writer();
    w.write_string("a\tb\u{e9}");
    let expected = [b'a', 0xfe, b'b', 0xfe, 0xfe];
    for (i, b) in expected.iter().enumerate() {
        assert_eq!(w.cell(0, i).ascii_character, *b);
    }
    assert_eq!(w.cursor_position(), (0, 5));
}

#[test]
fn write_string_lands_on_cursor_line() {
    let mut w = writer();
    w.write_string("\n");
    w.write_string("Some test string that fits on a single line");
    assert_eq!(row_text(&w, 1), padded("Some test string that fits on a single line"));
}

#[test]
fn clear_screen_is_idempotent() {
    let mut w = writer();
    w.write_string("hello\nworld");
    w.clear_screen();
    assert_eq!(w.cursor_position(), (0, 0));
    for r in 0..BUFFER_HEIGHT {
        for c in 0..BUFFER_WIDTH {
            assert_eq!(w.cell(r, c), ScreenChar { ascii_character: b' ', color_code: ColorCode(0x0f) });
        }
    }
    w.clear_screen();
    assert_eq!(w.cursor_position(), (0, 0));
    assert_eq!(row_text(&w, 0), padded(""));
}

#[test]
fn newline_at_bottom_scrolls_twice() {
    let mut w = writer();
    for i in 0..BUFFER_HEIGHT {
        w.write_string(&format!("line {}", i));
        if i + 1 < BUFFER_HEIGHT {
            w.write_byte(b'\n');
        }
    }
    w.write_byte(b'\n');
    assert_eq!(w.cursor_position(), (24, 0));
    let before: Vec<Vec<u8>> = (0..BUFFER_HEIGHT).map(|r| row_text(&w, r)).collect();
    assert_eq!(before[23], padded("line 24"));
    assert_eq!(before[24], padded(""));
    w.write_byte(b'\n');
    assert_eq!(w.cursor_position(), (24, 0));
    for r in 0..BUFFER_HEIGHT - 1 {
        assert_eq!(row_text(&w, r), before[r + 1]);
    }
    assert_eq!(row_text(&w, 24), padded(""));
    w.write_byte(b'\n');
    assert_eq!(w.cursor_position(), (24, 0));
    assert_eq!(row_text(&w, 21), padded("line 24"));
}

#[test]
fn full_line_wraps_before_next_byte() {
    let mut w = writer();
    for _ in 0..79 {
        w.write_byte(b'x');
    }
    assert_eq!(w.cursor_position(), (0, 79));
    w.write_byte(b'y');
    assert_eq!(w.cursor_position(), (0, 80));
    assert_eq!(w.cell(0, 79).ascii_character, b'y');
    w.write_byte(b'z');
    assert_eq!(w.cursor_position(), (1, 1));
    assert_eq!(w.cell(1, 0).ascii_character, b'z');
}

#[test]
fn wrap_on_last_row_scrolls() {
    let mut w = writer();
    for _ in 0..24 {
        w.write_byte(b'\n');
    }
    for _ in 0..80 {
        w.write_byte(b'q');
    }
    w.write_byte(b'r');
    assert_eq!(w.cursor_position(), (24, 1));
    assert_eq!(w.cell(23, 79).ascii_character, b'q');
    assert_eq!(w.cell(24, 0).ascii_character, b'r');
}

#[test]
fn move_cursor_back_stops_at_column_zero() {
    let mut w = writer();
    w.write_string("ab");
    w.move_cursor_back();
    assert_eq!(w.cursor_position(), (0, 1));
    w.move_cursor_back();
    w.move_cursor_back();
    assert_eq!(w.cursor_position(), (0, 0));
}

#[test]
fn cursor_offset_and_bytes() {
    let mut w = writer();
    for _ in 0..24 {
        w.write_byte(b'\n');
    }
    w.write_string("abc");
    assert_eq!(w.cursor_offset(), 24 * 80 + 3);
    assert_eq!(w.cursor_bytes(), (((24 * 80 + 3) % 256) as u8, ((24 * 80 + 3) / 256) as u8));
}

#[test]
fn test_println_simple() {
    let mut w = writer();
    w.write_string("test_println_simple output\n");
    assert_eq!(row_text(&w, 0), padded("test_println_simple output"));
}

#[test]
fn test_println_many() {
    let mut w = writer();
    for _ in 0..200 {
        w.write_string("test_println_many output\n");
    }
    assert_eq!(w.cursor_position(), (24, 0));
    assert_eq!(row_text(&w, 23), padded("test_println_many output"));
}

#[test]
fn test_println_output() {
    let mut w = writer();
    for _ in 0..30 {
        w.write_string("filler\n");
    }
    let s = "Some test string that fits on a single line";
    w.write_string(&format!("\n{}\n", s));
    for (i, c) in s.chars().enumerate() {
        let screen_char = w.cell(BUFFER_HEIGHT - 2, i);
        assert_eq!(char::from(screen_char.ascii_character), c);
    }
}

#[test]
fn long_text_keeps_its_tail_before_cursor() {
    let mut w = writer();
    for _ in 0..24 {
        w.write_byte(b'\n');
    }
    w.write_string("start");
    let text: String = (0..200).map(|i| (b'a' + (i % 26) as u8) as char).collect();
    w.write_string(&text);
    // 5 + 200 bytes from the start of the last row: two scrolls.
    assert_eq!(w.cursor_position(), (24, 45));
    let end = 24 * BUFFER_WIDTH + 45;
    for (j, b) in text.bytes().enumerate() {
        let pos = end as isize - 200 + j as isize;
        if pos >= 0 {
            let pos = pos as usize;
            assert_eq!(w.cell(pos / BUFFER_WIDTH, pos % BUFFER_WIDTH).ascii_character, b);
        }
    }
    assert_eq!(w.cell(22, 0).ascii_character, b's');
}
