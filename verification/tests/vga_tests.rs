use andromeda_os::vga::{with_color, Color, ColorCode, VGAWriter, BUFFER_HEIGHT, BUFFER_WIDTH};

#[test]
fn color_codes_match_hardware_values() {
    assert_eq!(Color::Black.as_u8(), 0);
    assert_eq!(Color::LightCyan.as_u8(), 11);
    assert_eq!(Color::White.as_u8(), 15);
    assert_eq!(ColorCode::new(Color::White, Color::Black).0, 0x0f);
    assert_eq!(ColorCode::new(Color::LightCyan, Color::Black).0, 0x0b);
    assert_eq!(ColorCode::new(Color::Black, Color::White).0, 0xf0);
    assert_eq!(ColorCode::new(Color::Yellow, Color::Blue).0, 0x1e);
}

#[test]
fn default_writer_is_blank() {
    let w = VGAWriter::default();
    assert_eq!(w.column_position, 0);
    assert_eq!(w.color_code.0, 0x0f);
    assert_eq!(w.buffer.len(), BUFFER_HEIGHT);
    for row in &w.buffer {
        assert_eq!(row.len(), BUFFER_WIDTH);
        for cell in row {
            assert_eq!(cell.ascii_character, b' ');
        }
    }
}

#[test]
fn writes_land_on_the_bottom_row() {
    let mut w = VGAWriter::default();
    w.write_str("ab");
    assert_eq!(w.column_position, 2);
    assert_eq!(w.buffer[BUFFER_HEIGHT - 1][0].ascii_character, b'a');
    assert_eq!(w.buffer[BUFFER_HEIGHT - 1][1].ascii_character, b'b');
    assert_eq!(w.buffer[BUFFER_HEIGHT - 1][0].color_code.0, 0x0f);
}

#[test]
fn newline_scrolls_up() {
    let mut w = VGAWriter::default();
    w.write_str("hello\n");
    assert_eq!(w.column_position, 0);
    for (i, b) in b"hello".iter().enumerate() {
        assert_eq!(w.buffer[BUFFER_HEIGHT - 2][i].ascii_character, *b);
    }
    for cell in &w.buffer[BUFFER_HEIGHT - 1] {
        assert_eq!(cell.ascii_character, b' ');
    }
}

#[test]
fn long_line_wraps() {
    let mut w = VGAWriter::default();
    for _ in 0..BUFFER_WIDTH {
        w.write_byte(b'x');
    }
    assert_eq!(w.column_position, BUFFER_WIDTH);
    w.write_byte(b'y');
    assert_eq!(w.column_position, 1);
    assert_eq!(w.buffer[BUFFER_HEIGHT - 2][0].ascii_character, b'x');
    assert_eq!(w.buffer[BUFFER_HEIGHT - 1][0].ascii_character, b'y');
}

#[test]
fn unprintable_characters_show_a_block() {
    let mut w = VGAWriter::default();
    w.write_str("a\u{263a}b");
    assert_eq!(w.buffer[BUFFER_HEIGHT - 1][0].ascii_character, b'a');
    assert_eq!(w.buffer[BUFFER_HEIGHT - 1][1].ascii_character, 0xfe);
    assert_eq!(w.buffer[BUFFER_HEIGHT - 1][2].ascii_character, b'b');
}

#[test]
fn delete_erases_and_steps_back() {
    let mut w = VGAWriter::default();
    w.write_str("ab");
    w.delete();
    assert_eq!(w.column_position, 1);
    assert_eq!(w.buffer[BUFFER_HEIGHT - 1][1].ascii_character, b' ');
    assert_eq!(w.buffer[BUFFER_HEIGHT - 1][0].ascii_character, b'a');
}

#[test]
fn with_color_restores_the_previous_colors() {
    let mut w = VGAWriter::default();
    let before = w.color_code;
    with_color(&mut w, Color::LightCyan, Color::Black, || {});
    assert_eq!(w.color_code, before);
    assert_eq!(w.column_position, 0);
}
