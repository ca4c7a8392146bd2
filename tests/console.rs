use rustos::console::{decimal_bytes, unsigned_decimal_bytes, Color, ColorCode, Console, ScreenChar, BUFFER_HEIGHT, BUFFER_WIDTH};

fn row_text(c: &Console, row: usize) -> String {
    (0..BUFFER_WIDTH).map(|col| c.get_char(row, col).ascii_character as char).collect::<String>().trim_end().to_string()
}

#[test]
fn color_code_packs_background_over_foreground() {
    assert_eq!(ColorCode::new(Color::White, Color::Black).0, 0x0f);
    assert_eq!(ColorCode::new(Color::Yellow, Color::Blue).0, 0x1e);
    assert_eq!(Color::LightRed.code(), 12);
}

#[test]
fn new_console_is_blank() {
    let c = Console::init();
    assert_eq!(c.cells().len(), BUFFER_HEIGHT * BUFFER_WIDTH);
    assert!(c.cells().iter().all(|ch| *ch == ScreenChar { ascii_character: b' ', color_code: ColorCode(0x0f) }));
}

#[test]
fn text_and_newlines() {
    let mut c = Console::init();
    c.write_str("hello\nworld");
    assert_eq!(row_text(&c, 0), "hello");
    assert_eq!(row_text(&c, 1), "world");
    assert_eq!(c.get_char(1, 0).color_code, ColorCode(0x0f));
}

#[test]
fn unprintable_bytes_show_the_replacement_glyph() {
    let mut c = Console::init();
    c.write_bytes(&[b'a', 0x07, 0xff, b'~']);
    assert_eq!(c.get_char(0, 1).ascii_character, 0xfe);
    assert_eq!(c.get_char(0, 2).ascii_character, 0xfe);
    assert_eq!(c.get_char(0, 3).ascii_character, b'~');
    c.write_str("é");
    assert_eq!(c.get_char(0, 4).ascii_character, 0xfe);
    assert_eq!(c.get_char(0, 5).ascii_character, 0xfe);
}

#[test]
fn full_row_wraps_before_the_next_character() {
    let mut c = Console::init();
    let line = "x".repeat(BUFFER_WIDTH);
    c.write_str(&line);
    assert_eq!(c.get_char(1, 0).ascii_character, b' ');
    c.write_str("y");
    assert_eq!(c.get_char(1, 0).ascii_character, b'y');
}

#[test]
fn last_row_scrolls_up() {
    let mut c = Console::init();
    for i in 0..BUFFER_HEIGHT {
        c.write_str(&format!("line{}\n", i));
    }
    assert_eq!(row_text(&c, 0), "line1");
    assert_eq!(row_text(&c, BUFFER_HEIGHT - 2), "line24");
    assert_eq!(row_text(&c, BUFFER_HEIGHT - 1), "");
}

#[test]
fn decimal_formatting() {
    assert_eq!(decimal_bytes(0), b"0".to_vec());
    assert_eq!(decimal_bytes(-42), b"-42".to_vec());
    assert_eq!(decimal_bytes(i64::MIN), b"-9223372036854775808".to_vec());
    assert_eq!(unsigned_decimal_bytes(u64::MAX), b"18446744073709551615".to_vec());
}
