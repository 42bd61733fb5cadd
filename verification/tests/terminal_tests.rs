use snake_console::color::Color;
use snake_console::screen::Screen;
use snake_console::terminal::{
    clear_screen, reset_color, set_color_fgbg, set_cursor_visisble, set_position, uart_send_byte,
    uart_send_int, uart_send_str,
};

fn sent_int(x: i32) -> Vec<u8> {
    let mut out = Vec::new();
    uart_send_int(x, &mut out);
    out
}

fn parse_back(text: &[u8]) -> i64 {
    let (negative, digits) = if !text.is_empty() && text[0] == b'-' {
        (true, &text[1..])
    } else {
        (false, text)
    };
    let mut v: i64 = 0;
    for d in digits {
        assert!(d.is_ascii_digit());
        v = v * 10 + (*d - b'0') as i64;
    }
    if negative {
        -v
    } else {
        v
    }
}

#[test]
fn color_codes() {
    assert_eq!(Color::BLACK.fg(false), 30);
    assert_eq!(Color::RED.fg(false), 31);
    assert_eq!(Color::RED.fg(true), 91);
    assert_eq!(Color::WHITE.fg(false), 37);
    assert_eq!(Color::YELLOW.bg(true), 103);
    assert_eq!(Color::GREEN.bg(false), 42);
    assert_eq!(Color::WHITE.bg(true), 107);
}

#[test]
fn background_is_foreground_plus_ten() {
    let all = [
        Color::BLACK,
        Color::RED,
        Color::GREEN,
        Color::YELLOW,
        Color::BLUE,
        Color::MAGENTA,
        Color::CYAN,
        Color::WHITE,
    ];
    for c in all.iter() {
        for bright in [false, true] {
            assert_eq!(c.bg(bright), c.fg(bright) + 10);
        }
    }
}

#[test]
fn line_feed_gets_carriage_return() {
    let mut out = Vec::new();
    uart_send_byte(b'\n', &mut out);
    assert_eq!(out, vec![13u8, 10u8]);
    uart_send_byte(b'x', &mut out);
    assert_eq!(out, vec![13u8, 10u8, b'x']);
    uart_send_byte(b'\r', &mut out);
    assert_eq!(out, vec![13u8, 10u8, b'x', 13u8]);
}

#[test]
fn string_goes_out_byte_by_byte() {
    let mut out = Vec::new();
    uart_send_str("a\nb", &mut out);
    assert_eq!(out, b"a\r\nb".to_vec());
    let mut empty = Vec::new();
    uart_send_str("", &mut empty);
    assert!(empty.is_empty());
}

#[test]
fn strings_sent_in_turn_equal_joined_string() {
    let mut apart = Vec::new();
    uart_send_str("ab\n", &mut apart);
    uart_send_str("c\n", &mut apart);
    let mut joined = Vec::new();
    uart_send_str("ab\nc\n", &mut joined);
    assert_eq!(apart, joined);
}

#[test]
fn integers_in_decimal() {
    assert_eq!(sent_int(0), b"0".to_vec());
    assert_eq!(sent_int(7), b"7".to_vec());
    assert_eq!(sent_int(10), b"10".to_vec());
    assert_eq!(sent_int(42), b"42".to_vec());
    assert_eq!(sent_int(-7), b"-7".to_vec());
    assert_eq!(sent_int(-100), b"-100".to_vec());
    assert_eq!(sent_int(2147483647), b"2147483647".to_vec());
    assert_eq!(sent_int(-2147483647), b"-2147483647".to_vec());
}

#[test]
fn printed_integer_reads_back() {
    for x in [0, 1, -1, 9, -9, 10, 99, 100, 12345, -54321, 2147483647, -2147483647] {
        assert_eq!(parse_back(&sent_int(x)), x as i64);
    }
}

#[test]
fn cursor_visibility() {
    let mut out = Vec::new();
    set_cursor_visisble(true, &mut out);
    assert_eq!(out, b"\x1b[?25h".to_vec());
    let mut out = Vec::new();
    set_cursor_visisble(false, &mut out);
    assert_eq!(out, b"\x1b[?25l".to_vec());
}

#[test]
fn position_counts_from_one() {
    let mut out = Vec::new();
    set_position(0, 0, &mut out);
    assert_eq!(out, b"\x1b[1;1H".to_vec());
    let mut out = Vec::new();
    set_position(4, 4, &mut out);
    assert_eq!(out, b"\x1b[5;5H".to_vec());
    let mut out = Vec::new();
    set_position(8, 1, &mut out);
    assert_eq!(out, b"\x1b[9;2H".to_vec());
}

#[test]
fn negative_position_is_clamped() {
    let mut out = Vec::new();
    set_position(-5, 3, &mut out);
    assert_eq!(out, b"\x1b[1;4H".to_vec());
    let mut out = Vec::new();
    set_position(2, -2147483647, &mut out);
    assert_eq!(out, b"\x1b[3;1H".to_vec());
}

#[test]
fn color_sequences() {
    let mut out = Vec::new();
    set_color_fgbg(Color::BLACK, false, Color::YELLOW, true, &mut out);
    assert_eq!(out, b"\x1b[30;103m".to_vec());
    let mut out = Vec::new();
    set_color_fgbg(Color::GREEN, true, Color::BLUE, false, &mut out);
    assert_eq!(out, b"\x1b[92;44m".to_vec());
}

#[test]
fn reset_and_clear() {
    let mut out = Vec::new();
    reset_color(&mut out);
    assert_eq!(out, b"\x1b[m".to_vec());
    let mut out = Vec::new();
    clear_screen(&mut out);
    assert_eq!(out, b"\x1b[m\x1b[2J".to_vec());
}

#[test]
fn screen_collects_what_it_sends() {
    let mut scr = Screen::new();
    scr.clear_screen();
    scr.set_cursor_visisble(false);
    scr.set_position(0, 0);
    scr.set_color_fgbg(Color::BLACK, false, Color::YELLOW, true);
    scr.send_str("Get Ready in 3!\n");
    scr.send_int(-12);
    scr.send_byte(b'\n');
    scr.reset_color();
    let sent = scr.take_output();
    assert_eq!(
        sent,
        b"\x1b[m\x1b[2J\x1b[?25l\x1b[1;1H\x1b[30;103mGet Ready in 3!\r\n-12\r\n\x1b[m".to_vec()
    );
    assert!(scr.take_output().is_empty());
}
