use vstd::prelude::*;
use vstd::string::*;
use crate::color::Color;

verus! {

broadcast use is_ascii_spec_bytes;

/// Line feed, `'\n'`.
pub const LF: u8 = 10;

/// Carriage return, `'\r'`.
pub const CR: u8 = 13;

/// Escape, the first byte of every control sequence.
pub const ESC: u8 = 27;

/// The bytes that go out for one byte handed to the line: a line feed is
/// preceded by a carriage return, every other byte goes out as it is.
pub open spec fn wire_byte(b: u8) -> Seq<u8> {
    if b == LF {
        seq![CR, LF]
    } else {
        seq![b]
    }
}

/// The bytes that go out for a sequence of bytes handed to the line, one
/// after the other.
pub open spec fn wire(s: Seq<u8>) -> Seq<u8>
    decreases s.len(),
{
    if s.len() == 0 {
        Seq::empty()
    } else {
        wire(s.drop_last()) + wire_byte(s.last())
    }
}

/// Control Sequence Introducer: ESC followed by `[`.
pub open spec fn csi() -> Seq<u8> {
    seq![ESC, '[' as u8]
}

/// The ASCII digit for `d` (`d < 10`).
pub open spec fn digit(d: nat) -> u8 {
    (48 + d) as u8
}

/// Decimal representation of a natural number, most significant digit first,
/// without leading zeros.
pub open spec fn decimal(n: nat) -> Seq<u8>
    decreases n,
{
    if n < 10 {
        seq![digit(n)]
    } else {
        decimal(n / 10).push(digit(n % 10))
    }
}

/// Decimal representation of an integer: a `-` before the digits of its
/// magnitude when it is negative.
pub open spec fn int_text(x: int) -> Seq<u8> {
    if x < 0 {
        seq!['-' as u8] + decimal((-x) as nat)
    } else {
        decimal(x as nat)
    }
}

/// The value of a string of decimal digits.
pub open spec fn digits_value(s: Seq<u8>) -> int
    decreases s.len(),
{
    if s.len() == 0 {
        0
    } else {
        digits_value(s.drop_last()) * 10 + (s.last() - 48)
    }
}

/// The value of an optionally negative decimal number.
pub open spec fn text_value(s: Seq<u8>) -> int {
    if s.len() > 0 && s[0] == '-' as u8 {
        -digits_value(s.drop_first())
    } else {
        digits_value(s)
    }
}

/// Whether `b` is an ASCII decimal digit.
pub open spec fn is_digit(b: u8) -> bool {
    48 <= b <= 57
}

/// Digits of `n` least significant first.
spec fn rev_digits(n: nat) -> Seq<u8>
    decreases n,
{
    if n < 10 {
        seq![digit(n)]
    } else {
        seq![digit(n % 10)] + rev_digits(n / 10)
    }
}

proof fn lemma_rev_digits(n: nat)
    ensures
        rev_digits(n).len() == decimal(n).len(),
        forall|j: int|
            0 <= j < decimal(n).len() ==> #[trigger] rev_digits(n)[j] == decimal(n)[decimal(n).len()
                - 1 - j],
    decreases n,
{
    if n >= 10 {
        lemma_rev_digits(n / 10);
    }
}

/// The decimal representation of a natural number consists of digits only,
/// and its first digit is zero only for zero itself.
pub proof fn lemma_decimal_digits(n: nat)
    ensures
        decimal(n).len() >= 1,
        forall|j: int| 0 <= j < decimal(n).len() ==> #[trigger] is_digit(decimal(n)[j]),
        decimal(n)[0] == 48 ==> n == 0,
    decreases n,
{
    if n >= 10 {
        lemma_decimal_digits(n / 10);
    }
}

/// Reading back the decimal representation of a natural number gives the
/// number.
pub proof fn lemma_decimal_value(n: nat)
    ensures
        digits_value(decimal(n)) == n,
    decreases n,
{
    let s = decimal(n);
    if n >= 10 {
        lemma_decimal_value(n / 10);
        assert(s.drop_last() =~= decimal(n / 10));
    } else {
        assert(digits_value(s) == digits_value(s.drop_last()) * 10 + (s.last() - 48));
    }
}

/// Printing an integer and reading the printed text back as a decimal number
/// gives the integer again.
pub proof fn lemma_int_text_round_trip(x: int)
    ensures
        text_value(int_text(x)) == x,
{
    if x < 0 {
        let d = decimal((-x) as nat);
        lemma_decimal_value((-x) as nat);
        assert((seq!['-' as u8] + d).drop_first() =~= d);
    } else {
        lemma_decimal_digits(x as nat);
        assert(is_digit(decimal(x as nat)[0]));
        lemma_decimal_value(x as nat);
    }
}

/// What goes on the line for two byte strings sent one after the other is
/// what goes on the line for the two strings joined.
pub proof fn lemma_wire_concat(a: Seq<u8>, b: Seq<u8>)
    ensures
        wire(a + b) == wire(a) + wire(b),
    decreases b.len(),
{
    if b.len() > 0 {
        assert((a + b).drop_last() =~= a + b.drop_last());
        lemma_wire_concat(a, b.drop_last());
    }
}

/// Bytes other than a line feed go out unchanged.
pub proof fn lemma_wire_no_lf(s: Seq<u8>)
    requires
        forall|j: int| 0 <= j < s.len() ==> s[j] != LF,
    ensures
        wire(s) == s,
    decreases s.len(),
{
    if s.len() > 0 {
        lemma_wire_no_lf(s.drop_last());
    }
}

/// Send a byte; a line feed is preceded by a carriage return.
pub fn uart_send_byte(byte: u8, serial_tx: &mut Vec<u8>)
    ensures
        final(serial_tx)@ == old(serial_tx)@ + wire_byte(byte),
{
    if byte == LF {
        serial_tx.push(CR);
    }
    serial_tx.push(byte);
}

/// Send every byte of a string, in order.
pub fn uart_send_str(s: &str, serial_tx: &mut Vec<u8>)
    ensures
        final(serial_tx)@ == old(serial_tx)@ + wire(s.spec_bytes()),
{
    let bytes = s.as_bytes();
    let n = bytes.len();
    let mut i: usize = 0;
    while i < n
        invariant
            n == bytes@.len(),
            bytes@ == s.spec_bytes(),
            i <= n,
            serial_tx@ == old(serial_tx)@ + wire(bytes@.take(i as int)),
        decreases n - i,
    {
        uart_send_byte(bytes[i], serial_tx);
        assert(bytes@.take(i + 1).drop_last() =~= bytes@.take(i as int));
        i = i + 1;
    }
    assert(bytes@.take(n as int) =~= bytes@);
}

/// Send the decimal representation of `x`.
pub fn uart_send_int(x: i32, serial_tx: &mut Vec<u8>)
    requires
        x != i32::MIN,
    ensures
        final(serial_tx)@ == old(serial_tx)@ + int_text(x as int),
{
    let positive: bool;
    let mut abs_x: u32;
    if x < 0 {
        positive = false;
        abs_x = (-x) as u32;
    } else {
        positive = true;
        abs_x = x as u32;
    }
    let ghost magnitude: nat = abs_x as nat;
    // digits in reverse order
    let mut buf: Vec<u8> = Vec::new();
    loop
        invariant_except_break
            buf@ + rev_digits(abs_x as nat) == rev_digits(magnitude),
        ensures
            buf@ == rev_digits(magnitude),
        decreases abs_x,
    {
        let ghost before = abs_x;
        buf.push(((abs_x % 10) + 48) as u8);
        abs_x = abs_x / 10;
        if abs_x == 0 {
            break;
        }
        assert(buf@ + rev_digits(abs_x as nat) =~= rev_digits(magnitude)) by {
            assert(rev_digits(before as nat) =~= seq![digit(before as nat % 10)] + rev_digits(
                abs_x as nat,
            ));
        }
    }
    proof {
        lemma_rev_digits(magnitude);
        lemma_decimal_digits(magnitude);
    }
    if !positive {
        buf.push('-' as u8);
    }
    let ghost text = int_text(x as int);
    assert forall|j: int| 0 <= j < text.len() implies #[trigger] buf@[j] != LF by {
        let d = decimal(magnitude);
        if !positive {
            if j < text.len() - 1 {
                assert(is_digit(d[text.len() - 2 - j]));
            }
        } else {
            assert(is_digit(d[text.len() - 1 - j]));
        }
    }
    let n = buf.len();
    let mut k: usize = 0;
    while k < n
        invariant
            n == buf@.len(),
            n == text.len(),
            k <= n,
            forall|j: int| 0 <= j < n ==> #[trigger] buf@[j] == text[n - 1 - j],
            forall|j: int| 0 <= j < n ==> #[trigger] buf@[j] != LF,
            serial_tx@ == old(serial_tx)@ + text.take(k as int),
        decreases n - k,
    {
        let c = buf[n - 1 - k];
        uart_send_byte(c, serial_tx);
        k = k + 1;
    }
}


/// Control Sequence Introducer, the prefix of every control sequence sent.
pub const CSI: &'static str = "\x1b[";

/// The bytes that make the cursor visible or invisible.
pub open spec fn cursor_visibility_seq(visible: bool) -> Seq<u8> {
    csi() + seq!['?' as u8, '2' as u8, '5' as u8, if visible { 'h' as u8 } else { 'l' as u8 }]
}

/// Make the cursor visible or invisible.
pub fn set_cursor_visisble(visible: bool, serial_tx: &mut Vec<u8>)
    ensures
        final(serial_tx)@ == old(serial_tx)@ + cursor_visibility_seq(visible),
{
    proof {
        reveal_strlit("\x1b[");
        reveal_strlit("?25h");
        reveal_strlit("?25l");
        assert(is_ascii(CSI));
        assert(is_ascii("?25h"));
        assert(is_ascii("?25l"));
        lemma_wire_no_lf(CSI.spec_bytes());
        lemma_wire_no_lf("?25h".spec_bytes());
        lemma_wire_no_lf("?25l".spec_bytes());
    }
    uart_send_str(CSI, serial_tx);
    if visible {
        uart_send_str("?25h", serial_tx);
    } else {
        uart_send_str("?25l", serial_tx);
    }
}


/// The 1-based terminal coordinate for a 0-based row or column index;
/// negative indices are treated as 0.
pub open spec fn ansi_coord(v: int) -> int {
    if v > 0 {
        v + 1
    } else {
        1
    }
}

/// The bytes that move the cursor to the 0-based position (`row`, `col`).
pub open spec fn position_seq(row: int, col: int) -> Seq<u8> {
    csi() + int_text(ansi_coord(row)) + seq![';' as u8] + int_text(ansi_coord(col)) + seq![
        'H' as u8,
    ]
}

/// The bytes that select foreground `fg` and background `bg`.
pub open spec fn color_seq(fg: Color, fg_bright: bool, bg: Color, bg_bright: bool) -> Seq<u8> {
    csi() + int_text(fg.fg_code(fg_bright)) + seq![';' as u8] + int_text(bg.bg_code(bg_bright))
        + seq!['m' as u8]
}

/// The bytes that reset colors to the terminal's default.
pub open spec fn reset_color_seq() -> Seq<u8> {
    csi() + seq!['m' as u8]
}

/// The bytes that reset colors and erase the whole screen.
pub open spec fn clear_screen_seq() -> Seq<u8> {
    reset_color_seq() + csi() + seq!['2' as u8, 'J' as u8]
}

/// The cursor is sent to terminal row `max(row, 0) + 1` and column
/// `max(col, 0) + 1`: ESC `[`, the row, `;`, the column, `H`.
pub proof fn lemma_position_bytes(row: int, col: int)
    ensures
        position_seq(row, col) == seq![27u8, 91u8] + int_text(
            (if row >= 0 {
                row
            } else {
                0
            }) + 1,
        ) + seq![59u8] + int_text(
            (if col >= 0 {
                col
            } else {
                0
            }) + 1,
        ) + seq![72u8],
{
}

/// A line feed goes out as carriage return then line feed; any other byte
/// goes out as itself.
pub proof fn lemma_wire_single(b: u8)
    ensures
        wire(seq![b]) == (if b == 10 {
            seq![13u8, 10u8]
        } else {
            seq![b]
        }),
{
    let s = seq![b];
    assert(s.drop_last() =~= Seq::<u8>::empty());
    assert(wire(s.drop_last()) == Seq::<u8>::empty());
    assert(wire(s) =~= wire_byte(b));
}

/// The fixed control sequences, byte by byte: show cursor `ESC[?25h`, hide
/// cursor `ESC[?25l`, reset colors `ESC[m`, clear screen `ESC[m` then
/// `ESC[2J`; a color selection is `ESC[`, the foreground code, `;`, the
/// background code, `m`.
pub proof fn lemma_control_bytes(fg: Color, fg_bright: bool, bg: Color, bg_bright: bool)
    ensures
        cursor_visibility_seq(true) == seq![27u8, 91u8, 63u8, 50u8, 53u8, 104u8],
        cursor_visibility_seq(false) == seq![27u8, 91u8, 63u8, 50u8, 53u8, 108u8],
        reset_color_seq() == seq![27u8, 91u8, 109u8],
        clear_screen_seq() == seq![27u8, 91u8, 109u8, 27u8, 91u8, 50u8, 74u8],
        color_seq(fg, fg_bright, bg, bg_bright) == seq![27u8, 91u8] + int_text(
            fg.fg_code(fg_bright),
        ) + seq![59u8] + int_text(bg.bg_code(bg_bright)) + seq![109u8],
{
    assert(cursor_visibility_seq(true) =~= seq![27u8, 91u8, 63u8, 50u8, 53u8, 104u8]);
    assert(cursor_visibility_seq(false) =~= seq![27u8, 91u8, 63u8, 50u8, 53u8, 108u8]);
    assert(reset_color_seq() =~= seq![27u8, 91u8, 109u8]);
    assert(clear_screen_seq() =~= seq![27u8, 91u8, 109u8, 27u8, 91u8, 50u8, 74u8]);
}

/// Move the cursor to the given 0-based row and column; (0, 0) is the
/// top-left character. Negative indices are treated as 0.
pub fn set_position(row: i32, col: i32, serial_tx: &mut Vec<u8>)
    requires
        row < i32::MAX,
        col < i32::MAX,
    ensures
        final(serial_tx)@ == old(serial_tx)@ + position_seq(row as int, col as int),
{
    // ANSI counts rows and columns from 1
    let ansi_row = if row > 0 {
        row
    } else {
        0
    } + 1;
    let ansi_col = if col > 0 {
        col
    } else {
        0
    } + 1;
    proof {
        reveal_strlit("\x1b[");
        reveal_strlit(";");
        reveal_strlit("H");
        assert(is_ascii(CSI));
        assert(is_ascii(";"));
        assert(is_ascii("H"));
        lemma_wire_no_lf(CSI.spec_bytes());
        lemma_wire_no_lf(";".spec_bytes());
        lemma_wire_no_lf("H".spec_bytes());
    }
    uart_send_str(CSI, serial_tx);
    uart_send_int(ansi_row, serial_tx);
    uart_send_str(";", serial_tx);
    uart_send_int(ansi_col, serial_tx);
    uart_send_str("H", serial_tx);
}

/// Select the text foreground and background colors.
pub fn set_color_fgbg(fg: Color, fg_bright: bool, bg: Color, bg_bright: bool, serial_tx: &mut Vec<u8>)
    ensures
        final(serial_tx)@ == old(serial_tx)@ + color_seq(fg, fg_bright, bg, bg_bright),
{
    proof {
        reveal_strlit("\x1b[");
        reveal_strlit(";");
        reveal_strlit("m");
        assert(is_ascii(CSI));
        assert(is_ascii(";"));
        assert(is_ascii("m"));
        lemma_wire_no_lf(CSI.spec_bytes());
        lemma_wire_no_lf(";".spec_bytes());
        lemma_wire_no_lf("m".spec_bytes());
    }
    uart_send_str(CSI, serial_tx);
    uart_send_int(fg.fg(fg_bright), serial_tx);
    uart_send_str(";", serial_tx);
    uart_send_int(bg.bg(bg_bright), serial_tx);
    uart_send_str("m", serial_tx);
}

/// Reset colors to the terminal's default.
pub fn reset_color(serial_tx: &mut Vec<u8>)
    ensures
        final(serial_tx)@ == old(serial_tx)@ + reset_color_seq(),
{
    proof {
        reveal_strlit("\x1b[");
        reveal_strlit("m");
        assert(is_ascii(CSI));
        assert(is_ascii("m"));
        lemma_wire_no_lf(CSI.spec_bytes());
        lemma_wire_no_lf("m".spec_bytes());
    }
    uart_send_str(CSI, serial_tx);
    uart_send_str("m", serial_tx);
}

/// Reset colors and erase the whole screen.
pub fn clear_screen(serial_tx: &mut Vec<u8>)
    ensures
        final(serial_tx)@ == old(serial_tx)@ + clear_screen_seq(),
{
    proof {
        reveal_strlit("\x1b[");
        reveal_strlit("2J");
        assert(is_ascii(CSI));
        assert(is_ascii("2J"));
        lemma_wire_no_lf(CSI.spec_bytes());
        lemma_wire_no_lf("2J".spec_bytes());
    }
    reset_color(serial_tx);
    uart_send_str(CSI, serial_tx);
    uart_send_str("2J", serial_tx);
}

} // verus!
