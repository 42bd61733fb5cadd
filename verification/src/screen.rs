use vstd::prelude::*;
use vstd::string::StringSliceAdditionalSpecFns;
use crate::color::Color;
use crate::terminal::{
    clear_screen, clear_screen_seq, color_seq, cursor_visibility_seq, int_text, position_seq,
    reset_color, reset_color_seq, set_color_fgbg, set_cursor_visisble, set_position,
    uart_send_byte, uart_send_int, uart_send_str, wire, wire_byte,
};

verus! {

/// A terminal display driven over a serial line. Every operation appends
/// the bytes it sends to the line's transmit queue, which the owner of the
/// line drains with `take_output` and writes out in order.
pub struct Screen {
    serial_tx: Vec<u8>,
}

impl View for Screen {
    type V = Seq<u8>;

    /// The bytes sent and not yet taken out, oldest first.
    closed spec fn view(&self) -> Seq<u8> {
        self.serial_tx@
    }
}

impl Screen {
    /// A screen with nothing sent yet.
    pub fn new() -> (s: Screen)
        ensures
            s@ == Seq::<u8>::empty(),
    {
        Screen { serial_tx: Vec::new() }
    }

    /// Hand out the bytes sent so far, oldest first, and forget them.
    pub fn take_output(&mut self) -> (sent: Vec<u8>)
        ensures
            sent@ == old(self)@,
            final(self)@ == Seq::<u8>::empty(),
    {
        let mut sent: Vec<u8> = Vec::new();
        std::mem::swap(&mut sent, &mut self.serial_tx);
        sent
    }

    /// Send a byte; a line feed is preceded by a carriage return.
    pub fn send_byte(&mut self, byte: u8)
        ensures
            final(self)@ == old(self)@ + wire_byte(byte),
    {
        uart_send_byte(byte, &mut self.serial_tx);
    }

    /// Send every byte of a string, in order.
    pub fn send_str(&mut self, s: &str)
        ensures
            final(self)@ == old(self)@ + wire(s.spec_bytes()),
    {
        uart_send_str(s, &mut self.serial_tx);
    }

    /// Send the decimal representation of `x`.
    pub fn send_int(&mut self, x: i32)
        requires
            x != i32::MIN,
        ensures
            final(self)@ == old(self)@ + int_text(x as int),
    {
        uart_send_int(x, &mut self.serial_tx);
    }

    /// Make the cursor visible or invisible.
    pub fn set_cursor_visisble(&mut self, visible: bool)
        ensures
            final(self)@ == old(self)@ + cursor_visibility_seq(visible),
    {
        set_cursor_visisble(visible, &mut self.serial_tx);
    }

    /// Move the cursor to the given 0-based row and column; (0, 0) is the
    /// top-left character. Negative indices are treated as 0.
    pub fn set_position(&mut self, row: i32, col: i32)
        requires
            row < i32::MAX,
            col < i32::MAX,
        ensures
            final(self)@ == old(self)@ + position_seq(row as int, col as int),
    {
        set_position(row, col, &mut self.serial_tx);
    }

    /// Select the text foreground and background colors.
    pub fn set_color_fgbg(&mut self, fg: Color, fg_bright: bool, bg: Color, bg_bright: bool)
        ensures
            final(self)@ == old(self)@ + color_seq(fg, fg_bright, bg, bg_bright),
    {
        set_color_fgbg(fg, fg_bright, bg, bg_bright, &mut self.serial_tx);
    }

    /// Reset colors to the terminal's default.
    pub fn reset_color(&mut self)
        ensures
            final(self)@ == old(self)@ + reset_color_seq(),
    {
        reset_color(&mut self.serial_tx);
    }

    /// Reset colors and erase the whole screen.
    pub fn clear_screen(&mut self)
        ensures
            final(self)@ == old(self)@ + clear_screen_seq(),
    {
        clear_screen(&mut self.serial_tx);
    }
}

} // verus!
