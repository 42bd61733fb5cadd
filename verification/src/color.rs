use vstd::prelude::*;

verus! {

/// The eight base colors of the 4-bit ANSI palette.
#[derive(Clone, Copy, Debug, PartialEq, Eq, Structural)]
pub enum Color {
    BLACK,
    RED,
    GREEN,
    YELLOW,
    BLUE,
    MAGENTA,
    CYAN,
    WHITE,
}

impl Color {
    /// Position of the color in the palette, 0 (black) through 7 (white).
    pub open spec fn index(self) -> int {
        match self {
            Color::BLACK => 0,
            Color::RED => 1,
            Color::GREEN => 2,
            Color::YELLOW => 3,
            Color::BLUE => 4,
            Color::MAGENTA => 5,
            Color::CYAN => 6,
            Color::WHITE => 7,
        }
    }

    /// SGR parameter that selects this color as foreground: 30 + index,
    /// or 90 + index for the bright variant.
    pub open spec fn fg_code(self, bright: bool) -> int {
        if bright {
            90 + self.index()
        } else {
            30 + self.index()
        }
    }

    /// SGR parameter that selects this color as background: ten above the
    /// foreground code.
    pub open spec fn bg_code(self, bright: bool) -> int {
        self.fg_code(bright) + 10
    }

    /// The foreground codes are those of the ANSI palette: black 30, red 31,
    /// green 32, yellow 33, blue 34, magenta 35, cyan 36, white 37, each 60
    /// higher when bright; the background codes are 10 higher still.
    pub proof fn lemma_palette(bright: bool)
        ensures
            Color::BLACK.fg_code(bright) == (if bright { 90int } else { 30int }),
            Color::RED.fg_code(bright) == (if bright { 91int } else { 31int }),
            Color::GREEN.fg_code(bright) == (if bright { 92int } else { 32int }),
            Color::YELLOW.fg_code(bright) == (if bright { 93int } else { 33int }),
            Color::BLUE.fg_code(bright) == (if bright { 94int } else { 34int }),
            Color::MAGENTA.fg_code(bright) == (if bright { 95int } else { 35int }),
            Color::CYAN.fg_code(bright) == (if bright { 96int } else { 36int }),
            Color::WHITE.fg_code(bright) == (if bright { 97int } else { 37int }),
            Color::BLACK.bg_code(bright) == (if bright { 100int } else { 40int }),
            Color::RED.bg_code(bright) == (if bright { 101int } else { 41int }),
            Color::GREEN.bg_code(bright) == (if bright { 102int } else { 42int }),
            Color::YELLOW.bg_code(bright) == (if bright { 103int } else { 43int }),
            Color::BLUE.bg_code(bright) == (if bright { 104int } else { 44int }),
            Color::MAGENTA.bg_code(bright) == (if bright { 105int } else { 45int }),
            Color::CYAN.bg_code(bright) == (if bright { 106int } else { 46int }),
            Color::WHITE.bg_code(bright) == (if bright { 107int } else { 47int }),
    {
    }

    /// The ANSI code that sets the foreground to this color.
    pub fn fg(&self, bright: bool) -> (code: i32)
        ensures
            code == self.fg_code(bright),
    {
        let val: i32 = match *self {
            Color::BLACK => 30,
            Color::RED => 31,
            Color::GREEN => 32,
            Color::YELLOW => 33,
            Color::BLUE => 34,
            Color::MAGENTA => 35,
            Color::CYAN => 36,
            Color::WHITE => 37,
        };
        if bright {
            val + 60
        } else {
            val
        }
    }

    /// The ANSI code that sets the background to this color.
    pub fn bg(&self, bright: bool) -> (code: i32)
        ensures
            code == self.bg_code(bright),
    {
        self.fg(bright) + 10
    }
}

} // verus!
