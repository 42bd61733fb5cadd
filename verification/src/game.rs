use vstd::prelude::*;
use crate::color::Color;
use crate::screen::Screen;
use crate::terminal::{
    clear_screen_seq, color_seq, cursor_visibility_seq, decimal, lemma_wire_no_lf, position_seq,
    wire, LF,
};
use vstd::string::{is_ascii, is_ascii_spec_bytes, StringSliceAdditionalSpecFns};

verus! {

broadcast use is_ascii_spec_bytes;

/// Characters per board row: twenty cells and a line feed.
pub const ROW_LEN: usize = 21;

/// Characters on the board.
pub const BOARD_LEN: usize = 210;

/// Character that shows the snake.
pub const SNAKE: u8 = 42;

/// Character that shows the target.
pub const TARGET: u8 = 37;

/// Character of an empty cell.
pub const EMPTY: u8 = 32;

/// Character of the top and bottom walls.
pub const HWALL: u8 = 45;

/// Character of the left and right walls.
pub const VWALL: u8 = 124;

/// Where the snake is heading.
#[derive(Clone, Copy, Debug, PartialEq, Eq, Structural)]
pub enum DirectionSnake {
    UP,
    DOWN,
    LEFT,
    RIGHT,
    STOPPED,
}

/// The game as it stands: the board as printed (rows of twenty characters
/// each followed by a line feed), where the snake heads, its row and
/// column, the score, and the row and column of the target.
pub ghost struct GameState {
    pub board: Seq<u8>,
    pub direction: DirectionSnake,
    pub row: int,
    pub col: int,
    pub score: int,
    pub dest_row: int,
    pub dest_col: int,
}

/// Index on the board of the cell at (`row`, `col`).
pub open spec fn cell(row: int, col: int) -> int {
    row * (ROW_LEN as int) + col
}

/// The character at board index `i` when the game starts: walls around,
/// the snake at (1, 1), the target at (8, 18).
pub open spec fn initial_char(i: int) -> u8 {
    let r = i / (ROW_LEN as int);
    let c = i % (ROW_LEN as int);
    if c == 20 {
        LF
    } else if r == 0 || r == 9 {
        HWALL
    } else if c == 0 || c == 19 {
        VWALL
    } else if r == 1 && c == 1 {
        SNAKE
    } else if r == 8 && c == 18 {
        TARGET
    } else {
        EMPTY
    }
}

/// The game when it starts.
pub open spec fn initial_state() -> GameState {
    GameState {
        board: Seq::new(BOARD_LEN as nat, |i: int| initial_char(i)),
        direction: DirectionSnake::STOPPED,
        row: 1,
        col: 1,
        score: 0,
        dest_row: 8,
        dest_col: 18,
    }
}

/// The heading after reading `input`: `w`, `s`, `a` and `d` turn the snake
/// up, down, left and right; anything else keeps the heading.
pub open spec fn heading(input: u8, direction: DirectionSnake) -> DirectionSnake {
    if input == 'w' as u8 {
        DirectionSnake::UP
    } else if input == 's' as u8 {
        DirectionSnake::DOWN
    } else if input == 'a' as u8 {
        DirectionSnake::LEFT
    } else if input == 'd' as u8 {
        DirectionSnake::RIGHT
    } else {
        direction
    }
}

/// The state after the snake turned and moved one cell on `input`: its old
/// cell is blanked when it moves.
pub open spec fn moved(s: GameState, input: u8) -> GameState {
    let d = heading(input, s.direction);
    let (row, col) = match d {
        DirectionSnake::UP => (s.row - 1, s.col),
        DirectionSnake::DOWN => (s.row + 1, s.col),
        DirectionSnake::LEFT => (s.row, s.col - 1),
        DirectionSnake::RIGHT => (s.row, s.col + 1),
        DirectionSnake::STOPPED => (s.row, s.col),
    };
    let board = if d is STOPPED {
        s.board
    } else {
        s.board.update(cell(s.row, s.col), EMPTY)
    };
    GameState { board, direction: d, row, col, ..s }
}

/// The snake has hit the top wall or a side wall.
pub open spec fn is_lost(s: GameState) -> bool {
    s.row == 0 || s.col == 19 || s.col == 0
}

/// The snake is on the target.
pub open spec fn on_target(s: GameState) -> bool {
    cell(s.row, s.col) == cell(s.dest_row, s.dest_col)
}

/// One round of the game on `input`: the snake turns and moves; if it hit
/// a wall the game is over; otherwise, when it reached the target the score
/// goes up and the target moves one row up and one column left, and the
/// snake is drawn at its new cell.
pub open spec fn next_state(s: GameState, input: u8) -> GameState {
    let m = moved(s, input);
    if is_lost(m) {
        m
    } else {
        let c = if on_target(m) {
            GameState {
                board: m.board.update(cell(m.dest_row - 1, m.dest_col - 1), TARGET),
                score: m.score + 1,
                dest_row: m.dest_row - 1,
                dest_col: m.dest_col - 1,
                ..m
            }
        } else {
            m
        };
        GameState { board: c.board.update(cell(c.row, c.col), SNAKE), ..c }
    }
}

/// A round on `input` stays on the board: the snake does not move down
/// from the bottom wall row.
pub open spec fn can_step(s: GameState, input: u8) -> bool {
    !(heading(input, s.direction) is DOWN && s.row >= 9)
}

/// The bytes that show the board: each character in order, a line feed
/// preceded by a carriage return.
pub open spec fn board_seq(board: Seq<u8>) -> Seq<u8> {
    wire(board)
}

/// The bytes of one frame of the running game: clear the screen, black on
/// bright green, hidden cursor, home position, then the board.
pub open spec fn frame_seq(board: Seq<u8>) -> Seq<u8> {
    clear_screen_seq() + color_seq(Color::BLACK, false, Color::GREEN, true)
        + cursor_visibility_seq(false) + position_seq(0, 0) + board_seq(board)
}

/// The bytes sent when the game is lost: black on bright red, then
/// "You lost".
pub open spec fn lost_seq() -> Seq<u8> {
    color_seq(Color::BLACK, false, Color::RED, true) + seq![
        'Y' as u8,
        'o' as u8,
        'u' as u8,
        ' ' as u8,
        'l' as u8,
        'o' as u8,
        's' as u8,
        't' as u8,
    ]
}

/// The board at the start, by row and column: line feeds after column 19,
/// `-` along the top and bottom rows, `|` along the sides, the snake `*`
/// at (1, 1), the target `%` at (8, 18), blanks elsewhere.
pub proof fn lemma_initial_board(r: int, c: int)
    requires
        0 <= r < 10,
        0 <= c < 21,
    ensures
        initial_state().board[r * 21 + c] == (if c == 20 {
            10u8
        } else if r == 0 || r == 9 {
            45u8
        } else if c == 0 || c == 19 {
            124u8
        } else if r == 1 && c == 1 {
            42u8
        } else if r == 8 && c == 18 {
            37u8
        } else {
            32u8
        }),
        initial_state().board.len() == 210,
{
    assert((r * 21 + c) / 21 == r && (r * 21 + c) % 21 == c);
}

/// A frame of the running game is, byte by byte, `ESC[m ESC[2J`,
/// `ESC[30;102m`, `ESC[?25l`, `ESC[1;1H`, then the board; the loss message
/// is `ESC[30;101m` and `You lost`.
pub proof fn lemma_frame_bytes(board: Seq<u8>)
    ensures
        frame_seq(board) == seq![27u8, 91u8, 109u8, 27u8, 91u8, 50u8, 74u8] + seq![
            27u8,
            91u8,
            51u8,
            48u8,
            59u8,
            49u8,
            48u8,
            50u8,
            109u8,
        ] + seq![27u8, 91u8, 63u8, 50u8, 53u8, 108u8] + seq![27u8, 91u8, 49u8, 59u8, 49u8, 72u8]
            + wire(board),
        lost_seq() == seq![27u8, 91u8, 51u8, 48u8, 59u8, 49u8, 48u8, 49u8, 109u8] + seq![
            89u8,
            111u8,
            117u8,
            32u8,
            108u8,
            111u8,
            115u8,
            116u8,
        ],
{
    assert(decimal(1) =~= seq![49u8]);
    assert(decimal(3) =~= seq![51u8]);
    assert(decimal(30) =~= seq![51u8, 48u8]);
    assert(decimal(10) =~= seq![49u8, 48u8]);
    assert(decimal(102) =~= seq![49u8, 48u8, 50u8]);
    assert(decimal(101) =~= seq![49u8, 48u8, 49u8]);
    assert(frame_seq(board) =~= seq![27u8, 91u8, 109u8, 27u8, 91u8, 50u8, 74u8] + seq![
        27u8,
        91u8,
        51u8,
        48u8,
        59u8,
        49u8,
        48u8,
        50u8,
        109u8,
    ] + seq![27u8, 91u8, 63u8, 50u8, 53u8, 108u8] + seq![27u8, 91u8, 49u8, 59u8, 49u8, 72u8]
        + wire(board));
    assert(lost_seq() =~= seq![27u8, 91u8, 51u8, 48u8, 59u8, 49u8, 48u8, 49u8, 109u8] + seq![
        89u8,
        111u8,
        117u8,
        32u8,
        108u8,
        111u8,
        115u8,
        116u8,
    ]);
}

/// Every round keeps the game well formed: the board keeps its size, the
/// snake stays on the board and the target on its diagonal.
pub proof fn lemma_round_keeps_wf(s: GameState, input: u8)
    requires
        state_wf(s),
        !is_lost(s),
        can_step(s, input),
    ensures
        state_wf(next_state(s, input)),
{
}

/// The score goes up by one in a round exactly when the snake survives it
/// and lands on the target; otherwise it stays.
pub proof fn lemma_round_score(s: GameState, input: u8)
    requires
        state_wf(s),
        !is_lost(s),
        can_step(s, input),
    ensures
        next_state(s, input).score == s.score + (if !is_lost(moved(s, input)) && on_target(
            moved(s, input),
        ) {
            1int
        } else {
            0int
        }),
        next_state(s, input).score >= s.score,
{
}

/// After a round the snake survives, its cell shows the snake; after one in
/// which it took the target, the new target's cell shows the target.
pub proof fn lemma_round_draws_snake_and_target(s: GameState, input: u8)
    requires
        state_wf(s),
        !is_lost(s),
        can_step(s, input),
    ensures
        ({
            let n = next_state(s, input);
            &&& !is_lost(n) ==> n.board[cell(n.row, n.col)] == SNAKE
            &&& !is_lost(n) && n.score > s.score ==> n.board[cell(n.dest_row, n.dest_col)]
                == TARGET
        }),
{
}

/// A key moves the snake one cell: `w` up, `s` down, `a` left, `d`
/// right; any other byte moves it as the key before did, or not at all
/// before the first key.
pub proof fn lemma_round_moves(s: GameState, input: u8)
    requires
        state_wf(s),
        !is_lost(s),
        can_step(s, input),
    ensures
        ({
            let n = next_state(s, input);
            &&& input == 119 ==> n.row == s.row - 1 && n.col == s.col
            &&& input == 115 ==> n.row == s.row + 1 && n.col == s.col
            &&& input == 97 ==> n.row == s.row && n.col == s.col - 1
            &&& input == 100 ==> n.row == s.row && n.col == s.col + 1
            &&& input != 119 && input != 115 && input != 97 && input != 100 ==> n.direction
                == s.direction && (n.row - s.row) + (n.col - s.col) == match s.direction {
                DirectionSnake::UP => -1int,
                DirectionSnake::DOWN => 1int,
                DirectionSnake::LEFT => -1int,
                DirectionSnake::RIGHT => 1int,
                DirectionSnake::STOPPED => 0int,
            }
            &&& n.row == s.row || n.col == s.col
        }),
{
}

/// When the snake moves, the cell it left shows an empty cell afterwards.
pub proof fn lemma_round_blanks_left_cell(s: GameState, input: u8)
    requires
        state_wf(s),
        !is_lost(s),
        can_step(s, input),
        next_state(s, input).row != s.row || next_state(s, input).col != s.col,
    ensures
        next_state(s, input).board[cell(s.row, s.col)] == EMPTY,
{
}

/// The snake is on the target exactly when its row and column are the
/// target's.
pub proof fn lemma_on_target_coordinates(s: GameState)
    requires
        state_wf(s),
    ensures
        on_target(s) <==> (s.row == s.dest_row && s.col == s.dest_col),
{
}

/// The score goes up in a round exactly when the snake survives it and
/// ends on the target's row and column; the target then moves one row up
/// and one column left.
pub proof fn lemma_round_scores_on_target(s: GameState, input: u8)
    requires
        state_wf(s),
        !is_lost(s),
        can_step(s, input),
    ensures
        ({
            let n = next_state(s, input);
            &&& n.score == s.score + 1 <==> (n.row != 0 && n.col != 0 && n.col != 19 && n.row
                == s.dest_row && n.col == s.dest_col)
            &&& n.score == s.score + 1 ==> n.dest_row == s.dest_row - 1 && n.dest_col
                == s.dest_col - 1
            &&& n.score != s.score + 1 ==> n.score == s.score && n.dest_row == s.dest_row
                && n.dest_col == s.dest_col
        }),
{
}

/// A round changes no board cell but the snake's old cell, its new cell
/// and the target's new cell.
pub proof fn lemma_round_frame(s: GameState, input: u8, i: int)
    requires
        state_wf(s),
        !is_lost(s),
        can_step(s, input),
        0 <= i < BOARD_LEN,
        i != cell(s.row, s.col),
        i != cell(next_state(s, input).row, next_state(s, input).col),
        i != cell(next_state(s, input).dest_row, next_state(s, input).dest_col),
    ensures
        next_state(s, input).board[i] == s.board[i],
{
}

/// The snake game on a twenty by ten board.
pub struct SnakeGame {
    img: Vec<u8>,
    snake_direction: DirectionSnake,
    snake_row: usize,
    snake_col: usize,
    snake_loc_arith: usize,
    user_score: u32,
    dest_row: usize,
    dest_col: usize,
    dest_flattened: usize,
}

impl View for SnakeGame {
    type V = GameState;

    closed spec fn view(&self) -> GameState {
        GameState {
            board: self.img@,
            direction: self.snake_direction,
            row: self.snake_row as int,
            col: self.snake_col as int,
            score: self.user_score as int,
            dest_row: self.dest_row as int,
            dest_col: self.dest_col as int,
        }
    }
}

/// What every game state satisfies: the board keeps its size, the snake is
/// on the board, the target sits on the diagonal it walks along as the
/// score goes up.
pub open spec fn state_wf(s: GameState) -> bool {
    &&& s.board.len() == BOARD_LEN
    &&& 0 <= s.row <= 9
    &&& 0 <= s.col <= 19
    &&& 0 <= s.dest_row <= 8
    &&& s.score + s.dest_row == 8
    &&& s.dest_col == s.dest_row + 10
}

impl SnakeGame {
    /// The well-formedness of a game: the state is well formed and the
    /// cached board indices agree with the coordinates.
    pub closed spec fn wf(&self) -> bool {
        &&& state_wf(self@)
        &&& self.snake_loc_arith == cell(self.snake_row as int, self.snake_col as int)
        &&& self.dest_flattened == cell(self.dest_row as int, self.dest_col as int)
    }

    /// A new game.
    pub fn new() -> (g: SnakeGame)
        ensures
            g.wf(),
            g@ == initial_state(),
    {
        let mut img: Vec<u8> = Vec::new();
        let mut i: usize = 0;
        while i < BOARD_LEN
            invariant
                i <= BOARD_LEN,
                img@.len() == i,
                forall|j: int| 0 <= j < i ==> #[trigger] img@[j] == initial_char(j),
            decreases BOARD_LEN - i,
        {
            let r = i / ROW_LEN;
            let c = i % ROW_LEN;
            let ch = if c == 20 {
                LF
            } else if r == 0 || r == 9 {
                HWALL
            } else if c == 0 || c == 19 {
                VWALL
            } else if r == 1 && c == 1 {
                SNAKE
            } else if r == 8 && c == 18 {
                TARGET
            } else {
                EMPTY
            };
            img.push(ch);
            i = i + 1;
        }
        assert(img@ =~= initial_state().board);
        SnakeGame {
            img,
            snake_direction: DirectionSnake::STOPPED,
            snake_row: 1,
            snake_col: 1,
            snake_loc_arith: 22,
            user_score: 0,
            dest_row: 8,
            dest_col: 18,
            dest_flattened: 186,
        }
    }

    /// The board as printed: ten rows of twenty characters, each row
    /// followed by a line feed.
    pub fn board(&self) -> (b: &Vec<u8>)
        ensures
            b@ == self@.board,
    {
        &self.img
    }

    /// The snake's row and column.
    pub fn snake(&self) -> (pos: (usize, usize))
        ensures
            pos.0 == self@.row,
            pos.1 == self@.col,
    {
        (self.snake_row, self.snake_col)
    }

    /// The target's row and column.
    pub fn target(&self) -> (pos: (usize, usize))
        ensures
            pos.0 == self@.dest_row,
            pos.1 == self@.dest_col,
    {
        (self.dest_row, self.dest_col)
    }

    /// The number of targets taken.
    pub fn score(&self) -> (score: u32)
        ensures
            score == self@.score,
    {
        self.user_score
    }

    /// Where the snake heads.
    pub fn direction(&self) -> (d: DirectionSnake)
        ensures
            d == self@.direction,
    {
        self.snake_direction
    }

    /// Whether a round on `input` keeps the snake on the board, that is,
    /// does not move it down from the bottom wall row.
    pub fn stays_on_board(&self, input: u8) -> (ok: bool)
        requires
            self.wf(),
        ensures
            ok == can_step(self@, input),
    {
        let heads_down = if input == 's' as u8 {
            true
        } else if input == 'w' as u8 || input == 'a' as u8 || input == 'd' as u8 {
            false
        } else {
            self.snake_direction == DirectionSnake::DOWN
        };
        !(heads_down && self.snake_row >= 9)
    }

    /// Whether the snake has hit a wall.
    pub fn lost(&self) -> (r: bool)
        requires
            self.wf(),
        ensures
            r == is_lost(self@),
    {
        self.snake_row == 0 || self.snake_col == 19 || self.snake_col == 0
    }

    /// Send the board, row by row.
    pub fn draw(&self, scr: &mut Screen)
        requires
            self.wf(),
        ensures
            final(scr)@ == old(scr)@ + board_seq(self@.board),
    {
        let n = self.img.len();
        let mut i: usize = 0;
        while i < n
            invariant
                n == self.img@.len(),
                i <= n,
                scr@ == old(scr)@ + wire(self.img@.take(i as int)),
            decreases n - i,
        {
            scr.send_byte(self.img[i]);
            assert(self.img@.take(i + 1).drop_last() =~= self.img@.take(i as int));
            i = i + 1;
        }
        assert(self.img@.take(n as int) =~= self.img@);
    }

    /// Turn the snake as `input` says and move it one cell, blanking the
    /// cell it leaves.
    fn turn_and_move(&mut self, input: u8)
        requires
            old(self).wf(),
            !is_lost(old(self)@),
            can_step(old(self)@, input),
        ensures
            final(self)@ == moved(old(self)@, input),
            final(self).snake_loc_arith == cell(final(self).snake_row as int, final(self).snake_col as int),
            final(self).dest_flattened == old(self).dest_flattened,
            final(self).img@.len() == BOARD_LEN,
    {
        let dir = if input == 'w' as u8 {
            DirectionSnake::UP
        } else if input == 's' as u8 {
            DirectionSnake::DOWN
        } else if input == 'a' as u8 {
            DirectionSnake::LEFT
        } else if input == 'd' as u8 {
            DirectionSnake::RIGHT
        } else {
            self.snake_direction
        };
        self.snake_direction = dir;
        match dir {
            DirectionSnake::UP => {
                self.img.set(self.snake_loc_arith, EMPTY);
                self.snake_row = self.snake_row - 1;
                self.snake_loc_arith = self.snake_row * ROW_LEN + self.snake_col;
            },
            DirectionSnake::DOWN => {
                self.img.set(self.snake_loc_arith, EMPTY);
                self.snake_row = self.snake_row + 1;
                self.snake_loc_arith = self.snake_row * ROW_LEN + self.snake_col;
            },
            DirectionSnake::LEFT => {
                self.img.set(self.snake_loc_arith, EMPTY);
                self.snake_col = self.snake_col - 1;
                self.snake_loc_arith = self.snake_row * ROW_LEN + self.snake_col;
            },
            DirectionSnake::RIGHT => {
                self.img.set(self.snake_loc_arith, EMPTY);
                self.snake_col = self.snake_col + 1;
                self.snake_loc_arith = self.snake_row * ROW_LEN + self.snake_col;
            },
            DirectionSnake::STOPPED => {},
        }
    }

    /// Play one round on the byte read from the keyboard (0 when no key was
    /// pressed): turn and move the snake, then either announce the loss or
    /// take the target if the snake reached it and redraw the screen.
    /// Returns whether the game goes on.
    pub fn step(&mut self, input: u8, scr: &mut Screen) -> (alive: bool)
        requires
            old(self).wf(),
            !is_lost(old(self)@),
            can_step(old(self)@, input),
        ensures
            final(self).wf(),
            final(self)@ == next_state(old(self)@, input),
            alive == !is_lost(final(self)@),
            alive ==> final(scr)@ == old(scr)@ + frame_seq(final(self)@.board),
            !alive ==> final(scr)@ == old(scr)@ + lost_seq(),
    {
        self.turn_and_move(input);
        if self.snake_row == 0 || self.snake_col == 19 || self.snake_col == 0 {
            proof {
                reveal_strlit("You lost");
                assert(is_ascii("You lost"));
                lemma_wire_no_lf("You lost".spec_bytes());
            }
            scr.set_color_fgbg(Color::BLACK, false, Color::RED, true);
            scr.send_str("You lost");
            return false;
        }
        if self.snake_loc_arith == self.dest_flattened {
            self.user_score = self.user_score + 1;
            self.dest_row = self.dest_row - 1;
            self.dest_col = self.dest_col - 1;
            self.dest_flattened = self.dest_row * ROW_LEN + self.dest_col;
            self.img.set(self.dest_flattened, TARGET);
        }
        self.img.set(self.snake_loc_arith, SNAKE);
        scr.clear_screen();
        scr.set_color_fgbg(Color::BLACK, false, Color::GREEN, true);
        scr.set_cursor_visisble(false);
        scr.set_position(0, 0);
        self.draw(scr);
        true
    }
}

} // verus!
