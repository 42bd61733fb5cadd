use snake_console::game::{DirectionSnake, SnakeGame};
use snake_console::screen::Screen;

fn initial_picture() -> Vec<u8> {
    let mut rows: Vec<String> = Vec::new();
    rows.push("-".repeat(20));
    for r in 1..9 {
        let mut row = String::from("|");
        for c in 1..19 {
            row.push(if r == 1 && c == 1 {
                '*'
            } else if r == 8 && c == 18 {
                '%'
            } else {
                ' '
            });
        }
        row.push('|');
        rows.push(row);
    }
    rows.push("-".repeat(20));
    let mut out = Vec::new();
    for row in rows {
        out.extend_from_slice(row.as_bytes());
        out.push(b'\n');
    }
    out
}

fn frame_prefix() -> Vec<u8> {
    b"\x1b[m\x1b[2J\x1b[30;102m\x1b[?25l\x1b[1;1H".to_vec()
}

fn crlf(board: &[u8]) -> Vec<u8> {
    let mut out = Vec::new();
    for b in board {
        if *b == b'\n' {
            out.push(b'\r');
        }
        out.push(*b);
    }
    out
}

#[test]
fn new_game_board() {
    let g = SnakeGame::new();
    assert_eq!(g.board().len(), 210);
    assert_eq!(*g.board(), initial_picture());
    assert_eq!(g.snake(), (1, 1));
    assert_eq!(g.target(), (8, 18));
    assert_eq!(g.score(), 0);
    assert_eq!(g.direction(), DirectionSnake::STOPPED);
    assert!(!g.lost());
}

#[test]
fn draw_sends_board_with_carriage_returns() {
    let g = SnakeGame::new();
    let mut scr = Screen::new();
    g.draw(&mut scr);
    let sent = scr.take_output();
    assert_eq!(sent, crlf(&initial_picture()));
    assert_eq!(sent.len(), 220);
}

#[test]
fn stopped_snake_stays_and_redraws() {
    let mut g = SnakeGame::new();
    let mut scr = Screen::new();
    assert!(g.step(0, &mut scr));
    assert_eq!(g.snake(), (1, 1));
    assert_eq!(*g.board(), initial_picture());
    let mut expected = frame_prefix();
    expected.extend(crlf(&initial_picture()));
    assert_eq!(scr.take_output(), expected);
}

#[test]
fn key_turns_and_heading_is_kept() {
    let mut g = SnakeGame::new();
    let mut scr = Screen::new();
    assert!(g.step(b'd', &mut scr));
    assert_eq!(g.snake(), (1, 2));
    assert_eq!(g.direction(), DirectionSnake::RIGHT);
    assert_eq!(g.board()[22], b' ');
    assert_eq!(g.board()[23], b'*');
    assert!(g.step(0, &mut scr));
    assert_eq!(g.snake(), (1, 3));
    assert!(g.step(b'x', &mut scr));
    assert_eq!(g.snake(), (1, 4));
    assert!(g.step(b's', &mut scr));
    assert_eq!(g.snake(), (2, 4));
    assert_eq!(g.direction(), DirectionSnake::DOWN);
    let mut expected = initial_picture();
    expected[22] = b' ';
    expected[2 * 21 + 4] = b'*';
    assert_eq!(*g.board(), expected);
}

#[test]
fn hitting_top_wall_loses() {
    let mut g = SnakeGame::new();
    let mut scr = Screen::new();
    assert!(!g.step(b'w', &mut scr));
    assert!(g.lost());
    assert_eq!(g.snake(), (0, 1));
    assert_eq!(scr.take_output(), b"\x1b[30;101mYou lost".to_vec());
}

#[test]
fn hitting_left_wall_loses() {
    let mut g = SnakeGame::new();
    let mut scr = Screen::new();
    assert!(!g.step(b'a', &mut scr));
    assert!(g.lost());
    assert_eq!(g.snake(), (1, 0));
}

#[test]
fn hitting_right_wall_loses() {
    let mut g = SnakeGame::new();
    let mut scr = Screen::new();
    for _ in 0..17 {
        assert!(g.step(b'd', &mut scr));
    }
    assert_eq!(g.snake(), (1, 18));
    assert!(!g.step(0, &mut scr));
    assert_eq!(g.snake(), (1, 19));
}

#[test]
fn taking_the_target_scores_and_moves_it() {
    let mut g = SnakeGame::new();
    let mut scr = Screen::new();
    for _ in 0..17 {
        assert!(g.step(b'd', &mut scr));
    }
    for _ in 0..6 {
        assert!(g.step(b's', &mut scr));
    }
    assert_eq!(g.snake(), (7, 18));
    assert_eq!(g.score(), 0);
    scr.take_output();
    assert!(g.step(0, &mut scr));
    assert_eq!(g.snake(), (8, 18));
    assert_eq!(g.score(), 1);
    assert_eq!(g.target(), (7, 17));
    assert_eq!(g.board()[8 * 21 + 18], b'*');
    assert_eq!(g.board()[7 * 21 + 17], b'%');
    let mut expected = frame_prefix();
    expected.extend(crlf(g.board()));
    assert_eq!(scr.take_output(), expected);
}

#[test]
fn bottom_wall_row_is_reachable_but_not_passable() {
    let mut g = SnakeGame::new();
    let mut scr = Screen::new();
    for _ in 0..8 {
        assert!(g.stays_on_board(b's'));
        assert!(g.step(b's', &mut scr));
    }
    assert_eq!(g.snake(), (9, 1));
    assert_eq!(g.board()[9 * 21 + 1], b'*');
    assert!(!g.stays_on_board(b's'));
    assert!(!g.stays_on_board(0));
    assert!(g.stays_on_board(b'w'));
    assert!(g.stays_on_board(b'd'));
}
