# snake_console

A verified library for a small RISC-V board program set: terminal control
over a serial line, an input queue for the bytes received on it, a snake
game drawn on the terminal, and one-dimensional k-means clustering over
`heapless` fixed-capacity vectors.

- `src/color.rs`: the 4-bit ANSI palette and its SGR codes.
- `src/terminal.rs`: what goes on the line for bytes, strings, integers and
  the control sequences (cursor, position, colors, clearing), with the
  decimal printing proved to read back to the printed value.
- `src/screen.rs`: a screen whose operations queue the bytes they send.
- `src/input.rs`: the receive queue (FIFO) of the serial line.
- `src/game.rs`: the snake game as a state machine, one round per key.
- `src/kmeans.rs`: the clustering, specified round by round.
- `src/fixed_vec.rs`: the `heapless::Vec` operations the clustering calls,
  with their contracts.
- `app/`: the board program: clocks, UART, timer, and the loops that move
  bytes between the line and the library.
