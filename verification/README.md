# srs_tetris

A terminal Tetris whose rules are a library verified with Verus.

- `src/piece.rs`: the seven tetrominoes, their rotation states, placed pieces.
- `src/bag.rs`: the 7-bag randomizer; shuffling goes through `rand`.
- `src/rules.rs`: the playfield, collision, line clears, SRS wall kicks,
  T-spin corners and the scoring table.
- `src/game.rs`: the game state and its moves: shifts, rotations, drops,
  locking, the flash of full rows before they collapse, back-to-back and
  combo scoring, lock delay, hold, game over, the final score.
- `src/control.rs`: what a key does, when gravity and the lock delay act,
  how long to wait for input, what each cell shows.
- `src/scores.rs`: the high-score list and its text form.
- `src/laws.rs`: properties that span several moves.
- `app/main.rs`: the crossterm front end: keys, clock, drawing, score file.

Time is passed in as nanoseconds on the caller's clock, so the timing rules
are proved for every clock reading.
