# Sketris

A falling-block game for the terminal, with its rules verified by Verus.

- `src/` is the verified library:
  - `shape.rs`: the seven shapes, their cell tables for the four
    orientations, the wall-kick tables, colours.
  - `piece.rs`: the piece in play and the trial piece that moves and
    rotations are tried on.
  - `bag.rs`: the seven-piece bag, shuffled with `rand`.
  - `well.rs`: the well of twenty rows by ten cells, where a piece fits,
    how it lands, and how full rows are taken out.
  - `input.rs`: key events and what each asks for.
  - `game.rs`: the game state, its invariant, gravity, lock-down, locking,
    scoring and key handling.
- `app/main.rs` sets the terminal up (crossterm), runs the game loop with the
  clock and the keyboard, and draws the game (ratatui).
- `tests/` runs the library on concrete games.

Times are nanoseconds on a clock the caller reads; the app counts them from
its start.
