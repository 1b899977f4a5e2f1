# conway

Conway's Game of Life in the terminal, as a verified library and a thin
terminal front end.

- `src/grid.rs`: the board model (`Board`: size and cells), the rule, and
  the `Grid` that computes generations on a wrap-around board.
- `src/patterns.rs`: pattern art and its reading, the weighted catalog, and
  scattering patterns over a grid.
- `src/kinds.rs`: the still lifes and the period-two oscillators of the
  catalog, each proved to behave as its kind says on a board of its own.
- `src/random.rs`: the random generator of `rand`, behind two small trusted
  wrappers, and `Draws`, which keeps a record of every range asked for and
  every number drawn.
- `src/render.rs`: turning a grid into terminal commands, redrawing only
  what changed.
- `src/terminal.rs`: a model of the terminal, and the proof that a frame's
  commands leave the grid and the status line on screen.
- `src/app.rs`, `src/input.rs`: the application state and the meaning of
  every key and event.
- `app/main.rs`: the command line, the terminal, and the event loop.
