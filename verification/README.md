# hex_rs

A terminal Hex game: two sides, Red and Blue, take turns placing stones on a rhombic board;
Red wants a chain of its stones from the top row to the bottom row, Blue from the left column to
the right column. An optional swap rule lets the second move take the cell of the first.

The game logic is a library verified with Verus; the terminal front end is a thin program
around it.

## Layout

- `src/game.rs`: sides, cells, moves and the board; `HexBoard::apply_move` plays a move and
  settles the winner.
- `src/connectivity.rs`: what it means for a side to join its edges (`HexBoard::connects`,
  a chain of adjacent stones), and the winner check that decides it with a union-find over
  the cells and the four edges.
- `src/union_find.rs`: disjoint sets with union by rank and path compression, specified as a
  partition.
- `src/config.rs`: the game settings and the text of the configuration file, read and written.
- `src/menu.rs`: the settings menu and the key handling of the board screen.
- `src/agents.rs`, `src/agents/`: players that take moves from a channel or play at random.
- `src/text.rs`: decimal notation and other text helpers.
- `app/main.rs`: terminal drawing (ratatui), input (crossterm), the game thread and the
  configuration file on disk.
- `tests/`: tests of the library.
