# dungen

Procedurally generated 2D maps ("dungeons"), grid operations and pathfinding, as a Verus
library with its contracts proved.

- `src/data` — cells, the `MapGrid` grid and its operations, the text formats (grid strings,
  map files, the framed display) with the law that rendering a grid and parsing it back gives
  the same grid, premade mazes, and conversion to and from `pathfinding` grids.
- `src/gen` — cellular automata, rooms, grid classification, and the room-based generators
  (the room placer is a state machine that each attempt advances), with the count of the
  cells that rooms cover: the tiered generator's maps hold at least 225 cells that are on.
- `src/pf` — pathfinding over a grid's `off` cells through the `pathfinding` crate; the
  contracts of its trusted wrappers state what the crate's documentation promises of the
  paths it returns.
- `src/pipe` — pipelines of steps that each turn a grid into the next and record their changes.
- `src/util` — tri-state logic, ANSI styles, Bresenham lines, integer square roots, text helpers
  and the random number wrappers.
- `app/` — the demonstration runner: command line, timing, files, serialization (JSON and
  MessagePack), PNG drawing, terminal menus, and the parts that work in floating point.
- `tests/` — tests of the library.
