# antisun

The rules of a small exploration platformer, verified with Verus, and the browser front end
around them.

- `src/map.rs` lays out the world from three random walks of five moves: rooms on a grid,
  doors on the edges the walks cross (level 1, 2 or 3: the first walk through them), and
  power-up orbs at the ends of the walks. `src/map_laws.rs` proves what every such map
  satisfies: doors join neighbouring rooms, every room is reachable, and each orb can be
  reached with the powers found before it.
- `src/room.rs` gives the tiles of a room: walls on the border, doors cut into them.
- `src/game.rs` holds the discrete rules of play: keys, the map view, steering, which tiles
  block the player, picking up orbs.
- `src/render.rs` says what to draw, on the tile grid.
- `app/` is the browser side: floating-point physics and collision, the canvas, the page.
