# maxmech

The backend of a small multiplayer browser game. Clients connect over
websockets; each connection gets a hero in a shared world of boxes and floor
tiles, sends key presses and releases, and receives the world as JSON-like
text messages: a full one first, then differences.

## Layout

- `src/` — the library, with contracts and proofs:
  - `engine/` — what the engine asks of a game: the `Input` and `Data`
    traits, `SessionInput`, `MsgType`.
  - `sessionid.rs` — session ids and their order.
  - `input.rs` — the game's inputs and how a client's text reads as one.
  - `game.rs` — the game's per-session data (each session's hero key) and
    its configuration.
  - `sprite.rs` — heroes, boxes, floor tiles, the starting sprites, and the
    messages that describe a sprite.
  - `scene.rs` — the model of a step: how inputs change the sprites and
    the heroes' keys, and the laws that hold of it.
  - `world.rs` — the world: one step of the game and the message for a
    session.
  - `stash_table.rs` — the sprite table, a `stash::Stash`, and what is
    believed of it.
  - `text.rs` — decimal notation, comparison and joining of texts.
  - `connections.rs` — what a connection does with the protocols a client
    offers and the messages it sends, and when a world connection sends a
    full message or a diff.
- `app/` — the server program: websocket I/O, threads, the game loop, and
  the arithmetic and printing of single-precision numbers (heroes and boxes
  moving, the clock), which the library keeps only as bit patterns.
- `tests/` — tests of the library.
