# tetrinet

Client-side logic of a TetriNET 1.13 client, verified with Verus.

- `src/login.rs` — the encoded `tetrisstart <nickname> 1.13` command sent after connecting,
  with its specification and the round-trip laws of its decoding.
- `src/board.rs` — the playfield: grid, falling piece, moves, gravity and locking.
- `src/state.rs` — the client's top-level states and the title screen's decision.
- `app/` — the Bevy program around the library (windows, sprites, timers, input).
- `tests/` — tests of the library on concrete values.
