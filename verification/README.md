# monopoly

The rule engine of a Monopoly-style board game for two to eight players,
with the protocol types and room logic around it, verified with Verus.

- `src/` is the verified library. `engine*.rs` hold the state machine: every
  command is specified by `EngineView::command`, and `GameEngine::handle`
  is proved to give exactly that outcome. `board`, `deeds`, `cards`,
  `auction` and `trade` model the parts of the game; `archive` and
  `snapshot` what is stored and shown; `solvency` proves that no player in
  the game falls into debt and every owned tile has an owner still playing.
  `server/` and `discover` hold the room-level decisions (autopilot for
  disconnected players, identities, errors, network scan lists).
- `app/` is the server program around it: HTTP and WebSocket with axum,
  one tokio task per room, in-memory persistence and LAN discovery.
- `tests/` run the library on concrete games.
