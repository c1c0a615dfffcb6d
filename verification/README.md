# rustix_runtime

The game and editor logic of the Rustix runtime, written in Verus. The public
functions in `src/` carry contracts, and Verus proves each body against its
contract; the few calls into std and the `image` crate that Verus cannot read
stand behind small trusted wrappers whose contracts say what those calls do.

## Layout

- `src/tetris.rs` — the Tetris game: board, pieces, SRS rotation with wall
  kicks, line clearing and scoring, hold, hard drop, gravity steps and
  auto-shift. Each operation's effect is stated as a function on `GameModel`.
- `src/tetris_limits.rs` — exact run-time tests of the integer-range
  preconditions of the game operations, for callers outside Verus.
- `src/tetris_laws.rs` — what holds of every game: the 7-bag, the board after
  clearing, the sound-state invariant kept by every operation, scoring, and the
  ghost row as the hard-drop landing row.
- `src/undo.rs` — undo/redo history with compound actions and per-subsystem
  undo.
- `src/voxel.rs` — voxel chunks, terrain generation from column heights, face
  visibility and ray-hit normals.
- `src/scene.rs`, `src/hierarchy.rs`, `src/viewport.rs` — the scene registry and
  streaming decisions, the entity tree of the hierarchy panel (rows, drops,
  parent choices, entity naming and search), editor viewports.
- `src/texture.rs` — RGBA8 decoding (through the `image` crate), box-filtered
  mip chains and the choice of block compression.
- `src/asset_browser.rs`, `src/terrain.rs`, `src/batching.rs`,
  `src/sprite_editor.rs`, `src/script_presets.rs`, `src/gizmo.rs`,
  `src/frame_graph_overlay.rs`, `src/text.rs` — smaller editor rules.
- `tests/` — tests of the library on concrete values.
- `app/` — the command-line runtime around the library: file and directory
  access, floating-point noise and geometry, egui drawing and input, and the
  frame timers of the Tetris loop.

## Checking

`verus src/lib.rs --crate-type lib` verifies the library; the tests build
against it as ordinary Rust.
