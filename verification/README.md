# asyncgit graph lanes

The commit-graph layout of a git log view, verified with Verus.

- `src/graph/buffer.rs` — the lane state of the walk, kept as the latest
  state plus one delta per commit and a checkpoint every 100 commits;
  `decompress` rebuilds the state of any row range.
- `src/graph/walker.rs` — folding commits into the lane state and rendering
  rows (commit markers, pass-through lines, merge and branch bridges).
- `src/graph/draw.rs` — connector glyphs and how overlapping lines merge.
- `src/graph/oids.rs` — dense numeric aliases for commit ids.
- `src/revlog.rs` — the pure parts of the background log: slicing the walked
  commits and deciding which commits the graph still has to fold in.
- `app/` — the git side (opening the repository with `gix`, the background
  walk, channels and threads), unverified.
