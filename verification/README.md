# blokus_core_rs

The rules of Blokus Duo on a 14 × 14 board, written in Verus and verified.

- `src/table.rs` — board constants, the 21 piece names and the table of their
  91 orientations (every distinct rotation and reflection, normalised to the
  top-left corner of its box).
- `src/pieces.rs` — orientations as values, lookup by id and by piece, piece sizes.
- `src/types.rs` — moves, start rules, the game state and their models.
- `src/rules.rs` — the cells a move covers, placement legality and the
  generation of every legal placement.
- `src/game.rs` — the initial state, legal moves, applying a move, the end of the game.
- `src/score.rs` — scores.
- `src/action.rs` — the action numbering shared with the policy network.
- `src/features.rs` — the 51 input planes of the policy-value network.
- `src/rng.rs` — a seeded linear congruential generator, its shuffle, and
  the fast self-play policy (a random move among those placing the largest piece).
- `src/selfplay.rs` — whole fast self-play games.
- `src/laws.rs` — properties of whole games: progress and termination,
  pieces never overlap, and in every position reached each player's hand and
  placed pieces are exactly the 21 pieces, their cells match the squares
  they placed, and scores lie between -89 and 20.
- `src/cli.rs`, `src/replay.rs` — option pairs and the replay file frame.
- `app/` — the command-line programs: the JSONL sample generator and the
  Burn trainer and PUCT self-play, which run floating-point networks.
