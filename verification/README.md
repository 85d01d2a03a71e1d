# oopsmate

Chess move tables and NNUE position evaluation with contracts checked by Verus.

- `src/moves`: knight, bishop and pawn attack sets on 64-bit bitboards, and attack tables
  indexed by blocker subsets.
- `src/loader`, `src/network`, `src/feature_transformer`, `src/layers`: Stockfish-style
  `.nnue` networks read from their bytes, and the dense layers of the forward pass; two
  reads of the same bytes give networks with the same parameters, which evaluate alike.
- `src/accumulator`, `src/accumulator_stack`, `src/finny_tables`: accumulators refreshed from
  a piece list, updated move by move, and rebuilt through per-king-square caches.
- `src/probe`: a stateful evaluator that tracks a board and one accumulator ply per move;
  its laws say that incremental updates agree with full refreshes and that taking a move
  back restores the score.
- `src/scalar`: a plain evaluator that reads a FEN string and recomputes everything on every
  call.
- `app/`: the command-line front end (file reading, timing, centipawn conversion).
