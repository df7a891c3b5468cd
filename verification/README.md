# haitaka

A shogi move generator with its behaviour stated and proved in Verus.

- `src/color.rs`, `file.rs`, `rank.rs`, `square.rs`, `piece.rs`: coordinates and pieces.
- `src/bits.rs`, `bitboard.rs`: sets of squares on a `u128`, with bit-level specifications.
- `src/attacks.rs`, `sliders.rs`: step attacks and sliding moves; the fast sliding moves
  are proved equal to square-by-square ray walks.
- `src/shogi_move.rs`: moves and the USI and Grimbergen move notations.
- `src/board/zobrist.rs`: the position with its incrementally updated Zobrist hash, kept
  equal to the hash of the position.
- `src/board/mod.rs`: the board with its checkers, pins and pawn-file cache, and playing
  moves.
- `src/board/piece_moves.rs`: sets of moves of one piece and their iteration.
- `src/board/movegen.rs`: legality, move generation, check generation and game status.
- `src/board/legality.rs`: proofs that generation and legality agree, for all moves and
  for checks.
- `src/board/validate.rs`, `parse.rs`: position validity, SFEN reading and writing.

`tests/` holds ordinary Rust tests of the library.
