# nuttchess

A bitboard chess engine core whose logic is verified with Verus.

- `src/bitboard.rs`: bit-level facts about 64-bit boards.
- `src/tables.rs`: leaper attack tables, slider masks and rays, magic-number
  hashing, the candidate test of the magic-number search, and the proof that
  a magic number passing that test makes its lookups exact.
- `src/exactness.rs`: a check on built tables; when every magic number
  passes it, every rook and bishop lookup gives the real attack set, for
  every occupancy (the tests run it on the tables `Tables::new` builds).
- `src/masks.rs`: the rook and bishop relevant-occupancy masks lie within
  what the piece attacks on an empty board, and a bishop mask holds at most
  nine squares.
- `src/leapers.rs`: the knight and king tables are symmetric, and the white
  and black pawn capture tables mirror each other.
- `src/board.rs`: the board, its mathematical model, and making and taking
  back moves (taking back a move restores the board exactly when the
  move's pieces stand where the move says).
- `src/attacks.rs`: attack masks, attackers, blockers, pins and check.
- `src/generate.rs`: move generation, specified exactly, move by move.
- `src/takeback.rs`: on a sound board, taking back a generated move restores
  the board exactly: every move out of check, and in check every move but
  those that block the check.
- `src/notation.rs`: FEN reading, square and move names, bitboard display.
- `src/eval.rs`: material, piece-square scores, the move-by-move score
  change and the static evaluation.
- `src/tt.rs`: Zobrist keys and board hashes; handing over the move changes
  the hash by the side key, giving up a castling right by its key, and
  clearing an en passant target by its key.
- `src/search.rs`: perft, quiescence, alpha-beta and iterative deepening, with
  the proof that pruning does not change the move found.
- `src/uci.rs`: UCI command parsing and message text.
- `src/random.rs`: the xorshift generator that draws keys and magic
  candidates.
- `app/main.rs`: the UCI loop over standard input and output.
