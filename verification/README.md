# bunnies

A chess library whose logic is verified with Verus: bitboards and board state, magic-number
lookup of sliding attacks, move making and unmaking with incremental Zobrist hashing, legal
move generation, perft, FEN and SAN, and reading and writing games in PGN.

## Layout

- `src/` — the verified library.
  - `bitboard.rs`, `board.rs`, `board_attacks.rs`, `board_checks.rs`, `types/`: squares,
    pieces, moves, castling rights and the board with its consistency conditions.
  - `attacks/`: attacks computed from the movement rules, precomputed knight and king
    attacks, relevant masks, the magic-number search and the stored table format.
  - `position/`: the position with its context stack, making and unmaking moves, pins and
    checks, legal move generation (`move_generation.rs`, with the king-safety proofs in
    `legality.rs`), castling and perft.
  - `fen.rs`, `san.rs`, `game_state.rs`, `zobrist.rs`, `prng.rs`, `text.rs`.
  - `pgn/`: the lexer, the parser, the move tree and rendering back to PGN.
- `tests/` — tests run against the compiled library.
- `app/` — storing and loading the magic tables in files.

The main guarantees: the moves generated are exactly the legal moves, each once, wherever
legal play from the starting position leads; perft counts the leaves of the tree of legal
moves; making and then unmaking a move restores the position; the incremental hash stays the
full hash; magic lookups equal the attacks computed from the rules; PGN parsing accepts a move
exactly when it writes one legal move, and rendering writes every playable move in SAN.
