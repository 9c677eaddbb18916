//! Chess move generation, position bookkeeping and game notation.
pub mod bitboard;
pub mod types;
pub mod board;
pub mod attacks;
pub mod prng;
pub mod zobrist;
pub mod position;
pub mod board_attacks;
pub mod board_checks;
pub mod fen;
pub mod game_state;
pub mod san;
pub mod text;
pub mod pgn;
