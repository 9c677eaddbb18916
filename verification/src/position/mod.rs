//! Positions: a board, the side to move, the halfmove count and a stack of per-ply contexts.
pub mod state;
pub mod make_move;
pub mod pins;
pub mod setup;
pub mod move_generation;
pub mod castling;
pub mod perft;
pub mod typed_position;
pub mod legality;
