//! Chess domain types: colors, pieces, squares, moves, castling rights and positions.
pub mod castling_rights;
pub mod color;
pub mod double_pawn_push_file;
pub mod file;
pub mod flank;
pub mod knight_move_direction;
pub mod move_flag;
pub mod moves;
pub mod piece;
pub mod position_context;
pub mod queen_like_move_direction;
pub mod rank;
pub mod square;
pub mod square_delta;
pub mod unified_move_direction;

pub use castling_rights::CastlingRights;
pub use color::Color;
pub use double_pawn_push_file::{ConstDoublePawnPushFile, DoublePawnPushFile};
pub use file::File;
pub use flank::Flank;
pub use knight_move_direction::KnightMoveDirection;
pub use move_flag::MoveFlag;
pub use moves::{Move, MoveList};
pub use piece::Piece;
pub use position_context::PositionContext;
pub use queen_like_move_direction::QueenLikeMoveDirection;
pub use rank::Rank;
pub use square::Square;
pub use square_delta::{SquareDelta, SquareDeltaUtils};
pub use unified_move_direction::UnifiedMoveDirection;
