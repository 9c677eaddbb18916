//! Per-ply state kept on the position's context stack.
use vstd::prelude::*;
use crate::types::{CastlingRights, DoublePawnPushFile, Piece};

verus! {

/// State of one ply that the board alone does not record.
#[derive(Clone, Copy, PartialEq, Eq, Debug, Structural)]
pub struct PositionContext {
    /// Halfmoves since the last pawn move or capture (for the fifty-move rule).
    pub halfmove_clock: u8,
    /// File of a pawn that just advanced two squares, `-1` if none.
    pub double_pawn_push_file: DoublePawnPushFile,
    /// Castling availability.
    pub castling_rights: CastlingRights,
    /// The piece captured by the move that produced this context, `Null` if none.
    pub captured_piece: Piece,
    /// Incremental Zobrist hash of the position (zero when hashes are not tracked).
    pub zobrist_hash: u64,
    /// Pieces of the side to move pinned to their king.
    pub pinned: u64,
    /// Pieces of the opponent giving check to the side to move.
    pub checkers: u64,
}

impl PositionContext {
    /// A context with nothing set: clock zero, no double push, no castling rights, nothing
    /// captured, zero hash, no pins or checks.
    pub fn blank() -> (c: PositionContext)
        ensures
            c == PositionContext::blank_spec(),
    {
        PositionContext {
            halfmove_clock: 0,
            double_pawn_push_file: -1i8,
            castling_rights: CastlingRights::B0000,
            captured_piece: Piece::Null,
            zobrist_hash: 0,
            pinned: 0,
            checkers: 0,
        }
    }

    /// Whether the halfmove clock is at most 100.
    pub fn has_valid_halfmove_clock(&self) -> (r: bool)
        ensures
            r == (self.halfmove_clock <= 100),
    {
        self.halfmove_clock <= 100
    }
}

impl Default for PositionContext {
    fn default() -> (c: PositionContext)
        ensures
            c == PositionContext::blank_spec(),
    {
        Self::blank()
    }
}

impl PositionContext {
    /// The blank context.
    pub open spec fn blank_spec() -> PositionContext {
        PositionContext {
            halfmove_clock: 0,
            double_pawn_push_file: -1i8,
            castling_rights: CastlingRights::B0000,
            captured_piece: Piece::Null,
            zobrist_hash: 0,
            pinned: 0,
            checkers: 0,
        }
    }
}

} // verus!
