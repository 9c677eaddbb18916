//! Creating positions and reading simple facts off them.
use vstd::prelude::*;
use crate::board::{Board, initial_piece, initial_color};
use crate::types::{CastlingRights, Color, PositionContext};
use crate::zobrist::{position_hash, calc_position_zobrist_hash};
use crate::position::state::{Position, ZobristPolicy};
use crate::position::pins::pins_checks_ok;
use crate::board_checks::insufficient;

verus! {

impl<Z: ZobristPolicy> Position<Z> {
    /// The standard starting position, White to move, all castling rights, one context.
    pub fn initial() -> (p: Self)
        ensures
            p.wf(),
            p.hash_ok(),
            forall|s: int| 0 <= s < 64 ==> #[trigger] p.board.piece(s) == initial_piece(s),
            forall|s: int| 0 <= s < 64 ==> #[trigger] p.board.color(s) == initial_color(s),
            p.stm() == Color::White,
            p.halfmove == 0,
            p.ctxs().len() == 1,
            p.ctx().halfmove_clock == 0,
            p.ctx().double_pawn_push_file == -1,
            p.ctx().castling_rights == CastlingRights::B1111,
            p.ctx().captured_piece == crate::types::Piece::Null,
            pins_checks_ok(p.board, p.stm(), p.ctx().pinned, p.ctx().checkers),
    {
        let board = Board::initial();
        let mut context = PositionContext::blank();
        context.castling_rights = CastlingRights::B1111;
        if Z::tracks() {
            context.zobrist_hash = calc_position_zobrist_hash(
                &board,
                context.castling_rights,
                context.double_pawn_push_file,
                Color::White,
            );
        }
        let mut contexts: Vec<PositionContext> = Vec::new();
        contexts.push(context);
        let mut res = Position {
            board,
            halfmove: 0,
            side_to_move: Color::White,
            contexts,
            policy: Z::policy(),
        };
        res.update_pins_and_checks();
        res
    }

    /// Gives the position the side to move `next` (use when the board and contexts already
    /// describe `next` to move).
    pub fn rebrand_stm(self, next: Color) -> (p: Self)
        ensures
            p == (Position { side_to_move: next, ..self }),
    {
        let mut p = self;
        p.side_to_move = next;
        p
    }

    /// The fullmove number, starting at 1 and increasing after each Black move.
    pub fn get_fullmove(&self) -> (n: u16)
        ensures
            n == self.halfmove / 2 + 1,
    {
        self.halfmove / 2 + 1
    }

    /// Whether the halfmove clock has reached 100 (the fifty-move rule applies).
    pub fn is_fifty_move_rule_reached(&self) -> (r: bool)
        requires
            self.ctxs().len() >= 1,
        ensures
            r == (self.ctx().halfmove_clock >= 100),
    {
        self.context().halfmove_clock >= 100
    }

    /// Whether the incremental hash equals the hash computed from scratch (always true when
    /// hashes are not kept).
    pub fn is_zobrist_consistent(&self) -> (r: bool)
        requires
            self.ctxs().len() >= 1,
        ensures
            r == self.hash_ok(),
    {
        if !Z::tracks() {
            return true;
        }
        let ctx = self.context();
        ctx.zobrist_hash == calc_position_zobrist_hash(
            &self.board,
            ctx.castling_rights,
            ctx.double_pawn_push_file,
            self.side_to_move,
        )
    }

    /// Whether neither side has enough material to checkmate (with the USCF two-knights rule
    /// when `USCF`).
    pub fn is_insufficient_material<const USCF: bool>(&self) -> (r: bool)
        ensures
            r == insufficient(self.board, USCF),
    {
        self.board.are_both_sides_insufficient_material(USCF)
    }
}

} // verus!
