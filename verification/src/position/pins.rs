//! Pins and checks against the king of the side to move.
use vstd::prelude::*;
use crate::bitboard::{bb_has, sq_bit, pop, group_has, pop_last_square, count_squares, lemma_pop_single, lemma_squares_ext};
use crate::board::Board;
use crate::board_attacks::lemma_empty_iff;
use crate::types::{Color, Piece, PositionContext, Square};
use crate::types::square::{between, between_spec, same_diag, same_anti_diag, same_rank, same_file};
use crate::types::knight_move_direction::knight_jump;
use crate::attacks::manual::{multi_pawn_attacks, pawn_attack, pawn_attack_left, pawn_attack_right, pawns_attack_left, pawns_attack_right};
use crate::attacks::precomputed::single_knight_attacks;
use crate::position::state::{Position, ZobristPolicy};

verus! {

broadcast use group_has;

/// The kings of `c`.
pub open spec fn kings_of(b: Board, c: Color) -> u64 {
    b.pm(Piece::King.idx()) & b.cm(c.idx())
}

/// An opposing slider on `a` is lined up with the king square `k` of `stm` along a line it
/// moves on.
pub open spec fn pin_line(b: Board, stm: Color, k: int, a: int) -> bool {
    &&& bb_has(b.cm(stm.opp().idx()), a)
    &&& ((bb_has(b.pm(3) | b.pm(5), a) && (same_diag(k, a) || same_anti_diag(k, a))) || (bb_has(
        b.pm(4) | b.pm(5),
        a,
    ) && (same_rank(k, a) || same_file(k, a))))
}

/// No square strictly between `k` and `a` is occupied.
pub open spec fn clear_between(b: Board, k: int, a: int) -> bool {
    forall|u: int| 0 <= u < 64 && #[trigger] between_spec(k, a, u) ==> !bb_has(b.occ(), u)
}

/// `t` is the only occupied square strictly between `k` and `a`.
pub open spec fn sole_blocker(b: Board, k: int, a: int, t: int) -> bool {
    &&& between_spec(k, a, t)
    &&& bb_has(b.occ(), t)
    &&& forall|u: int|
        0 <= u < 64 && #[trigger] between_spec(k, a, u) && bb_has(b.occ(), u) ==> u == t
}

/// The opposing piece on `t` gives check to the king of `stm` on `k`: a lined-up slider with
/// nothing in between, a knight a knight's jump away, or a pawn that attacks `k`.
pub open spec fn is_checker(b: Board, stm: Color, k: int, t: int) -> bool {
    &&& bb_has(b.cm(stm.opp().idx()), t)
    &&& ((pin_line(b, stm, k, t) && clear_between(b, k, t)) || (bb_has(b.pm(2), t) && knight_jump(
        k,
        t,
    )) || (bb_has(b.pm(1), t) && pawn_attack(stm, k, t)))
}

/// The piece of `stm` on `t` is pinned to its king on `k`: it is the only piece between the
/// king and a lined-up opposing slider.
pub open spec fn is_pinned(b: Board, stm: Color, k: int, t: int) -> bool {
    &&& bb_has(b.cm(stm.idx()), t)
    &&& exists|a: int| 0 <= a < 64 && pin_line(b, stm, k, a) && #[trigger] sole_blocker(b, k, a, t)
}

/// When `stm` has exactly one king, on `k`, `pinned` and `checkers` are its pinned pieces and
/// the pieces giving it check.
pub open spec fn pins_checks_ok(b: Board, stm: Color, pinned: u64, checkers: u64) -> bool {
    forall|k: int|
        0 <= k < 64 && #[trigger] kings_of(b, stm) == sq_bit(k) ==> (forall|t: int|
            0 <= t < 64 ==> #[trigger] bb_has(checkers, t) == is_checker(b, stm, k, t)) && (
        forall|t: int| 0 <= t < 64 ==> #[trigger] bb_has(pinned, t) == is_pinned(b, stm, k, t))
}

impl<Z: ZobristPolicy> Position<Z> {
    /// The square of the king of `side`, which has exactly one king.
    pub fn king_square(&self, side: Color) -> (s: Square)
        requires
            pop(kings_of(self.board, side)) == 1,
        ensures
            kings_of(self.board, side) == sq_bit(s.idx()),
    {
        let m = self.board.piece_mask_at(Piece::King) & self.board.color_mask_at(side);
        proof {
            lemma_pop_single(m);
            let k = choose|s: int| 0 <= s < 64 && bb_has(m, s) && forall|u: int| 0 <= u < 64 && #[trigger] bb_has(m, u) ==> u == s;
            lemma_squares_ext(m, sq_bit(k));
        }
        match Square::from_bitboard(m) {
            Some(s) => s,
            None => Square::A8,
        }
    }

    /// Recomputes the pinned pieces and checkers of the current context for `side_to_move`
    /// (leaves them unchanged when that side does not have exactly one king).
    #[verifier::rlimit(60)]
    pub fn update_pins_and_checks_for_stm(&mut self, side_to_move: Color)
        requires
            old(self).ctxs().len() >= 1,
        ensures
            final(self).board == old(self).board,
            final(self).halfmove == old(self).halfmove,
            final(self).stm() == old(self).stm(),
            final(self).ctxs().len() == old(self).ctxs().len(),
            forall|i: int|
                0 <= i < old(self).ctxs().len() - 1 ==> #[trigger] final(self).ctxs()[i] == old(
                    self,
                ).ctxs()[i],
            pop(kings_of(old(self).board, side_to_move)) != 1 ==> final(self).ctx() == old(self).ctx(),
            final(self).ctx() == (PositionContext {
                pinned: final(self).ctx().pinned,
                checkers: final(self).ctx().checkers,
                ..old(self).ctx()
            }),
            pins_checks_ok(final(self).board, side_to_move, final(self).ctx().pinned, final(self).ctx().checkers),
    {
        let ghost b = self.board;
        let opponent = side_to_move.other();
        let current_side_king_mask = self.board.piece_mask_at(Piece::King) & self.board.color_mask_at(side_to_move);
        if count_squares(current_side_king_mask) != 1 {
            proof {
                assert forall|k: int| 0 <= k < 64 && #[trigger] kings_of(b, side_to_move) == sq_bit(k) implies false by {
                    lemma_pop_single(current_side_king_mask);
                    assert(bb_has(sq_bit(k), k));
                    assert forall|u: int| 0 <= u < 64 && #[trigger] bb_has(current_side_king_mask, u) implies u == k by {}
                }
            }
            return;
        }
        let king = self.king_square(side_to_move);
        let ghost k = king.idx();
        let relevant_diagonals = king.diagonals_mask();
        let relevant_orthogonals = king.orthogonals_mask();
        let opponent_mask = self.board.color_mask_at(opponent);
        let relevant_diagonal_attackers = (self.board.piece_mask_at(Piece::Bishop) | self.board.piece_mask_at(Piece::Queen)) & opponent_mask & relevant_diagonals;
        let relevant_orthogonal_attackers = (self.board.piece_mask_at(Piece::Rook) | self.board.piece_mask_at(Piece::Queen)) & opponent_mask & relevant_orthogonals;
        let relevant = relevant_diagonal_attackers | relevant_orthogonal_attackers;
        let mut pinned: u64 = 0;
        let mut checkers: u64 = 0;
        let occupied = self.board.pieces();
        let mut rest = relevant;
        while rest != 0
            invariant
                b == self.board,
                k == king.idx(),
                0 <= k < 64,
                occupied == b.occ(),
                forall|a: int| 0 <= a < 64 ==> #[trigger] bb_has(relevant, a) == pin_line(b, side_to_move, k, a),
                forall|a: int| 0 <= a < 64 && #[trigger] bb_has(rest, a) ==> bb_has(relevant, a),
                forall|a: int| 0 <= a < 64 ==> #[trigger] bb_has(checkers, a) == (bb_has(relevant, a) && !bb_has(rest, a) && clear_between(b, k, a)),
                forall|t: int| 0 <= t < 64 ==> #[trigger] bb_has(pinned, t) == exists|a: int|
                    0 <= a < 64 && bb_has(relevant, a) && !bb_has(rest, a) && #[trigger] sole_blocker(b, k, a, t),
            decreases rest,
        {
            let ghost old_rest = rest;
            let ghost old_pinned = pinned;
            let ghost old_checkers = checkers;
            let a = pop_last_square(&mut rest);
            let asq = Square::from_u8(a);
            let btw = between(king, asq);
            let blockers = btw & occupied;
            proof {
                lemma_empty_iff(blockers);
                lemma_pop_single(blockers);
            }
            if blockers == 0 {
                checkers = checkers | asq.mask();
            } else if count_squares(blockers) == 1 {
                pinned = pinned | blockers;
            }
            proof {
                let ai = a as int;
                assert(bb_has(old_rest, ai));
                assert forall|t: int| 0 <= t < 64 implies #[trigger] bb_has(blockers, t) == (between_spec(k, ai, t) && bb_has(b.occ(), t)) by {
                    assert(bb_has(btw, t) == between_spec(k, ai, t));
                }
                if blockers == 0 {
                    assert forall|u: int| 0 <= u < 64 && #[trigger] between_spec(k, ai, u) implies !bb_has(b.occ(), u) by {
                        assert(!bb_has(blockers, u));
                    }
                }
                if clear_between(b, k, ai) {
                    assert forall|u: int| 0 <= u < 64 implies !#[trigger] bb_has(blockers, u) by {
                        if bb_has(blockers, u) {
                            assert(between_spec(k, ai, u));
                        }
                    }
                }
                assert(clear_between(b, k, ai) == (blockers == 0));
                assert forall|a2: int| 0 <= a2 < 64 implies #[trigger] bb_has(checkers, a2) == (bb_has(relevant, a2) && !bb_has(rest, a2) && clear_between(b, k, a2)) by {}
                assert forall|t: int| 0 <= t < 64 implies #[trigger] bb_has(pinned, t) == exists|a2: int|
                    0 <= a2 < 64 && bb_has(relevant, a2) && !bb_has(rest, a2) && #[trigger] sole_blocker(b, k, a2, t) by {
                    if sole_blocker(b, k, ai, t) {
                        assert(bb_has(blockers, t));
                        assert forall|u: int| 0 <= u < 64 && #[trigger] bb_has(blockers, u) implies u == t by {}
                        assert(pop(blockers) == 1);
                    }
                    if bb_has(pinned, t) && !bb_has(old_pinned, t) {
                        assert(bb_has(blockers, t));
                        assert(pop(blockers) == 1);
                        let w = choose|s: int| 0 <= s < 64 && bb_has(blockers, s) && forall|u: int| 0 <= u < 64 && #[trigger] bb_has(blockers, u) ==> u == s;
                        assert(t == w);
                        assert forall|u: int| 0 <= u < 64 && #[trigger] between_spec(k, ai, u) && bb_has(b.occ(), u) implies u == t by {
                            assert(bb_has(blockers, u));
                        }
                        assert(sole_blocker(b, k, ai, t));
                    }
                    if bb_has(old_pinned, t) {
                        let a2 = choose|a2: int| 0 <= a2 < 64 && bb_has(relevant, a2) && !bb_has(old_rest, a2) && #[trigger] sole_blocker(b, k, a2, t);
                        assert(!bb_has(rest, a2));
                    }
                    if exists|a2: int| 0 <= a2 < 64 && bb_has(relevant, a2) && !bb_has(rest, a2) && #[trigger] sole_blocker(b, k, a2, t) {
                        let a2 = choose|a2: int| 0 <= a2 < 64 && bb_has(relevant, a2) && !bb_has(rest, a2) && #[trigger] sole_blocker(b, k, a2, t);
                        if a2 != ai {
                            assert(!bb_has(old_rest, a2));
                            assert(bb_has(old_pinned, t));
                        }
                    }
                }
            }
        }
        pinned = pinned & self.board.color_mask_at(side_to_move);
        let knight_checkers = single_knight_attacks(king) & self.board.piece_mask_at(Piece::Knight) & opponent_mask;
        let pawn_checkers = multi_pawn_attacks(current_side_king_mask, side_to_move) & self.board.piece_mask_at(Piece::Pawn) & opponent_mask;
        checkers = checkers | knight_checkers;
        checkers = checkers | pawn_checkers;
        proof {
            lemma_empty_iff(rest);
            assert forall|t: int| 0 <= t < 64 implies #[trigger] bb_has(checkers, t) == is_checker(b, side_to_move, k, t) by {
                if pawns_attack_left(sq_bit(k), side_to_move, t) {
                    let w = choose|w: int| 0 <= w < 64 && bb_has(sq_bit(k), w) && #[trigger] pawn_attack_left(side_to_move, w, t);
                    assert(w == k);
                }
                if pawns_attack_right(sq_bit(k), side_to_move, t) {
                    let w = choose|w: int| 0 <= w < 64 && bb_has(sq_bit(k), w) && #[trigger] pawn_attack_right(side_to_move, w, t);
                    assert(w == k);
                }
                if pawn_attack_left(side_to_move, k, t) || pawn_attack_right(side_to_move, k, t) {
                    assert(bb_has(sq_bit(k), k));
                }
            }
            assert forall|t: int| 0 <= t < 64 implies #[trigger] bb_has(pinned, t) == is_pinned(b, side_to_move, k, t) by {
                if exists|a: int| 0 <= a < 64 && pin_line(b, side_to_move, k, a) && #[trigger] sole_blocker(b, k, a, t) {
                    let a = choose|a: int| 0 <= a < 64 && pin_line(b, side_to_move, k, a) && #[trigger] sole_blocker(b, k, a, t);
                    assert(bb_has(relevant, a));
                }
            }
        }
        let mut c = *self.context();
        c.pinned = pinned;
        c.checkers = checkers;
        self.set_context(c);
        proof {
            assert forall|k2: int| 0 <= k2 < 64 && #[trigger] kings_of(b, side_to_move) == sq_bit(k2) implies k2 == k by {
                assert(bb_has(sq_bit(k2), k2));
                assert(bb_has(sq_bit(k), k2));
            }
        }
    }

    /// Recomputes the pinned pieces and checkers for the side to move.
    pub fn update_pins_and_checks(&mut self)
        requires
            old(self).ctxs().len() >= 1,
        ensures
            final(self).board == old(self).board,
            final(self).halfmove == old(self).halfmove,
            final(self).stm() == old(self).stm(),
            final(self).ctxs().len() == old(self).ctxs().len(),
            forall|i: int|
                0 <= i < old(self).ctxs().len() - 1 ==> #[trigger] final(self).ctxs()[i] == old(
                    self,
                ).ctxs()[i],
            pop(kings_of(old(self).board, old(self).stm())) != 1 ==> final(self).ctx() == old(self).ctx(),
            final(self).ctx() == (PositionContext {
                pinned: final(self).ctx().pinned,
                checkers: final(self).ctx().checkers,
                ..old(self).ctx()
            }),
            pins_checks_ok(final(self).board, final(self).stm(), final(self).ctx().pinned, final(self).ctx().checkers),
    {
        let stm = self.side_to_move;
        self.update_pins_and_checks_for_stm(stm);
    }

    /// Whether the side to move is in check (the current context records a checker).
    pub fn is_current_side_in_check(&self) -> (r: bool)
        requires
            self.ctxs().len() >= 1,
        ensures
            r == (self.ctx().checkers != 0),
    {
        self.context().checkers != 0
    }
}

} // verus!
