//! Attack queries on a board.
use vstd::prelude::*;
use crate::bitboard::{bb_has, sq_bit, group_has, pop_last_square, lemma_squares_ext};
use crate::board::Board;
use crate::types::{Color, Piece, Square};
use crate::types::square::{between, between_spec, same_diag, same_anti_diag, same_rank, same_file};
use crate::types::knight_move_direction::knight_jump;
use crate::attacks::manual::{
    multi_pawn_attacks, multi_knight_attacks, multi_king_attacks, king_step, pawn_attack,
    pawn_attack_left, pawn_attack_right, kings_attack, knights_attack, pawns_attack_left,
    pawns_attack_right, lemma_delta,
};
use crate::attacks::precomputed::{single_king_attacks, single_knight_attacks};

verus! {

broadcast use group_has;

/// A piece of color `by` on `s` attacks `t` without sliding (as a pawn, knight or king); only
/// the piece kind on `s` is read, not its color.
pub open spec fn steps_onto(b: Board, by: Color, s: int, t: int) -> bool {
    ||| (bb_has(b.pm(1), s) && pawn_attack(by, s, t))
    ||| (bb_has(b.pm(2), s) && knight_jump(s, t))
    ||| (bb_has(b.pm(6), s) && king_step(s, t))
}

/// The sliding piece on `s` (bishop or queen along a diagonal, rook or queen along a rank or
/// file) sees `t` with the occupied squares `occ`: no square strictly between them is occupied.
pub open spec fn slides_onto(b: Board, s: int, t: int, occ: u64) -> bool {
    &&& ((bb_has(b.pm(3) | b.pm(5), s) && (same_diag(t, s) || same_anti_diag(t, s))) || (bb_has(
        b.pm(4) | b.pm(5),
        s,
    ) && (same_rank(t, s) || same_file(t, s))))
    &&& forall|u: int| 0 <= u < 64 && #[trigger] between_spec(t, s, u) ==> !bb_has(occ, u)
}

/// Some piece in `attackers` attacks `t`, stepping or sliding with occupancy `occ`.
pub open spec fn attacked_by(b: Board, by: Color, t: int, attackers: u64, occ: u64) -> bool {
    exists|s: int|
        #![trigger steps_onto(b, by, s, t)]
        #![trigger slides_onto(b, s, t, occ)]
        0 <= s < 64 && bb_has(attackers, s) && (steps_onto(b, by, s, t) || slides_onto(b, s, t, occ))
}

/// A bitboard is empty exactly when it holds no square.
pub proof fn lemma_empty_iff(x: u64)
    ensures
        (x == 0) <==> (forall|s: int| 0 <= s < 64 ==> !#[trigger] bb_has(x, s)),
{
    if forall|s: int| 0 <= s < 64 ==> !#[trigger] bb_has(x, s) {
        lemma_squares_ext(x, 0);
    }
}

/// A pawn of the other color on `t` attacks `s` exactly when a pawn of `by` on `s` attacks `t`.
proof fn lemma_pawn_attack_flip(by: Color, s: int, t: int)
    requires
        0 <= s < 64,
        0 <= t < 64,
    ensures
        (pawn_attack_left(by.opp(), t, s) || pawn_attack_right(by.opp(), t, s)) == pawn_attack(
            by,
            s,
            t,
        ),
{
    lemma_delta(s, t);
    lemma_delta(t, s);
}

impl Board {
    /// Whether a sliding piece in `attackers` sees `square` with occupancy `occupied`.
    fn is_square_attacked_by_sliding(&self, square: Square, occupied: u64, attackers: u64) -> (r:
        bool)
        ensures
            r == exists|s: int|
                0 <= s < 64 && bb_has(attackers, s) && #[trigger] slides_onto(
                    *self,
                    s,
                    square.idx(),
                    occupied,
                ),
    {
        let ghost t = square.idx();
        let diag = self.diagonal_sliders() & square.diagonals_mask();
        let orth = self.orthogonal_sliders() & square.orthogonals_mask();
        let relevant = (diag | orth) & attackers;
        let mut rest = relevant;
        while rest != 0
            invariant
                forall|s: int| 0 <= s < 64 && #[trigger] bb_has(rest, s) ==> bb_has(relevant, s),
                forall|s: int|
                    0 <= s < 64 && bb_has(relevant, s) && !bb_has(rest, s) ==> !#[trigger] slides_onto(
                        *self,
                        s,
                        t,
                        occupied,
                    ),
                t == square.idx(),
                forall|s: int| 0 <= s < 64 ==> #[trigger] bb_has(relevant, s) == (bb_has(attackers, s) && (
                (bb_has(self.pm(3) | self.pm(5), s) && (same_diag(t, s) || same_anti_diag(t, s))) || (
                bb_has(self.pm(4) | self.pm(5), s) && (same_rank(t, s) || same_file(t, s))))),
            decreases rest,
        {
            let ghost old_rest = rest;
            let a = pop_last_square(&mut rest);
            let asq = Square::from_u8(a);
            let btw = between(square, asq);
            let blockers = btw & occupied;
            proof {
                lemma_empty_iff(blockers);
                assert(bb_has(old_rest, a as int));
                assert(bb_has(relevant, a as int));
            }
            if blockers == 0 {
                proof {
                    assert forall|u: int| 0 <= u < 64 && #[trigger] between_spec(t, a as int, u) implies !bb_has(occupied, u) by {
                        assert(bb_has(btw, u));
                        assert(!bb_has(blockers, u));
                    }
                    assert(slides_onto(*self, a as int, t, occupied));
                }
                return true;
            }
            proof {
                let a = a as int;
                let u = choose|u: int| 0 <= u < 64 && #[trigger] bb_has(blockers, u);
                assert(between_spec(t, a, u) && bb_has(occupied, u));
            }
        }
        proof {
            lemma_empty_iff(rest);
        }
        false
    }

    /// Pawns, knights and kings (of either color) that would attack `square` as pieces of color
    /// `by`.
    pub fn non_sliding_attacks_on_square(&self, square: Square, by: Color) -> (r: u64)
        ensures
            forall|s: int| 0 <= s < 64 ==> #[trigger] bb_has(r, s) == steps_onto(*self, by, s, square.idx()),
    {
        let pawns = multi_pawn_attacks(square.mask(), by.other()) & self.piece_mask_at(Piece::Pawn);
        let knights = single_knight_attacks(square) & self.piece_mask_at(Piece::Knight);
        let kings = single_king_attacks(square) & self.piece_mask_at(Piece::King);
        let r = pawns | knights | kings;
        proof {
            let t = square.idx();
            assert forall|s: int| 0 <= s < 64 implies #[trigger] bb_has(r, s) == steps_onto(*self, by, s, t) by {
                lemma_pawn_attack_flip(by, s, t);
                lemma_delta(s, t);
                if pawns_attack_left(sq_bit(t), by.opp(), s) {
                    let w = choose|w: int| 0 <= w < 64 && bb_has(sq_bit(t), w) && #[trigger] pawn_attack_left(by.opp(), w, s);
                    assert(w == t);
                }
                if pawns_attack_right(sq_bit(t), by.opp(), s) {
                    let w = choose|w: int| 0 <= w < 64 && bb_has(sq_bit(t), w) && #[trigger] pawn_attack_right(by.opp(), w, s);
                    assert(w == t);
                }
                if pawn_attack_left(by.opp(), t, s) {
                    assert(bb_has(sq_bit(t), t));
                }
                if pawn_attack_right(by.opp(), t, s) {
                    assert(bb_has(sq_bit(t), t));
                }
            }
        }
        r
    }

    /// Whether a piece of `by_color` attacks `square` once the squares of `move_mask` have
    /// toggled occupancy and lost their attackers (a move was made along them).
    pub fn is_square_attacked_after_move(&self, square: Square, by_color: Color, move_mask: u64) -> (r: bool)
        ensures
            r == attacked_by(
                *self,
                by_color,
                square.idx(),
                self.cm(by_color.idx()) & !move_mask,
                self.occ() ^ move_mask,
            ),
    {
        let attackers = self.color_mask_at(by_color) & !move_mask;
        let steppers = attackers & self.non_sliding_attacks_on_square(square, by_color);
        proof {
            lemma_empty_iff(steppers);
        }
        let ghost t = square.idx();
        let ghost occ = self.occ() ^ move_mask;
        if steppers != 0 {
            proof {
                let s = choose|s: int| 0 <= s < 64 && #[trigger] bb_has(steppers, s);
                assert(bb_has(attackers, s));
                assert(steps_onto(*self, by_color, s, t));
            }
            return true;
        }
        let sliding = self.is_square_attacked_by_sliding(square, self.pieces() ^ move_mask, attackers);
        proof {
            assert(attackers == self.cm(by_color.idx()) & !move_mask);
            if sliding {
                let s = choose|s: int| 0 <= s < 64 && bb_has(attackers, s) && #[trigger] slides_onto(*self, s, t, occ);
                assert(0 <= s < 64);
                assert(bb_has(attackers, s));
                assert(slides_onto(*self, s, t, occ));
                assert(steps_onto(*self, by_color, s, t) || slides_onto(*self, s, t, occ));
                assert(attacked_by(*self, by_color, t, attackers, occ));
            }
            if attacked_by(*self, by_color, t, attackers, occ) {
                let s = choose|s: int| 0 <= s < 64 && bb_has(attackers, s) && (steps_onto(*self, by_color, s, t) || slides_onto(*self, s, t, occ));
                if steps_onto(*self, by_color, s, t) {
                    assert(bb_has(steppers, s));
                } else {
                    assert(slides_onto(*self, s, t, occ));
                }
            }
        }
        sliding
    }

    /// Whether a piece of `by_color` attacks `square`.
    pub fn is_square_attacked(&self, square: Square, by_color: Color) -> (r: bool)
        ensures
            r == attacked_by(*self, by_color, square.idx(), self.cm(by_color.idx()), self.occ()),
    {
        let r = self.is_square_attacked_after_move(square, by_color, 0);
        proof {
            let a = self.cm(by_color.idx());
            assert(a & !0u64 == a) by (bit_vector);
            let o = self.occ();
            assert(o ^ 0u64 == o) by (bit_vector);
        }
        r
    }

    /// Pawns, knights and kings (of either color) that would attack some square of `mask` as
    /// pieces of color `by`.
    pub fn non_sliding_attacks_on_mask(&self, mask: u64, by: Color) -> (r: u64)
        ensures
            forall|s: int|
                0 <= s < 64 ==> #[trigger] bb_has(r, s) == exists|t: int|
                    0 <= t < 64 && bb_has(mask, t) && #[trigger] steps_onto(*self, by, s, t),
    {
        let pawns = multi_pawn_attacks(mask, by.other()) & self.piece_mask_at(Piece::Pawn);
        let knights = multi_knight_attacks(mask) & self.piece_mask_at(Piece::Knight);
        let kings = multi_king_attacks(mask) & self.piece_mask_at(Piece::King);
        let r = pawns | knights | kings;
        proof {
            assert forall|s: int| 0 <= s < 64 implies #[trigger] bb_has(r, s) == exists|t: int|
                0 <= t < 64 && bb_has(mask, t) && #[trigger] steps_onto(*self, by, s, t) by {
                if bb_has(r, s) {
                    let t = if bb_has(pawns, s) {
                        if pawns_attack_left(mask, by.opp(), s) {
                            choose|w: int| 0 <= w < 64 && bb_has(mask, w) && #[trigger] pawn_attack_left(by.opp(), w, s)
                        } else {
                            choose|w: int| 0 <= w < 64 && bb_has(mask, w) && #[trigger] pawn_attack_right(by.opp(), w, s)
                        }
                    } else if bb_has(knights, s) {
                        choose|w: int| 0 <= w < 64 && bb_has(mask, w) && #[trigger] knight_jump(w, s)
                    } else {
                        choose|w: int| 0 <= w < 64 && bb_has(mask, w) && #[trigger] king_step(w, s)
                    };
                    lemma_pawn_attack_flip(by, s, t);
                    lemma_delta(s, t);
                    assert(steps_onto(*self, by, s, t));
                }
                if exists|t: int| 0 <= t < 64 && bb_has(mask, t) && #[trigger] steps_onto(*self, by, s, t) {
                    let t = choose|t: int| 0 <= t < 64 && bb_has(mask, t) && #[trigger] steps_onto(*self, by, s, t);
                    lemma_pawn_attack_flip(by, s, t);
                    lemma_delta(s, t);
                    if pawn_attack_left(by.opp(), t, s) {
                        assert(pawns_attack_left(mask, by.opp(), s));
                    }
                    if pawn_attack_right(by.opp(), t, s) {
                        assert(pawns_attack_right(mask, by.opp(), s));
                    }
                    if knight_jump(t, s) {
                        assert(knights_attack(mask, s));
                    }
                    if king_step(t, s) {
                        assert(kings_attack(mask, s));
                    }
                }
            }
        }
        r
    }

    /// Whether a piece of `by_color` attacks some square of `mask`.
    pub fn is_mask_attacked(&self, mask: u64, by_color: Color) -> (r: bool)
        ensures
            r == exists|t: int|
                0 <= t < 64 && bb_has(mask, t) && #[trigger] attacked_by(
                    *self,
                    by_color,
                    t,
                    self.cm(by_color.idx()),
                    self.occ(),
                ),
    {
        let attackers = self.color_mask_at(by_color);
        let nsa = self.non_sliding_attacks_on_mask(mask, by_color);
        let ghost occ = self.occ();
        if attackers & nsa != 0 {
            proof {
                lemma_empty_iff(attackers & nsa);
                let s = choose|s: int| 0 <= s < 64 && #[trigger] bb_has(attackers & nsa, s);
                assert(bb_has(nsa, s));
                let t = choose|t: int| 0 <= t < 64 && bb_has(mask, t) && #[trigger] steps_onto(*self, by_color, s, t);
                assert(attacked_by(*self, by_color, t, attackers, occ));
            }
            return true;
        }
        proof {
            lemma_empty_iff(attackers & nsa);
        }
        let mut rest = mask;
        while rest != 0
            invariant
                forall|t: int| 0 <= t < 64 && #[trigger] bb_has(rest, t) ==> bb_has(mask, t),
                forall|t: int|
                    0 <= t < 64 && bb_has(mask, t) && !bb_has(rest, t) ==> !#[trigger] attacked_by(
                        *self,
                        by_color,
                        t,
                        attackers,
                        occ,
                    ),
                attackers == self.cm(by_color.idx()),
                occ == self.occ(),
                forall|s: int| 0 <= s < 64 ==> !#[trigger] bb_has(attackers & nsa, s),
                forall|s: int|
                    0 <= s < 64 ==> #[trigger] bb_has(nsa, s) == exists|t: int|
                        0 <= t < 64 && bb_has(mask, t) && #[trigger] steps_onto(*self, by_color, s, t),
            decreases rest,
        {
            let ghost old_rest = rest;
            let t = pop_last_square(&mut rest);
            let tsq = Square::from_u8(t);
            if self.is_square_attacked_by_sliding(tsq, self.pieces(), attackers) {
                proof {
                    let s = choose|s: int| 0 <= s < 64 && bb_has(attackers, s) && #[trigger] slides_onto(*self, s, t as int, occ);
                    assert(attacked_by(*self, by_color, t as int, attackers, occ));
                    assert(bb_has(mask, t as int));
                }
                return true;
            }
            proof {
                let t = t as int;
                if attacked_by(*self, by_color, t, attackers, occ) {
                    let s = choose|s: int| 0 <= s < 64 && bb_has(attackers, s) && (steps_onto(*self, by_color, s, t) || slides_onto(*self, s, t, occ));
                    if steps_onto(*self, by_color, s, t) {
                        assert(bb_has(mask, t));
                        assert(bb_has(nsa, s));
                        assert(bb_has(attackers & nsa, s));
                    }
                }
            }
        }
        proof {
            lemma_empty_iff(rest);
        }
        false
    }
}

} // verus!
