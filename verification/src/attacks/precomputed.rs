//! Attack sets of a single king or knight.
use vstd::prelude::*;
use crate::bitboard::{bb_has, sq_bit, group_has};
use crate::types::Square;
use crate::types::knight_move_direction::knight_jump;
use crate::attacks::manual::{
    multi_king_attacks, multi_knight_attacks, king_step, kings_attack, knights_attack,
};

verus! {

broadcast use group_has;

/// Returns the squares attacked by a king on `src_square`.
pub fn precomputed_single_king_attacks(src_square: Square) -> (r: u64)
    ensures
        forall|t: int| 0 <= t < 64 ==> #[trigger] bb_has(r, t) == king_step(src_square.idx(), t),
{
    let r = multi_king_attacks(src_square.mask());
    proof {
        let s = src_square.idx();
        assert forall|t: int| 0 <= t < 64 implies #[trigger] bb_has(r, t) == king_step(s, t) by {
            if king_step(s, t) {
                assert(bb_has(sq_bit(s), s));
            }
            if kings_attack(sq_bit(s), t) {
                let w = choose|w: int| 0 <= w < 64 && bb_has(sq_bit(s), w) && #[trigger] king_step(w, t);
                assert(w == s);
            }
        }
    }
    r
}

/// Returns the squares attacked by a knight on `src_square`.
pub fn precomputed_single_knight_attacks(src_square: Square) -> (r: u64)
    ensures
        forall|t: int| 0 <= t < 64 ==> #[trigger] bb_has(r, t) == knight_jump(src_square.idx(), t),
{
    let r = multi_knight_attacks(src_square.mask());
    proof {
        let s = src_square.idx();
        assert forall|t: int| 0 <= t < 64 implies #[trigger] bb_has(r, t) == knight_jump(s, t) by {
            if knight_jump(s, t) {
                assert(bb_has(sq_bit(s), s));
            }
            if knights_attack(sq_bit(s), t) {
                let w = choose|w: int| 0 <= w < 64 && bb_has(sq_bit(s), w) && #[trigger] knight_jump(w, t);
                assert(w == s);
            }
        }
    }
    r
}

/// Returns the squares attacked by a king on `src_square` (the same as
/// [`precomputed_single_king_attacks`]).
pub fn single_king_attacks(src_square: Square) -> (r: u64)
    ensures
        forall|t: int| 0 <= t < 64 ==> #[trigger] bb_has(r, t) == king_step(src_square.idx(), t),
{
    precomputed_single_king_attacks(src_square)
}

/// Returns the squares attacked by a knight on `src_square` (the same as
/// [`precomputed_single_knight_attacks`]).
pub fn single_knight_attacks(src_square: Square) -> (r: u64)
    ensures
        forall|t: int| 0 <= t < 64 ==> #[trigger] bb_has(r, t) == knight_jump(src_square.idx(), t),
{
    precomputed_single_knight_attacks(src_square)
}

} // verus!
