//! Castling availability for the side to move.
use vstd::prelude::*;
use crate::bitboard::{bb_has, group_has};
use crate::board_attacks::{attacked_by, lemma_empty_iff};
use crate::types::{Color, Flank, Piece};
use crate::types::flank::{rights_bit, gap_square, path_square};
use crate::position::state::{Position, ZobristPolicy};
use crate::position::make_move::{rook_from_sq, rook_to_sq, move_ok, make_post, after_piece, after_color, castle_flank, ep_square};
use crate::types::{Move, MoveFlag};
use crate::types::castling_rights::rights_kept;
use crate::types::flank::home_base;

verus! {

broadcast use group_has;

/// The castling rights of the current context allow `color` to castle on `flank`.
pub open spec fn has_rights<Z: ZobristPolicy>(p: Position<Z>, flank: Flank, color: Color) -> bool {
    p.ctx().castling_rights.value() & rights_bit(flank, color) != 0
}

/// Every castling right held is backed by the board: the king of that color on its initial
/// square and the rook on its corner.
pub open spec fn castling_consistent<Z: ZobristPolicy>(p: Position<Z>) -> bool {
    forall|flank: Flank, color: Color|
        #[trigger] has_rights(p, flank, color) ==> p.board.holds(
            if color == Color::White {
                60int
            } else {
                4int
            },
            Piece::King,
            color,
        ) && p.board.holds(rook_from_sq(flank, color), Piece::Rook, color)
}

/// The side to move may castle on `flank`: it has the right, the squares between king and rook
/// are empty, and no square the king stands on, crosses or lands on is attacked.
pub open spec fn castling_allowed<Z: ZobristPolicy>(p: Position<Z>, flank: Flank) -> bool {
    &&& has_rights(p, flank, p.stm())
    &&& forall|s: int| 0 <= s < 64 && #[trigger] gap_square(flank, p.stm(), s) ==> !bb_has(p.board.occ(), s)
    &&& !exists|t: int|
        0 <= t < 64 && path_square(flank, p.stm(), t) && #[trigger] attacked_by(
            p.board,
            p.stm().opp(),
            t,
            p.board.cm(p.stm().opp().idx()),
            p.board.occ(),
        )
}

impl<Z: ZobristPolicy> Position<Z> {
    /// Whether the side to move has the castling right on `flank`.
    pub fn has_castling_rights(&self, flank: Flank) -> (r: bool)
        requires
            self.ctxs().len() >= 1,
        ensures
            r == has_rights(*self, flank, self.stm()),
    {
        self.context().castling_rights.has(flank, self.side_to_move)
    }

    /// Whether the squares between king and rook on `flank` are empty.
    fn has_castling_space(&self, flank: Flank) -> (r: bool)
        ensures
            r == forall|s: int| 0 <= s < 64 && #[trigger] gap_square(flank, self.stm(), s) ==> !bb_has(self.board.occ(), s),
    {
        let gm = flank.castling_gap_mask(self.side_to_move);
        let gap = gm & self.board.pieces();
        proof {
            lemma_empty_iff(gap);
            if gap != 0 {
                let s = choose|s: int| 0 <= s < 64 && #[trigger] bb_has(gap, s);
                assert(gap_square(flank, self.stm(), s));
            } else {
                assert forall|s: int| 0 <= s < 64 && #[trigger] gap_square(flank, self.stm(), s) implies !bb_has(self.board.occ(), s) by {
                    assert(bb_has(gm, s));
                    assert(!bb_has(gap, s));
                }
            }
        }
        gap == 0
    }

    /// Whether no square the king crosses or lands on when castling on `flank` is attacked.
    fn can_castle_without_check(&self, flank: Flank) -> (r: bool)
        ensures
            r == !exists|t: int|
                0 <= t < 64 && path_square(flank, self.stm(), t) && #[trigger] attacked_by(
                    self.board,
                    self.stm().opp(),
                    t,
                    self.board.cm(self.stm().opp().idx()),
                    self.board.occ(),
                ),
    {
        let path = flank.king_path_mask(self.side_to_move);
        !self.board.is_mask_attacked(path, self.side_to_move.other())
    }

    /// Whether the side to move may castle on `flank` now.
    pub fn can_legally_castle(&self, flank: Flank) -> (r: bool)
        requires
            self.ctxs().len() >= 1,
        ensures
            r == castling_allowed(*self, flank),
    {
        self.has_castling_rights(flank) && self.has_castling_space(flank)
            && self.can_castle_without_check(flank)
    }
}

/// Making a move keeps the castling rights backed by the board: a right survives only when
/// the move neither starts nor ends on that side's king square or that rook's corner.
pub proof fn lemma_make_keeps_castling_consistent<Z: ZobristPolicy>(p: Position<Z>, m: Move, q: Position<Z>)
    requires
        p.wf(),
        move_ok(p.board, p.stm(), m),
        make_post(p, m, q),
        castling_consistent(p),
    ensures
        castling_consistent(q),
{
    let f = m.from_spec().idx();
    let t = m.to_spec().idx();
    assert forall|flank: Flank, color: Color| #[trigger] has_rights(q, flank, color) implies q.board.holds(
        if color == Color::White {
            60int
        } else {
            4int
        },
        Piece::King,
        color,
    ) && q.board.holds(rook_from_sq(flank, color), Piece::Rook, color) by {
        let v = p.ctx().castling_rights.value();
        let bitv = rights_bit(flank, color);
        let kf = rights_kept(f);
        let kt = rights_kept(t);
        assert(q.ctx().castling_rights.value() == v & kf & kt);
        assert((v & kf & kt) & bitv != 0);
        assert(((v & kf & kt) & bitv != 0) ==> (v & bitv != 0)) by (bit_vector);
        assert(has_rights(p, flank, color));
        let ks = if color == Color::White {
            60int
        } else {
            4int
        };
        let rs = rook_from_sq(flank, color);
        assert(f != ks && t != ks && f != rs && t != rs) by {
            assert(((v & kf & kt) & bitv != 0) ==> (kf & bitv != 0 && kt & bitv != 0)) by (bit_vector);
            lemma_rights_constants();
        }
        assert(p.board.holds(ks, Piece::King, color));
        assert(p.board.holds(rs, Piece::Rook, color));
        if m.flag_spec() == MoveFlag::EnPassant {
            assert(ep_square(p.stm(), t) != ks);
            assert(ep_square(p.stm(), t) != rs);
        }
        if m.flag_spec() == MoveFlag::Castling {
            let fl = castle_flank(t);
            assert(color != p.stm()) by {
                if color == p.stm() {
                    assert(f == home_base(color) + 4);
                }
            }
            assert(rook_from_sq(fl, p.stm()) != ks && rook_from_sq(fl, p.stm()) != rs);
            assert(rook_to_sq(fl, p.stm()) != ks && rook_to_sq(fl, p.stm()) != rs);
        }
        assert(q.board.piece(ks) == after_piece(p.board, p.stm(), m, ks));
        assert(q.board.piece(rs) == after_piece(p.board, p.stm(), m, rs));
        assert(q.board.color(ks) == after_color(p.board, p.stm(), m, ks));
        assert(q.board.color(rs) == after_color(p.board, p.stm(), m, rs));
    }
}

/// The kept-rights nibbles of the king and rook squares clear the matching rights bits.
proof fn lemma_rights_constants()
    by (bit_vector)
    ensures
        3u8 & 8u8 == 0u8,
        3u8 & 4u8 == 0u8,
        12u8 & 2u8 == 0u8,
        12u8 & 1u8 == 0u8,
        7u8 & 8u8 == 0u8,
        11u8 & 4u8 == 0u8,
        13u8 & 2u8 == 0u8,
        14u8 & 1u8 == 0u8,
{
}

} // verus!
