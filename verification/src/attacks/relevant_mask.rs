//! The squares whose occupancy can change a sliding piece's attacks ("relevant" squares).
use vstd::prelude::*;
use crate::bitboard::{bb_has, group_has, lemma_has_zero};
use crate::types::{File, Piece, Rank, Square};
use crate::types::square::{sq_file, sq_rank, same_rank, same_file, same_diag, same_anti_diag};
use crate::types::queen_like_move_direction::scale;
use crate::attacks::manual::{ray_sq, ray_on, ray_open, ray_attack, rook_attack, bishop_attack, slider_attack, lemma_coords};

verus! {

broadcast use group_has;

/// `t` is relevant to a rook on `s`: it shares the rank or the file of `s`, is not `s`, and
/// lies on no board edge other than one through `s`.
pub open spec fn rook_relevant(s: int, t: int) -> bool {
    &&& t != s
    &&& (same_rank(s, t) || same_file(s, t))
    &&& (sq_file(t) == 0 ==> sq_file(s) == 0)
    &&& (sq_file(t) == 7 ==> sq_file(s) == 7)
    &&& (sq_rank(t) == 0 ==> sq_rank(s) == 0)
    &&& (sq_rank(t) == 7 ==> sq_rank(s) == 7)
}

/// `t` is relevant to a bishop on `s`: it shares a diagonal with `s`, is not `s`, and lies on
/// no board edge.
pub open spec fn bishop_relevant(s: int, t: int) -> bool {
    &&& t != s
    &&& (same_diag(s, t) || same_anti_diag(s, t))
    &&& 0 < sq_file(t) < 7
    &&& 0 < sq_rank(t) < 7
}

/// `t` is relevant to the sliding piece `p` on `s` (a queen combines rook and bishop).
pub open spec fn relevant(p: Piece, s: int, t: int) -> bool {
    match p {
        Piece::Rook => rook_relevant(s, t),
        Piece::Bishop => bishop_relevant(s, t),
        Piece::Queen => rook_relevant(s, t) || bishop_relevant(s, t),
        _ => false,
    }
}

/// Calculates the relevant mask for a rook on `square`.
pub fn calc_rook_relevant_mask(square: Square) -> (r: u64)
    ensures
        forall|t: int| 0 <= t < 64 ==> #[trigger] bb_has(r, t) == rook_relevant(square.idx(), t),
{
    let file_mask = square.file().mask();
    let rank_mask = square.rank().mask();
    let mut res = (file_mask | rank_mask) & !square.mask();
    let edge_a = File::A.mask();
    let edge_h = File::H.mask();
    let edge_1 = Rank::One.mask();
    let edge_8 = Rank::Eight.mask();
    let sf = square.file().index();
    let sr = square.rank().index();
    if sf != 0 {
        res = res & !edge_a;
    }
    if sf != 7 {
        res = res & !edge_h;
    }
    if sr != 0 {
        res = res & !edge_1;
    }
    if sr != 7 {
        res = res & !edge_8;
    }
    proof {
        lemma_coords(square.idx());
    }
    res
}

/// Calculates the relevant mask for a bishop on `square`.
pub fn calc_bishop_relevant_mask(square: Square) -> (r: u64)
    ensures
        forall|t: int| 0 <= t < 64 ==> #[trigger] bb_has(r, t) == bishop_relevant(square.idx(), t),
{
    square.diagonals_mask() & !square.mask() & !(File::A.mask() | File::H.mask() | Rank::One.mask()
        | Rank::Eight.mask())
}

/// The relevant mask of the sliding piece `piece` (bishop, rook or queen) on `square`.
pub fn sliding_piece_relevant_mask(piece: Piece, square: Square) -> (r: u64)
    requires
        piece == Piece::Bishop || piece == Piece::Rook || piece == Piece::Queen,
    ensures
        forall|t: int| 0 <= t < 64 ==> #[trigger] bb_has(r, t) == relevant(piece, square.idx(), t),
{
    match piece {
        Piece::Bishop => calc_bishop_relevant_mask(square),
        Piece::Rook => calc_rook_relevant_mask(square),
        _ => calc_bishop_relevant_mask(square) | calc_rook_relevant_mask(square),
    }
}

/// The squares a slider passes over before reaching a square still on the board are relevant to
/// it.
proof fn lemma_passed_squares_relevant(p: Piece, s: int, dr: int, df: int, j: int, k: int)
    requires
        0 <= s < 64,
        -1 <= dr <= 1,
        -1 <= df <= 1,
        (p == Piece::Rook && (dr == 0) != (df == 0)) || (p == Piece::Bishop && dr != 0 && df != 0),
        1 <= j < k,
        ray_on(s, dr, df, k),
    ensures
        relevant(p, s, ray_sq(s, dr, df, j)),
{
    lemma_coords(s);
    let u = ray_sq(s, dr, df, j);
    let ru = sq_rank(s) + scale(dr, j);
    let fu = sq_file(s) + scale(df, j);
    assert(0 <= ru < 8 && 0 <= fu < 8);
    assert(u == (7 - ru) * 8 + fu);
    assert(sq_rank(u) == ru && sq_file(u) == fu);
}

/// A slider's attacks depend only on the occupancy of its relevant squares.
pub proof fn lemma_attacks_from_relevant(p: Piece, s: int, t: int, occ: u64, masked: u64)
    requires
        p == Piece::Rook || p == Piece::Bishop || p == Piece::Queen,
        0 <= s < 64,
        0 <= t < 64,
        forall|u: int| 0 <= u < 64 ==> #[trigger] bb_has(masked, u) == (bb_has(occ, u) && relevant(p, s, u)),
    ensures
        slider_attack(p, s, t, masked) == slider_attack(p, s, t, occ),
{
    if p == Piece::Queen {
        assert forall|u: int| 0 <= u < 64 implies #[trigger] bb_has(masked, u) == (bb_has(occ, u) && relevant(p, s, u)) by {}
    }
    lemma_ray_same(p, s, t, 1, 0, occ, masked);
    lemma_ray_same(p, s, t, -1, 0, occ, masked);
    lemma_ray_same(p, s, t, 0, 1, occ, masked);
    lemma_ray_same(p, s, t, 0, -1, occ, masked);
    lemma_ray_same(p, s, t, 1, 1, occ, masked);
    lemma_ray_same(p, s, t, 1, -1, occ, masked);
    lemma_ray_same(p, s, t, -1, 1, occ, masked);
    lemma_ray_same(p, s, t, -1, -1, occ, masked);
}

/// Along one ray of a slider, masking the occupancy to the relevant squares changes nothing.
proof fn lemma_ray_same(p: Piece, s: int, t: int, dr: int, df: int, occ: u64, masked: u64)
    requires
        p == Piece::Rook || p == Piece::Bishop || p == Piece::Queen,
        0 <= s < 64,
        -1 <= dr <= 1,
        -1 <= df <= 1,
        forall|u: int| 0 <= u < 64 ==> #[trigger] bb_has(masked, u) == (bb_has(occ, u) && relevant(p, s, u)),
    ensures
        ((p == Piece::Rook || p == Piece::Queen) && (dr == 0) != (df == 0)) || ((p == Piece::Bishop
            || p == Piece::Queen) && dr != 0 && df != 0) ==> ray_attack(s, t, dr, df, masked)
            == ray_attack(s, t, dr, df, occ),
{
    if ((p == Piece::Rook || p == Piece::Queen) && (dr == 0) != (df == 0)) || ((p == Piece::Bishop
        || p == Piece::Queen) && dr != 0 && df != 0) {
        let q = if (dr == 0) != (df == 0) {
            Piece::Rook
        } else {
            Piece::Bishop
        };
        assert forall|k: int| 1 <= k && ray_on(s, dr, df, k) implies ray_open(s, dr, df, k, masked)
            == ray_open(s, dr, df, k, occ) by {
            assert forall|j: int| 1 <= j < k implies bb_has(masked, #[trigger] ray_sq(s, dr, df, j))
                == bb_has(occ, ray_sq(s, dr, df, j)) by {
                lemma_passed_squares_relevant(q, s, dr, df, j, k);
                crate::attacks::manual::lemma_ray_on(s, dr, df, j, k);
            }
        }
        if ray_attack(s, t, dr, df, masked) {
            let k = choose|k: int|
                1 <= k && ray_on(s, dr, df, k) && t == #[trigger] ray_sq(s, dr, df, k) && ray_open(
                    s,
                    dr,
                    df,
                    k,
                    masked,
                );
            assert(ray_open(s, dr, df, k, occ));
        }
        if ray_attack(s, t, dr, df, occ) {
            let k = choose|k: int|
                1 <= k && ray_on(s, dr, df, k) && t == #[trigger] ray_sq(s, dr, df, k) && ray_open(
                    s,
                    dr,
                    df,
                    k,
                    occ,
                );
            assert(ray_open(s, dr, df, k, masked));
        }
    }
}

/// A rook or a bishop always attacks at least one square, whatever the occupancy.
pub proof fn lemma_attacks_nonempty(p: Piece, s: int, occ: u64, r: u64)
    requires
        p == Piece::Rook || p == Piece::Bishop,
        0 <= s < 64,
        forall|t: int| 0 <= t < 64 ==> #[trigger] bb_has(r, t) == slider_attack(p, s, t, occ),
    ensures
        r != 0,
{
    lemma_coords(s);
    let dr: int = if sq_rank(s) < 7 {
        1
    } else {
        -1
    };
    let df: int = if sq_file(s) < 7 {
        1
    } else {
        -1
    };
    let (a, b) = if p == Piece::Rook {
        (dr, 0int)
    } else {
        (dr, df)
    };
    let t = ray_sq(s, a, b, 1);
    assert(ray_on(s, a, b, 1));
    assert(0 <= t < 64);
    assert(ray_open(s, a, b, 1, occ));
    assert(ray_attack(s, t, a, b, occ));
    assert(bb_has(r, t));
    lemma_has_zero(t);
}

} // verus!
