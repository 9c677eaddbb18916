//! Attack sets computed directly from the piece movement rules.
use vstd::prelude::*;
use crate::bitboard::{bb_has, sq_bit, group_has, lemma_has_shl, lemma_has_shr, lemma_has_zero, lemma_squares_ext};
use crate::types::{Color, File, Piece, Square};
use crate::types::knight_move_direction::knight_jump;
use crate::types::square::{sq_rank, sq_file, sq_at, on_board};
use crate::types::queen_like_move_direction::scale;

verus! {

broadcast use {group_has, lemma_has_shl, lemma_has_shr};

/// Rank change from `s` to `t`.
pub open spec fn d_rank(s: int, t: int) -> int {
    sq_rank(t) - sq_rank(s)
}

/// File change from `s` to `t`.
pub open spec fn d_file(s: int, t: int) -> int {
    sq_file(t) - sq_file(s)
}

/// The rank direction pawns of color `c` move in: 1 for White, -1 for Black.
pub open spec fn fwd(c: Color) -> int {
    if c == Color::White {
        1
    } else {
        -1
    }
}

/// `t` is one of the (up to eight) squares next to `s`.
pub open spec fn king_step(s: int, t: int) -> bool {
    s != t && -1 <= d_rank(s, t) <= 1 && -1 <= d_file(s, t) <= 1
}

/// A pawn of color `c` on `s` attacks `t` towards the file of its left-hand side (for White:
/// towards file a; for Black: towards file h).
pub open spec fn pawn_attack_left(c: Color, s: int, t: int) -> bool {
    d_rank(s, t) == fwd(c) && d_file(s, t) == -fwd(c)
}

/// A pawn of color `c` on `s` attacks `t` towards the file of its right-hand side.
pub open spec fn pawn_attack_right(c: Color, s: int, t: int) -> bool {
    d_rank(s, t) == fwd(c) && d_file(s, t) == fwd(c)
}

/// A pawn of color `c` on `s` attacks `t`.
pub open spec fn pawn_attack(c: Color, s: int, t: int) -> bool {
    pawn_attack_left(c, s, t) || pawn_attack_right(c, s, t)
}

/// `t` is the square one step ahead of a pawn of color `c` on `s`.
pub open spec fn pawn_step(c: Color, s: int, t: int) -> bool {
    d_rank(s, t) == fwd(c) && d_file(s, t) == 0
}

/// Some knight of `m` attacks `t`.
pub open spec fn knights_attack(m: u64, t: int) -> bool {
    exists|s: int| 0 <= s < 64 && bb_has(m, s) && #[trigger] knight_jump(s, t)
}

/// Some king of `m` attacks `t`.
pub open spec fn kings_attack(m: u64, t: int) -> bool {
    exists|s: int| 0 <= s < 64 && bb_has(m, s) && #[trigger] king_step(s, t)
}

/// Some pawn of color `c` in `m` attacks `t` on its left-hand side.
pub open spec fn pawns_attack_left(m: u64, c: Color, t: int) -> bool {
    exists|s: int| 0 <= s < 64 && bb_has(m, s) && #[trigger] pawn_attack_left(c, s, t)
}

/// Some pawn of color `c` in `m` attacks `t` on its right-hand side.
pub open spec fn pawns_attack_right(m: u64, c: Color, t: int) -> bool {
    exists|s: int| 0 <= s < 64 && bb_has(m, s) && #[trigger] pawn_attack_right(c, s, t)
}

/// Some pawn of color `c` in `m` steps forward onto `t`.
pub open spec fn pawns_step(m: u64, c: Color, t: int) -> bool {
    exists|s: int| 0 <= s < 64 && bb_has(m, s) && #[trigger] pawn_step(c, s, t)
}

/// The square `k` steps away from `s` in the direction of `dr` ranks and `df` files per step
/// (each of `dr`, `df` is -1, 0 or 1).
pub open spec fn ray_sq(s: int, dr: int, df: int, k: int) -> int {
    sq_at(sq_rank(s) + scale(dr, k), sq_file(s) + scale(df, k))
}

/// The square `k` steps away from `s` in direction `(dr, df)` is on the board.
pub open spec fn ray_on(s: int, dr: int, df: int, k: int) -> bool {
    on_board(sq_rank(s) + scale(dr, k), sq_file(s) + scale(df, k))
}

/// None of the first `k - 1` squares from `s` in direction `(dr, df)` is occupied in `occ`.
pub open spec fn ray_open(s: int, dr: int, df: int, k: int, occ: u64) -> bool {
    forall|j: int| 1 <= j < k ==> !bb_has(occ, #[trigger] ray_sq(s, dr, df, j))
}

/// A piece sliding from `s` in direction `(dr, df)` reaches `t`: `t` is on that ray and every
/// square before it is empty (`t` itself may be occupied, which makes it a capture).
pub open spec fn ray_attack(s: int, t: int, dr: int, df: int, occ: u64) -> bool {
    exists|k: int|
        1 <= k && ray_on(s, dr, df, k) && t == #[trigger] ray_sq(s, dr, df, k) && ray_open(
            s,
            dr,
            df,
            k,
            occ,
        )
}

/// A bishop on `s` attacks `t` given the occupied squares `occ`.
pub open spec fn bishop_attack(s: int, t: int, occ: u64) -> bool {
    ray_attack(s, t, 1, 1, occ) || ray_attack(s, t, 1, -1, occ) || ray_attack(s, t, -1, 1, occ)
        || ray_attack(s, t, -1, -1, occ)
}

/// A rook on `s` attacks `t` given the occupied squares `occ`.
pub open spec fn rook_attack(s: int, t: int, occ: u64) -> bool {
    ray_attack(s, t, 1, 0, occ) || ray_attack(s, t, -1, 0, occ) || ray_attack(s, t, 0, 1, occ)
        || ray_attack(s, t, 0, -1, occ)
}

/// A sliding piece `p` on `s` attacks `t` given `occ`.
pub open spec fn slider_attack(p: Piece, s: int, t: int, occ: u64) -> bool {
    match p {
        Piece::Bishop => bishop_attack(s, t, occ),
        Piece::Rook => rook_attack(s, t, occ),
        Piece::Queen => bishop_attack(s, t, occ) || rook_attack(s, t, occ),
        _ => false,
    }
}

/// Rank change per step of a ray walked by shifting a bitboard `shift` bits (to the left, towards
/// a8, when `left`).
pub open spec fn shift_dr(shift: int, left: bool) -> int {
    if shift == 1 {
        0
    } else if left {
        1
    } else {
        -1
    }
}

/// File change per step of a ray walked by shifting a bitboard `shift` bits.
pub open spec fn shift_df(shift: int, left: bool) -> int {
    if shift == 8 {
        0
    } else if (shift == 1 && left) || (shift == 9 && left) || (shift == 7 && !left) {
        -1
    } else {
        1
    }
}

/// The index of a square in terms of its rank and file.
pub proof fn lemma_coords(s: int)
    requires
        0 <= s < 64,
    ensures
        s == (7 - sq_rank(s)) * 8 + sq_file(s),
        0 <= sq_file(s) < 8,
        0 <= sq_rank(s) < 8,
{
}

/// The index difference of two squares in terms of their rank and file differences.
pub proof fn lemma_delta(s: int, t: int)
    requires
        0 <= s < 64,
        0 <= t < 64,
    ensures
        s - t == 8 * d_rank(s, t) - d_file(s, t),
        0 <= sq_file(s) < 8,
        0 <= sq_file(t) < 8,
        0 <= sq_rank(s) < 8,
        0 <= sq_rank(t) < 8,
{
    lemma_coords(s);
    lemma_coords(t);
}

/// Index `t + k` is the square `dr` ranks above and `df` files right of `t`, given that the
/// file does not wrap around.
pub proof fn lemma_offset(t: int, k: int, dr: int, df: int)
    requires
        0 <= t < 64,
        0 <= t + k < 64,
        k == -8 * dr + df,
        -2 <= df <= 2,
        0 <= sq_file(t) + df < 8,
    ensures
        d_rank(t + k, t) == -dr,
        d_file(t + k, t) == -df,
{
    lemma_coords(t);
    lemma_coords(t + k);
}

/// Returns the squares attacked by the knights in `knights_mask`.
pub fn multi_knight_attacks(knights_mask: u64) -> (r: u64)
    ensures
        forall|t: int| 0 <= t < 64 ==> #[trigger] bb_has(r, t) == knights_attack(knights_mask, t),
{
    let m = knights_mask;
    let fa = File::A.mask();
    let fb = File::B.mask();
    let fg = File::G.mask();
    let fh = File::H.mask();
    let r = (m << 17 & !fh) | (m << 15 & !fa) | (m << 10 & !(fg | fh)) | (m << 6 & !(fa | fb)) | (m
        >> 17 & !fa) | (m >> 15 & !fh) | (m >> 10 & !(fa | fb)) | (m >> 6 & !(fg | fh));
    proof {
        assert forall|t: int| 0 <= t < 64 implies #[trigger] bb_has(r, t) == knights_attack(m, t) by {
            lemma_coords(t);
            if bb_has(r, t) {
                if bb_has(m << 17 & !fh, t) {
                    lemma_offset(t, 17, -2, 1);
                    assert(knight_jump(t + 17, t));
                } else if bb_has(m << 15 & !fa, t) {
                    lemma_offset(t, 15, -2, -1);
                    assert(knight_jump(t + 15, t));
                } else if bb_has(m << 10 & !(fg | fh), t) {
                    lemma_offset(t, 10, -1, 2);
                    assert(knight_jump(t + 10, t));
                } else if bb_has(m << 6 & !(fa | fb), t) {
                    lemma_offset(t, 6, -1, -2);
                    assert(knight_jump(t + 6, t));
                } else if bb_has(m >> 17 & !fa, t) {
                    lemma_offset(t, -17, 2, -1);
                    assert(knight_jump(t - 17, t));
                } else if bb_has(m >> 15 & !fh, t) {
                    lemma_offset(t, -15, 2, 1);
                    assert(knight_jump(t - 15, t));
                } else if bb_has(m >> 10 & !(fa | fb), t) {
                    lemma_offset(t, -10, 1, -2);
                    assert(knight_jump(t - 10, t));
                } else {
                    lemma_offset(t, -6, 1, 2);
                    assert(knight_jump(t - 6, t));
                }
            }
            if knights_attack(m, t) {
                let s = choose|s: int| 0 <= s < 64 && bb_has(m, s) && #[trigger] knight_jump(s, t);
                lemma_delta(s, t);
            }
        }
    }
    r
}

/// Returns the squares attacked by the kings in `kings_mask`.
pub fn multi_king_attacks(kings_mask: u64) -> (r: u64)
    ensures
        forall|t: int| 0 <= t < 64 ==> #[trigger] bb_has(r, t) == kings_attack(kings_mask, t),
{
    let m = kings_mask;
    let fa = File::A.mask();
    let fh = File::H.mask();
    let r = (m << 9 & !fh) | (m << 8) | (m << 7 & !fa) | (m >> 9 & !fa) | (m >> 8) | (m >> 7
        & !fh) | (m << 1 & !fh) | (m >> 1 & !fa);
    proof {
        assert forall|t: int| 0 <= t < 64 implies #[trigger] bb_has(r, t) == kings_attack(m, t) by {
            lemma_coords(t);
            if bb_has(r, t) {
                if bb_has(m << 9 & !fh, t) {
                    lemma_offset(t, 9, -1, 1);
                    assert(king_step(t + 9, t));
                } else if bb_has(m << 8, t) {
                    lemma_offset(t, 8, -1, 0);
                    assert(king_step(t + 8, t));
                } else if bb_has(m << 7 & !fa, t) {
                    lemma_offset(t, 7, -1, -1);
                    assert(king_step(t + 7, t));
                } else if bb_has(m >> 9 & !fa, t) {
                    lemma_offset(t, -9, 1, -1);
                    assert(king_step(t - 9, t));
                } else if bb_has(m >> 8, t) {
                    lemma_offset(t, -8, 1, 0);
                    assert(king_step(t - 8, t));
                } else if bb_has(m >> 7 & !fh, t) {
                    lemma_offset(t, -7, 1, 1);
                    assert(king_step(t - 7, t));
                } else if bb_has(m << 1 & !fh, t) {
                    lemma_offset(t, 1, 0, 1);
                    assert(king_step(t + 1, t));
                } else {
                    lemma_offset(t, -1, 0, -1);
                    assert(king_step(t - 1, t));
                }
            }
            if kings_attack(m, t) {
                let s = choose|s: int| 0 <= s < 64 && bb_has(m, s) && #[trigger] king_step(s, t);
                lemma_delta(s, t);
            }
        }
    }
    r
}

/// Returns the squares attacked on their left-hand side by the pawns of `by_color` in
/// `pawns_mask` (for White towards file a, for Black towards file h).
pub fn multi_pawn_attacks_left(pawns_mask: u64, by_color: Color) -> (r: u64)
    ensures
        forall|t: int| 0 <= t < 64 ==> #[trigger] bb_has(r, t) == pawns_attack_left(
            pawns_mask,
            by_color,
            t,
        ),
{
    let m = pawns_mask;
    let r = match by_color {
        Color::White => m << 9 & !File::H.mask(),
        Color::Black => m >> 9 & !File::A.mask(),
    };
    proof {
        assert forall|t: int| 0 <= t < 64 implies #[trigger] bb_has(r, t) == pawns_attack_left(
            m,
            by_color,
            t,
        ) by {
            lemma_coords(t);
            if by_color == Color::White {
                if bb_has(r, t) {
                    lemma_offset(t, 9, -1, 1);
                    assert(pawn_attack_left(by_color, t + 9, t));
                }
            } else {
                if bb_has(r, t) {
                    lemma_offset(t, -9, 1, -1);
                    assert(pawn_attack_left(by_color, t - 9, t));
                }
            }
            if pawns_attack_left(m, by_color, t) {
                let s = choose|s: int|
                    0 <= s < 64 && bb_has(m, s) && #[trigger] pawn_attack_left(by_color, s, t);
                lemma_delta(s, t);
            }
        }
    }
    r
}

/// Returns the squares attacked on their right-hand side by the pawns of `by_color` in
/// `pawns_mask` (for White towards file h, for Black towards file a).
pub fn multi_pawn_attacks_right(pawns_mask: u64, by_color: Color) -> (r: u64)
    ensures
        forall|t: int| 0 <= t < 64 ==> #[trigger] bb_has(r, t) == pawns_attack_right(
            pawns_mask,
            by_color,
            t,
        ),
{
    let m = pawns_mask;
    let r = match by_color {
        Color::White => m << 7 & !File::A.mask(),
        Color::Black => m >> 7 & !File::H.mask(),
    };
    proof {
        assert forall|t: int| 0 <= t < 64 implies #[trigger] bb_has(r, t) == pawns_attack_right(
            m,
            by_color,
            t,
        ) by {
            lemma_coords(t);
            if by_color == Color::White {
                if bb_has(r, t) {
                    lemma_offset(t, 7, -1, -1);
                    assert(pawn_attack_right(by_color, t + 7, t));
                }
            } else {
                if bb_has(r, t) {
                    lemma_offset(t, -7, 1, 1);
                    assert(pawn_attack_right(by_color, t - 7, t));
                }
            }
            if pawns_attack_right(m, by_color, t) {
                let s = choose|s: int|
                    0 <= s < 64 && bb_has(m, s) && #[trigger] pawn_attack_right(by_color, s, t);
                lemma_delta(s, t);
            }
        }
    }
    r
}

/// Returns the squares attacked by the pawns of `by_color` in `pawns_mask`.
pub fn multi_pawn_attacks(pawns_mask: u64, by_color: Color) -> (r: u64)
    ensures
        forall|t: int| 0 <= t < 64 ==> #[trigger] bb_has(r, t) == (pawns_attack_left(
            pawns_mask,
            by_color,
            t,
        ) || pawns_attack_right(pawns_mask, by_color, t)),
{
    multi_pawn_attacks_left(pawns_mask, by_color) | multi_pawn_attacks_right(pawns_mask, by_color)
}

/// Returns the squares one step ahead of the pawns of `by_color` in `pawns_mask`.
pub fn multi_pawn_moves(pawns_mask: u64, by_color: Color) -> (r: u64)
    ensures
        forall|t: int| 0 <= t < 64 ==> #[trigger] bb_has(r, t) == pawns_step(pawns_mask, by_color, t),
{
    let m = pawns_mask;
    let r = match by_color {
        Color::White => m << 8,
        Color::Black => m >> 8,
    };
    proof {
        assert forall|t: int| 0 <= t < 64 implies #[trigger] bb_has(r, t) == pawns_step(
            m,
            by_color,
            t,
        ) by {
            lemma_coords(t);
            if by_color == Color::White {
                if bb_has(r, t) {
                    lemma_offset(t, 8, -1, 0);
                    assert(pawn_step(by_color, t + 8, t));
                }
            } else {
                if bb_has(r, t) {
                    lemma_offset(t, -8, 1, 0);
                    assert(pawn_step(by_color, t - 8, t));
                }
            }
            if pawns_step(m, by_color, t) {
                let s = choose|s: int|
                    0 <= s < 64 && bb_has(m, s) && #[trigger] pawn_step(by_color, s, t);
                lemma_delta(s, t);
            }
        }
    }
    r
}

/// Successive squares of a ray are `8 * dr - df` indices apart.
proof fn lemma_ray_step(s: int, dr: int, df: int, k: int)
    requires
        0 <= s < 64,
        -1 <= dr <= 1,
        -1 <= df <= 1,
        k >= 0,
    ensures
        ray_sq(s, dr, df, k + 1) == ray_sq(s, dr, df, k) - 8 * dr + df,
        ray_sq(s, dr, df, 0) == s,
{
    lemma_coords(s);
}

/// A ray that stays on the board for `m` steps does so for every smaller number of steps, and
/// one that has left it has left it for good.
pub proof fn lemma_ray_on(s: int, dr: int, df: int, k: int, m: int)
    requires
        0 <= s < 64,
        -1 <= dr <= 1,
        -1 <= df <= 1,
        0 <= k <= m,
    ensures
        ray_on(s, dr, df, m) ==> ray_on(s, dr, df, k),
        ray_on(s, dr, df, k) ==> 0 <= ray_sq(s, dr, df, k) < 64,
{
    lemma_coords(s);
}

/// `attacks` holds exactly the first `n` squares of the ray from `s` in direction `(dr, df)`.
#[verifier::opaque]
pub open spec fn ray_prefix(attacks: u64, s: int, dr: int, df: int, n: int) -> bool {
    forall|t: int|
        0 <= t < 64 ==> (#[trigger] bb_has(attacks, t) <==> exists|k: int|
            1 <= k <= n && t == #[trigger] ray_sq(s, dr, df, k))
}

/// Adding the next square of the ray extends the prefix by one.
proof fn lemma_ray_prefix_extend(old: u64, new: u64, s: int, dr: int, df: int, n: int)
    requires
        n >= 0,
        ray_prefix(old, s, dr, df, n),
        forall|t: int| 0 <= t < 64 ==> #[trigger] bb_has(new, t) == (bb_has(old, t) || t == ray_sq(s, dr, df, n + 1)),
    ensures
        ray_prefix(new, s, dr, df, n + 1),
{
    reveal(ray_prefix);
    assert forall|t: int| 0 <= t < 64 implies (#[trigger] bb_has(new, t) <==> exists|k: int|
        1 <= k <= n + 1 && t == #[trigger] ray_sq(s, dr, df, k)) by {
        if bb_has(old, t) {
            let k = choose|k: int| 1 <= k <= n && t == #[trigger] ray_sq(s, dr, df, k);
            assert(1 <= k <= n + 1 && t == ray_sq(s, dr, df, k));
        } else if t == ray_sq(s, dr, df, n + 1) {
            assert(1 <= n + 1 <= n + 1 && t == ray_sq(s, dr, df, n + 1));
        } else if exists|k: int| 1 <= k <= n + 1 && t == #[trigger] ray_sq(s, dr, df, k) {
            let k = choose|k: int| 1 <= k <= n + 1 && t == #[trigger] ray_sq(s, dr, df, k);
            assert(1 <= k <= n && t == ray_sq(s, dr, df, k));
        }
    }
}

/// A walk that has stopped, at an occupied square or at the edge, has collected exactly the
/// squares the ray attacks.
proof fn lemma_ray_prefix_done(attacks: u64, s: int, dr: int, df: int, n: int, occ: u64)
    requires
        0 <= s < 64,
        -1 <= dr <= 1,
        -1 <= df <= 1,
        n >= 0,
        ray_prefix(attacks, s, dr, df, n),
        ray_on(s, dr, df, n),
        ray_open(s, dr, df, n, occ),
        (n >= 1 && bb_has(occ, ray_sq(s, dr, df, n))) || !ray_on(s, dr, df, n + 1),
    ensures
        forall|t: int| 0 <= t < 64 ==> (#[trigger] bb_has(attacks, t) <==> ray_attack(s, t, dr, df, occ)),
{
    reveal(ray_prefix);
    assert forall|t: int| 0 <= t < 64 implies (#[trigger] bb_has(attacks, t) <==> ray_attack(s, t, dr, df, occ)) by {
        if bb_has(attacks, t) {
            let k = choose|k: int| 1 <= k <= n && t == #[trigger] ray_sq(s, dr, df, k);
            lemma_ray_on(s, dr, df, k, n);
            assert(ray_open(s, dr, df, k, occ));
        }
        if ray_attack(s, t, dr, df, occ) {
            let k = choose|k: int|
                1 <= k && ray_on(s, dr, df, k) && t == #[trigger] ray_sq(s, dr, df, k) && ray_open(s, dr, df, k, occ);
            if k > n {
                if n >= 1 && bb_has(occ, ray_sq(s, dr, df, n)) {
                    assert(!bb_has(occ, ray_sq(s, dr, df, n)));
                } else {
                    lemma_ray_on(s, dr, df, n + 1, k);
                }
            }
            assert(1 <= k <= n && t == ray_sq(s, dr, df, k));
        }
    }
}

/// Shifting the single square `cur` by the index difference of one ray step gives the single
/// next square.
proof fn lemma_ray_shift(cur: int, next: int, shift: u8, left: bool)
    requires
        0 <= cur < 64,
        0 <= next < 64,
        shift < 64,
        left ==> next == cur - shift,
        !left ==> next == cur + shift,
    ensures
        left ==> sq_bit(cur) << shift == sq_bit(next),
        !left ==> sq_bit(cur) >> shift == sq_bit(next),
{
    let p = if left {
        sq_bit(cur) << shift
    } else {
        sq_bit(cur) >> shift
    };
    assert forall|t: int| 0 <= t < 64 implies #[trigger] bb_has(p, t) == (t == next) by {
        if left {
            lemma_has_shl(sq_bit(cur), shift as u64, t);
        } else {
            lemma_has_shr(sq_bit(cur), shift as u64, t);
        }
    }
    lemma_squares_ext(p, sq_bit(next));
}

/// The single square `t` meets `occ` exactly when `t` is occupied.
pub proof fn lemma_single_meets(occ: u64, t: int)
    requires
        0 <= t < 64,
    ensures
        (occ & sq_bit(t) != 0) == bb_has(occ, t),
{
    if !bb_has(occ, t) {
        assert forall|u: int| 0 <= u < 64 implies !#[trigger] bb_has(occ & sq_bit(t), u) by {
        }
        lemma_squares_ext(occ & sq_bit(t), 0);
    } else {
        assert(bb_has(occ & sq_bit(t), t));
        lemma_has_zero(t);
    }
}

/// Collects the squares met walking from the single square `pos` (the square `s`) in steps of
/// `shift` bits, `max_steps` steps (the distance to the edge), up to and including the first
/// occupied square.
#[verifier::rlimit(30)]
fn walk_ray_limited(
    pos: u64,
    occupied_mask: u64,
    shift: u8,
    shift_left: bool,
    max_steps: u32,
    Ghost(s): Ghost<int>,
) -> (r: u64)
    requires
        0 <= s < 64,
        pos == sq_bit(s),
        shift == 1 || shift == 7 || shift == 8 || shift == 9,
        ray_on(s, shift_dr(shift as int, shift_left), shift_df(shift as int, shift_left), max_steps as int),
        !ray_on(s, shift_dr(shift as int, shift_left), shift_df(shift as int, shift_left), max_steps + 1),
    ensures
        forall|t: int|
            0 <= t < 64 ==> (#[trigger] bb_has(r, t) <==> ray_attack(
                s,
                t,
                shift_dr(shift as int, shift_left),
                shift_df(shift as int, shift_left),
                occupied_mask,
            )),
{
    let ghost dr = shift_dr(shift as int, shift_left);
    let ghost df = shift_df(shift as int, shift_left);
    let mut pos = pos;
    let mut attacks: u64 = 0;
    let mut i: u32 = 0;
    let ghost occ = occupied_mask;
    proof {
        lemma_ray_step(s, dr, df, 0);
        reveal(ray_prefix);
    }
    loop
        invariant_except_break
            i <= max_steps,
            pos == sq_bit(ray_sq(s, dr, df, i as int)),
            ray_open(s, dr, df, i as int + 1, occ),
            ray_prefix(attacks, s, dr, df, i as int),
        invariant
            0 <= s < 64,
            occ == occupied_mask,
            dr == shift_dr(shift as int, shift_left),
            df == shift_df(shift as int, shift_left),
            shift == 1 || shift == 7 || shift == 8 || shift == 9,
            ray_on(s, dr, df, max_steps as int),
            !ray_on(s, dr, df, max_steps + 1),
        ensures
            forall|t: int|
                0 <= t < 64 ==> (#[trigger] bb_has(attacks, t) <==> ray_attack(s, t, dr, df, occ)),
        decreases max_steps - i,
    {
        if i >= max_steps {
            proof {
                lemma_ray_prefix_done(attacks, s, dr, df, i as int, occ);
            }
            break;
        }
        let ghost cur = ray_sq(s, dr, df, i as int);
        let ghost next = ray_sq(s, dr, df, i + 1);
        proof {
            lemma_ray_step(s, dr, df, i as int);
            lemma_ray_on(s, dr, df, i as int, max_steps as int);
            lemma_ray_on(s, dr, df, i + 1, max_steps as int);
        }
        let ghost old_attacks = attacks;
        proof {
            lemma_ray_shift(cur, next, shift, shift_left);
            assert(bb_has(sq_bit(next), next));
        }
        pos = if shift_left {
            pos << shift
        } else {
            pos >> shift
        };
        if pos == 0 {
            break;
        }
        attacks = attacks | pos;
        proof {
            lemma_ray_prefix_extend(old_attacks, attacks, s, dr, df, i as int);
            lemma_single_meets(occ, next);
        }
        if occupied_mask & pos != 0 {
            proof {
                lemma_ray_prefix_done(attacks, s, dr, df, i + 1, occ);
            }
            break;
        }
        i += 1;
    }
    attacks
}

/// Distances from `square` to the north, south, west and east edges.
fn square_edge_distances(square: Square) -> (r: (u32, u32, u32, u32))
    ensures
        r.0 == 7 - sq_rank(square.idx()),
        r.1 == sq_rank(square.idx()),
        r.2 == sq_file(square.idx()),
        r.3 == 7 - sq_file(square.idx()),
{
    let idx = square.index() as u32;
    let n_distance = idx / 8;
    let s_distance = 7 - n_distance;
    let w_distance = idx % 8;
    let e_distance = 7 - w_distance;
    (n_distance, s_distance, w_distance, e_distance)
}

/// The smaller of two counts.
fn min_u32(a: u32, b: u32) -> (r: u32)
    ensures
        r == if a < b {
            a
        } else {
            b
        },
{
    if a < b {
        a
    } else {
        b
    }
}

/// Returns the squares attacked by a rook on `src_square`, with `occupied_mask` the occupied
/// squares.
pub fn manual_single_rook_attacks(src_square: Square, occupied_mask: u64) -> (r: u64)
    ensures
        forall|t: int| 0 <= t < 64 ==> #[trigger] bb_has(r, t) == rook_attack(src_square.idx(), t, occupied_mask),
{
    let ghost s = src_square.idx();
    let src_square_mask = src_square.mask();
    let (n_distance, s_distance, w_distance, e_distance) = square_edge_distances(src_square);
    proof {
        lemma_coords(s);
    }
    let w = walk_ray_limited(src_square_mask, occupied_mask, 1, true, w_distance, Ghost(s));
    let n = walk_ray_limited(src_square_mask, occupied_mask, 8, true, n_distance, Ghost(s));
    let e = walk_ray_limited(src_square_mask, occupied_mask, 1, false, e_distance, Ghost(s));
    let so = walk_ray_limited(src_square_mask, occupied_mask, 8, false, s_distance, Ghost(s));
    w | n | e | so
}

/// Returns the squares attacked by a bishop on `src_square`, with `occupied_mask` the occupied
/// squares.
pub fn manual_single_bishop_attacks(src_square: Square, occupied_mask: u64) -> (r: u64)
    ensures
        forall|t: int| 0 <= t < 64 ==> #[trigger] bb_has(r, t) == bishop_attack(src_square.idx(), t, occupied_mask),
{
    let ghost s = src_square.idx();
    let (n_distance, s_distance, w_distance, e_distance) = square_edge_distances(src_square);
    let src_mask = src_square.mask();
    proof {
        lemma_coords(s);
    }
    let nw = walk_ray_limited(src_mask, occupied_mask, 9, true, min_u32(n_distance, w_distance), Ghost(s));
    let ne = walk_ray_limited(src_mask, occupied_mask, 7, true, min_u32(n_distance, e_distance), Ghost(s));
    let sw = walk_ray_limited(src_mask, occupied_mask, 7, false, min_u32(s_distance, w_distance), Ghost(s));
    let se = walk_ray_limited(src_mask, occupied_mask, 9, false, min_u32(s_distance, e_distance), Ghost(s));
    nw | ne | sw | se
}

/// Returns the squares attacked by the sliding piece `piece` (bishop, rook or queen) on
/// `from`, with `occupied_mask` the occupied squares.
pub fn manual_sliding_piece_attacks(piece: Piece, from: Square, occupied_mask: u64) -> (r: u64)
    requires
        piece == Piece::Bishop || piece == Piece::Rook || piece == Piece::Queen,
    ensures
        forall|t: int| 0 <= t < 64 ==> #[trigger] bb_has(r, t) == slider_attack(piece, from.idx(), t, occupied_mask),
{
    match piece {
        Piece::Bishop => manual_single_bishop_attacks(from, occupied_mask),
        Piece::Rook => manual_single_rook_attacks(from, occupied_mask),
        _ => manual_single_bishop_attacks(from, occupied_mask) | manual_single_rook_attacks(
            from,
            occupied_mask,
        ),
    }
}

} // verus!
