//! King safety: after a move of the side to move, no opposing piece attacks its king.
use vstd::prelude::*;
use crate::bitboard::{bb_has, sq_bit, group_has};
use crate::board::Board;
use crate::types::{Color, Flank, Move, MoveFlag, Piece};
use crate::types::flank::{home_base, king_dst_file, path_square};
use crate::position::state::{Position, ZobristPolicy};
use crate::position::castling::{castling_allowed, castling_consistent, has_rights};
use crate::types::square::{between_spec, line_spec, same_diag, same_anti_diag, same_rank, same_file, sq_rank, sq_file};
use crate::types::knight_move_direction::knight_jump;
use crate::attacks::manual::{king_step, pawn_attack, lemma_coords, lemma_ray_on, ray_attack, ray_on, ray_sq, ray_open, slider_attack};
use crate::types::queen_like_move_direction::scale;
use crate::position::make_move::{after_piece, after_color, move_ok, ep_square, castle_flank, rook_from_sq, rook_to_sq, make_post};
use crate::position::pins::{kings_of, pins_checks_ok, is_checker, is_pinned, pin_line, clear_between, sole_blocker};
use crate::board_attacks::{attacked_by, steps_onto, slides_onto};

verus! {

broadcast use group_has;

/// Every square strictly between `t` and `a` is empty after `stm` plays `m` on `b`.
pub open spec fn clear_after(b: Board, stm: Color, m: Move, t: int, a: int) -> bool {
    forall|u: int|
        0 <= u < 64 && #[trigger] between_spec(t, a, u) ==> after_piece(b, stm, m, u) == Piece::Null
}

/// After `stm` plays `m` on `b`, the piece on `a` attacks `t`: a pawn diagonally forward, a
/// knight by a jump, a king by a step, a slider along its lines through empty squares.
pub open spec fn attacks_after(b: Board, stm: Color, m: Move, a: int, t: int) -> bool {
    match after_piece(b, stm, m, a) {
        Piece::Pawn => pawn_attack(after_color(b, stm, m, a), a, t),
        Piece::Knight => knight_jump(a, t),
        Piece::King => king_step(a, t),
        Piece::Bishop => (same_diag(t, a) || same_anti_diag(t, a)) && clear_after(b, stm, m, t, a),
        Piece::Rook => (same_rank(t, a) || same_file(t, a)) && clear_after(b, stm, m, t, a),
        Piece::Queen => (same_rank(t, a) || same_file(t, a) || same_diag(t, a) || same_anti_diag(t, a))
            && clear_after(b, stm, m, t, a),
        Piece::Null => false,
    }
}

/// Where the king that stood on `k` stands after `m`.
pub open spec fn king_after(m: Move, k: int) -> int {
    if m.from_spec().idx() == k {
        m.to_spec().idx()
    } else {
        k
    }
}

/// After `stm` plays `m` on `b`, no piece of the opponent attacks the king of `stm` that stood
/// on `k`.
pub open spec fn king_safe_after(b: Board, stm: Color, m: Move, k: int) -> bool {
    forall|a: int|
        0 <= a < 64 && after_color(b, stm, m, a) == stm.opp() ==> !#[trigger] attacks_after(
            b,
            stm,
            m,
            a,
            king_after(m, k),
        )
}

/// No king of the opponent of `stm` stands next to the king of `stm` on `k`.
pub open spec fn kings_apart(b: Board, stm: Color, k: int) -> bool {
    forall|a: int| 0 <= a < 64 && b.holds(a, Piece::King, stm.opp()) ==> !#[trigger] king_step(a, k)
}

/// Every destination in `dst_mask` captures each checker of the king on `k`, or, for a sliding
/// checker, blocks it.
pub open spec fn resolves_checks(b: Board, checkers: u64, k: int, dst_mask: u64) -> bool {
    forall|c: int, t: int|
        0 <= c < 64 && 0 <= t < 64 && #[trigger] bb_has(checkers, c) && #[trigger] bb_has(dst_mask, t) ==> t == c || (
        b.piece(c).sliding() && between_spec(c, k, t))
}

/// `m` moves a piece of `stm` other than its king, as a normal move or a promotion, onto a
/// square of `dst_mask`; a pinned piece stays on the line through it and the king on `k`, and
/// no square it passes over is occupied.
pub open spec fn piece_move_fits(b: Board, stm: Color, k: int, pinned: u64, dst_mask: u64, m: Move) -> bool {
    let f = m.from_spec().idx();
    let t = m.to_spec().idx();
    &&& move_ok(b, stm, m)
    &&& (m.flag_spec() == MoveFlag::NormalMove || m.flag_spec() == MoveFlag::Promotion)
    &&& b.piece(f) != Piece::King
    &&& bb_has(dst_mask, t)
    &&& (bb_has(pinned, f) ==> line_spec(f, k, t))
    &&& forall|u: int| 0 <= u < 64 && #[trigger] between_spec(f, t, u) ==> b.piece(u) == Piece::Null
}

/// `between_spec` does not depend on the order of its ends.
pub proof fn lemma_between_symmetric(a: int, b: int, u: int)
    requires
        0 <= a < 64,
        0 <= b < 64,
        0 <= u < 64,
    ensures
        between_spec(a, b, u) == between_spec(b, a, u),
{
    lemma_coords(a);
    lemma_coords(b);
    lemma_coords(u);
}

/// On the line through `k` and `a`, a square `t` outside the segment from `k` to `a` is
/// separated from any square `f` strictly inside it by `k` or by `a`.
pub proof fn lemma_outside_segment(k: int, a: int, f: int, t: int)
    requires
        0 <= k < 64,
        0 <= a < 64,
        0 <= f < 64,
        0 <= t < 64,
        between_spec(k, a, f),
        line_spec(f, k, t),
        t != k,
        t != a,
        t != f,
        !between_spec(k, a, t),
    ensures
        between_spec(f, t, k) || between_spec(f, t, a),
{
    lemma_coords(k);
    lemma_coords(a);
    lemma_coords(f);
    lemma_coords(t);
}

/// No opposing piece attacks the king after a piece move that fits the pins and resolves the
/// checks (the piece on `a` is taken to attack it, and that is refuted).
proof fn lemma_piece_move_no_attacker(
    b: Board,
    stm: Color,
    m: Move,
    k: int,
    pinned: u64,
    checkers: u64,
    dst_mask: u64,
    a: int,
)
    requires
        b.wf(),
        0 <= k < 64,
        0 <= a < 64,
        kings_of(b, stm) == sq_bit(k),
        pins_checks_ok(b, stm, pinned, checkers),
        resolves_checks(b, checkers, k, dst_mask),
        kings_apart(b, stm, k),
        piece_move_fits(b, stm, k, pinned, dst_mask, m),
        after_color(b, stm, m, a) == stm.opp(),
    ensures
        !attacks_after(b, stm, m, a, king_after(m, k)),
{
    if attacks_after(b, stm, m, a, king_after(m, k)) {
        let f = m.from_spec().idx();
        let t = m.to_spec().idx();
        let opp = stm.opp();
        b.lemma_square(f);
        b.lemma_square(t);
        b.lemma_square(k);
        b.lemma_square(a);
        assert(bb_has(kings_of(b, stm), k));
        assert(b.piece(k) == Piece::King && b.color(k) == stm);
        assert(k != f && k != t);
        assert(king_after(m, k) == k);
        assert(a != t);
        assert(a != f);
        assert(after_piece(b, stm, m, t) != Piece::Null);
        let pa = b.piece(a);
        assert(after_piece(b, stm, m, a) == pa);
        assert(b.color(a) == opp);
        assert(bb_has(b.cm(opp.idx()), a));
        assert(kings_of(b, stm) == sq_bit(k));
        assert(forall|x: int| 0 <= x < 64 ==> #[trigger] bb_has(checkers, x) == is_checker(b, stm, k, x));
        assert(forall|x: int| 0 <= x < 64 ==> #[trigger] bb_has(pinned, x) == is_pinned(b, stm, k, x));
        if pa == Piece::Pawn || pa == Piece::Knight {
            lemma_coords(a);
            lemma_coords(k);
            assert(is_checker(b, stm, k, a));
            assert(bb_has(checkers, a));
            assert(bb_has(dst_mask, t));
        } else if pa == Piece::King {
            assert(b.holds(a, Piece::King, opp));
        } else {
            assert(pin_line(b, stm, k, a));
            assert(clear_after(b, stm, m, k, a));
            if clear_between(b, k, a) {
                assert(is_checker(b, stm, k, a));
                assert(bb_has(checkers, a));
                assert(bb_has(dst_mask, t));
                lemma_between_symmetric(a, k, t);
                assert(!between_spec(k, a, t));
            } else {
                let u0 = choose|u: int| 0 <= u < 64 && #[trigger] between_spec(k, a, u) && bb_has(b.occ(), u);
                assert forall|u: int| 0 <= u < 64 && #[trigger] between_spec(k, a, u) && bb_has(b.occ(), u) implies u == f by {
                    b.lemma_square(u);
                    assert(after_piece(b, stm, m, u) == Piece::Null);
                }
                assert(u0 == f);
                assert(sole_blocker(b, k, a, f));
                assert(is_pinned(b, stm, k, f));
                assert(bb_has(pinned, f));
                assert(line_spec(f, k, t));
                assert(!between_spec(k, a, t));
                lemma_outside_segment(k, a, f, t);
            }
        }
    }
}

/// After a piece move that keeps pinned pieces on their pin lines and captures or blocks the
/// checker, no opposing piece attacks the king.
pub proof fn lemma_piece_move_safe(
    b: Board,
    stm: Color,
    m: Move,
    k: int,
    pinned: u64,
    checkers: u64,
    dst_mask: u64,
)
    requires
        b.wf(),
        0 <= k < 64,
        kings_of(b, stm) == sq_bit(k),
        pins_checks_ok(b, stm, pinned, checkers),
        resolves_checks(b, checkers, k, dst_mask),
        kings_apart(b, stm, k),
        piece_move_fits(b, stm, k, pinned, dst_mask, m),
    ensures
        king_safe_after(b, stm, m, k),
{
    assert forall|a: int| 0 <= a < 64 && after_color(b, stm, m, a) == stm.opp() implies !#[trigger] attacks_after(
        b,
        stm,
        m,
        a,
        king_after(m, k),
    ) by {
        lemma_piece_move_no_attacker(b, stm, m, k, pinned, checkers, dst_mask, a);
    }
}

/// `m` steps the king of `stm` from `k` onto a square without a piece of its own that no
/// opposing piece attacks once the king has left `k` and any piece on the target is taken.
pub open spec fn king_move_fits(b: Board, stm: Color, k: int, m: Move) -> bool {
    let t = m.to_spec().idx();
    let mask = sq_bit(k) | sq_bit(t);
    &&& move_ok(b, stm, m)
    &&& m.flag_spec() == MoveFlag::NormalMove
    &&& m.promotion_spec() == Piece::Null
    &&& m.from_spec().idx() == k
    &&& king_step(k, t)
    &&& !attacked_by(b, stm.opp(), t, b.cm(stm.opp().idx()) & !mask, b.occ() ^ mask)
}

/// The piece on `a`, which `m` leaves in place, attacks `t` after the move as it attacks `t`
/// on `b` with the occupancy `occ`, given that every square strictly between them that is
/// empty after the move is empty in `occ`.
proof fn lemma_attack_before(b: Board, stm: Color, m: Move, a: int, t: int, attackers: u64, occ: u64)
    requires
        b.wf(),
        0 <= a < 64,
        0 <= t < 64,
        after_piece(b, stm, m, a) == b.piece(a),
        after_color(b, stm, m, a) == b.color(a),
        b.piece(a) != Piece::Null,
        bb_has(attackers, a),
        attacks_after(b, stm, m, a, t),
        b.piece(a).sliding() ==> forall|u: int|
            0 <= u < 64 && #[trigger] between_spec(t, a, u) && after_piece(b, stm, m, u) == Piece::Null ==> !bb_has(occ, u),
    ensures
        attacked_by(b, b.color(a), t, attackers, occ),
{
    b.lemma_square(a);
    let by = b.color(a);
    if b.piece(a) == Piece::Pawn || b.piece(a) == Piece::Knight || b.piece(a) == Piece::King {
        assert(steps_onto(b, by, a, t));
    } else {
        assert(slides_onto(b, a, t, occ));
    }
}

/// After a king move onto a square no opposing piece attacks once the king has left, no
/// opposing piece attacks the king.
pub proof fn lemma_king_move_safe(b: Board, stm: Color, m: Move, k: int)
    requires
        b.wf(),
        0 <= k < 64,
        kings_of(b, stm) == sq_bit(k),
        king_move_fits(b, stm, k, m),
    ensures
        king_safe_after(b, stm, m, k),
{
    let t = m.to_spec().idx();
    let opp = stm.opp();
    let mask = sq_bit(k) | sq_bit(t);
    let occ = b.occ() ^ mask;
    assert forall|a: int| 0 <= a < 64 && after_color(b, stm, m, a) == stm.opp() implies !#[trigger] attacks_after(
        b,
        stm,
        m,
        a,
        king_after(m, k),
    ) by {
        if attacks_after(b, stm, m, a, king_after(m, k)) {
            b.lemma_square(a);
            b.lemma_square(k);
            b.lemma_square(t);
            assert(king_after(m, k) == t);
            assert(a != t && a != k);
            assert(bb_has(b.cm(opp.idx()) & !mask, a));
            assert forall|u: int|
                0 <= u < 64 && #[trigger] between_spec(t, a, u) && after_piece(b, stm, m, u) == Piece::Null implies !bb_has(occ, u) by {
                b.lemma_square(u);
            }
            lemma_attack_before(b, stm, m, a, t, b.cm(opp.idx()) & !mask, occ);
        }
    }
}

/// No square lies strictly between two neighbouring squares.
pub proof fn lemma_neighbors_adjacent(f: int, t: int, u: int)
    requires
        0 <= f < 64,
        0 <= t < 64,
        0 <= u < 64,
        -1 <= sq_rank(t) - sq_rank(f) <= 1,
        -1 <= sq_file(t) - sq_file(f) <= 1,
    ensures
        !between_spec(f, t, u),
{
    lemma_coords(f);
    lemma_coords(t);
    lemma_coords(u);
}

/// On a file, a neighbour (one rank away) of a square strictly between `k` and `a` is one of
/// them or lies strictly between them too.
proof fn lemma_file_neighbor(k: int, a: int, c: int, t: int)
    requires
        0 <= k < 64,
        0 <= a < 64,
        0 <= c < 64,
        0 <= t < 64,
        same_file(k, a),
        between_spec(k, a, c),
        same_file(c, t),
        sq_rank(t) - sq_rank(c) == 1 || sq_rank(t) - sq_rank(c) == -1,
    ensures
        t == k || t == a || between_spec(k, a, t),
{
    lemma_coords(k);
    lemma_coords(a);
    lemma_coords(c);
    lemma_coords(t);
}

/// Two distinct squares of one rank strictly between `k` and `a` put `k` on that rank.
proof fn lemma_two_on_rank(k: int, a: int, f: int, c: int)
    requires
        0 <= k < 64,
        0 <= a < 64,
        0 <= f < 64,
        0 <= c < 64,
        between_spec(k, a, f),
        between_spec(k, a, c),
        same_rank(f, c),
        f != c,
    ensures
        same_rank(k, f),
{
    lemma_coords(k);
    lemma_coords(a);
    lemma_coords(f);
    lemma_coords(c);
}

/// The pawn of the opponent on `cap` does not stand alone between the king of `stm` on `k`
/// and an opposing bishop or queen on a diagonal.
pub open spec fn ep_unshielded(b: Board, stm: Color, k: int, cap: int) -> bool {
    forall|a: int|
        0 <= a < 64 && pin_line(b, stm, k, a) && (same_diag(k, a) || same_anti_diag(k, a)) ==> !#[trigger] sole_blocker(
            b,
            k,
            a,
            cap,
        )
}

/// `m` is an en-passant capture by the pawn of `stm` on `f`, diagonally behind the target `t`,
/// of the opposing pawn next to it on `cap`, with `t` empty; a pinned pawn stays on its pin line;
/// in check, or when the king shares the capturing pawn's rank, no opposing piece attacks the
/// king once the three squares have changed; and out of check the captured pawn does not shield
/// the king diagonally.
pub open spec fn ep_move_fits(b: Board, stm: Color, k: int, pinned: u64, checkers: u64, m: Move) -> bool {
    let f = m.from_spec().idx();
    let t = m.to_spec().idx();
    let cap = ep_square(stm, t);
    let mask = sq_bit(f) | sq_bit(t) | sq_bit(cap);
    &&& m.flag_spec() == MoveFlag::EnPassant
    &&& 0 <= cap < 64
    &&& b.holds(f, Piece::Pawn, stm)
    &&& b.piece(t) == Piece::Null
    &&& b.holds(cap, Piece::Pawn, stm.opp())
    &&& same_rank(f, cap)
    &&& same_file(t, cap)
    &&& (sq_rank(t) - sq_rank(cap) == 1 || sq_rank(t) - sq_rank(cap) == -1)
    &&& (sq_file(t) - sq_file(f) == 1 || sq_file(t) - sq_file(f) == -1)
    &&& (bb_has(pinned, f) ==> line_spec(f, k, t))
    &&& (checkers != 0 || same_rank(k, f) ==> !attacked_by(
        b,
        stm.opp(),
        k,
        b.cm(stm.opp().idx()) & !mask,
        b.occ() ^ mask,
    ))
    &&& (checkers == 0 ==> ep_unshielded(b, stm, k, cap))
}

/// After an en-passant capture by an unpinned pawn (or one staying on its pin line), with the
/// king's safety probed when in check or when the king shares the capturing pawn's rank, no
/// opposing piece attacks the king, provided the captured pawn does not shield the king
/// diagonally when not in check.
pub proof fn lemma_ep_move_safe(b: Board, stm: Color, m: Move, k: int, pinned: u64, checkers: u64)
    requires
        b.wf(),
        0 <= k < 64,
        kings_of(b, stm) == sq_bit(k),
        pins_checks_ok(b, stm, pinned, checkers),
        kings_apart(b, stm, k),
        ep_move_fits(b, stm, k, pinned, checkers, m),
    ensures
        king_safe_after(b, stm, m, k),
{
    assert forall|a: int| 0 <= a < 64 && after_color(b, stm, m, a) == stm.opp() implies !#[trigger] attacks_after(
        b,
        stm,
        m,
        a,
        king_after(m, k),
    ) by {
        lemma_ep_no_attacker(b, stm, m, k, pinned, checkers, a);
    }
}

/// The piece on `a` does not attack the king after the en-passant capture `m`.
proof fn lemma_ep_no_attacker(b: Board, stm: Color, m: Move, k: int, pinned: u64, checkers: u64, a: int)
    requires
        b.wf(),
        0 <= k < 64,
        0 <= a < 64,
        kings_of(b, stm) == sq_bit(k),
        pins_checks_ok(b, stm, pinned, checkers),
        kings_apart(b, stm, k),
        ep_move_fits(b, stm, k, pinned, checkers, m),
        after_color(b, stm, m, a) == stm.opp(),
    ensures
        !attacks_after(b, stm, m, a, king_after(m, k)),
{
    if attacks_after(b, stm, m, a, king_after(m, k)) {
        let f = m.from_spec().idx();
        let t = m.to_spec().idx();
        let cap = ep_square(stm, t);
        let opp = stm.opp();
        let mask = sq_bit(f) | sq_bit(t) | sq_bit(cap);
        let occ = b.occ() ^ mask;
        b.lemma_square(f);
        b.lemma_square(t);
        b.lemma_square(k);
        b.lemma_square(a);
        b.lemma_square(cap);
        lemma_coords(f);
        lemma_coords(t);
        lemma_coords(cap);
        assert(bb_has(kings_of(b, stm), k));
        assert(b.piece(k) == Piece::King && b.color(k) == stm);
        assert(k != f && k != t && k != cap);
        assert(f != t && f != cap && t != cap);
        assert(king_after(m, k) == k);
        assert(a != t && a != f && a != cap);
        assert(after_piece(b, stm, m, t) == Piece::Pawn);
        assert(after_piece(b, stm, m, a) == b.piece(a));
        assert(b.color(a) == opp);
        assert(bb_has(b.cm(opp.idx()), a));
        assert(forall|x: int| 0 <= x < 64 ==> #[trigger] bb_has(checkers, x) == is_checker(b, stm, k, x));
        assert(forall|x: int| 0 <= x < 64 ==> #[trigger] bb_has(pinned, x) == is_pinned(b, stm, k, x));
        if checkers != 0 || same_rank(k, f) {
            assert(bb_has(b.cm(opp.idx()) & !mask, a));
            assert forall|u: int|
                0 <= u < 64 && #[trigger] between_spec(k, a, u) && after_piece(b, stm, m, u) == Piece::Null implies !bb_has(occ, u) by {
                b.lemma_square(u);
            }
            lemma_attack_before(b, stm, m, a, k, b.cm(opp.idx()) & !mask, occ);
        } else {
            assert(!bb_has(checkers, a));
            let pa = b.piece(a);
            if pa == Piece::Pawn || pa == Piece::Knight {
                lemma_coords(a);
                lemma_coords(k);
                assert(is_checker(b, stm, k, a));
            } else if pa == Piece::King {
                assert(b.holds(a, Piece::King, opp));
            } else {
                assert(pin_line(b, stm, k, a));
                assert(clear_after(b, stm, m, k, a));
                assert(!between_spec(k, a, t));
                assert forall|u: int| 0 <= u < 64 && #[trigger] between_spec(k, a, u) && bb_has(b.occ(), u) implies u == f || u == cap by {
                    b.lemma_square(u);
                    assert(after_piece(b, stm, m, u) == Piece::Null);
                }
                if between_spec(k, a, f) && between_spec(k, a, cap) {
                    lemma_two_on_rank(k, a, f, cap);
                } else if between_spec(k, a, f) {
                    assert(sole_blocker(b, k, a, f));
                    assert(is_pinned(b, stm, k, f));
                    assert(line_spec(f, k, t));
                    lemma_outside_segment(k, a, f, t);
                    lemma_neighbors_adjacent(f, t, k);
                    lemma_neighbors_adjacent(f, t, a);
                } else if between_spec(k, a, cap) {
                    assert(sole_blocker(b, k, a, cap));
                    lemma_coords(a);
                    lemma_coords(k);
                    if same_rank(k, a) {
                        assert(same_rank(k, f));
                    } else if same_file(k, a) {
                        lemma_file_neighbor(k, a, cap, t);
                    } else {
                        assert(ep_unshielded(b, stm, k, cap));
                    }
                } else {
                    assert(clear_between(b, k, a));
                    assert(is_checker(b, stm, k, a));
                }
            }
        }
    }
}

/// On the home rank, the king's castling target `t` is separated from its initial square by
/// the rook's target, and the rook's corner never lies strictly between `t` and another square.
proof fn lemma_castle_lines(fl: Flank, color: Color, a: int)
    requires
        0 <= a < 64,
    ensures
        between_spec(home_base(color) + king_dst_file(fl), a, home_base(color) + 4) ==> between_spec(
            home_base(color) + king_dst_file(fl),
            a,
            rook_to_sq(fl, color),
        ),
        !between_spec(home_base(color) + king_dst_file(fl), a, rook_from_sq(fl, color)),
{
    lemma_coords(a);
    lemma_coords(home_base(color) + 4);
    lemma_coords(home_base(color) + king_dst_file(fl));
    lemma_coords(rook_to_sq(fl, color));
    lemma_coords(rook_from_sq(fl, color));
}

/// After castling as the castling rules allow it (the right held and backed by the board, the
/// squares between king and rook empty, no square of the king's path attacked), no opposing
/// piece attacks the king.
pub proof fn lemma_castling_safe<Z: ZobristPolicy>(p: Position<Z>, m: Move, k: int, fl: Flank)
    requires
        p.board.wf(),
        0 <= k < 64,
        kings_of(p.board, p.stm()) == sq_bit(k),
        castling_consistent(p),
        castling_allowed(p, fl),
        m.flag_spec() == MoveFlag::Castling,
        m.from_spec().idx() == home_base(p.stm()) + 4,
        m.to_spec().idx() == home_base(p.stm()) + king_dst_file(fl),
    ensures
        king_safe_after(p.board, p.stm(), m, k),
{
    let b = p.board;
    let stm = p.stm();
    let opp = stm.opp();
    let t = m.to_spec().idx();
    let kh = home_base(stm) + 4;
    let rf = rook_from_sq(fl, stm);
    let rt = rook_to_sq(fl, stm);
    assert(has_rights(p, fl, stm));
    assert(b.holds(kh, Piece::King, stm));
    assert(b.holds(rf, Piece::Rook, stm));
    b.lemma_square(kh);
    assert(bb_has(kings_of(b, stm), kh));
    assert(k == kh);
    assert(castle_flank(t) == fl);
    assert(path_square(fl, stm, t));
    assert(king_after(m, k) == t);
    assert forall|a: int| 0 <= a < 64 && after_color(b, stm, m, a) == stm.opp() implies !#[trigger] attacks_after(
        b,
        stm,
        m,
        a,
        king_after(m, k),
    ) by {
        if attacks_after(b, stm, m, a, king_after(m, k)) {
            b.lemma_square(a);
            assert(a != t && a != kh && a != rf && a != rt);
            assert(after_piece(b, stm, m, a) == b.piece(a));
            lemma_castle_lines(fl, stm, a);
            if b.piece(a).sliding() {
                assert(clear_after(b, stm, m, t, a));
                assert(after_piece(b, stm, m, rt) == Piece::Rook);
                assert forall|u: int|
                    0 <= u < 64 && #[trigger] between_spec(t, a, u) && after_piece(b, stm, m, u) == Piece::Null implies !bb_has(b.occ(), u) by {
                    b.lemma_square(u);
                }
            }
            lemma_attack_before(b, stm, m, a, t, b.cm(opp.idx()), b.occ());
        }
    }
}

/// A square strictly between a sliding piece on `s` and a square `t` its ray in direction
/// `(dr, df)` reaches is empty.
proof fn lemma_ray_clear(s: int, t: int, dr: int, df: int, occ: u64, u: int)
    requires
        0 <= s < 64,
        0 <= u < 64,
        -1 <= dr <= 1,
        -1 <= df <= 1,
        dr != 0 || df != 0,
        ray_attack(s, t, dr, df, occ),
        between_spec(s, t, u),
    ensures
        !bb_has(occ, u),
{
    let k = choose|k: int|
        1 <= k && ray_on(s, dr, df, k) && t == #[trigger] ray_sq(s, dr, df, k) && ray_open(s, dr, df, k, occ);
    lemma_ray_on(s, dr, df, k, k);
    lemma_coords(s);
    lemma_coords(t);
    lemma_coords(u);
    assert(sq_rank(t) == sq_rank(s) + scale(dr, k) && sq_file(t) == sq_file(s) + scale(df, k));
    let j = if dr != 0 {
        scale(dr, sq_rank(u) - sq_rank(s))
    } else {
        scale(df, sq_file(u) - sq_file(s))
    };
    assert(1 <= j < k);
    assert(sq_rank(u) == sq_rank(s) + scale(dr, j) && sq_file(u) == sq_file(s) + scale(df, j));
    assert(u == ray_sq(s, dr, df, j));
}

/// A square strictly between a sliding piece on `s` and a square `t` it attacks is empty.
pub proof fn lemma_slider_path_clear(p: Piece, s: int, t: int, occ: u64, u: int)
    requires
        0 <= s < 64,
        0 <= u < 64,
        slider_attack(p, s, t, occ),
        between_spec(s, t, u),
    ensures
        !bb_has(occ, u),
{
    if ray_attack(s, t, 1, 1, occ) {
        lemma_ray_clear(s, t, 1, 1, occ, u);
    } else if ray_attack(s, t, 1, -1, occ) {
        lemma_ray_clear(s, t, 1, -1, occ, u);
    } else if ray_attack(s, t, -1, 1, occ) {
        lemma_ray_clear(s, t, -1, 1, occ, u);
    } else if ray_attack(s, t, -1, -1, occ) {
        lemma_ray_clear(s, t, -1, -1, occ, u);
    } else if ray_attack(s, t, 1, 0, occ) {
        lemma_ray_clear(s, t, 1, 0, occ, u);
    } else if ray_attack(s, t, -1, 0, occ) {
        lemma_ray_clear(s, t, -1, 0, occ, u);
    } else if ray_attack(s, t, 0, 1, occ) {
        lemma_ray_clear(s, t, 0, 1, occ, u);
    } else {
        lemma_ray_clear(s, t, 0, -1, occ, u);
    }
}

/// No square lies strictly between the two ends of a knight's jump.
pub proof fn lemma_knight_no_between(f: int, t: int, u: int)
    requires
        0 <= f < 64,
        0 <= t < 64,
        0 <= u < 64,
        knight_jump(f, t),
    ensures
        !between_spec(f, t, u),
{
    lemma_coords(f);
    lemma_coords(t);
    lemma_coords(u);
}

/// The only square strictly between the two ends of a pawn's double step is the one it
/// crosses.
pub proof fn lemma_double_step_between(f: int, t: int, u: int)
    requires
        0 <= f < 64,
        0 <= t < 64,
        0 <= u < 64,
        t == f + 16 || t == f - 16,
        between_spec(f, t, u),
    ensures
        u == (f + t) / 2,
{
    lemma_coords(f);
    lemma_coords(t);
    lemma_coords(u);
}

/// After `m` is played (`q` is the position after it), the king of the side that moved is not
/// attacked when `m` kept it safe.
pub proof fn lemma_safe_move_leaves_no_check<Z: ZobristPolicy>(p: Position<Z>, m: Move, q: Position<Z>, k: int)
    requires
        king_safe_after(p.board, p.stm(), m, k),
        make_post(p, m, q),
    ensures
        !attacked_by(
            q.board,
            p.stm().opp(),
            king_after(m, k),
            q.board.cm(p.stm().opp().idx()),
            q.board.occ(),
        ),
{
    let b = p.board;
    let stm = p.stm();
    let opp = stm.opp();
    let kk = king_after(m, k);
    let qb = q.board;
    if attacked_by(qb, opp, kk, qb.cm(opp.idx()), qb.occ()) {
        let s = choose|s: int|
            0 <= s < 64 && bb_has(qb.cm(opp.idx()), s) && (steps_onto(qb, opp, s, kk) || slides_onto(qb, s, kk, qb.occ()));
        qb.lemma_square(s);
        assert(qb.piece(s) == after_piece(b, stm, m, s));
        assert(qb.color(s) == after_color(b, stm, m, s));
        assert(after_color(b, stm, m, s) == opp);
        if slides_onto(qb, s, kk, qb.occ()) && !steps_onto(qb, opp, s, kk) {
            assert forall|u: int| 0 <= u < 64 && #[trigger] between_spec(kk, s, u) implies after_piece(b, stm, m, u) == Piece::Null by {
                qb.lemma_square(u);
                assert(qb.piece(u) == after_piece(b, stm, m, u));
            }
        }
        assert(attacks_after(b, stm, m, s, kk));
    }
}

/// Two squares strictly between `k` and `a` are on a line through each other and `k`, and so
/// is `a`.
proof fn lemma_segment_line(k: int, a: int, f: int, u: int)
    requires
        0 <= k < 64,
        0 <= a < 64,
        0 <= f < 64,
        0 <= u < 64,
        between_spec(k, a, f),
    ensures
        line_spec(f, k, a),
        between_spec(k, a, u) ==> line_spec(f, k, u),
{
    lemma_coords(k);
    lemma_coords(a);
    lemma_coords(f);
    lemma_coords(u);
}

/// A knight's jump never stays on a line through its origin.
pub proof fn lemma_knight_off_line(f: int, k: int, t: int)
    requires
        0 <= f < 64,
        0 <= k < 64,
        0 <= t < 64,
        knight_jump(f, t),
    ensures
        !line_spec(f, k, t),
{
    lemma_coords(f);
    lemma_coords(k);
    lemma_coords(t);
}

/// A move along a file stays on the line through its origin and `k` only when `k` is on that
/// file.
pub proof fn lemma_file_move_line(f: int, k: int, t: int)
    requires
        0 <= f < 64,
        0 <= k < 64,
        0 <= t < 64,
        f != t,
        same_file(f, t),
        line_spec(f, k, t),
    ensures
        sq_file(f) == sq_file(k),
{
    lemma_coords(f);
    lemma_coords(k);
    lemma_coords(t);
}

/// A piece move of `stm` (normal, promotion or en passant) leaving the piece on `c` in place
/// and its line to the king open leaves the king attacked.
pub proof fn lemma_checker_survives(b: Board, stm: Color, m: Move, k: int, c: int)
    requires
        b.wf(),
        0 <= k < 64,
        0 <= c < 64,
        kings_of(b, stm) == sq_bit(k),
        is_checker(b, stm, k, c),
        move_ok(b, stm, m),
        m.flag_spec() == MoveFlag::NormalMove || m.flag_spec() == MoveFlag::Promotion || m.flag_spec() == MoveFlag::EnPassant,
        b.piece(m.from_spec().idx()) != Piece::King,
        m.to_spec().idx() != c,
        !(b.piece(c).sliding() && between_spec(c, k, m.to_spec().idx())),
        m.flag_spec() == MoveFlag::EnPassant ==> ep_square(stm, m.to_spec().idx()) != c,
    ensures
        !king_safe_after(b, stm, m, k),
{
    let f = m.from_spec().idx();
    let t = m.to_spec().idx();
    let opp = stm.opp();
    b.lemma_square(f);
    b.lemma_square(t);
    b.lemma_square(k);
    b.lemma_square(c);
    assert(bb_has(kings_of(b, stm), k));
    assert(f != k);
    assert(king_after(m, k) == k);
    assert(c != f);
    assert(after_piece(b, stm, m, c) == b.piece(c));
    assert(after_color(b, stm, m, c) == opp);
    if bb_has(b.pm(1), c) && pawn_attack(stm, k, c) {
        lemma_coords(c);
        lemma_coords(k);
        assert(attacks_after(b, stm, m, c, k));
    } else if bb_has(b.pm(2), c) && knight_jump(k, c) {
        lemma_coords(c);
        lemma_coords(k);
        assert(attacks_after(b, stm, m, c, k));
    } else {
        assert(pin_line(b, stm, k, c) && clear_between(b, k, c));
        lemma_between_symmetric(c, k, t);
        assert forall|u: int| 0 <= u < 64 && #[trigger] between_spec(k, c, u) implies after_piece(b, stm, m, u) == Piece::Null by {
            b.lemma_square(u);
        }
        assert(clear_after(b, stm, m, k, c));
        assert(attacks_after(b, stm, m, c, k));
    }
}

/// A pinned piece leaving the line through it and its king leaves the king attacked.
pub proof fn lemma_pinner_survives(b: Board, stm: Color, m: Move, k: int)
    requires
        b.wf(),
        0 <= k < 64,
        kings_of(b, stm) == sq_bit(k),
        move_ok(b, stm, m),
        m.flag_spec() == MoveFlag::NormalMove || m.flag_spec() == MoveFlag::Promotion || m.flag_spec() == MoveFlag::EnPassant,
        b.piece(m.from_spec().idx()) != Piece::King,
        is_pinned(b, stm, k, m.from_spec().idx()),
        !line_spec(m.from_spec().idx(), k, m.to_spec().idx()),
    ensures
        !king_safe_after(b, stm, m, k),
{
    let f = m.from_spec().idx();
    let t = m.to_spec().idx();
    let opp = stm.opp();
    let a = choose|a: int| 0 <= a < 64 && pin_line(b, stm, k, a) && #[trigger] sole_blocker(b, k, a, f);
    b.lemma_square(f);
    b.lemma_square(t);
    b.lemma_square(k);
    b.lemma_square(a);
    assert(bb_has(kings_of(b, stm), k));
    assert(f != k);
    assert(king_after(m, k) == k);
    lemma_segment_line(k, a, f, t);
    assert(a != t && a != f);
    assert(m.flag_spec() == MoveFlag::EnPassant ==> ep_square(stm, t) != a);
    assert(after_piece(b, stm, m, a) == b.piece(a));
    assert(after_color(b, stm, m, a) == opp);
    assert forall|u: int| 0 <= u < 64 && #[trigger] between_spec(k, a, u) implies after_piece(b, stm, m, u) == Piece::Null by {
        b.lemma_square(u);
        lemma_segment_line(k, a, f, u);
    }
    assert(clear_after(b, stm, m, k, a));
    assert(attacks_after(b, stm, m, a, k));
}

/// Two distinct squares each strictly between `k` and some square on the line from `k`
/// through `t`, both with `t` strictly between them and `k`, lie one beyond the other.
proof fn lemma_same_ray(c1: int, c2: int, k: int, t: int)
    requires
        0 <= c1 < 64,
        0 <= c2 < 64,
        0 <= k < 64,
        0 <= t < 64,
        c1 != c2,
        between_spec(c1, k, t),
        between_spec(c2, k, t),
    ensures
        between_spec(k, c1, c2) || between_spec(k, c2, c1),
{
    lemma_coords(c1);
    lemma_coords(c2);
    lemma_coords(k);
    lemma_coords(t);
}

/// The target of an en-passant capture of a pawn that attacks the king is a knight's jump
/// from the king, so never strictly between the king and another square.
proof fn lemma_ep_target_off_king_lines(stm: Color, k: int, cap: int, t: int, c: int)
    requires
        0 <= k < 64,
        0 <= cap < 64,
        0 <= t < 64,
        0 <= c < 64,
        pawn_attack(stm, k, cap),
        cap == ep_square(stm, t),
    ensures
        !between_spec(c, k, t),
{
    lemma_coords(k);
    lemma_coords(cap);
    lemma_coords(t);
    lemma_coords(c);
}

/// With two pieces giving check, no move of another piece (normal, promotion or en passant)
/// leaves the king safe.
pub proof fn lemma_double_check_unsafe(b: Board, stm: Color, m: Move, k: int, c1: int, c2: int)
    requires
        b.wf(),
        0 <= k < 64,
        0 <= c1 < 64,
        0 <= c2 < 64,
        c1 != c2,
        kings_of(b, stm) == sq_bit(k),
        is_checker(b, stm, k, c1),
        is_checker(b, stm, k, c2),
        move_ok(b, stm, m),
        m.flag_spec() == MoveFlag::NormalMove || m.flag_spec() == MoveFlag::Promotion || m.flag_spec() == MoveFlag::EnPassant,
        b.piece(m.from_spec().idx()) != Piece::King,
    ensures
        !king_safe_after(b, stm, m, k),
{
    let t = m.to_spec().idx();
    let ep = m.flag_spec() == MoveFlag::EnPassant;
    let cap = ep_square(stm, t);
    b.lemma_square(t);
    b.lemma_square(c1);
    b.lemma_square(c2);
    lemma_between_symmetric(c1, k, t);
    lemma_between_symmetric(c2, k, t);
    lemma_between_symmetric(c1, k, c2);
    lemma_between_symmetric(c2, k, c1);
    if !(t == c1 || (b.piece(c1).sliding() && between_spec(c1, k, t)) || (ep && cap == c1)) {
        lemma_checker_survives(b, stm, m, k, c1);
    } else if !(t == c2 || (b.piece(c2).sliding() && between_spec(c2, k, t)) || (ep && cap == c2)) {
        lemma_checker_survives(b, stm, m, k, c2);
    } else {
        if ep && cap == c1 {
            lemma_ep_target_off_king_lines(stm, k, cap, t, c2);
        } else if ep && cap == c2 {
            lemma_ep_target_off_king_lines(stm, k, cap, t, c1);
        } else if t == c1 || t == c2 {
        } else {
            lemma_same_ray(c1, c2, k, t);
        }
    }
}

/// A king move onto a square an opposing piece attacks once the king has left leaves the king
/// attacked.
pub proof fn lemma_king_move_unsafe(b: Board, stm: Color, m: Move, k: int)
    requires
        b.wf(),
        0 <= k < 64,
        kings_of(b, stm) == sq_bit(k),
        move_ok(b, stm, m),
        m.flag_spec() == MoveFlag::NormalMove,
        m.from_spec().idx() == k,
        ({
            let t = m.to_spec().idx();
            let mask = sq_bit(k) | sq_bit(t);
            attacked_by(b, stm.opp(), t, b.cm(stm.opp().idx()) & !mask, b.occ() ^ mask)
        }),
    ensures
        !king_safe_after(b, stm, m, k),
{
    let t = m.to_spec().idx();
    let opp = stm.opp();
    let mask = sq_bit(k) | sq_bit(t);
    let occ = b.occ() ^ mask;
    let s = choose|s: int|
        0 <= s < 64 && bb_has(b.cm(opp.idx()) & !mask, s) && (steps_onto(b, opp, s, t) || slides_onto(b, s, t, occ));
    b.lemma_square(s);
    b.lemma_square(t);
    assert(king_after(m, k) == t);
    assert(after_piece(b, stm, m, s) == b.piece(s));
    assert(after_color(b, stm, m, s) == opp);
    if !steps_onto(b, opp, s, t) {
        assert forall|u: int| 0 <= u < 64 && #[trigger] between_spec(t, s, u) implies after_piece(b, stm, m, u) == Piece::Null by {
            b.lemma_square(u);
        }
    }
    assert(attacks_after(b, stm, m, s, t));
}

/// An en-passant capture after which an opposing piece attacks the king (once the capturing
/// pawn, its target and the captured pawn's square have changed) leaves the king attacked.
pub proof fn lemma_ep_probe_unsafe(b: Board, stm: Color, m: Move, k: int)
    requires
        b.wf(),
        0 <= k < 64,
        kings_of(b, stm) == sq_bit(k),
        move_ok(b, stm, m),
        m.flag_spec() == MoveFlag::EnPassant,
        ({
            let f = m.from_spec().idx();
            let t = m.to_spec().idx();
            let mask = sq_bit(f) | sq_bit(t) | sq_bit(ep_square(stm, t));
            attacked_by(b, stm.opp(), k, b.cm(stm.opp().idx()) & !mask, b.occ() ^ mask)
        }),
    ensures
        !king_safe_after(b, stm, m, k),
{
    let f = m.from_spec().idx();
    let t = m.to_spec().idx();
    let cap = ep_square(stm, t);
    let opp = stm.opp();
    let mask = sq_bit(f) | sq_bit(t) | sq_bit(cap);
    let occ = b.occ() ^ mask;
    let s = choose|s: int|
        0 <= s < 64 && bb_has(b.cm(opp.idx()) & !mask, s) && (steps_onto(b, opp, s, k) || slides_onto(b, s, k, occ));
    b.lemma_square(s);
    b.lemma_square(f);
    b.lemma_square(t);
    b.lemma_square(k);
    b.lemma_square(cap);
    assert(bb_has(kings_of(b, stm), k));
    assert(king_after(m, k) == k);
    assert(after_piece(b, stm, m, s) == b.piece(s));
    assert(after_color(b, stm, m, s) == opp);
    if !steps_onto(b, opp, s, k) {
        assert forall|u: int| 0 <= u < 64 && #[trigger] between_spec(k, s, u) implies after_piece(b, stm, m, u) == Piece::Null by {
            b.lemma_square(u);
        }
    }
    assert(attacks_after(b, stm, m, s, k));
}

/// Castling is allowed only when the king is not in check.
pub proof fn lemma_castling_allowed_no_check<Z: ZobristPolicy>(p: Position<Z>, fl: Flank, k: int, c: int)
    requires
        p.board.wf(),
        0 <= k < 64,
        0 <= c < 64,
        k == home_base(p.stm()) + 4,
        castling_allowed(p, fl),
    ensures
        !is_checker(p.board, p.stm(), k, c),
{
    let b = p.board;
    let stm = p.stm();
    let opp = stm.opp();
    assert(path_square(fl, stm, k));
    if is_checker(b, stm, k, c) {
        b.lemma_square(c);
        lemma_coords(c);
        lemma_coords(k);
        if bb_has(b.pm(1), c) && pawn_attack(stm, k, c) {
            assert(steps_onto(b, opp, c, k));
        } else if bb_has(b.pm(2), c) && knight_jump(k, c) {
            assert(steps_onto(b, opp, c, k));
        } else {
            assert(slides_onto(b, c, k, b.occ()));
        }
        assert(attacked_by(b, opp, k, b.cm(opp.idx()), b.occ()));
    }
}

/// A sliding piece on `s` reaching `t` along direction `(dr, df)` is on a diagonal with `t`
/// when it moves diagonally, and on a rank or file with it otherwise.
proof fn lemma_ray_line(s: int, t: int, dr: int, df: int, occ: u64)
    requires
        0 <= s < 64,
        -1 <= dr <= 1,
        -1 <= df <= 1,
        dr != 0 || df != 0,
        ray_attack(s, t, dr, df, occ),
    ensures
        0 <= t < 64,
        dr != 0 && df != 0 ==> same_diag(t, s) || same_anti_diag(t, s),
        dr == 0 || df == 0 ==> same_rank(t, s) || same_file(t, s),
{
    let k = choose|k: int|
        1 <= k && ray_on(s, dr, df, k) && t == #[trigger] ray_sq(s, dr, df, k) && ray_open(s, dr, df, k, occ);
    lemma_ray_on(s, dr, df, k, k);
    lemma_coords(s);
    lemma_coords(t);
    assert(sq_rank(t) == sq_rank(s) + scale(dr, k) && sq_file(t) == sq_file(s) + scale(df, k));
}

/// A piece of kind `p` on `s` that attacks `t` as a slider sees `t` along one of its lines
/// through empty squares.
pub proof fn lemma_slider_sees(b: Board, p: Piece, s: int, t: int)
    requires
        b.wf(),
        0 <= s < 64,
        b.piece(s) == p,
        slider_attack(p, s, t, b.occ()),
    ensures
        0 <= t < 64,
        slides_onto(b, s, t, b.occ()),
{
    b.lemma_square(s);
    if ray_attack(s, t, 1, 1, b.occ()) {
        lemma_ray_line(s, t, 1, 1, b.occ());
    } else if ray_attack(s, t, 1, -1, b.occ()) {
        lemma_ray_line(s, t, 1, -1, b.occ());
    } else if ray_attack(s, t, -1, 1, b.occ()) {
        lemma_ray_line(s, t, -1, 1, b.occ());
    } else if ray_attack(s, t, -1, -1, b.occ()) {
        lemma_ray_line(s, t, -1, -1, b.occ());
    } else if ray_attack(s, t, 1, 0, b.occ()) {
        lemma_ray_line(s, t, 1, 0, b.occ());
    } else if ray_attack(s, t, -1, 0, b.occ()) {
        lemma_ray_line(s, t, -1, 0, b.occ());
    } else if ray_attack(s, t, 0, 1, b.occ()) {
        lemma_ray_line(s, t, 0, 1, b.occ());
    } else {
        lemma_ray_line(s, t, 0, -1, b.occ());
    }
    assert forall|u: int| 0 <= u < 64 && #[trigger] between_spec(t, s, u) implies !bb_has(b.occ(), u) by {
        lemma_between_symmetric(t, s, u);
        lemma_slider_path_clear(p, s, t, b.occ(), u);
    }
}

} // verus!
