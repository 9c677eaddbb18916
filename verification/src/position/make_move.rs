//! Making and unmaking moves in place.
use vstd::prelude::*;
use crate::board::Board;
use crate::types::{
    CastlingRights, Color, ConstDoublePawnPushFile, DoublePawnPushFile, File, Flank, Move, MoveFlag, Piece,
    PositionContext, Rank, Square,
};
use crate::types::square::{sq_file, sq_rank};
use crate::attacks::manual::fwd;
use crate::types::flank::{home_base, king_dst_file, rook_src_file, rook_dst_file};
use crate::types::castling_rights::rights_kept;
use crate::types::double_pawn_push_file::dpf_after_step;
use crate::position::state::{Position, ZobristPolicy};
use crate::position::pins::{kings_of, pins_checks_ok};
use crate::bitboard::pop;
use crate::zobrist::position_hash;

verus! {

/// Index of the pawn captured en passant by a pawn of `stm` moving to `to`.
pub open spec fn ep_square(stm: Color, to: int) -> int {
    if stm == Color::White {
        to + 8
    } else {
        to - 8
    }
}

/// The flank a castling king moving to `to` castles on.
pub open spec fn castle_flank(to: int) -> Flank {
    if sq_file(to) <= 3 {
        Flank::Queenside
    } else {
        Flank::Kingside
    }
}

/// Square of the rook of `color` before castling on `flank`.
pub open spec fn rook_from_sq(flank: Flank, color: Color) -> int {
    home_base(color) + rook_src_file(flank)
}

/// Square of the rook of `color` after castling on `flank`.
pub open spec fn rook_to_sq(flank: Flank, color: Color) -> int {
    home_base(color) + rook_dst_file(flank)
}

/// `m` can be played by `stm` on `b`: it moves a piece of `stm` to an empty square or onto an
/// opposing piece, and its kind fits the board (a promotion moves a pawn to a promotion piece,
/// an en-passant capture takes an opposing pawn behind an empty target, castling moves the king
/// from its initial square to its castling square with the rook in place and the rook's target
/// empty).
pub open spec fn move_ok(b: Board, stm: Color, m: Move) -> bool {
    let f = m.from_spec().idx();
    let t = m.to_spec().idx();
    let fl = castle_flank(t);
    &&& f != t
    &&& b.piece(f) != Piece::Null
    &&& b.color(f) == stm
    &&& (b.piece(t) == Piece::Null || b.color(t) == stm.opp())
    &&& (m.flag_spec() == MoveFlag::Promotion ==> b.piece(f) == Piece::Pawn
        && m.promotion_spec().is_promotion_target())
    &&& (m.flag_spec() == MoveFlag::EnPassant ==> b.piece(f) == Piece::Pawn && b.piece(t)
        == Piece::Null && 0 <= ep_square(stm, t) < 64 && b.holds(
        ep_square(stm, t),
        Piece::Pawn,
        stm.opp(),
    ))
    &&& (m.flag_spec() == MoveFlag::Castling ==> b.piece(f) == Piece::King && f == home_base(stm) + 4 && b.piece(t)
        == Piece::Null && t == home_base(stm) + king_dst_file(fl) && b.holds(
        rook_from_sq(fl, stm),
        Piece::Rook,
        stm,
    ) && b.piece(rook_to_sq(fl, stm)) == Piece::Null)
    &&& (b.piece(f) == Piece::Pawn && (t == f + 16 || t == f - 16) ==> double_push_ok(b, stm, m))
}

/// `m` advances a pawn of `stm` two squares from its starting rank over an empty square onto
/// an empty square, as an ordinary move.
pub open spec fn double_push_ok(b: Board, stm: Color, m: Move) -> bool {
    let f = m.from_spec().idx();
    let t = m.to_spec().idx();
    &&& m.flag_spec() == MoveFlag::NormalMove
    &&& t == f - 16 * fwd(stm)
    &&& sq_rank(f) == (if stm == Color::White {
        1int
    } else {
        6int
    })
    &&& b.piece(t) == Piece::Null
    &&& b.piece(f - 8 * fwd(stm)) == Piece::Null
}

/// The piece on square `s` after `stm` plays `m` on `b`.
pub open spec fn after_piece(b: Board, stm: Color, m: Move, s: int) -> Piece {
    let f = m.from_spec().idx();
    let t = m.to_spec().idx();
    let fl = castle_flank(t);
    if s == t {
        if m.flag_spec() == MoveFlag::Promotion {
            m.promotion_spec()
        } else {
            b.piece(f)
        }
    } else if s == f {
        Piece::Null
    } else if m.flag_spec() == MoveFlag::EnPassant && s == ep_square(stm, t) {
        Piece::Null
    } else if m.flag_spec() == MoveFlag::Castling && s == rook_from_sq(fl, stm) {
        Piece::Null
    } else if m.flag_spec() == MoveFlag::Castling && s == rook_to_sq(fl, stm) {
        Piece::Rook
    } else {
        b.piece(s)
    }
}

/// The color on the occupied square `s` after `stm` plays `m` on `b`.
pub open spec fn after_color(b: Board, stm: Color, m: Move, s: int) -> Color {
    let t = m.to_spec().idx();
    if s == t || (m.flag_spec() == MoveFlag::Castling && s == rook_to_sq(castle_flank(t), stm)) {
        stm
    } else {
        b.color(s)
    }
}

/// The piece `m` captures on `b`.
pub open spec fn captured_by(b: Board, m: Move) -> Piece {
    if m.flag_spec() == MoveFlag::EnPassant {
        Piece::Pawn
    } else {
        b.piece(m.to_spec().idx())
    }
}

/// The halfmove clock after `m`: it counts the halfmoves since the last pawn move or capture,
/// so it is reset by captures and pawn moves (en passant and promotions included) and is one
/// more after any other move, castling included.
pub open spec fn clock_after(b: Board, m: Move, clock: u8) -> int {
    if b.piece(m.to_spec().idx()) != Piece::Null || b.piece(m.from_spec().idx()) == Piece::Pawn {
        0
    } else {
        clock + 1
    }
}

/// `q` is `p` after `p`'s side to move plays `m`.
pub open spec fn make_post<Z: ZobristPolicy>(p: Position<Z>, m: Move, q: Position<Z>) -> bool {
    let f = m.from_spec().idx();
    let t = m.to_spec().idx();
    &&& q.board.wf()
    &&& forall|s: int|
        0 <= s < 64 ==> #[trigger] q.board.piece(s) == after_piece(p.board, p.stm(), m, s)
    &&& forall|s: int|
        0 <= s < 64 && after_piece(p.board, p.stm(), m, s) != Piece::Null ==> #[trigger] q.board.color(
            s,
        ) == after_color(p.board, p.stm(), m, s)
    &&& q.stm() == p.stm().opp()
    &&& q.halfmove == p.halfmove + 1
    &&& q.ctxs().len() == p.ctxs().len() + 1
    &&& q.ctxs().drop_last() == p.ctxs()
    &&& q.ctx().captured_piece == captured_by(p.board, m)
    &&& q.ctx().halfmove_clock == clock_after(p.board, m, p.ctx().halfmove_clock)
    &&& q.ctx().double_pawn_push_file == (if p.board.piece(f) == Piece::Pawn {
        dpf_after_step(f, t)
    } else {
        -1
    })
    &&& q.ctx().castling_rights.value() == p.ctx().castling_rights.value() & rights_kept(f)
        & rights_kept(t)
    &&& (Z::tracks_hash() ==> q.hash_err() == p.hash_err())
    &&& pins_checks_ok(q.board, q.stm(), q.ctx().pinned, q.ctx().checkers)
    &&& (pop(kings_of(q.board, q.stm())) != 1 ==> q.ctx().pinned == 0 && q.ctx().checkers == 0)
}

/// `m`, played by the side that is not to move, can be taken back on `b`, with `cap` the piece
/// it captured.
pub open spec fn unmake_ok(b: Board, stm: Color, cap: Piece, m: Move) -> bool {
    let mover = stm.opp();
    let f = m.from_spec().idx();
    let t = m.to_spec().idx();
    let fl = castle_flank(t);
    &&& f != t
    &&& b.piece(t) != Piece::Null
    &&& b.color(t) == mover
    &&& b.piece(f) == Piece::Null
    &&& (m.flag_spec() == MoveFlag::EnPassant ==> cap == Piece::Pawn && 0 <= ep_square(mover, t)
        < 64 && ep_square(mover, t) != f && b.piece(ep_square(mover, t)) == Piece::Null)
    &&& (m.flag_spec() == MoveFlag::Castling ==> t == home_base(mover) + king_dst_file(fl)
        && b.holds(rook_to_sq(fl, mover), Piece::Rook, mover) && b.piece(rook_from_sq(fl, mover))
        == Piece::Null && rook_from_sq(fl, mover) != f)
}

/// The piece on square `s` after taking back `m` (with captured piece `cap`) on `b`, `stm` to
/// move.
pub open spec fn undo_piece(b: Board, stm: Color, cap: Piece, m: Move, s: int) -> Piece {
    let mover = stm.opp();
    let f = m.from_spec().idx();
    let t = m.to_spec().idx();
    let fl = castle_flank(t);
    if s == f {
        if m.flag_spec() == MoveFlag::Promotion {
            Piece::Pawn
        } else {
            b.piece(t)
        }
    } else if s == t {
        if m.flag_spec() == MoveFlag::EnPassant {
            Piece::Null
        } else {
            cap
        }
    } else if m.flag_spec() == MoveFlag::EnPassant && s == ep_square(mover, t) {
        Piece::Pawn
    } else if m.flag_spec() == MoveFlag::Castling && s == rook_from_sq(fl, mover) {
        Piece::Rook
    } else if m.flag_spec() == MoveFlag::Castling && s == rook_to_sq(fl, mover) {
        Piece::Null
    } else {
        b.piece(s)
    }
}

/// The color on the occupied square `s` after taking back `m` on `b`, `stm` to move.
pub open spec fn undo_color(b: Board, stm: Color, m: Move, s: int) -> Color {
    let mover = stm.opp();
    let f = m.from_spec().idx();
    let t = m.to_spec().idx();
    let fl = castle_flank(t);
    if s == f || (m.flag_spec() == MoveFlag::Castling && s == rook_from_sq(fl, mover)) {
        mover
    } else if s == t || (m.flag_spec() == MoveFlag::EnPassant && s == ep_square(mover, t)) {
        stm
    } else {
        b.color(s)
    }
}

/// `r` is `q` after taking back `m`.
pub open spec fn unmake_post<Z: ZobristPolicy>(q: Position<Z>, m: Move, r: Position<Z>) -> bool {
    &&& r.board.wf()
    &&& forall|s: int|
        0 <= s < 64 ==> #[trigger] r.board.piece(s) == undo_piece(
            q.board,
            q.stm(),
            q.ctx().captured_piece,
            m,
            s,
        )
    &&& forall|s: int|
        0 <= s < 64 && undo_piece(q.board, q.stm(), q.ctx().captured_piece, m, s) != Piece::Null
            ==> #[trigger] r.board.color(s) == undo_color(q.board, q.stm(), m, s)
    &&& r.stm() == q.stm().opp()
    &&& r.halfmove == q.halfmove - 1
    &&& r.ctxs() == q.ctxs().drop_last()
}

/// The amount to add to a square index to reach the pawn captured en passant by `stm`.
fn en_passant_capture_offset(stm: Color) -> (r: i8)
    ensures
        r == (if stm == Color::White {
            8i8
        } else {
            -8i8
        }),
{
    match stm {
        Color::White => 8,
        Color::Black => -8,
    }
}

/// The square the pawn captured en passant stands on.
fn en_passant_capture_square(stm: Color, to: Square) -> (s: Square)
    requires
        0 <= ep_square(stm, to.idx()) < 64,
    ensures
        s.idx() == ep_square(stm, to.idx()),
{
    let offset = en_passant_capture_offset(stm);
    let t = to.index();
    if offset > 0 {
        Square::from_u8(t + 8)
    } else {
        Square::from_u8(t - 8)
    }
}

/// The rook's square of `color` before castling on `flank`.
fn castling_rook_from_square(flank: Flank, color: Color) -> (s: Square)
    ensures
        s.idx() == rook_from_sq(flank, color),
{
    let rank = Rank::One.from_perspective(color);
    match flank {
        Flank::Kingside => Square::from_rank_and_file(rank, File::H),
        Flank::Queenside => Square::from_rank_and_file(rank, File::A),
    }
}

/// The rook's square of `color` after castling on `flank`.
fn castling_rook_to_square(flank: Flank, color: Color) -> (s: Square)
    ensures
        s.idx() == rook_to_sq(flank, color),
{
    let rank = Rank::One.from_perspective(color);
    match flank {
        Flank::Kingside => Square::from_rank_and_file(rank, File::F),
        Flank::Queenside => Square::from_rank_and_file(rank, File::D),
    }
}

impl<Z: ZobristPolicy> Position<Z> {
    /// Sets the current context's halfmove clock and captured piece.
    fn set_clock_and_capture(&mut self, clock: u8, captured: Piece)
        requires
            old(self).ctxs().len() >= 1,
        ensures
            final(self).board == old(self).board,
            final(self).halfmove == old(self).halfmove,
            final(self).stm() == old(self).stm(),
            final(self).ctxs() == old(self).ctxs().update(
                old(self).ctxs().len() - 1,
                PositionContext { halfmove_clock: clock, captured_piece: captured, ..old(self).ctx() },
            ),
    {
        let mut c = *self.context();
        c.halfmove_clock = clock;
        c.captured_piece = captured;
        self.set_context(c);
    }

    /// Plays `move_` for the side to move: updates the board, pushes a new context (captured
    /// piece, halfmove clock, double-push file, castling rights, hash) and hands the move to the
    /// other side.
    #[verifier::rlimit(100)]
    pub fn make_move(&mut self, move_: Move)
        requires
            old(self).wf(),
            move_ok(old(self).board, old(self).stm(), move_),
            old(self).ctx().halfmove_clock < 255,
            old(self).halfmove < u16::MAX,
        ensures
            make_post(*old(self), move_, *final(self)),
    {
        let ghost p = *self;
        let from = move_.from();
        let to = move_.to();
        let flag = move_.flag();
        let stm = self.side_to_move;
        let old_context = *self.context();
        let mut new_context = PositionContext::blank();
        new_context.halfmove_clock = old_context.halfmove_clock + 1;
        new_context.castling_rights = old_context.castling_rights;
        new_context.double_pawn_push_file = old_context.double_pawn_push_file;
        new_context.zobrist_hash = old_context.zobrist_hash;
        self.push_context(new_context);
        let ghost s1 = *self;
        assert(s1.hash_err() == p.hash_err());
        let piece_at_to = self.board.piece_at(to);
        if piece_at_to != Piece::Null {
            self.remove_piece_and_color(stm.other(), piece_at_to, to);
            self.set_clock_and_capture(0, piece_at_to);
        }
        let ghost s2 = *self;
        let piece_at_from = self.board.piece_at(from);
        if piece_at_from == Piece::Pawn {
            let captured = self.context().captured_piece;
            self.set_clock_and_capture(0, captured);
            self.set_double_pawn_push_file(DoublePawnPushFile::from_pawn_step(from, to));
        } else {
            self.set_double_pawn_push_file(-1);
        }
        self.move_piece_and_color(stm, piece_at_from, from, to);
        let ghost s3 = *self;
        match flag {
            MoveFlag::Promotion => {
                self.remove_piece_at(Piece::Pawn, to);
                let ghost mid = self.board;
                self.put_piece_at(move_.promotion(), to);
                proof {
                    Board::lemma_replace_piece(s3.board, mid, self.board, Piece::Pawn, move_.promotion_spec(), to.idx());
                }
                let captured = self.context().captured_piece;
                self.set_clock_and_capture(0, captured);
            },
            MoveFlag::EnPassant => {
                let capture_square = en_passant_capture_square(stm, to);
                self.remove_piece_and_color(stm.other(), Piece::Pawn, capture_square);
                self.set_clock_and_capture(0, Piece::Pawn);
            },
            MoveFlag::Castling => {
                let flank = to.file().flank();
                let rook_from = castling_rook_from_square(flank, stm);
                let rook_to = castling_rook_to_square(flank, stm);
                self.move_piece_and_color(stm, Piece::Rook, rook_from, rook_to);
            },
            MoveFlag::NormalMove => {},
        }
        let ghost s4 = *self;
        let castling_rights = self.context().castling_rights.after_move(from).after_move(to);
        self.set_castling_rights(castling_rights);
        self.flip_side_to_move();
        self.halfmove = self.halfmove + 1;
        self.update_pins_and_checks_for_stm(stm.other());
        proof {
            assert(self.ctxs().drop_last() =~= p.ctxs());
        }
    }

    /// Takes back `move_`, the move that produced the current context: restores the board,
    /// pops the context and hands the move back.
    #[verifier::rlimit(100)]
    pub fn unmake_move(&mut self, move_: Move)
        requires
            old(self).wf(),
            old(self).ctxs().len() >= 2,
            old(self).halfmove >= 1,
            unmake_ok(old(self).board, old(self).stm(), old(self).ctx().captured_piece, move_),
        ensures
            unmake_post(*old(self), move_, *final(self)),
    {
        let ghost q = *self;
        let from = move_.from();
        let to = move_.to();
        let flag = move_.flag();
        let stm = self.side_to_move;
        let side_just_moved = stm.other();
        let piece_at_to = self.board.piece_at(to);
        self.move_piece_and_color(side_just_moved, piece_at_to, to, from);
        let captured_piece = self.context().captured_piece;
        if captured_piece != Piece::Null {
            self.put_piece_and_color(stm, captured_piece, to);
        }
        let ghost s2 = *self;
        match flag {
            MoveFlag::NormalMove => {},
            MoveFlag::Promotion => {
                let promoted = self.board.piece_at(from);
                self.remove_piece_at(promoted, from);
                let ghost mid = self.board;
                self.put_piece_at(Piece::Pawn, from);
                proof {
                    Board::lemma_replace_piece(s2.board, mid, self.board, promoted, Piece::Pawn, from.idx());
                }
            },
            MoveFlag::EnPassant => {
                let capture_square = en_passant_capture_square(side_just_moved, to);
                self.move_piece_and_color(stm, Piece::Pawn, to, capture_square);
            },
            MoveFlag::Castling => {
                let flank = to.file().flank();
                let rook_from = castling_rook_from_square(flank, side_just_moved);
                let rook_to = castling_rook_to_square(flank, side_just_moved);
                self.move_piece_and_color(side_just_moved, Piece::Rook, rook_to, rook_from);
            },
        }
        self.flip_side_to_move();
        self.halfmove = self.halfmove - 1;
        self.pop_context();
        proof {
            assert(self.ctxs() =~= q.ctxs().drop_last());
        }
    }
}

/// Taking back a move restores the position it was made from: board, side to move, halfmove
/// XOR of two hashes is zero exactly when they are equal.
proof fn lemma_xor_zero(a: u64, b: u64)
    by (bit_vector)
    ensures
        (a ^ b == 0) == (a == b),
{
}

/// Playing a move keeps a position's hash right: a position whose hash is its Zobrist hash
/// still has a right hash after any move.
pub proof fn lemma_make_keeps_hash_ok<Z: ZobristPolicy>(p: Position<Z>, m: Move, q: Position<Z>)
    requires
        p.wf(),
        move_ok(p.board, p.stm(), m),
        make_post(p, m, q),
        p.hash_ok(),
    ensures
        q.hash_ok(),
{
    if Z::tracks_hash() {
        lemma_xor_zero(p.ctx().zobrist_hash, position_hash(
            p.board,
            p.ctx().castling_rights,
            p.ctx().double_pawn_push_file,
            p.stm(),
        ));
        lemma_xor_zero(q.ctx().zobrist_hash, position_hash(
            q.board,
            q.ctx().castling_rights,
            q.ctx().double_pawn_push_file,
            q.stm(),
        ));
    }
}

/// count and context stack. The move made can always be taken back.
pub proof fn lemma_make_unmake_round_trip<Z: ZobristPolicy>(
    p: Position<Z>,
    m: Move,
    q: Position<Z>,
    r: Position<Z>,
)
    requires
        p.wf(),
        move_ok(p.board, p.stm(), m),
        make_post(p, m, q),
    ensures
        q.wf(),
        q.ctxs().len() >= 2,
        unmake_ok(q.board, q.stm(), q.ctx().captured_piece, m),
        unmake_post(q, m, r) ==> (r.board == p.board && r.stm() == p.stm() && r.halfmove
            == p.halfmove && r.ctxs() == p.ctxs()),
{
    let f = m.from_spec().idx();
    let t = m.to_spec().idx();
    assert(q.board.piece(t) == after_piece(p.board, p.stm(), m, t));
    assert(q.board.piece(f) == after_piece(p.board, p.stm(), m, f));
    if m.flag_spec() == MoveFlag::EnPassant {
        let e = ep_square(p.stm(), t);
        assert(q.board.piece(e) == after_piece(p.board, p.stm(), m, e));
    }
    if m.flag_spec() == MoveFlag::Castling {
        let fl = castle_flank(t);
        assert(q.board.piece(rook_to_sq(fl, p.stm())) == after_piece(p.board, p.stm(), m, rook_to_sq(fl, p.stm())));
        assert(q.board.piece(rook_from_sq(fl, p.stm())) == after_piece(p.board, p.stm(), m, rook_from_sq(fl, p.stm())));
    }
    if unmake_post(q, m, r) {
        assert forall|s: int| 0 <= s < 64 implies #[trigger] r.board.piece(s) == p.board.piece(s) && (
        r.board.piece(s) != Piece::Null ==> r.board.color(s) == p.board.color(s)) by {
            assert(q.board.piece(s) == after_piece(p.board, p.stm(), m, s));
            assert(r.board.piece(s) == undo_piece(q.board, q.stm(), q.ctx().captured_piece, m, s));
        }
        Board::lemma_wf_ext(r.board, p.board);
    }
}

} // verus!
