//! The position type, its well-formedness and its incremental hash bookkeeping.
use vstd::prelude::*;
use crate::bitboard::{bb_has, sq_bit};
use crate::board::Board;
use crate::types::{CastlingRights, Color, DoublePawnPushFile, Piece, PositionContext, Square};
use crate::board::{put_piece_post, remove_piece_post, move_piece_post, move_color_post};
use crate::zobrist::{
    board_hash, position_hash, psk, crk, dpk, stmk, lemma_board_hash_change,
    lemma_board_hash_change2, lemma_err_board, lemma_err_castling, lemma_err_dpf, lemma_err_stm,
    lemma_stmk_flip, bv_xor_assoc, piece_square_key, castling_rights_key, double_pawn_push_key,
    side_to_move_key,
};

verus! {

/// Marks the hashing policies of this crate; no other type can be one.
pub trait Sealed {}

impl Sealed for WithZobrist {}

impl Sealed for WithoutZobrist {}

/// Whether positions keep an incremental Zobrist hash.
pub trait ZobristPolicy: Sized + Sealed {
    /// The policy keeps the hash.
    spec fn tracks_hash() -> bool;

    /// Whether the policy keeps the hash.
    fn tracks() -> (r: bool)
        ensures
            r == Self::tracks_hash(),
    ;

    /// The policy value.
    fn policy() -> Self;
}

/// Positions keep their Zobrist hash up to date.
#[derive(Clone, Copy, Debug, Default, PartialEq, Eq)]
pub struct WithZobrist;

/// Positions do not keep a Zobrist hash (it stays zero).
#[derive(Clone, Copy, Debug, Default, PartialEq, Eq)]
pub struct WithoutZobrist;

impl ZobristPolicy for WithZobrist {
    open spec fn tracks_hash() -> bool {
        true
    }

    fn tracks() -> (r: bool) {
        true
    }

    fn policy() -> Self {
        WithZobrist
    }
}

impl ZobristPolicy for WithoutZobrist {
    open spec fn tracks_hash() -> bool {
        false
    }

    fn tracks() -> (r: bool) {
        false
    }

    fn policy() -> Self {
        WithoutZobrist
    }
}

/// A chess position: the board, the side to move, the number of halfmoves played and a stack
/// of contexts, one per ply from the root (index 0) to the current one (last).
#[derive(Clone, Debug, PartialEq, Eq)]
pub struct Position<Z: ZobristPolicy = WithZobrist> {
    /// Piece placement.
    pub board: Board,
    /// Halfmoves played since the start of the game.
    pub halfmove: u16,
    /// The side to move.
    pub side_to_move: Color,
    /// The context stack, root first; the last entry is the current context.
    pub contexts: Vec<PositionContext>,
    /// The hashing policy.
    pub policy: Z,
}

/// A position that keeps its hash.
pub type PositionWithZobrist = Position<WithZobrist>;

/// A position that does not keep its hash.
pub type PositionWithoutZobrist = Position<WithoutZobrist>;

/// `h` XOR the hash that the given position parts should have: zero exactly when `h` is
/// right.
pub open spec fn hash_error(h: u64, b: Board, cr: CastlingRights, dpf: i8, stm: Color) -> u64 {
    h ^ position_hash(b, cr, dpf, stm)
}

impl<Z: ZobristPolicy> Position<Z> {
    /// The side to move.
    pub open spec fn stm(self) -> Color {
        self.side_to_move
    }

    /// The context stack, root first.
    pub open spec fn ctxs(self) -> Seq<PositionContext> {
        self.contexts@
    }

    /// The current context (the top of the stack).
    pub open spec fn ctx(self) -> PositionContext {
        self.ctxs().last()
    }

    /// The board is consistent and the context stack is not empty.
    pub open spec fn wf(self) -> bool {
        &&& self.board.wf()
        &&& self.ctxs().len() >= 1
    }

    /// How far the current hash is from the hash the position should have.
    pub open spec fn hash_err(self) -> u64 {
        hash_error(
            self.ctx().zobrist_hash,
            self.board,
            self.ctx().castling_rights,
            self.ctx().double_pawn_push_file,
            self.stm(),
        )
    }

    /// The current hash is the hash of the position (always true when hashes are not kept).
    pub open spec fn hash_ok(self) -> bool {
        Z::tracks_hash() ==> self.ctx().zobrist_hash == position_hash(
            self.board,
            self.ctx().castling_rights,
            self.ctx().double_pawn_push_file,
            self.stm(),
        )
    }

    /// `other` is this position with the current context's hash possibly changed and the board
    /// possibly changed, everything else equal.
    pub open spec fn same_but_board_and_hash(self, other: Self) -> bool {
        &&& other.halfmove == self.halfmove
        &&& other.stm() == self.stm()
        &&& other.ctxs().len() == self.ctxs().len()
        &&& forall|i: int|
            0 <= i < self.ctxs().len() - 1 ==> #[trigger] other.ctxs()[i] == self.ctxs()[i]
        &&& other.ctx().halfmove_clock == self.ctx().halfmove_clock
        &&& other.ctx().double_pawn_push_file == self.ctx().double_pawn_push_file
        &&& other.ctx().castling_rights == self.ctx().castling_rights
        &&& other.ctx().captured_piece == self.ctx().captured_piece
        &&& other.ctx().pinned == self.ctx().pinned
        &&& other.ctx().checkers == self.ctx().checkers
        &&& (Z::tracks_hash() ==> other.hash_err() == self.hash_err())
        &&& (!Z::tracks_hash() ==> other.ctx().zobrist_hash == self.ctx().zobrist_hash)
    }

    /// The side to move.
    pub fn side_to_move(&self) -> (c: Color)
        ensures
            c == self.stm(),
    {
        self.side_to_move
    }

    /// The active contexts, root first.
    pub fn context_slice(&self) -> (s: &[PositionContext])
        ensures
            s@ == self.ctxs(),
    {
        self.contexts.as_slice()
    }

    /// Number of contexts on the stack.
    pub fn num_contexts(&self) -> (n: usize)
        ensures
            n == self.ctxs().len(),
    {
        self.contexts.len()
    }

    /// The current context.
    pub fn context(&self) -> (c: &PositionContext)
        requires
            self.ctxs().len() >= 1,
        ensures
            *c == self.ctx(),
    {
        &self.contexts[self.contexts.len() - 1]
    }

    /// A copy of this position: the same board, side to move, halfmove count and contexts.
    pub fn duplicate(&self) -> (r: Self)
        ensures
            r.board == self.board,
            r.halfmove == self.halfmove,
            r.side_to_move == self.side_to_move,
            r.contexts@ == self.contexts@,
    {
        Position {
            board: self.board,
            halfmove: self.halfmove,
            side_to_move: self.side_to_move,
            contexts: self.contexts.clone(),
            policy: Z::policy(),
        }
    }

    /// The current context, to be changed in place.
    pub fn mut_context(&mut self) -> (c: &mut PositionContext)
        requires
            old(self).ctxs().len() >= 1,
        ensures
            *c == old(self).ctx(),
            final(self).ctxs() == old(self).ctxs().update(old(self).ctxs().len() - 1, *final(c)),
            final(self).board == old(self).board,
            final(self).halfmove == old(self).halfmove,
            final(self).stm() == old(self).stm(),
    {
        let i = self.contexts.len() - 1;
        &mut self.contexts[i]
    }

    /// Replaces the current context.
    pub(crate) fn set_context(&mut self, c: PositionContext)
        requires
            old(self).ctxs().len() >= 1,
        ensures
            final(self).ctxs() == old(self).ctxs().update(old(self).ctxs().len() - 1, c),
            final(self).board == old(self).board,
            final(self).halfmove == old(self).halfmove,
            final(self).stm() == old(self).stm(),
    {
        let i = self.contexts.len() - 1;
        self.contexts.set(i, c);
    }

    /// Pushes a context on the stack.
    pub fn push_context(&mut self, context: PositionContext)
        ensures
            final(self).ctxs() == old(self).ctxs().push(context),
            final(self).board == old(self).board,
            final(self).halfmove == old(self).halfmove,
            final(self).stm() == old(self).stm(),
    {
        self.contexts.push(context);
    }

    /// Pops the current context off the stack and returns it; the root is never popped.
    pub fn pop_context(&mut self) -> (c: PositionContext)
        requires
            old(self).ctxs().len() > 1,
        ensures
            c == old(self).ctx(),
            final(self).ctxs() == old(self).ctxs().drop_last(),
            final(self).board == old(self).board,
            final(self).halfmove == old(self).halfmove,
            final(self).stm() == old(self).stm(),
    {
        let c = self.contexts.pop();
        match c {
            Some(c) => c,
            None => PositionContext::blank(),
        }
    }

    /// XORs `delta` into the current context's hash (when hashes are kept).
    pub(crate) fn xor_hash(&mut self, delta: u64)
        requires
            old(self).ctxs().len() >= 1,
        ensures
            final(self).board == old(self).board,
            final(self).halfmove == old(self).halfmove,
            final(self).stm() == old(self).stm(),
            final(self).ctxs().len() == old(self).ctxs().len(),
            forall|i: int|
                0 <= i < old(self).ctxs().len() - 1 ==> #[trigger] final(self).ctxs()[i] == old(
                    self,
                ).ctxs()[i],
            final(self).ctx() == (PositionContext {
                zobrist_hash: if Z::tracks_hash() {
                    old(self).ctx().zobrist_hash ^ delta
                } else {
                    old(self).ctx().zobrist_hash
                },
                ..old(self).ctx()
            }),
    {
        if Z::tracks() {
            let mut c = *self.context();
            c.zobrist_hash = c.zobrist_hash ^ delta;
            self.set_context(c);
        }
    }

    /// After a board change whose hash delta was XORed into the hash, the hash error is
    /// unchanged.
    proof fn lemma_board_step(before: Self, after: Self, delta: u64)
        requires
            board_hash(after.board) == board_hash(before.board) ^ delta,
            after.ctxs().len() == before.ctxs().len(),
            after.ctxs().len() >= 1,
            after.stm() == before.stm(),
            after.ctx().castling_rights == before.ctx().castling_rights,
            after.ctx().double_pawn_push_file == before.ctx().double_pawn_push_file,
            after.ctx().zobrist_hash == before.ctx().zobrist_hash ^ delta,
        ensures
            after.hash_err() == before.hash_err(),
    {
        lemma_err_board(
            before.ctx().zobrist_hash,
            board_hash(before.board),
            delta,
            crk(before.ctx().castling_rights),
            dpk(before.ctx().double_pawn_push_file),
            stmk(before.stm()),
        );
    }

    /// Puts `piece` on `square` (mask and mailbox), leaving colors alone; the hash follows.
    pub fn put_piece_at(&mut self, piece: Piece, square: Square)
        requires
            old(self).ctxs().len() >= 1,
        ensures
            put_piece_post(old(self).board, final(self).board, piece, square.idx()),
            old(self).same_but_board_and_hash(*final(self)),
    {
        let ghost before = *self;
        let old_piece = self.board.piece_at(square);
        let delta = piece_square_key(old_piece, square) ^ piece_square_key(piece, square);
        self.board.put_piece_at(piece, square);
        self.xor_hash(delta);
        proof {
            lemma_board_hash_change(before.board, self.board, square.idx());
            bv_xor_assoc(board_hash(before.board), psk(old_piece, square.idx()), psk(piece, square.idx()));
            if Z::tracks_hash() {
                Self::lemma_board_step(before, *self, delta);
            }
        }
    }

    /// Removes `piece` from `square` (mask and mailbox), leaving colors alone; the hash follows.
    pub fn remove_piece_at(&mut self, piece: Piece, square: Square)
        requires
            old(self).ctxs().len() >= 1,
        ensures
            remove_piece_post(old(self).board, final(self).board, piece, square.idx()),
            old(self).same_but_board_and_hash(*final(self)),
    {
        let ghost before = *self;
        let old_piece = self.board.piece_at(square);
        let delta = piece_square_key(old_piece, square) ^ piece_square_key(Piece::Null, square);
        self.board.remove_piece_at(piece, square);
        self.xor_hash(delta);
        proof {
            lemma_board_hash_change(before.board, self.board, square.idx());
            bv_xor_assoc(board_hash(before.board), psk(old_piece, square.idx()), psk(Piece::Null, square.idx()));
            if Z::tracks_hash() {
                Self::lemma_board_step(before, *self, delta);
            }
        }
    }

    /// Puts `piece` of `color` on the empty `square`; the hash follows.
    pub fn put_piece_and_color(&mut self, color: Color, piece: Piece, square: Square)
        requires
            old(self).ctxs().len() >= 1,
            old(self).board.wf(),
            piece != Piece::Null,
            old(self).board.piece(square.idx()) == Piece::Null,
        ensures
            final(self).board.wf(),
            final(self).board.same_except(old(self).board, square.idx(), square.idx()),
            final(self).board.holds(square.idx(), piece, color),
            old(self).same_but_board_and_hash(*final(self)),
    {
        let ghost before = *self;
        let delta = piece_square_key(Piece::Null, square) ^ piece_square_key(piece, square);
        self.board.put_piece_and_color(color, piece, square);
        self.xor_hash(delta);
        proof {
            lemma_board_hash_change(before.board, self.board, square.idx());
            bv_xor_assoc(board_hash(before.board), psk(Piece::Null, square.idx()), psk(piece, square.idx()));
            if Z::tracks_hash() {
                Self::lemma_board_step(before, *self, delta);
            }
        }
    }

    /// Removes `piece` of `color` from `square`, which must hold it; the hash follows.
    pub fn remove_piece_and_color(&mut self, color: Color, piece: Piece, square: Square)
        requires
            old(self).ctxs().len() >= 1,
            old(self).board.wf(),
            piece != Piece::Null,
            old(self).board.holds(square.idx(), piece, color),
        ensures
            final(self).board.wf(),
            final(self).board.same_except(old(self).board, square.idx(), square.idx()),
            final(self).board.piece(square.idx()) == Piece::Null,
            old(self).same_but_board_and_hash(*final(self)),
    {
        let ghost before = *self;
        let delta = piece_square_key(piece, square) ^ piece_square_key(Piece::Null, square);
        self.board.remove_piece_and_color(color, piece, square);
        self.xor_hash(delta);
        proof {
            lemma_board_hash_change(before.board, self.board, square.idx());
            bv_xor_assoc(board_hash(before.board), psk(piece, square.idx()), psk(Piece::Null, square.idx()));
            if Z::tracks_hash() {
                Self::lemma_board_step(before, *self, delta);
            }
        }
    }

    /// Moves the `piece` bit from `from` to `to` and updates the mailbox, leaving colors
    /// alone; the hash follows.
    pub fn move_piece(&mut self, piece: Piece, from: Square, to: Square)
        requires
            old(self).ctxs().len() >= 1,
        ensures
            move_piece_post(old(self).board, final(self).board, piece, from.idx(), to.idx()),
            old(self).same_but_board_and_hash(*final(self)),
    {
        let ghost before = *self;
        let old_from = self.board.piece_at(from);
        let old_to = self.board.piece_at(to);
        let delta = if from.index() == to.index() {
            piece_square_key(old_to, to) ^ piece_square_key(piece, to)
        } else {
            (piece_square_key(old_from, from) ^ piece_square_key(Piece::Null, from)) ^ (
            piece_square_key(old_to, to) ^ piece_square_key(piece, to))
        };
        self.board.move_piece(piece, from, to);
        self.xor_hash(delta);
        proof {
            if from == to {
                lemma_board_hash_change(before.board, self.board, to.idx());
                bv_xor_assoc(board_hash(before.board), psk(old_to, to.idx()), psk(piece, to.idx()));
            } else {
                lemma_board_hash_change2(before.board, self.board, from.idx(), to.idx());
            }
            if Z::tracks_hash() {
                Self::lemma_board_step(before, *self, delta);
            }
        }
    }

    /// Moves the `color` bit from `from` to `to`; pieces and hash are untouched.
    pub fn move_color(&mut self, color: Color, from: Square, to: Square)
        ensures
            move_color_post(old(self).board, final(self).board, color, from.idx(), to.idx()),
            final(self).halfmove == old(self).halfmove,
            final(self).stm() == old(self).stm(),
            final(self).ctxs() == old(self).ctxs(),
    {
        self.board.move_color(color, from, to);
    }

    /// Moves `piece` of `color` from `from` to the empty square `to`; the hash follows.
    pub fn move_piece_and_color(&mut self, color: Color, piece: Piece, from: Square, to: Square)
        requires
            old(self).ctxs().len() >= 1,
            old(self).board.wf(),
            piece != Piece::Null,
            from != to,
            old(self).board.holds(from.idx(), piece, color),
            old(self).board.piece(to.idx()) == Piece::Null,
        ensures
            final(self).board.wf(),
            final(self).board.same_except(old(self).board, from.idx(), to.idx()),
            final(self).board.piece(from.idx()) == Piece::Null,
            final(self).board.holds(to.idx(), piece, color),
            old(self).same_but_board_and_hash(*final(self)),
    {
        let ghost before = *self;
        let delta = (piece_square_key(piece, from) ^ piece_square_key(Piece::Null, from)) ^ (
        piece_square_key(Piece::Null, to) ^ piece_square_key(piece, to));
        self.board.move_piece_and_color(color, piece, from, to);
        self.xor_hash(delta);
        proof {
            lemma_board_hash_change2(before.board, self.board, from.idx(), to.idx());
            if Z::tracks_hash() {
                Self::lemma_board_step(before, *self, delta);
            }
        }
    }

    /// Sets the current castling rights; the hash follows.
    pub fn set_castling_rights(&mut self, castling_rights: CastlingRights)
        requires
            old(self).ctxs().len() >= 1,
        ensures
            final(self).board == old(self).board,
            final(self).halfmove == old(self).halfmove,
            final(self).stm() == old(self).stm(),
            final(self).ctxs().len() == old(self).ctxs().len(),
            forall|i: int|
                0 <= i < old(self).ctxs().len() - 1 ==> #[trigger] final(self).ctxs()[i] == old(
                    self,
                ).ctxs()[i],
            final(self).ctx().castling_rights == castling_rights,
            final(self).ctx().halfmove_clock == old(self).ctx().halfmove_clock,
            final(self).ctx().double_pawn_push_file == old(self).ctx().double_pawn_push_file,
            final(self).ctx().captured_piece == old(self).ctx().captured_piece,
            final(self).ctx().pinned == old(self).ctx().pinned,
            final(self).ctx().checkers == old(self).ctx().checkers,
            Z::tracks_hash() ==> final(self).hash_err() == old(self).hash_err(),
            !Z::tracks_hash() ==> final(self).ctx().zobrist_hash == old(self).ctx().zobrist_hash,
    {
        let ghost before = *self;
        let mut c = *self.context();
        let old_rights = c.castling_rights;
        let delta = castling_rights_key(old_rights) ^ castling_rights_key(castling_rights);
        c.castling_rights = castling_rights;
        self.set_context(c);
        self.xor_hash(delta);
        proof {
            if Z::tracks_hash() {
                lemma_err_castling(
                    before.ctx().zobrist_hash,
                    board_hash(before.board),
                    crk(old_rights),
                    crk(castling_rights),
                    dpk(before.ctx().double_pawn_push_file),
                    stmk(before.stm()),
                );
            }
        }
    }

    /// Sets the current double-pawn-push file; the hash follows.
    pub fn set_double_pawn_push_file(&mut self, double_pawn_push_file: DoublePawnPushFile)
        requires
            old(self).ctxs().len() >= 1,
        ensures
            final(self).board == old(self).board,
            final(self).halfmove == old(self).halfmove,
            final(self).stm() == old(self).stm(),
            final(self).ctxs().len() == old(self).ctxs().len(),
            forall|i: int|
                0 <= i < old(self).ctxs().len() - 1 ==> #[trigger] final(self).ctxs()[i] == old(
                    self,
                ).ctxs()[i],
            final(self).ctx().double_pawn_push_file == double_pawn_push_file,
            final(self).ctx().castling_rights == old(self).ctx().castling_rights,
            final(self).ctx().halfmove_clock == old(self).ctx().halfmove_clock,
            final(self).ctx().captured_piece == old(self).ctx().captured_piece,
            final(self).ctx().pinned == old(self).ctx().pinned,
            final(self).ctx().checkers == old(self).ctx().checkers,
            Z::tracks_hash() ==> final(self).hash_err() == old(self).hash_err(),
            !Z::tracks_hash() ==> final(self).ctx().zobrist_hash == old(self).ctx().zobrist_hash,
    {
        let ghost before = *self;
        let mut c = *self.context();
        let old_file = c.double_pawn_push_file;
        let delta = double_pawn_push_key(old_file) ^ double_pawn_push_key(double_pawn_push_file);
        c.double_pawn_push_file = double_pawn_push_file;
        self.set_context(c);
        self.xor_hash(delta);
        proof {
            if Z::tracks_hash() {
                lemma_err_dpf(
                    before.ctx().zobrist_hash,
                    board_hash(before.board),
                    crk(before.ctx().castling_rights),
                    dpk(old_file),
                    dpk(double_pawn_push_file),
                    stmk(before.stm()),
                );
            }
        }
    }

    /// XORs the side-to-move key into the current hash (when hashes are kept).
    pub fn flip_side_to_move_hash(&mut self)
        requires
            old(self).ctxs().len() >= 1,
        ensures
            final(self).board == old(self).board,
            final(self).halfmove == old(self).halfmove,
            final(self).stm() == old(self).stm(),
            final(self).ctxs().len() == old(self).ctxs().len(),
            forall|i: int|
                0 <= i < old(self).ctxs().len() - 1 ==> #[trigger] final(self).ctxs()[i] == old(
                    self,
                ).ctxs()[i],
            final(self).ctx() == (PositionContext {
                zobrist_hash: if Z::tracks_hash() {
                    old(self).ctx().zobrist_hash ^ stmk(Color::Black)
                } else {
                    old(self).ctx().zobrist_hash
                },
                ..old(self).ctx()
            }),
    {
        let k = side_to_move_key(Color::Black);
        self.xor_hash(k);
    }

    /// Hands the move to the other side, flipping the side-to-move key of the hash with it.
    pub(crate) fn flip_side_to_move(&mut self)
        requires
            old(self).ctxs().len() >= 1,
        ensures
            final(self).board == old(self).board,
            final(self).halfmove == old(self).halfmove,
            final(self).stm() == old(self).stm().opp(),
            final(self).ctxs().len() == old(self).ctxs().len(),
            forall|i: int|
                0 <= i < old(self).ctxs().len() - 1 ==> #[trigger] final(self).ctxs()[i] == old(
                    self,
                ).ctxs()[i],
            final(self).ctx().castling_rights == old(self).ctx().castling_rights,
            final(self).ctx().double_pawn_push_file == old(self).ctx().double_pawn_push_file,
            final(self).ctx().halfmove_clock == old(self).ctx().halfmove_clock,
            final(self).ctx().captured_piece == old(self).ctx().captured_piece,
            final(self).ctx().pinned == old(self).ctx().pinned,
            final(self).ctx().checkers == old(self).ctx().checkers,
            Z::tracks_hash() ==> final(self).hash_err() == old(self).hash_err(),
            !Z::tracks_hash() ==> final(self).ctx().zobrist_hash == old(self).ctx().zobrist_hash,
    {
        let ghost before = *self;
        self.flip_side_to_move_hash();
        self.side_to_move = self.side_to_move.other();
        proof {
            if Z::tracks_hash() {
                lemma_stmk_flip(before.stm());
                lemma_err_stm(
                    before.ctx().zobrist_hash,
                    board_hash(before.board),
                    crk(before.ctx().castling_rights),
                    dpk(before.ctx().double_pawn_push_file),
                    stmk(before.stm()),
                    stmk(before.stm().opp()),
                );
            }
        }
    }
}

} // verus!
