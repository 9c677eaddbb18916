//! Piece placement: bitboards per piece kind and per color, with a mailbox per square.
use vstd::prelude::*;
use crate::bitboard::{bb_has, sq_bit, group_has, lemma_squares_ext};
use crate::types::{Color, Piece, Square};
use crate::types::square::{sq_rank, sq_file};

verus! {

broadcast use group_has;

/// Piece placement for both colors.
///
/// `piece_masks[p]` holds the squares of piece kind `p` (index 0 holds every occupied
/// square), `color_masks[c]` the squares of color `c`, and `pieces[s]` the piece kind on
/// square `s` (`Null` when empty).
#[derive(Clone, Copy, Debug, PartialEq, Eq)]
pub struct Board {
    piece_masks: [u64; 7],
    color_masks: [u64; 2],
    pieces: [Piece; 64],
}

/// A grid of characters, one per square, rank 8 first.
pub type Charboard = [[char; 8]; 8];

impl Board {
    /// The mask at index `i` of the piece masks (0: every occupied square, 1 .. 6: pawns ..
    /// kings).
    pub closed spec fn pm(self, i: int) -> u64 {
        self.piece_masks[i]
    }

    /// The mask of the color with index `i` (0: White, 1: Black).
    pub closed spec fn cm(self, i: int) -> u64 {
        self.color_masks[i]
    }

    /// The piece kind on square `s` according to the mailbox.
    pub closed spec fn piece(self, s: int) -> Piece {
        self.pieces[s]
    }

    /// The color on square `s`: Black when the black mask holds it, White otherwise.
    pub open spec fn color(self, s: int) -> Color {
        if bb_has(self.cm(1), s) {
            Color::Black
        } else {
            Color::White
        }
    }

    /// The squares of every occupied square.
    pub open spec fn occ(self) -> u64 {
        self.pm(0)
    }

    /// The masks and the mailbox agree on square `s`, and `s` has at most one color, which it
    /// has exactly when it is occupied.
    pub open spec fn square_ok(self, s: int) -> bool {
        &&& forall|i: int| 1 <= i < 7 ==> #[trigger] bb_has(self.pm(i), s) == (self.piece(s).idx()
            == i)
        &&& bb_has(self.pm(0), s) == (self.piece(s) != Piece::Null)
        &&& !(bb_has(self.cm(0), s) && bb_has(self.cm(1), s))
        &&& bb_has(self.pm(0), s) == (bb_has(self.cm(0), s) || bb_has(self.cm(1), s))
    }

    /// Every square is consistent.
    pub open spec fn wf(self) -> bool {
        forall|s: int| 0 <= s < 64 ==> #[trigger] self.square_ok(s)
    }

    /// Every mask bit and the mailbox entry of square `s` are the same on both boards.
    pub open spec fn same_at(self, other: Board, s: int) -> bool {
        &&& forall|i: int| 0 <= i < 7 ==> #[trigger] bb_has(self.pm(i), s) == bb_has(
            other.pm(i),
            s,
        )
        &&& forall|i: int| 0 <= i < 2 ==> #[trigger] bb_has(self.cm(i), s) == bb_has(
            other.cm(i),
            s,
        )
        &&& self.piece(s) == other.piece(s)
    }

    /// The boards agree on every square except possibly `a` and `b`.
    pub open spec fn same_except(self, other: Board, a: int, b: int) -> bool {
        &&& forall|s: int| 0 <= s < 64 && s != a && s != b ==> #[trigger] self.same_at(other, s)
        &&& forall|s: int|
            0 <= s < 64 && s != a && s != b ==> #[trigger] self.piece(s) == other.piece(s)
        &&& forall|s: int|
            0 <= s < 64 && s != a && s != b ==> #[trigger] self.color(s) == other.color(s)
    }

    /// Square `s` holds piece `p` of color `c` (for `p == Null`: is empty).
    pub open spec fn holds(self, s: int, p: Piece, c: Color) -> bool {
        &&& self.piece(s) == p
        &&& (p != Piece::Null ==> self.color(s) == c)
    }

    /// Squares of the pieces of color `c` and kind `p`.
    pub open spec fn of(self, c: Color, p: Piece) -> u64 {
        self.cm(c.idx()) & self.pm(p.idx())
    }

    /// Boards that agree on every mask bit and mailbox entry are equal.
    pub proof fn lemma_ext(a: Board, b: Board)
        requires
            forall|s: int| 0 <= s < 64 ==> #[trigger] a.same_at(b, s),
        ensures
            a == b,
    {
        assert forall|i: int| 0 <= i < 7 implies a.piece_masks[i] == b.piece_masks[i] by {
            assert forall|s: int| 0 <= s < 64 implies #[trigger] bb_has(a.pm(i), s) == bb_has(
                b.pm(i),
                s,
            ) by {
                assert(a.same_at(b, s));
            }
            lemma_squares_ext(a.pm(i), b.pm(i));
        }
        assert forall|i: int| 0 <= i < 2 implies a.color_masks[i] == b.color_masks[i] by {
            assert forall|s: int| 0 <= s < 64 implies #[trigger] bb_has(a.cm(i), s) == bb_has(
                b.cm(i),
                s,
            ) by {
                assert(a.same_at(b, s));
            }
            lemma_squares_ext(a.cm(i), b.cm(i));
        }
        assert forall|s: int| 0 <= s < 64 implies a.pieces[s] == b.pieces[s] by {
            assert(a.same_at(b, s));
        }
        assert(a.piece_masks =~= b.piece_masks);
        assert(a.color_masks =~= b.color_masks);
        assert(a.pieces =~= b.pieces);
    }

    /// Two consistent boards with the same pieces and the same colors on occupied squares are
    /// equal.
    pub proof fn lemma_wf_ext(a: Board, b: Board)
        requires
            a.wf(),
            b.wf(),
            forall|s: int|
                0 <= s < 64 ==> #[trigger] a.piece(s) == b.piece(s) && (a.piece(s) != Piece::Null
                    ==> a.color(s) == b.color(s)),
        ensures
            a == b,
    {
        assert forall|s: int| 0 <= s < 64 implies #[trigger] a.same_at(b, s) by {
            assert(a.square_ok(s));
            assert(b.square_ok(s));
            assert(a.piece(s) == b.piece(s));
            assert forall|i: int| 0 <= i < 7 implies #[trigger] bb_has(a.pm(i), s) == bb_has(
                b.pm(i),
                s,
            ) by {
                if i > 0 {
                    assert(bb_has(a.pm(i), s) == (a.piece(s).idx() == i));
                    assert(bb_has(b.pm(i), s) == (b.piece(s).idx() == i));
                }
            }
        }
        Self::lemma_ext(a, b);
    }

    /// A board that agrees with a consistent board outside two squares, and is consistent on
    /// those two, is consistent.
    pub proof fn lemma_wf_after(a: Board, b: Board, x: int, y: int)
        requires
            a.wf(),
            b.same_except(a, x, y),
            0 <= x < 64 ==> b.square_ok(x),
            0 <= y < 64 ==> b.square_ok(y),
        ensures
            b.wf(),
    {
        assert forall|s: int| 0 <= s < 64 implies #[trigger] b.square_ok(s) by {
            if s != x && s != y {
                assert(b.same_at(a, s));
                assert(a.square_ok(s));
                assert forall|i: int| 1 <= i < 7 implies #[trigger] bb_has(b.pm(i), s) == (b.piece(
                    s,
                ).idx() == i) by {
                    assert(bb_has(a.pm(i), s) == (a.piece(s).idx() == i));
                }
                assert(bb_has(b.pm(0), s) == bb_has(a.pm(0), s));
                assert(bb_has(b.cm(0), s) == bb_has(a.cm(0), s));
                assert(bb_has(b.cm(1), s) == bb_has(a.cm(1), s));
            }
        }
    }

    /// Facts of a consistent board on square `s`.
    pub proof fn lemma_square(self, s: int)
        requires
            self.wf(),
            0 <= s < 64,
        ensures
            self.square_ok(s),
            bb_has(self.occ(), s) == (self.piece(s) != Piece::Null),
            bb_has(self.cm(0), s) == (self.piece(s) != Piece::Null && self.color(s)
                == Color::White),
            bb_has(self.cm(1), s) == (self.piece(s) != Piece::Null && self.color(s)
                == Color::Black),
            forall|p: Piece| p != Piece::Null ==> #[trigger] bb_has(self.pm(p.idx()), s) == (
            self.piece(s) == p),
    {
        assert(self.square_ok(s));
        assert forall|p: Piece| p != Piece::Null implies #[trigger] bb_has(self.pm(p.idx()), s)
            == (self.piece(s) == p) by {
            assert(bb_has(self.pm(p.idx()), s) == (self.piece(s).idx() == p.idx()));
        }
    }

    /// Removing the piece kind of an occupied square and putting another kind there keeps the
    /// board consistent and the square's color.
    pub proof fn lemma_replace_piece(a: Board, m: Board, b: Board, old_p: Piece, new_p: Piece, s: int)
        requires
            a.wf(),
            0 <= s < 64,
            old_p != Piece::Null,
            new_p != Piece::Null,
            a.piece(s) == old_p,
            remove_piece_post(a, m, old_p, s),
            put_piece_post(m, b, new_p, s),
        ensures
            b.wf(),
            b.same_except(a, s, s),
            b.piece(s) == new_p,
            b.color(s) == a.color(s),
    {
        a.lemma_square(s);
        assert forall|t: int| 0 <= t < 64 && t != s implies #[trigger] b.same_at(a, t) by {
            assert forall|i: int| 0 <= i < 7 implies #[trigger] bb_has(b.pm(i), t) == bb_has(
                a.pm(i),
                t,
            ) by {
                assert(bb_has(m.pm(i), t) == bb_has(a.pm(i), t));
            }
            assert forall|i: int| 0 <= i < 2 implies #[trigger] bb_has(b.cm(i), t) == bb_has(
                a.cm(i),
                t,
            ) by {}
        }
        assert forall|i: int| 1 <= i < 7 implies #[trigger] bb_has(b.pm(i), s) == (b.piece(s).idx()
            == i) by {
            if i != new_p.idx() && i != old_p.idx() {
                assert(bb_has(a.pm(i), s) == (a.piece(s).idx() == i));
            }
        }
        assert(b.square_ok(s));
        Self::lemma_wf_after(a, b, s, s);
    }

    /// The board of the initial position.
    pub fn initial() -> (b: Board)
        ensures
            b.wf(),
            forall|s: int| 0 <= s < 64 ==> #[trigger] b.piece(s) == initial_piece(s),
            forall|s: int| 0 <= s < 64 ==> #[trigger] b.color(s) == initial_color(s),
    {
        let mut b = Board::blank();
        let mut s: u8 = 0;
        while s < 64
            invariant
                s <= 64,
                b.wf(),
                forall|t: int| 0 <= t < s ==> #[trigger] b.piece(t) == initial_piece(t),
                forall|t: int| 0 <= t < s ==> #[trigger] b.color(t) == initial_color(t),
                forall|t: int| s <= t < 64 ==> #[trigger] b.piece(t) == Piece::Null,
                forall|t: int| s <= t < 64 ==> #[trigger] b.color(t) == Color::White,
            decreases 64 - s,
        {
            let sq = Square::from_u8(s);
            let p = initial_piece_at(s);
            let c = if s < 32 {
                Color::Black
            } else {
                Color::White
            };
            if p != Piece::Null {
                b.put_piece_and_color(c, p, sq);
            }
            s = s + 1;
        }
        b
    }

    /// The board without pieces.
    pub fn blank() -> (b: Board)
        ensures
            b.wf(),
            forall|s: int| 0 <= s < 64 ==> #[trigger] b.piece(s) == Piece::Null,
            forall|s: int| 0 <= s < 64 ==> #[trigger] b.color(s) == Color::White,
            forall|i: int| 0 <= i < 7 ==> #[trigger] b.pm(i) == 0,
            forall|i: int| 0 <= i < 2 ==> #[trigger] b.cm(i) == 0,
    {
        let b = Board { piece_masks: [0; 7], color_masks: [0; 2], pieces: [Piece::Null; 64] };
        assert forall|s: int| 0 <= s < 64 implies #[trigger] b.square_ok(s) by {}
        b
    }

    /// The squares of pieces of kind `piece` (index 0 is every occupied square).
    pub fn piece_mask(&self, piece: Piece) -> (m: u64)
        ensures
            m == self.pm(piece.idx()),
    {
        self.piece_masks[piece as usize]
    }

    /// The squares of pieces of `color`.
    pub fn color_mask(&self, color: Color) -> (m: u64)
        ensures
            m == self.cm(color.idx()),
    {
        self.color_masks[color as usize]
    }

    /// The squares of piece kind `piece_type` (every occupied square for `Null`).
    pub fn piece_mask_at(&self, piece_type: Piece) -> (m: u64)
        ensures
            m == self.pm(piece_type.idx()),
    {
        self.piece_masks[piece_type as usize]
    }

    /// The squares of color `color`.
    pub fn color_mask_at(&self, color: Color) -> (m: u64)
        ensures
            m == self.cm(color.idx()),
    {
        self.color_masks[color as usize]
    }

    /// Every occupied square.
    pub fn pieces(&self) -> (m: u64)
        ensures
            m == self.occ(),
    {
        self.piece_masks[0]
    }

    /// The bishops and queens of both colors.
    pub fn diagonal_sliders(&self) -> (m: u64)
        ensures
            m == self.pm(Piece::Bishop.idx()) | self.pm(Piece::Queen.idx()),
    {
        self.piece_masks[3] | self.piece_masks[5]
    }

    /// The rooks and queens of both colors.
    pub fn orthogonal_sliders(&self) -> (m: u64)
        ensures
            m == self.pm(Piece::Rook.idx()) | self.pm(Piece::Queen.idx()),
    {
        self.piece_masks[4] | self.piece_masks[5]
    }

    /// Adds `color` to `square`, leaving piece kinds alone.
    pub fn put_color_at(&mut self, color: Color, square: Square)
        ensures
            final(self).cm(color.idx()) == old(self).cm(color.idx()) | sq_bit(square.idx()),
            final(self).cm(color.opp().idx()) == old(self).cm(color.opp().idx()),
            forall|i: int| 0 <= i < 7 ==> #[trigger] final(self).pm(i) == old(self).pm(i),
            forall|s: int| 0 <= s < 64 ==> #[trigger] final(self).piece(s) == old(self).piece(s),
    {
        let mask = square.mask();
        let c = color as usize;
        self.color_masks[c] = self.color_masks[c] | mask;
    }

    /// Puts `piece_type` on `square` (mask and mailbox), leaving colors alone.
    pub fn put_piece_at(&mut self, piece_type: Piece, square: Square)
        ensures
            put_piece_post(*old(self), *final(self), piece_type, square.idx()),
            final(self).pm(piece_type.idx()) == old(self).pm(piece_type.idx()) | sq_bit(
                square.idx(),
            ),
            final(self).pm(0) == old(self).pm(0) | sq_bit(square.idx()),
            forall|i: int|
                0 <= i < 7 && i != 0 && i != piece_type.idx() ==> #[trigger] final(self).pm(i)
                    == old(self).pm(i),
            forall|i: int| 0 <= i < 2 ==> #[trigger] final(self).cm(i) == old(self).cm(i),
            final(self).piece(square.idx()) == piece_type,
            forall|s: int|
                0 <= s < 64 && s != square.idx() ==> #[trigger] final(self).piece(s) == old(
                    self,
                ).piece(s),
    {
        let mask = square.mask();
        let p = piece_type as usize;
        self.piece_masks[p] = self.piece_masks[p] | mask;
        if p != 0 {
            self.piece_masks[0] = self.piece_masks[0] | mask;
        }
        self.pieces[square as usize] = piece_type;
    }

    /// Puts `piece` of `color` on the empty `square`.
    pub fn put_piece_and_color(&mut self, color: Color, piece: Piece, square: Square)
        requires
            old(self).wf(),
            piece != Piece::Null,
            old(self).piece(square.idx()) == Piece::Null,
        ensures
            final(self).wf(),
            final(self).same_except(*old(self), square.idx(), square.idx()),
            final(self).holds(square.idx(), piece, color),
    {
        let ghost before = *self;
        self.put_color_at(color, square);
        self.put_piece_at(piece, square);
        proof {
            let s = square.idx();
            before.lemma_square(s);
            assert forall|t: int| 0 <= t < 64 && t != s implies #[trigger] self.same_at(
                before,
                t,
            ) by {
                assert forall|i: int| 0 <= i < 7 implies #[trigger] bb_has(self.pm(i), t)
                    == bb_has(before.pm(i), t) by {}
                assert forall|i: int| 0 <= i < 2 implies #[trigger] bb_has(self.cm(i), t)
                    == bb_has(before.cm(i), t) by {
                    if i != color.idx() {
                        assert(i == color.opp().idx());
                    }
                }
            }
            assert forall|i: int| 1 <= i < 7 implies #[trigger] bb_has(self.pm(i), s) == (
            self.piece(s).idx() == i) by {
                if i != piece.idx() {
                    assert(bb_has(before.pm(i), s) == (before.piece(s).idx() == i));
                }
            }
            assert(self.square_ok(s));
            Self::lemma_wf_after(before, *self, s, s);
        }
    }

    /// Removes `color` from `square`, leaving piece kinds alone.
    pub fn remove_color_at(&mut self, color: Color, square: Square)
        ensures
            final(self).cm(color.idx()) == old(self).cm(color.idx()) & !sq_bit(square.idx()),
            final(self).cm(color.opp().idx()) == old(self).cm(color.opp().idx()),
            forall|i: int| 0 <= i < 7 ==> #[trigger] final(self).pm(i) == old(self).pm(i),
            forall|s: int| 0 <= s < 64 ==> #[trigger] final(self).piece(s) == old(self).piece(s),
    {
        let mask = square.mask();
        let c = color as usize;
        self.color_masks[c] = self.color_masks[c] & !mask;
    }

    /// Removes `piece_type` from `square` (mask and mailbox), leaving colors alone.
    pub fn remove_piece_at(&mut self, piece_type: Piece, square: Square)
        ensures
            remove_piece_post(*old(self), *final(self), piece_type, square.idx()),
            final(self).pm(piece_type.idx()) == old(self).pm(piece_type.idx()) & !sq_bit(
                square.idx(),
            ),
            final(self).pm(0) == old(self).pm(0) & !sq_bit(square.idx()),
            forall|i: int|
                0 <= i < 7 && i != 0 && i != piece_type.idx() ==> #[trigger] final(self).pm(i)
                    == old(self).pm(i),
            forall|i: int| 0 <= i < 2 ==> #[trigger] final(self).cm(i) == old(self).cm(i),
            final(self).piece(square.idx()) == Piece::Null,
            forall|s: int|
                0 <= s < 64 && s != square.idx() ==> #[trigger] final(self).piece(s) == old(
                    self,
                ).piece(s),
    {
        let mask = square.mask();
        let p = piece_type as usize;
        self.piece_masks[p] = self.piece_masks[p] & !mask;
        if p != 0 {
            self.piece_masks[0] = self.piece_masks[0] & !mask;
        }
        self.pieces[square as usize] = Piece::Null;
    }

    /// Removes `piece` of `color` from `square`, which must hold it.
    pub fn remove_piece_and_color(&mut self, color: Color, piece: Piece, square: Square)
        requires
            old(self).wf(),
            piece != Piece::Null,
            old(self).holds(square.idx(), piece, color),
        ensures
            final(self).wf(),
            final(self).same_except(*old(self), square.idx(), square.idx()),
            final(self).piece(square.idx()) == Piece::Null,
    {
        let ghost before = *self;
        self.remove_color_at(color, square);
        self.remove_piece_at(piece, square);
        proof {
            let s = square.idx();
            before.lemma_square(s);
            assert forall|t: int| 0 <= t < 64 && t != s implies #[trigger] self.same_at(
                before,
                t,
            ) by {
                assert forall|i: int| 0 <= i < 7 implies #[trigger] bb_has(self.pm(i), t)
                    == bb_has(before.pm(i), t) by {}
                assert forall|i: int| 0 <= i < 2 implies #[trigger] bb_has(self.cm(i), t)
                    == bb_has(before.cm(i), t) by {
                    if i != color.idx() {
                        assert(i == color.opp().idx());
                    }
                }
            }
            assert forall|i: int| 1 <= i < 7 implies #[trigger] bb_has(self.pm(i), s) == (
            self.piece(s).idx() == i) by {
                if i != piece.idx() {
                    assert(bb_has(before.pm(i), s) == (before.piece(s).idx() == i));
                }
            }
            assert(self.square_ok(s));
            Self::lemma_wf_after(before, *self, s, s);
        }
    }

    #[verifier::rlimit(50)]
    /// Moves the `piece_type` bit from `from` to `to` (toggling both squares in its mask and
    /// the occupancy mask) and updates the mailbox; colors are left alone.
    pub fn move_piece(&mut self, piece_type: Piece, from: Square, to: Square)
        ensures
            move_piece_post(*old(self), *final(self), piece_type, from.idx(), to.idx()),
    {
        let ghost before = *self;
        let from_to_mask = from.mask() | to.mask();
        let p = piece_type as usize;
        if p != 0 {
            self.piece_masks[p] = self.piece_masks[p] ^ from_to_mask;
            self.piece_masks[0] = self.piece_masks[0] ^ from_to_mask;
        }
        self.pieces[from as usize] = Piece::Null;
        self.pieces[to as usize] = piece_type;
        proof {
            assert forall|i: int| 0 <= i < 7 && i != 0 && i != piece_type.idx() implies #[trigger] self.pm(i) == before.pm(i) by {}
            assert forall|i: int| 0 <= i < 2 implies #[trigger] self.cm(i) == before.cm(i) by {}
            assert forall|t: int| 0 <= t < 64 && t != from.idx() && t != to.idx() implies #[trigger] self.piece(t) == before.piece(t) by {}
        }
    }

    /// Moves the `color` bit from `from` to `to` (toggling both squares in its mask).
    pub fn move_color(&mut self, color: Color, from: Square, to: Square)
        ensures
            move_color_post(*old(self), *final(self), color, from.idx(), to.idx()),
            final(self).cm(color.idx()) == old(self).cm(color.idx()) ^ (sq_bit(from.idx())
                | sq_bit(to.idx())),
            final(self).cm(color.opp().idx()) == old(self).cm(color.opp().idx()),
            forall|i: int| 0 <= i < 7 ==> #[trigger] final(self).pm(i) == old(self).pm(i),
            forall|s: int| 0 <= s < 64 ==> #[trigger] final(self).piece(s) == old(self).piece(s),
    {
        let from_to_mask = from.mask() | to.mask();
        let c = color as usize;
        self.color_masks[c] = self.color_masks[c] ^ from_to_mask;
    }

    /// Moves `piece` of `color` from `from` to the empty square `to`.
    pub fn move_piece_and_color(&mut self, color: Color, piece: Piece, from: Square, to: Square)
        requires
            old(self).wf(),
            piece != Piece::Null,
            from != to,
            old(self).holds(from.idx(), piece, color),
            old(self).piece(to.idx()) == Piece::Null,
        ensures
            final(self).wf(),
            final(self).same_except(*old(self), from.idx(), to.idx()),
            final(self).piece(from.idx()) == Piece::Null,
            final(self).holds(to.idx(), piece, color),
    {
        let ghost before = *self;
        self.move_color(color, from, to);
        self.move_piece(piece, from, to);
        proof {
            let (a, b) = (from.idx(), to.idx());
            before.lemma_square(a);
            before.lemma_square(b);
            assert forall|t: int| 0 <= t < 64 && t != a && t != b implies #[trigger] self.same_at(
                before,
                t,
            ) by {
                assert forall|i: int| 0 <= i < 7 implies #[trigger] bb_has(self.pm(i), t)
                    == bb_has(before.pm(i), t) by {}
                assert forall|i: int| 0 <= i < 2 implies #[trigger] bb_has(self.cm(i), t)
                    == bb_has(before.cm(i), t) by {
                    if i != color.idx() {
                        assert(i == color.opp().idx());
                    }
                }
            }
            assert forall|i: int| 1 <= i < 7 implies #[trigger] bb_has(self.pm(i), a) == (
            self.piece(a).idx() == i) by {
                if i != piece.idx() {
                    assert(bb_has(before.pm(i), a) == (before.piece(a).idx() == i));
                }
            }
            assert forall|i: int| 1 <= i < 7 implies #[trigger] bb_has(self.pm(i), b) == (
            self.piece(b).idx() == i) by {
                if i != piece.idx() {
                    assert(bb_has(before.pm(i), b) == (before.piece(b).idx() == i));
                }
            }
            assert(self.square_ok(a));
            assert(self.square_ok(b));
            Self::lemma_wf_after(before, *self, a, b);
        }
    }

    /// The piece kind on `square` (`Null` when empty).
    pub fn piece_at(&self, square: Square) -> (p: Piece)
        ensures
            p == self.piece(square.idx()),
    {
        self.pieces[square as usize]
    }

    /// Whether `square` holds a piece.
    pub fn is_occupied_at(&self, square: Square) -> (r: bool)
        ensures
            r == (self.piece(square.idx()) != Piece::Null),
    {
        self.pieces[square as usize] != Piece::Null
    }

    /// The color on `square` (White for an empty square).
    pub fn color_at(&self, square: Square) -> (c: Color)
        ensures
            c == self.color(square.idx()),
    {
        Color::from_is_black(crate::bitboard::contains(self.color_masks[1], square.index()))
    }
}

/// `b` is `a` after adding `piece` (mask and mailbox) on square `s`, colors untouched.
pub open spec fn put_piece_post(a: Board, b: Board, piece: Piece, s: int) -> bool {
    &&& b.pm(piece.idx()) == a.pm(piece.idx()) | sq_bit(s)
    &&& b.pm(0) == a.pm(0) | sq_bit(s)
    &&& forall|i: int| 0 <= i < 7 && i != 0 && i != piece.idx() ==> #[trigger] b.pm(i) == a.pm(i)
    &&& forall|i: int| 0 <= i < 2 ==> #[trigger] b.cm(i) == a.cm(i)
    &&& b.piece(s) == piece
    &&& forall|t: int| 0 <= t < 64 && t != s ==> #[trigger] b.piece(t) == a.piece(t)
}

/// `b` is `a` after removing `piece` (mask and mailbox) from square `s`, colors untouched.
pub open spec fn remove_piece_post(a: Board, b: Board, piece: Piece, s: int) -> bool {
    &&& b.pm(piece.idx()) == a.pm(piece.idx()) & !sq_bit(s)
    &&& b.pm(0) == a.pm(0) & !sq_bit(s)
    &&& forall|i: int| 0 <= i < 7 && i != 0 && i != piece.idx() ==> #[trigger] b.pm(i) == a.pm(i)
    &&& forall|i: int| 0 <= i < 2 ==> #[trigger] b.cm(i) == a.cm(i)
    &&& b.piece(s) == Piece::Null
    &&& forall|t: int| 0 <= t < 64 && t != s ==> #[trigger] b.piece(t) == a.piece(t)
}

/// `b` is `a` after moving the `piece` bit from `from` to `to` and updating the mailbox,
/// colors untouched.
pub open spec fn move_piece_post(a: Board, b: Board, piece: Piece, from: int, to: int) -> bool {
    &&& piece != Piece::Null ==> b.pm(piece.idx()) == a.pm(piece.idx()) ^ (sq_bit(from) | sq_bit(to))
    &&& piece != Piece::Null ==> b.pm(0) == a.pm(0) ^ (sq_bit(from) | sq_bit(to))
    &&& piece == Piece::Null ==> b.pm(0) == a.pm(0)
    &&& forall|i: int| 0 <= i < 7 && i != 0 && i != piece.idx() ==> #[trigger] b.pm(i) == a.pm(i)
    &&& forall|i: int| 0 <= i < 2 ==> #[trigger] b.cm(i) == a.cm(i)
    &&& b.piece(to) == piece
    &&& from != to ==> b.piece(from) == Piece::Null
    &&& forall|t: int| 0 <= t < 64 && t != from && t != to ==> #[trigger] b.piece(t) == a.piece(t)
}

/// `b` is `a` after moving the `color` bit from `from` to `to`.
pub open spec fn move_color_post(a: Board, b: Board, color: Color, from: int, to: int) -> bool {
    &&& b.cm(color.idx()) == a.cm(color.idx()) ^ (sq_bit(from) | sq_bit(to))
    &&& b.cm(color.opp().idx()) == a.cm(color.opp().idx())
    &&& forall|i: int| 0 <= i < 7 ==> #[trigger] b.pm(i) == a.pm(i)
    &&& forall|t: int| 0 <= t < 64 ==> #[trigger] b.piece(t) == a.piece(t)
}

/// The piece kind on square `s` in the initial position.
pub open spec fn initial_piece(s: int) -> Piece {
    let r = sq_rank(s);
    let f = sq_file(s);
    if r == 1 || r == 6 {
        Piece::Pawn
    } else if r == 0 || r == 7 {
        if f == 0 || f == 7 {
            Piece::Rook
        } else if f == 1 || f == 6 {
            Piece::Knight
        } else if f == 2 || f == 5 {
            Piece::Bishop
        } else if f == 3 {
            Piece::Queen
        } else {
            Piece::King
        }
    } else {
        Piece::Null
    }
}

/// The color on square `s` in the initial position (White on the empty squares).
pub open spec fn initial_color(s: int) -> Color {
    if s < 16 {
        Color::Black
    } else {
        Color::White
    }
}

/// The piece kind on square `s` in the initial position.
fn initial_piece_at(s: u8) -> (p: Piece)
    requires
        s < 64,
    ensures
        p == initial_piece(s as int),
{
    let r = 7 - s / 8;
    let f = s % 8;
    if r == 1 || r == 6 {
        Piece::Pawn
    } else if r == 0 || r == 7 {
        if f == 0 || f == 7 {
            Piece::Rook
        } else if f == 1 || f == 6 {
            Piece::Knight
        } else if f == 2 || f == 5 {
            Piece::Bishop
        } else if f == 3 {
            Piece::Queen
        } else {
            Piece::King
        }
    } else {
        Piece::Null
    }
}

} // verus!
