//! Consistency, king and material checks on a board, and character grids of it.
use vstd::prelude::*;
use crate::bitboard::{bb_has, bit, pop, pop_upto, group_has, count_squares, lemma_squares_ext};
use crate::board::{Board, Charboard};
use crate::board_attacks::lemma_empty_iff;
use crate::types::{Color, Piece, Square};
use crate::types::piece::{piece_upper, piece_lower, piece_unfilled, piece_filled};

verus! {

broadcast use group_has;

/// The first piece kind (pawn .. king) whose mask holds `s`, `Null` if none does.
pub open spec fn first_kind(b: Board, s: int) -> Piece {
    if bb_has(b.pm(1), s) {
        Piece::Pawn
    } else if bb_has(b.pm(2), s) {
        Piece::Knight
    } else if bb_has(b.pm(3), s) {
        Piece::Bishop
    } else if bb_has(b.pm(4), s) {
        Piece::Rook
    } else if bb_has(b.pm(5), s) {
        Piece::Queen
    } else if bb_has(b.pm(6), s) {
        Piece::King
    } else {
        Piece::Null
    }
}

/// Both sides have insufficient material: no pawns, rooks or queens, and for each side in
/// turn at most one minor piece; under USCF rules a side with exactly two knights and no bishop
/// decides the answer by itself: insufficient exactly when the other side has only its king.
pub open spec fn insufficient(b: Board, uscf: bool) -> bool {
    if b.pm(1) | b.pm(4) | b.pm(5) != 0 {
        false
    } else {
        side_insufficient(b, Color::White, uscf, side_insufficient(b, Color::Black, uscf, true))
    }
}

/// The verdict for side `c` given the verdict `rest` for the sides after it.
pub open spec fn side_insufficient(b: Board, c: Color, uscf: bool, rest: bool) -> bool {
    let nb = pop(b.pm(3) & b.cm(c.idx()));
    let nk = pop(b.pm(2) & b.cm(c.idx()));
    if nb > 1 {
        false
    } else if uscf && nk == 2 && nb == 0 {
        pop(b.cm(c.opp().idx()) & b.pm(0)) == 1
    } else if nk + nb > 1 {
        false
    } else {
        rest
    }
}

/// The character for `piece` of `color` in plain letters: uppercase for White, lowercase for
/// Black, a space for an empty square.
pub open spec fn ascii_char(color: Color, piece: Piece) -> char {
    if color == Color::White {
        piece_upper(piece)
    } else {
        piece_lower(piece)
    }
}

/// The character for `piece` of `color` as a chess symbol: outlined for White, filled for
/// Black, a space for an empty square.
pub open spec fn unicode_char(color: Color, piece: Piece) -> char {
    if color == Color::White {
        piece_unfilled(piece)
    } else {
        piece_filled(piece)
    }
}

impl Board {
    /// Whether there are exactly two kings, one of them White.
    pub fn has_valid_kings(&self) -> (r: bool)
        ensures
            r == (pop(self.pm(6)) == 2 && pop(self.cm(0) & self.pm(6)) == 1),
    {
        let white_mask = self.color_mask_at(Color::White);
        let kings_mask = self.piece_mask_at(Piece::King);
        count_squares(kings_mask) == 2 && count_squares(white_mask & kings_mask) == 1
    }

    /// Returns true if there is insufficient material on both sides to checkmate: no pawns,
    /// rooks or queens, and each side has a lone king, a king and a bishop, or a king and a
    /// knight; under USCF rules also a king and two knights against a lone king.
    pub fn are_both_sides_insufficient_material(&self, use_uscf_rules: bool) -> (r: bool)
        ensures
            r == insufficient(*self, use_uscf_rules),
    {
        if self.piece_mask_at(Piece::Pawn) | self.piece_mask_at(Piece::Rook) | self.piece_mask_at(
            Piece::Queen,
        ) != 0 {
            return false;
        }
        let colors = [Color::White, Color::Black];
        let mut i: usize = 0;
        while i < 2
            invariant
                i <= 2,
                colors[0] == Color::White,
                colors[1] == Color::Black,
                self.pm(1) | self.pm(4) | self.pm(5) == 0,
                insufficient(*self, use_uscf_rules) == if i == 0 {
                    side_insufficient(*self, Color::White, use_uscf_rules, side_insufficient(*self, Color::Black, use_uscf_rules, true))
                } else if i == 1 {
                    side_insufficient(*self, Color::Black, use_uscf_rules, true)
                } else {
                    true
                },
            decreases 2 - i,
        {
            let color = colors[i];
            let bishops = self.piece_mask_at(Piece::Bishop) & self.color_mask_at(color);
            let num_bishops = count_squares(bishops);
            if num_bishops > 1 {
                return false;
            }
            let knights = self.piece_mask_at(Piece::Knight) & self.color_mask_at(color);
            let num_knights = count_squares(knights);
            if use_uscf_rules && num_knights == 2 && num_bishops == 0 {
                let opponent_mask = self.color_mask_at(color.other());
                let all_occupancy_mask = self.pieces();
                return count_squares(opponent_mask & all_occupancy_mask) == 1;
            }
            proof {
                crate::bitboard::lemma_pop_bound(knights, 64);
                crate::bitboard::lemma_pop_bound(bishops, 64);
            }
            if num_knights + num_bishops > 1 {
                return false;
            }
            i = i + 1;
        }
        true
    }

    /// The board as letters, rank 8 first: uppercase White, lowercase Black, spaces for empty
    /// squares.
    pub fn ascii_charboard(&self) -> (cb: Charboard)
        ensures
            forall|r: int, f: int| 0 <= r < 8 && 0 <= f < 8 ==> #[trigger] cb[r][f] == ascii_char(self.color(r * 8 + f), self.piece(r * 8 + f)),
    {
        let mut cb: Charboard = [[' '; 8]; 8];
        let mut i: usize = 0;
        while i < 64
            invariant
                i <= 64,
                forall|r: int, f: int| 0 <= r < 8 && 0 <= f < 8 && r * 8 + f < i ==> #[trigger] cb[r][f] == ascii_char(self.color(r * 8 + f), self.piece(r * 8 + f)),
            decreases 64 - i,
        {
            let square = Square::from_u8(i as u8);
            let piece = self.piece_at(square);
            let color = self.color_at(square);
            let c = match color {
                Color::White => piece.uppercase_ascii(),
                Color::Black => piece.lowercase_ascii(),
            };
            let mut row = cb[i / 8];
            row[i % 8] = c;
            cb[i / 8] = row;
            i = i + 1;
        }
        cb
    }

    /// The board as chess symbols, rank 8 first: outlined White, filled Black, spaces for empty
    /// squares.
    pub fn unicode_charboard(&self) -> (cb: Charboard)
        ensures
            forall|r: int, f: int| 0 <= r < 8 && 0 <= f < 8 ==> #[trigger] cb[r][f] == unicode_char(self.color(r * 8 + f), self.piece(r * 8 + f)),
    {
        let mut cb: Charboard = [[' '; 8]; 8];
        let mut i: usize = 0;
        while i < 64
            invariant
                i <= 64,
                forall|r: int, f: int| 0 <= r < 8 && 0 <= f < 8 && r * 8 + f < i ==> #[trigger] cb[r][f] == unicode_char(self.color(r * 8 + f), self.piece(r * 8 + f)),
            decreases 64 - i,
        {
            let square = Square::from_u8(i as u8);
            let piece = self.piece_at(square);
            let color = self.color_at(square);
            let c = match color {
                Color::White => piece.unfilled_unicode(),
                Color::Black => piece.filled_unicode(),
            };
            let mut row = cb[i / 8];
            row[i % 8] = c;
            cb[i / 8] = row;
            i = i + 1;
        }
        cb
    }

    /// The first piece kind (pawn .. king) whose mask holds `square`, `Null` if none does.
    fn first_kind_at(&self, square: Square) -> (p: Piece)
        ensures
            p == first_kind(*self, square.idx()),
    {
        let mask = square.mask();
        proof {
            let t = square.idx();
            crate::attacks::manual::lemma_single_meets(self.pm(1), t);
            crate::attacks::manual::lemma_single_meets(self.pm(2), t);
            crate::attacks::manual::lemma_single_meets(self.pm(3), t);
            crate::attacks::manual::lemma_single_meets(self.pm(4), t);
            crate::attacks::manual::lemma_single_meets(self.pm(5), t);
            crate::attacks::manual::lemma_single_meets(self.pm(6), t);
        }
        if self.piece_mask_at(Piece::Pawn) & mask != 0 {
            Piece::Pawn
        } else if self.piece_mask_at(Piece::Knight) & mask != 0 {
            Piece::Knight
        } else if self.piece_mask_at(Piece::Bishop) & mask != 0 {
            Piece::Bishop
        } else if self.piece_mask_at(Piece::Rook) & mask != 0 {
            Piece::Rook
        } else if self.piece_mask_at(Piece::Queen) & mask != 0 {
            Piece::Queen
        } else if self.piece_mask_at(Piece::King) & mask != 0 {
            Piece::King
        } else {
            Piece::Null
        }
    }

    /// Whether the masks and the mailbox agree: the colors are disjoint and cover exactly the
    /// occupied squares, the piece-kind masks are disjoint and cover exactly the occupied
    /// squares, and every square's mailbox entry is the kind whose mask holds it.
    #[verifier::rlimit(60)]
    pub fn is_consistent(&self) -> (r: bool)
        ensures
            r == self.wf(),
    {
        let white_mask = self.color_mask_at(Color::White);
        let black_mask = self.color_mask_at(Color::Black);
        if white_mask & black_mask != 0 {
            proof {
                lemma_empty_iff(white_mask & black_mask);
                let s = choose|s: int| 0 <= s < 64 && #[trigger] bb_has(white_mask & black_mask, s);
                assert(!self.square_ok(s));
            }
            return false;
        }
        proof {
            lemma_empty_iff(white_mask & black_mask);
            assert forall|s: int| 0 <= s < 64 implies !(#[trigger] bb_has(white_mask, s) && bb_has(black_mask, s)) by {
                assert(!bb_has(white_mask & black_mask, s));
            }
        }
        let all = self.pieces();
        if (white_mask | black_mask) != all {
            proof {
                lemma_neq_witness(white_mask | black_mask, all);
                let s = choose|s: int| 0 <= s < 64 && #[trigger] bb_has(white_mask | black_mask, s) != bb_has(all, s);
                assert(!self.square_ok(s));
            }
            return false;
        }
        let kinds = [Piece::Pawn, Piece::Knight, Piece::Bishop, Piece::Rook, Piece::Queen, Piece::King];
        let mut recon: u64 = 0;
        let mut i: usize = 0;
        while i < 6
            invariant
                i <= 6,
                kinds@ == seq![Piece::Pawn, Piece::Knight, Piece::Bishop, Piece::Rook, Piece::Queen, Piece::King],
                all == self.occ(),
                white_mask == self.cm(0),
                black_mask == self.cm(1),
                white_mask | black_mask == all,
                forall|s: int| 0 <= s < 64 ==> !(#[trigger] bb_has(white_mask, s) && bb_has(black_mask, s)),
                forall|s: int| 0 <= s < 64 ==> #[trigger] bb_has(recon, s) == exists|j: int| 1 <= j <= i && #[trigger] bb_has(self.pm(j), s),
                forall|s: int, j: int| 0 <= s < 64 && 1 <= j <= i && #[trigger] bb_has(self.pm(j), s) ==> bb_has(all, s),
                forall|s: int, j: int, k: int| 0 <= s < 64 && 1 <= j < k <= i && #[trigger] bb_has(self.pm(j), s) ==> !#[trigger] bb_has(self.pm(k), s),
            decreases 6 - i,
        {
            let piece = kinds[i];
            let piece_mask = self.piece_mask_at(piece);
            let ghost k = i + 1;
            assert(piece.idx() == k);
            if piece_mask & all != piece_mask {
                proof {
                    lemma_neq_witness(piece_mask & all, piece_mask);
                    let s = choose|s: int| 0 <= s < 64 && #[trigger] bb_has(piece_mask & all, s) != bb_has(piece_mask, s);
                    assert(!self.square_ok(s));
                    assert(!self.wf());
                }
                return false;
            }
            if (piece_mask & white_mask) | (piece_mask & black_mask) != piece_mask {
                proof {
                    lemma_neq_witness((piece_mask & white_mask) | (piece_mask & black_mask), piece_mask);
                    let s = choose|s: int| 0 <= s < 64 && #[trigger] bb_has((piece_mask & white_mask) | (piece_mask & black_mask), s) != bb_has(piece_mask, s);
                    assert(bb_has(piece_mask & all, s));
                }
                return false;
            }
            if piece_mask & recon != 0 {
                proof {
                    lemma_empty_iff(piece_mask & recon);
                    let s = choose|s: int| 0 <= s < 64 && #[trigger] bb_has(piece_mask & recon, s);
                    let j = choose|j: int| 1 <= j <= i && #[trigger] bb_has(self.pm(j), s);
                    assert(!self.square_ok(s)) by {
                        if self.square_ok(s) {
                            assert(bb_has(self.pm(j), s) == (self.piece(s).idx() == j));
                            assert(bb_has(self.pm(k), s) == (self.piece(s).idx() == k));
                        }
                    }
                }
                return false;
            }
            let ghost old_recon = recon;
            proof {
                lemma_empty_iff(piece_mask & recon);
            }
            recon = recon | piece_mask;
            proof {
                assert forall|s: int| 0 <= s < 64 implies #[trigger] bb_has(recon, s) == exists|j: int| 1 <= j <= k && #[trigger] bb_has(self.pm(j), s) by {
                    if bb_has(piece_mask, s) {
                        assert(bb_has(self.pm(k), s));
                    }
                    if exists|j: int| 1 <= j <= k && #[trigger] bb_has(self.pm(j), s) {
                        let j = choose|j: int| 1 <= j <= k && #[trigger] bb_has(self.pm(j), s);
                        if j < k {
                            assert(exists|j2: int| 1 <= j2 <= i && #[trigger] bb_has(self.pm(j2), s));
                        }
                    }
                }
                assert forall|s: int, j: int, k2: int| 0 <= s < 64 && 1 <= j < k2 <= k && #[trigger] bb_has(self.pm(j), s) implies !#[trigger] bb_has(self.pm(k2), s) by {
                    if k2 == k && bb_has(self.pm(k2), s) {
                        assert(exists|j2: int| 1 <= j2 <= i && #[trigger] bb_has(self.pm(j2), s));
                        assert(bb_has(old_recon, s));
                        assert(bb_has(piece_mask & old_recon, s));
                    }
                }
            }
            i = i + 1;
        }
        if recon != all {
            proof {
                lemma_neq_witness(recon, all);
                let s = choose|s: int| 0 <= s < 64 && #[trigger] bb_has(recon, s) != bb_has(all, s);
                assert(!self.square_ok(s)) by {
                    if self.square_ok(s) && bb_has(all, s) {
                        let j = self.piece(s).idx();
                        assert(bb_has(self.pm(j), s));
                    }
                }
            }
            return false;
        }
        let mut sq: u8 = 0;
        while sq < 64
            invariant
                sq <= 64,
                all == self.occ(),
                white_mask == self.cm(0),
                black_mask == self.cm(1),
                white_mask | black_mask == all,
                recon == all,
                forall|s: int| 0 <= s < 64 ==> !(#[trigger] bb_has(white_mask, s) && bb_has(black_mask, s)),
                forall|s: int| 0 <= s < 64 ==> #[trigger] bb_has(recon, s) == exists|j: int| 1 <= j <= 6 && #[trigger] bb_has(self.pm(j), s),
                forall|s: int, j: int, k: int| 0 <= s < 64 && 1 <= j < k <= 6 && #[trigger] bb_has(self.pm(j), s) ==> !#[trigger] bb_has(self.pm(k), s),
                forall|s: int| 0 <= s < sq ==> #[trigger] self.piece(s) == first_kind(*self, s),
            decreases 64 - sq,
        {
            let square = Square::from_u8(sq);
            if self.first_kind_at(square) != self.piece_at(square) {
                proof {
                    let s = sq as int;
                    assert(!self.square_ok(s)) by {
                        if self.square_ok(s) {
                            if self.piece(s) != Piece::Null {
                                assert(bb_has(self.pm(self.piece(s).idx()), s));
                            }
                        }
                    }
                }
                return false;
            }
            sq = sq + 1;
        }
        proof {
            assert forall|s: int| 0 <= s < 64 implies #[trigger] self.square_ok(s) by {
                assert(self.piece(s) == first_kind(*self, s));
                assert forall|i: int| 1 <= i < 7 implies #[trigger] bb_has(self.pm(i), s) == (self.piece(s).idx() == i) by {
                    if bb_has(self.pm(i), s) {
                        assert forall|j: int| 1 <= j < i implies !#[trigger] bb_has(self.pm(j), s) by {}
                    }
                }
                if bb_has(self.pm(0), s) {
                    let j = choose|j: int| 1 <= j <= 6 && #[trigger] bb_has(self.pm(j), s);
                }
            }
        }
        true
    }

    /// Whether the board has one king of each color and is consistent.
    pub fn is_unequivocally_valid(&self) -> (r: bool)
        ensures
            r == (pop(self.pm(6)) == 2 && pop(self.cm(0) & self.pm(6)) == 1 && self.wf()),
    {
        self.has_valid_kings() && self.is_consistent()
    }
}

/// Two different bitboards differ on some square.
pub proof fn lemma_neq_witness(x: u64, y: u64)
    requires
        x != y,
    ensures
        exists|s: int| 0 <= s < 64 && #[trigger] bb_has(x, s) != bb_has(y, s),
{
    if forall|s: int| 0 <= s < 64 ==> #[trigger] bb_has(x, s) == bb_has(y, s) {
        lemma_squares_ext(x, y);
    }
}

/// The piece kind whose mask holds square `s` on `b`, trying pawns up to kings; `Null` when no
/// mask holds it.
pub open spec fn kind_in_masks(b: Board, s: int) -> Piece {
    if bb_has(b.pm(1), s) {
        Piece::Pawn
    } else if bb_has(b.pm(2), s) {
        Piece::Knight
    } else if bb_has(b.pm(3), s) {
        Piece::Bishop
    } else if bb_has(b.pm(4), s) {
        Piece::Rook
    } else if bb_has(b.pm(5), s) {
        Piece::Queen
    } else if bb_has(b.pm(6), s) {
        Piece::King
    } else {
        Piece::Null
    }
}

/// The masks of `b` agree as whole bitboards: the two colors are disjoint and together are the
/// occupied squares, the six piece-kind masks are pairwise disjoint and together are the
/// occupied squares, and every square's mailbox entry is the kind whose mask holds it.
pub open spec fn masks_consistent(b: Board) -> bool {
    &&& b.cm(0) & b.cm(1) == 0
    &&& b.cm(0) | b.cm(1) == b.pm(0)
    &&& forall|i: int, j: int| 1 <= i < j < 7 ==> #[trigger] (b.pm(i) & b.pm(j)) == 0
    &&& b.pm(1) | b.pm(2) | b.pm(3) | b.pm(4) | b.pm(5) | b.pm(6) == b.pm(0)
    &&& forall|s: int| 0 <= s < 64 ==> #[trigger] b.piece(s) == kind_in_masks(b, s)
}

/// A board is consistent square by square exactly when its masks agree as whole bitboards.
pub proof fn lemma_wf_is_masks_consistent(b: Board)
    ensures
        b.wf() == masks_consistent(b),
{
    let u = b.pm(1) | b.pm(2) | b.pm(3) | b.pm(4) | b.pm(5) | b.pm(6);
    if b.wf() {
        assert forall|t: int| 0 <= t < 64 implies #[trigger] bb_has(b.cm(0) & b.cm(1), t) == bb_has(0u64, t) by {
            assert(b.square_ok(t));
        }
        lemma_squares_ext(b.cm(0) & b.cm(1), 0);
        assert forall|t: int| 0 <= t < 64 implies #[trigger] bb_has(b.cm(0) | b.cm(1), t) == bb_has(b.pm(0), t) by {
            assert(b.square_ok(t));
        }
        lemma_squares_ext(b.cm(0) | b.cm(1), b.pm(0));
        assert forall|i: int, j: int| 1 <= i < j < 7 implies #[trigger] (b.pm(i) & b.pm(j)) == 0 by {
            assert forall|t: int| 0 <= t < 64 implies #[trigger] bb_has(b.pm(i) & b.pm(j), t) == bb_has(0u64, t) by {
                assert(b.square_ok(t));
                assert(bb_has(b.pm(i), t) == (b.piece(t).idx() == i));
                assert(bb_has(b.pm(j), t) == (b.piece(t).idx() == j));
            }
            lemma_squares_ext(b.pm(i) & b.pm(j), 0);
        }
        assert forall|t: int| 0 <= t < 64 implies #[trigger] bb_has(u, t) == bb_has(b.pm(0), t) by {
            assert(b.square_ok(t));
            assert(bb_has(b.pm(1), t) == (b.piece(t).idx() == 1));
            assert(bb_has(b.pm(2), t) == (b.piece(t).idx() == 2));
            assert(bb_has(b.pm(3), t) == (b.piece(t).idx() == 3));
            assert(bb_has(b.pm(4), t) == (b.piece(t).idx() == 4));
            assert(bb_has(b.pm(5), t) == (b.piece(t).idx() == 5));
            assert(bb_has(b.pm(6), t) == (b.piece(t).idx() == 6));
        }
        lemma_squares_ext(u, b.pm(0));
        assert forall|t: int| 0 <= t < 64 implies #[trigger] b.piece(t) == kind_in_masks(b, t) by {
            assert(b.square_ok(t));
            assert(bb_has(b.pm(1), t) == (b.piece(t).idx() == 1));
            assert(bb_has(b.pm(2), t) == (b.piece(t).idx() == 2));
            assert(bb_has(b.pm(3), t) == (b.piece(t).idx() == 3));
            assert(bb_has(b.pm(4), t) == (b.piece(t).idx() == 4));
            assert(bb_has(b.pm(5), t) == (b.piece(t).idx() == 5));
            assert(bb_has(b.pm(6), t) == (b.piece(t).idx() == 6));
        }
    }
    if masks_consistent(b) {
        assert forall|t: int| 0 <= t < 64 implies #[trigger] b.square_ok(t) by {
            assert(bb_has(b.cm(0) & b.cm(1), t) == bb_has(0u64, t));
            assert(bb_has(b.cm(0) | b.cm(1), t) == bb_has(b.pm(0), t));
            assert(bb_has(u, t) == bb_has(b.pm(0), t));
            assert(b.piece(t) == kind_in_masks(b, t));
            assert forall|i: int, j: int| 1 <= i < j < 7 implies !(bb_has(b.pm(i), t) && bb_has(b.pm(j), t)) by {
                assert((b.pm(i) & b.pm(j)) == 0);
                assert(bb_has(b.pm(i) & b.pm(j), t) == bb_has(0u64, t));
            }
            assert forall|i: int| 1 <= i < 7 implies #[trigger] bb_has(b.pm(i), t) == (b.piece(t).idx() == i) by {
                assert forall|j: int| 1 <= j < 7 && j != i implies !(bb_has(b.pm(i), t) && bb_has(b.pm(j), t)) by {
                    if i < j {
                        assert((b.pm(i) & b.pm(j)) == 0);
                        assert(bb_has(b.pm(i) & b.pm(j), t) == bb_has(0u64, t));
                    } else {
                        assert((b.pm(j) & b.pm(i)) == 0);
                        assert(bb_has(b.pm(j) & b.pm(i), t) == bb_has(0u64, t));
                    }
                }
            }
        }
    }
}

/// Side `c` alone cannot force mate by its minor pieces: it has at most one bishop or knight in
/// all, or, under USCF rules, exactly two knights and no bishop against a side with a single
/// piece.
pub open spec fn minors_cannot_mate(b: Board, c: Color, uscf: bool) -> bool {
    let bishops = pop(b.pm(3) & b.cm(c.idx()));
    let knights = pop(b.pm(2) & b.cm(c.idx()));
    ||| bishops + knights <= 1
    ||| uscf && knights == 2 && bishops == 0 && pop(b.cm(c.opp().idx()) & b.pm(0)) == 1
}

/// Counting two disjoint parts of `d` counts no more than `d`.
proof fn lemma_pop_parts(a: u64, c: u64, d: u64, n: nat)
    requires
        n <= 64,
        forall|i: int| 0 <= i < 64 ==> !(#[trigger] bit(a, i) && bit(c, i)),
        forall|i: int| 0 <= i < 64 && #[trigger] bit(a, i) ==> bit(d, i),
        forall|i: int| 0 <= i < 64 && #[trigger] bit(c, i) ==> bit(d, i),
    ensures
        pop_upto(a, n) + pop_upto(c, n) <= pop_upto(d, n),
    decreases n,
{
    if n > 0 {
        lemma_pop_parts(a, c, d, (n - 1) as nat);
        assert(!(bit(a, n - 1) && bit(c, n - 1)));
    }
}

/// A side with a single piece has at most one bishop or knight.
proof fn lemma_single_piece_few_minors(b: Board, c: Color)
    requires
        b.wf(),
        pop(b.cm(c.idx()) & b.pm(0)) == 1,
    ensures
        pop(b.pm(3) & b.cm(c.idx())) + pop(b.pm(2) & b.cm(c.idx())) <= 1,
{
    let x = b.pm(3) & b.cm(c.idx());
    let y = b.pm(2) & b.cm(c.idx());
    let d = b.cm(c.idx()) & b.pm(0);
    assert forall|i: int| 0 <= i < 64 implies !(#[trigger] bit(x, i) && bit(y, i)) by {
        assert(bb_has(x, 63 - i) == bit(x, i));
        assert(bb_has(y, 63 - i) == bit(y, i));
        assert(b.square_ok(63 - i));
    }
    assert forall|i: int| 0 <= i < 64 && #[trigger] bit(x, i) implies bit(d, i) by {
        assert(bb_has(x, 63 - i) == bit(x, i));
        assert(bb_has(d, 63 - i) == bit(d, i));
        assert(b.square_ok(63 - i));
    }
    assert forall|i: int| 0 <= i < 64 && #[trigger] bit(y, i) implies bit(d, i) by {
        assert(bb_has(y, 63 - i) == bit(y, i));
        assert(bb_has(d, 63 - i) == bit(d, i));
        assert(b.square_ok(63 - i));
    }
    lemma_pop_parts(x, y, d, 64);
}

/// Insufficient material, in terms of the pieces on the board: neither side has a pawn, rook
/// or queen, and neither side's minor pieces can force mate (at most one bishop or knight, or
/// under USCF rules two knights against a lone piece).
pub proof fn lemma_insufficient_material_law(b: Board, uscf: bool)
    requires
        b.wf(),
    ensures
        insufficient(b, uscf) <==> (b.pm(1) == 0 && b.pm(4) == 0 && b.pm(5) == 0 && minors_cannot_mate(
            b,
            Color::White,
            uscf,
        ) && minors_cannot_mate(b, Color::Black, uscf)),
{
    let p = b.pm(1);
    let r = b.pm(4);
    let q = b.pm(5);
    assert((p | r | q == 0) == (p == 0 && r == 0 && q == 0)) by (bit_vector);
    if pop(b.cm(Color::Black.idx()) & b.pm(0)) == 1 {
        lemma_single_piece_few_minors(b, Color::Black);
    }
    if pop(b.cm(Color::White.idx()) & b.pm(0)) == 1 {
        lemma_single_piece_few_minors(b, Color::White);
    }
}

} // verus!
