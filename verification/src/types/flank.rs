//! The two sides of the board for castling.
use vstd::prelude::*;
use crate::bitboard::{bb_has, sq_bit, group_has, lemma_has_file, lemma_has_rank, lemma_leading_square};
use crate::types::{Color, Square};

verus! {

broadcast use group_has;

/// Kingside (files e-h) or queenside (files a-d).
#[derive(Clone, Copy, PartialEq, Eq, Debug, Hash, Structural)]
pub enum Flank {
    Kingside,
    Queenside,
}

/// Index of the home rank's first square: 56 for White (a1), 0 for Black (a8).
pub open spec fn home_base(color: Color) -> int {
    if color == Color::White {
        56
    } else {
        0
    }
}

/// Castling-rights bit of `flank` for `color`: K = 8, Q = 4, k = 2, q = 1.
pub open spec fn rights_bit(flank: Flank, color: Color) -> u8 {
    match (color, flank) {
        (Color::White, Flank::Kingside) => 8u8,
        (Color::White, Flank::Queenside) => 4u8,
        (Color::Black, Flank::Kingside) => 2u8,
        (Color::Black, Flank::Queenside) => 1u8,
    }
}

/// File of the square the king lands on when castling on `flank`.
pub open spec fn king_dst_file(flank: Flank) -> int {
    if flank == Flank::Kingside {
        6
    } else {
        2
    }
}

/// File of the rook's square before castling on `flank`.
pub open spec fn rook_src_file(flank: Flank) -> int {
    if flank == Flank::Kingside {
        7
    } else {
        0
    }
}

/// File of the rook's square after castling on `flank`.
pub open spec fn rook_dst_file(flank: Flank) -> int {
    if flank == Flank::Kingside {
        5
    } else {
        3
    }
}

/// The squares between king and rook (files f-g kingside, b-d queenside) on the home rank.
pub open spec fn gap_square(flank: Flank, color: Color, s: int) -> bool {
    let f = s - home_base(color);
    if flank == Flank::Kingside {
        f == 5 || f == 6
    } else {
        f == 1 || f == 2 || f == 3
    }
}

/// The squares the king stands on, crosses or lands on (files e-g kingside, c-e queenside).
pub open spec fn path_square(flank: Flank, color: Color, s: int) -> bool {
    let f = s - home_base(color);
    if flank == Flank::Kingside {
        f == 4 || f == 5 || f == 6
    } else {
        f == 2 || f == 3 || f == 4
    }
}

impl Flank {
    /// Both flanks, kingside first.
    pub const ALL: [Flank; 2] = [Flank::Kingside, Flank::Queenside];

    /// Queenside when `is_queenside`, kingside otherwise.
    pub fn from_bool(is_queenside: bool) -> (f: Flank)
        ensures
            f == (if is_queenside {
                Flank::Queenside
            } else {
                Flank::Kingside
            }),
    {
        if is_queenside {
            Flank::Queenside
        } else {
            Flank::Kingside
        }
    }

    /// The castling-rights bit of this flank for `color` (K = 8, Q = 4, k = 2, q = 1).
    pub fn rights_mask(self, color: Color) -> (m: u8)
        ensures
            m == rights_bit(self, color),
    {
        match (color, self) {
            (Color::White, Flank::Kingside) => 8,
            (Color::White, Flank::Queenside) => 4,
            (Color::Black, Flank::Kingside) => 2,
            (Color::Black, Flank::Queenside) => 1,
        }
    }

    /// The square the king of `color` lands on when castling on this flank.
    pub fn king_castled_square(self, color: Color) -> (s: Square)
        ensures
            s.idx() == home_base(color) + king_dst_file(self),
    {
        match (color, self) {
            (Color::White, Flank::Kingside) => Square::G1,
            (Color::White, Flank::Queenside) => Square::C1,
            (Color::Black, Flank::Kingside) => Square::G8,
            (Color::Black, Flank::Queenside) => Square::C8,
        }
    }

    /// Bitboard of the squares between king and rook, which must be empty to castle.
    pub fn castling_gap_mask(self, color: Color) -> (m: u64)
        ensures
            forall|s: int| 0 <= s < 64 ==> #[trigger] bb_has(m, s) == gap_square(self, color, s),
    {
        let base = match color {
            Color::White => 56u8,
            Color::Black => 0u8,
        };
        let m = match self {
            Flank::Kingside => Square::from_u8(base + 5).mask() | Square::from_u8(base + 6).mask(),
            Flank::Queenside => Square::from_u8(base + 1).mask() | Square::from_u8(base + 2).mask()
                | Square::from_u8(base + 3).mask(),
        };
        proof {
        }
        m
    }

    /// Bitboard of the squares the king stands on, crosses and lands on; none of them may be
    /// attacked to castle.
    pub fn king_path_mask(self, color: Color) -> (m: u64)
        ensures
            forall|s: int| 0 <= s < 64 ==> #[trigger] bb_has(m, s) == path_square(self, color, s),
    {
        let base = match color {
            Color::White => 56u8,
            Color::Black => 0u8,
        };
        let m = match self {
            Flank::Kingside => Square::from_u8(base + 4).mask() | Square::from_u8(base + 5).mask()
                | Square::from_u8(base + 6).mask(),
            Flank::Queenside => Square::from_u8(base + 2).mask() | Square::from_u8(base + 3).mask()
                | Square::from_u8(base + 4).mask(),
        };
        proof {
        }
        m
    }
}

} // verus!
