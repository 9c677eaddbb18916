//! Piece colors and the side to move.
use vstd::prelude::*;
use crate::types::{Rank, Square};

verus! {

/// Chess color (White/Black), used for pieces and for the side to move.
#[derive(Clone, Copy, PartialEq, Eq, Debug, Hash, Structural)]
pub enum Color {
    /// White pieces / White to move.
    White,
    /// Black pieces / Black to move.
    Black,
}

impl Color {
    /// Both colors, White first.
    pub const ALL: [Color; 2] = [Color::White, Color::Black];

    /// Index of the color: 0 for White, 1 for Black.
    pub open spec fn idx(self) -> int {
        self as int
    }

    /// The opposite color.
    pub open spec fn opp(self) -> Color {
        match self {
            Color::White => Color::Black,
            Color::Black => Color::White,
        }
    }

    /// Index of the color: 0 for White, 1 for Black.
    pub fn index(self) -> (r: u8)
        ensures
            r as int == self.idx(),
            r < 2,
    {
        self as u8
    }

    /// Converts from a boolean: `false` is White, `true` is Black.
    pub fn from_is_black(is_black: bool) -> (c: Color)
        ensures
            c == (if is_black {
                Color::Black
            } else {
                Color::White
            }),
    {
        if is_black {
            Color::Black
        } else {
            Color::White
        }
    }

    /// The opposite color (White <-> Black).
    pub fn other(self) -> (c: Color)
        ensures
            c == self.opp(),
    {
        match self {
            Color::White => Color::Black,
            Color::Black => Color::White,
        }
    }

    /// Initial king square for this color (e1 for White, e8 for Black).
    pub fn king_initial_square(self) -> (s: Square)
        ensures
            s == (if self == Color::White {
                Square::E1
            } else {
                Square::E8
            }),
    {
        match self {
            Color::White => Square::E1,
            Color::Black => Square::E8,
        }
    }

    /// The rank on which pawns of this color can capture en passant.
    pub fn en_passant_capture_rank(self) -> (r: Rank)
        ensures
            r == (if self == Color::White {
                Rank::Five
            } else {
                Rank::Four
            }),
    {
        match self {
            Color::White => Rank::Five,
            Color::Black => Rank::Four,
        }
    }
}

} // verus!
