//! Ranks 1-8.
use vstd::prelude::*;
use crate::bitboard::{bb_has, sq_bit, group_has, lemma_has_file, lemma_has_rank, lemma_leading_square};
use crate::types::Color;
use crate::types::square::sq_rank;

verus! {

/// A rank. `One` is White's back rank; the index is 0 for `One` .. 7 for `Eight`.
#[derive(Clone, Copy, PartialEq, Eq, Debug, Hash, Structural)]
pub enum Rank {
    One,
    Two,
    Three,
    Four,
    Five,
    Six,
    Seven,
    Eight,
}

impl Rank {
    /// Every rank, from first to eighth.
    pub const ALL: [Rank; 8] = [
        Rank::One,
        Rank::Two,
        Rank::Three,
        Rank::Four,
        Rank::Five,
        Rank::Six,
        Rank::Seven,
        Rank::Eight,
    ];

    /// Index of the rank, 0 (first) .. 7 (eighth).
    pub open spec fn idx(self) -> int {
        self as int
    }

    /// Index of the rank, 0 (first) .. 7 (eighth).
    pub fn index(self) -> (r: u8)
        ensures
            r as int == self.idx(),
            r < 8,
    {
        self as u8
    }

    /// The rank with index `value`, or `None` when `value` is 8 or more.
    pub fn from_index(value: u8) -> (r: Option<Rank>)
        ensures
            value < 8 <==> r is Some,
            r matches Some(k) ==> k.idx() == value,
    {
        match value {
            0 => Some(Rank::One),
            1 => Some(Rank::Two),
            2 => Some(Rank::Three),
            3 => Some(Rank::Four),
            4 => Some(Rank::Five),
            5 => Some(Rank::Six),
            6 => Some(Rank::Seven),
            7 => Some(Rank::Eight),
            _ => None,
        }
    }

    /// The rank with index `value`.
    pub fn from_u8(value: u8) -> (r: Rank)
        requires
            value < 8,
        ensures
            r.idx() == value,
    {
        match Self::from_index(value) {
            Some(k) => k,
            None => Rank::One,
        }
    }

    /// Bitboard of the eight squares of this rank.
    pub fn mask(self) -> (m: u64)
        ensures
            forall|s: int| 0 <= s < 64 ==> #[trigger] bb_has(m, s) == (sq_rank(s) == self.idx()),
    {
        let k = self as u8 as u64;
        let m = 0xFFu64 << (k * 8);
        proof {
            assert forall|s: int| 0 <= s < 64 implies #[trigger] bb_has(m, s) == (sq_rank(s)
                == self.idx()) by {
                lemma_has_rank(k, s);
            }
        }
        m
    }

    /// The rank seen from the other side of the board (rank 1 <-> rank 8).
    pub fn mirrored(self) -> (r: Rank)
        ensures
            r.idx() == 7 - self.idx(),
    {
        Self::from_u8(7 - self as u8)
    }

    /// This rank as seen by `color`: unchanged for White, mirrored for Black.
    pub fn from_perspective(self, color: Color) -> (r: Rank)
        ensures
            r.idx() == (if color == Color::White {
                self.idx()
            } else {
                7 - self.idx()
            }),
    {
        match color {
            Color::White => self,
            Color::Black => self.mirrored(),
        }
    }
}

} // verus!
