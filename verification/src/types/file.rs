//! Files a-h.
use vstd::prelude::*;
use crate::bitboard::{bb_has, sq_bit, group_has, lemma_has_file, lemma_has_rank, lemma_leading_square};
use crate::types::Flank;
use crate::types::square::sq_file;

verus! {

/// A file. The index is 0 for `A` .. 7 for `H`.
#[derive(Clone, Copy, PartialEq, Eq, Debug, Hash, Structural)]
pub enum File {
    A,
    B,
    C,
    D,
    E,
    F,
    G,
    H,
}

impl File {
    /// Every file, from a to h.
    pub const ALL: [File; 8] = [
        File::A,
        File::B,
        File::C,
        File::D,
        File::E,
        File::F,
        File::G,
        File::H,
    ];

    /// Index of the file, 0 (a) .. 7 (h).
    pub open spec fn idx(self) -> int {
        self as int
    }

    /// Index of the file, 0 (a) .. 7 (h).
    pub fn index(self) -> (r: u8)
        ensures
            r as int == self.idx(),
            r < 8,
    {
        self as u8
    }

    /// The file with index `value`, or `None` when `value` is 8 or more.
    pub fn from_index(value: u8) -> (r: Option<File>)
        ensures
            value < 8 <==> r is Some,
            r matches Some(f) ==> f.idx() == value,
    {
        match value {
            0 => Some(File::A),
            1 => Some(File::B),
            2 => Some(File::C),
            3 => Some(File::D),
            4 => Some(File::E),
            5 => Some(File::F),
            6 => Some(File::G),
            7 => Some(File::H),
            _ => None,
        }
    }

    /// The file with index `file`.
    pub fn from_u8(file: u8) -> (r: File)
        requires
            file < 8,
        ensures
            r.idx() == file,
    {
        match Self::from_index(file) {
            Some(f) => f,
            None => File::A,
        }
    }

    /// Bitboard of the eight squares of this file.
    pub fn mask(self) -> (m: u64)
        ensures
            forall|s: int| 0 <= s < 64 ==> #[trigger] bb_has(m, s) == (sq_file(s) == self.idx()),
    {
        let k = self as u8 as u64;
        let m = 0x8080_8080_8080_8080u64 >> k;
        proof {
            assert forall|s: int| 0 <= s < 64 implies #[trigger] bb_has(m, s) == (sq_file(s)
                == self.idx()) by {
                lemma_has_file(k, s);
            }
        }
        m
    }

    /// The side of the board this file lies on: files a-d are the queenside.
    pub fn flank(self) -> (r: Flank)
        ensures
            r == (if self.idx() <= 3 {
                Flank::Queenside
            } else {
                Flank::Kingside
            }),
    {
        Flank::from_bool((self as u8) <= (File::D as u8))
    }
}

} // verus!
