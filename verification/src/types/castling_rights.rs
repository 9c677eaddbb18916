//! Castling rights (KQkq) as one of sixteen values.
use vstd::prelude::*;
use crate::types::{Color, Flank, Square};
use crate::types::flank::rights_bit;

verus! {

/// The sixteen combinations of the castling rights KQkq. The value of a variant is the
/// rights nibble: K = 8, Q = 4, k = 2, q = 1.
#[derive(Clone, Copy, PartialEq, Eq, Debug, Hash, Structural)]
pub enum CastlingRights {
    B0000,
    B0001,
    B0010,
    B0011,
    B0100,
    B0101,
    B0110,
    B0111,
    B1000,
    B1001,
    B1010,
    B1011,
    B1100,
    B1101,
    B1110,
    B1111,
}

/// The rights that survive a move from or to the square with index `s`: moving the king off
/// e1/e8 or a rook off (or capturing one on) a1, h1, a8, h8 clears the matching rights.
pub open spec fn rights_kept(s: int) -> u8 {
    if s == 60 {
        0b0011u8
    } else if s == 4 {
        0b1100u8
    } else if s == 56 {
        0b1011u8
    } else if s == 63 {
        0b0111u8
    } else if s == 0 {
        0b1110u8
    } else if s == 7 {
        0b1101u8
    } else {
        0b1111u8
    }
}

impl CastlingRights {
    /// No rights.
    pub const NONE: CastlingRights = CastlingRights::B0000;

    /// Every combination, in value order.
    pub const ALL: [CastlingRights; 16] = [
        CastlingRights::B0000,
        CastlingRights::B0001,
        CastlingRights::B0010,
        CastlingRights::B0011,
        CastlingRights::B0100,
        CastlingRights::B0101,
        CastlingRights::B0110,
        CastlingRights::B0111,
        CastlingRights::B1000,
        CastlingRights::B1001,
        CastlingRights::B1010,
        CastlingRights::B1011,
        CastlingRights::B1100,
        CastlingRights::B1101,
        CastlingRights::B1110,
        CastlingRights::B1111,
    ];

    /// The rights nibble.
    pub open spec fn value(self) -> u8 {
        self as u8
    }

    /// The rights with the given nibble; bits above the low four are ignored.
    pub fn from_bits(bits: u8) -> (r: CastlingRights)
        ensures
            r.value() == bits % 16,
    {
        match bits % 16 {
            0 => CastlingRights::B0000,
            1 => CastlingRights::B0001,
            2 => CastlingRights::B0010,
            3 => CastlingRights::B0011,
            4 => CastlingRights::B0100,
            5 => CastlingRights::B0101,
            6 => CastlingRights::B0110,
            7 => CastlingRights::B0111,
            8 => CastlingRights::B1000,
            9 => CastlingRights::B1001,
            10 => CastlingRights::B1010,
            11 => CastlingRights::B1011,
            12 => CastlingRights::B1100,
            13 => CastlingRights::B1101,
            14 => CastlingRights::B1110,
            _ => CastlingRights::B1111,
        }
    }

    /// The rights nibble.
    pub fn bits(self) -> (b: u8)
        ensures
            b == self.value(),
            b < 16,
    {
        self as u8
    }

    /// Whether `color` may still castle on `flank`.
    pub fn has(self, flank: Flank, color: Color) -> (r: bool)
        ensures
            r == (self.value() & rights_bit(flank, color) != 0),
    {
        self.bits() & flank.rights_mask(color) != 0
    }

    /// Whether any right in the nibble `mask` is held.
    pub fn intersects(self, mask: u8) -> (r: bool)
        ensures
            r == (self.value() & mask != 0),
    {
        self.bits() & mask != 0
    }

    /// The rights left after a move from or to `affected_square`. Applied for both squares of
    /// a move, this clears the rights lost by a king leaving home, a rook leaving its corner
    /// and a rook captured on its corner.
    pub fn after_move(self, affected_square: Square) -> (r: CastlingRights)
        ensures
            r.value() == self.value() & rights_kept(affected_square.idx()),
    {
        let keep: u8 = match affected_square {
            Square::E1 => 0b0011,
            Square::E8 => 0b1100,
            Square::A1 => 0b1011,
            Square::H1 => 0b0111,
            Square::A8 => 0b1110,
            Square::H8 => 0b1101,
            _ => 0b1111,
        };
        let v = self.bits();
        let b = v & keep;
        proof {
            assert(b < 16) by (bit_vector)
                requires
                    b == v & keep,
                    v < 16,
            ;
        }
        Self::from_bits(b)
    }
}

} // verus!
