//! Move classification.
use vstd::prelude::*;

verus! {

/// The kind of a move.
#[derive(Clone, Copy, PartialEq, Eq, Debug, Hash, Structural)]
pub enum MoveFlag {
    /// Ordinary move, captures included.
    NormalMove,
    /// Pawn promotion.
    Promotion,
    /// En passant capture.
    EnPassant,
    /// Castling; the flank is given by the king's destination.
    Castling,
}

impl MoveFlag {
    /// The value of the flag, 0 .. 3.
    pub open spec fn idx(self) -> int {
        self as int
    }

    /// The flag with value `value`.
    pub fn from(value: u8) -> (f: MoveFlag)
        requires
            value < 4,
        ensures
            f.idx() == value,
    {
        match value {
            0 => MoveFlag::NormalMove,
            1 => MoveFlag::Promotion,
            2 => MoveFlag::EnPassant,
            _ => MoveFlag::Castling,
        }
    }

    /// A short label for debugging output.
    pub fn to_readable(&self) -> (s: &'static str)
        ensures
            s@ == readable_flag(*self),
    {
        match self {
            MoveFlag::NormalMove => "",
            MoveFlag::Promotion => "[P to ?]",
            MoveFlag::EnPassant => "[e.p.]",
            MoveFlag::Castling => "[castling]",
        }
    }
}

/// The debugging label of a flag.
pub open spec fn readable_flag(f: MoveFlag) -> Seq<char> {
    match f {
        MoveFlag::NormalMove => ""@,
        MoveFlag::Promotion => "[P to ?]"@,
        MoveFlag::EnPassant => "[e.p.]"@,
        MoveFlag::Castling => "[castling]"@,
    }
}

} // verus!
