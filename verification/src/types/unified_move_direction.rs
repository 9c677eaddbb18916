//! A queen-like and a knight-like direction packed in one byte.
use vstd::prelude::*;
use crate::types::{KnightMoveDirection, QueenLikeMoveDirection};

verus! {

/// A direction packed in a byte: the low four bits hold a queen-like direction (or 15 for
/// none), the high four bits a knight jump (or 15 for none).
#[derive(Clone, Copy, PartialEq, Eq, Debug, Structural)]
pub struct UnifiedMoveDirection {
    pub value: u8,
}

/// Low nibble of `v`.
pub open spec fn low_nibble(v: u8) -> int {
    v as int % 16
}

/// High nibble of `v`.
pub open spec fn high_nibble(v: u8) -> int {
    v as int / 16
}

impl UnifiedMoveDirection {
    /// Neither a queen-like nor a knight-like direction.
    pub fn null() -> (u: UnifiedMoveDirection)
        ensures
            u.value == 0xFF,
            u.wf(),
    {
        UnifiedMoveDirection { value: 0xFF }
    }

    /// Each nibble holds a direction (0 .. 7) or the empty marker 15.
    pub open spec fn wf(self) -> bool {
        (low_nibble(self.value) < 8 || low_nibble(self.value) == 15) && (high_nibble(self.value)
            < 8 || high_nibble(self.value) == 15)
    }

    /// The packed form of a queen-like direction.
    pub fn from_queen_like(move_direction: QueenLikeMoveDirection) -> (u: UnifiedMoveDirection)
        ensures
            u.wf(),
            low_nibble(u.value) == move_direction.idx(),
            high_nibble(u.value) == 15,
    {
        UnifiedMoveDirection { value: 0xF0 + move_direction as u8 }
    }

    /// The packed form of a knight jump.
    pub fn from_knight_like(move_direction: KnightMoveDirection) -> (u: UnifiedMoveDirection)
        ensures
            u.wf(),
            high_nibble(u.value) == move_direction.idx(),
            low_nibble(u.value) == 15,
    {
        UnifiedMoveDirection { value: (move_direction as u8) * 16 + 0x0F }
    }

    /// The queen-like direction held in the low nibble, if any.
    pub fn as_queen_like(&self) -> (r: Option<QueenLikeMoveDirection>)
        requires
            self.wf(),
        ensures
            r is None <==> low_nibble(self.value) == 15,
            r matches Some(d) ==> d.idx() == low_nibble(self.value),
    {
        let value = self.value % 16;
        if value == 15 {
            None
        } else {
            Some(QueenLikeMoveDirection::from_u8(value))
        }
    }

    /// The queen-like direction held in the low nibble, which must hold one.
    pub fn as_queen_like_unchecked(&self) -> (d: QueenLikeMoveDirection)
        requires
            low_nibble(self.value) < 8,
        ensures
            d.idx() == low_nibble(self.value),
    {
        QueenLikeMoveDirection::from_u8(self.value % 16)
    }

    /// The knight jump held in the high nibble, if any.
    pub fn as_knight_like(&self) -> (r: Option<KnightMoveDirection>)
        requires
            self.wf(),
        ensures
            r is None <==> high_nibble(self.value) == 15,
            r matches Some(d) ==> d.idx() == high_nibble(self.value),
    {
        let value = self.value / 16;
        if value == 15 {
            None
        } else {
            Some(KnightMoveDirection::from_u8(value))
        }
    }

    /// The knight jump held in the high nibble, which must hold one.
    pub fn as_knight_like_unchecked(&self) -> (d: KnightMoveDirection)
        requires
            high_nibble(self.value) < 8,
        ensures
            d.idx() == high_nibble(self.value),
    {
        KnightMoveDirection::from_u8(self.value / 16)
    }

    /// Whether neither nibble holds a direction.
    pub fn is_null(&self) -> (r: bool)
        ensures
            r == (self.value == 0xFF),
    {
        self.value == 0xFF
    }
}

} // verus!
