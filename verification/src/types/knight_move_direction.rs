//! The eight directions a knight jumps in.
use vstd::prelude::*;
use crate::types::Square;
use crate::types::square::{sq_rank, sq_file};

verus! {

/// A knight jump. Declared in value order, so opposite jumps have values that add up to 7.
#[derive(Clone, Copy, PartialEq, Eq, Debug, Hash, Structural)]
pub enum KnightMoveDirection {
    TwoUpOneRight,
    TwoRightOneUp,
    TwoRightOneDown,
    TwoDownOneRight,
    TwoUpOneLeft,
    TwoLeftOneUp,
    TwoLeftOneDown,
    TwoDownOneLeft,
}

/// Rank change of the jump `d`.
pub open spec fn knight_dr(d: KnightMoveDirection) -> int {
    match d {
        KnightMoveDirection::TwoUpOneRight | KnightMoveDirection::TwoUpOneLeft => 2,
        KnightMoveDirection::TwoRightOneUp | KnightMoveDirection::TwoLeftOneUp => 1,
        KnightMoveDirection::TwoRightOneDown | KnightMoveDirection::TwoLeftOneDown => -1,
        _ => -2,
    }
}

/// File change of the jump `d`.
pub open spec fn knight_df(d: KnightMoveDirection) -> int {
    match d {
        KnightMoveDirection::TwoRightOneUp | KnightMoveDirection::TwoRightOneDown => 2,
        KnightMoveDirection::TwoUpOneRight | KnightMoveDirection::TwoDownOneRight => 1,
        KnightMoveDirection::TwoUpOneLeft | KnightMoveDirection::TwoDownOneLeft => -1,
        _ => -2,
    }
}

/// `b` is a knight's jump away from `a`.
pub open spec fn knight_jump(a: int, b: int) -> bool {
    let dr = sq_rank(b) - sq_rank(a);
    let df = sq_file(b) - sq_file(a);
    (dr == 1 || dr == -1) && (df == 2 || df == -2) || (dr == 2 || dr == -2) && (df == 1 || df
        == -1)
}

impl KnightMoveDirection {
    /// Every jump.
    pub const ALL: [KnightMoveDirection; 8] = [
        KnightMoveDirection::TwoUpOneRight,
        KnightMoveDirection::TwoDownOneLeft,
        KnightMoveDirection::TwoRightOneUp,
        KnightMoveDirection::TwoLeftOneDown,
        KnightMoveDirection::TwoRightOneDown,
        KnightMoveDirection::TwoLeftOneUp,
        KnightMoveDirection::TwoDownOneRight,
        KnightMoveDirection::TwoUpOneLeft,
    ];

    /// The value of the jump, 0 .. 7.
    pub open spec fn idx(self) -> int {
        self as int
    }

    /// The jump with value `value`.
    pub fn from_u8(value: u8) -> (d: KnightMoveDirection)
        requires
            value < 8,
        ensures
            d.idx() == value,
    {
        match value {
            0 => KnightMoveDirection::TwoUpOneRight,
            1 => KnightMoveDirection::TwoRightOneUp,
            2 => KnightMoveDirection::TwoRightOneDown,
            3 => KnightMoveDirection::TwoDownOneRight,
            4 => KnightMoveDirection::TwoUpOneLeft,
            5 => KnightMoveDirection::TwoLeftOneUp,
            6 => KnightMoveDirection::TwoLeftOneDown,
            _ => KnightMoveDirection::TwoDownOneLeft,
        }
    }

    /// The jump in the opposite direction.
    pub fn opposite(&self) -> (d: KnightMoveDirection)
        ensures
            knight_dr(d) == -knight_dr(*self),
            knight_df(d) == -knight_df(*self),
            d.idx() == 7 - self.idx(),
    {
        Self::from_u8(7 - (*self as u8))
    }

    /// The jump from `src_square` to `dst_square`, or `None` when they are not a knight's
    /// jump apart.
    pub fn calc(src_square: Square, dst_square: Square) -> (r: Option<KnightMoveDirection>)
        ensures
            r is Some <==> knight_jump(src_square.idx(), dst_square.idx()),
            r matches Some(d) ==> sq_rank(dst_square.idx()) == sq_rank(src_square.idx())
                + knight_dr(d) && sq_file(dst_square.idx()) == sq_file(src_square.idx())
                + knight_df(d),
    {
        let dr = (7 - (dst_square.index() / 8) as i16) - (7 - (src_square.index() / 8) as i16);
        let df = (dst_square.index() % 8) as i16 - (src_square.index() % 8) as i16;
        if dr == 2 && df == 1 {
            Some(KnightMoveDirection::TwoUpOneRight)
        } else if dr == 1 && df == 2 {
            Some(KnightMoveDirection::TwoRightOneUp)
        } else if dr == -1 && df == 2 {
            Some(KnightMoveDirection::TwoRightOneDown)
        } else if dr == -2 && df == 1 {
            Some(KnightMoveDirection::TwoDownOneRight)
        } else if dr == 2 && df == -1 {
            Some(KnightMoveDirection::TwoUpOneLeft)
        } else if dr == 1 && df == -2 {
            Some(KnightMoveDirection::TwoLeftOneUp)
        } else if dr == -1 && df == -2 {
            Some(KnightMoveDirection::TwoLeftOneDown)
        } else if dr == -2 && df == -1 {
            Some(KnightMoveDirection::TwoDownOneLeft)
        } else {
            None
        }
    }

    /// The jump from `src_square` to `dst_square`, or `None` when there is none.
    pub fn lookup(src_square: Square, dst_square: Square) -> (r: Option<KnightMoveDirection>)
        ensures
            r is Some <==> knight_jump(src_square.idx(), dst_square.idx()),
            r matches Some(d) ==> sq_rank(dst_square.idx()) == sq_rank(src_square.idx())
                + knight_dr(d) && sq_file(dst_square.idx()) == sq_file(src_square.idx())
                + knight_df(d),
    {
        Self::calc(src_square, dst_square)
    }
}

} // verus!
