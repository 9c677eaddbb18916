//! The eight directions a queen moves in.
use vstd::prelude::*;
use crate::types::Square;
use crate::types::square::{sq_rank, sq_file, same_line, same_line_spec};

verus! {

/// A queen-like direction. Declared in value order, so opposite directions have values that
/// add up to 7.
#[derive(Clone, Copy, PartialEq, Eq, Debug, Hash, Structural)]
pub enum QueenLikeMoveDirection {
    Up,
    UpRight,
    Right,
    DownRight,
    UpLeft,
    Left,
    DownLeft,
    Down,
}

/// Rank change of one step in `d`.
pub open spec fn dir_dr(d: QueenLikeMoveDirection) -> int {
    match d {
        QueenLikeMoveDirection::Up | QueenLikeMoveDirection::UpRight
        | QueenLikeMoveDirection::UpLeft => 1,
        QueenLikeMoveDirection::Down | QueenLikeMoveDirection::DownRight
        | QueenLikeMoveDirection::DownLeft => -1,
        _ => 0,
    }
}

/// File change of one step in `d`.
pub open spec fn dir_df(d: QueenLikeMoveDirection) -> int {
    match d {
        QueenLikeMoveDirection::Right | QueenLikeMoveDirection::UpRight
        | QueenLikeMoveDirection::DownRight => 1,
        QueenLikeMoveDirection::Left | QueenLikeMoveDirection::UpLeft
        | QueenLikeMoveDirection::DownLeft => -1,
        _ => 0,
    }
}

/// `n` times `unit` (a unit is -1, 0 or 1).
pub open spec fn scale(unit: int, n: int) -> int {
    if unit == 1 {
        n
    } else if unit == -1 {
        -n
    } else {
        0
    }
}

/// `n` steps in direction `d` lead from `src` to `dst`.
pub open spec fn ray_reaches(src: int, dst: int, d: QueenLikeMoveDirection, n: int) -> bool {
    sq_rank(dst) == sq_rank(src) + scale(dir_dr(d), n) && sq_file(dst) == sq_file(src) + scale(
        dir_df(d),
        n,
    )
}

impl QueenLikeMoveDirection {
    /// Every direction.
    pub const ALL: [QueenLikeMoveDirection; 8] = [
        QueenLikeMoveDirection::Up,
        QueenLikeMoveDirection::Down,
        QueenLikeMoveDirection::UpRight,
        QueenLikeMoveDirection::DownLeft,
        QueenLikeMoveDirection::Right,
        QueenLikeMoveDirection::Left,
        QueenLikeMoveDirection::DownRight,
        QueenLikeMoveDirection::UpLeft,
    ];

    /// The value of the direction, 0 .. 7.
    pub open spec fn idx(self) -> int {
        self as int
    }

    /// The direction with value `value`.
    pub fn from_u8(value: u8) -> (d: QueenLikeMoveDirection)
        requires
            value < 8,
        ensures
            d.idx() == value,
    {
        match value {
            0 => QueenLikeMoveDirection::Up,
            1 => QueenLikeMoveDirection::UpRight,
            2 => QueenLikeMoveDirection::Right,
            3 => QueenLikeMoveDirection::DownRight,
            4 => QueenLikeMoveDirection::UpLeft,
            5 => QueenLikeMoveDirection::Left,
            6 => QueenLikeMoveDirection::DownLeft,
            _ => QueenLikeMoveDirection::Down,
        }
    }

    /// The opposite direction.
    pub fn opposite(&self) -> (d: QueenLikeMoveDirection)
        ensures
            dir_dr(d) == -dir_dr(*self),
            dir_df(d) == -dir_df(*self),
            d.idx() == 7 - self.idx(),
    {
        Self::from_u8(7 - (*self as u8))
    }

    /// The direction from `src_square` to `dst_square` and (in `distance_output`) the number
    /// of steps between them. The squares must share a rank, file or diagonal; for equal
    /// squares the distance is 0.
    pub fn calc(src_square: Square, dst_square: Square, distance_output: &mut u8) -> (d:
        QueenLikeMoveDirection)
        requires
            same_line_spec(src_square.idx(), dst_square.idx()),
        ensures
            ray_reaches(src_square.idx(), dst_square.idx(), d, *final(distance_output) as int),
            *final(distance_output) < 8,
    {
        let rs = 7 - (src_square.index() / 8) as i16;
        let fs = (src_square.index() % 8) as i16;
        let rd = 7 - (dst_square.index() / 8) as i16;
        let fd = (dst_square.index() % 8) as i16;
        let dr = rd - rs;
        let df = fd - fs;
        if df == 0 {
            if dr >= 0 {
                *distance_output = dr as u8;
                QueenLikeMoveDirection::Up
            } else {
                *distance_output = (-dr) as u8;
                QueenLikeMoveDirection::Down
            }
        } else if dr == 0 {
            if df > 0 {
                *distance_output = df as u8;
                QueenLikeMoveDirection::Right
            } else {
                *distance_output = (-df) as u8;
                QueenLikeMoveDirection::Left
            }
        } else if dr == df {
            if dr > 0 {
                *distance_output = dr as u8;
                QueenLikeMoveDirection::UpRight
            } else {
                *distance_output = (-dr) as u8;
                QueenLikeMoveDirection::DownLeft
            }
        } else if dr > 0 {
            assert(df == -dr);
            *distance_output = dr as u8;
            QueenLikeMoveDirection::UpLeft
        } else {
            assert(df == -dr);
            *distance_output = (-dr) as u8;
            QueenLikeMoveDirection::DownRight
        }
    }

    /// The direction from `src_square` to `dst_square` when they share a rank, file or
    /// diagonal and differ; `None` otherwise.
    pub fn lookup(src_square: Square, dst_square: Square) -> (r: Option<QueenLikeMoveDirection>)
        ensures
            (r is Some) == (src_square != dst_square && same_line_spec(
                src_square.idx(),
                dst_square.idx(),
            )),
            r matches Some(d) ==> exists|n: int|
                1 <= n < 8 && #[trigger] ray_reaches(src_square.idx(), dst_square.idx(), d, n),
    {
        if src_square.index() == dst_square.index() || !same_line(src_square, dst_square) {
            return None;
        }
        let mut n: u8 = 0;
        let d = Self::calc(src_square, dst_square, &mut n);
        proof {
            if n == 0 {
                assert(src_square.idx() == dst_square.idx());
            }
            assert(ray_reaches(src_square.idx(), dst_square.idx(), d, n as int));
        }
        Some(d)
    }
}

} // verus!
