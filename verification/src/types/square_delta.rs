//! Signed steps between square indices.
use vstd::prelude::*;
use crate::types::Color;

verus! {

/// A signed difference of square indices (8 is one rank down, 1 is one file right).
pub type SquareDelta = i8;

/// Named steps between square indices.
pub trait SquareDeltaUtils {
    /// The step, negated for Black.
    fn for_perspective(self, color: Color) -> (r: Self)
        requires
            -64 < Self::as_int(self) < 64,
        ensures
            Self::as_int(r) == (if color == Color::White {
                Self::as_int(self)
            } else {
                -Self::as_int(self)
            }),
    ;

    /// The step as an integer.
    spec fn as_int(self) -> int;
}

impl SquareDeltaUtils for SquareDelta {
    fn for_perspective(self, color: Color) -> (r: SquareDelta) {
        match color {
            Color::White => self,
            Color::Black => -self,
        }
    }

    open spec fn as_int(self) -> int {
        self as int
    }
}

/// One rank up.
pub const UP: SquareDelta = -8;

/// One rank down.
pub const DOWN: SquareDelta = 8;

/// One file left.
pub const LEFT: SquareDelta = -1;

/// One file right.
pub const RIGHT: SquareDelta = 1;

/// One rank up and one file left.
pub const UP_LEFT: SquareDelta = -9;

/// One rank down and one file left.
pub const DOWN_LEFT: SquareDelta = 7;

/// One rank up and one file right.
pub const UP_RIGHT: SquareDelta = -7;

/// One rank down and one file right.
pub const DOWN_RIGHT: SquareDelta = 9;

} // verus!
