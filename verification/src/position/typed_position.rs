//! A position tagged with its side to move, for boundaries such as FEN and PGN.
use vstd::prelude::*;
use crate::types::Color;
use crate::fen::{FenParseError, fen_error, fen_describes};
use crate::position::state::{Position, ZobristPolicy, WithZobrist};

verus! {

/// A position whose variant names the side to move.
#[derive(Clone, Debug, PartialEq, Eq)]
pub enum TypedPosition<Z: ZobristPolicy = WithZobrist> {
    /// White is to move.
    White(Position<Z>),
    /// Black is to move.
    Black(Position<Z>),
}

impl<Z: ZobristPolicy> TypedPosition<Z> {
    /// The wrapped position.
    pub open spec fn held(self) -> Position<Z> {
        match self {
            TypedPosition::White(p) => p,
            TypedPosition::Black(p) => p,
        }
    }

    /// The variant names the side to move of the wrapped position.
    pub open spec fn tag_ok(self) -> bool {
        match self {
            TypedPosition::White(p) => p.stm() == Color::White,
            TypedPosition::Black(p) => p.stm() == Color::Black,
        }
    }

    /// Parses a FEN string and tags the position with its side to move.
    pub fn from_fen(fen: &str) -> (r: Result<Self, FenParseError>)
        ensures
            match r {
                Ok(t) => fen_error(fen@) is None && fen_describes(fen@, t.held()) && t.tag_ok(),
                Err(e) => fen_error(fen@) == Some(e),
            },
    {
        match Position::<Z>::from_fen(fen) {
            Ok(p) => {
                if p.side_to_move() == Color::White {
                    Ok(TypedPosition::White(p))
                } else {
                    Ok(TypedPosition::Black(p))
                }
            },
            Err(e) => Err(e),
        }
    }

    /// Hands the position to `white` or to `black`, according to the side to move.
    pub fn with_ref<R, FW, FB>(&self, white: FW, black: FB) -> (r: R) where
        FW: FnOnce(&Position<Z>) -> R,
        FB: FnOnce(&Position<Z>) -> R,

        requires
            match *self {
                TypedPosition::White(p) => white.requires((&p,)),
                TypedPosition::Black(p) => black.requires((&p,)),
            },
        ensures
            match *self {
                TypedPosition::White(p) => white.ensures((&p,), r),
                TypedPosition::Black(p) => black.ensures((&p,), r),
            },
    {
        match self {
            TypedPosition::White(p) => white(p),
            TypedPosition::Black(p) => black(p),
        }
    }

    /// Hands the position, mutably, to `white` or to `black`, according to the side to move.
    pub fn with_mut<R, FW, FB>(&mut self, white: FW, black: FB) -> (r: R) where
        FW: FnOnce(&mut Position<Z>) -> R,
        FB: FnOnce(&mut Position<Z>) -> R,

        requires
            match *old(self) {
                TypedPosition::White(p) => forall|x: &mut Position<Z>| *x == p ==> #[trigger] white.requires((x,)),
                TypedPosition::Black(p) => forall|x: &mut Position<Z>| *x == p ==> #[trigger] black.requires((x,)),
            },
        ensures
            match *old(self) {
                TypedPosition::White(p) => exists|x: &mut Position<Z>| *x == p && #[trigger] white.ensures((x,), r) && *final(self) == TypedPosition::White(*final(x)),
                TypedPosition::Black(p) => exists|x: &mut Position<Z>| *x == p && #[trigger] black.ensures((x,), r) && *final(self) == TypedPosition::Black(*final(x)),
            },
    {
        match self {
            TypedPosition::White(p) => white(p),
            TypedPosition::Black(p) => black(p),
        }
    }

    /// Consumes the wrapper and hands the position to `white` or to `black`, according to the
    /// side to move.
    pub fn into_inner<R, FW, FB>(self, white: FW, black: FB) -> (r: R) where
        FW: FnOnce(Position<Z>) -> R,
        FB: FnOnce(Position<Z>) -> R,

        requires
            match self {
                TypedPosition::White(p) => white.requires((p,)),
                TypedPosition::Black(p) => black.requires((p,)),
            },
        ensures
            match self {
                TypedPosition::White(p) => white.ensures((p,), r),
                TypedPosition::Black(p) => black.ensures((p,), r),
            },
    {
        match self {
            TypedPosition::White(p) => white(p),
            TypedPosition::Black(p) => black(p),
        }
    }
}

} // verus!
