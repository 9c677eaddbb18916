//! Moves and move lists.
use vstd::prelude::*;
use crate::types::{MoveFlag, Piece, Square};

verus! {

/// A move: origin and destination square, kind, and (for promotions) the promotion piece.
/// Moves that do not promote carry `Piece::Null`.
#[derive(Clone, Copy, PartialEq, Eq, Debug, Hash, Structural)]
pub struct Move {
    from: Square,
    to: Square,
    flag: MoveFlag,
    promotion: Piece,
}

impl Move {
    /// Origin square.
    pub closed spec fn from_spec(self) -> Square {
        self.from
    }

    /// Destination square.
    pub closed spec fn to_spec(self) -> Square {
        self.to
    }

    /// Kind of the move.
    pub closed spec fn flag_spec(self) -> MoveFlag {
        self.flag
    }

    /// Promotion piece (`Null` unless the move promotes).
    pub closed spec fn promotion_spec(self) -> Piece {
        self.promotion
    }

    /// Moves with the same squares, kind and promotion piece are equal.
    pub proof fn lemma_ext(a: Move, b: Move)
        requires
            a.from_spec() == b.from_spec(),
            a.to_spec() == b.to_spec(),
            a.flag_spec() == b.flag_spec(),
            a.promotion_spec() == b.promotion_spec(),
        ensures
            a == b,
    {
    }

    /// A move that does not promote.
    pub fn new_non_promotion(from: Square, to: Square, flag: MoveFlag) -> (m: Move)
        ensures
            m.from_spec() == from,
            m.to_spec() == to,
            m.flag_spec() == flag,
            m.promotion_spec() == Piece::Null,
    {
        Move { from, to, flag, promotion: Piece::Null }
    }

    /// A promotion to `promotion`.
    pub fn new_promotion(from: Square, to: Square, promotion: Piece) -> (m: Move)
        ensures
            m.from_spec() == from,
            m.to_spec() == to,
            m.flag_spec() == MoveFlag::Promotion,
            m.promotion_spec() == promotion,
    {
        Move { from, to, flag: MoveFlag::Promotion, promotion }
    }

    /// Origin square.
    pub fn from(&self) -> (s: Square)
        ensures
            s == self.from_spec(),
    {
        self.from
    }

    /// Destination square.
    pub fn to(&self) -> (s: Square)
        ensures
            s == self.to_spec(),
    {
        self.to
    }

    /// Kind of the move.
    pub fn flag(&self) -> (f: MoveFlag)
        ensures
            f == self.flag_spec(),
    {
        self.flag
    }

    /// Promotion piece (`Null` unless the move promotes).
    pub fn promotion(&self) -> (p: Piece)
        ensures
            p == self.promotion_spec(),
    {
        self.promotion
    }
}

/// A growable list of moves.
#[derive(Clone, Debug)]
pub struct MoveList {
    moves: Vec<Move>,
}

impl View for MoveList {
    type V = Seq<Move>;

    closed spec fn view(&self) -> Seq<Move> {
        self.moves@
    }
}

impl MoveList {
    /// An empty list.
    pub fn new() -> (l: MoveList)
        ensures
            l@ == Seq::<Move>::empty(),
    {
        MoveList { moves: Vec::new() }
    }

    /// Appends a move.
    pub fn push(&mut self, m: Move)
        ensures
            final(self)@ == old(self)@.push(m),
    {
        self.moves.push(m);
    }

    /// Appends every move of `ms`, in order.
    pub fn push_all(&mut self, ms: &[Move])
        ensures
            final(self)@ == old(self)@ + ms@,
    {
        let mut i: usize = 0;
        while i < ms.len()
            invariant
                i <= ms@.len(),
                self@ == old(self)@ + ms@.subrange(0, i as int),
            decreases ms@.len() - i,
        {
            self.moves.push(ms[i]);
            proof {
                assert(ms@.subrange(0, (i + 1) as int) == ms@.subrange(0, i as int).push(ms@[i as int]));
            }
            i = i + 1;
        }
        proof {
            assert(ms@.subrange(0, ms@.len() as int) == ms@);
        }
    }

    /// Number of moves.
    pub fn len(&self) -> (n: usize)
        ensures
            n == self@.len(),
    {
        self.moves.len()
    }

    /// Whether the list has no moves.
    pub fn is_empty(&self) -> (b: bool)
        ensures
            b == (self@.len() == 0),
    {
        self.moves.len() == 0
    }

    /// Removes every move.
    pub fn clear(&mut self)
        ensures
            final(self)@ == Seq::<Move>::empty(),
    {
        self.moves.clear();
    }

    /// The move at position `i`.
    pub fn get(&self, i: usize) -> (m: Move)
        requires
            i < self@.len(),
        ensures
            m == self@[i as int],
    {
        self.moves[i]
    }

    /// The moves as a slice.
    pub fn as_slice(&self) -> (s: &[Move])
        ensures
            s@ == self@,
    {
        self.moves.as_slice()
    }
}

} // verus!
