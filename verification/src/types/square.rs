//! The 64 squares and their geometry.
use vstd::prelude::*;
use crate::bitboard::{bb_has, sq_bit, group_has, lemma_has_file, lemma_has_rank, lemma_leading_square};
use crate::types::{File, Rank, QueenLikeMoveDirection, SquareDelta};
use crate::types::queen_like_move_direction::{dir_dr, dir_df};

verus! {

broadcast use group_has;

/// A square of the board. Squares are declared in index order a8, b8, .., h8, a7, .., h1, so
/// the index of a square (0 = a8 .. 63 = h1) is its discriminant.
#[derive(Clone, Copy, PartialEq, Eq, Debug, Hash, Structural)]
pub enum Square {
    A8,
    B8,
    C8,
    D8,
    E8,
    F8,
    G8,
    H8,
    A7,
    B7,
    C7,
    D7,
    E7,
    F7,
    G7,
    H7,
    A6,
    B6,
    C6,
    D6,
    E6,
    F6,
    G6,
    H6,
    A5,
    B5,
    C5,
    D5,
    E5,
    F5,
    G5,
    H5,
    A4,
    B4,
    C4,
    D4,
    E4,
    F4,
    G4,
    H4,
    A3,
    B3,
    C3,
    D3,
    E3,
    F3,
    G3,
    H3,
    A2,
    B2,
    C2,
    D2,
    E2,
    F2,
    G2,
    H2,
    A1,
    B1,
    C1,
    D1,
    E1,
    F1,
    G1,
    H1,
}

/// File (0 = a .. 7 = h) of the square with index `s`.
pub open spec fn sq_file(s: int) -> int {
    s % 8
}

/// Rank (0 = first rank .. 7 = eighth rank) of the square with index `s`.
pub open spec fn sq_rank(s: int) -> int {
    7 - s / 8
}

/// Index of the square on `rank` and `file`.
pub open spec fn sq_at(rank: int, file: int) -> int {
    (7 - rank) * 8 + file
}

/// The coordinates `(rank, file)` lie on the board.
pub open spec fn on_board(rank: int, file: int) -> bool {
    0 <= rank < 8 && 0 <= file < 8
}

/// The square reached from `s` by `dr` ranks up and `df` files right, if it is on the board.
pub open spec fn step(s: int, dr: int, df: int) -> Option<int> {
    if on_board(sq_rank(s) + dr, sq_file(s) + df) {
        Some(sq_at(sq_rank(s) + dr, sq_file(s) + df))
    } else {
        None
    }
}

/// `a` and `b` share a rank.
pub open spec fn same_rank(a: int, b: int) -> bool {
    sq_rank(a) == sq_rank(b)
}

/// `a` and `b` share a file.
pub open spec fn same_file(a: int, b: int) -> bool {
    sq_file(a) == sq_file(b)
}

/// `a` and `b` share a diagonal running from a1 towards h8.
pub open spec fn same_diag(a: int, b: int) -> bool {
    sq_rank(b) - sq_rank(a) == sq_file(b) - sq_file(a)
}

/// `a` and `b` share a diagonal running from h1 towards a8.
pub open spec fn same_anti_diag(a: int, b: int) -> bool {
    sq_rank(b) - sq_rank(a) == sq_file(a) - sq_file(b)
}

/// `a` and `b` share a rank, a file or a diagonal (every square is on a line with itself).
pub open spec fn same_line_spec(a: int, b: int) -> bool {
    same_rank(a, b) || same_file(a, b) || same_diag(a, b) || same_anti_diag(a, b)
}

/// `x` lies strictly between `lo` and `hi`, in either order.
pub open spec fn strictly_between(x: int, lo: int, hi: int) -> bool {
    (lo < x < hi) || (hi < x < lo)
}

/// `t` lies strictly between the distinct squares `a` and `b` on the line they share.
pub open spec fn between_spec(a: int, b: int, t: int) -> bool {
    a != b && ((same_rank(a, b) && same_rank(a, t) && strictly_between(
        sq_file(t),
        sq_file(a),
        sq_file(b),
    )) || (same_file(a, b) && same_file(a, t) && strictly_between(
        sq_rank(t),
        sq_rank(a),
        sq_rank(b),
    )) || (same_diag(a, b) && !same_rank(a, b) && same_diag(a, t) && strictly_between(
        sq_rank(t),
        sq_rank(a),
        sq_rank(b),
    )) || (same_anti_diag(a, b) && !same_rank(a, b) && same_anti_diag(a, t)
        && strictly_between(sq_rank(t), sq_rank(a), sq_rank(b))))
}

/// `t` lies on the whole line (edge to edge) through `a` and `b`; for `a == b` every line
/// through `a` counts.
pub open spec fn line_spec(a: int, b: int, t: int) -> bool {
    (same_rank(a, b) && same_rank(a, t)) || (same_file(a, b) && same_file(a, t)) || (same_diag(
        a,
        b,
    ) && same_diag(a, t)) || (same_anti_diag(a, b) && same_anti_diag(a, t))
}

/// Rank of the square with index `s`, computed.
fn rank_of(s: u8) -> (r: i16)
    requires
        s < 64,
    ensures
        r == sq_rank(s as int),
        0 <= r < 8,
{
    7 - (s / 8) as i16
}

/// File of the square with index `s`, computed.
fn file_of(s: u8) -> (r: i16)
    requires
        s < 64,
    ensures
        r == sq_file(s as int),
        0 <= r < 8,
{
    (s % 8) as i16
}

fn is_strictly_between(x: i16, lo: i16, hi: i16) -> (r: bool)
    ensures
        r == strictly_between(x as int, lo as int, hi as int),
{
    (lo < x && x < hi) || (hi < x && x < lo)
}

/// Bitboard of the squares strictly between `a` and `b` when they share a rank, file or
/// diagonal; empty otherwise.
pub fn between(a: Square, b: Square) -> (m: u64)
    ensures
        forall|t: int| 0 <= t < 64 ==> #[trigger] bb_has(m, t) == between_spec(a.idx(), b.idx(), t),
{
    let ai = a.index();
    let bi = b.index();
    let (ra, fa, rb, fb) = (rank_of(ai), file_of(ai), rank_of(bi), file_of(bi));
    let mut m: u64 = 0;
    let mut t: u8 = 0;
    while t < 64
        invariant
            t <= 64,
            ai == a.idx(),
            bi == b.idx(),
            ai < 64,
            bi < 64,
            ra == sq_rank(ai as int),
            fa == sq_file(ai as int),
            rb == sq_rank(bi as int),
            fb == sq_file(bi as int),
            forall|u: int| 0 <= u < 64 ==> #[trigger] bb_has(m, u) == (u < t && between_spec(
                ai as int,
                bi as int,
                u,
            )),
        decreases 64 - t,
    {
        let rt = rank_of(t);
        let ft = file_of(t);
        let inside = ai != bi && ((ra == rb && ra == rt && is_strictly_between(ft, fa, fb)) || (
        fa == fb && fa == ft && is_strictly_between(rt, ra, rb)) || (rb - ra == fb - fa && ra
            != rb && rt - ra == ft - fa && is_strictly_between(rt, ra, rb)) || (rb - ra == fa
            - fb && ra != rb && rt - ra == fa - ft && is_strictly_between(rt, ra, rb)));
        if inside {
            m = m | Square::from_u8(t).mask();
        }
        t = t + 1;
    }
    m
}

/// Bitboard of the whole line (edge to edge) through `a` and `b`; empty when they share no
/// line.
pub fn edge_to_edge_ray(a: Square, b: Square) -> (m: u64)
    ensures
        forall|t: int| 0 <= t < 64 ==> #[trigger] bb_has(m, t) == line_spec(a.idx(), b.idx(), t),
{
    let ai = a.index();
    let bi = b.index();
    let (ra, fa, rb, fb) = (rank_of(ai), file_of(ai), rank_of(bi), file_of(bi));
    let mut m: u64 = 0;
    let mut t: u8 = 0;
    while t < 64
        invariant
            t <= 64,
            ai == a.idx(),
            bi == b.idx(),
            ai < 64,
            bi < 64,
            ra == sq_rank(ai as int),
            fa == sq_file(ai as int),
            rb == sq_rank(bi as int),
            fb == sq_file(bi as int),
            forall|u: int| 0 <= u < 64 ==> #[trigger] bb_has(m, u) == (u < t && line_spec(
                ai as int,
                bi as int,
                u,
            )),
        decreases 64 - t,
    {
        let rt = rank_of(t);
        let ft = file_of(t);
        let on_line = (ra == rb && ra == rt) || (fa == fb && fa == ft) || (rb - ra == fb - fa
            && rt - ra == ft - fa) || (rb - ra == fa - fb && rt - ra == fa - ft);
        if on_line {
            m = m | Square::from_u8(t).mask();
        }
        t = t + 1;
    }
    m
}

/// Whether `b` lies on a rank, file or diagonal through `a`.
pub fn same_line(a: Square, b: Square) -> (r: bool)
    ensures
        r == same_line_spec(a.idx(), b.idx()),
{
    let ai = a.index();
    let bi = b.index();
    let (ra, fa, rb, fb) = (rank_of(ai), file_of(ai), rank_of(bi), file_of(bi));
    ra == rb || fa == fb || rb - ra == fb - fa || rb - ra == fa - fb
}

impl Square {
    /// The index of the square, 0 (a8) .. 63 (h1).
    pub open spec fn idx(self) -> int {
        self as int
    }

    /// Squares with the same index are the same square.
    pub proof fn lemma_idx_injective(a: Square, b: Square)
        requires
            a.idx() == b.idx(),
        ensures
            a == b,
    {
    }

    /// Every square, in index order.
    pub const ALL: [Square; 64] = [
        Square::A8,
        Square::B8,
        Square::C8,
        Square::D8,
        Square::E8,
        Square::F8,
        Square::G8,
        Square::H8,
        Square::A7,
        Square::B7,
        Square::C7,
        Square::D7,
        Square::E7,
        Square::F7,
        Square::G7,
        Square::H7,
        Square::A6,
        Square::B6,
        Square::C6,
        Square::D6,
        Square::E6,
        Square::F6,
        Square::G6,
        Square::H6,
        Square::A5,
        Square::B5,
        Square::C5,
        Square::D5,
        Square::E5,
        Square::F5,
        Square::G5,
        Square::H5,
        Square::A4,
        Square::B4,
        Square::C4,
        Square::D4,
        Square::E4,
        Square::F4,
        Square::G4,
        Square::H4,
        Square::A3,
        Square::B3,
        Square::C3,
        Square::D3,
        Square::E3,
        Square::F3,
        Square::G3,
        Square::H3,
        Square::A2,
        Square::B2,
        Square::C2,
        Square::D2,
        Square::E2,
        Square::F2,
        Square::G2,
        Square::H2,
        Square::A1,
        Square::B1,
        Square::C1,
        Square::D1,
        Square::E1,
        Square::F1,
        Square::G1,
        Square::H1,
    ];

    /// The index of the square.
    pub fn index(self) -> (r: u8)
        ensures
            r as int == self.idx(),
            r < 64,
    {
        self as u8
    }

    /// The square with index `value`, or `None` when `value` is 64 or more.
    pub fn from_index(value: u8) -> (r: Option<Square>)
        ensures
            value < 64 <==> r is Some,
            r matches Some(s) ==> s.idx() == value,
    {
        match value {
            0 => Some(Square::A8),
            1 => Some(Square::B8),
            2 => Some(Square::C8),
            3 => Some(Square::D8),
            4 => Some(Square::E8),
            5 => Some(Square::F8),
            6 => Some(Square::G8),
            7 => Some(Square::H8),
            8 => Some(Square::A7),
            9 => Some(Square::B7),
            10 => Some(Square::C7),
            11 => Some(Square::D7),
            12 => Some(Square::E7),
            13 => Some(Square::F7),
            14 => Some(Square::G7),
            15 => Some(Square::H7),
            16 => Some(Square::A6),
            17 => Some(Square::B6),
            18 => Some(Square::C6),
            19 => Some(Square::D6),
            20 => Some(Square::E6),
            21 => Some(Square::F6),
            22 => Some(Square::G6),
            23 => Some(Square::H6),
            24 => Some(Square::A5),
            25 => Some(Square::B5),
            26 => Some(Square::C5),
            27 => Some(Square::D5),
            28 => Some(Square::E5),
            29 => Some(Square::F5),
            30 => Some(Square::G5),
            31 => Some(Square::H5),
            32 => Some(Square::A4),
            33 => Some(Square::B4),
            34 => Some(Square::C4),
            35 => Some(Square::D4),
            36 => Some(Square::E4),
            37 => Some(Square::F4),
            38 => Some(Square::G4),
            39 => Some(Square::H4),
            40 => Some(Square::A3),
            41 => Some(Square::B3),
            42 => Some(Square::C3),
            43 => Some(Square::D3),
            44 => Some(Square::E3),
            45 => Some(Square::F3),
            46 => Some(Square::G3),
            47 => Some(Square::H3),
            48 => Some(Square::A2),
            49 => Some(Square::B2),
            50 => Some(Square::C2),
            51 => Some(Square::D2),
            52 => Some(Square::E2),
            53 => Some(Square::F2),
            54 => Some(Square::G2),
            55 => Some(Square::H2),
            56 => Some(Square::A1),
            57 => Some(Square::B1),
            58 => Some(Square::C1),
            59 => Some(Square::D1),
            60 => Some(Square::E1),
            61 => Some(Square::F1),
            62 => Some(Square::G1),
            63 => Some(Square::H1),
            _ => None,
        }
    }

    /// The square with index `value`.
    pub fn from_u8(value: u8) -> (r: Square)
        requires
            value < 64,
        ensures
            r.idx() == value,
    {
        match Self::from_index(value) {
            Some(s) => s,
            None => Square::A8,
        }
    }

    /// The single square of a bitboard with exactly one square; `None` when the bitboard is
    /// empty or holds several squares.
    pub fn from_bitboard(bitboard: u64) -> (r: Option<Square>)
        ensures
            r matches Some(s) ==> bitboard == sq_bit(s.idx()),
            r is None ==> forall|s: int| 0 <= s < 64 ==> bitboard != #[trigger] sq_bit(s),
    {
        if bitboard == 0 {
            proof {
                assert forall|s: int| 0 <= s < 64 implies 0u64 != #[trigger] sq_bit(s) by {
                    assert(bb_has(sq_bit(s), s));
                }
            }
            return None;
        }
        proof {
            lemma_leading_square(bitboard);
            vstd::std_specs::bits::axiom_u64_leading_zeros(bitboard);
        }
        let lz = bitboard.leading_zeros();
        let value = lz as u8;
        let single = 1u64 << (63 - value);
        if bitboard == single {
            Some(Self::from_u8(value))
        } else {
            proof {
                assert forall|s: int| 0 <= s < 64 implies bitboard != #[trigger] sq_bit(s) by {
                    if bitboard == sq_bit(s) {
                        assert(bb_has(bitboard, lz as int));
                        assert(bb_has(bitboard, s));
                        assert(lz == s);
                    }
                }
            }
            None
        }
    }

    /// The square on `rank` and `file`.
    pub fn from_rank_and_file(rank: Rank, file: File) -> (r: Square)
        ensures
            r.idx() == sq_at(rank.idx(), file.idx()),
    {
        Self::from_u8((7 - rank.index()) * 8 + file.index())
    }

    /// The bitboard holding only this square.
    pub fn mask(self) -> (m: u64)
        ensures
            m == sq_bit(self.idx()),
    {
        1u64 << (63 - self.index())
    }

    /// The file of this square.
    pub fn file(self) -> (f: File)
        ensures
            f.idx() == sq_file(self.idx()),
    {
        File::from_u8(self.index() % 8)
    }

    /// The rank of this square.
    pub fn rank(self) -> (r: Rank)
        ensures
            r.idx() == sq_rank(self.idx()),
    {
        Rank::from_u8(7 - self.index() / 8)
    }

    /// Bitboard of the rank and the file through this square.
    pub fn orthogonals_mask(self) -> (m: u64)
        ensures
            forall|t: int| 0 <= t < 64 ==> #[trigger] bb_has(m, t) == (same_rank(self.idx(), t)
                || same_file(self.idx(), t)),
    {
        self.file().mask() | self.rank().mask()
    }

    /// Bitboard of both diagonals through this square (the square itself included).
    pub fn diagonals_mask(self) -> (m: u64)
        ensures
            forall|t: int| 0 <= t < 64 ==> #[trigger] bb_has(m, t) == (same_diag(self.idx(), t)
                || same_anti_diag(self.idx(), t)),
    {
        let s = self.index();
        let (rs, fs) = (rank_of(s), file_of(s));
        let mut m: u64 = 0;
        let mut t: u8 = 0;
        while t < 64
            invariant
                t <= 64,
                s == self.idx(),
                s < 64,
                rs == sq_rank(s as int),
                fs == sq_file(s as int),
                forall|u: int| 0 <= u < 64 ==> #[trigger] bb_has(m, u) == (u < t && (same_diag(
                    s as int,
                    u,
                ) || same_anti_diag(s as int, u))),
            decreases 64 - t,
        {
            let rt = rank_of(t);
            let ft = file_of(t);
            if rt - rs == ft - fs || rt - rs == fs - ft {
                m = m | Square::from_u8(t).mask();
            }
            t = t + 1;
        }
        m
    }

    /// Bitboard of the rank, the file and both diagonals through this square.
    pub fn orthogonals_and_diagonals_mask(self) -> (m: u64)
        ensures
            forall|t: int| 0 <= t < 64 ==> #[trigger] bb_has(m, t) == same_line_spec(self.idx(), t),
    {
        self.orthogonals_mask() | self.diagonals_mask()
    }

    /// True if `other` lies on either diagonal through this square.
    pub fn is_diagonal_to(self, other: Square) -> (r: bool)
        ensures
            r == (same_diag(self.idx(), other.idx()) || same_anti_diag(self.idx(), other.idx())),
    {
        let (ra, fa) = (rank_of(self.index()), file_of(self.index()));
        let (rb, fb) = (rank_of(other.index()), file_of(other.index()));
        rb - ra == fb - fa || rb - ra == fa - fb
    }

    /// True if `other` is on the same rank, file or diagonal as this square.
    pub fn is_on_same_line_as(self, other: Square) -> (r: bool)
        ensures
            r == same_line_spec(self.idx(), other.idx()),
    {
        same_line(self, other)
    }

    /// The square whose index is this square's index plus `delta`, or `None` when that is off
    /// the index range 0..64 (the file may wrap around).
    pub fn relative(self, delta: SquareDelta) -> (r: Option<Square>)
        ensures
            (0 <= self.idx() + delta < 64) <==> r is Some,
            r matches Some(s) ==> s.idx() == self.idx() + delta,
    {
        let idx = self.index() as i16 + delta as i16;
        if idx >= 0 && idx <= 63 {
            Some(Self::from_u8(idx as u8))
        } else {
            None
        }
    }

    /// The square `dr` ranks up and `df` files right, when on the board.
    fn offset(self, dr: i16, df: i16) -> (r: Option<Square>)
        requires
            -8 <= dr <= 8,
            -8 <= df <= 8,
        ensures
            r matches Some(s) ==> step(self.idx(), dr as int, df as int) == Some(s.idx()),
            r is None ==> step(self.idx(), dr as int, df as int) is None,
    {
        let r = rank_of(self.index()) + dr;
        let f = file_of(self.index()) + df;
        if 0 <= r && r < 8 && 0 <= f && f < 8 {
            Some(Self::from_u8(((7 - r) * 8 + f) as u8))
        } else {
            None
        }
    }

    /// The square above this one (towards rank 8), or `None` on the top edge.
    pub fn up(self) -> (r: Option<Square>)
        ensures
            r matches Some(s) ==> step(self.idx(), 1, 0) == Some(s.idx()),
            r is None ==> step(self.idx(), 1, 0) is None,
    {
        self.offset(1, 0)
    }

    /// The square below this one (towards rank 1), or `None` on the bottom edge.
    pub fn down(self) -> (r: Option<Square>)
        ensures
            r matches Some(s) ==> step(self.idx(), -1, 0) == Some(s.idx()),
            r is None ==> step(self.idx(), -1, 0) is None,
    {
        self.offset(-1, 0)
    }

    /// The square to the left (towards file a), or `None` on the left edge.
    pub fn left(self) -> (r: Option<Square>)
        ensures
            r matches Some(s) ==> step(self.idx(), 0, -1) == Some(s.idx()),
            r is None ==> step(self.idx(), 0, -1) is None,
    {
        self.offset(0, -1)
    }

    /// The square to the right (towards file h), or `None` on the right edge.
    pub fn right(self) -> (r: Option<Square>)
        ensures
            r matches Some(s) ==> step(self.idx(), 0, 1) == Some(s.idx()),
            r is None ==> step(self.idx(), 0, 1) is None,
    {
        self.offset(0, 1)
    }

    /// The square diagonally up and left, or `None` at either edge.
    pub fn up_left(self) -> (r: Option<Square>)
        ensures
            r matches Some(s) ==> step(self.idx(), 1, -1) == Some(s.idx()),
            r is None ==> step(self.idx(), 1, -1) is None,
    {
        self.offset(1, -1)
    }

    /// The square diagonally up and right, or `None` at either edge.
    pub fn up_right(self) -> (r: Option<Square>)
        ensures
            r matches Some(s) ==> step(self.idx(), 1, 1) == Some(s.idx()),
            r is None ==> step(self.idx(), 1, 1) is None,
    {
        self.offset(1, 1)
    }

    /// The square diagonally down and left, or `None` at either edge.
    pub fn down_left(self) -> (r: Option<Square>)
        ensures
            r matches Some(s) ==> step(self.idx(), -1, -1) == Some(s.idx()),
            r is None ==> step(self.idx(), -1, -1) is None,
    {
        self.offset(-1, -1)
    }

    /// The square diagonally down and right, or `None` at either edge.
    pub fn down_right(self) -> (r: Option<Square>)
        ensures
            r matches Some(s) ==> step(self.idx(), -1, 1) == Some(s.idx()),
            r is None ==> step(self.idx(), -1, 1) is None,
    {
        self.offset(-1, 1)
    }

    /// The adjacent square in `direction`, or `None` at the board edge.
    pub fn neighbor_in_direction(self, direction: QueenLikeMoveDirection) -> (r: Option<Square>)
        ensures
            r matches Some(s) ==> step(self.idx(), dir_dr(direction), dir_df(direction)) == Some(
                s.idx(),
            ),
            r is None ==> step(self.idx(), dir_dr(direction), dir_df(direction)) is None,
    {
        match direction {
            QueenLikeMoveDirection::Up => self.up(),
            QueenLikeMoveDirection::Down => self.down(),
            QueenLikeMoveDirection::Right => self.right(),
            QueenLikeMoveDirection::Left => self.left(),
            QueenLikeMoveDirection::UpRight => self.up_right(),
            QueenLikeMoveDirection::UpLeft => self.up_left(),
            QueenLikeMoveDirection::DownRight => self.down_right(),
            QueenLikeMoveDirection::DownLeft => self.down_left(),
        }
    }

    /// The square rotated by 180 degrees (the board seen from the other side).
    pub fn rotated_perspective(self) -> (r: Square)
        ensures
            r.idx() == 63 - self.idx(),
    {
        Self::from_u8(63 - self.index())
    }

    /// The lowercase file letter ('a' .. 'h').
    pub fn file_char(self) -> (c: char)
        ensures
            c as int == 97 + sq_file(self.idx()),
    {
        ((97u8 + self.index() % 8) as char)
    }

    /// The rank digit ('1' .. '8').
    pub fn rank_char(self) -> (c: char)
        ensures
            c as int == 49 + sq_rank(self.idx()),
    {
        ((49u8 + (7 - self.index() / 8)) as char)
    }

    /// The square in algebraic notation ("e4", "h1", ...).
    pub fn algebraic(self) -> (r: &'static str)
        ensures
            r@.len() == 2,
            r@[0] as int == 97 + sq_file(self.idx()),
            r@[1] as int == 49 + sq_rank(self.idx()),
    {
        match self {
            Square::A8 => {
                proof {
                    reveal_strlit("a8");
                }
                "a8"
            },
            Square::B8 => {
                proof {
                    reveal_strlit("b8");
                }
                "b8"
            },
            Square::C8 => {
                proof {
                    reveal_strlit("c8");
                }
                "c8"
            },
            Square::D8 => {
                proof {
                    reveal_strlit("d8");
                }
                "d8"
            },
            Square::E8 => {
                proof {
                    reveal_strlit("e8");
                }
                "e8"
            },
            Square::F8 => {
                proof {
                    reveal_strlit("f8");
                }
                "f8"
            },
            Square::G8 => {
                proof {
                    reveal_strlit("g8");
                }
                "g8"
            },
            Square::H8 => {
                proof {
                    reveal_strlit("h8");
                }
                "h8"
            },
            Square::A7 => {
                proof {
                    reveal_strlit("a7");
                }
                "a7"
            },
            Square::B7 => {
                proof {
                    reveal_strlit("b7");
                }
                "b7"
            },
            Square::C7 => {
                proof {
                    reveal_strlit("c7");
                }
                "c7"
            },
            Square::D7 => {
                proof {
                    reveal_strlit("d7");
                }
                "d7"
            },
            Square::E7 => {
                proof {
                    reveal_strlit("e7");
                }
                "e7"
            },
            Square::F7 => {
                proof {
                    reveal_strlit("f7");
                }
                "f7"
            },
            Square::G7 => {
                proof {
                    reveal_strlit("g7");
                }
                "g7"
            },
            Square::H7 => {
                proof {
                    reveal_strlit("h7");
                }
                "h7"
            },
            Square::A6 => {
                proof {
                    reveal_strlit("a6");
                }
                "a6"
            },
            Square::B6 => {
                proof {
                    reveal_strlit("b6");
                }
                "b6"
            },
            Square::C6 => {
                proof {
                    reveal_strlit("c6");
                }
                "c6"
            },
            Square::D6 => {
                proof {
                    reveal_strlit("d6");
                }
                "d6"
            },
            Square::E6 => {
                proof {
                    reveal_strlit("e6");
                }
                "e6"
            },
            Square::F6 => {
                proof {
                    reveal_strlit("f6");
                }
                "f6"
            },
            Square::G6 => {
                proof {
                    reveal_strlit("g6");
                }
                "g6"
            },
            Square::H6 => {
                proof {
                    reveal_strlit("h6");
                }
                "h6"
            },
            Square::A5 => {
                proof {
                    reveal_strlit("a5");
                }
                "a5"
            },
            Square::B5 => {
                proof {
                    reveal_strlit("b5");
                }
                "b5"
            },
            Square::C5 => {
                proof {
                    reveal_strlit("c5");
                }
                "c5"
            },
            Square::D5 => {
                proof {
                    reveal_strlit("d5");
                }
                "d5"
            },
            Square::E5 => {
                proof {
                    reveal_strlit("e5");
                }
                "e5"
            },
            Square::F5 => {
                proof {
                    reveal_strlit("f5");
                }
                "f5"
            },
            Square::G5 => {
                proof {
                    reveal_strlit("g5");
                }
                "g5"
            },
            Square::H5 => {
                proof {
                    reveal_strlit("h5");
                }
                "h5"
            },
            Square::A4 => {
                proof {
                    reveal_strlit("a4");
                }
                "a4"
            },
            Square::B4 => {
                proof {
                    reveal_strlit("b4");
                }
                "b4"
            },
            Square::C4 => {
                proof {
                    reveal_strlit("c4");
                }
                "c4"
            },
            Square::D4 => {
                proof {
                    reveal_strlit("d4");
                }
                "d4"
            },
            Square::E4 => {
                proof {
                    reveal_strlit("e4");
                }
                "e4"
            },
            Square::F4 => {
                proof {
                    reveal_strlit("f4");
                }
                "f4"
            },
            Square::G4 => {
                proof {
                    reveal_strlit("g4");
                }
                "g4"
            },
            Square::H4 => {
                proof {
                    reveal_strlit("h4");
                }
                "h4"
            },
            Square::A3 => {
                proof {
                    reveal_strlit("a3");
                }
                "a3"
            },
            Square::B3 => {
                proof {
                    reveal_strlit("b3");
                }
                "b3"
            },
            Square::C3 => {
                proof {
                    reveal_strlit("c3");
                }
                "c3"
            },
            Square::D3 => {
                proof {
                    reveal_strlit("d3");
                }
                "d3"
            },
            Square::E3 => {
                proof {
                    reveal_strlit("e3");
                }
                "e3"
            },
            Square::F3 => {
                proof {
                    reveal_strlit("f3");
                }
                "f3"
            },
            Square::G3 => {
                proof {
                    reveal_strlit("g3");
                }
                "g3"
            },
            Square::H3 => {
                proof {
                    reveal_strlit("h3");
                }
                "h3"
            },
            Square::A2 => {
                proof {
                    reveal_strlit("a2");
                }
                "a2"
            },
            Square::B2 => {
                proof {
                    reveal_strlit("b2");
                }
                "b2"
            },
            Square::C2 => {
                proof {
                    reveal_strlit("c2");
                }
                "c2"
            },
            Square::D2 => {
                proof {
                    reveal_strlit("d2");
                }
                "d2"
            },
            Square::E2 => {
                proof {
                    reveal_strlit("e2");
                }
                "e2"
            },
            Square::F2 => {
                proof {
                    reveal_strlit("f2");
                }
                "f2"
            },
            Square::G2 => {
                proof {
                    reveal_strlit("g2");
                }
                "g2"
            },
            Square::H2 => {
                proof {
                    reveal_strlit("h2");
                }
                "h2"
            },
            Square::A1 => {
                proof {
                    reveal_strlit("a1");
                }
                "a1"
            },
            Square::B1 => {
                proof {
                    reveal_strlit("b1");
                }
                "b1"
            },
            Square::C1 => {
                proof {
                    reveal_strlit("c1");
                }
                "c1"
            },
            Square::D1 => {
                proof {
                    reveal_strlit("d1");
                }
                "d1"
            },
            Square::E1 => {
                proof {
                    reveal_strlit("e1");
                }
                "e1"
            },
            Square::F1 => {
                proof {
                    reveal_strlit("f1");
                }
                "f1"
            },
            Square::G1 => {
                proof {
                    reveal_strlit("g1");
                }
                "g1"
            },
            Square::H1 => {
                proof {
                    reveal_strlit("h1");
                }
                "h1"
            },
        }
    }
}

} // verus!
