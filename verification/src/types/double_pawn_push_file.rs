//! The file of a pawn that just advanced two squares, as a signed byte (`-1`: none).
use vstd::prelude::*;
use crate::bitboard::{bb_has, group_has};
use crate::types::{Color, File, Rank, Square};
use crate::types::square::{sq_file, sq_rank, sq_at};

verus! {

broadcast use group_has;

/// `-1` when no pawn just advanced two squares, otherwise the file index `0 ..= 7` of that pawn.
pub type DoublePawnPushFile = i8;

/// The value stored after a pawn moved from `from` to `to`: the file of the pawn when it
/// advanced two ranks, `-1` otherwise.
pub open spec fn dpf_after_step(from: int, to: int) -> int {
    if to == from - 16 || to == from + 16 {
        sq_file(from)
    } else {
        -1
    }
}

/// Rank (0-based) on which a pawn that just advanced two squares stands, seen by the side to
/// move `stm` (who may capture it): rank 5 when White is to move, rank 4 when Black is.
pub open spec fn ep_pawn_rank(stm: Color) -> int {
    if stm == Color::White {
        4
    } else {
        3
    }
}

/// Rank (0-based) of the square an en-passant capture of the side to move `stm` lands on.
pub open spec fn ep_target_rank(stm: Color) -> int {
    if stm == Color::White {
        5
    } else {
        2
    }
}

/// Operations on a double-pawn-push file value.
pub trait ConstDoublePawnPushFile: Sized {
    /// The value as an integer.
    spec fn value(self) -> int;

    /// After a pawn step from `from` to `to`, the value to store for the next position.
    fn from_pawn_step(from: Square, to: Square) -> (r: Self)
        ensures
            Self::value(r) == dpf_after_step(from.idx(), to.idx()),
    ;

    /// Whether a file is held.
    fn is_some(self) -> (r: bool)
        ensures
            r == (0 <= Self::value(self) < 8),
    ;

    /// Whether a file is held (the same as [`Self::is_some`]).
    fn has_file(self) -> (r: bool)
        ensures
            r == (0 <= Self::value(self) < 8),
    ;

    /// The value for `file` (`-1` for `None`).
    fn from_file(file: Option<File>) -> (r: Self)
        ensures
            Self::value(r) == match file {
                Some(f) => f.idx(),
                None => -1,
            },
    ;

    /// The file held, if any.
    fn file(self) -> (r: Option<File>)
        ensures
            (0 <= Self::value(self) < 8) <==> r is Some,
            r matches Some(f) ==> f.idx() == Self::value(self),
    ;

    /// The squares from which a pawn of the side to move `stm` could capture en passant: the
    /// neighbors on its rank of the pawn that just advanced.
    fn ep_possible_src_mask(self, stm: Color) -> (m: u64)
        requires
            0 <= Self::value(self) < 8,
        ensures
            forall|s: int|
                0 <= s < 64 ==> #[trigger] bb_has(m, s) == (sq_rank(s) == ep_pawn_rank(stm) && (
                sq_file(s) == Self::value(self) - 1 || sq_file(s) == Self::value(self) + 1)),
    ;

    /// The square an en-passant capture of the side to move `stm` lands on.
    fn ep_dst_square(self, stm: Color) -> (s: Square)
        requires
            0 <= Self::value(self) < 8,
        ensures
            s.idx() == sq_at(ep_target_rank(stm), Self::value(self)),
    ;

    /// The square of the pawn an en-passant capture of the side to move `stm` removes.
    fn ep_capture_square(self, stm: Color) -> (s: Square)
        requires
            0 <= Self::value(self) < 8,
        ensures
            s.idx() == sq_at(ep_pawn_rank(stm), Self::value(self)),
    ;
}

impl ConstDoublePawnPushFile for DoublePawnPushFile {
    open spec fn value(self) -> int {
        self as int
    }

    fn from_pawn_step(from: Square, to: Square) -> (r: DoublePawnPushFile) {
        let f = from.index();
        let t = to.index();
        if t + 16 == f || t == f + 16 {
            (f % 8) as i8
        } else {
            -1
        }
    }

    fn is_some(self) -> (r: bool) {
        self >= 0 && self < 8
    }

    fn has_file(self) -> (r: bool) {
        self.is_some()
    }

    fn from_file(file: Option<File>) -> (r: DoublePawnPushFile) {
        match file {
            None => -1,
            Some(file) => file.index() as i8,
        }
    }

    fn file(self) -> (r: Option<File>) {
        if self.is_some() {
            Some(File::from_u8(self as u8))
        } else {
            None
        }
    }

    fn ep_possible_src_mask(self, stm: Color) -> (m: u64) {
        let f = File::from_u8(self as u8);
        let double_pawn_push_dst = match stm {
            Color::White => Square::from_rank_and_file(Rank::Five, f).mask(),
            Color::Black => Square::from_rank_and_file(Rank::Four, f).mask(),
        };
        let m = ((double_pawn_push_dst << 1) & !File::H.mask()) | ((double_pawn_push_dst >> 1)
            & !File::A.mask());
        proof {
            let d = sq_at(ep_pawn_rank(stm), self as int);
            assert forall|s: int| 0 <= s < 64 implies #[trigger] bb_has(m, s) == (sq_rank(s)
                == ep_pawn_rank(stm) && (sq_file(s) == self - 1 || sq_file(s) == self + 1)) by {
                crate::bitboard::lemma_has_shl(double_pawn_push_dst, 1, s);
                crate::bitboard::lemma_has_shr(double_pawn_push_dst, 1, s);
            }
        }
        m
    }

    fn ep_dst_square(self, stm: Color) -> (s: Square) {
        let f = File::from_u8(self as u8);
        match stm {
            Color::White => Square::from_rank_and_file(Rank::Six, f),
            Color::Black => Square::from_rank_and_file(Rank::Three, f),
        }
    }

    fn ep_capture_square(self, stm: Color) -> (s: Square) {
        let f = File::from_u8(self as u8);
        match stm {
            Color::White => Square::from_rank_and_file(Rank::Five, f),
            Color::Black => Square::from_rank_and_file(Rank::Four, f),
        }
    }
}

} // verus!
