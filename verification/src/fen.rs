//! Reading positions from Forsyth-Edwards Notation.
use vstd::prelude::*;
use vstd::string::*;
use crate::bitboard::pop;
use crate::board::Board;
use crate::types::{CastlingRights, Color, Flank, Piece, PositionContext};
use crate::types::flank::rights_bit;
use crate::position::castling::has_rights;
use crate::types::piece::{piece_from_upper, piece_from_lower};
use crate::position::state::{Position, ZobristPolicy};
use crate::zobrist::{position_hash, calc_position_zobrist_hash};
use crate::bitboard::{bb_has, sq_bit, group_has, lemma_pop_single};
use crate::types::Square;
use crate::position::pins::{kings_of, pins_checks_ok};

verus! {

broadcast use group_has;

/// The standard starting position.
pub const INITIAL_FEN: &'static str = "rnbqkbnr/pppppppp/8/8/8/8/PPPPPPPP/RNBQKBNR w KQkq - 0 1";

/// Why a FEN string was refused.
#[derive(Clone, Copy, PartialEq, Eq, Debug, Structural)]
pub enum FenParseError {
    /// The string does not have six fields separated by single spaces.
    InvalidFieldCount,
    /// The piece placement is malformed.
    InvalidPlacement,
    /// The side to move is neither `w` nor `b`.
    InvalidSideToMove,
    /// The castling field is neither `-` nor letters from `KQkq`.
    InvalidCastlingRights,
    /// The en-passant field is neither `-` nor a square on the rank behind a pawn that just
    /// advanced two squares.
    InvalidEnPassant,
    /// The halfmove clock is not a number below 256.
    InvalidHalfmoveClock,
    /// The fullmove number is not a number from 1 to 32767.
    InvalidFullmoveNumber,
    /// The board does not have exactly one king of each color.
    InvalidKings,
}

/// The contents of one square: empty, or a piece of a color.
pub type Cell = Option<(Piece, Color)>;

/// The fields of the first `n` characters of `s`, split at each `sep`.
pub open spec fn split_prefix(s: Seq<char>, sep: char, n: int) -> Seq<Seq<char>>
    decreases n,
{
    if n <= 0 {
        seq![Seq::empty()]
    } else {
        let f = split_prefix(s, sep, n - 1);
        if s[n - 1] == sep {
            f.push(Seq::empty())
        } else {
            f.update(f.len() - 1, f.last().push(s[n - 1]))
        }
    }
}

/// The fields of `s` separated by single spaces.
pub open spec fn fen_fields(s: Seq<char>) -> Seq<Seq<char>> {
    split_prefix(s, ' ', s.len() as int)
}

/// The piece and color a placement letter names (`None` for any other character).
pub open spec fn letter_cell(c: char) -> Option<(Piece, Color)> {
    if piece_from_upper(c) != Piece::Null {
        Some((piece_from_upper(c), Color::White))
    } else if piece_from_lower(c) != Piece::Null {
        Some((piece_from_lower(c), Color::Black))
    } else {
        None
    }
}

/// Reading the first `n` characters of a placement field: the squares read so far (a8 first)
/// and how many of them belong to the current rank, or `None` once the field is malformed.
pub open spec fn placement_prefix(field: Seq<char>, n: int) -> Option<(Seq<Cell>, int)>
    decreases n,
{
    if n <= 0 {
        Some((Seq::empty(), 0))
    } else {
        match placement_prefix(field, n - 1) {
            None => None,
            Some((cells, in_rank)) => {
                let c = field[n - 1];
                if c == '/' {
                    if in_rank == 8 {
                        Some((cells, 0))
                    } else {
                        None
                    }
                } else if '1' <= c <= '8' {
                    let d = c as int - '0' as int;
                    if in_rank + d <= 8 {
                        Some((cells + Seq::new(d as nat, |i: int| None), in_rank + d))
                    } else {
                        None
                    }
                } else if letter_cell(c) is Some && in_rank < 8 {
                    Some((cells.push(letter_cell(c)), in_rank + 1))
                } else {
                    None
                }
            },
        }
    }
}

/// The 64 squares (a8 first) a placement field describes, if it is well formed: eight ranks of
/// eight squares separated by `/`.
pub open spec fn placement_cells(field: Seq<char>) -> Option<Seq<Cell>> {
    match placement_prefix(field, field.len() as int) {
        Some((cells, in_rank)) => if in_rank == 8 && cells.len() == 64 {
            Some(cells)
        } else {
            None
        },
        None => None,
    }
}

/// The castling-rights bit a letter of the castling field stands for (0 for any other).
pub open spec fn castling_letter_bit(c: char) -> u8 {
    if c == 'K' {
        8
    } else if c == 'Q' {
        4
    } else if c == 'k' {
        2
    } else if c == 'q' {
        1
    } else {
        0
    }
}

/// The rights of the first `n` letters of a castling field, or `None` at a letter that is not
/// one of `KQkq`.
pub open spec fn castling_prefix(field: Seq<char>, n: int) -> Option<u8>
    decreases n,
{
    if n <= 0 {
        Some(0)
    } else {
        match castling_prefix(field, n - 1) {
            None => None,
            Some(v) => if castling_letter_bit(field[n - 1]) == 0 {
                None
            } else {
                Some(v | castling_letter_bit(field[n - 1]))
            },
        }
    }
}

/// The castling rights a castling field gives: `-` for none, otherwise letters from `KQkq`.
pub open spec fn castling_field(field: Seq<char>) -> Option<u8> {
    if field =~= seq!['-'] {
        Some(0)
    } else if field.len() == 0 {
        None
    } else {
        castling_prefix(field, field.len() as int)
    }
}

/// The double-push file an en-passant field gives for side to move `stm`: `-` for none,
/// otherwise a square on the sixth rank (White to move) or third rank (Black to move).
pub open spec fn ep_field(field: Seq<char>, stm: Color) -> Option<i8> {
    if field =~= seq!['-'] {
        Some(-1i8)
    } else if field.len() == 2 && 'a' <= field[0] <= 'h' && field[1] == (if stm == Color::White {
        '6'
    } else {
        '3'
    }) {
        Some((field[0] as int - 'a' as int) as i8)
    } else {
        None
    }
}

/// The value of the first `n` digits of `s`.
pub open spec fn digits_value(s: Seq<char>, n: int) -> int
    decreases n,
{
    if n <= 0 {
        0
    } else {
        digits_value(s, n - 1) * 10 + (s[n - 1] as int - '0' as int)
    }
}

/// The number a field writes in decimal digits, if it is a nonempty run of digits.
pub open spec fn number_field(s: Seq<char>) -> Option<int> {
    if s.len() > 0 && forall|i: int| 0 <= i < s.len() ==> '0' <= #[trigger] s[i] <= '9' {
        Some(digits_value(s, s.len() as int))
    } else {
        None
    }
}

/// The characters of `s`.
pub fn str_chars(s: &str) -> (v: Vec<char>)
    ensures
        v@ == s@,
{
    let n = s.unicode_len();
    let mut v: Vec<char> = Vec::new();
    let mut i: usize = 0;
    while i < n
        invariant
            n == s@.len(),
            i <= n,
            v@ == s@.subrange(0, i as int),
        decreases n - i,
    {
        let c = s.get_char(i);
        v.push(c);
        proof {
            assert(s@.subrange(0, i + 1) == s@.subrange(0, i as int).push(c));
        }
        i = i + 1;
    }
    proof {
        assert(s@.subrange(0, n as int) == s@);
    }
    v
}

/// Splits `s` at each `sep` into fields (an empty field between adjacent separators).
pub fn split_fields(s: &Vec<char>, sep: char) -> (fields: Vec<Vec<char>>)
    ensures
        fields@.len() == split_prefix(s@, sep, s@.len() as int).len(),
        forall|i: int| 0 <= i < fields@.len() ==> #[trigger] fields@[i]@ == split_prefix(s@, sep, s@.len() as int)[i],
{
    let mut done: Vec<Vec<char>> = Vec::new();
    let mut cur: Vec<char> = Vec::new();
    let mut i: usize = 0;
    while i < s.len()
        invariant
            i <= s@.len(),
            done@.len() + 1 == split_prefix(s@, sep, i as int).len(),
            forall|j: int| 0 <= j < done@.len() ==> #[trigger] done@[j]@ == split_prefix(s@, sep, i as int)[j],
            cur@ == split_prefix(s@, sep, i as int).last(),
        decreases s@.len() - i,
    {
        let c = s[i];
        if c == sep {
            let finished = cur;
            cur = Vec::new();
            done.push(finished);
        } else {
            cur.push(c);
        }
        i = i + 1;
    }
    done.push(cur);
    done
}

/// A malformed placement prefix stays malformed.
proof fn lemma_placement_none(field: Seq<char>, n: int, m: int)
    requires
        0 <= n <= m,
        placement_prefix(field, n) is None,
    ensures
        placement_prefix(field, m) is None,
    decreases m - n,
{
    if m > n {
        lemma_placement_none(field, n, m - 1);
    }
}

/// The piece and color a placement letter names.
fn letter_cell_of(c: char) -> (r: Cell)
    ensures
        r == letter_cell(c),
{
    let up = Piece::from_uppercase_char(c);
    if up != Piece::Null {
        Some((up, Color::White))
    } else {
        let lo = Piece::from_lowercase_char(c);
        if lo != Piece::Null {
            Some((lo, Color::Black))
        } else {
            None
        }
    }
}

/// Reads a placement field into its 64 squares (a8 first), or `None` when it is malformed.
pub fn parse_placement(field: &Vec<char>) -> (r: Option<Vec<Cell>>)
    ensures
        match r {
            Some(v) => placement_cells(field@) == Some(v@),
            None => placement_cells(field@) is None,
        },
{
    let mut cells: Vec<Cell> = Vec::new();
    let mut in_rank: usize = 0;
    let mut i: usize = 0;
    while i < field.len()
        invariant
            i <= field@.len(),
            placement_prefix(field@, i as int) == Some((cells@, in_rank as int)),
            in_rank <= 8,
        decreases field@.len() - i,
    {
        let c = field[i];
        if c == '/' {
            if in_rank != 8 {
                proof {
                    lemma_placement_none(field@, i + 1, field@.len() as int);
                }
                return None;
            }
            in_rank = 0;
        } else if '1' <= c && c <= '8' {
            let d = (c as u32 - '0' as u32) as usize;
            if in_rank + d > 8 {
                proof {
                    lemma_placement_none(field@, i + 1, field@.len() as int);
                }
                return None;
            }
            let ghost before = cells@;
            let mut k: usize = 0;
            while k < d
                invariant
                    k <= d,
                    cells@ == before + Seq::new(k as nat, |j: int| None::<(Piece, Color)>),
                decreases d - k,
            {
                cells.push(None);
                proof {
                    assert(cells@ =~= before + Seq::new((k + 1) as nat, |j: int| None::<(Piece, Color)>));
                }
                k = k + 1;
            }
            in_rank = in_rank + d;
        } else {
            let cell = letter_cell_of(c);
            if cell.is_none() || in_rank >= 8 {
                proof {
                    lemma_placement_none(field@, i + 1, field@.len() as int);
                }
                return None;
            }
            cells.push(cell);
            in_rank = in_rank + 1;
        }
        i = i + 1;
    }
    if in_rank == 8 && cells.len() == 64 {
        Some(cells)
    } else {
        None
    }
}

/// Reads a castling field into its rights nibble, or `None` when it is malformed.
pub fn parse_castling(field: &Vec<char>) -> (r: Option<u8>)
    ensures
        r == castling_field(field@),
        r matches Some(v) ==> v < 16,
{
    if field.len() == 1 && field[0] == '-' {
        proof {
            assert(field@ =~= seq!['-']);
        }
        return Some(0);
    }
    proof {
        if field@ =~= seq!['-'] {
            assert(field@.len() == 1 && field@[0] == '-');
        }
    }
    if field.len() == 0 {
        return None;
    }
    let mut v: u8 = 0;
    let mut i: usize = 0;
    while i < field.len()
        invariant
            i <= field@.len(),
            castling_prefix(field@, i as int) == Some(v),
            castling_field(field@) == castling_prefix(field@, field@.len() as int),
            v < 16,
        decreases field@.len() - i,
    {
        let c = field[i];
        let b: u8 = if c == 'K' {
            8
        } else if c == 'Q' {
            4
        } else if c == 'k' {
            2
        } else if c == 'q' {
            1
        } else {
            0
        };
        if b == 0 {
            proof {
                lemma_castling_none(field@, i + 1, field@.len() as int);
            }
            return None;
        }
        proof {
            assert(v < 16 && (b == 8 || b == 4 || b == 2 || b == 1) ==> (v | b) < 16) by (bit_vector);
        }
        v = v | b;
        i = i + 1;
    }
    Some(v)
}

/// Bits of the rights nibble overlap exactly when they are the same bit.
proof fn lemma_rights_bits_overlap(b: u8, r: u8)
    by (bit_vector)
    requires
        b == 1 || b == 2 || b == 4 || b == 8,
        r == 1 || r == 2 || r == 4 || r == 8,
    ensures
        ((b & r) != 0) == (b == r),
{
}

/// A right is in a union of rights exactly when it is in one of them.
proof fn lemma_rights_union(v: u8, b: u8, r: u8)
    by (bit_vector)
    ensures
        (((v | b) & r) != 0) == (((v & r) != 0) || ((b & r) != 0)),
{
}

/// After the first `n` letters of a well-formed castling field, the rights hold the bit of the
/// letter `c` exactly when `c` is among those letters.
proof fn lemma_castling_prefix_letter(field: Seq<char>, n: int, c: char)
    requires
        0 <= n <= field.len(),
        castling_prefix(field, n) is Some,
        castling_letter_bit(c) != 0,
    ensures
        ((castling_prefix(field, n).unwrap() & castling_letter_bit(c)) != 0) == (exists|i: int|
            0 <= i < n && #[trigger] field[i] == c),
    decreases n,
{
    if n > 0 {
        lemma_castling_prefix_letter(field, n - 1, c);
        let v = castling_prefix(field, n - 1).unwrap();
        let b = castling_letter_bit(field[n - 1]);
        let r = castling_letter_bit(c);
        lemma_rights_union(v, b, r);
        lemma_rights_bits_overlap(b, r);
        assert((b == r) == (field[n - 1] == c));
        if field[n - 1] == c {
            assert(field[n - 1] == c);
        }
        if exists|i: int| 0 <= i < n - 1 && #[trigger] field[i] == c {
            let i = choose|i: int| 0 <= i < n - 1 && #[trigger] field[i] == c;
            assert(field[i] == c);
        }
    } else {
        assert(0u8 & castling_letter_bit(c) == 0) by (bit_vector);
    }
}

/// The FEN castling letters grant the rights the move rules read: `K` White's kingside right,
/// `Q` White's queenside right, `k` and `q` Black's; a right is held exactly when its letter
/// appears (and `-` grants none).
pub proof fn lemma_castling_field_letters(field: Seq<char>)
    requires
        castling_field(field) is Some,
    ensures
        ((castling_field(field).unwrap() & rights_bit(Flank::Kingside, Color::White)) != 0) == field.contains('K'),
        ((castling_field(field).unwrap() & rights_bit(Flank::Queenside, Color::White)) != 0) == field.contains('Q'),
        ((castling_field(field).unwrap() & rights_bit(Flank::Kingside, Color::Black)) != 0) == field.contains('k'),
        ((castling_field(field).unwrap() & rights_bit(Flank::Queenside, Color::Black)) != 0) == field.contains('q'),
{
    if field =~= seq!['-'] {
        assert(0u8 & 8u8 == 0 && 0u8 & 4u8 == 0 && 0u8 & 2u8 == 0 && 0u8 & 1u8 == 0) by (bit_vector);
        assert(!field.contains('K') && !field.contains('Q') && !field.contains('k') && !field.contains('q')) by {
            assert(field[0] == '-');
        }
    } else {
        let n = field.len() as int;
        assert(castling_letter_bit('K') == rights_bit(Flank::Kingside, Color::White));
        assert(castling_letter_bit('Q') == rights_bit(Flank::Queenside, Color::White));
        assert(castling_letter_bit('k') == rights_bit(Flank::Kingside, Color::Black));
        assert(castling_letter_bit('q') == rights_bit(Flank::Queenside, Color::Black));
        lemma_castling_prefix_letter(field, n, 'K');
        lemma_castling_prefix_letter(field, n, 'Q');
        lemma_castling_prefix_letter(field, n, 'k');
        lemma_castling_prefix_letter(field, n, 'q');
    }
}

/// A position read from a FEN string holds exactly the castling rights whose letters its
/// castling field lists: `K` and `Q` White's kingside and queenside rights, `k` and `q` Black's.
pub proof fn lemma_fen_castling_rights<Z: ZobristPolicy>(s: Seq<char>, p: Position<Z>)
    requires
        fen_error(s) is None,
        fen_describes(s, p),
    ensures
        has_rights(p, Flank::Kingside, Color::White) == fen_fields(s)[2].contains('K'),
        has_rights(p, Flank::Queenside, Color::White) == fen_fields(s)[2].contains('Q'),
        has_rights(p, Flank::Kingside, Color::Black) == fen_fields(s)[2].contains('k'),
        has_rights(p, Flank::Queenside, Color::Black) == fen_fields(s)[2].contains('q'),
{
    lemma_castling_field_letters(fen_fields(s)[2]);
}

/// A malformed castling prefix stays malformed.
proof fn lemma_castling_none(field: Seq<char>, n: int, m: int)
    requires
        0 <= n <= m,
        castling_prefix(field, n) is None,
    ensures
        castling_prefix(field, m) is None,
    decreases m - n,
{
    if m > n {
        lemma_castling_none(field, n, m - 1);
    }
}

/// Reads an en-passant field for side to move `stm`, or `None` when it is malformed.
pub fn parse_en_passant(field: &Vec<char>, stm: Color) -> (r: Option<i8>)
    ensures
        r == ep_field(field@, stm),
{
    if field.len() == 1 && field[0] == '-' {
        proof {
            assert(field@ =~= seq!['-']);
        }
        return Some(-1);
    }
    proof {
        if field@ =~= seq!['-'] {
            assert(field@.len() == 1 && field@[0] == '-');
        }
    }
    let rank_char = match stm {
        Color::White => '6',
        Color::Black => '3',
    };
    if field.len() == 2 && 'a' <= field[0] && field[0] <= 'h' && field[1] == rank_char {
        Some((field[0] as u32 - 'a' as u32) as i8)
    } else {
        None
    }
}

/// Larger prefixes of a run of digits have values at least as large.
proof fn lemma_digits_monotone(s: Seq<char>, n: int, m: int)
    requires
        0 <= n <= m <= s.len(),
        forall|i: int| 0 <= i < s.len() ==> '0' <= #[trigger] s[i] <= '9',
    ensures
        digits_value(s, n) <= digits_value(s, m),
        digits_value(s, n) >= 0,
    decreases m - n,
{
    if m > n {
        lemma_digits_monotone(s, n, m - 1);
        assert('0' <= s[m - 1] <= '9');
    } else {
        lemma_digits_nonneg(s, n);
    }
}

proof fn lemma_digits_nonneg(s: Seq<char>, n: int)
    requires
        0 <= n <= s.len(),
        forall|i: int| 0 <= i < s.len() ==> '0' <= #[trigger] s[i] <= '9',
    ensures
        digits_value(s, n) >= 0,
    decreases n,
{
    if n > 0 {
        lemma_digits_nonneg(s, n - 1);
        assert('0' <= s[n - 1] <= '9');
    }
}

/// Reads a decimal number field, returning it when it is a nonempty run of digits whose value
/// is at most `limit`.
pub fn parse_number(field: &Vec<char>, limit: u32) -> (r: Option<u32>)
    requires
        limit < 100000,
    ensures
        match r {
            Some(v) => number_field(field@) == Some(v as int) && v <= limit,
            None => !(number_field(field@) matches Some(n) && n <= limit),
        },
{
    if field.len() == 0 {
        return None;
    }
    let mut i: usize = 0;
    while i < field.len()
        invariant
            i <= field@.len(),
            forall|j: int| 0 <= j < i ==> '0' <= #[trigger] field@[j] <= '9',
        decreases field@.len() - i,
    {
        if !('0' <= field[i] && field[i] <= '9') {
            return None;
        }
        i = i + 1;
    }
    let mut v: u32 = 0;
    let mut i: usize = 0;
    while i < field.len()
        invariant
            i <= field@.len(),
            forall|j: int| 0 <= j < field@.len() ==> '0' <= #[trigger] field@[j] <= '9',
            v == digits_value(field@, i as int),
            v <= limit,
            limit < 100000,
        decreases field@.len() - i,
    {
        let d = field[i] as u32 - '0' as u32;
        let next = v * 10 + d;
        if next > limit {
            proof {
                lemma_digits_monotone(field@, i + 1, field@.len() as int);
            }
            return None;
        }
        v = next;
        i = i + 1;
    }
    Some(v)
}

/// The side to move a side field gives.
pub open spec fn fen_stm(f: Seq<char>) -> Option<Color> {
    if f =~= seq!['w'] {
        Some(Color::White)
    } else if f =~= seq!['b'] {
        Some(Color::Black)
    } else {
        None
    }
}

/// The piece kind of a square's contents.
pub open spec fn cell_piece(c: Cell) -> Piece {
    match c {
        Some((p, _)) => p,
        None => Piece::Null,
    }
}

/// Exactly one square of `cells` holds `c`.
pub open spec fn unique_cell(cells: Seq<Cell>, c: Cell) -> bool {
    exists|a: int|
        0 <= a < cells.len() && cells[a] == c && forall|b: int|
            0 <= b < cells.len() && #[trigger] cells[b] == c ==> b == a
}

/// The first reason `s` is not a usable FEN string, checking the fields in order and then the
/// kings; `None` when it is usable.
pub open spec fn fen_error(s: Seq<char>) -> Option<FenParseError> {
    let f = fen_fields(s);
    if f.len() != 6 {
        Some(FenParseError::InvalidFieldCount)
    } else if placement_cells(f[0]) is None {
        Some(FenParseError::InvalidPlacement)
    } else if fen_stm(f[1]) is None {
        Some(FenParseError::InvalidSideToMove)
    } else if castling_field(f[2]) is None {
        Some(FenParseError::InvalidCastlingRights)
    } else if ep_field(f[3], fen_stm(f[1]).unwrap()) is None {
        Some(FenParseError::InvalidEnPassant)
    } else if !(number_field(f[4]) matches Some(n) && n <= 255) {
        Some(FenParseError::InvalidHalfmoveClock)
    } else if !(number_field(f[5]) matches Some(n) && 1 <= n <= 32767) {
        Some(FenParseError::InvalidFullmoveNumber)
    } else if !(unique_cell(placement_cells(f[0]).unwrap(), Some((Piece::King, Color::White)))
        && unique_cell(placement_cells(f[0]).unwrap(), Some((Piece::King, Color::Black)))) {
        Some(FenParseError::InvalidKings)
    } else {
        None
    }
}

/// The board holding the contents of `cells` (a8 first).
pub fn board_from_cells(cells: &Vec<Cell>) -> (b: Board)
    requires
        cells@.len() == 64,
    ensures
        b.wf(),
        forall|s: int| 0 <= s < 64 ==> #[trigger] b.piece(s) == cell_piece(cells@[s]),
        forall|s: int|
            0 <= s < 64 && cell_piece(cells@[s]) != Piece::Null ==> #[trigger] b.color(s) == cells@[s].unwrap().1,
{
    let mut b = Board::blank();
    let mut i: usize = 0;
    while i < 64
        invariant
            i <= 64,
            cells@.len() == 64,
            b.wf(),
            forall|s: int| 0 <= s < i ==> #[trigger] b.piece(s) == cell_piece(cells@[s]),
            forall|s: int|
                0 <= s < i && cell_piece(cells@[s]) != Piece::Null ==> #[trigger] b.color(s) == cells@[s].unwrap().1,
            forall|s: int| i <= s < 64 ==> #[trigger] b.piece(s) == Piece::Null,
        decreases 64 - i,
    {
        match cells[i] {
            Some((p, c)) => {
                if p != Piece::Null {
                    b.put_piece_and_color(c, p, Square::from_u8(i as u8));
                }
            },
            None => {},
        }
        i = i + 1;
    }
    b
}

/// Whether two square contents are equal.
fn cell_eq(a: Cell, b: Cell) -> (r: bool)
    ensures
        r == (a == b),
{
    match (a, b) {
        (None, None) => true,
        (Some((p, c)), Some((q, d))) => p == q && c == d,
        _ => false,
    }
}

/// Whether exactly one square of `cells` holds `c`.
fn has_unique_cell(cells: &Vec<Cell>, c: Cell) -> (r: bool)
    ensures
        r == unique_cell(cells@, c),
{
    let mut found: Option<usize> = None;
    let mut i: usize = 0;
    while i < cells.len()
        invariant
            i <= cells@.len(),
            match found {
                None => forall|b: int| 0 <= b < i ==> #[trigger] cells@[b] != c,
                Some(a) => a < i && cells@[a as int] == c && forall|b: int|
                    0 <= b < i && #[trigger] cells@[b] == c ==> b == a,
            },
        decreases cells@.len() - i,
    {
        if cell_eq(cells[i], c) {
            match found {
                Some(a) => {
                    proof {
                        assert(!unique_cell(cells@, c)) by {
                            if unique_cell(cells@, c) {
                                let w = choose|w: int| 0 <= w < cells@.len() && cells@[w] == c && forall|b: int| 0 <= b < cells@.len() && #[trigger] cells@[b] == c ==> b == w;
                                assert(cells@[a as int] == c);
                                assert(cells@[i as int] == c);
                            }
                        }
                    }
                    return false;
                },
                None => {
                    found = Some(i);
                },
            }
        }
        i = i + 1;
    }
    match found {
        Some(a) => {
            proof {
                assert(cells@[a as int] == c);
            }
            true
        },
        None => {
            proof {
                if unique_cell(cells@, c) {
                    let w = choose|w: int| 0 <= w < cells@.len() && cells@[w] == c && forall|b: int| 0 <= b < cells@.len() && #[trigger] cells@[b] == c ==> b == w;
                    assert(cells@[w] != c);
                }
            }
            false
        },
    }
}

/// A board built from squares with a single king of `c` has a single king of `c`.
proof fn lemma_kings_from_cells(board: Board, cells: Seq<Cell>, c: Color)
    requires
        board.wf(),
        cells.len() == 64,
        forall|s: int| 0 <= s < 64 ==> #[trigger] board.piece(s) == cell_piece(cells[s]),
        forall|s: int| 0 <= s < 64 && cell_piece(cells[s]) != Piece::Null ==> #[trigger] board.color(s) == cells[s].unwrap().1,
        unique_cell(cells, Some((Piece::King, c))),
    ensures
        pop(kings_of(board, c)) == 1,
{
    let km = kings_of(board, c);
    let w = choose|a: int| 0 <= a < cells.len() && cells[a] == Some((Piece::King, c)) && forall|b: int| 0 <= b < cells.len() && #[trigger] cells[b] == Some((Piece::King, c)) ==> b == a;
    board.lemma_square(w);
    assert(board.piece(w) == cell_piece(cells[w]));
    assert(board.color(w) == cells[w].unwrap().1);
    assert(bb_has(board.pm(Piece::King.idx()), w));
    if c == Color::White {
        assert(bb_has(km, w));
    } else {
        assert(bb_has(km, w));
    }
    assert forall|u: int| 0 <= u < 64 && #[trigger] bb_has(km, u) implies u == w by {
        board.lemma_square(u);
        assert(bb_has(board.pm(Piece::King.idx()), u));
        assert(board.piece(u) == cell_piece(cells[u]));
        assert(board.piece(u) == Piece::King);
        if c == Color::White {
            assert(board.color(u) == Color::White);
        } else {
            assert(board.color(u) == Color::Black);
        }
        assert(board.color(u) == cells[u].unwrap().1);
        assert(cells[u] == Some((Piece::King, c)));
    }
    lemma_pop_single(km);
}

/// The position a usable FEN string describes.
pub open spec fn fen_describes<Z: ZobristPolicy>(s: Seq<char>, p: Position<Z>) -> bool {
    let f = fen_fields(s);
    let cells = placement_cells(f[0]).unwrap();
    let stm = fen_stm(f[1]).unwrap();
    let full = number_field(f[5]).unwrap();
    &&& p.wf()
    &&& p.hash_ok()
    &&& p.ctxs().len() == 1
    &&& forall|sq: int| 0 <= sq < 64 ==> #[trigger] p.board.piece(sq) == cell_piece(cells[sq])
    &&& forall|sq: int|
        0 <= sq < 64 && cell_piece(cells[sq]) != Piece::Null ==> #[trigger] p.board.color(sq) == cells[sq].unwrap().1
    &&& p.stm() == stm
    &&& p.ctx().castling_rights.value() == castling_field(f[2]).unwrap()
    &&& p.ctx().double_pawn_push_file == ep_field(f[3], stm).unwrap()
    &&& p.ctx().halfmove_clock == number_field(f[4]).unwrap()
    &&& p.ctx().captured_piece == Piece::Null
    &&& p.halfmove == 2 * (full - 1) + (if stm == Color::Black {
        1int
    } else {
        0int
    })
    &&& pins_checks_ok(p.board, p.stm(), p.ctx().pinned, p.ctx().checkers)
    &&& pop(kings_of(p.board, Color::White)) == 1
    &&& pop(kings_of(p.board, Color::Black)) == 1
}

impl<Z: ZobristPolicy> Position<Z> {
    /// Reads a position from a FEN string: piece placement, side to move, castling rights,
    /// en-passant square, halfmove clock and fullmove number, with exactly one king per side.
    #[verifier::rlimit(60)]
    pub fn from_fen(fen: &str) -> (r: Result<Self, FenParseError>)
        ensures
            match r {
                Ok(p) => fen_error(fen@) is None && fen_describes(fen@, p),
                Err(e) => fen_error(fen@) == Some(e),
            },
    {
        let chars = str_chars(fen);
        let fields = split_fields(&chars, ' ');
        if fields.len() != 6 {
            return Err(FenParseError::InvalidFieldCount);
        }
        let cells = match parse_placement(&fields[0]) {
            Some(c) => c,
            None => {
                return Err(FenParseError::InvalidPlacement);
            },
        };
        let f1 = &fields[1];
        let stm = if f1.len() == 1 && f1[0] == 'w' {
            proof {
                assert(f1@ =~= seq!['w']);
            }
            Color::White
        } else if f1.len() == 1 && f1[0] == 'b' {
            proof {
                assert(f1@ =~= seq!['b']);
                assert(!(f1@ =~= seq!['w']));
            }
            Color::Black
        } else {
            proof {
                if f1@ =~= seq!['w'] {
                    assert(f1@[0] == 'w');
                }
                if f1@ =~= seq!['b'] {
                    assert(f1@[0] == 'b');
                }
            }
            return Err(FenParseError::InvalidSideToMove);
        };
        let castling = match parse_castling(&fields[2]) {
            Some(v) => v,
            None => {
                return Err(FenParseError::InvalidCastlingRights);
            },
        };
        let ep = match parse_en_passant(&fields[3], stm) {
            Some(v) => v,
            None => {
                return Err(FenParseError::InvalidEnPassant);
            },
        };
        let clock = match parse_number(&fields[4], 255) {
            Some(v) => v,
            None => {
                return Err(FenParseError::InvalidHalfmoveClock);
            },
        };
        let full = match parse_number(&fields[5], 32767) {
            Some(v) => v,
            None => {
                return Err(FenParseError::InvalidFullmoveNumber);
            },
        };
        if full < 1 {
            return Err(FenParseError::InvalidFullmoveNumber);
        }
        if !(has_unique_cell(&cells, Some((Piece::King, Color::White))) && has_unique_cell(
            &cells,
            Some((Piece::King, Color::Black)),
        )) {
            return Err(FenParseError::InvalidKings);
        }
        let board = board_from_cells(&cells);
        proof {
            lemma_kings_from_cells(board, cells@, Color::White);
            lemma_kings_from_cells(board, cells@, Color::Black);
        }
        let mut context = PositionContext::blank();
        context.castling_rights = CastlingRights::from_bits(castling);
        context.double_pawn_push_file = ep;
        context.halfmove_clock = clock as u8;
        let extra: u16 = match stm {
            Color::White => 0,
            Color::Black => 1,
        };
        let halfmove = 2 * (full as u16 - 1) + extra;
        if Z::tracks() {
            context.zobrist_hash = calc_position_zobrist_hash(
                &board,
                context.castling_rights,
                context.double_pawn_push_file,
                stm,
            );
        }
        let mut contexts: Vec<PositionContext> = Vec::new();
        contexts.push(context);
        let mut res = Position { board, halfmove, side_to_move: stm, contexts, policy: Z::policy() };
        res.update_pins_and_checks();
        Ok(res)
    }
}

} // verus!
