//! Moves as PGN writes them (SAN tokens) and how they match moves of a position.
use vstd::prelude::*;
use vstd::string::StringExecFns;
use crate::board::Board;
use crate::fen::str_chars;
use crate::types::{File, Flank, Move, MoveFlag, Piece, Rank, Square};
use crate::types::piece::piece_from_upper;
use crate::types::square::{sq_at, sq_file, sq_rank};
use crate::text::run_len;
use crate::text::scan_run;
use crate::pgn::error::PgnError;
use crate::pgn::move_info::{PgnCommonMoveInfo, suffix_valid, suffix_describes};

verus! {

/// A piece letter of SAN.
pub open spec fn is_piece_letter(c: char) -> bool {
    c == 'N' || c == 'B' || c == 'R' || c == 'Q' || c == 'K'
}

/// A piece letter a pawn can promote to.
pub open spec fn is_promo_letter(c: char) -> bool {
    c == 'N' || c == 'B' || c == 'R' || c == 'Q'
}

/// A file letter.
pub open spec fn is_file_char(c: char) -> bool {
    'a' <= c <= 'h'
}

/// A rank digit.
pub open spec fn is_rank_char(c: char) -> bool {
    '1' <= c <= '8'
}

/// The characters of the squares-and-capture part of a SAN move.
pub open spec fn core_class() -> spec_fn(char) -> bool {
    |c: char| is_file_char(c) || is_rank_char(c) || c == 'x'
}

/// Where the piece letter of a SAN move ends (0 for a pawn move).
pub open spec fn piece_end(s: Seq<char>) -> int {
    if s.len() > 0 && is_piece_letter(s[0]) {
        1
    } else {
        0
    }
}

/// Where the squares-and-capture part ends.
pub open spec fn core_end(s: Seq<char>) -> int {
    piece_end(s) + run_len(s, piece_end(s), core_class())
}

/// The squares-and-capture part.
pub open spec fn san_core(s: Seq<char>) -> Seq<char> {
    s.subrange(piece_end(s), core_end(s))
}

/// The part before the target square.
pub open spec fn core_head(c: Seq<char>) -> Seq<char> {
    c.subrange(0, c.len() - 2)
}

/// The head marks a capture.
pub open spec fn head_capture(h: Seq<char>) -> bool {
    h.len() > 0 && h.last() == 'x'
}

/// The disambiguation: the head without its capture mark.
pub open spec fn head_disambiguation(h: Seq<char>) -> Seq<char> {
    if head_capture(h) {
        h.drop_last()
    } else {
        h
    }
}

/// A disambiguation is empty, a file, a rank, or a file then a rank.
pub open spec fn disambiguation_ok(d: Seq<char>) -> bool {
    ||| d.len() == 0
    ||| d.len() == 1 && (is_file_char(d[0]) || is_rank_char(d[0]))
    ||| d.len() == 2 && is_file_char(d[0]) && is_rank_char(d[1])
}

/// The squares-and-capture part reads `[file][rank][x]` then the target file and rank.
pub open spec fn core_ok(c: Seq<char>) -> bool {
    &&& c.len() >= 2
    &&& is_file_char(c[c.len() - 2])
    &&& is_rank_char(c[c.len() - 1])
    &&& disambiguation_ok(head_disambiguation(core_head(c)))
}

/// Where the promotion (`=` and a piece letter) ends, if there is one.
pub open spec fn promo_end(s: Seq<char>) -> int {
    if core_end(s) + 1 < s.len() && s[core_end(s)] == '=' && is_promo_letter(s[core_end(s) + 1]) {
        core_end(s) + 2
    } else {
        core_end(s)
    }
}

/// `s` is a SAN move other than castling: an optional piece letter, an optional disambiguating
/// file and rank, an optional `x`, the target square, an optional promotion, and a move suffix.
pub open spec fn non_castling_valid(s: Seq<char>) -> bool {
    core_ok(san_core(s)) && suffix_valid(s, promo_end(s))
}

/// The square with file letter `f` and rank digit `r`.
pub open spec fn square_of_chars(f: char, r: char) -> int {
    sq_at(r as int - '1' as int, f as int - 'a' as int)
}

/// `m` is what the valid SAN move `s` says.
pub open spec fn non_castling_describes(s: Seq<char>, m: PgnNonCastlingMove) -> bool {
    let c = san_core(s);
    let d = head_disambiguation(core_head(c));
    &&& m.piece_moved == (if piece_end(s) == 1 {
        piece_from_upper(s[0])
    } else {
        Piece::Pawn
    })
    &&& m.disambiguation_file == (if d.len() > 0 && is_file_char(d[0]) {
        Some(d[0])
    } else {
        None
    })
    &&& m.disambiguation_rank == (if d.len() > 0 && is_rank_char(d.last()) {
        Some(d.last())
    } else {
        None
    })
    &&& m.is_capture == head_capture(core_head(c))
    &&& m.to.idx() == square_of_chars(c[c.len() - 2], c[c.len() - 1])
    &&& m.promoted_to == (if promo_end(s) == core_end(s) + 2 {
        piece_from_upper(s[core_end(s) + 1])
    } else {
        Piece::Null
    })
    &&& suffix_describes(s, promo_end(s), m.common_move_info)
}

/// `s` is a castling move: "O-O-O" or "0-0-0" (queenside) or "O-O" or "0-0" (kingside), then
/// a move suffix.
pub open spec fn castling_prefix_len(s: Seq<char>) -> int {
    if s.len() >= 5 && (s.subrange(0, 5) == seq!['O', '-', 'O', '-', 'O'] || s.subrange(0, 5) == seq![
        '0',
        '-',
        '0',
        '-',
        '0',
    ]) {
        5
    } else if s.len() >= 3 && (s.subrange(0, 3) == seq!['O', '-', 'O'] || s.subrange(0, 3) == seq!['0', '-', '0']) {
        3
    } else {
        0
    }
}

/// `s` is a castling move followed by a valid move suffix.
pub open spec fn castling_valid(s: Seq<char>) -> bool {
    castling_prefix_len(s) > 0 && suffix_valid(s, castling_prefix_len(s))
}

/// A move as PGN writes it, other than castling.
#[derive(Clone, Debug, PartialEq)]
pub struct PgnNonCastlingMove {
    /// The origin file given to tell moves apart.
    pub disambiguation_file: Option<char>,
    /// The origin rank given to tell moves apart.
    pub disambiguation_rank: Option<char>,
    /// The target square.
    pub to: Square,
    /// The kind of piece that moves.
    pub piece_moved: Piece,
    /// The piece a pawn promotes to (`Null` when none).
    pub promoted_to: Piece,
    /// The move is written as a capture.
    pub is_capture: bool,
    /// Check, annotation and NAG.
    pub common_move_info: PgnCommonMoveInfo,
}

/// A castling move as PGN writes it.
#[derive(Clone, Debug, PartialEq)]
pub struct PgnCastlingMove {
    /// The side castled to.
    pub flank: Flank,
    /// Check, annotation and NAG.
    pub common_move_info: PgnCommonMoveInfo,
}

impl Move {
    /// Whether this move captures on `board`: an en-passant capture always does, castling never
    /// does, any other move does when its target square is occupied.
    pub fn is_capture_on_board(&self, board: &Board) -> (r: bool)
        ensures
            r == (match self.flag_spec() {
                MoveFlag::EnPassant => true,
                MoveFlag::Castling => false,
                _ => board.piece(self.to_spec().idx()) != Piece::Null,
            }),
    {
        match self.flag() {
            MoveFlag::EnPassant => true,
            MoveFlag::Castling => false,
            _ => board.piece_at(self.to()) != Piece::Null,
        }
    }
}

/// A PGN move that can be compared with the moves of a position.
pub trait PgnMove {
    /// `move_` on `board` is the move this PGN move writes.
    spec fn denotes(&self, move_: Move, board: Board) -> bool;

    /// The check, annotation and NAG of the move.
    spec fn info(&self) -> PgnCommonMoveInfo;

    /// Whether `move_`, played on `from_board`, is the move this PGN move writes.
    fn matches_move(&self, move_: Move, from_board: &Board) -> (r: bool)
        ensures
            r == self.denotes(move_, *from_board),
    ;

    /// The check, annotation and NAG of the move.
    fn get_common_move_info(&self) -> (r: &PgnCommonMoveInfo)
        ensures
            *r == self.info(),
    ;
}

/// The file letter of file index `f` or the rank digit of rank index `f`, shifted by `base`.
pub open spec fn char_index(c: char, base: char) -> int {
    c as int - base as int
}

impl PgnMove for PgnNonCastlingMove {
    open spec fn denotes(&self, move_: Move, board: Board) -> bool {
        let from = move_.from_spec().idx();
        &&& self.to == move_.to_spec()
        &&& self.promoted_to == (if move_.flag_spec() == MoveFlag::Promotion {
            move_.promotion_spec()
        } else {
            Piece::Null
        })
        &&& self.piece_moved == board.piece(from)
        &&& self.is_capture == (match move_.flag_spec() {
            MoveFlag::EnPassant => true,
            MoveFlag::Castling => false,
            _ => board.piece(move_.to_spec().idx()) != Piece::Null,
        })
        &&& (self.disambiguation_file matches Some(f) ==> sq_file(from) == char_index(f, 'a'))
        &&& (self.disambiguation_rank matches Some(r) ==> sq_rank(from) == char_index(r, '1'))
    }

    open spec fn info(&self) -> PgnCommonMoveInfo {
        self.common_move_info
    }

    fn matches_move(&self, move_: Move, board: &Board) -> (r: bool) {
        let to = move_.to();
        let from = move_.from();
        let flag = move_.flag();
        let promotion = match flag {
            MoveFlag::Promotion => move_.promotion(),
            _ => Piece::Null,
        };
        if self.to != to || self.promoted_to != promotion || self.piece_moved != board.piece_at(from)
            || self.is_capture != move_.is_capture_on_board(board) {
            return false;
        }
        match self.disambiguation_file {
            Some(file) => {
                if from.file_char() != file {
                    return false;
                }
            },
            None => {},
        }
        match self.disambiguation_rank {
            Some(rank) => {
                if from.rank_char() != rank {
                    return false;
                }
            },
            None => {},
        }
        true
    }

    fn get_common_move_info(&self) -> (r: &PgnCommonMoveInfo) {
        &self.common_move_info
    }
}

/// A SAN move fixes the promotion of every move it denotes: with a promotion piece it denotes
/// only promotions to that piece, without one only moves that do not promote.
pub proof fn lemma_denotes_promotion(pgn_move: PgnNonCastlingMove, m: Move, b: Board)
    requires
        pgn_move.denotes(m, b),
    ensures
        m.flag_spec() == MoveFlag::Promotion ==> m.promotion_spec() == pgn_move.promoted_to,
        m.flag_spec() != MoveFlag::Promotion ==> pgn_move.promoted_to == Piece::Null,
{
}

/// Two promotions between the same squares that one SAN move denotes are the same move: the
/// four promotions of a pawn are told apart by the promotion piece written.
pub proof fn lemma_denoted_promotions_agree(pgn_move: PgnNonCastlingMove, m1: Move, m2: Move, b: Board)
    requires
        pgn_move.denotes(m1, b),
        pgn_move.denotes(m2, b),
        m1.flag_spec() == MoveFlag::Promotion,
        m2.flag_spec() == MoveFlag::Promotion,
        m1.from_spec() == m2.from_spec(),
        m1.to_spec() == m2.to_spec(),
    ensures
        m1 == m2,
{
    lemma_denotes_promotion(pgn_move, m1, b);
    lemma_denotes_promotion(pgn_move, m2, b);
    Move::lemma_ext(m1, m2);
}

impl PgnMove for PgnCastlingMove {
    open spec fn denotes(&self, move_: Move, board: Board) -> bool {
        &&& move_.flag_spec() == MoveFlag::Castling
        &&& sq_file(move_.to_spec().idx()) == (match self.flank {
            Flank::Kingside => 6int,
            Flank::Queenside => 2int,
        })
    }

    open spec fn info(&self) -> PgnCommonMoveInfo {
        self.common_move_info
    }

    fn matches_move(&self, move_: Move, _from_board: &Board) -> (r: bool) {
        let flag = move_.flag();
        let matches_flank = match self.flank {
            Flank::Kingside => move_.to().file() == File::G,
            Flank::Queenside => move_.to().file() == File::C,
        };
        if flag != MoveFlag::Castling || !matches_flank {
            return false;
        }
        true
    }

    fn get_common_move_info(&self) -> (r: &PgnCommonMoveInfo) {
        &self.common_move_info
    }
}

/// Whether `c` is a SAN piece letter.
fn is_piece_letter_char(c: char) -> (r: bool)
    ensures
        r == is_piece_letter(c),
{
    c == 'N' || c == 'B' || c == 'R' || c == 'Q' || c == 'K'
}

/// Whether `c` is a letter a pawn can promote to.
fn is_promo_letter_char(c: char) -> (r: bool)
    ensures
        r == is_promo_letter(c),
{
    c == 'N' || c == 'B' || c == 'R' || c == 'Q'
}

/// Whether `c` is a file letter.
fn is_file_letter(c: char) -> (r: bool)
    ensures
        r == is_file_char(c),
{
    'a' <= c && c <= 'h'
}

/// Whether `c` is a rank digit.
fn is_rank_digit(c: char) -> (r: bool)
    ensures
        r == is_rank_char(c),
{
    '1' <= c && c <= '8'
}

/// Whether `c` belongs to the squares-and-capture part of a SAN move.
fn is_core_char(c: char) -> (r: bool)
    ensures
        r == core_class()(c),
{
    is_file_letter(c) || is_rank_digit(c) || c == 'x'
}

/// The file with letter `c`.
fn file_of_char(c: char) -> (f: File)
    requires
        is_file_char(c),
    ensures
        f.idx() == c as int - 'a' as int,
{
    match c {
        'a' => File::from_u8(0),
        'b' => File::from_u8(1),
        'c' => File::from_u8(2),
        'd' => File::from_u8(3),
        'e' => File::from_u8(4),
        'f' => File::from_u8(5),
        'g' => File::from_u8(6),
        _ => File::from_u8(7),
    }
}

/// The rank with digit `c`.
fn rank_of_char(c: char) -> (r: Rank)
    requires
        is_rank_char(c),
    ensures
        r.idx() == c as int - '1' as int,
{
    match c {
        '1' => Rank::from_u8(0),
        '2' => Rank::from_u8(1),
        '3' => Rank::from_u8(2),
        '4' => Rank::from_u8(3),
        '5' => Rank::from_u8(4),
        '6' => Rank::from_u8(5),
        '7' => Rank::from_u8(6),
        _ => Rank::from_u8(7),
    }
}

/// Reads the disambiguation `v[p..e]`: empty, a file, a rank, or a file then a rank.
fn read_disambiguation(v: &Vec<char>, p: usize, e: usize) -> (r: Option<(Option<char>, Option<char>)>)
    requires
        p <= e <= v.len(),
    ensures
        r is Some == disambiguation_ok(v@.subrange(p as int, e as int)),
        r matches Some((f, k)) ==> {
            let d = v@.subrange(p as int, e as int);
            &&& f == (if d.len() > 0 && is_file_char(d[0]) {
                Some(d[0])
            } else {
                None
            })
            &&& k == (if d.len() > 0 && is_rank_char(d.last()) {
                Some(d.last())
            } else {
                None
            })
        },
{
    let ghost d = v@.subrange(p as int, e as int);
    let len = e - p;
    if len == 0 {
        Some((None, None))
    } else if len == 1 {
        assert(d[0] == v@[p as int]);
        if is_file_letter(v[p]) {
            Some((Some(v[p]), None))
        } else if is_rank_digit(v[p]) {
            Some((None, Some(v[p])))
        } else {
            None
        }
    } else if len == 2 {
        assert(d[0] == v@[p as int] && d[1] == v@[p + 1]);
        if is_file_letter(v[p]) && is_rank_digit(v[p + 1]) {
            Some((Some(v[p]), Some(v[p + 1])))
        } else {
            None
        }
    } else {
        None
    }
}

impl PgnNonCastlingMove {
    /// Reads a SAN move other than castling from `text`.
    #[verifier::rlimit(40)]
    pub fn parse(text: &str) -> (r: Result<PgnNonCastlingMove, PgnError>)
        ensures
            match r {
                Ok(m) => non_castling_valid(text@) && non_castling_describes(text@, m),
                Err(e) => !non_castling_valid(text@) && (e matches PgnError::InvalidMove(t) && t@ == text@),
            },
    {
        let v = str_chars(text);
        let ghost s = v@;
        let n = v.len();
        let p: usize = if n > 0 && is_piece_letter_char(v[0]) {
            1
        } else {
            0
        };
        assert(p == piece_end(s));
        let ce = scan_run(&v, p, Ghost(core_class()), |c: char| -> (b: bool)
            ensures
                b == core_class()(c),
            { is_core_char(c) });
        assert(ce == core_end(s));
        let ghost c = san_core(s);
        assert(c =~= s.subrange(p as int, ce as int));
        if ce < p + 2 || !is_file_letter(v[ce - 2]) || !is_rank_digit(v[ce - 1]) {
            return Err(PgnError::InvalidMove(String::from_str(text)));
        }
        assert(c[c.len() - 2] == s[ce - 2]);
        assert(c[c.len() - 1] == s[ce - 1]);
        let hend = ce - 2;
        let ghost h = core_head(c);
        assert(h =~= s.subrange(p as int, hend as int));
        let capture = hend > p && v[hend - 1] == 'x';
        assert(capture == head_capture(h));
        let dend = if capture {
            hend - 1
        } else {
            hend
        };
        let ghost d = head_disambiguation(h);
        assert(d =~= s.subrange(p as int, dend as int));
        let (disambiguation_file, disambiguation_rank) = match read_disambiguation(&v, p, dend) {
            Some(x) => x,
            None => {
                return Err(PgnError::InvalidMove(String::from_str(text)));
            },
        };
        assert(core_ok(c));
        let to = Square::from_rank_and_file(rank_of_char(v[ce - 1]), file_of_char(v[ce - 2]));
        let pe = if ce + 1 < n && v[ce] == '=' && is_promo_letter_char(v[ce + 1]) {
            ce + 2
        } else {
            ce
        };
        assert(pe == promo_end(s));
        let promoted_to = if pe == ce + 2 {
            Piece::from_uppercase_char(v[ce + 1])
        } else {
            Piece::Null
        };
        let piece_moved = if p == 1 {
            Piece::from_uppercase_char(v[0])
        } else {
            Piece::Pawn
        };
        match PgnCommonMoveInfo::parse_suffix(&v, pe) {
            Some(info) => Ok(PgnNonCastlingMove {
                disambiguation_file,
                disambiguation_rank,
                to,
                piece_moved,
                promoted_to,
                is_capture: capture,
                common_move_info: info,
            }),
            None => Err(PgnError::InvalidMove(String::from_str(text))),
        }
    }
}

impl PgnCastlingMove {
    /// Reads a castling move from `text`.
    pub fn parse(text: &str) -> (r: Result<PgnCastlingMove, PgnError>)
        ensures
            match r {
                Ok(m) => castling_valid(text@) && m.flank == (if castling_prefix_len(text@) == 5 {
                    Flank::Queenside
                } else {
                    Flank::Kingside
                }) && suffix_describes(text@, castling_prefix_len(text@), m.common_move_info),
                Err(e) => !castling_valid(text@) && (e matches PgnError::InvalidCastlingMove(t) && t@
                    == text@),
            },
    {
        let v = str_chars(text);
        let ghost s = v@;
        let n = v.len();
        let long = n >= 5 && ((v[0] == 'O' && v[1] == '-' && v[2] == 'O' && v[3] == '-' && v[4] == 'O')
            || (v[0] == '0' && v[1] == '-' && v[2] == '0' && v[3] == '-' && v[4] == '0'));
        let short = n >= 3 && ((v[0] == 'O' && v[1] == '-' && v[2] == 'O') || (v[0] == '0' && v[1] == '-'
            && v[2] == '0'));
        proof {
            if n >= 5 {
                assert(long == (s.subrange(0, 5) == seq!['O', '-', 'O', '-', 'O'] || s.subrange(0, 5) == seq!['0', '-', '0', '-', '0'])) by {
                    if s.subrange(0, 5) == seq!['O', '-', 'O', '-', 'O'] {
                        assert(s.subrange(0, 5)[4] == 'O');
                    }
                    if s.subrange(0, 5) == seq!['0', '-', '0', '-', '0'] {
                        assert(s.subrange(0, 5)[4] == '0');
                    }
                    if long {
                        assert(s.subrange(0, 5) =~= seq!['O', '-', 'O', '-', 'O'] || s.subrange(0, 5) =~= seq!['0', '-', '0', '-', '0']);
                    }
                }
            }
            if n >= 3 {
                assert(short == (s.subrange(0, 3) == seq!['O', '-', 'O'] || s.subrange(0, 3) == seq!['0', '-', '0'])) by {
                    if s.subrange(0, 3) == seq!['O', '-', 'O'] {
                        assert(s.subrange(0, 3)[2] == 'O');
                    }
                    if s.subrange(0, 3) == seq!['0', '-', '0'] {
                        assert(s.subrange(0, 3)[2] == '0');
                    }
                    if short {
                        assert(s.subrange(0, 3) =~= seq!['O', '-', 'O'] || s.subrange(0, 3) =~= seq!['0', '-', '0']);
                    }
                }
            }
        }
        let (prefix, flank) = if long {
            (5usize, Flank::Queenside)
        } else if short {
            (3usize, Flank::Kingside)
        } else {
            return Err(PgnError::InvalidCastlingMove(String::from_str(text)));
        };
        assert(prefix == castling_prefix_len(s));
        match PgnCommonMoveInfo::parse_suffix(&v, prefix) {
            Some(info) => Ok(PgnCastlingMove { flank, common_move_info: info }),
            None => Err(PgnError::InvalidCastlingMove(String::from_str(text))),
        }
    }
}

} // verus!
