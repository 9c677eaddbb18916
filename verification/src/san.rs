//! Standard Algebraic Notation (SAN) for moves.
use vstd::prelude::*;
use vstd::string::StringExecFns;
use crate::text::push_char;
use crate::types::{Move, MoveFlag, Piece, Square};
use crate::types::piece::piece_upper;
use crate::types::square::{sq_file, sq_rank};

verus! {

/// The letter of the file of square `s`.
pub open spec fn file_letter(s: int) -> char {
    (97 + sq_file(s)) as char
}

/// Square `s` in algebraic notation.
pub open spec fn square_text(s: int) -> Seq<char> {
    seq![file_letter(s), (49 + sq_rank(s)) as char]
}

/// What SAN writes for the moving piece: a letter for a piece, the origin file for a pawn that
/// captures, nothing for a pawn that does not.
pub open spec fn piece_text(moved: Piece, from: int, is_capture: bool) -> Seq<char> {
    match moved {
        Piece::Pawn => if is_capture {
            seq![file_letter(from)]
        } else {
            Seq::empty()
        },
        _ => seq![piece_upper(moved)],
    }
}

/// The SAN of `m`: "O-O" or "O-O-O" for castling; otherwise the piece text, the
/// disambiguation, "x" for a capture, the target square and "=" with the promotion piece; then
/// "#" for checkmate or "+" for check.
pub open spec fn san_text(
    m: Move,
    moved: Piece,
    dis: Seq<char>,
    is_check: bool,
    is_checkmate: bool,
    is_capture: bool,
) -> Seq<char> {
    let to = m.to_spec().idx();
    let body = if m.flag_spec() == MoveFlag::Castling {
        if sq_file(to) == 6 {
            seq!['O', '-', 'O']
        } else {
            seq!['O', '-', 'O', '-', 'O']
        }
    } else {
        piece_text(moved, m.from_spec().idx(), is_capture) + dis + (if is_capture {
            seq!['x']
        } else {
            Seq::empty()
        }) + square_text(to) + (if m.flag_spec() == MoveFlag::Promotion {
            seq!['=', piece_upper(m.promotion_spec())]
        } else {
            Seq::empty()
        })
    };
    body + (if is_checkmate {
        seq!['#']
    } else if is_check {
        seq!['+']
    } else {
        Seq::empty()
    })
}

/// The shape of a SAN move text: castling starts with `O`; a move of a knight, bishop, rook,
/// queen or king starts with that piece's letter `N`, `B`, `R`, `Q`, `K`; a pawn move without a
/// disambiguator starts with a file letter (the origin file of a capture, else the target
/// file); and the text ends with `#` for checkmate, else `+` for check.
pub proof fn lemma_san_shape(m: Move, moved: Piece, dis: Seq<char>, is_check: bool, is_checkmate: bool, is_capture: bool)
    ensures
        ({
            let t = san_text(m, moved, dis, is_check, is_checkmate, is_capture);
            &&& t.len() > 0
            &&& m.flag_spec() == MoveFlag::Castling ==> t[0] == 'O'
            &&& m.flag_spec() != MoveFlag::Castling ==> {
                &&& moved == Piece::Knight ==> t[0] == 'N'
                &&& moved == Piece::Bishop ==> t[0] == 'B'
                &&& moved == Piece::Rook ==> t[0] == 'R'
                &&& moved == Piece::Queen ==> t[0] == 'Q'
                &&& moved == Piece::King ==> t[0] == 'K'
                &&& moved == Piece::Pawn && dis.len() == 0 ==> 'a' <= t[0] <= 'h' && t[0] as int - 'a' as int
                    == sq_file(if is_capture { m.from_spec().idx() } else { m.to_spec().idx() })
            }
            &&& is_checkmate ==> t.last() == '#'
            &&& is_check && !is_checkmate ==> t.last() == '+'
        }),
{
    crate::attacks::manual::lemma_coords(m.from_spec().idx());
    crate::attacks::manual::lemma_coords(m.to_spec().idx());
}

/// Appends square `sq` in algebraic notation to `out`.
fn push_square(out: &mut String, sq: Square)
    ensures
        final(out)@ == old(out)@ + square_text(sq.idx()),
{
    let f = sq.file_char();
    let r = sq.rank_char();
    push_char(out, f);
    push_char(out, r);
    proof {
        assert(f == file_letter(sq.idx()));
        assert(final(out)@ =~= old(out)@ + square_text(sq.idx()));
    }
}

/// Appends the piece text of a non-castling move to `out`.
fn push_piece_text(out: &mut String, moved: Piece, from: Square, is_capture: bool)
    requires
        moved != Piece::Null,
    ensures
        final(out)@ == old(out)@ + piece_text(moved, from.idx(), is_capture),
{
    match moved {
        Piece::Pawn => {
            if is_capture {
                let f = from.file_char();
                push_char(out, f);
                proof {
                    assert(f == file_letter(from.idx()));
                }
            }
        },
        _ => push_char(out, moved.uppercase_ascii()),
    }
    proof {
        assert(final(out)@ =~= old(out)@ + piece_text(moved, from.idx(), is_capture));
    }
}

/// Appends the check or checkmate mark to `out`.
fn push_check_mark(out: &mut String, is_check: bool, is_checkmate: bool)
    ensures
        final(out)@ == old(out)@ + (if is_checkmate {
            seq!['#']
        } else if is_check {
            seq!['+']
        } else {
            Seq::<char>::empty()
        }),
{
    if is_checkmate {
        push_char(out, '#');
    } else if is_check {
        push_char(out, '+');
    }
    proof {
        assert(final(out)@ =~= old(out)@ + (if is_checkmate {
            seq!['#']
        } else if is_check {
            seq!['+']
        } else {
            Seq::<char>::empty()
        }));
    }
}

impl Move {
    /// Renders this move in SAN. `moved_piece` is the piece on the origin square before the
    /// move, `disambiguation_str` the disambiguator already computed ("b", "3", "b3" or ""),
    /// `is_check` and `is_checkmate` describe the resulting position and `is_capture` whether
    /// the move captures (en passant included).
    pub fn san(
        &self,
        moved_piece: Piece,
        disambiguation_str: &str,
        is_check: bool,
        is_checkmate: bool,
        is_capture: bool,
    ) -> (r: String)
        requires
            self.flag_spec() == MoveFlag::Castling ==> sq_file(self.to_spec().idx()) == 6
                || sq_file(self.to_spec().idx()) == 2,
            self.flag_spec() != MoveFlag::Castling ==> moved_piece != Piece::Null,
        ensures
            r@ == san_text(
                *self,
                moved_piece,
                disambiguation_str@,
                is_check,
                is_checkmate,
                is_capture,
            ),
    {
        let to = self.to();
        let flag = self.flag();
        let mut out = String::new();
        if flag == MoveFlag::Castling {
            push_char(&mut out, 'O');
            push_char(&mut out, '-');
            push_char(&mut out, 'O');
            if to.index() % 8 != 6 {
                push_char(&mut out, '-');
                push_char(&mut out, 'O');
            }
            proof {
                if sq_file(to.idx()) == 6 {
                    assert(out@ =~= seq!['O', '-', 'O']);
                } else {
                    assert(out@ =~= seq!['O', '-', 'O', '-', 'O']);
                }
            }
        } else {
            let ghost e0 = out@;
            push_piece_text(&mut out, moved_piece, self.from(), is_capture);
            let ghost e1 = out@;
            out.append(disambiguation_str);
            let ghost e2 = out@;
            if is_capture {
                push_char(&mut out, 'x');
            }
            let ghost e3 = out@;
            push_square(&mut out, to);
            let ghost e4 = out@;
            if flag == MoveFlag::Promotion {
                push_char(&mut out, '=');
                push_char(&mut out, self.promotion().uppercase_ascii());
            }
            proof {
                assert(e0 =~= Seq::<char>::empty());
                assert(e3 =~= e2 + (if is_capture {
                    seq!['x']
                } else {
                    Seq::<char>::empty()
                }));
                assert(out@ =~= e4 + (if flag == MoveFlag::Promotion {
                    seq!['=', piece_upper(self.promotion_spec())]
                } else {
                    Seq::<char>::empty()
                }));
            }
        }
        push_check_mark(&mut out, is_check, is_checkmate);
        out
    }
}

} // verus!
