//! Splitting PGN text into tokens.
use vstd::prelude::*;
use crate::types::{Color, Flank};
use crate::fen::digits_value;
use crate::text::{run_len, scan_run, is_ws_char, string_from_chars};
use crate::pgn::error::PgnError;
use crate::pgn::move_info::{ws_class, digit_class, sub_chars, suffix_describes};
use crate::pgn::metadata::{
    PgnTag, PgnMoveNumber, PgnComment, skip, tag_valid, move_number_valid, comment_valid, tag_name_start, tag_name_end,
    tag_quote, tag_value_end, move_number_digits, comment_end,
};
use crate::pgn::moves::{
    PgnNonCastlingMove, PgnCastlingMove, non_castling_valid, castling_valid, non_castling_describes, castling_prefix_len,
};

verus! {

/// A token of PGN text.
#[derive(Clone, Debug, PartialEq)]
pub enum PgnToken {
    /// A tag pair.
    Tag(PgnTag),
    /// A move number.
    MoveNumber(PgnMoveNumber),
    /// A move other than castling.
    NonCastlingMove(PgnNonCastlingMove),
    /// A castling move.
    CastlingMove(PgnCastlingMove),
    /// `(`: a variation starts.
    StartVariation,
    /// `)`: a variation ends.
    EndVariation,
    /// A comment.
    Comment(PgnComment),
    /// A game result: the winner, or `None` for a draw.
    Result(Option<Color>),
    /// `*`: the game is unfinished.
    Incomplete,
}

/// Characters that end a word of move text: whitespace and brackets of any kind.
pub open spec fn is_delim(c: char) -> bool {
    crate::text::is_ws(c) || c == '[' || c == ']' || c == '{' || c == '}' || c == '(' || c == ')'
}

/// Characters of a word of move text.
pub open spec fn word_class() -> spec_fn(char) -> bool {
    |c: char| !is_delim(c)
}

/// Any character but `ch`.
pub open spec fn other_than(ch: char) -> spec_fn(char) -> bool {
    |c: char| c != ch
}

/// End of a bracketed token opened at `i` and closed by `ch` (the end of the text when it is
/// never closed).
pub open spec fn closing_end(s: Seq<char>, i: int, ch: char) -> int {
    let e = skip(s, i + 1, other_than(ch));
    if e < s.len() {
        e + 1
    } else {
        e
    }
}

/// A word ending at `e` takes along a following NAG: whitespace, `$` and digits.
pub open spec fn nag_extension_end(s: Seq<char>, e: int) -> int {
    let w = skip(s, e, ws_class());
    if w < s.len() && s[w] == '$' && run_len(s, w + 1, digit_class()) > 0 {
        w + 1 + run_len(s, w + 1, digit_class())
    } else {
        e
    }
}

/// End of the token starting at `i`.
pub open spec fn token_end(s: Seq<char>, i: int) -> int {
    if s[i] == '[' {
        closing_end(s, i, ']')
    } else if s[i] == '{' {
        closing_end(s, i, '}')
    } else if s[i] == '(' || s[i] == ')' || s[i] == '*' || s[i] == ']' || s[i] == '}' {
        i + 1
    } else {
        nag_extension_end(s, skip(s, i, word_class()))
    }
}

/// A move text token that starts like a non-castling move.
pub open spec fn starts_move(c: char) -> bool {
    ('a' <= c <= 'h') || c == 'N' || c == 'B' || c == 'R' || c == 'Q' || c == 'K'
}

/// `t` starts like castling: with `O`, or with "0-0".
pub open spec fn starts_castling(t: Seq<char>) -> bool {
    t[0] == 'O' || (t.len() >= 3 && t[0] == '0' && t[1] == '-' && t[2] == '0')
}

/// `r` is what the token text `t` reads as.
pub open spec fn token_result_ok(t: Seq<char>, r: Result<PgnToken, PgnError>) -> bool {
    if t[0] == '[' {
        match r {
            Ok(PgnToken::Tag(tag)) => tag_valid(t) && tag.name@ == t.subrange(tag_name_start(t), tag_name_end(t))
                && tag.value@ == t.subrange(tag_quote(t) + 1, tag_value_end(t)),
            Err(PgnError::InvalidTag(_)) => !tag_valid(t),
            _ => false,
        }
    } else if t[0] == '{' {
        match r {
            Ok(PgnToken::Comment(c)) => comment_valid(t) && c.comment@ == t.subrange(
                skip(t, 0, ws_class()) + 1,
                comment_end(t),
            ),
            Err(PgnError::InvalidComment(_)) => !comment_valid(t),
            _ => false,
        }
    } else if t[0] == '(' {
        r == Ok::<PgnToken, PgnError>(PgnToken::StartVariation)
    } else if t[0] == ')' {
        r == Ok::<PgnToken, PgnError>(PgnToken::EndVariation)
    } else if t[0] == '*' {
        r == Ok::<PgnToken, PgnError>(PgnToken::Incomplete)
    } else if t == seq!['1', '-', '0'] {
        r == Ok::<PgnToken, PgnError>(PgnToken::Result(Some(Color::White)))
    } else if t == seq!['0', '-', '1'] {
        r == Ok::<PgnToken, PgnError>(PgnToken::Result(Some(Color::Black)))
    } else if t == seq!['1', '/', '2', '-', '1', '/', '2'] {
        r == Ok::<PgnToken, PgnError>(PgnToken::Result(None))
    } else if starts_castling(t) {
        match r {
            Ok(PgnToken::CastlingMove(m)) => castling_valid(t) && m.flank == (if castling_prefix_len(t) == 5 {
                Flank::Queenside
            } else {
                Flank::Kingside
            }) && suffix_describes(t, castling_prefix_len(t), m.common_move_info),
            Err(PgnError::InvalidCastlingMove(_)) => !castling_valid(t),
            _ => false,
        }
    } else if '0' <= t[0] <= '9' {
        match r {
            Ok(PgnToken::MoveNumber(n)) => move_number_valid(t) && n.fullmove_number == digits_value(
                move_number_digits(t),
                move_number_digits(t).len() as int,
            ),
            Err(PgnError::InvalidMoveNumber(_)) => !(move_number_valid(t) && digits_value(
                move_number_digits(t),
                move_number_digits(t).len() as int,
            ) <= 65535),
            _ => false,
        }
    } else if starts_move(t[0]) {
        match r {
            Ok(PgnToken::NonCastlingMove(m)) => non_castling_valid(t) && non_castling_describes(t, m),
            Err(PgnError::InvalidMove(_)) => !non_castling_valid(t),
            _ => false,
        }
    } else {
        r matches Err(PgnError::InvalidToken(x)) && x@ == Seq::<char>::empty()
    }
}

/// Whether `c` ends a word.
fn is_delim_char(c: char) -> (r: bool)
    ensures
        r == is_delim(c),
{
    is_ws_char(c) || c == '[' || c == ']' || c == '{' || c == '}' || c == '(' || c == ')'
}

/// Finds the end of the token starting at `i`.
fn find_token_end(v: &Vec<char>, i: usize) -> (e: usize)
    requires
        i < v.len(),
        !crate::text::is_ws(v@[i as int]),
    ensures
        e == token_end(v@, i as int),
        i < e <= v.len(),
{
    let c = v[i];
    if c == '[' || c == '{' {
        let ch = if c == '[' {
            ']'
        } else {
            '}'
        };
        let e = scan_run(v, i + 1, Ghost(other_than(ch)), |x: char| -> (b: bool)
            ensures
                b == other_than(ch)(x),
            { x != ch });
        if e < v.len() {
            e + 1
        } else {
            e
        }
    } else if c == '(' || c == ')' || c == '*' || c == ']' || c == '}' {
        i + 1
    } else {
        let e = scan_run(v, i, Ghost(word_class()), |x: char| -> (b: bool)
            ensures
                b == word_class()(x),
            { !is_delim_char(x) });
        assert(e > i) by {
            assert(word_class()(v@[i as int]));
        }
        let w = scan_run(v, e, Ghost(ws_class()), |x: char| -> (b: bool)
            ensures
                b == ws_class()(x),
            { is_ws_char(x) });
        if w < v.len() && v[w] == '$' {
            let d = scan_run(v, w + 1, Ghost(digit_class()), |x: char| -> (b: bool)
                ensures
                    b == digit_class()(x),
                { '0' <= x && x <= '9' });
            if d > w + 1 {
                d
            } else {
                e
            }
        } else {
            e
        }
    }
}

/// Reads the token text `t` (non-empty).
fn read_token(t: &Vec<char>) -> (r: Result<PgnToken, PgnError>)
    requires
        t.len() > 0,
    ensures
        token_result_ok(t@, r),
{
    let text = string_from_chars(t.as_slice());
    let s = text.as_str();
    let c = t[0];
    if c == '[' {
        match PgnTag::parse(s) {
            Ok(tag) => Ok(PgnToken::Tag(tag)),
            Err(e) => Err(e),
        }
    } else if c == '{' {
        match PgnComment::parse(s) {
            Ok(comment) => Ok(PgnToken::Comment(comment)),
            Err(e) => Err(e),
        }
    } else if c == '(' {
        Ok(PgnToken::StartVariation)
    } else if c == ')' {
        Ok(PgnToken::EndVariation)
    } else if c == '*' {
        Ok(PgnToken::Incomplete)
    } else if t.len() == 3 && t[0] == '1' && t[1] == '-' && t[2] == '0' {
        proof {
            assert(t@ =~= seq!['1', '-', '0']);
        }
        Ok(PgnToken::Result(Some(Color::White)))
    } else if t.len() == 3 && t[0] == '0' && t[1] == '-' && t[2] == '1' {
        proof {
            assert(t@ =~= seq!['0', '-', '1']);
            assert(t@ != seq!['1', '-', '0']);
        }
        Ok(PgnToken::Result(Some(Color::Black)))
    } else if t.len() == 7 && t[0] == '1' && t[1] == '/' && t[2] == '2' && t[3] == '-' && t[4] == '1'
        && t[5] == '/' && t[6] == '2' {
        proof {
            assert(t@ =~= seq!['1', '/', '2', '-', '1', '/', '2']);
            assert(t@.len() != 3);
        }
        Ok(PgnToken::Result(None))
    } else {
        proof {
            if t@.len() == 3 {
                assert(t@ != seq!['1', '-', '0'] && t@ != seq!['0', '-', '1']) by {
                    if t@ == seq!['1', '-', '0'] {
                        assert(t@[0] == '1' && t@[1] == '-' && t@[2] == '0');
                    }
                    if t@ == seq!['0', '-', '1'] {
                        assert(t@[0] == '0' && t@[1] == '-' && t@[2] == '1');
                    }
                }
            }
            if t@.len() == 7 {
                assert(t@ != seq!['1', '/', '2', '-', '1', '/', '2']) by {
                    if t@ == seq!['1', '/', '2', '-', '1', '/', '2'] {
                        assert(t@[0] == '1' && t@[1] == '/' && t@[2] == '2' && t@[3] == '-' && t@[4] == '1' && t@[5] == '/' && t@[6] == '2');
                    }
                }
            }
        }
        if c == 'O' || (t.len() >= 3 && t[0] == '0' && t[1] == '-' && t[2] == '0') {
            match PgnCastlingMove::parse(s) {
                Ok(m) => Ok(PgnToken::CastlingMove(m)),
                Err(e) => Err(e),
            }
        } else if '0' <= c && c <= '9' {
            match PgnMoveNumber::parse(s) {
                Ok(n) => Ok(PgnToken::MoveNumber(n)),
                Err(e) => Err(e),
            }
        } else if ('a' <= c && c <= 'h') || c == 'N' || c == 'B' || c == 'R' || c == 'Q' || c == 'K' {
            match PgnNonCastlingMove::parse(s) {
                Ok(m) => Ok(PgnToken::NonCastlingMove(m)),
                Err(e) => Err(e),
            }
        } else {
            Err(PgnError::InvalidToken(String::new()))
        }
    }
}

/// Reads the next token of `v` from `pos` on: `None` when only whitespace is left; otherwise
/// what the token reads as, where it ends, and its text.
pub fn next_token(v: &Vec<char>, pos: usize) -> (r: Option<(Result<PgnToken, PgnError>, usize, Vec<char>)>)
    requires
        pos <= v.len(),
    ensures
        r is None == (skip(v@, pos as int, ws_class()) == v@.len()),
        r matches Some((tok, e, t)) ==> {
            let start = skip(v@, pos as int, ws_class());
            &&& start < e <= v@.len()
            &&& e == token_end(v@, start)
            &&& t@ == v@.subrange(start, e as int)
            &&& token_result_ok(t@, tok)
        },
{
    let start = scan_run(v, pos, Ghost(ws_class()), |x: char| -> (b: bool)
        ensures
            b == ws_class()(x),
        { is_ws_char(x) });
    if start == v.len() {
        return None;
    }
    proof {
        crate::text::lemma_run_stop(v@, pos as int, ws_class());
    }
    let e = find_token_end(v, start);
    let t = sub_chars(v, start, e);
    assert(t@[0] == v@[start as int]);
    let tok = read_token(&t);
    Some((tok, e, t))
}

} // verus!
